//! The value of a lazy field: absent, kept as bytes, or decoded.

use crate::buffer::content;
use bytes::Bytes;
use vstd::prelude::*;

verus! {

/// The value of a field that is decoded when it is first read.
#[derive(Debug, PartialEq, Clone)]
pub enum Lazy<M> {
    /// Nothing has been merged into the field.
    Init,
    /// The payloads merged so far, one after the other, not yet decoded.
    Pending(Bytes),
    /// The decoded message.
    Ready(M),
}

/// What a lazy value stands for: the bytes it keeps, or the view of its message.
pub enum LazyView<V> {
    Init,
    Pending(Seq<u8>),
    Ready(V),
}

impl<M: View> View for Lazy<M> {
    type V = LazyView<M::V>;

    open spec fn view(&self) -> LazyView<M::V> {
        match self {
            Lazy::Init => LazyView::Init,
            Lazy::Pending(bytes) => LazyView::Pending(content(*bytes)),
            Lazy::Ready(message) => LazyView::Ready(message@),
        }
    }
}

impl<M> Default for Lazy<M> {
    fn default() -> (value: Self)
        ensures
            value is Init,
    {
        Lazy::Init
    }
}

} // verus!
