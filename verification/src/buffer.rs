//! The byte buffer that input is read from and in which undecoded payloads are kept.

use bytes::{Buf, BufMut, Bytes};
use vstd::prelude::*;

verus! {

/// The bytes that a `bytes::Bytes` holds, from the next one to be read to the last.
pub uninterp spec fn content(buf: Bytes) -> Seq<u8>;

/// `Bytes::len`: the number of bytes that the buffer holds.
#[verifier::external_body]
pub(crate) fn len(buf: &Bytes) -> (n: usize)
    ensures
        n == content(*buf).len(),
{
    buf.len()
}

/// `Bytes::clone`: a second handle on the same bytes.
pub assume_specification[ <bytes::Bytes as core::clone::Clone>::clone ](buf: &bytes::Bytes) -> (copy:
    bytes::Bytes)
    ensures
        content(copy) == content(*buf),
;

/// `Buf::copy_to_bytes` on a `Bytes`: takes the first `len` bytes off the front of
/// the buffer and returns them as a buffer of their own. The call panics where
/// fewer than `len` bytes are left, so that is ruled out.
#[verifier::external_body]
pub(crate) fn copy_to_bytes(buf: &mut Bytes, len: usize) -> (front: Bytes)
    requires
        len <= content(*old(buf)).len(),
    ensures
        content(front) == content(*old(buf)).take(len as int),
        content(*final(buf)) == content(*old(buf)).skip(len as int),
{
    buf.copy_to_bytes(len)
}

/// `Buf::chain` and then `Buf::copy_to_bytes` on the chain: one buffer that holds
/// the bytes of `first` followed by those of `second`. `first` is read to its end.
/// `len` is the number of bytes of both together; the call allocates that many
/// at once, so it has to be a size that can be allocated.
#[verifier::external_body]
pub(crate) fn chain_to_bytes(first: &mut Bytes, second: Bytes, len: usize) -> (joined: Bytes)
    requires
        len == content(*old(first)).len() + content(second).len(),
        len <= isize::MAX,
    ensures
        content(joined) == content(*old(first)) + content(second),
        content(*final(first)).len() == 0,
{
    first.chain(second).copy_to_bytes(len)
}

/// `BufMut::put` on a `Vec<u8>`: appends the bytes of `src` to `out`. The vector
/// cannot grow past `isize::MAX` bytes.
#[verifier::external_body]
pub(crate) fn put(out: &mut Vec<u8>, src: Bytes)
    requires
        old(out)@.len() + content(src).len() <= isize::MAX,
    ensures
        final(out)@ == old(out)@ + content(src),
{
    out.put(src)
}

} // verus!
