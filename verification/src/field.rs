//! The slot that a message keeps for a lazy field.

use crate::buffer::{chain_to_bytes, content, len, put};
use crate::error::{Error, MergeError};
use crate::lazy::{Lazy, LazyView};
use crate::message::{
    decode, decoded, fields_merged, lemma_fields_merged_rest, merge_all, merge_fields,
    merged_onto, Message,
};
use crate::wire::{is_rest_of, DecodeContext};
use bytes::Bytes;
use vstd::prelude::*;

verus! {

/// The bytes that a lazy value takes on the wire, without key and length prefix.
pub open spec fn encoding<M: Message>(state: LazyView<M::V>) -> Seq<u8> {
    match state {
        LazyView::Init => Seq::empty(),
        LazyView::Pending(bytes) => bytes,
        LazyView::Ready(value) => M::encoding(value),
    }
}

/// What reading does to a lazy value: bytes that are kept are decoded.
pub open spec fn promoted<M: Message>(state: LazyView<M::V>) -> Result<LazyView<M::V>, MergeError> {
    match state {
        LazyView::Pending(bytes) => match decoded::<M>(bytes) {
            Ok(value) => Ok(LazyView::Ready(value)),
            Err(e) => Err(e),
        },
        other => Ok(other),
    }
}

/// What putting a payload aside does to a lazy value: the payload is kept after the
/// bytes that are kept already, and merged into a message that is decoded already.
pub open spec fn deferred<M: Message>(state: LazyView<M::V>, payload: Seq<u8>) -> Result<
    LazyView<M::V>,
    MergeError,
> {
    match state {
        LazyView::Init => Ok(LazyView::Pending(payload)),
        LazyView::Pending(bytes) => Ok(LazyView::Pending(bytes + payload)),
        LazyView::Ready(value) => match merged_onto::<M>(value, payload) {
            Ok(merged) => Ok(LazyView::Ready(merged)),
            Err(e) => Err(e),
        },
    }
}

/// The message that the fields of a payload are merged into when the payload is
/// decoded at once: a new one, the one that the kept bytes decode to, or the one
/// that is there.
pub open spec fn base<M: Message>(state: LazyView<M::V>) -> Result<M::V, MergeError> {
    match state {
        LazyView::Init => Ok(M::empty()),
        LazyView::Pending(bytes) => decoded::<M>(bytes),
        LazyView::Ready(value) => Ok(value),
    }
}

/// What decoding a payload at once does to a lazy value. The payload is the front
/// of `input`, all but the last `limit` bytes; its fields are read at `depth`. The
/// result is the decoded value and what is left of `input`. A field that reaches
/// into the last `limit` bytes is an error.
pub open spec fn eager<M: Message>(
    state: LazyView<M::V>,
    input: Seq<u8>,
    limit: nat,
    depth: nat,
) -> Result<(LazyView<M::V>, Seq<u8>), MergeError> {
    match base::<M>(state) {
        Err(e) => Err(e),
        Ok(start) => match fields_merged::<M>(start, input, limit, depth) {
            Err(e) => Err(e),
            Ok((value, rest)) => if rest.len() == limit {
                Ok((LazyView::Ready(value), rest))
            } else {
                Err(MergeError::LengthExceeded)
            },
        },
    }
}

/// Whether decoding a payload at once may end as it did: with result `r`, the value
/// `after` and `rest` left of `input`.
///
/// Where the kept bytes do not decode, that error comes out and `input` is not
/// touched. Where a field is refused, that error comes out, and bytes that were
/// kept are gone. Where every field is taken the value is decoded, also where the
/// last field reached past the payload, which is the error `LengthExceeded`.
pub open spec fn eager_outcome<M: Message>(
    before: LazyView<M::V>,
    input: Seq<u8>,
    limit: nat,
    depth: nat,
    r: Result<(), MergeError>,
    after: LazyView<M::V>,
    rest: Seq<u8>,
) -> bool {
    match base::<M>(before) {
        Err(e) => r == Err::<(), MergeError>(e) && survives(before, after) && rest == input,
        Ok(start) => match fields_merged::<M>(start, input, limit, depth) {
            Err(e) => r == Err::<(), MergeError>(e) && survives(before, after) && is_rest_of(
                rest,
                input,
            ) && (before is Pending ==> after->Pending_0.len() == 0),
            Ok((value, left)) => after == LazyView::Ready(value) && rest == left && r == (if left.len()
                == limit {
                Ok::<(), MergeError>(())
            } else {
                Err::<(), MergeError>(MergeError::LengthExceeded)
            }),
        },
    }
}

/// What a failed merge or read may leave of a lazy value: it is in the state it was
/// in, bytes that were kept have lost some from their front or none, and nothing is
/// said of a decoded message.
pub open spec fn survives<V>(before: LazyView<V>, after: LazyView<V>) -> bool {
    match before {
        LazyView::Init => after is Init,
        LazyView::Pending(bytes) => after is Pending && is_rest_of(after->Pending_0, bytes),
        LazyView::Ready(_) => after is Ready,
    }
}

/// A lazy value together with the count of the borrows that are out on it.
///
/// A reader asks for a shared borrow and a writer for the exclusive one; each
/// gives it back when done. The slot refuses a borrow that conflicts with one that
/// is still out, and `get` fails rather than decode under a borrow.
#[derive(Debug)]
pub struct LazyField<M> {
    value: Lazy<M>,
    shared: usize,
    exclusive: bool,
}

impl<M: Message> LazyField<M> {
    /// The value that the slot holds.
    pub closed spec fn state(&self) -> LazyView<M::V> {
        self.value@
    }

    /// The number of shared borrows that are out.
    pub closed spec fn readers(&self) -> nat {
        self.shared as nat
    }

    /// Whether the exclusive borrow is out.
    pub closed spec fn writing(&self) -> bool {
        self.exclusive
    }

    /// Whether no borrow is out.
    pub open spec fn is_free(&self) -> bool {
        self.readers() == 0 && !self.writing()
    }

    /// The number of bytes that the slot keeps undecoded.
    pub open spec fn kept(&self) -> nat {
        match self.state() {
            LazyView::Pending(bytes) => bytes.len(),
            _ => 0,
        }
    }

    /// A slot for `value`, with no borrow out.
    pub fn new(value: Lazy<M>) -> (field: Self)
        ensures
            field.state() == value@,
            field.is_free(),
    {
        LazyField { value, shared: 0, exclusive: false }
    }

    /// The value that the slot holds.
    pub fn value(&self) -> (value: &Lazy<M>)
        ensures
            value@ == self.state(),
    {
        &self.value
    }

    /// The number of bytes that the slot keeps undecoded.
    pub fn kept_len(&self) -> (n: usize)
        ensures
            n == self.kept(),
    {
        match &self.value {
            Lazy::Pending(bytes) => len(bytes),
            _ => 0,
        }
    }

    /// Whether no borrow is out.
    pub fn free(&self) -> (free: bool)
        ensures
            free == self.is_free(),
    {
        self.shared == 0 && !self.exclusive
    }

    /// Whether the exclusive borrow is out.
    pub fn is_writing(&self) -> (writing: bool)
        ensures
            writing == self.writing(),
    {
        self.exclusive
    }

    /// Takes a shared borrow, unless the exclusive one is out. Returns whether the
    /// borrow was given.
    pub fn try_borrow(&mut self) -> (given: bool)
        ensures
            given == (!old(self).writing() && old(self).readers() < usize::MAX),
            final(self).readers() == old(self).readers() + (if given {
                1nat
            } else {
                0nat
            }),
            final(self).writing() == old(self).writing(),
            final(self).state() == old(self).state(),
    {
        if self.exclusive || self.shared == usize::MAX {
            false
        } else {
            self.shared = self.shared + 1;
            true
        }
    }

    /// Takes the exclusive borrow, unless a borrow is out. Returns whether the
    /// borrow was given.
    pub fn try_borrow_mut(&mut self) -> (given: bool)
        ensures
            given == old(self).is_free(),
            final(self).writing() == (old(self).writing() || given),
            final(self).readers() == old(self).readers(),
            final(self).state() == old(self).state(),
    {
        if self.exclusive || self.shared > 0 {
            false
        } else {
            self.exclusive = true;
            true
        }
    }

    /// Gives a shared borrow back.
    pub fn release(&mut self)
        requires
            old(self).readers() > 0,
        ensures
            final(self).readers() == old(self).readers() - 1,
            final(self).writing() == old(self).writing(),
            final(self).state() == old(self).state(),
    {
        self.shared = self.shared - 1;
    }

    /// Gives the exclusive borrow back.
    pub fn release_mut(&mut self)
        requires
            old(self).writing(),
        ensures
            !final(self).writing(),
            final(self).readers() == old(self).readers(),
            final(self).state() == old(self).state(),
    {
        self.exclusive = false;
    }

    /// Makes `message` the value of the field.
    pub fn set(&mut self, message: M)
        requires
            old(self).is_free(),
        ensures
            final(self).state() == LazyView::Ready(message@),
            final(self).is_free(),
    {
        self.value = Lazy::Ready(message);
    }

    /// Empties the field: what it kept or had decoded is dropped.
    pub fn clear(&mut self)
        requires
            old(self).is_free(),
        ensures
            final(self).state() == LazyView::<M::V>::Init,
            final(self).is_free(),
    {
        self.value = Lazy::Init;
    }

    /// The number of bytes that the field takes on the wire, without key and length
    /// prefix: none where the field is empty, the bytes that are kept, or what the
    /// decoded message encodes to.
    pub fn encoded_len(&self) -> (n: usize)
        requires
            !self.writing(),
        ensures
            n == encoding::<M>(self.state()).len(),
    {
        match &self.value {
            Lazy::Init => 0,
            Lazy::Pending(bytes) => len(bytes),
            Lazy::Ready(message) => message.encoded_len(),
        }
    }

    /// The size of the field as it stands. This is `encoded_len`.
    pub fn current_len(&self) -> (n: usize)
        requires
            !self.writing(),
        ensures
            n == encoding::<M>(self.state()).len(),
    {
        self.encoded_len()
    }

    /// Appends the bytes of the field to `out`, without key and length prefix. Bytes
    /// that are kept are written as they are; nothing is decoded.
    pub fn encode_raw(&self, out: &mut Vec<u8>)
        requires
            !self.writing(),
            old(out)@.len() + encoding::<M>(self.state()).len() <= isize::MAX,
        ensures
            final(out)@ == old(out)@ + encoding::<M>(self.state()),
    {
        match &self.value {
            Lazy::Init => {
                assert(out@ =~= out@ + Seq::<u8>::empty());
            },
            Lazy::Pending(bytes) => {
                put(out, bytes.clone());
            },
            Lazy::Ready(message) => {
                message.encode_raw(out);
            },
        }
    }

    /// Puts a payload aside. An empty field keeps it, a field that keeps bytes keeps
    /// it after them, and a field that is decoded merges it.
    pub fn defer(&mut self, payload: Bytes) -> (r: Result<(), MergeError>)
        requires
            old(self).is_free(),
            old(self).kept() + content(payload).len() <= isize::MAX,
        ensures
            final(self).is_free(),
            match deferred::<M>(old(self).state(), content(payload)) {
                Ok(state) => r is Ok && final(self).state() == state,
                Err(e) => r == Err::<(), MergeError>(e) && survives(
                    old(self).state(),
                    final(self).state(),
                ),
            },
    {
        match &mut self.value {
            Lazy::Init => {
                self.value = Lazy::Pending(payload);
                Ok(())
            },
            Lazy::Pending(bytes) => {
                let origin_len: usize = len(bytes);
                if origin_len == 0 {
                    assert(content(payload) =~= content(*bytes) + content(payload));
                    *bytes = payload;
                } else {
                    let more: usize = len(&payload);
                    let joined = chain_to_bytes(bytes, payload, origin_len + more);
                    *bytes = joined;
                }
                Ok(())
            },
            Lazy::Ready(message) => {
                let mut payload = payload;
                merge_all(message, &mut payload)
            },
        }
    }

    /// Decodes a payload at once and merges it into the field. The payload is the
    /// front of `buf`, all but the last `limit` bytes. Bytes that the field keeps are
    /// decoded first, and the field ends up decoded.
    pub fn merge_eager(&mut self, buf: &mut Bytes, limit: usize, ctx: DecodeContext) -> (r: Result<
        (),
        MergeError,
    >)
        requires
            old(self).is_free(),
        ensures
            final(self).is_free(),
            eager_outcome::<M>(
                old(self).state(),
                content(*old(buf)),
                limit as nat,
                ctx.depth(),
                r,
                final(self).state(),
                content(*final(buf)),
            ),
    {
        assert(content(*buf) =~= content(*buf).skip(0));
        match &mut self.value {
            Lazy::Init => {
                let mut message = M::default();
                match merge_fields(&mut message, buf, limit, ctx) {
                    Ok(()) => {},
                    Err(e) => {
                        return Err(e);
                    },
                }
                self.value = Lazy::Ready(message);
            },
            Lazy::Pending(bytes) => {
                let ghost kept = content(*bytes);
                let mut message = if len(bytes) == 0 {
                    assert(kept =~= kept.skip(0));
                    M::default()
                } else {
                    match decode::<M>(bytes) {
                        Ok(m) => m,
                        Err(e) => {
                            return Err(e);
                        },
                    }
                };
                assert(content(*bytes) =~= kept.skip(kept.len() - content(*bytes).len()));
                match merge_fields(&mut message, buf, limit, ctx) {
                    Ok(()) => {},
                    Err(e) => {
                        return Err(e);
                    },
                }
                self.value = Lazy::Ready(message);
            },
            Lazy::Ready(message) => {
                match merge_fields(message, buf, limit, ctx) {
                    Ok(()) => {},
                    Err(e) => {
                        return Err(e);
                    },
                }
            },
        }
        proof {
            let start = base::<M>(old(self).state())->Ok_0;
            lemma_fields_merged_rest::<M>(start, content(*old(buf)), limit as nat, ctx.depth());
        }
        if len(buf) != limit {
            return Err(MergeError::LengthExceeded);
        }
        Ok(())
    }

    /// Decodes the bytes that the field keeps, so that the field holds a message.
    /// An empty or decoded field stays as it is. Where the bytes do not decode the
    /// field keeps what the failed decode left of them.
    pub fn promote(&mut self) -> (r: Result<(), MergeError>)
        requires
            old(self).is_free(),
        ensures
            final(self).is_free(),
            match promoted::<M>(old(self).state()) {
                Ok(state) => r is Ok && final(self).state() == state,
                Err(e) => r == Err::<(), MergeError>(e) && survives(
                    old(self).state(),
                    final(self).state(),
                ),
            },
    {
        match &mut self.value {
            Lazy::Pending(bytes) => {
                match decode::<M>(bytes) {
                    Ok(message) => {
                        self.value = Lazy::Ready(message);
                        Ok(())
                    },
                    Err(e) => Err(e),
                }
            },
            _ => Ok(()),
        }
    }

    /// Reads the field `name`: the decoded message, or `None` where nothing was ever
    /// merged. Bytes that the field keeps are decoded on the way, once.
    ///
    /// The read fails with `BorrowBeforeGet(name)` where it would conflict with a
    /// borrow that is out: always under the exclusive borrow, and under a shared
    /// borrow where there are bytes to decode. It fails with `Decode` where the kept
    /// bytes do not decode.
    pub fn get(&mut self, name: &str) -> (r: Result<Option<&M>, Error>)
        ensures
            final(self).readers() == old(self).readers(),
            final(self).writing() == old(self).writing(),
            old(self).writing() || (old(self).state() is Pending && old(self).readers() > 0) ==> (
            r matches Err(Error::BorrowBeforeGet(field)) && field@ == name@) && final(self).state()
                == old(self).state(),
            !old(self).writing() && !(old(self).state() is Pending && old(self).readers() > 0)
                ==> match promoted::<M>(old(self).state()) {
                Ok(state) => final(self).state() == state && match state {
                    LazyView::Ready(value) => r matches Ok(Some(message)) && message@ == value,
                    _ => r matches Ok(None),
                },
                Err(e) => (r matches Err(Error::Decode(cause)) && cause == e) && survives(
                    old(self).state(),
                    final(self).state(),
                ),
            },
    {
        if self.exclusive {
            return Err(Error::BorrowBeforeGet(name.to_owned()));
        }
        match &mut self.value {
            Lazy::Pending(bytes) => {
                if self.shared > 0 {
                    return Err(Error::BorrowBeforeGet(name.to_owned()));
                }
                match decode::<M>(bytes) {
                    Ok(message) => {
                        self.value = Lazy::Ready(message);
                    },
                    Err(e) => {
                        return Err(Error::Decode(e));
                    },
                }
            },
            _ => {},
        }
        match &self.value {
            Lazy::Ready(message) => Ok(Some(message)),
            _ => Ok(None),
        }
    }
}

impl<M: Message> Default for LazyField<M> {
    fn default() -> (field: Self)
        ensures
            field.state() == LazyView::<M::V>::Init,
            field.is_free(),
    {
        LazyField { value: Lazy::Init, shared: 0, exclusive: false }
    }
}

} // verus!
