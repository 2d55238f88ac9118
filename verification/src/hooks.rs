//! What a message calls for a lazy field of its own: merging one occurrence of the
//! field from the wire, writing the field, and measuring it.

use crate::buffer::{content, copy_to_bytes, len};
use crate::error::MergeError;
use crate::field::{base, deferred, eager, eager_outcome, encoding, survives, LazyField};
use crate::lazy::LazyView;
use crate::message::{fields_merged, lemma_fields_merged_rest, lemma_rest_of_rest, Message};
use crate::wire::{
    check_wire_type, decode_varint, encode_delimited_key, encode_varint, encoded_len_varint,
    is_rest_of, key_encoding, key_len, lemma_key_encoding_len, lemma_varint_encoding_len,
    varint_decoded, varint_encoding, DecodeContext, WireType, MAX_TAG,
};
use bytes::Bytes;
use vstd::prelude::*;

verus! {

/// The longest payload that is decoded at once. A longer one is put aside.
pub const EAGER_LIMIT: u64 = 32;

/// The length prefix at the front of `input`: the length of the payload and the
/// number of bytes that the prefix takes, or the reason why there is no payload to
/// read.
pub open spec fn framed(wire_type: WireType, input: Seq<u8>, depth: nat) -> Result<
    (u64, nat),
    MergeError,
> {
    if wire_type != WireType::LengthDelimited {
        Err(MergeError::WireType)
    } else if depth == 0 {
        Err(MergeError::RecursionLimit)
    } else {
        match varint_decoded(input) {
            None => Err(MergeError::Varint),
            Some((length, n)) => if length > input.len() - n {
                Err(MergeError::BufferUnderflow)
            } else {
                Ok((length, n))
            },
        }
    }
}

/// What merging one occurrence of the field does to a lazy value: the new value and
/// what is left of `input`, or the error. A payload of up to `EAGER_LIMIT` bytes is
/// decoded at once, a longer one is put aside.
pub open spec fn merged<M: Message>(
    state: LazyView<M::V>,
    wire_type: WireType,
    input: Seq<u8>,
    depth: nat,
) -> Result<(LazyView<M::V>, Seq<u8>), MergeError> {
    match framed(wire_type, input, depth) {
        Err(e) => Err(e),
        Ok((length, n)) => {
            let rest = input.skip(n as int);
            if length > EAGER_LIMIT {
                match deferred::<M>(state, rest.take(length as int)) {
                    Ok(next) => Ok((next, rest.skip(length as int))),
                    Err(e) => Err(e),
                }
            } else {
                eager::<M>(state, rest, (rest.len() - length) as nat, (depth - 1) as nat)
            }
        },
    }
}

/// Merges one occurrence of a lazy field into `msg`. `buf` stands at the length
/// prefix of the payload and is moved past the payload.
///
/// A field that is not length-delimited, a decode that may not descend further, a
/// length prefix that is no varint or that promises more than `buf` holds: each is
/// an error that leaves `msg` as it was. The first two leave `buf` as it was too,
/// the last leaves it behind the length prefix.
///
/// After a merge the field is never empty. It keeps bytes exactly where the payload
/// is longer than `EAGER_LIMIT` and the field was not decoded: a payload of
/// `EAGER_LIMIT` bytes is decoded at once, one of a byte more is put aside, and a
/// decoded field stays decoded.
///
/// `msg` must not be borrowed, and the bytes that it keeps together with those in
/// `buf` must be no more than can be held in one buffer.
pub fn merge<M: Message>(
    wire_type: WireType,
    msg: &mut LazyField<M>,
    buf: &mut Bytes,
    ctx: DecodeContext,
) -> (r: Result<(), MergeError>)
    requires
        old(msg).is_free(),
        old(msg).kept() + content(*old(buf)).len() <= isize::MAX,
    ensures
        final(msg).is_free(),
        r is Ok ==> !(final(msg).state() is Init) && (final(msg).state() is Pending <==> framed(
            wire_type,
            content(*old(buf)),
            ctx.depth(),
        )->Ok_0.0 > EAGER_LIMIT && !(old(msg).state() is Ready)),
        match merged::<M>(old(msg).state(), wire_type, content(*old(buf)), ctx.depth()) {
            Ok((state, rest)) => r is Ok && final(msg).state() == state && content(*final(buf))
                == rest,
            Err(e) => r == Err::<(), MergeError>(e) && is_rest_of(
                content(*final(buf)),
                content(*old(buf)),
            ),
        },
        match framed(wire_type, content(*old(buf)), ctx.depth()) {
            Err(e) => {
                &&& final(msg).state() == old(msg).state()
                &&& e == MergeError::WireType || e == MergeError::RecursionLimit ==> content(
                    *final(buf),
                ) == content(*old(buf))
                &&& e == MergeError::BufferUnderflow ==> content(*final(buf)) == content(
                    *old(buf),
                ).skip(varint_decoded(content(*old(buf)))->Some_0.1 as int)
            },
            Ok((length, n)) => {
                let rest = content(*old(buf)).skip(n as int);
                if length > EAGER_LIMIT {
                    content(*final(buf)) == rest.skip(length as int) && (r is Err ==> survives(
                        old(msg).state(),
                        final(msg).state(),
                    ))
                } else {
                    eager_outcome::<M>(
                        old(msg).state(),
                        rest,
                        (rest.len() - length) as nat,
                        (ctx.depth() - 1) as nat,
                        r,
                        final(msg).state(),
                        content(*final(buf)),
                    )
                }
            },
        },
{
    let ghost input = content(*buf);
    assert(input =~= input.skip(0));
    match check_wire_type(WireType::LengthDelimited, wire_type) {
        Ok(()) => {},
        Err(e) => {
            return Err(e);
        },
    }
    match ctx.limit_reached() {
        Ok(()) => {},
        Err(e) => {
            return Err(e);
        },
    }
    let length: u64 = match decode_varint(buf) {
        Ok(length) => length,
        Err(_) => {
            return Err(MergeError::Varint);
        },
    };
    let ghost rest = content(*buf);
    assert(is_rest_of(rest, input)) by {
        assert(rest =~= input.skip(input.len() - rest.len()));
    }
    let remaining: usize = len(buf);
    if length > remaining as u64 {
        return Err(MergeError::BufferUnderflow);
    }
    if length > EAGER_LIMIT {
        let payload = copy_to_bytes(buf, length as usize);
        proof {
            assert(is_rest_of(content(*buf), rest)) by {
                assert(content(*buf) =~= rest.skip(rest.len() - content(*buf).len()));
            }
            lemma_rest_of_rest(content(*buf), rest, input);
        }
        msg.defer(payload)
    } else {
        let limit: usize = remaining - length as usize;
        let r = msg.merge_eager(buf, limit, ctx.enter_recursion());
        proof {
            let inner = (ctx.depth() - 1) as nat;
            match base::<M>(old(msg).state()) {
                Err(_) => {
                    assert(rest =~= rest.skip(0));
                },
                Ok(start) => {
                    if fields_merged::<M>(start, rest, limit as nat, inner) is Ok {
                        lemma_fields_merged_rest::<M>(start, rest, limit as nat, inner);
                    }
                },
            }
            lemma_rest_of_rest(content(*buf), rest, input);
        }
        r
    }
}

/// The bytes of a lazy field with this tag on the wire: key, length prefix and the
/// bytes of the value.
pub open spec fn field_encoding<M: Message>(tag: u32, state: LazyView<M::V>) -> Seq<u8> {
    key_encoding(tag, WireType::LengthDelimited) + varint_encoding(
        encoding::<M>(state).len() as u64,
    ) + encoding::<M>(state)
}

/// Appends the field to `out`: its key, the length of its value and the value. Bytes
/// that the field keeps undecoded are written as they are.
pub fn encode<M: Message>(tag: u32, msg: &LazyField<M>, out: &mut Vec<u8>)
    requires
        1 <= tag <= MAX_TAG,
        !msg.writing(),
        old(out)@.len() + encoding::<M>(msg.state()).len() + 15 <= isize::MAX,
    ensures
        final(out)@ == old(out)@ + field_encoding::<M>(tag, msg.state()),
{
    let size: usize = msg.encoded_len();
    proof {
        lemma_key_encoding_len(tag, WireType::LengthDelimited);
        lemma_varint_encoding_len(size as u64);
    }
    encode_delimited_key(tag, out);
    encode_varint(size as u64, out);
    msg.encode_raw(out);
    assert(out@ =~= old(out)@ + field_encoding::<M>(tag, msg.state()));
}

/// The number of bytes that `encode` appends for the field.
pub fn encoded_len<M: Message>(tag: u32, msg: &LazyField<M>) -> (n: usize)
    requires
        tag <= MAX_TAG,
        !msg.writing(),
        encoding::<M>(msg.state()).len() + 15 <= usize::MAX,
    ensures
        n == field_encoding::<M>(tag, msg.state()).len(),
{
    let size: usize = msg.encoded_len();
    proof {
        lemma_key_encoding_len(tag, WireType::LengthDelimited);
        lemma_varint_encoding_len(size as u64);
    }
    key_len(tag) + encoded_len_varint(size as u64) + size
}

} // verus!
