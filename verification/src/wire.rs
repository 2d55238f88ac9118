//! The wire primitives: varints, field keys, wire types and the decode context.
//!
//! Varints and keys are read and written by `prost`; this module says what those
//! calls return.

use crate::buffer::content;
use crate::error::MergeError;
use bytes::Bytes;
use vstd::prelude::*;

verus! {

/// The largest tag a field can have.
pub const MAX_TAG: u32 = 0x1FFF_FFFF;

/// How deep messages may be nested.
pub const RECURSION_LIMIT: u32 = 100;

/// How the value of a field is laid out on the wire.
#[derive(Debug, Clone, Copy, PartialEq, Eq, Structural)]
pub enum WireType {
    Varint,
    SixtyFourBit,
    LengthDelimited,
    StartGroup,
    EndGroup,
    ThirtyTwoBit,
}

impl WireType {
    /// The number that stands for the wire type in a field key.
    pub open spec fn number(self) -> nat {
        match self {
            WireType::Varint => 0,
            WireType::SixtyFourBit => 1,
            WireType::LengthDelimited => 2,
            WireType::StartGroup => 3,
            WireType::EndGroup => 4,
            WireType::ThirtyTwoBit => 5,
        }
    }

    /// The wire type that a number stands for, if it stands for one.
    pub open spec fn from_number(n: nat) -> Option<WireType> {
        if n == 0 {
            Some(WireType::Varint)
        } else if n == 1 {
            Some(WireType::SixtyFourBit)
        } else if n == 2 {
            Some(WireType::LengthDelimited)
        } else if n == 3 {
            Some(WireType::StartGroup)
        } else if n == 4 {
            Some(WireType::EndGroup)
        } else if n == 5 {
            Some(WireType::ThirtyTwoBit)
        } else {
            None
        }
    }
}

/// Accepts a field whose wire type is the expected one.
pub fn check_wire_type(expected: WireType, actual: WireType) -> (r: Result<(), MergeError>)
    ensures
        r == (if expected == actual {
            Ok::<(), MergeError>(())
        } else {
            Err::<(), MergeError>(MergeError::WireType)
        }),
{
    if expected == actual {
        Ok(())
    } else {
        Err(MergeError::WireType)
    }
}

/// What is handed down to every decode: how many more levels of nesting it may enter.
#[derive(Debug, Clone, Copy, PartialEq, Eq, Structural)]
pub struct DecodeContext {
    recurse_count: u32,
}

impl DecodeContext {
    /// The levels of nesting that may still be entered.
    pub closed spec fn depth(self) -> nat {
        self.recurse_count as nat
    }

    /// The context of a decode that starts at the outermost message.
    pub fn new() -> (ctx: DecodeContext)
        ensures
            ctx.depth() == RECURSION_LIMIT,
    {
        DecodeContext { recurse_count: RECURSION_LIMIT }
    }

    /// The context for the message one level further in. There must be a level
    /// left to enter, which `limit_reached` tells.
    pub fn enter_recursion(&self) -> (inner: DecodeContext)
        requires
            self.depth() > 0,
        ensures
            inner.depth() == self.depth() - 1,
    {
        DecodeContext { recurse_count: self.recurse_count - 1 }
    }

    /// Fails once no further level may be entered.
    pub fn limit_reached(&self) -> (r: Result<(), MergeError>)
        ensures
            r == (if self.depth() == 0 {
                Err::<(), MergeError>(MergeError::RecursionLimit)
            } else {
                Ok::<(), MergeError>(())
            }),
    {
        if self.recurse_count == 0 {
            Err(MergeError::RecursionLimit)
        } else {
            Ok(())
        }
    }
}

/// The number of bytes at the front of `input` that have their top bit set.
pub open spec fn continued(input: Seq<u8>) -> nat
    decreases input.len(),
{
    if input.len() > 0 && input[0] >= 0x80 {
        1 + continued(input.skip(1))
    } else {
        0
    }
}

/// The number that the low seven bits of the first `n` bytes spell, least
/// significant group first.
pub open spec fn base128(input: Seq<u8>, n: nat) -> nat
    decreases n,
{
    if n == 0 || input.len() == 0 {
        0
    } else {
        (input[0] % 128) as nat + 128 * base128(input.skip(1), (n - 1) as nat)
    }
}

/// The varint at the front of `input`: its value and the number of bytes it takes.
///
/// A varint is up to ten bytes, of which all but the last have their top bit set;
/// a tenth byte may only be 0 or 1, since the value has 64 bits.
pub open spec fn varint_decoded(input: Seq<u8>) -> Option<(u64, nat)> {
    let k = continued(input);
    if k < input.len() && k <= 9 && (k == 9 ==> input[9] < 2) {
        Some((base128(input, k + 1) as u64, k + 1))
    } else {
        None
    }
}

/// The bytes of `value` as a varint.
pub open spec fn varint_encoding(value: u64) -> Seq<u8>
    decreases value,
{
    if value < 0x80 {
        seq![value as u8]
    } else {
        seq![(value % 128 + 128) as u8] + varint_encoding(value / 128)
    }
}

/// The bytes of the key of a field: its tag and wire type, as one varint.
pub open spec fn key_encoding(tag: u32, wire_type: WireType) -> Seq<u8> {
    varint_encoding((tag as u64 * 8 + wire_type.number()) as u64)
}

/// The field key at the front of `input`: tag, wire type and the number of bytes
/// the key takes. The key is a varint that fits in 32 bits; its low three bits
/// name the wire type, the rest is the tag, which is not 0.
pub open spec fn key_decoded(input: Seq<u8>) -> Option<(u32, WireType, nat)> {
    match varint_decoded(input) {
        Some((key, n)) => {
            if key > u32::MAX || key / 8 == 0 {
                None
            } else {
                match WireType::from_number((key % 8) as nat) {
                    Some(wire_type) => Some(((key / 8) as u32, wire_type, n)),
                    None => None,
                }
            }
        },
        None => None,
    }
}

/// Whether `rest` is what is left of `whole` after some bytes were read from its front.
pub open spec fn is_rest_of(rest: Seq<u8>, whole: Seq<u8>) -> bool {
    rest.len() <= whole.len() && rest == whole.skip(whole.len() - rest.len())
}

/// `prost::encoding::decode_varint` on a `Bytes`: reads the varint at the front of
/// the buffer. Where there is one, the call returns its value and the buffer has
/// moved past it; where there is none, the call fails, and the buffer has lost
/// some bytes from its front or none.
#[verifier::external_body]
pub(crate) fn decode_varint(buf: &mut Bytes) -> (r: Result<u64, prost::DecodeError>)
    ensures
        match varint_decoded(content(*old(buf))) {
            Some((value, n)) => r.is_ok() && r.unwrap() == value && content(*final(buf))
                == content(*old(buf)).skip(n as int),
            None => r.is_err() && is_rest_of(content(*final(buf)), content(*old(buf))),
        },
{
    prost::encoding::decode_varint(buf)
}

/// `prost::encoding::decode_key` on a `Bytes`: reads the field key at the front of
/// the buffer. Where there is one, the call returns its tag and wire type and the
/// buffer has moved past it; where there is none, the call fails, and the buffer
/// has lost some bytes from its front or none.
#[verifier::external_body]
pub(crate) fn decode_key(buf: &mut Bytes) -> (r: Result<(u32, WireType), prost::DecodeError>)
    ensures
        match key_decoded(content(*old(buf))) {
            Some((tag, wire_type, n)) => r.is_ok() && r.unwrap() == (tag, wire_type) && content(
                *final(buf),
            ) == content(*old(buf)).skip(n as int),
            None => r.is_err() && is_rest_of(content(*final(buf)), content(*old(buf))),
        },
{
    match prost::encoding::decode_key(buf) {
        Ok((tag, prost::encoding::WireType::Varint)) => Ok((tag, WireType::Varint)),
        Ok((tag, prost::encoding::WireType::SixtyFourBit)) => Ok((tag, WireType::SixtyFourBit)),
        Ok((tag, prost::encoding::WireType::LengthDelimited)) => Ok(
            (tag, WireType::LengthDelimited),
        ),
        Ok((tag, prost::encoding::WireType::StartGroup)) => Ok((tag, WireType::StartGroup)),
        Ok((tag, prost::encoding::WireType::EndGroup)) => Ok((tag, WireType::EndGroup)),
        Ok((tag, prost::encoding::WireType::ThirtyTwoBit)) => Ok((tag, WireType::ThirtyTwoBit)),
        Err(e) => Err(e),
    }
}

/// `prost::encoding::encode_varint` into a `Vec<u8>`: appends the bytes of `value`
/// as a varint. The vector cannot grow past `isize::MAX` bytes.
#[verifier::external_body]
pub(crate) fn encode_varint(value: u64, out: &mut Vec<u8>)
    requires
        old(out)@.len() + varint_encoding(value).len() <= isize::MAX,
    ensures
        final(out)@ == old(out)@ + varint_encoding(value),
{
    prost::encoding::encode_varint(value, out)
}

/// `prost::encoding::encode_key` into a `Vec<u8>`, for a length-delimited field:
/// appends the key of the field with this tag. The call is only meant for tags
/// from 1 to `MAX_TAG`, and checks so in a debug build.
#[verifier::external_body]
pub(crate) fn encode_delimited_key(tag: u32, out: &mut Vec<u8>)
    requires
        1 <= tag <= MAX_TAG,
        old(out)@.len() + key_encoding(tag, WireType::LengthDelimited).len() <= isize::MAX,
    ensures
        final(out)@ == old(out)@ + key_encoding(tag, WireType::LengthDelimited),
{
    prost::encoding::encode_key(tag, prost::encoding::WireType::LengthDelimited, out)
}

/// `prost::encoding::encoded_len_varint`: the number of bytes that `value` takes
/// as a varint.
#[verifier::external_body]
pub(crate) fn encoded_len_varint(value: u64) -> (n: usize)
    ensures
        n == varint_encoding(value).len(),
{
    prost::encoding::encoded_len_varint(value)
}

/// `prost::encoding::key_len`: the number of bytes that the key of a field with
/// this tag takes, whatever its wire type. A tag above `MAX_TAG` would lose its
/// top bits in the call.
#[verifier::external_body]
pub(crate) fn key_len(tag: u32) -> (n: usize)
    requires
        tag <= MAX_TAG,
    ensures
        n == key_encoding(tag, WireType::Varint).len(),
{
    prost::encoding::key_len(tag)
}

/// 128 to the power of `n`.
pub open spec fn pow128(n: nat) -> int
    decreases n,
{
    if n == 0 {
        1
    } else {
        128 * pow128((n - 1) as nat)
    }
}

/// The powers of 128 that bound a key and a 64-bit value.
pub proof fn lemma_pow128_values()
    ensures
        pow128(5) == 34359738368,
        pow128(10) == 1180591620717411303424,
{
    reveal_with_fuel(pow128, 11);
}

/// A value below 128 to the power of `n` takes at most `n` bytes as a varint.
pub proof fn lemma_varint_encoding_len_below(value: u64, n: nat)
    requires
        n >= 1,
        (value as int) < pow128(n),
    ensures
        1 <= varint_encoding(value).len() <= n,
    decreases n,
{
    reveal_with_fuel(pow128, 2);
    if value >= 0x80 {
        assert(n >= 2);
        lemma_varint_encoding_len_below(value / 128, (n - 1) as nat);
    }
}

/// A varint takes from one to ten bytes.
pub proof fn lemma_varint_encoding_len(value: u64)
    ensures
        1 <= varint_encoding(value).len() <= 10,
{
    lemma_pow128_values();
    lemma_varint_encoding_len_below(value, 10);
}

/// The key of a field takes the same number of bytes whatever its wire type, and
/// no more than five.
pub proof fn lemma_key_encoding_len(tag: u32, wire_type: WireType)
    requires
        tag <= MAX_TAG,
    ensures
        key_encoding(tag, wire_type).len() == key_encoding(tag, WireType::Varint).len(),
        1 <= key_encoding(tag, wire_type).len() <= 5,
{
    let low: u64 = (tag * 8) as u64;
    let key: u64 = (tag * 8 + wire_type.number()) as u64;
    assert(key_encoding(tag, WireType::Varint) == varint_encoding(low));
    assert(key_encoding(tag, wire_type) == varint_encoding(key));
    assert(low <= key < low + 8 && low % 8 == 0);
    assert(key / 128 == low / 128);
    assert(varint_encoding(key).len() == varint_encoding(low).len()) by {
        reveal_with_fuel(varint_encoding, 2);
    }
    lemma_pow128_values();
    lemma_varint_encoding_len_below(key, 5);
}

} // verus!
