//! `Vec<u8>` as a message: the wrapper message `google.protobuf.BytesValue`, which
//! has one field, `bytes value = 1`. `prost` implements it; this module says what
//! that implementation does and hands it on.
//!
//! `prost` counts the levels of nesting for itself, and the count cannot be set
//! from outside: a field is read as at the outermost level, whatever the context
//! of the caller says.

use crate::buffer::content;
use crate::error::MergeError;
use crate::field::promoted;
use crate::hooks::{merged, EAGER_LIMIT};
use crate::laws::{lemma_repeated_merge_folds, lemma_round_trip, occurrence};
use crate::lazy::LazyView;
use crate::message::{decoded, fields_merged, merges_to, reads_at_any_depth, Message};
use crate::varint::lemma_varint_round_trip;
use crate::wire::{
    is_rest_of, key_decoded, key_encoding, varint_decoded, varint_encoding, DecodeContext,
    WireType, RECURSION_LIMIT,
};
use bytes::Bytes;
use vstd::prelude::*;

verus! {

/// What `prost` makes of a field other than field 1 read into a `BytesValue`: the
/// new value and the number of bytes read, or `None` where the field is refused.
pub uninterp spec fn bytes_value_field(
    value: Seq<u8>,
    tag: u32,
    wire_type: WireType,
    input: Seq<u8>,
) -> Option<(Seq<u8>, nat)>;

/// What reading one field makes of a `BytesValue`: the new value and the number of
/// bytes read, or `None` where the field is refused.
///
/// Field 1 has to be length-delimited: a length and as many bytes, which become the
/// value. Any other field is passed over and leaves the value as it is; how many
/// bytes it takes, and whether it is well formed, is for `prost` to say.
pub open spec fn bytes_value_merged(
    value: Seq<u8>,
    tag: u32,
    wire_type: WireType,
    input: Seq<u8>,
) -> Option<(Seq<u8>, nat)> {
    if tag == 1 {
        field_one(wire_type, input)
    } else {
        match bytes_value_field(value, tag, wire_type, input) {
            Some((_, used)) => Some((value, used)),
            None => None,
        }
    }
}

/// What reading field 1 makes of a `BytesValue`: the bytes that follow the length
/// at the front of `input`, as many as the length says, and the number of bytes
/// read. The field is refused unless it is length-delimited and all there.
pub open spec fn field_one(wire_type: WireType, input: Seq<u8>) -> Option<(Seq<u8>, nat)> {
    match varint_decoded(input) {
        Some((length, n)) => if wire_type == WireType::LengthDelimited && length <= input.len()
            - n {
            Some((input.subrange(n as int, n + length), n + length as nat))
        } else {
            None
        },
        None => None,
    }
}

/// The bytes of a `BytesValue` on the wire: nothing for the empty value, else the
/// one field with its key, its length and the bytes.
pub open spec fn bytes_value_encoding(value: Seq<u8>) -> Seq<u8> {
    if value.len() == 0 {
        Seq::empty()
    } else {
        key_encoding(1, WireType::LengthDelimited) + varint_encoding(value.len() as u64) + value
    }
}

/// `prost::Message::merge_field` of `Vec<u8>`, read at the outermost level: reads
/// one field from the front of the buffer. Field 1 is read as `bytes_value_merged`
/// says; of any other field the result depends on the value, the key and the bytes
/// in the buffer alone, and the value stays as it is. Where the field is taken, the
/// buffer has moved past it; where it is refused, the buffer has lost some bytes
/// from its front or none.
#[verifier::external_body]
fn merge_field(value: &mut Vec<u8>, tag: u32, wire_type: WireType, buf: &mut Bytes) -> (r: Result<
    (),
    prost::DecodeError,
>)
    ensures
        match (if tag == 1 {
            field_one(wire_type, content(*old(buf)))
        } else {
            match bytes_value_field(old(value)@, tag, wire_type, content(*old(buf))) {
                Some((_, used)) => Some((old(value)@, used)),
                None => None,
            }
        }) {
            Some((merged, used)) => r.is_ok() && final(value)@ == merged && used <= content(
                *old(buf),
            ).len() && content(*final(buf)) == content(*old(buf)).skip(used as int),
            None => r.is_err() && is_rest_of(content(*final(buf)), content(*old(buf))),
        },
{
    let wire_type = match wire_type {
        WireType::Varint => prost::encoding::WireType::Varint,
        WireType::SixtyFourBit => prost::encoding::WireType::SixtyFourBit,
        WireType::LengthDelimited => prost::encoding::WireType::LengthDelimited,
        WireType::StartGroup => prost::encoding::WireType::StartGroup,
        WireType::EndGroup => prost::encoding::WireType::EndGroup,
        WireType::ThirtyTwoBit => prost::encoding::WireType::ThirtyTwoBit,
    };
    prost::Message::merge_field(value, tag, wire_type, buf, Default::default())
}

/// `prost::Message::encode_raw` of `Vec<u8>` into a `Vec<u8>`: appends the bytes
/// of the value on the wire. The vector cannot grow past `isize::MAX` bytes.
#[verifier::external_body]
fn encode_raw(value: &Vec<u8>, out: &mut Vec<u8>)
    requires
        old(out)@.len() + bytes_value_encoding(value@).len() <= isize::MAX,
    ensures
        final(out)@ == old(out)@ + bytes_value_encoding(value@),
{
    prost::Message::encode_raw(value, out)
}

/// `prost::Message::encoded_len` of `Vec<u8>`: the number of bytes that the value
/// takes on the wire.
#[verifier::external_body]
fn encoded_len(value: &Vec<u8>) -> (n: usize)
    ensures
        n == bytes_value_encoding(value@).len(),
{
    prost::Message::encoded_len(value)
}

impl Message for Vec<u8> {
    open spec fn empty() -> Seq<u8> {
        Seq::empty()
    }

    open spec fn encoding(value: Seq<u8>) -> Seq<u8> {
        bytes_value_encoding(value)
    }

    open spec fn field_merged(
        value: Seq<u8>,
        tag: u32,
        wire_type: WireType,
        input: Seq<u8>,
        depth: nat,
    ) -> Result<(Seq<u8>, nat), MergeError> {
        match bytes_value_merged(value, tag, wire_type, input) {
            Some(merged) => Ok(merged),
            None => Err(MergeError::Field),
        }
    }

    fn default() -> (m: Self) {
        Vec::new()
    }

    fn encode_raw(&self, out: &mut Vec<u8>) {
        self::encode_raw(self, out)
    }

    fn merge_field(
        &mut self,
        tag: u32,
        wire_type: WireType,
        buf: &mut Bytes,
        ctx: DecodeContext,
    ) -> (r: Result<(), MergeError>) {
        match self::merge_field(self, tag, wire_type, buf) {
            Ok(()) => Ok(()),
            Err(_) => Err(MergeError::Field),
        }
    }

    fn encoded_len(&self) -> (n: usize) {
        self::encoded_len(self)
    }

    fn clear(&mut self) {
        Vec::clear(self)
    }
}

/// A `BytesValue` is read back from the bytes it is written as, whatever follows
/// them and at any depth: the bytes written for `value` make `value` of any value
/// they are merged into. The empty value is written as nothing and changes nothing.
pub proof fn lemma_bytes_value_merges_to(start: Seq<u8>, value: Seq<u8>, depth: nat)
    requires
        value.len() <= u64::MAX,
    ensures
        merges_to::<Vec<u8>>(
            start,
            bytes_value_encoding(value),
            depth,
            if value.len() == 0 {
                start
            } else {
                value
            },
        ),
{
    let payload = bytes_value_encoding(value);
    assert forall|other: Seq<u8>| #[trigger]
        fields_merged::<Vec<u8>>(start, payload + other, other.len(), depth) == Ok::<
            (Seq<u8>, Seq<u8>),
            MergeError,
        >(
            (
                if value.len() == 0 {
                    start
                } else {
                    value
                },
                other,
            ),
        ) by {
        let input = payload + other;
        if value.len() == 0 {
            assert(input =~= other);
        } else {
            let length = value.len() as u64;
            let prefix = varint_encoding(length);
            let key = key_encoding(1, WireType::LengthDelimited);
            assert(key == varint_encoding(10));
            assert(key =~= seq![10u8]);
            assert(input =~= varint_encoding(10) + (prefix + (value + other)));
            lemma_varint_round_trip(10, prefix + (value + other));
            assert(key_decoded(input) == Some((1u32, WireType::LengthDelimited, 1nat)));
            let body = input.skip(1);
            assert(body =~= prefix + (value + other));
            lemma_varint_round_trip(length, value + other);
            let m = prefix.len();
            assert(body.subrange(m as int, m + length) =~= value);
            assert(body.skip((m + length) as int) =~= other);
            assert(<Vec<u8> as Message>::field_merged(
                start,
                1,
                WireType::LengthDelimited,
                body,
                depth,
            ) == Ok::<(Seq<u8>, nat), MergeError>((value, (m + length) as nat)));
            assert(fields_merged::<Vec<u8>>(value, other, other.len(), depth) == Ok::<
                (Seq<u8>, Seq<u8>),
                MergeError,
            >((value, other)));
        }
    }
}

/// Round trip of a `BytesValue`: written, merged into an empty field and read, it
/// comes back as it was, whether its bytes were decoded at once or put aside.
pub proof fn lemma_bytes_value_round_trip(value: Seq<u8>, rest: Seq<u8>, depth: nat)
    requires
        depth > 0,
        bytes_value_encoding(value).len() <= u64::MAX,
    ensures
        ({
            let after = merged::<Vec<u8>>(
                LazyView::Init,
                WireType::LengthDelimited,
                occurrence(bytes_value_encoding(value)) + rest,
                depth,
            );
            &&& after is Ok
            &&& after->Ok_0.1 == rest
            &&& promoted::<Vec<u8>>(after->Ok_0.0) == Ok::<LazyView<Seq<u8>>, MergeError>(
                LazyView::Ready(value),
            )
        }),
{
    let nothing = Seq::<u8>::empty();
    if value.len() == 0 {
        assert(value =~= nothing);
    }
    lemma_bytes_value_merges_to(nothing, value, (depth - 1) as nat);
    lemma_bytes_value_merges_to(nothing, value, RECURSION_LIMIT as nat);
    lemma_round_trip::<Vec<u8>>(value, rest, depth);
}

/// Repeated-merge folding of `BytesValue`s: two values whose bytes are merged one
/// after the other into an empty field leave it with what the bytes of both,
/// joined, decode to: the second value, or the first where the second is empty.
pub proof fn lemma_bytes_value_merges_fold(
    first: Seq<u8>,
    second: Seq<u8>,
    rest: Seq<u8>,
    depth: nat,
)
    requires
        depth > 0,
        bytes_value_encoding(first).len() <= EAGER_LIMIT,
        bytes_value_encoding(second).len() <= EAGER_LIMIT,
    ensures
        ({
            let one = bytes_value_encoding(first);
            let two = bytes_value_encoding(second);
            let last = if second.len() == 0 {
                first
            } else {
                second
            };
            &&& merged::<Vec<u8>>(
                LazyView::Init,
                WireType::LengthDelimited,
                occurrence(one) + (occurrence(two) + rest),
                depth,
            ) == Ok::<(LazyView<Seq<u8>>, Seq<u8>), MergeError>(
                (LazyView::Ready(first), occurrence(two) + rest),
            )
            &&& merged::<Vec<u8>>(
                LazyView::Ready(first),
                WireType::LengthDelimited,
                occurrence(two) + rest,
                depth,
            ) == Ok::<(LazyView<Seq<u8>>, Seq<u8>), MergeError>((LazyView::Ready(last), rest))
            &&& decoded::<Vec<u8>>(one + two) == Ok::<Seq<u8>, MergeError>(last)
        }),
{
    let nothing = Seq::<u8>::empty();
    let inner = (depth - 1) as nat;
    let top = RECURSION_LIMIT as nat;
    let last = if second.len() == 0 {
        first
    } else {
        second
    };
    if first.len() == 0 {
        assert(first =~= nothing);
    }
    lemma_bytes_value_merges_to(nothing, first, inner);
    lemma_bytes_value_merges_to(nothing, first, top);
    lemma_bytes_value_merges_to(first, second, inner);
    lemma_bytes_value_merges_to(first, second, top);
    lemma_repeated_merge_folds::<Vec<u8>>(
        bytes_value_encoding(first),
        bytes_value_encoding(second),
        rest,
        depth,
        first,
        last,
    );
}

/// A `BytesValue` needs no depth: it reads a field alike whatever levels of nesting
/// are left.
pub proof fn lemma_bytes_value_reads_at_any_depth()
    ensures
        reads_at_any_depth::<Vec<u8>>(),
{
}

} // verus!
