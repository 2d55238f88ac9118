//! Embedded messages: what the library asks of a message type, and how the fields
//! of a payload are folded into a value of it.

use crate::buffer::{content, len};
use crate::error::MergeError;
use crate::wire::{decode_key, is_rest_of, key_decoded, DecodeContext, WireType, RECURSION_LIMIT};
use bytes::Bytes;
use vstd::prelude::*;

verus! {

/// A message that can be embedded in a lazy field.
///
/// The contracts speak of the message's view. An implementation decides what its
/// fields are; the library only asks that reading a field and writing the value
/// do what the three spec functions say.
pub trait Message: View + Sized {
    /// The value in which every field has its default.
    spec fn empty() -> Self::V;

    /// The bytes of the value's fields on the wire, without a length prefix.
    spec fn encoding(value: Self::V) -> Seq<u8>;

    /// What reading the field with key (`tag`, `wire_type`) from the front of `input`
    /// makes of `value`: the new value and the number of bytes of `input` that the
    /// field took, or the reason why the field was refused. `depth` is the number of
    /// levels of nesting that the field may still enter.
    spec fn field_merged(
        value: Self::V,
        tag: u32,
        wire_type: WireType,
        input: Seq<u8>,
        depth: nat,
    ) -> Result<(Self::V, nat), MergeError>;

    /// A value in which every field has its default.
    fn default() -> (m: Self)
        ensures
            m@ == Self::empty(),
    ;

    /// Appends the fields of the value to `out`.
    fn encode_raw(&self, out: &mut Vec<u8>)
        requires
            old(out)@.len() + Self::encoding(self@).len() <= isize::MAX,
        ensures
            final(out)@ == old(out)@ + Self::encoding(self@),
    ;

    /// Reads one field, whose key has been read already, from the front of `buf`
    /// and merges it into the value. When the field is refused, nothing is said of
    /// the value, and `buf` has lost some bytes from its front or none.
    fn merge_field(
        &mut self,
        tag: u32,
        wire_type: WireType,
        buf: &mut Bytes,
        ctx: DecodeContext,
    ) -> (r: Result<(), MergeError>)
        ensures
            match Self::field_merged(old(self)@, tag, wire_type, content(*old(buf)), ctx.depth()) {
                Ok((value, used)) => r is Ok && final(self)@ == value && used <= content(
                    *old(buf),
                ).len() && content(*final(buf)) == content(*old(buf)).skip(used as int),
                Err(e) => r == Err::<(), MergeError>(e) && is_rest_of(
                    content(*final(buf)),
                    content(*old(buf)),
                ),
            },
    ;

    /// The number of bytes that `encode_raw` appends.
    fn encoded_len(&self) -> (n: usize)
        ensures
            n == Self::encoding(self@).len(),
    ;

    /// Puts every field back to its default.
    fn clear(&mut self)
        ensures
            final(self)@ == Self::empty(),
    ;
}

/// What merging the fields at the front of `input` makes of `value`, one field
/// after the other until no more than `limit` bytes are left: the new value and the
/// bytes that are left, or the first error. A key that cannot be read is the error
/// `Key`; a field that would take more bytes than there are counts as refused.
pub open spec fn fields_merged<M: Message>(
    value: M::V,
    input: Seq<u8>,
    limit: nat,
    depth: nat,
) -> Result<(M::V, Seq<u8>), MergeError>
    decreases input.len(),
{
    if input.len() <= limit {
        Ok((value, input))
    } else {
        match key_decoded(input) {
            None => Err(MergeError::Key),
            Some((tag, wire_type, n)) => {
                let body = input.skip(n as int);
                match M::field_merged(value, tag, wire_type, body, depth) {
                    Err(e) => Err(e),
                    Ok((next, used)) => {
                        if 0 < n <= input.len() && used <= body.len() {
                            fields_merged::<M>(next, body.skip(used as int), limit, depth)
                        } else {
                            Err(MergeError::Field)
                        }
                    },
                }
            },
        }
    }
}

/// The value that a whole payload decodes to, read from the outermost level.
pub open spec fn decoded<M: Message>(payload: Seq<u8>) -> Result<M::V, MergeError> {
    merged_onto::<M>(M::empty(), payload)
}

/// What merging a whole payload, read from the outermost level, makes of `value`.
pub open spec fn merged_onto<M: Message>(value: M::V, payload: Seq<u8>) -> Result<
    M::V,
    MergeError,
> {
    match fields_merged::<M>(value, payload, 0, RECURSION_LIMIT as nat) {
        Ok((v, _)) => Ok(v),
        Err(e) => Err(e),
    }
}

/// Whether the message type reads a field from the front of its input: what it
/// makes of a field that it takes depends only on the bytes that the field takes,
/// not on what follows them.
pub open spec fn reads_from_front<M: Message>() -> bool {
    forall|value: M::V, tag: u32, wire_type: WireType, a: Seq<u8>, b: Seq<u8>, depth: nat|
        #![trigger
            M::field_merged(value, tag, wire_type, a, depth),
            M::field_merged(value, tag, wire_type, b, depth),
        ]
        (M::field_merged(value, tag, wire_type, a, depth) matches Ok((_, used)) && used <= a.len()
            && used <= b.len() && a.take(used as int) == b.take(used as int))
            ==> M::field_merged(value, tag, wire_type, b, depth) == M::field_merged(
            value,
            tag,
            wire_type,
            a,
            depth,
        )
}

/// Whether the message type needs no more than the depth it is given: a field that
/// it takes with some levels of nesting left, it takes alike with more.
pub open spec fn reads_at_any_depth<M: Message>() -> bool {
    forall|value: M::V, tag: u32, wire_type: WireType, input: Seq<u8>, shallow: nat, deep: nat|
        #![trigger
            M::field_merged(value, tag, wire_type, input, shallow),
            M::field_merged(value, tag, wire_type, input, deep),
        ]
        (shallow <= deep && M::field_merged(value, tag, wire_type, input, shallow) is Ok)
            ==> M::field_merged(value, tag, wire_type, input, deep) == M::field_merged(
            value,
            tag,
            wire_type,
            input,
            shallow,
        )
}

/// Whether `payload` merges into `value` alike whatever follows it: with `depth`
/// levels of nesting left its fields are taken up to its end, not further, and
/// make `merged` of `value`.
pub open spec fn merges_to<M: Message>(
    value: M::V,
    payload: Seq<u8>,
    depth: nat,
    merged: M::V,
) -> bool {
    forall|other: Seq<u8>| #[trigger]
        fields_merged::<M>(value, payload + other, other.len(), depth) == Ok::<
            (M::V, Seq<u8>),
            MergeError,
        >((merged, other))
}

/// What is left of what is left of `c` is left of `c`.
pub proof fn lemma_rest_of_rest(a: Seq<u8>, b: Seq<u8>, c: Seq<u8>)
    requires
        is_rest_of(a, b),
        is_rest_of(b, c),
    ensures
        is_rest_of(a, c),
{
    assert(a =~= c.skip(c.len() - a.len()));
}

/// Where the fields at the front of `input` merge, what is left is the end of
/// `input` and no longer than `limit`.
pub proof fn lemma_fields_merged_rest<M: Message>(
    value: M::V,
    input: Seq<u8>,
    limit: nat,
    depth: nat,
)
    requires
        fields_merged::<M>(value, input, limit, depth) is Ok,
    ensures
        fields_merged::<M>(value, input, limit, depth)->Ok_0.1.len() <= limit,
        is_rest_of(fields_merged::<M>(value, input, limit, depth)->Ok_0.1, input),
    decreases input.len(),
{
    if input.len() <= limit {
        assert(input =~= input.skip(0));
    } else {
        let (tag, wire_type, n) = key_decoded(input)->Some_0;
        let body = input.skip(n as int);
        let (next, used) = M::field_merged(value, tag, wire_type, body, depth)->Ok_0;
        let after = body.skip(used as int);
        lemma_fields_merged_rest::<M>(next, after, limit, depth);
        let rest = fields_merged::<M>(next, after, limit, depth)->Ok_0.1;
        assert(is_rest_of(after, input)) by {
            assert(after =~= input.skip(input.len() - after.len()));
        }
        lemma_rest_of_rest(rest, after, input);
    }
}

/// Merges the fields at the front of `buf` into `value`, one after the other, until
/// no more than `limit` bytes are left in `buf`.
pub fn merge_fields<M: Message>(
    value: &mut M,
    buf: &mut Bytes,
    limit: usize,
    ctx: DecodeContext,
) -> (r: Result<(), MergeError>)
    ensures
        match fields_merged::<M>(old(value)@, content(*old(buf)), limit as nat, ctx.depth()) {
            Ok((v, rest)) => r is Ok && final(value)@ == v && content(*final(buf)) == rest,
            Err(e) => r == Err::<(), MergeError>(e) && is_rest_of(
                content(*final(buf)),
                content(*old(buf)),
            ),
        },
{
    assert(content(*buf) =~= content(*buf).skip(0));
    while len(buf) > limit
        invariant
            is_rest_of(content(*buf), content(*old(buf))),
            fields_merged::<M>(value@, content(*buf), limit as nat, ctx.depth()) == fields_merged::<
                M,
            >(old(value)@, content(*old(buf)), limit as nat, ctx.depth()),
        decreases content(*buf).len(),
    {
        let ghost before = content(*buf);
        let key = decode_key(buf);
        let (tag, wire_type) = match key {
            Ok(found) => found,
            Err(_) => {
                proof {
                    lemma_rest_of_rest(content(*buf), before, content(*old(buf)));
                }
                return Err(MergeError::Key);
            },
        };
        let ghost body = content(*buf);
        match value.merge_field(tag, wire_type, buf, ctx) {
            Ok(()) => {},
            Err(e) => {
                proof {
                    lemma_rest_of_rest(content(*buf), body, before);
                    lemma_rest_of_rest(content(*buf), before, content(*old(buf)));
                }
                return Err(e);
            },
        }
        proof {
            assert(is_rest_of(body, before)) by {
                assert(body =~= before.skip(before.len() - body.len()));
            }
            assert(is_rest_of(content(*buf), body)) by {
                assert(content(*buf) =~= body.skip(body.len() - content(*buf).len()));
            }
            lemma_rest_of_rest(content(*buf), body, before);
            lemma_rest_of_rest(content(*buf), before, content(*old(buf)));
        }
    }
    Ok(())
}

/// Merges a whole payload into `value`, at the outermost level of nesting, and
/// leaves `buf` empty.
pub fn merge_all<M: Message>(value: &mut M, buf: &mut Bytes) -> (r: Result<(), MergeError>)
    ensures
        match merged_onto::<M>(old(value)@, content(*old(buf))) {
            Ok(v) => r is Ok && final(value)@ == v && content(*final(buf)).len() == 0,
            Err(e) => r == Err::<(), MergeError>(e) && is_rest_of(
                content(*final(buf)),
                content(*old(buf)),
            ),
        },
{
    proof {
        if merged_onto::<M>(value@, content(*buf)) is Ok {
            lemma_fields_merged_rest::<M>(value@, content(*buf), 0, RECURSION_LIMIT as nat);
        }
    }
    merge_fields(value, buf, 0, DecodeContext::new())
}

/// Decodes a whole payload into a new value, and leaves `buf` empty.
pub fn decode<M: Message>(buf: &mut Bytes) -> (r: Result<M, MergeError>)
    ensures
        match decoded::<M>(content(*old(buf))) {
            Ok(v) => r is Ok && r->Ok_0@ == v && content(*final(buf)).len() == 0,
            Err(e) => r is Err && r->Err_0 == e && is_rest_of(
                content(*final(buf)),
                content(*old(buf)),
            ),
        },
{
    let mut value = M::default();
    match merge_all(&mut value, buf) {
        Ok(()) => Ok(value),
        Err(e) => Err(e),
    }
}

} // verus!
