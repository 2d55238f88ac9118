//! What holds of folding the fields of a payload into a message.

use crate::error::MergeError;
use crate::message::{
    fields_merged, lemma_fields_merged_rest, merges_to, reads_at_any_depth, reads_from_front,
    Message,
};
use crate::varint::lemma_key_local;
use crate::wire::key_decoded;
use vstd::prelude::*;

verus! {

/// A fold that stops early can be taken up where it stopped: reading until `high`
/// bytes are left and then on until `low` are left is reading until `low` are left.
pub proof fn lemma_fold_resumes<M: Message>(
    value: M::V,
    input: Seq<u8>,
    high: nat,
    low: nat,
    depth: nat,
)
    requires
        low <= high,
        fields_merged::<M>(value, input, high, depth) is Ok,
    ensures
        ({
            let (reached, rest) = fields_merged::<M>(value, input, high, depth)->Ok_0;
            fields_merged::<M>(value, input, low, depth) == fields_merged::<M>(
                reached,
                rest,
                low,
                depth,
            )
        }),
    decreases input.len(),
{
    if input.len() > high {
        let (tag, wire_type, n) = key_decoded(input)->Some_0;
        let body = input.skip(n as int);
        let (next, used) = M::field_merged(value, tag, wire_type, body, depth)->Ok_0;
        lemma_fold_resumes::<M>(next, body.skip(used as int), high, low, depth);
    }
}

/// A fold depends only on the bytes it reads: where the fields of `payload` are
/// taken with `after` behind them, and end where `payload` ends, they are taken
/// alike with anything else behind them.
pub proof fn lemma_fold_is_local<M: Message>(
    value: M::V,
    payload: Seq<u8>,
    after: Seq<u8>,
    other: Seq<u8>,
    depth: nat,
)
    requires
        reads_from_front::<M>(),
        fields_merged::<M>(value, payload + after, after.len(), depth) is Ok,
        fields_merged::<M>(value, payload + after, after.len(), depth)->Ok_0.1.len()
            == after.len(),
    ensures
        fields_merged::<M>(value, payload + other, other.len(), depth) == Ok::<
            (M::V, Seq<u8>),
            MergeError,
        >((fields_merged::<M>(value, payload + after, after.len(), depth)->Ok_0.0, other)),
    decreases payload.len(),
{
    let input = payload + after;
    let twin = payload + other;
    if payload.len() == 0 {
        assert(twin =~= other);
    } else {
        let (tag, wire_type, n) = key_decoded(input)->Some_0;
        let body = input.skip(n as int);
        let (next, used) = M::field_merged(value, tag, wire_type, body, depth)->Ok_0;
        let left = body.skip(used as int);
        lemma_fields_merged_rest::<M>(next, left, after.len(), depth);
        assert(n + used <= payload.len());
        let shorter = payload.skip((n + used) as int);
        assert(left =~= shorter + after);

        assert(input.take(n as int) =~= twin.take(n as int));
        lemma_key_local(input, twin);
        let twin_body = twin.skip(n as int);
        assert(body.take(used as int) =~= twin_body.take(used as int));
        assert(M::field_merged(value, tag, wire_type, twin_body, depth) == M::field_merged(
            value,
            tag,
            wire_type,
            body,
            depth,
        ));
        assert(twin_body.skip(used as int) =~= shorter + other);
        lemma_fold_is_local::<M>(next, shorter, after, other, depth);
    }
}

/// A fold that succeeds with some levels of nesting left succeeds alike with more.
pub proof fn lemma_fold_at_any_depth<M: Message>(
    value: M::V,
    input: Seq<u8>,
    limit: nat,
    shallow: nat,
    deep: nat,
)
    requires
        reads_at_any_depth::<M>(),
        shallow <= deep,
        fields_merged::<M>(value, input, limit, shallow) is Ok,
    ensures
        fields_merged::<M>(value, input, limit, deep) == fields_merged::<M>(
            value,
            input,
            limit,
            shallow,
        ),
    decreases input.len(),
{
    if input.len() > limit {
        let (tag, wire_type, n) = key_decoded(input)->Some_0;
        let body = input.skip(n as int);
        let (next, used) = M::field_merged(value, tag, wire_type, body, shallow)->Ok_0;
        assert(M::field_merged(value, tag, wire_type, body, deep) == M::field_merged(
            value,
            tag,
            wire_type,
            body,
            shallow,
        ));
        lemma_fold_at_any_depth::<M>(next, body.skip(used as int), limit, shallow, deep);
    }
}

/// Folding two payloads one after the other is folding them as one: where `first`
/// merges into `value`, merging `second` into the result is merging `first` and
/// `second`, joined, into `value`.
pub proof fn lemma_fold_joins<M: Message>(
    value: M::V,
    first: Seq<u8>,
    second: Seq<u8>,
    depth: nat,
)
    requires
        reads_from_front::<M>(),
        fields_merged::<M>(value, first, 0, depth) is Ok,
    ensures
        fields_merged::<M>(value, first + second, 0, depth) == fields_merged::<M>(
            fields_merged::<M>(value, first, 0, depth)->Ok_0.0,
            second,
            0,
            depth,
        ),
{
    let nothing = Seq::<u8>::empty();
    assert(first + nothing =~= first);
    lemma_fields_merged_rest::<M>(value, first, 0, depth);
    lemma_fold_is_local::<M>(value, first, nothing, second, depth);
    lemma_fold_resumes::<M>(value, first + second, second.len(), 0, depth);
}

/// For a message type that reads its fields from the front, a payload that merges
/// when it stands alone merges alike whatever follows it.
pub proof fn lemma_merges_alike<M: Message>(value: M::V, payload: Seq<u8>, depth: nat)
    requires
        reads_from_front::<M>(),
        fields_merged::<M>(value, payload, 0, depth) is Ok,
    ensures
        merges_to::<M>(value, payload, depth, fields_merged::<M>(value, payload, 0, depth)->Ok_0.0),
{
    let nothing = Seq::<u8>::empty();
    assert(payload + nothing =~= payload);
    lemma_fields_merged_rest::<M>(value, payload, 0, depth);
    assert forall|other: Seq<u8>| #[trigger]
        fields_merged::<M>(value, payload + other, other.len(), depth) == Ok::<
            (M::V, Seq<u8>),
            MergeError,
        >((fields_merged::<M>(value, payload, 0, depth)->Ok_0.0, other)) by {
        lemma_fold_is_local::<M>(value, payload, nothing, other, depth);
    }
}

/// For a message type that needs no more than the depth it is given, a payload
/// that merges alike whatever follows it does so with more levels of nesting too.
pub proof fn lemma_merges_deeper<M: Message>(
    value: M::V,
    payload: Seq<u8>,
    shallow: nat,
    deep: nat,
    merged: M::V,
)
    requires
        reads_at_any_depth::<M>(),
        shallow <= deep,
        merges_to::<M>(value, payload, shallow, merged),
    ensures
        merges_to::<M>(value, payload, deep, merged),
{
    assert forall|other: Seq<u8>| #[trigger]
        fields_merged::<M>(value, payload + other, other.len(), deep) == Ok::<
            (M::V, Seq<u8>),
            MergeError,
        >((merged, other)) by {
        assert(fields_merged::<M>(value, payload + other, other.len(), shallow) is Ok);
        lemma_fold_at_any_depth::<M>(value, payload + other, other.len(), shallow, deep);
    }
}

/// Payloads that merge alike whatever follows them can be joined: where `first`
/// makes `once` of `value` and `second` makes `twice` of `once`, the two joined
/// make `twice` of `value`.
pub proof fn lemma_merges_join<M: Message>(
    value: M::V,
    first: Seq<u8>,
    second: Seq<u8>,
    depth: nat,
    once: M::V,
    twice: M::V,
)
    requires
        merges_to::<M>(value, first, depth, once),
        merges_to::<M>(once, second, depth, twice),
    ensures
        merges_to::<M>(value, first + second, depth, twice),
{
    assert forall|other: Seq<u8>| #[trigger]
        fields_merged::<M>(value, (first + second) + other, other.len(), depth) == Ok::<
            (M::V, Seq<u8>),
            MergeError,
        >((twice, other)) by {
        let behind = second + other;
        assert((first + second) + other =~= first + behind);
        assert(fields_merged::<M>(value, first + behind, behind.len(), depth) == Ok::<
            (M::V, Seq<u8>),
            MergeError,
        >((once, behind)));
        assert(fields_merged::<M>(once, second + other, other.len(), depth) == Ok::<
            (M::V, Seq<u8>),
            MergeError,
        >((twice, other)));
        lemma_fold_resumes::<M>(value, first + behind, behind.len(), other.len(), depth);
    }
}

} // verus!
