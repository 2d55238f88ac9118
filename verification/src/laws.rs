//! What holds of a lazy field across merging, reading and writing.

use crate::error::MergeError;
use crate::field::{base, deferred, eager, encoding, promoted};
use crate::folding::{
    lemma_fold_is_local, lemma_fold_joins, lemma_merges_alike, lemma_merges_deeper,
    lemma_merges_join,
};
use crate::hooks::{field_encoding, framed, merged, EAGER_LIMIT};
use crate::lazy::LazyView;
use crate::message::{
    decoded, fields_merged, merges_to, reads_at_any_depth, reads_from_front, Message,
};
use crate::varint::lemma_varint_round_trip;
use crate::wire::{key_encoding, varint_encoding, WireType, RECURSION_LIMIT};
use vstd::prelude::*;

verus! {

/// One occurrence of a field on the wire, after its key: the length of the payload
/// and the payload.
pub open spec fn occurrence(payload: Seq<u8>) -> Seq<u8> {
    varint_encoding(payload.len() as u64) + payload
}

/// An occurrence is framed as it was written: its length prefix is read back and
/// the payload follows it.
pub proof fn lemma_occurrence_framed(payload: Seq<u8>, rest: Seq<u8>, depth: nat)
    requires
        payload.len() <= u64::MAX,
        depth > 0,
    ensures
        framed(WireType::LengthDelimited, occurrence(payload) + rest, depth) == Ok::<
            (u64, nat),
            MergeError,
        >((payload.len() as u64, varint_encoding(payload.len() as u64).len())),
        (occurrence(payload) + rest).skip(varint_encoding(payload.len() as u64).len() as int)
            == payload + rest,
{
    let prefix = varint_encoding(payload.len() as u64);
    let input = occurrence(payload) + rest;
    assert(input =~= prefix + (payload + rest));
    lemma_varint_round_trip(payload.len() as u64, payload + rest);
    assert(input.skip(prefix.len() as int) =~= payload + rest);
}

/// The threshold: after a merge a field keeps bytes exactly where the payload is
/// longer than `EAGER_LIMIT` and the field was not decoded, and it is never empty.
/// A payload of up to `EAGER_LIMIT` bytes leaves the field decoded, and a longer
/// one is kept as it is by a field that is empty, and after the bytes that are kept
/// by a field that keeps some.
pub proof fn lemma_threshold<M: Message>(
    state: LazyView<M::V>,
    wire_type: WireType,
    input: Seq<u8>,
    depth: nat,
)
    requires
        framed(wire_type, input, depth) is Ok,
    ensures
        ({
            let (length, n) = framed(wire_type, input, depth)->Ok_0;
            let payload = input.subrange(n as int, n + length);
            let rest = input.skip(n + length);
            let after = merged::<M>(state, wire_type, input, depth);
            &&& after is Ok ==> !(after->Ok_0.0 is Init) && (after->Ok_0.0 is Pending <==> length
                > EAGER_LIMIT && !(state is Ready))
            &&& length <= EAGER_LIMIT && after is Ok ==> after->Ok_0.0 is Ready
            &&& length > EAGER_LIMIT && state is Init ==> after == Ok::<
                (LazyView<M::V>, Seq<u8>),
                MergeError,
            >((LazyView::Pending(payload), rest))
            &&& length > EAGER_LIMIT && state is Pending ==> after == Ok::<
                (LazyView<M::V>, Seq<u8>),
                MergeError,
            >((LazyView::Pending(state->Pending_0 + payload), rest))
            &&& length > EAGER_LIMIT && state is Ready && after is Ok ==> after->Ok_0.0 is Ready
        }),
{
    let (length, n) = framed(wire_type, input, depth)->Ok_0;
    let tail = input.skip(n as int);
    assert(tail.take(length as int) =~= input.subrange(n as int, n + length));
    assert(tail.skip(length as int) =~= input.skip(n + length));
}

/// Passthrough: a payload longer than `EAGER_LIMIT` that is merged into an empty
/// field, and not read, is written back byte for byte.
pub proof fn lemma_passthrough<M: Message>(payload: Seq<u8>, rest: Seq<u8>, depth: nat)
    requires
        EAGER_LIMIT < payload.len() <= u64::MAX,
        depth > 0,
    ensures
        ({
            let after = merged::<M>(
                LazyView::Init,
                WireType::LengthDelimited,
                occurrence(payload) + rest,
                depth,
            );
            after is Ok && after->Ok_0.1 == rest && encoding::<M>(after->Ok_0.0) == payload
        }),
{
    lemma_occurrence_framed(payload, rest, depth);
    assert((payload + rest).take(payload.len() as int) =~= payload);
    assert((payload + rest).skip(payload.len() as int) =~= rest);
}

/// Payloads that are put aside are kept in the order in which they came.
pub proof fn lemma_deferred_in_order<M: Message>(first: Seq<u8>, second: Seq<u8>)
    ensures
        deferred::<M>(deferred::<M>(LazyView::Init, first)->Ok_0, second) == Ok::<
            LazyView<M::V>,
            MergeError,
        >(LazyView::Pending(first + second)),
{
}

/// Promotion is idempotent: a field that was read holds no bytes to decode, and
/// reading it again changes nothing.
pub proof fn lemma_promotion_idempotent<M: Message>(state: LazyView<M::V>)
    requires
        promoted::<M>(state) is Ok,
    ensures
        !(promoted::<M>(state)->Ok_0 is Pending),
        promoted::<M>(promoted::<M>(state)->Ok_0) == promoted::<M>(state),
{
}

/// Where the fields of a payload are taken up to its end, they are taken alike
/// when the payload stands alone.
proof fn lemma_payload_alone<M: Message>(
    value: M::V,
    payload: Seq<u8>,
    rest: Seq<u8>,
    depth: nat,
)
    requires
        reads_from_front::<M>(),
        fields_merged::<M>(value, payload + rest, rest.len(), depth) is Ok,
        fields_merged::<M>(value, payload + rest, rest.len(), depth)->Ok_0.1.len() == rest.len(),
    ensures
        fields_merged::<M>(value, payload, 0, depth) == Ok::<(M::V, Seq<u8>), MergeError>(
            (
                fields_merged::<M>(value, payload + rest, rest.len(), depth)->Ok_0.0,
                Seq::empty(),
            ),
        ),
        fields_merged::<M>(value, payload + rest, rest.len(), depth)->Ok_0.1 == rest,
{
    let nothing = Seq::<u8>::empty();
    lemma_fold_is_local::<M>(value, payload, rest, nothing, depth);
    assert(payload + nothing =~= payload);
    lemma_fold_is_local::<M>(value, payload, rest, rest, depth);
}

/// Repeated-merge folding: two payloads of up to `EAGER_LIMIT` bytes are merged one
/// after the other into an empty field. Where the first makes `once` of the empty
/// message and the second makes `twice` of `once`, each whatever follows it, both
/// merges succeed, the field holds `twice`, and `twice` is what the two payloads,
/// joined, decode to.
pub proof fn lemma_repeated_merge_folds<M: Message>(
    first: Seq<u8>,
    second: Seq<u8>,
    rest: Seq<u8>,
    depth: nat,
    once: M::V,
    twice: M::V,
)
    requires
        depth > 0,
        first.len() <= EAGER_LIMIT,
        second.len() <= EAGER_LIMIT,
        merges_to::<M>(M::empty(), first, (depth - 1) as nat, once),
        merges_to::<M>(once, second, (depth - 1) as nat, twice),
        merges_to::<M>(M::empty(), first, RECURSION_LIMIT as nat, once),
        merges_to::<M>(once, second, RECURSION_LIMIT as nat, twice),
    ensures
        merged::<M>(
            LazyView::Init,
            WireType::LengthDelimited,
            occurrence(first) + (occurrence(second) + rest),
            depth,
        ) == Ok::<(LazyView<M::V>, Seq<u8>), MergeError>(
            (LazyView::Ready(once), occurrence(second) + rest),
        ),
        merged::<M>(
            LazyView::Ready(once),
            WireType::LengthDelimited,
            occurrence(second) + rest,
            depth,
        ) == Ok::<(LazyView<M::V>, Seq<u8>), MergeError>((LazyView::Ready(twice), rest)),
        decoded::<M>(first + second) == Ok::<M::V, MergeError>(twice),
{
    let inner = (depth - 1) as nat;
    let top = RECURSION_LIMIT as nat;
    let nothing = Seq::<u8>::empty();
    let behind = occurrence(second) + rest;
    lemma_occurrence_framed(first, behind, depth);
    lemma_occurrence_framed(second, rest, depth);
    assert((first + behind).len() - first.len() == behind.len());
    assert((second + rest).len() - second.len() == rest.len());
    assert(fields_merged::<M>(M::empty(), first + behind, behind.len(), inner) == Ok::<
        (M::V, Seq<u8>),
        MergeError,
    >((once, behind)));
    assert(fields_merged::<M>(once, second + rest, rest.len(), inner) == Ok::<
        (M::V, Seq<u8>),
        MergeError,
    >((twice, rest)));
    lemma_merges_join::<M>(M::empty(), first, second, top, once, twice);
    assert((first + second) + nothing =~= first + second);
    assert(fields_merged::<M>(M::empty(), (first + second) + nothing, nothing.len(), top) == Ok::<
        (M::V, Seq<u8>),
        MergeError,
    >((twice, nothing)));
}

/// Repeated-merge folding for a message type that reads its fields from the front
/// and alike at any depth: where a first small payload was merged into an empty
/// field, and the two payloads, joined, decode with the levels of nesting that a
/// merge leaves to the fields, the second merge succeeds, and the field holds what
/// the joined payloads decode to.
pub proof fn lemma_second_merge_follows<M: Message>(
    first: Seq<u8>,
    second: Seq<u8>,
    rest: Seq<u8>,
    depth: nat,
)
    requires
        reads_from_front::<M>(),
        reads_at_any_depth::<M>(),
        0 < depth <= RECURSION_LIMIT + 1,
        first.len() <= EAGER_LIMIT,
        second.len() <= EAGER_LIMIT,
        merged::<M>(
            LazyView::Init,
            WireType::LengthDelimited,
            occurrence(first) + (occurrence(second) + rest),
            depth,
        ) is Ok,
        fields_merged::<M>(M::empty(), first + second, 0, (depth - 1) as nat) is Ok,
    ensures
        ({
            let once = merged::<M>(
                LazyView::Init,
                WireType::LengthDelimited,
                occurrence(first) + (occurrence(second) + rest),
                depth,
            )->Ok_0;
            let joined = fields_merged::<M>(M::empty(), first + second, 0, (depth - 1) as nat)->Ok_0.0;
            &&& once.1 == occurrence(second) + rest
            &&& merged::<M>(once.0, WireType::LengthDelimited, once.1, depth) == Ok::<
                (LazyView<M::V>, Seq<u8>),
                MergeError,
            >((LazyView::Ready(joined), rest))
            &&& decoded::<M>(first + second) == Ok::<M::V, MergeError>(joined)
        }),
{
    let inner = (depth - 1) as nat;
    let top = RECURSION_LIMIT as nat;
    let behind = occurrence(second) + rest;
    lemma_occurrence_framed(first, behind, depth);
    assert((first + behind).len() - first.len() == behind.len());
    lemma_payload_alone::<M>(M::empty(), first, behind, inner);
    let once = fields_merged::<M>(M::empty(), first, 0, inner)->Ok_0.0;
    let joined = fields_merged::<M>(M::empty(), first + second, 0, inner)->Ok_0.0;
    lemma_fold_joins::<M>(M::empty(), first, second, inner);
    lemma_merges_alike::<M>(M::empty(), first, inner);
    lemma_merges_alike::<M>(once, second, inner);
    lemma_merges_deeper::<M>(M::empty(), first, inner, top, once);
    lemma_merges_deeper::<M>(once, second, inner, top, joined);
    lemma_repeated_merge_folds::<M>(first, second, rest, depth, once, joined);
}

/// Round trip: a message that is written, merged into an empty field and read
/// comes back as it was, whether its bytes were decoded at once or put aside,
/// provided the message type reads the message back from the bytes it writes for
/// it, whatever follows them.
pub proof fn lemma_round_trip<M: Message>(value: M::V, rest: Seq<u8>, depth: nat)
    requires
        depth > 0,
        M::encoding(value).len() <= u64::MAX,
        merges_to::<M>(M::empty(), M::encoding(value), (depth - 1) as nat, value),
        merges_to::<M>(M::empty(), M::encoding(value), RECURSION_LIMIT as nat, value),
    ensures
        ({
            let after = merged::<M>(
                LazyView::Init,
                WireType::LengthDelimited,
                occurrence(M::encoding(value)) + rest,
                depth,
            );
            &&& after is Ok
            &&& after->Ok_0.1 == rest
            &&& promoted::<M>(after->Ok_0.0) == Ok::<LazyView<M::V>, MergeError>(
                LazyView::Ready(value),
            )
        }),
{
    let inner = (depth - 1) as nat;
    let top = RECURSION_LIMIT as nat;
    let payload = M::encoding(value);
    let nothing = Seq::<u8>::empty();
    lemma_occurrence_framed(payload, rest, depth);
    assert((payload + rest).take(payload.len() as int) =~= payload);
    assert((payload + rest).skip(payload.len() as int) =~= rest);
    assert((payload + rest).len() - payload.len() == rest.len());
    assert(payload + nothing =~= payload);
    assert(fields_merged::<M>(M::empty(), payload + nothing, nothing.len(), top) == Ok::<
        (M::V, Seq<u8>),
        MergeError,
    >((value, nothing)));
    assert(fields_merged::<M>(M::empty(), payload + rest, rest.len(), inner) == Ok::<
        (M::V, Seq<u8>),
        MergeError,
    >((value, rest)));
}

/// A long payload is merged into an empty field, the field is read, and a short
/// payload is merged. The first payload is kept as it came, the read decodes it to
/// `once`, and the second merge makes `twice` of it, which is what the two
/// payloads, joined, decode to. What the field then writes is what the message type
/// writes for `twice`; where the type reads that back, the bytes written decode to
/// `twice`, and they are not the first payload unless the second changed nothing.
pub proof fn lemma_kept_read_merged<M: Message>(
    long: Seq<u8>,
    short: Seq<u8>,
    rest: Seq<u8>,
    depth: nat,
    once: M::V,
    twice: M::V,
)
    requires
        depth > 0,
        EAGER_LIMIT < long.len() <= u64::MAX,
        short.len() <= EAGER_LIMIT,
        merges_to::<M>(M::empty(), long, RECURSION_LIMIT as nat, once),
        merges_to::<M>(once, short, (depth - 1) as nat, twice),
        merges_to::<M>(once, short, RECURSION_LIMIT as nat, twice),
    ensures
        merged::<M>(LazyView::Init, WireType::LengthDelimited, occurrence(long), depth) == Ok::<
            (LazyView<M::V>, Seq<u8>),
            MergeError,
        >((LazyView::Pending(long), Seq::empty())),
        encoding::<M>(LazyView::Pending(long)) == long,
        promoted::<M>(LazyView::Pending(long)) == Ok::<LazyView<M::V>, MergeError>(
            LazyView::Ready(once),
        ),
        merged::<M>(
            LazyView::Ready(once),
            WireType::LengthDelimited,
            occurrence(short) + rest,
            depth,
        ) == Ok::<(LazyView<M::V>, Seq<u8>), MergeError>((LazyView::Ready(twice), rest)),
        decoded::<M>(long + short) == Ok::<M::V, MergeError>(twice),
        encoding::<M>(LazyView::Ready(twice)) == M::encoding(twice),
        merges_to::<M>(M::empty(), M::encoding(twice), RECURSION_LIMIT as nat, twice) ==> decoded::<
            M,
        >(M::encoding(twice)) == Ok::<M::V, MergeError>(twice) && (twice != once ==> M::encoding(
            twice,
        ) != long),
{
    let inner = (depth - 1) as nat;
    let top = RECURSION_LIMIT as nat;
    let nothing = Seq::<u8>::empty();
    lemma_occurrence_framed(long, nothing, depth);
    assert(occurrence(long) + nothing =~= occurrence(long));
    assert((long + nothing).take(long.len() as int) =~= long);
    assert((long + nothing).skip(long.len() as int) =~= nothing);
    assert(long + nothing =~= long);
    assert(fields_merged::<M>(M::empty(), long + nothing, nothing.len(), top) == Ok::<
        (M::V, Seq<u8>),
        MergeError,
    >((once, nothing)));
    lemma_occurrence_framed(short, rest, depth);
    assert((short + rest).len() - short.len() == rest.len());
    assert(fields_merged::<M>(once, short + rest, rest.len(), inner) == Ok::<
        (M::V, Seq<u8>),
        MergeError,
    >((twice, rest)));
    lemma_merges_join::<M>(M::empty(), long, short, top, once, twice);
    assert((long + short) + nothing =~= long + short);
    assert(fields_merged::<M>(M::empty(), (long + short) + nothing, nothing.len(), top) == Ok::<
        (M::V, Seq<u8>),
        MergeError,
    >((twice, nothing)));
    if merges_to::<M>(M::empty(), M::encoding(twice), top, twice) {
        let written = M::encoding(twice);
        assert(written + nothing =~= written);
        assert(fields_merged::<M>(M::empty(), written + nothing, nothing.len(), top) == Ok::<
            (M::V, Seq<u8>),
            MergeError,
        >((twice, nothing)));
    }
}

/// A field that keeps a payload of less than 128 bytes is written as its key, one
/// byte with the length, and the payload as it came.
pub proof fn lemma_kept_field_written<M: Message>(tag: u32, kept: Seq<u8>)
    requires
        kept.len() < 128,
    ensures
        field_encoding::<M>(tag, LazyView::Pending(kept)) == key_encoding(
            tag,
            WireType::LengthDelimited,
        ) + seq![kept.len() as u8] + kept,
{
}

/// The policy cannot be observed by reading: whether a payload is decoded at once
/// and merged into a field, or put aside and decoded when the field is read, the
/// field holds the same message. `start` is the message that the field holds or
/// that its kept bytes decode to, and `payload` makes `after` of it, whatever
/// follows.
pub proof fn lemma_deferring_reads_the_same<M: Message>(
    state: LazyView<M::V>,
    payload: Seq<u8>,
    rest: Seq<u8>,
    depth: nat,
    start: M::V,
    after: M::V,
)
    requires
        base::<M>(state) == Ok::<M::V, MergeError>(start),
        state is Pending ==> merges_to::<M>(
            M::empty(),
            state->Pending_0,
            RECURSION_LIMIT as nat,
            start,
        ),
        merges_to::<M>(start, payload, depth, after),
        merges_to::<M>(start, payload, RECURSION_LIMIT as nat, after),
    ensures
        eager::<M>(state, payload + rest, rest.len(), depth) == Ok::<
            (LazyView<M::V>, Seq<u8>),
            MergeError,
        >((LazyView::Ready(after), rest)),
        deferred::<M>(state, payload) is Ok,
        promoted::<M>(deferred::<M>(state, payload)->Ok_0) == Ok::<LazyView<M::V>, MergeError>(
            LazyView::Ready(after),
        ),
{
    let top = RECURSION_LIMIT as nat;
    let nothing = Seq::<u8>::empty();
    assert(fields_merged::<M>(start, payload + rest, rest.len(), depth) == Ok::<
        (M::V, Seq<u8>),
        MergeError,
    >((after, rest)));
    assert(payload + nothing =~= payload);
    assert(fields_merged::<M>(start, payload + nothing, nothing.len(), top) == Ok::<
        (M::V, Seq<u8>),
        MergeError,
    >((after, nothing)));
    match state {
        LazyView::Pending(kept) => {
            lemma_merges_join::<M>(M::empty(), kept, payload, top, start, after);
            assert((kept + payload) + nothing =~= kept + payload);
            assert(fields_merged::<M>(M::empty(), (kept + payload) + nothing, nothing.len(), top)
                == Ok::<(M::V, Seq<u8>), MergeError>((after, nothing)));
        },
        _ => {},
    }
}

} // verus!
