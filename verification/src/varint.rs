//! What holds of varints and field keys: a value that is written is read back, and
//! what is read depends only on the bytes that are read.

use crate::wire::{
    base128, continued, key_decoded, lemma_varint_encoding_len, pow128, varint_decoded,
    varint_encoding,
};
use vstd::prelude::*;

verus! {

/// A value below twice 128 to the power of `n - 1` takes at most `n` bytes as a
/// varint, and where it takes `n`, the last of them is 0 or 1.
pub proof fn lemma_varint_encoding_last(value: u64, n: nat)
    requires
        n >= 1,
        (value as int) < 2 * pow128((n - 1) as nat),
    ensures
        varint_encoding(value).len() <= n,
        varint_encoding(value).len() == n ==> varint_encoding(value)[n - 1] < 2,
    decreases n,
{
    reveal_with_fuel(pow128, 2);
    if n == 1 {
        assert(varint_encoding(value) =~= seq![value as u8]);
    } else if value >= 0x80 {
        let tail = varint_encoding((value / 128) as u64);
        lemma_varint_encoding_last((value / 128) as u64, (n - 1) as nat);
        assert(varint_encoding(value) == seq![(value % 128 + 128) as u8] + tail);
        if tail.len() == n - 1 {
            assert(varint_encoding(value)[n - 1] == tail[n - 2]);
        }
    }
}

/// Every byte of a varint but the last has its top bit set.
pub proof fn lemma_varint_encoding_continued(value: u64, rest: Seq<u8>)
    ensures
        continued(varint_encoding(value) + rest) == varint_encoding(value).len() - 1,
    decreases value,
{
    let bytes = varint_encoding(value) + rest;
    if value < 0x80 {
        assert(bytes[0] == value as u8);
    } else {
        let tail = varint_encoding((value / 128) as u64);
        lemma_varint_encoding_continued((value / 128) as u64, rest);
        assert(bytes[0] == (value % 128 + 128) as u8);
        assert(bytes.skip(1) =~= tail + rest);
    }
}

/// The bytes of a varint spell its value.
pub proof fn lemma_varint_encoding_value(value: u64, rest: Seq<u8>)
    ensures
        base128(varint_encoding(value) + rest, varint_encoding(value).len()) == value,
    decreases value,
{
    let bytes = varint_encoding(value) + rest;
    if value < 0x80 {
        assert(bytes[0] == value as u8);
        assert(base128(bytes.skip(1), 0) == 0);
    } else {
        let tail = varint_encoding((value / 128) as u64);
        lemma_varint_encoding_value((value / 128) as u64, rest);
        assert(bytes[0] == (value % 128 + 128) as u8);
        assert(bytes.skip(1) =~= tail + rest);
        assert(bytes[0] % 128 == value % 128);
    }
}

/// A varint that is written is read back: the bytes of `value`, with whatever
/// follows them, decode to `value` and take as many bytes as were written.
pub proof fn lemma_varint_round_trip(value: u64, rest: Seq<u8>)
    ensures
        varint_decoded(varint_encoding(value) + rest) == Some(
            (value, varint_encoding(value).len()),
        ),
{
    let bytes = varint_encoding(value) + rest;
    lemma_varint_encoding_len(value);
    lemma_varint_encoding_continued(value, rest);
    lemma_varint_encoding_value(value, rest);
    assert(pow128(9) == 9223372036854775808) by {
        reveal_with_fuel(pow128, 10);
    }
    lemma_varint_encoding_last(value, 10);
    if varint_encoding(value).len() == 10 {
        assert(bytes[9] == varint_encoding(value)[9]);
    }
}

/// The count of the bytes with their top bit set depends only on those bytes and
/// the one after them.
pub proof fn lemma_continued_local(a: Seq<u8>, b: Seq<u8>)
    requires
        continued(a) < a.len(),
        continued(a) < b.len(),
        a.take(continued(a) as int + 1) == b.take(continued(a) as int + 1),
    ensures
        continued(b) == continued(a),
    decreases a.len(),
{
    let k = continued(a) as int;
    assert(a[0] == a.take(k + 1)[0]);
    assert(b[0] == b.take(k + 1)[0]);
    if a[0] >= 0x80 {
        assert(a.skip(1).take(k) =~= a.take(k + 1).skip(1));
        assert(b.skip(1).take(k) =~= b.take(k + 1).skip(1));
        lemma_continued_local(a.skip(1), b.skip(1));
    }
}

/// The number that the first `n` bytes spell depends only on those bytes.
pub proof fn lemma_base128_local(a: Seq<u8>, b: Seq<u8>, n: nat)
    requires
        n <= a.len(),
        n <= b.len(),
        a.take(n as int) == b.take(n as int),
    ensures
        base128(a, n) == base128(b, n),
    decreases n,
{
    if n > 0 {
        assert(a[0] == a.take(n as int)[0]);
        assert(b[0] == b.take(n as int)[0]);
        assert(a.skip(1).take(n - 1) =~= a.take(n as int).skip(1));
        assert(b.skip(1).take(n - 1) =~= b.take(n as int).skip(1));
        lemma_base128_local(a.skip(1), b.skip(1), (n - 1) as nat);
    }
}

/// A varint is read from the front: two inputs that agree on the bytes that the
/// varint takes hold the same varint.
pub proof fn lemma_varint_local(a: Seq<u8>, b: Seq<u8>)
    requires
        varint_decoded(a) is Some,
        varint_decoded(a)->Some_0.1 <= b.len(),
        a.take(varint_decoded(a)->Some_0.1 as int) == b.take(varint_decoded(a)->Some_0.1 as int),
    ensures
        varint_decoded(b) == varint_decoded(a),
{
    let n = varint_decoded(a)->Some_0.1;
    lemma_continued_local(a, b);
    lemma_base128_local(a, b, n);
    if n == 10 {
        assert(a[9] == a.take(10)[9]);
        assert(b[9] == b.take(10)[9]);
    }
}

/// A field key is read from the front: two inputs that agree on the bytes that the
/// key takes hold the same key.
pub proof fn lemma_key_local(a: Seq<u8>, b: Seq<u8>)
    requires
        key_decoded(a) is Some,
        key_decoded(a)->Some_0.2 <= b.len(),
        a.take(key_decoded(a)->Some_0.2 as int) == b.take(key_decoded(a)->Some_0.2 as int),
    ensures
        key_decoded(b) == key_decoded(a),
{
    lemma_varint_local(a, b);
}

} // verus!
