use bytes::Bytes;
use lazypb::error::MergeError;
use lazypb::field::LazyField;
use lazypb::hooks::{merge, EAGER_LIMIT};
use lazypb::lazy::Lazy;
use lazypb::wire::{DecodeContext, WireType};

/// A `BytesValue` payload of `n` bytes in all, for `n` from 2 to 129.
fn payload(n: usize, fill: u8) -> Vec<u8> {
    let mut bytes = vec![0x0a, (n - 2) as u8];
    bytes.resize(n, fill);
    bytes
}

fn occurrence(payload: &[u8]) -> Vec<u8> {
    assert!(payload.len() < 128);
    let mut bytes = vec![payload.len() as u8];
    bytes.extend_from_slice(payload);
    bytes
}

fn empty() -> LazyField<Vec<u8>> {
    LazyField::new(Lazy::Init)
}

fn feed(field: &mut LazyField<Vec<u8>>, bytes: Vec<u8>) -> (Result<(), MergeError>, Bytes) {
    let mut buf = Bytes::from(bytes);
    let r = merge(WireType::LengthDelimited, field, &mut buf, DecodeContext::new());
    (r, buf)
}

#[test]
fn the_threshold_is_thirty_two_bytes() {
    assert_eq!(EAGER_LIMIT, 32);
}

#[test]
fn payload_of_threshold_length_is_decoded_at_once() {
    let mut field = empty();
    let p = payload(32, 7);
    let (r, rest) = feed(&mut field, occurrence(&p));
    assert_eq!(r, Ok(()));
    assert_eq!(rest.len(), 0);
    assert_eq!(field.value(), &Lazy::Ready(vec![7u8; 30]));
}

#[test]
fn payload_above_threshold_is_kept() {
    let mut field = empty();
    let p = payload(33, 7);
    let (r, rest) = feed(&mut field, occurrence(&p));
    assert_eq!(r, Ok(()));
    assert_eq!(rest.len(), 0);
    assert_eq!(field.value(), &Lazy::Pending(Bytes::from(p)));
}

#[test]
fn merge_leaves_what_follows_the_payload() {
    let mut field = empty();
    let mut wire = occurrence(&payload(40, 1));
    wire.extend_from_slice(&[0x10, 0x01]);
    let (r, rest) = feed(&mut field, wire);
    assert_eq!(r, Ok(()));
    assert_eq!(&rest[..], &[0x10, 0x01]);

    let mut small = empty();
    let mut wire = occurrence(&payload(5, 1));
    wire.extend_from_slice(&[0x10, 0x01]);
    let (r, rest) = feed(&mut small, wire);
    assert_eq!(r, Ok(()));
    assert_eq!(&rest[..], &[0x10, 0x01]);
    assert_eq!(small.value(), &Lazy::Ready(vec![1, 1, 1]));
}

#[test]
fn kept_payloads_accumulate_in_order() {
    let mut field = empty();
    let a = payload(40, 1);
    let b = payload(50, 2);
    assert_eq!(feed(&mut field, occurrence(&a)).0, Ok(()));
    assert_eq!(feed(&mut field, occurrence(&b)).0, Ok(()));
    let mut both = a.clone();
    both.extend_from_slice(&b);
    assert_eq!(field.value(), &Lazy::Pending(Bytes::from(both)));
    assert_eq!(field.get("f").unwrap(), Some(&vec![2u8; 48]));
}

#[test]
fn long_payload_after_empty_kept_bytes_replaces_them() {
    let mut field: LazyField<Vec<u8>> = LazyField::new(Lazy::Pending(Bytes::new()));
    let a = payload(40, 1);
    assert_eq!(feed(&mut field, occurrence(&a)).0, Ok(()));
    assert_eq!(field.value(), &Lazy::Pending(Bytes::from(a)));
}

#[test]
fn small_payload_decodes_the_kept_bytes_first() {
    let mut field = empty();
    assert_eq!(feed(&mut field, occurrence(&payload(40, 1))).0, Ok(()));
    // An empty payload adds no field: the value is what the kept bytes hold.
    assert_eq!(feed(&mut field, vec![0]).0, Ok(()));
    assert_eq!(field.value(), &Lazy::Ready(vec![1u8; 38]));
}

#[test]
fn small_payload_on_empty_kept_bytes_starts_from_the_default() {
    let mut field: LazyField<Vec<u8>> = LazyField::new(Lazy::Pending(Bytes::new()));
    assert_eq!(feed(&mut field, vec![0]).0, Ok(()));
    assert_eq!(field.value(), &Lazy::Ready(vec![]));
}

#[test]
fn long_payload_is_merged_into_a_decoded_field() {
    let mut field: LazyField<Vec<u8>> = LazyField::new(Lazy::Ready(vec![9]));
    assert_eq!(feed(&mut field, occurrence(&payload(40, 3))).0, Ok(()));
    assert_eq!(field.value(), &Lazy::Ready(vec![3u8; 38]));
}

#[test]
fn small_payload_is_merged_into_a_decoded_field() {
    let mut field: LazyField<Vec<u8>> = LazyField::new(Lazy::Ready(vec![9]));
    // Field 2, a varint, is unknown to the message and skipped.
    assert_eq!(feed(&mut field, vec![2, 0x10, 0x05]).0, Ok(()));
    assert_eq!(field.value(), &Lazy::Ready(vec![9]));
}

#[test]
fn two_small_payloads_fold_like_one() {
    let a = vec![0x0a, 2, 1, 2];
    let b = vec![0x10, 5, 0x0a, 1, 9];
    let mut field = empty();
    let mut wire = occurrence(&a);
    wire.extend_from_slice(&occurrence(&b));
    let mut buf = Bytes::from(wire);
    assert_eq!(merge(WireType::LengthDelimited, &mut field, &mut buf, DecodeContext::new()), Ok(()));
    assert_eq!(field.value(), &Lazy::Ready(vec![1, 2]));
    assert_eq!(merge(WireType::LengthDelimited, &mut field, &mut buf, DecodeContext::new()), Ok(()));
    assert_eq!(buf.len(), 0);

    let mut joined = a.clone();
    joined.extend_from_slice(&b);
    let mut all = Bytes::from(joined);
    let whole: Vec<u8> = lazypb::message::decode(&mut all).unwrap();
    assert_eq!(whole, vec![9]);
    assert_eq!(field.value(), &Lazy::Ready(whole));
}

#[test]
fn long_length_prefix_takes_two_bytes() {
    let mut p = vec![0x0a, 0x80 | 72, 1];
    p.resize(203, 4);
    let mut wire = vec![0x80 | 75, 1];
    wire.extend_from_slice(&p);
    wire.push(0xff);
    let mut field = empty();
    let (r, rest) = feed(&mut field, wire);
    assert_eq!(r, Ok(()));
    assert_eq!(&rest[..], &[0xff]);
    assert_eq!(field.value(), &Lazy::Pending(Bytes::from(p)));
    assert_eq!(field.get("f").unwrap(), Some(&vec![4u8; 200]));
}

#[test]
fn overlong_length_prefix_is_read() {
    // The length 3 written in two bytes.
    let mut field = empty();
    let (r, rest) = feed(&mut field, vec![0x83, 0x00, 0x0a, 1, 5, 6]);
    assert_eq!(r, Ok(()));
    assert_eq!(&rest[..], &[6]);
    assert_eq!(field.value(), &Lazy::Ready(vec![5]));
}

#[test]
fn wrong_wire_type_is_refused() {
    for wire_type in [
        WireType::Varint,
        WireType::SixtyFourBit,
        WireType::StartGroup,
        WireType::EndGroup,
        WireType::ThirtyTwoBit,
    ] {
        let mut field = empty();
        let mut buf = Bytes::from(vec![1u8, 0]);
        let r = merge(wire_type, &mut field, &mut buf, DecodeContext::new());
        assert_eq!(r, Err(MergeError::WireType));
        assert_eq!(buf.len(), 2);
        assert_eq!(field.value(), &Lazy::Init);
    }
}

#[test]
fn recursion_limit_is_enforced() {
    let mut ctx = DecodeContext::new();
    for _ in 0..100 {
        assert_eq!(ctx.limit_reached(), Ok(()));
        ctx = ctx.enter_recursion();
    }
    assert_eq!(ctx.limit_reached(), Err(MergeError::RecursionLimit));
    let mut field = empty();
    let mut buf = Bytes::from(vec![0u8]);
    let r = merge(WireType::LengthDelimited, &mut field, &mut buf, ctx);
    assert_eq!(r, Err(MergeError::RecursionLimit));
    assert_eq!(buf.len(), 1);
    assert_eq!(field.value(), &Lazy::Init);
}

#[test]
fn last_level_of_nesting_can_still_be_entered() {
    let mut ctx = DecodeContext::new();
    for _ in 0..99 {
        ctx = ctx.enter_recursion();
    }
    let mut field = empty();
    let mut buf = Bytes::from(vec![3u8, 0x0a, 1, 5]);
    assert_eq!(merge(WireType::LengthDelimited, &mut field, &mut buf, ctx), Ok(()));
    assert_eq!(field.value(), &Lazy::Ready(vec![5]));
}

#[test]
fn missing_or_broken_length_prefix_is_refused() {
    let mut field = empty();
    assert_eq!(feed(&mut field, vec![]).0, Err(MergeError::Varint));
    assert_eq!(feed(&mut field, vec![0x80]).0, Err(MergeError::Varint));
    assert_eq!(feed(&mut field, vec![0xff; 9]).0, Err(MergeError::Varint));
    // Ten bytes whose last is 2 or more do not fit in 64 bits.
    let mut ten = vec![0xff; 9];
    ten.push(0x02);
    assert_eq!(feed(&mut field, ten).0, Err(MergeError::Varint));
    // Eleven bytes with the top bit set.
    assert_eq!(feed(&mut field, vec![0x80; 11]).0, Err(MergeError::Varint));
    assert_eq!(field.value(), &Lazy::Init);
}

#[test]
fn ten_byte_length_prefix_is_read_as_a_number() {
    // u64::MAX: more than the buffer holds.
    let mut ten = vec![0xff; 9];
    ten.push(0x01);
    ten.push(0x00);
    let mut field = empty();
    let (r, rest) = feed(&mut field, ten);
    assert_eq!(r, Err(MergeError::BufferUnderflow));
    assert_eq!(&rest[..], &[0x00]);
}

#[test]
fn length_beyond_the_input_is_refused() {
    let mut field = empty();
    let (r, rest) = feed(&mut field, vec![5, 1, 2]);
    assert_eq!(r, Err(MergeError::BufferUnderflow));
    assert_eq!(&rest[..], &[1, 2]);
    assert_eq!(field.value(), &Lazy::Init);

    let (r, _) = feed(&mut field, vec![40, 1, 2]);
    assert_eq!(r, Err(MergeError::BufferUnderflow));
    assert_eq!(field.value(), &Lazy::Init);
}

#[test]
fn broken_key_in_a_small_payload_is_refused() {
    let mut field = empty();
    // Tag 0.
    assert_eq!(feed(&mut field, vec![2, 0x00, 0x00]).0, Err(MergeError::Key));
    assert_eq!(field.value(), &Lazy::Init);
    // Wire type 7.
    assert_eq!(feed(&mut field, vec![2, 0x0f, 0x00]).0, Err(MergeError::Key));
    // A key that does not fit in 32 bits.
    assert_eq!(feed(&mut field, vec![5, 0x8a, 0x80, 0x80, 0x80, 0x10]).0, Err(MergeError::Key));
    assert_eq!(field.value(), &Lazy::Init);
}

#[test]
fn refused_field_in_a_small_payload_is_an_error() {
    let mut field = empty();
    // Field 1 as a varint: the message wants it length-delimited.
    assert_eq!(feed(&mut field, vec![2, 0x08, 0x01]).0, Err(MergeError::Field));
    assert_eq!(field.value(), &Lazy::Init);
    // An end of a group that was not opened.
    assert_eq!(feed(&mut field, vec![1, 0x14]).0, Err(MergeError::Field));
    assert_eq!(field.value(), &Lazy::Init);
}

#[test]
fn field_that_reaches_past_the_payload_is_refused() {
    let mut field = empty();
    let (r, rest) = feed(&mut field, vec![2, 0x0a, 1, 9, 8]);
    assert_eq!(r, Err(MergeError::LengthExceeded));
    // The field was taken before its length was held against the payload's.
    assert_eq!(field.value(), &Lazy::Ready(vec![9]));
    assert_eq!(&rest[..], &[8]);
}

#[test]
fn failed_small_merge_empties_the_kept_bytes() {
    let mut field = empty();
    assert_eq!(feed(&mut field, occurrence(&payload(40, 1))).0, Ok(()));
    assert_eq!(feed(&mut field, vec![2, 0x00, 0x00]).0, Err(MergeError::Key));
    assert_eq!(field.value(), &Lazy::Pending(Bytes::new()));
}

#[test]
fn kept_bytes_that_do_not_decode_fail_a_small_merge() {
    let mut broken = vec![0x08];
    broken.resize(40, 0x80);
    let mut field: LazyField<Vec<u8>> = LazyField::new(Lazy::Pending(Bytes::from(broken)));
    let (r, rest) = feed(&mut field, vec![3, 0x0a, 1, 5]);
    assert_eq!(r, Err(MergeError::Field));
    assert_eq!(&rest[..], &[0x0a, 1, 5]);
    assert!(matches!(field.value(), Lazy::Pending(_)));
}

#[test]
fn long_payload_that_does_not_decode_fails_on_a_decoded_field() {
    let mut broken = vec![0x08];
    broken.resize(40, 0x80);
    let mut field: LazyField<Vec<u8>> = LazyField::new(Lazy::Ready(vec![1]));
    let (r, rest) = feed(&mut field, occurrence(&broken));
    assert_eq!(r, Err(MergeError::Field));
    assert_eq!(rest.len(), 0);
    assert!(matches!(field.value(), Lazy::Ready(_)));
}

#[test]
fn occurrences_of_a_repeated_lazy_field_each_get_a_field_of_their_own() {
    // What is generated for a repeated lazy field: a new, empty field for each
    // occurrence, put at the end of the list once the merge went well.
    let mut list: Vec<LazyField<Vec<u8>>> = Vec::new();
    let mut wire = occurrence(&payload(40, 1));
    wire.extend_from_slice(&occurrence(&payload(5, 2)));
    let mut buf = Bytes::from(wire);
    for _ in 0..2 {
        let mut fresh: LazyField<Vec<u8>> = LazyField::default();
        merge(WireType::LengthDelimited, &mut fresh, &mut buf, DecodeContext::new()).unwrap();
        list.push(fresh);
    }
    assert_eq!(buf.len(), 0);
    assert_eq!(list[0].value(), &Lazy::Pending(Bytes::from(payload(40, 1))));
    assert_eq!(list[1].value(), &Lazy::Ready(vec![2, 2, 2]));
    assert_eq!(list[0].kept_len(), 40);
    assert_eq!(list[1].kept_len(), 0);
}

#[test]
fn required_lazy_field_is_merged_where_it_stands() {
    let mut field: LazyField<Vec<u8>> = LazyField::default();
    assert_eq!(field.kept_len(), 0);
    assert_eq!(feed(&mut field, occurrence(&payload(33, 4))).0, Ok(()));
    assert_eq!(field.kept_len(), 33);
    assert_eq!(field.get("f").unwrap(), Some(&vec![4u8; 31]));
    assert_eq!(field.kept_len(), 0);
}
