use bytes::Bytes;
use lazypb::error::MergeError;
use lazypb::message::{decode, merge_all, merge_fields};
use lazypb::wire::{check_wire_type, DecodeContext, WireType};

#[test]
fn merge_fields_stops_at_the_limit() {
    let mut value: Vec<u8> = vec![];
    let mut buf = Bytes::from(vec![0x0a, 1, 1, 0x0a, 1, 2, 0x0a, 1, 3]);
    assert_eq!(merge_fields(&mut value, &mut buf, 3, DecodeContext::new()), Ok(()));
    assert_eq!(value, vec![2]);
    assert_eq!(&buf[..], &[0x0a, 1, 3]);
    assert_eq!(merge_fields(&mut value, &mut buf, 3, DecodeContext::new()), Ok(()));
    assert_eq!(value, vec![2]);
    assert_eq!(buf.len(), 3);
    assert_eq!(merge_fields(&mut value, &mut buf, 9, DecodeContext::new()), Ok(()));
    assert_eq!(buf.len(), 3);
}

#[test]
fn merge_fields_may_pass_the_limit() {
    let mut value: Vec<u8> = vec![];
    let mut buf = Bytes::from(vec![0x0a, 2, 1, 2, 0x0a]);
    assert_eq!(merge_fields(&mut value, &mut buf, 2, DecodeContext::new()), Ok(()));
    assert_eq!(value, vec![1, 2]);
    assert_eq!(&buf[..], &[0x0a]);
}

#[test]
fn merge_fields_reports_the_first_error() {
    let mut value: Vec<u8> = vec![];
    let mut buf = Bytes::from(vec![0x0a, 1, 1, 0x00, 0x0a, 1, 2]);
    assert_eq!(merge_fields(&mut value, &mut buf, 0, DecodeContext::new()), Err(MergeError::Key));
    let mut buf = Bytes::from(vec![0x0a, 1, 1, 0x0a, 9, 2]);
    assert_eq!(merge_fields(&mut value, &mut buf, 0, DecodeContext::new()), Err(MergeError::Field));
}

#[test]
fn merge_all_reads_to_the_end() {
    let mut value: Vec<u8> = vec![7];
    let mut buf = Bytes::from(vec![0x10, 1, 0x0a, 2, 3, 4]);
    assert_eq!(merge_all(&mut value, &mut buf), Ok(()));
    assert_eq!(value, vec![3, 4]);
    assert_eq!(buf.len(), 0);
    let mut nothing = Bytes::new();
    assert_eq!(merge_all(&mut value, &mut nothing), Ok(()));
    assert_eq!(value, vec![3, 4]);
}

#[test]
fn decode_starts_from_the_default() {
    let mut buf = Bytes::from(vec![0x10, 1]);
    let value: Vec<u8> = decode(&mut buf).unwrap();
    assert_eq!(value, Vec::<u8>::new());
    let mut buf = Bytes::from(vec![0x0a, 1, 5]);
    let value: Vec<u8> = decode(&mut buf).unwrap();
    assert_eq!(value, vec![5]);
    let mut buf = Bytes::from(vec![0x0a]);
    let broken: Result<Vec<u8>, MergeError> = decode(&mut buf);
    assert_eq!(broken, Err(MergeError::Field));
}

#[test]
fn keys_of_every_wire_type_are_read() {
    // Field 2 in each wire type that can be skipped; the value is untouched.
    let mut value: Vec<u8> = vec![1];
    let mut buf = Bytes::from(vec![
        0x10, 0x96, 0x01, // varint 150
        0x11, 1, 2, 3, 4, 5, 6, 7, 8, // 64 bit
        0x12, 2, 9, 9, // length-delimited
        0x13, 0x08, 0x01, 0x14, // group with one field
        0x15, 1, 2, 3, 4, // 32 bit
    ]);
    assert_eq!(merge_all(&mut value, &mut buf), Ok(()));
    assert_eq!(value, vec![1]);
    assert_eq!(buf.len(), 0);
}

#[test]
fn wire_types_are_held_against_each_other() {
    assert_eq!(check_wire_type(WireType::LengthDelimited, WireType::LengthDelimited), Ok(()));
    assert_eq!(check_wire_type(WireType::Varint, WireType::Varint), Ok(()));
    assert_eq!(
        check_wire_type(WireType::LengthDelimited, WireType::Varint),
        Err(MergeError::WireType)
    );
    assert_eq!(
        check_wire_type(WireType::StartGroup, WireType::EndGroup),
        Err(MergeError::WireType)
    );
}
