use bytes::Bytes;
use lazypb::field::LazyField;
use lazypb::hooks::{encode, encoded_len, merge};
use lazypb::lazy::Lazy;
use lazypb::message::Message;
use lazypb::wire::{DecodeContext, WireType, MAX_TAG};

fn written(tag: u32, field: &LazyField<Vec<u8>>) -> Vec<u8> {
    let mut out = vec![0xee];
    encode(tag, field, &mut out);
    assert_eq!(out[0], 0xee);
    assert_eq!(out.len() - 1, encoded_len(tag, field));
    out[1..].to_vec()
}

#[test]
fn empty_field_writes_an_empty_value() {
    let field: LazyField<Vec<u8>> = LazyField::new(Lazy::Init);
    let mut out = vec![1, 2];
    field.encode_raw(&mut out);
    assert_eq!(out, vec![1, 2]);
    assert_eq!(field.encoded_len(), 0);
    assert_eq!(field.current_len(), 0);
    assert_eq!(written(1, &field), vec![0x0a, 0]);
}

#[test]
fn kept_bytes_are_written_as_they_are() {
    // Not a message at all: the bytes are not looked at.
    let raw = vec![0xff, 0x00, 0x13, 0x37];
    let field: LazyField<Vec<u8>> = LazyField::new(Lazy::Pending(Bytes::from(raw.clone())));
    let mut out = vec![9];
    field.encode_raw(&mut out);
    assert_eq!(out, vec![9, 0xff, 0x00, 0x13, 0x37]);
    assert_eq!(field.encoded_len(), 4);
    assert_eq!(field.current_len(), 4);
    assert_eq!(written(2, &field), vec![0x12, 4, 0xff, 0x00, 0x13, 0x37]);
    assert_eq!(field.value(), &Lazy::Pending(Bytes::from(raw)));
}

#[test]
fn untouched_field_passes_through() {
    let mut payload = vec![0x10, 0x05, 0x0a, 36];
    payload.resize(40, 6);
    let mut wire = vec![40];
    wire.extend_from_slice(&payload);
    let mut buf = Bytes::from(wire);
    let mut field: LazyField<Vec<u8>> = LazyField::new(Lazy::Init);
    merge(WireType::LengthDelimited, &mut field, &mut buf, DecodeContext::new()).unwrap();
    let mut out = Vec::new();
    field.encode_raw(&mut out);
    assert_eq!(out, payload);
    // Read, the unknown field is gone.
    field.get("f").unwrap();
    let mut read = Vec::new();
    field.encode_raw(&mut read);
    assert_eq!(read, payload[2..].to_vec());
}

#[test]
fn decoded_message_is_encoded() {
    let field: LazyField<Vec<u8>> = LazyField::new(Lazy::Ready(vec![7, 8]));
    let mut out = Vec::new();
    field.encode_raw(&mut out);
    assert_eq!(out, vec![0x0a, 2, 7, 8]);
    assert_eq!(field.encoded_len(), 4);
    assert_eq!(field.current_len(), 4);
    assert_eq!(written(3, &field), vec![0x1a, 4, 0x0a, 2, 7, 8]);
    let default: LazyField<Vec<u8>> = LazyField::new(Lazy::Ready(vec![]));
    assert_eq!(default.encoded_len(), 0);
    assert_eq!(written(3, &default), vec![0x1a, 0]);
}

#[test]
fn long_value_gets_a_two_byte_length() {
    let field: LazyField<Vec<u8>> = LazyField::new(Lazy::Ready(vec![1; 300]));
    let out = written(1, &field);
    // Inner: key, length 300 in two bytes, 300 bytes. Outer: key, length 303.
    assert_eq!(&out[..6], &[0x0a, 0xaf, 0x02, 0x0a, 0xac, 0x02]);
    assert_eq!(out.len(), 306);
    assert_eq!(field.encoded_len(), 303);
}

#[test]
fn large_tags_take_longer_keys() {
    let field: LazyField<Vec<u8>> = LazyField::new(Lazy::Init);
    assert_eq!(written(15, &field), vec![0x7a, 0]);
    assert_eq!(written(16, &field), vec![0x82, 0x01, 0]);
    assert_eq!(written(2047, &field), vec![0xfa, 0x7f, 0]);
    assert_eq!(written(2048, &field), vec![0x82, 0x80, 0x01, 0]);
    assert_eq!(written(MAX_TAG, &field), vec![0xfa, 0xff, 0xff, 0xff, 0x0f, 0]);
    assert_eq!(encoded_len(0, &field), 2);
}

#[test]
fn written_message_reads_back() {
    for len in [0usize, 1, 29, 30, 31, 32, 100, 200] {
        let value = vec![5u8; len];
        let sent: LazyField<Vec<u8>> = LazyField::new(Lazy::Ready(value.clone()));
        let wire = written(4, &sent);
        let mut buf = Bytes::from(wire[1..].to_vec());
        let mut got: LazyField<Vec<u8>> = LazyField::new(Lazy::Init);
        merge(WireType::LengthDelimited, &mut got, &mut buf, DecodeContext::new()).unwrap();
        assert_eq!(buf.len(), 0);
        let kept = matches!(got.value(), Lazy::Pending(_));
        assert_eq!(kept, sent.encoded_len() > 32);
        assert_eq!(got.get("f").unwrap(), Some(&value));
        assert_eq!(written(4, &got), wire);
    }
}

#[test]
fn set_and_clear_replace_the_value() {
    let mut field: LazyField<Vec<u8>> = LazyField::new(Lazy::Pending(Bytes::from(vec![1, 2, 3])));
    field.set(vec![4]);
    assert_eq!(field.value(), &Lazy::Ready(vec![4]));
    assert_eq!(field.current_len(), 3);
    field.clear();
    assert_eq!(field.value(), &Lazy::Init);
    assert_eq!(field.current_len(), 0);
    assert!(field.free());
}

#[test]
fn bytes_value_is_a_message() {
    let mut value: Vec<u8> = Message::default();
    assert_eq!(value, Vec::<u8>::new());
    assert_eq!(Message::encoded_len(&value), 0);
    let mut buf = Bytes::from(vec![2u8, 8, 9, 0x10]);
    value.merge_field(1, WireType::LengthDelimited, &mut buf, DecodeContext::new()).unwrap();
    assert_eq!(value, vec![8, 9]);
    assert_eq!(&buf[..], &[0x10]);
    assert_eq!(Message::encoded_len(&value), 4);
    let mut out = vec![0];
    Message::encode_raw(&value, &mut out);
    assert_eq!(out, vec![0, 0x0a, 2, 8, 9]);
    // Another field is skipped and leaves the value.
    let mut other = Bytes::from(vec![1u8, 2, 3, 4, 5]);
    value.merge_field(7, WireType::ThirtyTwoBit, &mut other, DecodeContext::new()).unwrap();
    assert_eq!(value, vec![8, 9]);
    assert_eq!(&other[..], &[5]);
    assert!(value.merge_field(1, WireType::Varint, &mut other, DecodeContext::new()).is_err());
    Message::clear(&mut value);
    assert_eq!(value, Vec::<u8>::new());
}
