use bytes::Bytes;
use lazypb::field::LazyField;
use lazypb::hooks::{encode, encoded_len, merge};
use lazypb::lazy::Lazy;
use lazypb::wire::{DecodeContext, WireType};

fn long_payload() -> Vec<u8> {
    let mut payload = vec![0x0a, 38];
    for i in 0..38u8 {
        payload.push(i + 1);
    }
    payload
}

#[test]
fn long_payload_is_kept_then_decoded_then_merged_into() {
    let payload = long_payload();
    assert_eq!(payload.len(), 40);
    let mut wire = vec![40u8];
    wire.extend_from_slice(&payload);
    let mut buf = Bytes::from(wire);

    let mut field: LazyField<Vec<u8>> = LazyField::new(Lazy::Init);
    merge(WireType::LengthDelimited, &mut field, &mut buf, DecodeContext::new()).unwrap();
    assert_eq!(buf.len(), 0);
    assert_eq!(field.value(), &Lazy::Pending(Bytes::from(payload.clone())));

    let mut out = Vec::new();
    encode(5, &field, &mut out);
    let mut expected = vec![0x2a, 40];
    expected.extend_from_slice(&payload);
    assert_eq!(out, expected);
    assert_eq!(encoded_len(5, &field), 42);

    let read = field.get("last_updated").unwrap().unwrap().clone();
    assert_eq!(read, payload[2..].to_vec());
    assert_eq!(field.value(), &Lazy::Ready(payload[2..].to_vec()));

    let mut more = Bytes::from(vec![5u8, 0x0a, 3, 7, 8, 9]);
    merge(WireType::LengthDelimited, &mut field, &mut more, DecodeContext::new()).unwrap();
    assert_eq!(field.value(), &Lazy::Ready(vec![7, 8, 9]));

    let mut last = Vec::new();
    encode(5, &field, &mut last);
    assert_eq!(last, vec![0x2a, 5, 0x0a, 3, 7, 8, 9]);
    assert_ne!(last, expected);

    let mut again = Bytes::from(last[1..].to_vec());
    let mut copy: LazyField<Vec<u8>> = LazyField::new(Lazy::Init);
    merge(WireType::LengthDelimited, &mut copy, &mut again, DecodeContext::new()).unwrap();
    assert_eq!(copy.get("last_updated").unwrap(), Some(&vec![7, 8, 9]));
}
