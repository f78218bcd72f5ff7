use serde_cbor::value::Value;
use std::collections::BTreeMap;

use tracker::decode_request;
use tracker::decode_response;
use tracker::encode_request;
use tracker::encode_response;
use tracker::frame_message;
use tracker::parse_frame_length;
use tracker::DnsMetadata;
use tracker::DnsRequest;
use tracker::DnsResponse;

#[test]
fn request_round_trip_get() {
    let bytes = encode_request(&DnsRequest::Get);
    assert!(matches!(decode_request(&bytes), Some(DnsRequest::Get)));
}

#[test]
fn request_round_trip_pong() {
    let m = DnsRequest::Pong { address: "maker.onion:8080".to_string() };
    let bytes = encode_request(&m);
    match decode_request(&bytes) {
        Some(DnsRequest::Pong { address }) => assert_eq!(address, "maker.onion:8080"),
        other => panic!("decoded {:?}", other),
    }
}

#[test]
fn request_round_trip_post() {
    let m = DnsRequest::Post {
        metadata: DnsMetadata {
            url: "maker.onion:8080".to_string(),
            bond_proof: vec![1, 2, 3, 255],
        },
    };
    let bytes = encode_request(&m);
    match decode_request(&bytes) {
        Some(DnsRequest::Post { metadata }) => {
            assert_eq!(metadata.url, "maker.onion:8080");
            assert_eq!(metadata.bond_proof, vec![1, 2, 3, 255]);
        }
        other => panic!("decoded {:?}", other),
    }
}

#[test]
fn response_round_trip_ping_and_address() {
    let bytes = encode_response(&DnsResponse::Ping);
    assert!(matches!(decode_response(&bytes), Some(DnsResponse::Ping)));
    let m = DnsResponse::Address {
        addresses: vec!["a.onion:1".to_string(), "b.onion:2".to_string()],
    };
    let bytes = encode_response(&m);
    match decode_response(&bytes) {
        Some(DnsResponse::Address { addresses }) => {
            assert_eq!(addresses, vec!["a.onion:1".to_string(), "b.onion:2".to_string()]);
        }
        other => panic!("decoded {:?}", other),
    }
}

#[test]
fn decode_rejects_trailing_bytes_and_junk() {
    let mut bytes = encode_request(&DnsRequest::Get);
    bytes.push(0x00);
    assert!(decode_request(&bytes).is_none());
    assert!(decode_request(&[]).is_none());
    assert!(decode_request(&[0xff, 0xff]).is_none());
    assert!(decode_request(encode_response(&DnsResponse::Ping).as_slice()).is_none());
}

#[test]
fn unit_variants_encode_as_their_name() {
    // "Get" as a CBOR text item, byte-for-byte what serde_cbor produces
    assert_eq!(encode_request(&DnsRequest::Get), serde_cbor::to_vec(&Value::Text("Get".into())).unwrap());
    assert_eq!(encode_response(&DnsResponse::Ping), serde_cbor::to_vec(&Value::Text("Ping".into())).unwrap());
}

#[test]
fn pong_encodes_as_single_entry_maps() {
    let mut inner = BTreeMap::new();
    inner.insert(Value::Text("address".into()), Value::Text("x.onion:1".into()));
    let mut outer = BTreeMap::new();
    outer.insert(Value::Text("Pong".into()), Value::Map(inner));
    let expected = serde_cbor::to_vec(&Value::Map(outer)).unwrap();
    let ours = encode_request(&DnsRequest::Pong { address: "x.onion:1".to_string() });
    assert_eq!(ours, expected);
}

#[test]
fn address_list_encodes_as_text_array() {
    let mut inner = BTreeMap::new();
    inner.insert(
        Value::Text("addresses".into()),
        Value::Array(vec![Value::Text("a.onion:1".into()), Value::Text("b.onion:2".into())]),
    );
    let mut outer = BTreeMap::new();
    outer.insert(Value::Text("Address".into()), Value::Map(inner));
    let expected = serde_cbor::to_vec(&Value::Map(outer)).unwrap();
    let ours = encode_response(&DnsResponse::Address {
        addresses: vec!["a.onion:1".to_string(), "b.onion:2".to_string()],
    });
    assert_eq!(ours, expected);
}

#[test]
fn long_text_uses_wider_length_forms() {
    let addr = format!("{}.onion:1", "x".repeat(300));
    let m = DnsRequest::Pong { address: addr.clone() };
    let bytes = encode_request(&m);
    match decode_request(&bytes) {
        Some(DnsRequest::Pong { address }) => assert_eq!(address, addr),
        other => panic!("decoded {:?}", other),
    }
}

#[test]
fn frame_prefixes_payload_with_big_endian_length() {
    let framed = frame_message(&[0xaa, 0xbb, 0xcc]).unwrap();
    assert_eq!(framed, vec![0, 0, 0, 3, 0xaa, 0xbb, 0xcc]);
}

#[test]
fn frame_length_parsing_enforces_the_ceiling() {
    assert_eq!(parse_frame_length(&[0, 0, 0, 3]), Some(3));
    assert_eq!(parse_frame_length(&[0, 1, 0, 0]), Some(65536));
    assert_eq!(parse_frame_length(&[0, 1, 0, 1]), None);
    assert_eq!(parse_frame_length(&[0, 0, 3]), None);
    assert_eq!(parse_frame_length(&[0xff, 0xff, 0xff, 0xff]), None);
}
