//! Wire codec: exact encodings, the round trip, and rejection of malformed
//! input.

use relay_core::codec::{decode, encode, DecodeError};
use relay_core::envelope::{Envelope, EventData, EventKind, Pair};

fn pair(key: &str, value: &str) -> Pair {
    Pair { key: key.as_bytes().to_vec(), value: value.as_bytes().to_vec() }
}

fn chat_request(entries: Vec<Pair>) -> Envelope {
    Envelope {
        event: EventKind::Request,
        event_data: Some(EventData { method: b"chat_message".to_vec(), data: entries }),
    }
}

#[test]
fn encode_headless_envelope_exact_bytes() {
    let e = Envelope { event: EventKind::Request, event_data: None };
    assert_eq!(encode(&e), vec![0u8, 0u8]);
    let e = Envelope { event: EventKind::Notification, event_data: None };
    assert_eq!(encode(&e), vec![1u8, 0u8]);
    let e = Envelope { event: EventKind::System, event_data: None };
    assert_eq!(encode(&e), vec![2u8, 0u8]);
}

#[test]
fn encode_full_envelope_exact_bytes() {
    let e = chat_request(vec![pair("text", "hi")]);
    let mut expected: Vec<u8> = vec![0u8, 1u8];
    expected.extend_from_slice(&12u64.to_le_bytes());
    expected.extend_from_slice(b"chat_message");
    expected.extend_from_slice(&1u64.to_le_bytes());
    expected.extend_from_slice(&4u64.to_le_bytes());
    expected.extend_from_slice(b"text");
    expected.extend_from_slice(&2u64.to_le_bytes());
    expected.extend_from_slice(b"hi");
    assert_eq!(encode(&e), expected);
}

#[test]
fn round_trip_headless() {
    let e = Envelope { event: EventKind::System, event_data: None };
    let decoded = decode(&encode(&e)).expect("own encoding must decode");
    assert_eq!(decoded, Envelope { event: EventKind::System, event_data: None });
}

#[test]
fn round_trip_full() {
    let e = chat_request(vec![pair("displayName", "Alice"), pair("text", "hi")]);
    let decoded = decode(&encode(&e)).expect("own encoding must decode");
    assert_eq!(decoded, chat_request(vec![pair("displayName", "Alice"), pair("text", "hi")]));
}

#[test]
fn round_trip_empty_strings() {
    let e = Envelope {
        event: EventKind::Notification,
        event_data: Some(EventData { method: Vec::new(), data: vec![pair("", "")] }),
    };
    let decoded = decode(&encode(&e)).expect("own encoding must decode");
    assert_eq!(
        decoded,
        Envelope {
            event: EventKind::Notification,
            event_data: Some(EventData { method: Vec::new(), data: vec![pair("", "")] }),
        }
    );
}

#[test]
fn round_trip_duplicate_keys_kept_in_order() {
    let e = chat_request(vec![pair("text", "first"), pair("text", "second")]);
    let decoded = decode(&encode(&e)).expect("own encoding must decode");
    assert_eq!(decoded, chat_request(vec![pair("text", "first"), pair("text", "second")]));
}

#[test]
fn decode_rejects_truncated_input() {
    assert_eq!(decode(&vec![]), Err(DecodeError::Malformed));
    assert_eq!(decode(&vec![0u8]), Err(DecodeError::Malformed));
    // body flag set but no length prefix follows
    assert_eq!(decode(&vec![0u8, 1u8]), Err(DecodeError::Malformed));
    assert_eq!(decode(&vec![0u8, 1u8, 3u8, 0u8]), Err(DecodeError::Malformed));
}

#[test]
fn decode_rejects_unknown_tag_and_flag() {
    assert_eq!(decode(&vec![3u8, 0u8]), Err(DecodeError::Malformed));
    assert_eq!(decode(&vec![255u8, 0u8]), Err(DecodeError::Malformed));
    assert_eq!(decode(&vec![0u8, 2u8]), Err(DecodeError::Malformed));
}

#[test]
fn decode_rejects_trailing_bytes() {
    assert_eq!(decode(&vec![0u8, 0u8, 0u8]), Err(DecodeError::Malformed));
    let mut bytes = encode(&chat_request(vec![pair("text", "hi")]));
    bytes.push(0u8);
    assert_eq!(decode(&bytes), Err(DecodeError::Malformed));
}

#[test]
fn decode_rejects_wrong_entry_count() {
    let mut bytes: Vec<u8> = vec![0u8, 1u8];
    bytes.extend_from_slice(&0u64.to_le_bytes());
    // entry count says one, but no entry follows
    bytes.extend_from_slice(&1u64.to_le_bytes());
    assert_eq!(decode(&bytes), Err(DecodeError::Malformed));
}

#[test]
fn decode_rejects_overlong_string_length() {
    let mut bytes: Vec<u8> = vec![0u8, 1u8];
    // method length far beyond the frame
    bytes.extend_from_slice(&u64::MAX.to_le_bytes());
    assert_eq!(decode(&bytes), Err(DecodeError::Malformed));
}

#[test]
fn decode_handcrafted_bytes() {
    let mut bytes: Vec<u8> = vec![1u8, 1u8];
    bytes.extend_from_slice(&9u64.to_le_bytes());
    bytes.extend_from_slice(b"peer_left");
    bytes.extend_from_slice(&1u64.to_le_bytes());
    bytes.extend_from_slice(&6u64.to_le_bytes());
    bytes.extend_from_slice(b"peerId");
    bytes.extend_from_slice(&2u64.to_le_bytes());
    bytes.extend_from_slice(b"p1");
    let decoded = decode(&bytes).expect("well-formed bytes must decode");
    assert_eq!(
        decoded,
        Envelope {
            event: EventKind::Notification,
            event_data: Some(EventData {
                method: b"peer_left".to_vec(),
                data: vec![pair("peerId", "p1")],
            }),
        }
    );
}
