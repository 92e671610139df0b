use fanout::bytes::{u32_from_be, u32_to_be};
use fanout::codec::{decode, encode, frame, DecodeError, Message};

#[test]
fn round_trip_copy_message() {
    let m = Message::copy(b"hello".to_vec(), String::from("/tmp/out"));
    let enc = encode(&m);
    let back = decode(&enc).unwrap();
    assert_eq!(back, m);
}

#[test]
fn round_trip_run_message() {
    let m = Message::run(String::from("ls -l /var"));
    let enc = encode(&m);
    let back = decode(&enc).unwrap();
    assert_eq!(back, m);
    assert!(back.payload.is_empty());
}

#[test]
fn round_trip_empty_payload_copy() {
    let m = Message::copy(Vec::new(), String::from("x"));
    let enc = encode(&m);
    assert_eq!(decode(&enc).unwrap(), m);
}

#[test]
fn round_trip_empty_command_line() {
    let m = Message::run(String::new());
    let enc = encode(&m);
    assert_eq!(enc, vec![1u8, 0, 0, 0, 0]);
    assert_eq!(decode(&enc).unwrap(), m);
}

#[test]
fn copy_encoding_layout_is_exact() {
    let m = Message::copy(vec![104, 105], String::from("/a"));
    let enc = encode(&m);
    assert_eq!(enc, vec![0u8, 0, 0, 0, 2, 47, 97, 0, 0, 0, 2, 104, 105]);
}

#[test]
fn run_encoding_layout_is_exact() {
    let m = Message::run(String::from("ls"));
    let enc = encode(&m);
    assert_eq!(enc, vec![1u8, 0, 0, 0, 2, 108, 115]);
}

#[test]
fn frame_prefix_is_big_endian_length_and_body_is_unchanged() {
    let body = b"abc";
    let f = frame(body);
    assert_eq!(f.len(), 7);
    assert_eq!(u32_from_be(&f[0..4]), 3);
    assert_eq!(&f[4..], b"abc");
}

#[test]
fn frame_of_empty_body() {
    let f = frame(&[]);
    assert_eq!(f, vec![0u8, 0, 0, 0]);
}

#[test]
fn be32_round_trips_through_bytes() {
    let bytes = u32_to_be(0xDEAD_BEEF);
    assert_eq!(bytes, vec![0xDEu8, 0xAD, 0xBE, 0xEF]);
    assert_eq!(u32_from_be(&bytes), 0xDEAD_BEEF);
}

#[test]
fn decode_rejects_empty_buffer() {
    assert_eq!(decode(&[]).unwrap_err(), DecodeError::CorruptMessage);
}

#[test]
fn decode_rejects_unknown_tag() {
    assert_eq!(decode(&[7, 0, 0, 0, 0]).unwrap_err(), DecodeError::CorruptMessage);
}

#[test]
fn decode_rejects_truncated_buffer() {
    assert_eq!(decode(&[0, 0, 0, 0, 5, 1, 2]).unwrap_err(), DecodeError::CorruptMessage);
}

#[test]
fn decode_rejects_trailing_bytes() {
    let m = Message::run(String::from("ls"));
    let mut enc = encode(&m);
    enc.push(0);
    assert_eq!(decode(&enc).unwrap_err(), DecodeError::CorruptMessage);
}

#[test]
fn decode_rejects_invalid_utf8_text() {
    assert_eq!(decode(&[1, 0, 0, 0, 1, 0xFF]).unwrap_err(), DecodeError::CorruptMessage);
}

#[test]
fn messages_with_different_payloads_are_unequal() {
    let a = Message::copy(vec![1], String::from("p"));
    let b = Message::copy(vec![2], String::from("p"));
    assert_ne!(a, b);
}
