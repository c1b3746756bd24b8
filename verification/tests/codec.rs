use rcon::packet::{Packet, PacketType};
use rcon::Error;

/// A whole wire frame: length prefix, id, raw type code, payload, terminator.
fn frame(id: i32, code: i32, payload: &[u8]) -> Vec<u8> {
    let length = 10 + payload.len() as i32;
    let mut out = Vec::new();
    out.extend_from_slice(&length.to_le_bytes());
    out.extend_from_slice(&id.to_le_bytes());
    out.extend_from_slice(&code.to_le_bytes());
    out.extend_from_slice(payload);
    out.extend_from_slice(&[0x00, 0x00]);
    out
}

fn decode_frame(bytes: &[u8]) -> Result<Packet, Error> {
    let length = i32::from_le_bytes([bytes[0], bytes[1], bytes[2], bytes[3]]);
    Packet::decode_body(length, &bytes[4..])
}

#[test]
fn encode_exact_wire_bytes() {
    let p = Packet::new(1, PacketType::Authentication, "passwd".to_string());
    let expected = frame(1, 3, b"passwd");
    assert_eq!(p.encode(), expected);
}

#[test]
fn encode_negative_id_little_endian() {
    let p = Packet::new(-1, PacketType::Response, "".to_string());
    let bytes = p.encode();
    assert_eq!(&bytes[0..4], &10i32.to_le_bytes());
    assert_eq!(&bytes[4..8], &[0xff, 0xff, 0xff, 0xff]);
    assert_eq!(&bytes[8..12], &0i32.to_le_bytes());
    assert_eq!(&bytes[12..14], &[0x00, 0x00]);
    assert_eq!(bytes.len(), 14);
}

#[test]
fn round_trip_authentication() {
    let p = Packet::new(7, PacketType::Authentication, "secret".to_string());
    let q = decode_frame(&p.encode()).unwrap();
    assert_eq!(q, p);
}

#[test]
fn round_trip_response() {
    let p = Packet::new(42, PacketType::Response, "some output".to_string());
    let q = decode_frame(&p.encode()).unwrap();
    assert_eq!(q, p);
}

#[test]
fn round_trip_unknown_code() {
    let p = Packet::new(3, PacketType::Unknown(99), "x".to_string());
    let q = decode_frame(&p.encode()).unwrap();
    assert_eq!(q, p);
}

#[test]
fn round_trip_multibyte_text() {
    let p = Packet::new(5, PacketType::Response, "héllo wörld ✓".to_string());
    let q = decode_frame(&p.encode()).unwrap();
    assert_eq!(q, p);
}

#[test]
fn message_reads_back_as_authentication_response() {
    let p = Packet::new(9, PacketType::Message, "status".to_string());
    let q = decode_frame(&p.encode()).unwrap();
    assert_eq!(q.packet_type, PacketType::AuthenticationResponse);
    assert_eq!(q.id, 9);
    assert_eq!(q.length, p.length);
    assert_eq!(q.payload, "status");
}

#[test]
fn decoded_length_is_ten_plus_payload_bytes() {
    let q = decode_frame(&frame(2, 0, b"part1")).unwrap();
    assert_eq!(q.length, 15);
    let empty = decode_frame(&frame(2, 0, b"")).unwrap();
    assert_eq!(empty.length, 10);
    let wide = decode_frame(&frame(2, 0, "é".as_bytes())).unwrap();
    assert_eq!(wide.length, 12);
    assert_eq!(wide.payload, "é");
}

#[test]
fn new_computes_length_from_payload_bytes() {
    let p = Packet::new(0, PacketType::Message, "abcd".to_string());
    assert_eq!(p.length, 14);
    let wide = Packet::new(0, PacketType::Message, "éé".to_string());
    assert_eq!(wide.length, 14);
}

#[test]
fn malformed_utf8_payload_is_rejected() {
    let bytes = frame(1, 0, &[0xff, 0xfe, 0x61]);
    assert_eq!(decode_frame(&bytes), Err(Error::MalformedPayload));
}

#[test]
fn terminator_bytes_are_not_validated() {
    let mut bytes = frame(1, 0, b"ok");
    let n = bytes.len();
    bytes[n - 2] = 0xab;
    bytes[n - 1] = 0xcd;
    let q = decode_frame(&bytes).unwrap();
    assert_eq!(q.payload, "ok");
}

#[test]
fn parse_codes() {
    assert_eq!(PacketType::parse(3, false), PacketType::Authentication);
    assert_eq!(PacketType::parse(3, true), PacketType::Authentication);
    assert_eq!(PacketType::parse(2, true), PacketType::AuthenticationResponse);
    assert_eq!(PacketType::parse(2, false), PacketType::Message);
    assert_eq!(PacketType::parse(0, true), PacketType::Response);
    assert_eq!(PacketType::parse(42, true), PacketType::Unknown(42));
    assert_eq!(PacketType::parse(-7, false), PacketType::Unknown(-7));
}

#[test]
fn format_codes() {
    assert_eq!(PacketType::Authentication.format(), 3);
    assert_eq!(PacketType::AuthenticationResponse.format(), 2);
    assert_eq!(PacketType::Message.format(), 2);
    assert_eq!(PacketType::Response.format(), 0);
    assert_eq!(PacketType::Unknown(42).format(), 42);
}

#[test]
fn is_error_is_negative_id() {
    assert!(Packet::new(-1, PacketType::AuthenticationResponse, "".to_string()).is_error());
    assert!(!Packet::new(0, PacketType::AuthenticationResponse, "".to_string()).is_error());
    assert!(!Packet::new(7, PacketType::AuthenticationResponse, "".to_string()).is_error());
}
