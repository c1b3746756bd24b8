use rcon::packet::PacketType;
use rcon::stream::{ByteStream, MockStream};
use rcon::{next_packet_id, Connection, ConnectionConfig, Error};

/// A whole wire frame: length prefix, id, raw type code, payload, terminator.
fn frame(id: i32, code: i32, payload: &[u8]) -> Vec<u8> {
    let length = 10 + payload.len() as i32;
    let mut out = Vec::new();
    out.extend_from_slice(&length.to_le_bytes());
    out.extend_from_slice(&id.to_le_bytes());
    out.extend_from_slice(&code.to_le_bytes());
    out.extend_from_slice(payload);
    out.extend_from_slice(&[0x00, 0x00]);
    out
}

fn connection(input: Vec<u8>, config: ConnectionConfig) -> Connection<MockStream> {
    Connection::new(MockStream::new(input), config)
}

#[test]
fn default_configuration() {
    let config = ConnectionConfig::default();
    assert_eq!(config.default_packet_id, 0);
    assert_eq!(config.max_payload_size, 4086);
    assert!(!config.multiple_responses);
}

#[test]
fn id_wraparound_resets_to_default() {
    assert_eq!(next_packet_id(i32::MAX, 5), 5);
    assert_eq!(next_packet_id(i32::MAX, 0), 0);
    assert_eq!(next_packet_id(0, 5), 1);
    assert_eq!(next_packet_id(-3, 5), -2);
}

#[test]
fn packet_ids_count_up_from_zero() {
    let mut conn = connection(Vec::new(), ConnectionConfig::default());
    assert_eq!(conn.new_packet_id(), 0);
    assert_eq!(conn.new_packet_id(), 1);
    assert_eq!(conn.new_packet_id(), 2);
}

#[test]
fn send_writes_one_flushed_frame() {
    let mut conn = connection(Vec::new(), ConnectionConfig::default());
    conn.send(PacketType::Authentication, "pw".to_string()).unwrap();
    assert_eq!(conn.io.written(), &frame(0, 3, b"pw"));
}

#[test]
fn sent_frames_carry_consecutive_ids() {
    let input = [frame(0, 0, b"a"), frame(1, 0, b"b")].concat();
    let mut conn = connection(input, ConnectionConfig::default());
    conn.execute_command("first").unwrap();
    conn.execute_command("second").unwrap();
    let expected = [frame(0, 2, b"first"), frame(1, 2, b"second")].concat();
    assert_eq!(conn.io.written(), &expected);
}

#[test]
fn oversized_command_rejected_before_io() {
    let config = ConnectionConfig {
        default_packet_id: 0,
        max_payload_size: 5,
        multiple_responses: false,
    };
    let mut conn = connection(Vec::new(), config);
    let r = conn.execute_command("toolong");
    assert_eq!(r, Err(Error::PayloadSize));
    assert_eq!(conn.io.written().len(), 0);
    assert_eq!(conn.new_packet_id(), 0);
}

#[test]
fn command_at_cap_is_sent() {
    let config = ConnectionConfig {
        default_packet_id: 0,
        max_payload_size: 5,
        multiple_responses: false,
    };
    let mut conn = connection(frame(0, 0, b"done"), config);
    let r = conn.execute_command("12345").unwrap();
    assert_eq!(r, vec!["done".to_string()]);
}

#[test]
fn single_response_mode_reads_one_packet() {
    let input = [frame(0, 0, b"first"), frame(0, 0, b"second")].concat();
    let mut conn = connection(input, ConnectionConfig::default());
    let r = conn.execute_command("status").unwrap();
    assert_eq!(r, vec!["first".to_string()]);
    assert_eq!(conn.io.remaining(), frame(0, 0, b"second").len());
}

#[test]
fn multi_response_stops_at_empty_terminator() {
    let trailing = frame(0, 0, b"never read");
    let input = [
        frame(0, 0, b"part1"),
        frame(0, 0, b"part2"),
        frame(0, 0, b""),
        trailing.clone(),
    ]
    .concat();
    let config = ConnectionConfig {
        default_packet_id: 0,
        max_payload_size: 4086,
        multiple_responses: true,
    };
    let mut conn = connection(input, config);
    let r = conn.execute_command("big").unwrap();
    assert_eq!(
        r,
        vec!["part1".to_string(), "part2".to_string(), "".to_string()]
    );
    assert_eq!(conn.io.remaining(), trailing.len());
}

#[test]
fn authenticate_success_on_nonnegative_id() {
    let mut conn = connection(frame(7, 2, b""), ConnectionConfig::default());
    assert_eq!(conn.authenticate("password"), Ok(()));
    assert_eq!(conn.io.written(), &frame(0, 3, b"password"));
}

#[test]
fn authenticate_failure_on_negative_id() {
    let mut conn = connection(frame(-1, 2, b""), ConnectionConfig::default());
    assert_eq!(conn.authenticate("wrong"), Err(Error::Authentication));
}

#[test]
fn authenticate_skips_non_matching_packets() {
    let input = [frame(0, 0, b"echo"), frame(7, 2, b"")].concat();
    let mut conn = connection(input, ConnectionConfig::default());
    assert_eq!(conn.authenticate("password"), Ok(()));
}

#[test]
fn authenticate_surfaces_transport_error() {
    let mut conn = connection(Vec::new(), ConnectionConfig::default());
    assert_eq!(conn.authenticate("password"), Err(Error::Io));
}

#[test]
fn malformed_payload_surfaces_as_data_error() {
    let input = frame(0, 0, &[0xff, 0xfe]);
    let mut conn = connection(input, ConnectionConfig::default());
    assert_eq!(conn.execute_command("x"), Err(Error::MalformedPayload));
}

#[test]
fn undersized_length_field_is_malformed() {
    let mut bytes = frame(0, 0, b"");
    bytes[0] = 3;
    let mut conn = connection(bytes, ConnectionConfig::default());
    assert_eq!(conn.recieve_single_response(), Err(Error::MalformedPayload));
}

#[test]
fn short_read_is_a_transport_error() {
    let mut bytes = frame(0, 0, b"part1");
    bytes.truncate(bytes.len() - 3);
    let mut conn = connection(bytes, ConnectionConfig::default());
    assert_eq!(conn.recieve_single_response(), Err(Error::Io));
}

#[test]
fn recieve_respects_mode() {
    let input = [frame(0, 0, b"only"), frame(0, 0, b"")].concat();
    let mut conn = connection(input.clone(), ConnectionConfig::default());
    assert_eq!(conn.recieve(), Ok(vec!["only".to_string()]));

    let multi = ConnectionConfig {
        default_packet_id: 0,
        max_payload_size: 4086,
        multiple_responses: true,
    };
    let mut conn = connection(input, multi);
    assert_eq!(
        conn.recieve_multi_response(),
        Ok(vec!["only".to_string(), "".to_string()])
    );
}

#[test]
fn mock_stream_reads_and_records_writes() {
    let mut mock = MockStream::new(vec![1, 2, 3, 4, 5]);
    assert_eq!(mock.read_exact(2), Ok(vec![1, 2]));
    assert_eq!(mock.read_exact(4), Err(Error::Io));
    assert_eq!(mock.read_exact(3), Ok(vec![3, 4, 5]));
    assert_eq!(mock.write_all(&[9, 8]), Ok(()));
    assert_eq!(mock.flush(), Ok(()));
    assert_eq!(mock.written(), &vec![9, 8]);
    assert_eq!(mock.remaining(), 0);
}
