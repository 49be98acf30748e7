use zenith::protocol::aproto::{
    build_command, parse_ack, parse_header, parse_packet, EXEC_GET_HEALTH, EXEC_INSPECT,
    HEADER_SIZE, MAGIC, STAGE_COMPLETION, STAGE_QUEUED, STAGE_RESULT, SYS_NOOP,
};


/// Building a command packet then parsing it back recovers
/// every header field exactly.
#[test]
fn build_and_parse_round_trip() {
    let packet = build_command(0x00D000, SYS_NOOP, 42, &[]);
    let parsed = parse_packet(&packet).unwrap();
    assert_eq!(parsed.header.magic, MAGIC);
    assert_eq!(parsed.header.full_uid, 0x00D000);
    assert_eq!(parsed.header.opcode, SYS_NOOP);
    assert_eq!(parsed.header.sequence, 42);
    assert!(parsed.payload.is_empty());
    assert!(parsed.header.ack_requested());
}

/// A command built with a non-empty payload reports the
/// correct payload_length and round-trips the bytes.
#[test]
fn build_with_payload() {
    let payload = vec![0x01, 0x02, 0x03];
    let packet = build_command(0x000000, EXEC_GET_HEALTH, 1, &payload);
    let parsed = parse_packet(&packet).unwrap();
    assert_eq!(parsed.header.payload_length, 3);
    assert_eq!(parsed.payload, payload);
}

/// ACK payload with extra data parses cmd_opcode, sequence,
/// status, status_name, and the trailing extra bytes.
#[test]
fn parse_ack_response() {
    // Simulated ACK: cmdOpcode=0x0000, cmdSeq=42, status=0, reserved=0, extra=[0xFF]
    let ack_data = vec![0x00, 0x00, 42, 0, 0, 0, 0, 0, 0xFF];
    let ack = parse_ack(&ack_data).unwrap();
    assert_eq!(ack.cmd_opcode, 0x0000);
    assert_eq!(ack.cmd_sequence, 42);
    assert_eq!(ack.status, 0);
    assert_eq!(ack.status_name, "SUCCESS");
    assert_eq!(ack.extra, vec![0xFF]);
}

/// parse_header returns None for buffers shorter than the
/// 14-byte header length.
#[test]
fn parse_header_rejects_short_buffer() {
    assert!(parse_header(&[]).is_none());
    assert!(parse_header(&[0x41, 0x50, 0x01, 0x00]).is_none()); // 4 bytes < 14
}

/// parse_header returns None when the magic bytes don't match
/// the APROTO marker.
#[test]
fn parse_header_rejects_bad_magic() {
    let mut packet = build_command(0x00D000, SYS_NOOP, 42, &[]);
    packet[0] = 0x00; // corrupt magic
    assert!(parse_header(&packet).is_none());
}

/// parse_packet returns None when the buffer is shorter than
/// header.payload_length declares.
#[test]
fn parse_packet_rejects_truncated_payload() {
    // Build a packet with payload_length=4 but only 2 bytes of payload
    let mut packet = build_command(0x000000, EXEC_GET_HEALTH, 1, &[0x01, 0x02, 0x03, 0x04]);
    packet.truncate(HEADER_SIZE + 2); // chop payload in half
    assert!(parse_packet(&packet).is_none());
}

/// parse_ack returns None for payloads shorter than the
/// minimum 8-byte ACK header.
#[test]
fn parse_ack_rejects_short_payload() {
    assert!(parse_ack(&[]).is_none());
    assert!(parse_ack(&[0x00, 0x01, 0x02]).is_none());
}

/// Every documented status code maps to its named string,
/// and unknown codes return "UNKNOWN".
#[test]
fn parse_ack_status_names_cover_known_codes() {
    for (status, expected) in [
        (0u8, "SUCCESS"),
        (1, "UNKNOWN_OPCODE"),
        (2, "INVALID_PAYLOAD"),
        (3, "NO_RESOLVER"),
        (4, "COMPONENT_NOT_FOUND"),
        (5, "LOAD_FAILED"),
        (99, "UNKNOWN"),
    ] {
        let payload = vec![0x00, 0x01, 0x02, 0x03, status, 0, 0, 0];
        let ack = parse_ack(&payload).unwrap();
        assert_eq!(ack.status_name, expected, "status code {}", status);
    }
}

/// The payload_length field in a built command equals the
/// actual payload byte count, and the total packet size is
/// header + payload.
#[test]
fn build_command_payload_length_field_matches() {
    let payload = vec![0u8; 100];
    let packet = build_command(0x00D000, EXEC_INSPECT, 0, &payload);
    let header = parse_header(&packet).unwrap();
    assert_eq!(header.payload_length as usize, payload.len());
    assert_eq!(packet.len(), HEADER_SIZE + payload.len());
}

/// The bytes of a built command, field by field.
#[test]
fn command_bytes_are_exact() {
    assert_eq!(
        build_command(0x00D0_0102, 0x0130, 0xBEEF, &[0xAA]),
        vec![
            0x41, 0x50, 1, 4, 0x02, 0x01, 0xD0, 0x00, 0x30, 0x01, 0xEF, 0xBE, 0x01, 0x00, 0xAA
        ]
    );
}

/// An ACK names the stage that it reports on, and carries its extra data.
#[test]
fn ack_stages_are_read() {
    for stage in [STAGE_RESULT, STAGE_QUEUED, STAGE_COMPLETION] {
        let ack = parse_ack(&[0x30, 0x01, 7, 0, 0, stage, 0, 0, 1, 2]).unwrap();
        assert_eq!(ack.cmd_opcode, 0x0130);
        assert_eq!(ack.stage, stage);
        assert!(!ack.queued);
        assert_eq!(ack.extra, vec![1, 2]);
    }
}

/// A parsed header keeps what the packet said of itself.
#[test]
fn response_flag_is_read() {
    let mut packet = build_command(1, SYS_NOOP, 1, &[]);
    assert!(!parse_header(&packet).unwrap().is_response());
    packet[3] = 2;
    let header = parse_header(&packet).unwrap();
    assert!(header.is_response());
    assert!(!header.ack_requested());
}
