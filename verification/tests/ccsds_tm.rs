use zenith::protocol::ccsds_spp::pack;
use zenith::protocol::ccsds_tm::{
    crc16, pack_frame, Deframer, HEADER_SIZE as TM_HEADER_SIZE, MIN_FRAME, TRAILER_SIZE,
};


/// CRC16-CCITT against the published check value: "123456789"
/// -> 0x29B1 (poly 0x1021, init 0xFFFF, no reflect, no xorout).
#[test]
fn crc16_matches_published_check_value() {
    assert_eq!(crc16(b"123456789"), 0x29B1);
}

/// Frames split across arbitrary feed boundaries reassemble;
/// each verified data field comes back whole and idle fill stays
/// inside it (the downstream packet stage owns idle handling).
#[test]
fn deframer_reassembles_across_feeds() {
    let content = pack(0x0D0, 1, &[9, 8, 7]);
    let frame = pack_frame(64, 0x044, 0, &content);
    let mut d = Deframer::new(64);
    let mut fields = Vec::new();
    for byte in &frame {
        let (f, bad) = d.feed(&[*byte]);
        assert_eq!(bad, 0);
        fields.extend(f);
    }
    assert_eq!(fields.len(), 1);
    assert_eq!(fields[0].len(), 64 - TM_HEADER_SIZE - TRAILER_SIZE);
    assert_eq!(&fields[0][..content.len()], &content[..]);
}

/// A corrupted frame is dropped whole -- its packets never
/// reach the stream -- and the following frame still verifies:
/// fixed-size chunking never loses alignment to a bad frame.
#[test]
fn corrupt_frame_drops_whole_and_stream_realigns() {
    let a = pack_frame(
        64,
        0x044,
        0,
        &pack(0x0D0, 1, &[1]),
    );
    let mut b = pack_frame(
        64,
        0x044,
        1,
        &pack(0x0D0, 2, &[2]),
    );
    let c = pack_frame(
        64,
        0x044,
        2,
        &pack(0x0D0, 3, &[3]),
    );
    b[10] ^= 0xFF; // corrupt inside the data field

    let mut d = Deframer::new(64);
    let mut stream = a.clone();
    stream.extend_from_slice(&b);
    stream.extend_from_slice(&c);
    let (fields, bad) = d.feed(&stream);
    assert_eq!(bad, 1);
    assert_eq!(fields.len(), 2);
    assert_eq!(
        &fields[0][..a.len().min(7)],
        &a[TM_HEADER_SIZE..TM_HEADER_SIZE + 7]
    );
    assert_eq!(&fields[1][..7], &c[TM_HEADER_SIZE..TM_HEADER_SIZE + 7]);
}

/// A frame size below the least one is raised to it.
#[test]
fn tiny_frames_are_raised() {
    let content = pack(1, 1, &[5]);
    let frame = pack_frame(MIN_FRAME, 0x044, 0, &content);
    assert_eq!(frame.len(), MIN_FRAME);
    let mut d = Deframer::new(1);
    let (fields, bad) = d.feed(&frame);
    assert_eq!(bad, 0);
    assert_eq!(fields, vec![content]);
}

/// What is left of a data field is filled with an idle packet.
#[test]
fn fill_is_idle() {
    let content = pack(0x0D0, 1, &[9, 8, 7]);
    let frame = pack_frame(64, 0x044, 0, &content);
    let fill = &frame[TM_HEADER_SIZE + content.len()..64 - TRAILER_SIZE];
    assert_eq!(fill[0] & 0x07, 0x07);
    assert_eq!(fill[1], 0xFF);
}
