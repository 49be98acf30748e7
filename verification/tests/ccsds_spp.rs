use zenith::protocol::ccsds_spp::{pack, parse_header, Extractor, HEADER_SIZE, MAX_PACKET};


/// Header pack/parse round trips at field extremes: max
/// APID (11 bits), max sequence count (14 bits), and 1-byte and
/// max-size data fields.
#[test]
fn header_round_trip_at_extremes() {
    for (apid, seq, len) in [
        (0u16, 0u16, 1usize),
        (0x7FF, 0x3FFF, 8),
        (0x123, 0x2ABC, MAX_PACKET - HEADER_SIZE),
    ] {
        let payload = vec![0xA5u8; len];
        let pkt = pack(apid, seq, &payload);
        let hdr = parse_header(&pkt).unwrap();
        assert_eq!(hdr.apid, apid);
        assert_eq!(hdr.seq_count, seq);
        assert_eq!(hdr.data_len, len);
        assert_eq!(hdr.version, 0);
        assert!(!hdr.is_command);
        assert_eq!(hdr.seq_flags, 0b11);
    }
}

/// A nonzero version octet or an oversize declared length
/// refuses to parse -- the validity checks resync depends on.
#[test]
fn implausible_headers_refuse() {
    let mut pkt = pack(1, 0, &[0; 4]);
    pkt[0] |= 0x20; // version 1
    assert!(parse_header(&pkt).is_none());

    let mut pkt = pack(1, 0, &[0; 4]);
    pkt[4] = 0xFF;
    pkt[5] = 0xFF; // declares 65536-byte data field
    assert!(parse_header(&pkt).is_none());
}

/// Packets split across arbitrary feed boundaries reassemble
/// in order, one byte at a time included.
#[test]
fn extractor_reassembles_across_feeds() {
    let a = pack(0x100, 1, &[1, 2, 3, 4]);
    let b = pack(0x101, 2, &[5, 6]);
    let stream: Vec<u8> = a.iter().chain(b.iter()).copied().collect();

    let mut ex = Extractor::new();
    let mut got = Vec::new();
    for byte in stream {
        got.extend(ex.feed(&[byte]));
    }
    assert_eq!(got.len(), 2);
    assert_eq!(got[0].0.apid, 0x100);
    assert_eq!(got[0].1, vec![1, 2, 3, 4]);
    assert_eq!(got[1].0.apid, 0x101);
    assert_eq!(got[1].1, vec![5, 6]);
}

/// A garbage gap mid-stream is skipped and the following
/// packet still extracts -- the resync behavior the producer's
/// vector set will pin byte-for-byte.
#[test]
fn extractor_resyncs_past_garbage() {
    let good = pack(0x42, 7, &[9, 8, 7]);
    let mut stream = vec![0xFFu8; 11]; // implausible headers
    stream.extend_from_slice(&good);

    let mut ex = Extractor::new();
    let got = ex.feed(&stream);
    assert_eq!(got.len(), 1);
    assert_eq!(got[0].0.apid, 0x42);
    assert_eq!(got[0].1, vec![9, 8, 7]);
}

/// The six header bytes of a packed packet.
#[test]
fn packed_header_bytes_are_exact() {
    assert_eq!(pack(0x123, 0x2ABC, &[9, 9]), vec![0x01, 0x23, 0xEA, 0xBC, 0x00, 0x01, 9, 9]);
}

/// However a stream is cut, the same packets come out.
#[test]
fn cuts_do_not_matter() {
    let mut stream = vec![0xFFu8; 5];
    stream.extend_from_slice(&pack(0x10, 1, &[1, 2, 3]));
    stream.extend_from_slice(&[0xFF; 3]);
    stream.extend_from_slice(&pack(0x11, 2, &[4]));
    let mut whole = Extractor::new();
    let expected = whole.feed(&stream);
    assert_eq!(expected.len(), 2);
    for cut in 0..stream.len() {
        let mut ex = Extractor::new();
        let mut got = ex.feed(&stream[..cut]);
        got.extend(ex.feed(&stream[cut..]));
        assert_eq!(got.len(), expected.len());
        for (a, b) in got.iter().zip(expected.iter()) {
            assert_eq!(a.0.apid, b.0.apid);
            assert_eq!(a.1, b.1);
        }
    }
}
