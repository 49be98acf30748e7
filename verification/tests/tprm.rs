use zenith::tprm::{
    canonical_field_spec, crc32, layout_hash, parse_readback_page, parse_v3, parse_verify_verdict,
    payload_check_name, stamp_v3, LeafSpec, ReadbackPage, TprmError, HEADER_SIZE,
};

/// CRC-32 (IEEE 802.3) matches the standard check vector.
#[test]
fn crc32_known_vector() {
    assert_eq!(crc32(b"123456789"), 0xCBF4_3926);
    assert_eq!(crc32(b""), 0x0000_0000);
}

/// Each prelude defect is rejected distinctly: truncation, bad magic, wrong
/// version, lying size, corrupted body.
#[test]
fn parse_rejects_each_defect_distinctly() {
    let good = stamp_v3(0x00D000, 0xABCD_1234, &[1, 2, 3, 4]).unwrap();
    assert!(parse_v3(&good).is_ok());

    assert_eq!(parse_v3(&good[..10]), Err(TprmError::Truncated));

    let mut bad = good.clone();
    bad[0] = b'X';
    assert_eq!(parse_v3(&bad), Err(TprmError::BadMagic));

    let mut bad = good.clone();
    bad[4] = 9;
    assert_eq!(parse_v3(&bad), Err(TprmError::BadVersion(9)));

    let mut bad = good.clone();
    bad[6] = 99;
    assert!(matches!(
        parse_v3(&bad),
        Err(TprmError::SizeMismatch {
            header: 99,
            actual: 4
        })
    ));

    let mut bad = good.clone();
    *bad.last_mut().unwrap() ^= 0xFF;
    assert_eq!(parse_v3(&bad), Err(TprmError::BadCrc));
}

/// Stamping refuses a body larger than the size field can describe instead of
/// silently truncating the length.
#[test]
fn stamp_rejects_oversized_body() {
    let big = vec![0u8; 70_000];
    assert_eq!(stamp_v3(0, 0, &big), Err(TprmError::TooLarge));
}

/// A READBACK page parses per the vehicle's emit layout, including a corrupt file
/// surfacing as a row with a non-OK verdict; short buffers are truncated, never a
/// partial parse.
#[test]
fn readback_page_round_trip() {
    let mut page = Vec::new();
    page.extend_from_slice(&3u16.to_le_bytes()); // total
    page.extend_from_slice(&1u16.to_le_bytes()); // first
    page.push(2); // count
    page.extend_from_slice(&[0; 3]);
    for (uid, hash, crc, verdict) in [
        (0x00D000u32, 0xAABBCCDD_u32, 0x11223344_u32, 0u8),
        (0x00D001, 0, 0, 7),
    ] {
        page.extend_from_slice(&uid.to_le_bytes());
        page.extend_from_slice(&hash.to_le_bytes());
        page.extend_from_slice(&crc.to_le_bytes());
        page.push(verdict);
        page.extend_from_slice(&[0; 3]);
    }

    let parsed = parse_readback_page(&page).unwrap();
    assert_eq!(parsed.total, 3);
    assert_eq!(parsed.first, 1);
    assert_eq!(parsed.rows.len(), 2);
    assert_eq!(parsed.rows[0].full_uid, 0x00D000);
    assert_eq!(parsed.rows[0].layout_hash, 0xAABBCCDD);
    assert_eq!(parsed.rows[0].verdict_name, "OK");
    assert_eq!(parsed.rows[1].verdict, 7);
    assert_eq!(parsed.rows[1].verdict_name, "CRC_MISMATCH");

    assert_eq!(parse_readback_page(&page[..7]), err_truncated());
    assert_eq!(parse_readback_page(&page[..20]), err_truncated());
}

fn err_truncated() -> Result<ReadbackPage, TprmError> {
    Err(TprmError::Truncated)
}

/// A VERIFY verdict block parses its 12-byte layout; OK maps to ok=true and the
/// two declared hashes come through little-endian.
#[test]
fn verify_verdict_round_trip() {
    let mut block = vec![9u8, 0, 0, 0]; // CONSTRAINT_VIOLATION
    block.extend_from_slice(&0xFEF9BC60u32.to_le_bytes());
    block.extend_from_slice(&0x600DF00Du32.to_le_bytes());
    let v = parse_verify_verdict(&block).unwrap();
    assert!(!v.ok);
    assert_eq!(v.verdict_name, "CONSTRAINT_VIOLATION");
    assert_eq!(v.declared_layout_hash, 0xFEF9BC60);
    assert_eq!(v.declared_payload_crc, 0x600DF00D);

    block[0] = 0;
    assert!(parse_verify_verdict(&block).unwrap().ok);
    assert!(matches!(
        parse_verify_verdict(&block[..11]),
        Err(TprmError::Truncated)
    ));
}

/// The prelude of a stamped payload, byte by byte.
#[test]
fn stamped_prelude_is_exact() {
    let stamped = stamp_v3(0x00D001, 0xAABB_CCDD, b"123456789").unwrap();
    assert_eq!(
        &stamped[..HEADER_SIZE],
        &[
            b'A', b'P', b'V', b'3', 3, 0, 9, 0, 0x01, 0xD0, 0x00, 0x00, 0xDD, 0xCC, 0xBB, 0xAA,
            0x26, 0x39, 0xF4, 0xCB
        ]
    );
    let (prelude, body) = parse_v3(&stamped).unwrap();
    assert_eq!(prelude.full_uid, 0x00D001);
    assert_eq!(prelude.layout_hash, 0xAABB_CCDD);
    assert_eq!(prelude.payload_size, 9);
    assert_eq!(body, b"123456789");
    assert_eq!(stamp_v3(prelude.full_uid, prelude.layout_hash, body).unwrap(), stamped);
}

fn leaf<'a>(name: &'a str, field_type: &'a str, size: usize, offset: usize) -> LeafSpec<'a> {
    LeafSpec {
        name,
        field_type,
        size,
        offset,
        array: None,
    }
}

/// The hashed text of a layout, and that its offsets and its total size count.
#[test]
fn layout_text_states_offsets_and_total() {
    let fields = [
        leaf("a", "uint", 4, 0),
        LeafSpec {
            name: "b",
            field_type: "array",
            size: 8,
            offset: 4,
            array: Some(("float", 4, 2)),
        },
    ];
    let text = canonical_field_spec(&fields, 12);
    assert_eq!(layout_hash(&fields, 12), crc32(text.as_bytes()));
    assert_ne!(layout_hash(&fields, 12), layout_hash(&fields, 16));
    let moved = [leaf("a", "uint", 4, 4), leaf("b", "uint", 4, 8)];
    let packed = [leaf("a", "uint", 4, 0), leaf("b", "uint", 4, 4)];
    assert_ne!(layout_hash(&moved, 12), layout_hash(&packed, 12));
}

/// A header with entries hashes differently for each number of entries.
#[test]
fn entry_count_changes_the_hash() {
    let hdr = [("numPools", "uint", 1usize), ("numTasks", "uint", 1)];
    let entry = [("fullUid", "uint", 4usize), ("priority", "int", 1)];
    let hash_for = |count: usize| {
        let mut off = 0usize;
        let mut leaves: Vec<LeafSpec> = Vec::new();
        for &(name, field_type, size) in hdr.iter() {
            leaves.push(leaf(name, field_type, size, off));
            off += size;
        }
        for _ in 0..count {
            for &(name, field_type, size) in entry.iter() {
                leaves.push(leaf(name, field_type, size, off));
                off += size;
            }
        }
        layout_hash(&leaves, off)
    };
    assert_ne!(hash_for(2), hash_for(3));
}

/// Every check code has its name, and others have none.
#[test]
fn check_codes_have_names() {
    assert_eq!(payload_check_name(0), "OK");
    assert_eq!(payload_check_name(7), "CRC_MISMATCH");
    assert_eq!(payload_check_name(9), "CONSTRAINT_VIOLATION");
    assert_eq!(payload_check_name(200), payload_check_name(201));
}

/// Each defect says what it is.
#[test]
fn defects_are_named() {
    for e in [
        TprmError::Truncated,
        TprmError::BadMagic,
        TprmError::BadVersion(9),
        TprmError::BadCrc,
        TprmError::TooLarge,
    ] {
        assert!(!e.message().is_empty());
    }
    assert!(TprmError::BadVersion(9).message().contains('9'));
}
