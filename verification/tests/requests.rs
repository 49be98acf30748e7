use zenith::protocol::aproto::AckResponse;
use zenith::requests::{
    audit_error, audit_status, decoded_swap, decoded_upload, default_inactive_bank, parse_full_uid,
    prepare_command, prepare_swap, prepare_upload, raw_image, target_not_found, to_cmd_response,
};

fn ack(status: u8, extra: Vec<u8>) -> AckResponse {
    AckResponse {
        cmd_opcode: 0,
        cmd_sequence: 0,
        status,
        status_name: "SUCCESS".to_string(),
        stage: 0,
        queued: false,
        extra,
    }
}

/// Addresses are hexadecimal, with or without a prefix.
#[test]
fn addresses_are_parsed() {
    assert_eq!(parse_full_uid("0x00D000").unwrap(), 0x00D000);
    assert_eq!(parse_full_uid("00d000").unwrap(), 0x00D000);
    let e = parse_full_uid("xyz").unwrap_err();
    assert_eq!((e.status, e.text.as_str()), (400, "Invalid fullUid: xyz"));
    assert_eq!(target_not_found("t").text, "Target 't' not found");
    assert_eq!(target_not_found("t").status, 404);
}

/// A command's numbers are hexadecimal with a prefix and decimal without.
#[test]
fn command_numbers_are_parsed() {
    let c = prepare_command("0x00D000", "0x0100", "0102ff").unwrap();
    assert_eq!(c.full_uid, 0x00D000);
    assert_eq!(c.opcode, 0x0100);
    assert_eq!(c.payload, vec![1, 2, 255]);
    assert_eq!(c.detail, "uid=0x00D000 opcode=0x0100 payload_len=3");
    let c = prepare_command("53248", "256", "").unwrap();
    assert_eq!(c.full_uid, 53248);
    assert_eq!(c.opcode, 256);
    assert!(c.payload.is_empty());
    let c = prepare_command("D000", "0XFF", "").unwrap();
    assert_eq!(c.full_uid, 0xD000);
    assert_eq!(c.opcode, 0xFF);
}

/// Each part of a command that is wrong is named.
#[test]
fn bad_commands_are_refused() {
    let text = |uid, op, hex| prepare_command(uid, op, hex).unwrap_err().text;
    assert_eq!(text("?", "1", ""), "Invalid fullUid: ?");
    assert_eq!(text("0x100000000", "1", ""), "Invalid fullUid: 0x100000000");
    assert_eq!(text("1", "0x10000", ""), "Invalid opcode: 0x10000");
    assert_eq!(text("1", "1", "0"), "Invalid payload_hex");
    assert_eq!(text("1", "1", "zz"), "Invalid payload_hex");
}

/// A response's extra data is shown in hexadecimal, where there is some.
#[test]
fn responses_are_reported() {
    let r = to_cmd_response(ack(0, vec![0xAB, 1]));
    assert_eq!(r.extra_hex.as_deref(), Some("ab01"));
    assert_eq!(r.extra_length, Some(2));
    assert_eq!(r.status_name, "SUCCESS");
    let r = to_cmd_response(ack(5, Vec::new()));
    assert_eq!(r.status, 5);
    assert!(r.extra_hex.is_none() && r.extra_length.is_none());
}

/// How outcomes are audited.
#[test]
fn outcomes_are_audited() {
    assert_eq!(audit_status(0, "SUCCESS"), "ok");
    assert_eq!(audit_status(5, "LOAD_FAILED"), "nak: LOAD_FAILED");
    assert_eq!(audit_error("gone"), "err: gone");
}

/// Uploads stay below the target's directory.
#[test]
fn upload_paths_are_held_to_policy() {
    for bad in ["", "/etc/x", "..", "../x", "a/../b", "a/.."] {
        let e = prepare_upload(bad, "AQI=", 1).unwrap_err();
        assert_eq!(e.status, 400);
        assert_eq!(e.text, "remote_path must be relative with no parent traversal");
    }
    for good in ["a", "a/b", "..a", "a..", "a/..b/c", "./a"] {
        assert!(prepare_upload(good, "AQI=", 1).is_ok());
    }
}

/// An upload's content is decoded, and held to the cap before that.
#[test]
fn upload_contents_are_decoded() {
    let u = prepare_upload("dir/file", "AQID", 1).unwrap();
    assert_eq!(u.data, vec![1, 2, 3]);
    assert_eq!(u.detail, "path=dir/file bytes=3");
    let e = prepare_upload("a", "!", 1).unwrap_err();
    assert_eq!(e.status, 400);
    assert!(e.text.starts_with("Invalid base64: "));
    let e = prepare_upload("a", "AQID", 0).unwrap_err();
    assert_eq!((e.status, e.text.as_str()), (413, "upload exceeds 0 MB cap"));
    assert!(prepare_upload("a", "", 0).unwrap().data.is_empty());
    assert_eq!(decoded_upload("a", Err("why".to_string())).unwrap_err().text, "Invalid base64: why");
}

/// A library swap's checks, in order.
#[test]
fn swaps_are_checked() {
    let s = prepare_swap("0x00D000", "Wave", 2, "bank_b", "AQID", 1).unwrap();
    assert_eq!(s.full_uid, 0x00D000);
    assert_eq!(s.data, vec![1, 2, 3]);
    assert_eq!(s.detail, "uid=0x00D000 comp=Wave idx=2 bank=bank_b bytes=3");
    let text = |uid, comp, bank, content, mb| {
        prepare_swap(uid, comp, 0, bank, content, mb).unwrap_err().text
    };
    assert_eq!(text("zz", "W", "b", "AQID", 1), "Invalid fullUid: zz");
    assert!(text("1", "W", "b", "!", 1).starts_with("Invalid base64: "));
    assert_eq!(text("1", "W", "b", "", 1), "empty .so payload");
    assert_eq!(text("1", "W", "b", "AQID", 0), "library exceeds 0 MB cap");
    let plain = "component_name and inactive_bank must be plain names";
    assert_eq!(text("1", "a/b", "b", "AQID", 1), plain);
    assert_eq!(text("1", "W", "..", "AQID", 1), plain);
    assert_eq!(default_inactive_bank(), "bank_b");
    assert!(decoded_swap(1, "W", 0, "b", Ok(Vec::new()), 1).is_err());
}

/// The image that an update carries along.
#[test]
fn raw_images_are_decoded() {
    assert_eq!(raw_image(None).unwrap(), None);
    assert_eq!(raw_image(Some("0aFF")).unwrap(), Some(vec![0x0A, 0xFF]));
    assert_eq!(raw_image(Some("")).unwrap(), Some(Vec::new()));
    let e = raw_image(Some("0g")).unwrap_err();
    assert_eq!(e.status, 400);
    assert!(e.text.starts_with("Invalid raw_hex: Invalid character"));
}
