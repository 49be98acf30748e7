use zenith::config::{
    default_health_nonzero_bad_public, AuthSection, ServerConfig, ServerSection, StorageSection,
    TiersSection,
};
use zenith::config_manager::{ComponentDict, FieldDef, StructDef, StructDictionary};
use zenith::json::{Json, Number, NumberKind};
use zenith::param_update::{
    constraint_checks, constraint_violations, plan_update, prepare_update, update_detail,
    ParamEdits, UpdateError, UpdatePlan,
};
use zenith::params::{dict_leaf_specs, encode_field, flat_hash, variable_hash};
use zenith::protocol::aproto::{AckResponse, FILE_BEGIN, FILE_CHUNK, FILE_END};
use zenith::staged_update::{reload_verdict, StagedReport, StagedStep, StagedUpdate};
use zenith::text_map::TextMap;
use zenith::tprm::{parse_v3, stamp_v3};

fn whole(v: i64) -> Json {
    let kind = if v < 0 {
        NumberKind::Neg(v)
    } else {
        NumberKind::Pos(v as u64)
    };
    Json::Num(Number {
        kind,
        f64_bits: (v as f64).to_bits(),
        f32_bits: (v as f32).to_bits(),
    })
}

fn float(v: f64) -> Json {
    Json::Num(Number {
        kind: NumberKind::Float,
        f64_bits: v.to_bits(),
        f32_bits: (v as f32).to_bits(),
    })
}

fn field(name: &str, ty: &str, offset: usize, size: usize) -> FieldDef {
    FieldDef {
        name: name.to_string(),
        field_type: ty.to_string(),
        offset,
        size,
        value: Json::Null,
        element_type: None,
        dims: None,
        constraints: None,
        struct_ref: None,
    }
}

fn def(size: usize, fields: Vec<FieldDef>) -> StructDef {
    StructDef {
        category: "TUNABLE_PARAM".to_string(),
        size,
        opcode: None,
        fields,
        layout_hash: None,
        canonical_spec: None,
        packed: None,
    }
}

fn dictionary(structs: Vec<(&str, StructDef)>) -> StructDictionary {
    let mut map = TextMap::new();
    for (name, s) in structs {
        map.insert(name.to_string(), s);
    }
    let mut components = TextMap::new();
    components.insert(
        "Wave".to_string(),
        ComponentDict {
            component: "Wave".to_string(),
            structs: map,
            enums: TextMap::new(),
            capabilities: Vec::new(),
        },
    );
    StructDictionary { components }
}

fn edits(fields: Vec<(&str, Json)>) -> ParamEdits {
    let mut map = TextMap::new();
    for (name, v) in fields {
        map.insert(name.to_string(), v);
    }
    ParamEdits {
        fields: map,
        entries: None,
        variable_length: false,
    }
}

/// Values are written little-endian at their field's place, and nowhere else.
#[test]
fn values_are_encoded_in_place() {
    let mut buf = vec![0xEEu8; 8];
    assert!(encode_field(&mut buf, &field("a", "uint", 2, 2), &whole(0x0102)));
    assert_eq!(buf, vec![0xEE, 0xEE, 0x02, 0x01, 0xEE, 0xEE, 0xEE, 0xEE]);
    assert!(encode_field(&mut buf, &field("a", "int", 0, 1), &whole(-2)));
    assert_eq!(buf[0], 0xFE);
    assert!(encode_field(&mut buf, &field("a", "float", 4, 4), &float(0.5)));
    assert_eq!(&buf[4..], &0.5f32.to_le_bytes());
    let before = buf.clone();
    assert!(!encode_field(&mut buf, &field("a", "uint", 7, 2), &whole(1)));
    assert!(!encode_field(&mut buf, &field("a", "uint", 0, 2), &Json::Str("x".to_string())));
    assert_eq!(buf, before);
}

/// Of an array with an element that cannot be encoded the elements before it are
/// written, and nothing else is.
#[test]
fn broken_arrays_are_written_up_to_the_fault() {
    let mut array = field("a", "array", 1, 6);
    array.dims = Some(vec![3]);
    let items = |third: Json| Json::Array(vec![whole(1), whole(2), third]);
    let mut buf = vec![0xEEu8; 8];
    assert!(!encode_field(&mut buf, &array, &items(Json::Null)));
    assert_eq!(buf, vec![0xEE, 1, 0, 2, 0, 0xEE, 0xEE, 0xEE]);
    assert!(encode_field(&mut buf, &array, &items(whole(3))));
    assert_eq!(buf, vec![0xEE, 1, 0, 2, 0, 3, 0, 0xEE]);
    let before = buf.clone();
    assert!(!encode_field(&mut buf, &array, &Json::Array(vec![whole(9)])));
    assert_eq!(buf, before);
}

/// An update edits the original image, and stamps what it uploads.
#[test]
fn flat_updates_are_prepared() {
    let dicts = dictionary(vec![(
        "Tune",
        def(8, vec![field("gain", "uint", 0, 4), field("bias", "uint", 4, 4)]),
    )]);
    let e = edits(vec![("gain", whole(9))]);
    let plan = plan_update(&dicts, None, 0xD000, 8, &e).unwrap();
    let checks = constraint_checks(&plan, &e);
    assert!(checks.is_empty());
    let original = [1u8, 0, 0, 0, 2, 0, 0, 0];
    let update = prepare_update(&plan, 0xD000, &original, &e, &Vec::new()).unwrap();
    assert_eq!(update.binary, vec![9, 0, 0, 0, 2, 0, 0, 0]);
    let (prelude, body) = parse_v3(&update.stamped).unwrap();
    assert_eq!(body, update.binary.as_slice());
    assert_eq!(prelude.full_uid, 0xD000);
    assert_eq!(prelude.layout_hash, update.layout_hash);
    match plan {
        UpdatePlan::Flat(s) => assert_eq!(flat_hash(s), update.layout_hash),
        _ => panic!("one struct fits"),
    }
    assert!(update_detail(0xD000, &update, 1, true).ends_with(" flow=staged-verify"));
    assert!(update_detail(0xD000, &update, 1, false).starts_with("uid=0x00D000"));
}

/// A header with entries is written whole, and its count is part of its layout.
#[test]
fn entry_updates_are_prepared() {
    let hdr = || def(1, vec![field("n", "uint", 0, 1)]);
    let ent = || def(2, vec![field("id", "uint", 0, 2)]);
    let dicts = dictionary(vec![("Head", hdr()), ("Task", ent())]);
    let entry = |id: i64| {
        let mut m = TextMap::new();
        m.insert("id".to_string(), whole(id));
        m
    };
    let mut e = edits(vec![("n", whole(2))]);
    e.variable_length = true;
    assert!(matches!(
        plan_update(&dicts, None, 1, 5, &e),
        Err(UpdateError::MissingEntries)
    ));
    e.entries = Some(vec![entry(5), entry(6)]);
    let plan = plan_update(&dicts, None, 1, 5, &e).unwrap();
    let update = prepare_update(&plan, 1, &[], &e, &Vec::new()).unwrap();
    assert_eq!(update.binary, vec![2, 5, 0, 6, 0]);
    assert_eq!(update.layout_hash, variable_hash(&hdr(), &ent(), 2));
    assert_ne!(update.layout_hash, variable_hash(&hdr(), &ent(), 3));
}

/// What cannot be found, or written, is refused.
#[test]
fn bad_updates_are_refused() {
    let dicts = dictionary(vec![("Tune", def(4, vec![field("gain", "uint", 0, 4)]))]);
    let e = edits(vec![("gain", Json::Str("x".to_string()))]);
    assert!(matches!(
        plan_update(&dicts, None, 1, 5, &e),
        Err(UpdateError::NoStruct(5))
    ));
    let plan = plan_update(&dicts, None, 1, 4, &e).unwrap();
    match prepare_update(&plan, 1, &[0; 4], &e, &Vec::new()) {
        Err(UpdateError::Unencodable(list)) => assert_eq!(list, vec!["gain".to_string()]),
        _ => panic!("text is no unsigned integer"),
    }
    let mut e = edits(Vec::new());
    e.variable_length = true;
    assert!(matches!(
        plan_update(&StructDictionary::default(), None, 1, 4, &e),
        Err(UpdateError::NoPair)
    ));
    assert_eq!(
        UpdateError::NoStruct(5).message(),
        "No matching TUNABLE_PARAM struct found for 5 bytes"
    );
    assert_eq!(UpdateError::NoPair.message(), "Cannot find header+entry struct pair");
    assert_eq!(UpdateError::MissingEntries.message(), "Missing entries");
}

/// Values outside their rails are refused, each with its field.
#[test]
fn rails_are_enforced() {
    let mut gain = field("gain", "uint", 0, 4);
    gain.constraints = Some(Json::Object(Vec::new()));
    let dicts = dictionary(vec![("Tune", def(4, vec![gain]))]);
    let e = edits(vec![("gain", whole(9))]);
    let plan = plan_update(&dicts, None, 1, 4, &e).unwrap();
    let checks = constraint_checks(&plan, &e);
    assert_eq!(checks.len(), 1);
    assert_eq!(checks[0].field.name, "gain");
    let verdicts = vec![Some("9 above maximum 5".to_string())];
    assert_eq!(
        constraint_violations(&checks, &verdicts),
        vec!["gain: 9 above maximum 5".to_string()]
    );
    match prepare_update(&plan, 1, &[0; 4], &e, &verdicts) {
        Err(UpdateError::Constraints(list)) => assert_eq!(list.len(), 1),
        _ => panic!("the rails were broken"),
    }
    assert!(prepare_update(&plan, 1, &[0; 4], &e, &vec![None]).is_ok());
}

fn ack(status: u8, extra: Vec<u8>) -> AckResponse {
    AckResponse {
        cmd_opcode: 0,
        cmd_sequence: 0,
        status,
        status_name: "SUCCESS".to_string(),
        stage: 0,
        queued: false,
        extra,
    }
}

fn page(uid: u32, hash: u32, crc: u32, verdict: u8) -> Vec<u8> {
    let mut p = vec![1u8, 0, 0, 0, 1, 0, 0, 0];
    p.extend_from_slice(&uid.to_le_bytes());
    p.extend_from_slice(&hash.to_le_bytes());
    p.extend_from_slice(&crc.to_le_bytes());
    p.extend_from_slice(&[verdict, 0, 0, 0]);
    p
}

fn staged() -> (StagedUpdate, u32, u32) {
    let stamped = stamp_v3(0xD000, 0x1234, &[1, 2, 3]).unwrap();
    let (prelude, _) = parse_v3(&stamped).unwrap();
    let (hash, crc) = (prelude.layout_hash, prelude.payload_crc);
    (StagedUpdate::new(0xD000, stamped), hash, crc)
}

/// Stages, reads back, verifies, and only then applies.
#[test]
fn staged_updates_apply_last() {
    let (mut s, hash, crc) = staged();
    let mut opcodes = Vec::new();
    for reply in [
        ack(0, vec![]),
        ack(0, vec![]),
        ack(0, vec![]),
        ack(0, page(0xD000, hash, crc, 0)),
        ack(0, vec![0; 12]),
    ] {
        opcodes.push(s.command().opcode);
        assert!(matches!(s.on_reply(reply), StagedStep::Continue));
    }
    opcodes.push(s.command().opcode);
    assert_eq!(
        opcodes,
        vec![FILE_BEGIN, FILE_CHUNK, FILE_END, 0x0131, 0x0132, 0x0125]
    );
    match s.on_reply(ack(0, vec![])) {
        StagedStep::Finished(r, StagedReport::Applied) => assert_eq!(r.status, 0),
        _ => panic!("applied"),
    }
}

/// A staged bank that differs from the intent is not applied.
#[test]
fn mismatches_are_not_applied() {
    let (mut s, hash, crc) = staged();
    for _ in 0..3 {
        s.on_reply(ack(0, vec![]));
    }
    match s.on_reply(ack(0, page(0xD000, hash, crc ^ 1, 0))) {
        StagedStep::Finished(r, StagedReport::ReadbackMismatch { row, .. }) => {
            assert_eq!(r.status_name, "READBACK_MISMATCH");
            assert_eq!(row.unwrap().payload_crc, crc ^ 1);
        }
        _ => panic!("the checksum differs"),
    }
    let (mut s, hash, crc) = staged();
    for _ in 0..3 {
        s.on_reply(ack(0, vec![]));
    }
    s.on_reply(ack(0, page(0xD000, hash, crc, 0)));
    let mut verdict = vec![0u8; 12];
    verdict[0] = 9;
    match s.on_reply(ack(0, verdict)) {
        StagedStep::Finished(r, StagedReport::VerifyRefused { verdict }) => {
            assert_eq!(r.status_name, "CONSTRAINT_VIOLATION");
            assert!(!verdict.unwrap().ok);
        }
        _ => panic!("the vehicle refused"),
    }
    let (mut s, _, _) = staged();
    match s.on_reply(ack(3, vec![])) {
        StagedStep::Finished(r, StagedReport::UploadRefused) => assert_eq!(r.status, 3),
        _ => panic!("the upload was refused"),
    }
}

/// A failed reload names the vehicle's verdict.
#[test]
fn failed_reloads_name_their_verdict() {
    assert_eq!(reload_verdict(&ack(5, vec![7])), Some("CRC_MISMATCH"));
    assert_eq!(reload_verdict(&ack(5, vec![])), None);
    assert_eq!(reload_verdict(&ack(0, vec![7])), None);
}

/// The configuration's defaults.
#[test]
fn configuration_defaults() {
    let server = ServerSection::default();
    assert_eq!((server.host.as_str(), server.port), ("0.0.0.0", 8080));
    assert_eq!(server.upload_max_mb, 50);
    assert!(!AuthSection::default().enabled);
    let tiers = TiersSection::default();
    assert!(!tiers.enabled);
    assert_eq!((tiers.full_resolution_minutes, tiers.mid_horizon_hours), (60, 24));
    assert_eq!((tiers.mid_bucket_seconds, tiers.coarse_bucket_seconds), (1, 60));
    assert!(StorageSection::default().retention_hours > 0);
    assert!(ServerConfig::default().targets.is_empty());
    assert!(!default_health_nonzero_bad_public().is_empty());
}

/// Each field has its leaf, in order: an array with its elements, any other without.
#[test]
fn leaves_follow_their_fields() {
    let mut samples = field("samples", "array", 4, 12);
    samples.dims = Some(vec![2, 3]);
    let mut names = field("names", "array", 16, 8);
    names.element_type = Some("string".to_string());
    let fields = vec![field("gain", "float", 0, 4), samples, names];
    let leaves = dict_leaf_specs(&fields, 100);
    assert_eq!(leaves.len(), 3);
    assert_eq!(leaves[0].name, "gain");
    assert_eq!(leaves[0].field_type, "float");
    assert_eq!((leaves[0].size, leaves[0].offset), (4, 100));
    assert_eq!(leaves[0].array, None);
    assert_eq!(leaves[1].name, "samples");
    assert_eq!(leaves[1].field_type, "array");
    assert_eq!((leaves[1].size, leaves[1].offset), (12, 104));
    assert_eq!(leaves[1].array, Some(("uint", 2, 6)));
    assert_eq!(leaves[2].array, Some(("string", 8, 1)));
}
