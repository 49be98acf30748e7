use zenith::config::TargetSection;
use zenith::config_manager::{ComponentDict, FieldDef, FieldValue, StructDef, StructDictionary};
use zenith::json::Json;
use zenith::protocol::aproto::AckResponse;
use zenith::reports::{
    added_target_id, audit_limit, auto_connect_ids, body_limit, component_detail, config_target_id,
    csv_document, csv_file_name, default_audit_limit, default_end, default_limit,
    default_port_9000, default_start, dictionary_for, executive_health, health_status,
    list_tunables, params_report, registry_name, scheduler_health, staged_digest, staged_verdict,
    uid_text, variable_struct_name, word_text, CsvRow, HistoryQuery, ParamsReading, StagedVerdict,
};
use zenith::text_map::TextMap;

fn ack(status: u8, name: &str, extra: Vec<u8>) -> AckResponse {
    AckResponse {
        cmd_opcode: 0,
        cmd_sequence: 0,
        status,
        status_name: name.to_string(),
        stage: 0,
        queued: false,
        extra,
    }
}

fn field(name: &str, offset: usize, size: usize) -> FieldDef {
    FieldDef {
        name: name.to_string(),
        field_type: "uint".to_string(),
        offset,
        size,
        value: Json::Null,
        element_type: None,
        dims: None,
        constraints: None,
        struct_ref: None,
    }
}

fn def(category: &str, size: usize, fields: Vec<FieldDef>) -> StructDef {
    StructDef {
        category: category.to_string(),
        size,
        opcode: None,
        fields,
        layout_hash: None,
        canonical_spec: None,
        packed: None,
    }
}

fn dictionary(component: &str, structs: Vec<(&str, StructDef)>) -> StructDictionary {
    let mut map = TextMap::new();
    for (name, s) in structs {
        map.insert(name.to_string(), s);
    }
    let mut components = TextMap::new();
    components.insert(
        component.to_string(),
        ComponentDict {
            component: component.to_string(),
            structs: map,
            enums: TextMap::new(),
            capabilities: Vec::new(),
        },
    );
    StructDictionary { components }
}

/// Parameters are read by the struct that fits them.
#[test]
fn parameters_are_reported() {
    let dicts = dictionary(
        "Wave",
        vec![("Tune", def("TUNABLE_PARAM", 4, vec![field("gain", 0, 4)]))],
    );
    let r = params_report(0xD000, &ack(0, "SUCCESS", vec![7, 0, 0, 0]), &dicts, None).unwrap();
    assert_eq!(r.full_uid, "0x00D000");
    assert_eq!(r.raw_hex, "07000000");
    assert_eq!(r.raw_length, 4);
    match r.reading {
        ParamsReading::Fixed { component, struct_name, fields } => {
            assert_eq!((component.as_str(), struct_name.as_str()), ("Wave", "Tune"));
            assert!(matches!(fields.get("gain"), Some(FieldValue::UInt(7))));
        }
        _ => panic!("one struct fits"),
    }
    let r = params_report(0xD000, &ack(0, "SUCCESS", vec![7]), &dicts, None).unwrap();
    assert!(matches!(r.reading, ParamsReading::Unknown));
    let e = params_report(0xD000, &ack(4, "COMPONENT_NOT_FOUND", vec![]), &dicts, None).unwrap_err();
    assert_eq!((e.status, e.text.as_str()), (502, "INSPECT failed: COMPONENT_NOT_FOUND"));
}

/// A header with entries is preferred.
#[test]
fn entries_are_reported() {
    let dicts = dictionary(
        "Sched",
        vec![
            ("Head", def("TUNABLE_PARAM", 1, vec![field("n", 0, 1)])),
            ("Task", def("TUNABLE_PARAM", 2, vec![field("id", 0, 2)])),
        ],
    );
    let r = params_report(1, &ack(0, "SUCCESS", vec![2, 1, 0, 2, 0]), &dicts, None).unwrap();
    match r.reading {
        ParamsReading::Variable(v) => {
            assert_eq!(
                variable_struct_name(&v.header_name, &v.entry_name),
                "Head + Task[]"
            );
            assert_eq!(v.entries.len(), 2);
        }
        _ => panic!("a header with two entries"),
    }
}

/// Addresses and words as shown.
#[test]
fn words_are_shown() {
    assert_eq!(uid_text(0xD0), "0x0000D0");
    assert_eq!(word_text(0xAB), "0x000000AB");
}

/// What becomes of a digest and of a verdict.
#[test]
fn staged_answers_are_read() {
    let page = vec![0u8, 0, 0, 0, 0, 0, 0, 0];
    assert_eq!(staged_digest(&ack(0, "SUCCESS", page)).unwrap().rows.len(), 0);
    assert_eq!(
        staged_digest(&ack(1, "UNKNOWN_OPCODE", vec![])).unwrap_err().text,
        "READBACK_TPRM refused: UNKNOWN_OPCODE"
    );
    assert!(staged_digest(&ack(0, "SUCCESS", vec![])).unwrap_err().text.starts_with("digest parse: "));
    assert!(matches!(
        staged_verdict(&ack(2, "INVALID_PAYLOAD", vec![])),
        Ok(StagedVerdict::Refused { status: 2, .. })
    ));
    match staged_verdict(&ack(0, "SUCCESS", vec![0; 12])).unwrap() {
        StagedVerdict::Verdict(v) => assert!(v.ok),
        _ => panic!("a verdict"),
    }
    assert!(staged_verdict(&ack(0, "SUCCESS", vec![0; 11])).is_err());
}

/// The scheduler's health block.
#[test]
fn scheduler_blocks_are_read() {
    let mut b = vec![0u8; 32];
    b[0] = 1;
    b[8] = 2;
    b[12] = 3;
    b[16] = 4;
    b[20] = 100;
    b[22] = 5;
    b[23] = 1;
    let h = scheduler_health(0, &b).unwrap();
    assert_eq!(
        (h.tick_count, h.task_count, h.period_violations, h.total_skip_count),
        (1, 2, 3, 4)
    );
    assert_eq!((h.fundamental_freq_hz, h.pool_count, h.sleeping), (100, 5, true));
    assert!(scheduler_health(1, &b).is_none());
    assert!(scheduler_health(0, &b[..31]).is_none());
}

/// The executive's health block, and its uptime.
#[test]
fn executive_blocks_are_read() {
    let mut b = vec![0u8; 48];
    b[0..8].copy_from_slice(&1050u64.to_le_bytes());
    b[16] = 3;
    b[24] = 4;
    b[32] = 100;
    let h = executive_health(0, &b).unwrap();
    assert_eq!((h.clock_cycles, h.clock_freq_hz, h.uptime_seconds), (1050, 100, 10));
    assert_eq!((h.frame_overruns, h.watchdog_warnings), (3, 4));
    b[32] = 0;
    assert_eq!(executive_health(0, &b).unwrap().uptime_seconds, 0);
    assert!(executive_health(0, &b[..47]).is_none());
}

/// Listings.
#[test]
fn listings() {
    assert_eq!(registry_name("Wave", Some(2)), "Wave #2");
    assert_eq!(registry_name("Wave", None), "Wave");
    let dicts = dictionary(
        "Wave",
        vec![
            ("Tune", def("TUNABLE_PARAM", 4, vec![field("gain", 0, 4)])),
            ("Empty", def("TUNABLE_PARAM", 4, vec![])),
            ("Out", def("OUTPUT", 4, vec![field("o", 0, 4)])),
        ],
    );
    let rows = list_tunables(&dicts);
    assert_eq!(rows.len(), 1);
    assert_eq!((rows[0].component.as_str(), rows[0].struct_name.as_str()), ("Wave", "Tune"));
    assert_eq!((rows[0].size, rows[0].field_count), (4, 1));
}

/// A target's own dictionaries come first.
#[test]
fn dictionaries_fall_back() {
    let own = dictionary("A", vec![]);
    let global = dictionary("B", vec![]);
    let none = StructDictionary::default();
    assert!(dictionary_for(&own, &global).get_component("A").is_some());
    assert!(dictionary_for(&none, &global).get_component("B").is_some());
    assert!(component_detail(&own, &global, "A", "t").is_ok());
    assert!(component_detail(&own, &global, "B", "t").is_ok());
    assert_eq!(
        component_detail(&own, &global, "C", "t").unwrap_err().text,
        "Component 'C' not found in struct dictionaries for target 't'"
    );
}

/// Limits and defaults.
#[test]
fn limits_and_defaults() {
    let q = |limit| HistoryQuery {
        channel: None,
        start_ms: default_start(),
        end_ms: default_end(),
        limit,
    };
    assert_eq!(q(5).clamped_limit(), 5);
    assert_eq!(q(1_000_000).clamped_limit(), 200_000);
    assert_eq!((q(1).start_ms, q(1).end_ms), (0, 9_999_999_999_999));
    assert_eq!(default_limit(), 10_000);
    assert_eq!(default_audit_limit(), 100);
    assert_eq!((audit_limit(5), audit_limit(5000)), (5, 1000));
    assert_eq!(body_limit(50), 78_643_200);
    assert_eq!(default_port_9000(), 9000);
    assert_eq!((health_status(true), health_status(false)), ("ok", "degraded"));
}

/// An export, byte for byte.
#[test]
fn exports_are_exact() {
    let row = |timestamp_ms, value: &str| CsvRow {
        timestamp_ms,
        channel: "W.x".to_string(),
        value: value.to_string(),
    };
    assert_eq!(
        csv_document(&vec![row(1, "0.5"), row(20, "-1")]),
        "timestamp_ms,channel,value\n1,W.x,0.5\n20,W.x,-1\n"
    );
    assert_eq!(csv_document(&Vec::new()), "timestamp_ms,channel,value\n");
    assert_eq!(csv_file_name("target-0"), "target-0_telemetry.csv");
}

fn target(auto_connect: bool) -> TargetSection {
    TargetSection {
        name: "n".to_string(),
        host: "h".to_string(),
        port: 9000,
        protocol: "aproto-slip".to_string(),
        health_nonzero_bad: Vec::new(),
        manifest: None,
        structs_dir: None,
        telemetry_config: None,
        commands_config: None,
        auto_connect,
    }
}

/// Target ids are positional, or new.
#[test]
fn target_ids() {
    assert_eq!(config_target_id(12), "target-12");
    assert_eq!(
        auto_connect_ids(&vec![target(true), target(false), target(true)]),
        vec!["target-0".to_string(), "target-2".to_string()]
    );
    let taken = vec!["target-aa".to_string()];
    assert_eq!(added_target_id("aa", &taken), None);
    assert_eq!(added_target_id("bb", &taken), Some("target-bb".to_string()));
}
