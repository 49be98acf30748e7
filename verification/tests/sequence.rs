use zenith::config_manager::{ComponentDict, FieldDef, StructDef, StructDictionary};
use zenith::json::Json;
use zenith::sequence::validate_rts_upload;
use zenith::text_map::TextMap;
use zenith::tprm::stamp_v3;

fn f(name: &str, off: usize, sz: usize) -> FieldDef {
    FieldDef {
        name: name.to_string(),
        field_type: "uint".to_string(),
        offset: off,
        size: sz,
        value: Json::Null,
        element_type: None,
        dims: None,
        constraints: None,
        struct_ref: None,
    }
}

fn sequence_dicts() -> StructDictionary {
    // Miniature sequence shape: 8-byte header + 2 x 12-byte steps.
    let seq = StructDef {
        category: "PROTOCOL".to_string(),
        size: 32,
        opcode: None,
        fields: vec![
            f("sequenceId", 0, 2),
            f("stepCount", 4, 1),
            f("type", 6, 1),
            f("steps", 8, 24),
        ],
        layout_hash: None,
        canonical_spec: None,
        packed: None,
    };
    let step = StructDef {
        category: "STRUCT".to_string(),
        size: 12,
        opcode: None,
        fields: vec![
            f("actionType", 0, 1),
            f("delayCycles", 4, 4),
            f("timeoutCycles", 8, 4),
        ],
        layout_hash: None,
        canonical_spec: None,
        packed: None,
    };
    let mut structs = TextMap::new();
    structs.insert("StandaloneSequenceTprm".to_string(), seq);
    structs.insert("StandaloneStepTprm".to_string(), step);
    let mut components = TextMap::new();
    components.insert(
        "Action".to_string(),
        ComponentDict {
            component: "Action".to_string(),
            structs,
            enums: TextMap::new(),
            capabilities: Vec::new(),
        },
    );
    StructDictionary { components }
}

fn sequence_bytes(seq_type: u8, steps: &[(u32, u32)]) -> Vec<u8> {
    let mut b = vec![0u8; 32];
    b[4] = steps.len() as u8;
    b[6] = seq_type;
    for (i, (delay, timeout)) in steps.iter().enumerate() {
        let base = 8 + i * 12;
        b[base + 4..base + 8].copy_from_slice(&delay.to_le_bytes());
        b[base + 8..base + 12].copy_from_slice(&timeout.to_le_bytes());
    }
    b
}

/// The vehicle's RTS load rule, mirrored at upload time: a step whose timeout
/// expires within its own delay refuses with the step index and both cycle counts
/// named; valid plans, zero-cycle steps, and ATS sequences pass untouched; targets
/// whose dictionaries lack the sequence structs skip the check.
#[test]
fn rts_upload_validation_mirrors_vehicle_rule() {
    let dicts = sequence_dicts();

    // Valid: timeout exceeds delay.
    assert!(validate_rts_upload(&dicts, &sequence_bytes(0, &[(10, 20), (5, 6)])).is_ok());
    // Zero timeout or zero delay: exempt (no timeout policy set).
    assert!(validate_rts_upload(&dicts, &sequence_bytes(0, &[(10, 0), (0, 5)])).is_ok());

    // Violation on step 1 names it with both values.
    let err = validate_rts_upload(&dicts, &sequence_bytes(0, &[(10, 20), (30, 30)])).unwrap_err();
    assert!(err.contains("step 1"), "{err}");
    assert!(err.contains("30"), "{err}");

    // ATS exempt by design.
    assert!(validate_rts_upload(&dicts, &sequence_bytes(1, &[(30, 30)])).is_ok());

    // A v3-stamped sequence validates its body.
    let stamped = stamp_v3(0x000500, 0, &sequence_bytes(0, &[(30, 30)])).unwrap();
    assert!(validate_rts_upload(&dicts, &stamped).is_err());

    // No sequence structs in the dictionaries: skip, vehicle decides.
    let empty = StructDictionary::default();
    assert!(validate_rts_upload(&empty, &sequence_bytes(0, &[(30, 30)])).is_ok());

    // Short payload: not a sequence; skip.
    assert!(validate_rts_upload(&dicts, &[0u8; 4]).is_ok());
}

/// Stamping a sequence changes nothing about the verdict on it.
#[test]
fn stamped_and_raw_sequences_agree() {
    let dicts = sequence_dicts();
    for steps in [[(10u32, 20u32)], [(20, 10)]] {
        let raw = sequence_bytes(0, &steps);
        let stamped = stamp_v3(0x000500, 0, &raw).unwrap();
        assert_eq!(validate_rts_upload(&dicts, &raw), validate_rts_upload(&dicts, &stamped));
    }
}
