use std::sync::Arc;

use zenith::config_manager::{ComponentDict, FieldDef, FieldKind, StructDef, StructDictionary};
use zenith::json::Json;
use zenith::telemetry::{
    category_priority, decode_numeric, FieldShape, Reading, TelemetryDecoder, TelemetryRouter,
    TelemetrySample, MIN_INTERVAL_MS,
};
use zenith::text_map::TextMap;
use zenith::transport::PushTelemetryPacket;

fn f(name: &str, ty: &str, off: usize, sz: usize) -> FieldDef {
    FieldDef {
        name: name.to_string(),
        field_type: ty.to_string(),
        offset: off,
        size: sz,
        value: Json::Null,
        element_type: None,
        dims: None,
        constraints: None,
        struct_ref: None,
    }
}

fn def(category: &str, size: usize, fields: Vec<FieldDef>) -> StructDef {
    StructDef {
        category: category.to_string(),
        size,
        opcode: None,
        fields,
        layout_hash: None,
        canonical_spec: None,
        packed: None,
    }
}

fn dict_of(component: &str, structs: Vec<(&str, StructDef)>) -> StructDictionary {
    let mut map = TextMap::new();
    for (name, s) in structs {
        map.insert(name.to_string(), s);
    }
    let mut components = TextMap::new();
    components.insert(
        component.to_string(),
        ComponentDict {
            component: component.to_string(),
            structs: map,
            enums: TextMap::new(),
            capabilities: Vec::new(),
        },
    );
    StructDictionary { components }
}

/// OUTPUT of 8 bytes and STATE of 16, which repeats OUTPUT's fields.
fn make_wavegen_dict() -> StructDictionary {
    dict_of(
        "WaveGenerator",
        vec![
            (
                "Output",
                def(
                    "OUTPUT",
                    8,
                    vec![f("output", "float", 0, 4), f("phase", "float", 4, 4)],
                ),
            ),
            (
                "State",
                def(
                    "STATE",
                    16,
                    vec![
                        f("output", "float", 0, 4),
                        f("phase", "float", 4, 4),
                        f("cycleCount", "uint", 8, 4),
                        f("errorCount", "uint", 12, 4),
                    ],
                ),
            ),
        ],
    )
}

fn target_id() -> Arc<String> {
    Arc::new("test-target".to_string())
}

fn value(s: &TelemetrySample) -> f64 {
    match s.value {
        Reading::UInt(v) => v as f64,
        Reading::Int(v) => v as f64,
        Reading::F32(bits) => f32::from_bits(bits) as f64,
        Reading::F64(bits) => f64::from_bits(bits),
        Reading::Bool(b) => {
            if b {
                1.0
            } else {
                0.0
            }
        }
    }
}

/// 8-byte WaveGen OUTPUT struct decodes into the two expected float samples
/// (output, phase) with correct values.
#[test]
fn decode_8b_output_emits_two_samples() {
    let dict = make_wavegen_dict();
    let decoder = TelemetryDecoder::new(&dict, &[(0x00D000, "WaveGen#0")]);
    let pkt = PushTelemetryPacket {
        full_uid: 0x00D000,
        // 0.5_f32, 1.0_f32 little-endian
        payload: vec![0x00, 0x00, 0x00, 0x3F, 0x00, 0x00, 0x80, 0x3F],
    };
    let samples = decoder.decode(&target_id(), 1000, &pkt);
    assert_eq!(samples.len(), 2);
    assert_eq!(&*samples[0].channel, "WaveGen#0.output");
    assert!((value(&samples[0]) - 0.5).abs() < 1e-6);
    assert_eq!(&*samples[1].channel, "WaveGen#0.phase");
    assert!((value(&samples[1]) - 1.0).abs() < 1e-6);
}

/// STATE struct fields that share names with the higher-priority OUTPUT struct are
/// skipped to prevent duplicate channels.
#[test]
fn decode_16b_state_skips_priority_duplicated_fields() {
    // STATE struct includes output+phase, but OUTPUT already claimed them.
    // The 16B STATE decode should only emit cycleCount and errorCount.
    let dict = make_wavegen_dict();
    let decoder = TelemetryDecoder::new(&dict, &[(0x00D000, "WaveGen#0")]);
    let mut payload = vec![0u8; 16];
    // cycleCount = 42, errorCount = 7
    payload[8..12].copy_from_slice(&42u32.to_le_bytes());
    payload[12..16].copy_from_slice(&7u32.to_le_bytes());
    let pkt = PushTelemetryPacket {
        full_uid: 0x00D000,
        payload,
    };
    let samples = decoder.decode(&target_id(), 2000, &pkt);
    let names: Vec<&str> = samples.iter().map(|s| s.channel.as_str()).collect();
    assert!(
        !names.contains(&"WaveGen#0.output"),
        "output should be claimed by OUTPUT struct"
    );
    assert!(
        !names.contains(&"WaveGen#0.phase"),
        "phase should be claimed by OUTPUT struct"
    );
    assert!(names.contains(&"WaveGen#0.cycleCount"));
    assert!(names.contains(&"WaveGen#0.errorCount"));
    let cc = samples
        .iter()
        .find(|s| s.channel.as_str() == "WaveGen#0.cycleCount")
        .unwrap();
    assert_eq!(value(cc), 42.0);
    let ec = samples
        .iter()
        .find(|s| s.channel.as_str() == "WaveGen#0.errorCount")
        .unwrap();
    assert_eq!(value(ec), 7.0);
}

/// Payloads with no matching struct dict entry fall back to generic f32 extraction
/// with synthetic field names.
#[test]
fn decode_unknown_payload_falls_back_to_generic() {
    // Empty struct dict -> decoder has no lookup entries -> generic fallback
    let dict = StructDictionary::default();
    let decoder = TelemetryDecoder::new(&dict, &[(0x00DEAD, "Unknown")]);
    // Payload: 1.0_f32, 2.0_f32, 3.0_f32
    let mut payload = vec![0u8; 12];
    payload[0..4].copy_from_slice(&1.0f32.to_le_bytes());
    payload[4..8].copy_from_slice(&2.0f32.to_le_bytes());
    payload[8..12].copy_from_slice(&3.0f32.to_le_bytes());
    let pkt = PushTelemetryPacket {
        full_uid: 0x00DEAD,
        payload,
    };
    let samples = decoder.decode(&target_id(), 3000, &pkt);
    assert_eq!(samples.len(), 3);
    assert_eq!(&*samples[0].channel, "Unknown.field0");
    assert_eq!(value(&samples[0]), 1.0);
    assert_eq!(value(&samples[2]), 3.0);
}

/// Fields named "padding" or "reserved" are filtered out at decoder construction so
/// they never appear in samples.
#[test]
fn decode_filters_padding_and_reserved() {
    let dict = dict_of(
        "X",
        vec![(
            "S",
            def(
                "OUTPUT",
                8,
                vec![
                    f("real", "float", 0, 4),
                    f("padding", "uint", 4, 2),
                    f("reserved0", "uint", 6, 2),
                ],
            ),
        )],
    );
    let decoder = TelemetryDecoder::new(&dict, &[(0x1, "X")]);
    let pkt = PushTelemetryPacket {
        full_uid: 0x1,
        payload: vec![0u8; 8],
    };
    let samples = decoder.decode(&target_id(), 0, &pkt);
    assert_eq!(samples.len(), 1, "padding and reserved should be skipped");
    assert_eq!(&*samples[0].channel, "X.real");
}

/// Repeated decode() calls reuse the same channel name allocation rather than
/// creating fresh strings, proving the decoder channel-name cache is working.
#[test]
fn decode_returns_arc_clones_not_new_strings() {
    let dict = make_wavegen_dict();
    let decoder = TelemetryDecoder::new(&dict, &[(0x00D000, "WaveGen#0")]);
    let pkt = PushTelemetryPacket {
        full_uid: 0x00D000,
        payload: vec![0u8; 8],
    };
    let s1 = decoder.decode(&target_id(), 0, &pkt);
    let s2 = decoder.decode(&target_id(), 1, &pkt);
    assert!(
        Arc::ptr_eq(&s1[0].channel, &s2[0].channel),
        "channel name should be the same Arc allocation across calls"
    );
}

/// The category priority ordering is OUTPUT > STATE > TELEMETRY > TUNABLE_PARAM >
/// anything-else, used to break duplicate-field ties at decoder construction.
#[test]
fn category_priority_ordering() {
    assert!(category_priority("OUTPUT") > category_priority("STATE"));
    assert!(category_priority("STATE") > category_priority("TELEMETRY"));
    assert!(category_priority("TELEMETRY") > category_priority("TUNABLE_PARAM"));
    assert_eq!(category_priority("UNKNOWN"), 0);
}

/// Of two structs of one size, the one of higher priority decodes payloads of that
/// size, in whatever order they are listed.
#[test]
fn same_size_goes_to_the_higher_priority() {
    let output = || def("OUTPUT", 4, vec![f("out", "uint", 0, 4)]);
    let state = || def("STATE", 4, vec![f("st", "uint", 0, 4)]);
    for dict in [
        dict_of("C", vec![("O", output()), ("S", state())]),
        dict_of("C", vec![("S", state()), ("O", output())]),
    ] {
        let decoder = TelemetryDecoder::new(&dict, &[(7, "C")]);
        let pkt = PushTelemetryPacket {
            full_uid: 7,
            payload: vec![9, 0, 0, 0],
        };
        let samples = decoder.decode(&target_id(), 0, &pkt);
        assert_eq!(samples.len(), 1);
        assert_eq!(samples[0].channel.as_str(), "C.out");
        assert_eq!(samples[0].value, Reading::UInt(9));
    }
}

/// What is not a finite number is no sample.
#[test]
fn readings_are_finite() {
    let shape = FieldShape {
        kind: FieldKind::Float,
        offset: 0,
        size: 4,
    };
    assert_eq!(decode_numeric(&f32::NAN.to_le_bytes(), &shape), None);
    assert_eq!(decode_numeric(&f32::INFINITY.to_le_bytes(), &shape), None);
    assert_eq!(
        decode_numeric(&1.5f32.to_le_bytes(), &shape),
        Some(Reading::F32(1.5f32.to_bits()))
    );
}

/// The router passes a channel's samples on at most once per interval, and counts
/// what it drops.
#[test]
fn router_spaces_samples() {
    let dict = make_wavegen_dict();
    let mut router = TelemetryRouter::new(&dict, &[(0x00D000, "WaveGen#0")]);
    let pkt = PushTelemetryPacket {
        full_uid: 0x00D000,
        payload: vec![0u8; 8],
    };
    let first = router.route(&target_id(), 1000, &pkt);
    assert_eq!((first.samples.len(), first.decoded, first.dropped), (2, 2, 0));
    let soon = router.route(&target_id(), 1000 + MIN_INTERVAL_MS - 1, &pkt);
    assert_eq!((soon.samples.len(), soon.decoded, soon.dropped), (0, 2, 2));
    let later = router.route(&target_id(), 1000 + MIN_INTERVAL_MS, &pkt);
    assert_eq!((later.samples.len(), later.decoded, later.dropped), (2, 2, 0));
}

/// Every channel that can be produced is named.
#[test]
fn channels_are_named() {
    let dict = make_wavegen_dict();
    let decoder = TelemetryDecoder::new(&dict, &[(0x00D000, "WaveGen#0")]);
    let mut names = decoder.channel_names();
    names.sort();
    assert_eq!(
        names,
        vec![
            "WaveGen#0.cycleCount",
            "WaveGen#0.errorCount",
            "WaveGen#0.output",
            "WaveGen#0.phase"
        ]
    );
}
