use zenith::config_manager::{
    component_names_match, decode_field, default_plot_height, is_dictionary_file, AppManifest,
    ComponentDict, FieldDef, FieldValue, ManifestComponent, PlotDef, StructDef, StructDictionary,
    TelemetryConfig, TelemetryLayout,
};
use zenith::json::Json;
use zenith::text_map::TextMap;

fn field(name: &str, field_type: &str, offset: usize, size: usize) -> FieldDef {
    FieldDef {
        name: name.to_string(),
        field_type: field_type.to_string(),
        offset,
        size,
        value: Json::Null,
        element_type: None,
        dims: None,
        constraints: None,
        struct_ref: None,
    }
}

fn def(category: &str, size: usize, fields: Vec<FieldDef>) -> StructDef {
    StructDef {
        category: category.to_string(),
        size,
        opcode: None,
        fields,
        layout_hash: None,
        canonical_spec: None,
        packed: None,
    }
}

fn dictionary(component: &str, structs: Vec<(&str, StructDef)>) -> StructDictionary {
    let mut map = TextMap::new();
    for (name, s) in structs {
        map.insert(name.to_string(), s);
    }
    let mut components = TextMap::new();
    components.insert(
        component.to_string(),
        ComponentDict {
            component: component.to_string(),
            structs: map,
            enums: TextMap::new(),
            capabilities: vec!["readback".to_string()],
        },
    );
    StructDictionary { components }
}

/// A dictionary entry carrying the producer-stated layout hash exposes the u32 the
/// prelude carries; entries without one return None.
#[test]
fn struct_def_layout_hash_parses() {
    let mut sdef = def("TUNABLE_PARAM", 80, Vec::new());
    sdef.layout_hash = Some("0xC93CD892".to_string());
    sdef.canonical_spec = Some("a:uint:1;".to_string());
    assert_eq!(sdef.layout_hash_u32(), Some(0xC93C_D892));

    let bare = def("", 4, Vec::new());
    assert_eq!(bare.layout_hash_u32(), None);
}

/// Each type reads its bytes as it should.
#[test]
fn fields_decode_by_type() {
    let data = [
        0x01, 0xFF, 0xFE, 0xFF, 0x00, 0x00, 0x00, 0x3F, b'h', b'i', 0, b'!', 1,
    ];
    assert!(matches!(decode_field(&data, &field("a", "uint", 0, 2)), FieldValue::UInt(0xFF01)));
    assert!(matches!(decode_field(&data, &field("a", "int", 2, 2)), FieldValue::Int(-2)));
    match decode_field(&data, &field("a", "float", 4, 4)) {
        FieldValue::F32(bits) => assert_eq!(f32::from_bits(bits), 0.5),
        _ => panic!("four float bytes are a single"),
    }
    match decode_field(&data, &field("a", "unheard-of", 0, 3)) {
        FieldValue::Hex(t) => assert_eq!(t, "01fffe"),
        _ => panic!("a type that is not known is shown in hexadecimal"),
    }
}

/// A payload decodes into the fields that lie within it.
#[test]
fn payloads_decode_by_struct() {
    let dicts = dictionary(
        "Wave",
        vec![("Out", def("OUTPUT", 8, vec![field("a", "uint", 0, 4), field("b", "uint", 4, 4)]))],
    );
    let all = dicts.decode_payload("Wave", "Out", &[1, 0, 0, 0, 2, 0, 0, 0]).unwrap();
    assert_eq!(all.len(), 2);
    assert!(matches!(all.get("b"), Some(FieldValue::UInt(2))));
    let short = dicts.decode_payload("Wave", "Out", &[1, 0, 0, 0, 2]).unwrap();
    assert_eq!(short.len(), 1);
    assert!(dicts.decode_payload("Wave", "None", &[1]).is_none());
    assert!(dicts.decode_payload("None", "Out", &[1]).is_none());
}

/// A header that states its entry count is told from its entries.
#[test]
fn header_and_entries_decode() {
    let dicts = dictionary(
        "Scheduler",
        vec![
            ("Task", def("TUNABLE_PARAM", 2, vec![field("id", "uint", 0, 2)])),
            ("Head", def("TUNABLE_PARAM", 3, vec![field("numTasks", "uint", 0, 1)])),
        ],
    );
    let data = [2u8, 0, 0, 10, 0, 20, 0];
    let v = dicts.decode_variable_length_for("TUNABLE_PARAM", &data, Some("scheduler")).unwrap();
    assert_eq!(v.component, "Scheduler");
    assert_eq!(v.header_name, "Head");
    assert_eq!(v.entry_name, "Task");
    assert_eq!(v.entries.len(), 2);
    assert!(matches!(v.entries[1].get("id"), Some(FieldValue::UInt(20))));
    assert!(dicts.decode_variable_length_for("TUNABLE_PARAM", &data, Some("Other")).is_none());
    assert!(dicts.decode_variable_length_for("TUNABLE_PARAM", &data[..6], None).is_none());
}

/// Names match whatever their case, and when one holds the other.
#[test]
fn names_match_loosely() {
    assert!(component_names_match("WaveGenerator", "wavegenerator"));
    assert!(component_names_match("WaveGenerator", "WaveGen"));
    assert!(component_names_match("gen", "WaveGenerator"));
    assert!(!component_names_match("Wave", "Scheduler"));
}

/// Capabilities are declared by the components.
#[test]
fn capabilities_are_declared() {
    let dicts = dictionary("Wave", Vec::new());
    assert!(dicts.has_capability("readback"));
    assert!(!dicts.has_capability("other"));
    assert_eq!(dicts.capabilities(), vec!["readback".to_string()]);
}

/// Dictionary files are JSON files that are no app artifact or manifest.
#[test]
fn dictionary_files_are_told_by_name() {
    assert!(is_dictionary_file("Scheduler.json"));
    assert!(!is_dictionary_file("Scheduler.toml"));
    assert!(!is_dictionary_file("app_config.json"));
    assert!(!is_dictionary_file("manifest_v2.json"));
    assert!(!is_dictionary_file(".json"));
    assert!(is_dictionary_file("my_app_.json"));
}

fn component(name: &str, uid: &str, index: Option<u32>) -> ManifestComponent {
    ManifestComponent {
        name: name.to_string(),
        full_uid: uid.to_string(),
        comp_type: "SW_MODEL".to_string(),
        instance_index: index,
        data_file: None,
        notes: None,
    }
}

/// A manifest names its components by address.
#[test]
fn manifests_name_components() {
    let manifest = AppManifest {
        application: "demo".to_string(),
        components: vec![
            component("Wave", "0x00D000", Some(0)),
            component("Bad", "zz", None),
            component("Sched", "0x000100", None),
        ],
        description: String::new(),
        extra: TextMap::new(),
    };
    assert_eq!(
        manifest.component_uids(),
        vec![(0x00D000, "Wave#0".to_string()), (0x000100, "Sched".to_string())]
    );
    assert_eq!(manifest.component_name(0x000100), Some("Sched"));
    assert_eq!(manifest.component_name(0x000101), None);
    assert!(!manifest.validate().is_empty());
}

/// A telemetry config with an empty layout is pointed out.
#[test]
fn telemetry_configs_are_checked() {
    assert_eq!(default_plot_height(), 180);
    let good = TelemetryConfig {
        layouts: vec![TelemetryLayout {
            name: "main".to_string(),
            plots: vec![PlotDef {
                title: "p".to_string(),
                channels: vec!["c".to_string()],
                height: 180,
            }],
        }],
    };
    assert!(good.validate().is_empty());
    let bad = TelemetryConfig {
        layouts: vec![TelemetryLayout {
            name: "main".to_string(),
            plots: Vec::new(),
        }],
    };
    assert!(!bad.validate().is_empty());
}
