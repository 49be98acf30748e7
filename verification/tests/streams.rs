use std::collections::HashMap;
use std::sync::Arc;

use zenith::config_manager::{ComponentDict, FieldDef, StructDef, StructDictionary};
use zenith::json::Json;
use zenith::protocol::{ccsds_spp, slip};
use zenith::stream_link::{warning_due, PacketPipeline, PipelineSpec, UNROUTABLE_WARN_EVERY_MS};
use zenith::telemetry::TelemetryDecoder;
use zenith::text_map::TextMap;
use zenith::transport::{unsupported_op, Protocol, PushTelemetryPacket};

fn wavegen_dict() -> StructDictionary {
    let f = |name: &str, off: usize| FieldDef {
        name: name.to_string(),
        field_type: "float".to_string(),
        offset: off,
        size: 4,
        value: Json::Null,
        element_type: None,
        dims: None,
        constraints: None,
        struct_ref: None,
    };
    let mut structs = TextMap::new();
    structs.insert(
        "Output".to_string(),
        StructDef {
            category: "OUTPUT".to_string(),
            size: 8,
            opcode: None,
            fields: vec![f("output", 0), f("phase", 4)],
            layout_hash: None,
            canonical_spec: None,
            packed: None,
        },
    );
    let mut components = TextMap::new();
    components.insert(
        "WaveGenerator".to_string(),
        ComponentDict {
            component: "WaveGenerator".to_string(),
            structs,
            enums: TextMap::new(),
            capabilities: Vec::new(),
        },
    );
    StructDictionary { components }
}

fn body() -> Vec<u8> {
    [0.5f32, 1.0f32]
        .iter()
        .flat_map(|v| v.to_le_bytes())
        .collect()
}

fn run(spec: &PipelineSpec, chunks: &[Vec<u8>]) -> (Vec<PushTelemetryPacket>, usize) {
    let mut pipeline = PacketPipeline::build(spec);
    let mut packets = Vec::new();
    let mut dropped = 0;
    for c in chunks {
        let (p, d) = pipeline.feed(c);
        packets.extend(p);
        dropped += d;
    }
    (packets, dropped)
}

/// The same struct bytes delivered over CCSDS SPP framing decode to exactly the
/// samples the decoder produces for those bytes directly.
#[test]
fn spp_wire_decodes_identically_to_direct_decode() {
    let dict = wavegen_dict();
    let decoder = TelemetryDecoder::new(&dict, &[(0x00D000, "WaveGenerator")]);
    let target = Arc::new("t".to_string());
    let direct = decoder.decode(
        &target,
        1000,
        &PushTelemetryPacket {
            full_uid: 0x00D000,
            payload: body(),
        },
    );
    assert_eq!(direct.len(), 2);

    // Split mid-packet across two reads.
    let wire = ccsds_spp::pack(0x0D0, 1, &body());
    let spec = PipelineSpec::Spp {
        apid_map: HashMap::from([(0x0D0u16, 0x00D000u32)]),
    };
    let (packets, dropped) = run(&spec, &[wire[..4].to_vec(), wire[4..].to_vec()]);
    assert_eq!(dropped, 0);
    assert_eq!(packets.len(), 1);
    assert_eq!(packets[0].full_uid, 0x00D000);
    let via_spp = decoder.decode(&target, 1000, &packets[0]);
    assert_eq!(via_spp.len(), direct.len());
    for (a, b) in direct.iter().zip(via_spp.iter()) {
        assert_eq!(a.channel, b.channel);
        assert_eq!(a.value, b.value);
    }
}

/// Packets for unmapped APIDs drop without disturbing the stream: the mapped packet
/// that follows still arrives.
#[test]
fn unmapped_apid_drops_and_stream_continues() {
    let spec = PipelineSpec::Spp {
        apid_map: HashMap::from([(0x0D0u16, 0x00BEEF00u32)]),
    };
    let unmapped = ccsds_spp::pack(0x111, 1, &[1, 2, 3, 4]);
    let mapped = ccsds_spp::pack(0x0D0, 2, &[5, 6, 7, 8]);
    let (packets, dropped) = run(&spec, &[unmapped, mapped]);
    assert_eq!(dropped, 1);
    assert_eq!(packets.len(), 1, "unmapped packet must not arrive");
    assert_eq!(packets[0].full_uid, 0x00BEEF00);
    assert_eq!(packets[0].payload, vec![5, 6, 7, 8]);
}

/// Header-less SLIP frames carrying struct bytes arrive as neutral packets stamped
/// with the config uid, split across reads mid-frame, with an empty frame
/// (back-to-back END) skipped.
#[test]
fn slip_frames_become_neutral_packets() {
    let wire = slip::encode(&body());
    let spec = PipelineSpec::SlipRaw {
        uid: Some(0x00D000),
    };
    let (packets, _) = run(
        &spec,
        &[
            wire[..3].to_vec(),
            wire[3..].to_vec(),
            vec![0xC0],
            slip::encode(&[7, 8]),
        ],
    );
    assert_eq!(packets.len(), 2);
    assert_eq!(packets[0].full_uid, 0x00D000);
    assert_eq!(packets[0].payload, body());
    assert_eq!(packets[1].payload, vec![7, 8]);
}

/// Without a configured uid, frames drop instead of inventing an address.
#[test]
fn raw_slip_link_missing_uid_drops_frames() {
    let spec = PipelineSpec::SlipRaw { uid: None };
    let (packets, dropped) = run(&spec, &[slip::encode(&[1, 2, 3])]);
    assert!(packets.is_empty());
    assert_eq!(dropped, 1);
}

/// The same struct bytes delivered as bare self-delimiting SPP, as SLIP-framed SPP
/// and as raw SLIP frames all decode to exactly the samples the decoder produces
/// for those bytes directly.
#[test]
fn all_stream_compositions_decode_identically() {
    let dict = wavegen_dict();
    let decoder = TelemetryDecoder::new(&dict, &[(0x00D000, "WaveGenerator")]);
    let target = Arc::new("t".to_string());
    let direct = decoder.decode(
        &target,
        1000,
        &PushTelemetryPacket {
            full_uid: 0x00D000,
            payload: body(),
        },
    );
    assert_eq!(direct.len(), 2);

    let map = HashMap::from([(0x0D0u16, 0x00D000u32)]);
    let spp_wire = ccsds_spp::pack(0x0D0, 1, &body());
    let framed = slip::encode(&spp_wire);
    let cases: Vec<(Protocol, PipelineSpec, Vec<Vec<u8>>)> = vec![
        (
            Protocol::CcsdsSpp,
            PipelineSpec::Spp {
                apid_map: map.clone(),
            },
            // Mid-packet split exercises the extractor.
            vec![spp_wire[..4].to_vec(), spp_wire[4..].to_vec()],
        ),
        (
            Protocol::SlipCcsdsSpp,
            PipelineSpec::SlipSpp {
                apid_map: map.clone(),
            },
            // The layered stack: the SPP packet inside SLIP framing, split
            // mid-frame.
            vec![framed[..5].to_vec(), framed[5..].to_vec()],
        ),
        (
            Protocol::RawSlip,
            PipelineSpec::SlipRaw {
                uid: Some(0x00D000),
            },
            vec![slip::encode(&body())],
        ),
    ];

    for (proto, spec, chunks) in cases {
        let (packets, _) = run(&spec, &chunks);
        assert_eq!(packets.len(), 1, "{}", proto.name());
        assert_eq!(packets[0].full_uid, 0x00D000, "{}", proto.name());
        let via_wire = decoder.decode(&target, 1000, &packets[0]);
        assert_eq!(via_wire.len(), direct.len(), "{}", proto.name());
        for (a, b) in direct.iter().zip(via_wire.iter()) {
            assert_eq!(a.channel, b.channel, "{}", proto.name());
            assert_eq!(a.value, b.value, "{}", proto.name());
        }
    }
}

/// Unroutable units (unmapped APID; length-lying SLIP-SPP frame) drop without
/// disturbing the stream: the routable packet that follows still arrives.
#[test]
fn unroutable_units_drop_and_stream_continues() {
    let unmapped = slip::encode(&ccsds_spp::pack(0x111, 1, &[1, 2, 3, 4]));
    // A frame whose SPP header lies about its length.
    let mut lying = ccsds_spp::pack(0x0D0, 2, &[9, 9]);
    lying[5] = 7; // declares 8 data bytes, frame carries 2
    let lying = slip::encode(&lying);
    let good = slip::encode(&ccsds_spp::pack(0x0D0, 3, &[5, 6, 7, 8]));
    let spec = PipelineSpec::SlipSpp {
        apid_map: HashMap::from([(0x0D0u16, 0x00BEEF00u32)]),
    };
    let (packets, dropped) = run(&spec, &[unmapped, lying, good]);
    assert_eq!(dropped, 2);
    assert_eq!(packets.len(), 1);
    assert_eq!(packets[0].full_uid, 0x00BEEF00);
    assert_eq!(packets[0].payload, vec![5, 6, 7, 8]);
}

/// Without a configured uid, raw frames drop; what follows is unaffected.
#[test]
fn stream_link_missing_uid_drops_frames() {
    let spec = PipelineSpec::SlipRaw { uid: None };
    let (packets, dropped) = run(&spec, &[slip::encode(&[1, 2, 3]), slip::encode(&[4])]);
    assert!(packets.is_empty());
    assert_eq!(dropped, 2);
}

/// Drops are reported at once, and then no more often than the interval.
#[test]
fn drop_warnings_are_spaced() {
    assert!(!warning_due(0, None));
    assert!(warning_due(1, None));
    assert!(!warning_due(1, Some(UNROUTABLE_WARN_EVERY_MS - 1)));
    assert!(warning_due(1, Some(UNROUTABLE_WARN_EVERY_MS)));
}

/// Protocol names select their protocol, and others are refused by name.
#[test]
fn protocols_are_configured_by_name() {
    for p in [Protocol::AprotoSlip, Protocol::CcsdsSpp] {
        assert_eq!(Protocol::from_config(p.name()).unwrap(), p);
    }
    for p in [
        Protocol::AprotoSlip,
        Protocol::CcsdsSpp,
        Protocol::SlipCcsdsSpp,
        Protocol::RawSlip,
    ] {
        assert_eq!(p.commandable(), p == Protocol::AprotoSlip);
    }
    assert_eq!(
        Protocol::from_config("nope").unwrap_err(),
        "unknown protocol 'nope' (supported: aproto-slip, ccsds-spp)"
    );
    assert_eq!(
        unsupported_op("send_command", Protocol::CcsdsSpp),
        "operation 'send_command' is not supported by this target's protocol (ccsds-spp)"
    );
}
