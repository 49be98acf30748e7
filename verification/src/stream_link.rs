//! Composable stream transport: bytes in, neutral telemetry packets out,
//! through a framing stage and a packet stage.
//!
//! Wire stacks are layered in practice (SLIP-framed SPP, bare self-delimiting
//! SPP, raw frames), so the pipeline is composed, not enumerated: a
//! delimitation stage (how the stream splits into units) feeds a packet stage
//! (how a unit becomes an addressed payload). Addressing is per-stage
//! business: SPP maps APIDs to component uids via config, raw frames take the
//! config uid directly.
//!
//! Every composition here is telemetry-only.

use vstd::prelude::*;

use std::collections::HashMap;

use crate::protocol::ccsds_spp;
use crate::protocol::ccsds_spp::SppHeader;
use crate::protocol::slip;
use crate::protocol::slip::DecoderView;
use crate::transport::{packets_of, PushTelemetryPacket};
use crate::wire::copy_range;

verus! {

broadcast use vstd::std_specs::hash::group_hash_axioms;

/// How bytes reach zenith, orthogonal to the framing and packet stages. TCP
/// dials the target and reads a byte stream; UDP binds a local port and
/// receives datagrams. The same pipeline consumes either: a datagram is just a
/// read chunk whose boundaries the stages already tolerate.
#[derive(Debug, Clone, Copy, PartialEq, Eq, Structural)]
pub enum Carrier {
    /// Dial host:port, read the stream.
    Tcp,
    /// Bind listen_port for inbound datagrams; host:port is where outbound
    /// (arm) datagrams go. listen_port 0 = OS-assigned.
    Udp { listen_port: u16 },
}

/// What to build a pipeline from: config data, kept so each connect starts a
/// pristine pipeline (no stale partial frames across reconnects).
#[derive(Debug)]
pub enum PipelineSpec {
    /// Self-delimiting SPP over the raw stream.
    Spp { apid_map: HashMap<u16, u32> },
    /// SLIP delimits; each frame is one SPP packet.
    SlipSpp { apid_map: HashMap<u16, u32> },
    /// SLIP delimits; each frame is one raw payload for the config uid.
    SlipRaw { uid: Option<u32> },
}

/// A live pipeline: stream bytes -> addressed packets.
pub enum PacketPipeline {
    Spp { extractor: ccsds_spp::Extractor, apid_map: HashMap<u16, u32> },
    SlipSpp { slip: slip::Decoder, apid_map: HashMap<u16, u32> },
    SlipRaw { slip: slip::Decoder, uid: Option<u32> },
}

/// What a pipeline remembers and how it addresses.
pub enum PipelineView {
    Spp { held: Seq<u8>, apid_map: Map<u16, u32> },
    SlipSpp { slip: DecoderView, apid_map: Map<u16, u32> },
    SlipRaw { slip: DecoderView, uid: Option<u32> },
}

impl View for PacketPipeline {
    type V = PipelineView;

    open spec fn view(&self) -> PipelineView {
        match self {
            PacketPipeline::Spp { extractor, apid_map } => PipelineView::Spp {
                held: extractor@,
                apid_map: apid_map@,
            },
            PacketPipeline::SlipSpp { slip, apid_map } => PipelineView::SlipSpp {
                slip: slip@,
                apid_map: apid_map@,
            },
            PacketPipeline::SlipRaw { slip, uid } => PipelineView::SlipRaw {
                slip: slip@,
                uid: *uid,
            },
        }
    }
}

/// A decoder that has seen nothing.
pub open spec fn fresh_decoder() -> DecoderView {
    DecoderView { buf: Seq::empty(), in_frame: false, escape: false }
}

/// The pipeline that a spec describes, before any bytes.
pub open spec fn pristine(spec_: PipelineSpec) -> PipelineView {
    match spec_ {
        PipelineSpec::Spp { apid_map } => PipelineView::Spp {
            held: Seq::empty(),
            apid_map: apid_map@,
        },
        PipelineSpec::SlipSpp { apid_map } => PipelineView::SlipSpp {
            slip: fresh_decoder(),
            apid_map: apid_map@,
        },
        PipelineSpec::SlipRaw { uid } => PipelineView::SlipRaw { slip: fresh_decoder(), uid },
    }
}

/// A payload addressed to the component its APID maps to.
pub open spec fn addressed(apid_map: Map<u16, u32>, apid: u16, payload: Seq<u8>) -> Option<
    (u32, Seq<u8>),
> {
    if apid_map.contains_key(apid) {
        Some((apid_map[apid], payload))
    } else {
        None
    }
}

/// What an SPP packet becomes.
pub open spec fn spp_unit(apid_map: Map<u16, u32>, packet: (SppHeader, Seq<u8>)) -> Option<
    (u32, Seq<u8>),
> {
    addressed(apid_map, packet.0.apid, packet.1)
}

/// What a SLIP frame that should hold one whole SPP packet becomes: the header
/// declares its own length, which must agree with the frame.
pub open spec fn slip_spp_unit(apid_map: Map<u16, u32>, frame: Seq<u8>) -> Option<(u32, Seq<u8>)> {
    match ccsds_spp::header_of(frame) {
        Some(h) if ccsds_spp::HEADER_SIZE + h.data_len == frame.len() => addressed(
            apid_map,
            h.apid,
            frame.skip(ccsds_spp::HEADER_SIZE as int),
        ),
        _ => None,
    }
}

/// What a raw frame becomes.
pub open spec fn raw_unit(uid: Option<u32>, frame: Seq<u8>) -> Option<(u32, Seq<u8>)> {
    match uid {
        Some(u) => Some((u, frame)),
        None => None,
    }
}

/// The units of a list that could be addressed, in order.
pub open spec fn routed(units: Seq<Option<(u32, Seq<u8>)>>) -> Seq<(u32, Seq<u8>)>
    decreases units.len(),
{
    if units.len() == 0 {
        Seq::empty()
    } else {
        match units.last() {
            Some(p) => routed(units.drop_last()).push(p),
            None => routed(units.drop_last()),
        }
    }
}

/// How many units of a list could not be addressed.
pub open spec fn unroutable(units: Seq<Option<(u32, Seq<u8>)>>) -> nat
    decreases units.len(),
{
    if units.len() == 0 {
        0
    } else {
        unroutable(units.drop_last()) + if units.last() is None {
            1nat
        } else {
            0
        }
    }
}

/// The units that a pipeline delimits in the next bytes, each as what it
/// becomes.
pub open spec fn units(p: PipelineView, bytes: Seq<u8>) -> Seq<Option<(u32, Seq<u8>)>> {
    match p {
        PipelineView::Spp { held, apid_map } => ccsds_spp::extract(held + bytes).0.map_values(
            |u: (SppHeader, Seq<u8>)| spp_unit(apid_map, u),
        ),
        PipelineView::SlipSpp { slip, apid_map } => slip::run(slip, bytes).1.map_values(
            |f: Seq<u8>| slip_spp_unit(apid_map, f),
        ),
        PipelineView::SlipRaw { slip, uid } => slip::run(slip, bytes).1.map_values(
            |f: Seq<u8>| raw_unit(uid, f),
        ),
    }
}

/// The pipeline after the next bytes.
pub open spec fn fed(p: PipelineView, bytes: Seq<u8>) -> PipelineView {
    match p {
        PipelineView::Spp { held, apid_map } => PipelineView::Spp {
            held: ccsds_spp::extract(held + bytes).1,
            apid_map,
        },
        PipelineView::SlipSpp { slip, apid_map } => PipelineView::SlipSpp {
            slip: slip::run(slip, bytes).0,
            apid_map,
        },
        PipelineView::SlipRaw { slip, uid } => PipelineView::SlipRaw {
            slip: slip::run(slip, bytes).0,
            uid,
        },
    }
}

/// A sink for units: the addressed packets and the count of the others.
struct Sink {
    out: Vec<PushTelemetryPacket>,
    unroutable: usize,
}

impl Sink {
    spec fn holds(self, units: Seq<Option<(u32, Seq<u8>)>>) -> bool {
        &&& packets_of(self.out@) == routed(units)
        &&& self.unroutable == unroutable(units)
        &&& self.unroutable <= units.len()
    }

    fn new() -> (s: Self)
        ensures
            s.holds(Seq::empty()),
    {
        let s = Sink { out: Vec::new(), unroutable: 0 };
        assert(packets_of(s.out@) =~= Seq::empty());
        s
    }

    fn take(&mut self, full_uid: Option<u32>, payload: Vec<u8>, Ghost(units): Ghost<
        Seq<Option<(u32, Seq<u8>)>>,
    >)
        requires
            old(self).holds(units),
            units.len() < usize::MAX,
        ensures
            final(self).holds(
                units.push(
                    match full_uid {
                        Some(u) => Some((u, payload@)),
                        None => None,
                    },
                ),
            ),
    {
        let ghost unit = match full_uid {
            Some(u) => Some((u, payload@)),
            None => None,
        };
        assert(units.push(unit).drop_last() =~= units);
        match full_uid {
            Some(u) => {
                self.out.push(PushTelemetryPacket { full_uid: u, payload });
                assert(packets_of(self.out@) =~= packets_of(old(self).out@).push((u, payload@)));
            },
            None => {
                self.unroutable = self.unroutable + 1;
            },
        }
    }
}

fn uid_for(apid_map: &HashMap<u16, u32>, apid: u16) -> (r: Option<u32>)
    ensures
        r == (if apid_map@.contains_key(apid) {
            Some(apid_map@[apid])
        } else {
            None
        }),
{
    match apid_map.get(&apid) {
        Some(uid) => Some(*uid),
        None => None,
    }
}

/// The address and payload of a SLIP frame that should hold one SPP packet.
fn open_slip_spp(apid_map: &HashMap<u16, u32>, frame: Vec<u8>) -> (r: (Option<u32>, Vec<u8>))
    ensures
        slip_spp_unit(apid_map@, frame@) == (match r.0 {
            Some(u) => Some((u, r.1@)),
            None => None,
        }),
{
    match ccsds_spp::parse_header(frame.as_slice()) {
        Some(h) => {
            if ccsds_spp::HEADER_SIZE + h.data_len == frame.len() {
                let payload = copy_range(frame.as_slice(), ccsds_spp::HEADER_SIZE, frame.len());
                assert(payload@ =~= frame@.skip(ccsds_spp::HEADER_SIZE as int));
                return (uid_for(apid_map, h.apid), payload);
            }
        },
        None => {},
    }
    (None, frame)
}

impl PacketPipeline {
    pub fn build(spec_: &PipelineSpec) -> (p: Self)
        ensures
            p@ == pristine(*spec_),
    {
        match spec_ {
            PipelineSpec::Spp { apid_map } => PacketPipeline::Spp {
                extractor: ccsds_spp::Extractor::new(),
                apid_map: apid_map.clone(),
            },
            PipelineSpec::SlipSpp { apid_map } => PacketPipeline::SlipSpp {
                slip: slip::Decoder::new(),
                apid_map: apid_map.clone(),
            },
            PipelineSpec::SlipRaw { uid } => PacketPipeline::SlipRaw {
                slip: slip::Decoder::new(),
                uid: *uid,
            },
        }
    }

    /// Feed stream bytes; emit every addressed packet now available. Returns
    /// (packets, unroutable-unit count) so the reader can rate-limit its
    /// warning without the pipeline owning logging.
    pub fn feed(&mut self, bytes: &[u8]) -> (r: (Vec<PushTelemetryPacket>, usize))
        ensures
            final(self)@ == fed(old(self)@, bytes@),
            packets_of(r.0@) == routed(units(old(self)@, bytes@)),
            r.1 == unroutable(units(old(self)@, bytes@)),
    {
        let ghost all = units(self@, bytes@);
        let mut sink = Sink::new();
        assert(all.take(0) =~= Seq::empty());
        match self {
            PacketPipeline::Spp { extractor, apid_map } => {
                let ghost map = apid_map@;
                let packets = extractor.feed(bytes);
                let ghost given = packets@;
                assert(given.len() == packets.len());
                assert(all.len() == given.len());
                for packet in it: packets
                    invariant
                        apid_map@ == map,
                        it.seq() == given,
                        all.len() == given.len(),
                        given.len() <= usize::MAX,
                        sink.holds(all.take(it.index())),
                        forall|i: int|
                            0 <= i < given.len() ==> #[trigger] all[i] == spp_unit(
                                map,
                                (given[i].0, given[i].1@),
                            ),
                {
                    let ghost at = it.index();
                    let (hdr, payload) = packet;
                    sink.take(uid_for(apid_map, hdr.apid), payload, Ghost(all.take(at)));
                    assert(all.take(at + 1) =~= all.take(at).push(all[at]));
                }
            },
            PacketPipeline::SlipSpp { slip, apid_map } => {
                let ghost map = apid_map@;
                let frames = slip.feed(bytes);
                let ghost given = frames@;
                assert(given.len() == frames.len());
                assert(all.len() == given.len());
                for frame in it: frames
                    invariant
                        apid_map@ == map,
                        it.seq() == given,
                        all.len() == given.len(),
                        given.len() <= usize::MAX,
                        sink.holds(all.take(it.index())),
                        forall|i: int|
                            0 <= i < given.len() ==> #[trigger] all[i] == slip_spp_unit(
                                map,
                                given[i]@,
                            ),
                {
                    let ghost at = it.index();
                    let (full_uid, payload) = open_slip_spp(apid_map, frame);
                    sink.take(full_uid, payload, Ghost(all.take(at)));
                    assert(all.take(at + 1) =~= all.take(at).push(all[at]));
                }
            },
            PacketPipeline::SlipRaw { slip, uid } => {
                let full_uid: Option<u32> = *uid;
                let frames = slip.feed(bytes);
                let ghost given = frames@;
                assert(given.len() == frames.len());
                assert(all.len() == given.len());
                for frame in it: frames
                    invariant
                        it.seq() == given,
                        all.len() == given.len(),
                        given.len() <= usize::MAX,
                        sink.holds(all.take(it.index())),
                        forall|i: int|
                            0 <= i < given.len() ==> #[trigger] all[i] == raw_unit(
                                full_uid,
                                given[i]@,
                            ),
                {
                    let ghost at = it.index();
                    sink.take(full_uid, frame, Ghost(all.take(at)));
                    assert(all.take(at + 1) =~= all.take(at).push(all[at]));
                }
            },
        }
        assert(all.take(all.len() as int) =~= all);
        (sink.out, sink.unroutable)
    }
}

/// How often unroutable units are reported at most, milliseconds.
pub const UNROUTABLE_WARN_EVERY_MS: u64 = 30_000;

/// Whether dropped units are to be reported now: some were dropped, and the
/// last report is long enough ago.
pub fn warning_due(unroutable: usize, since_last_ms: Option<u64>) -> (r: bool)
    ensures
        r == (unroutable > 0 && (since_last_ms matches Some(ms) ==> ms
            >= UNROUTABLE_WARN_EVERY_MS)),
        r ==> unroutable > 0,
        unroutable > 0 && (since_last_ms is None || since_last_ms->0 >= 30_000) ==> r,
        since_last_ms is Some && since_last_ms->0 < 30_000 ==> !r,
{
    if unroutable == 0 {
        return false;
    }
    match since_last_ms {
        Some(ms) => ms >= UNROUTABLE_WARN_EVERY_MS,
        None => true,
    }
}

/// However the stream is cut into reads, a pipeline delimits the same units and
/// ends in the same state.
pub proof fn pipeline_in_pieces(p: PipelineView, a: Seq<u8>, b: Seq<u8>)
    ensures
        fed(p, a + b) == fed(fed(p, a), b),
        units(p, a + b) == units(p, a) + units(fed(p, a), b),
{
    match p {
        PipelineView::Spp { held, apid_map } => {
            assert(held + (a + b) =~= (held + a) + b);
            ccsds_spp::extract_in_pieces(held + a, b);
            assert(units(p, a + b) =~= units(p, a) + units(fed(p, a), b));
        },
        PipelineView::SlipSpp { slip, apid_map } => {
            slip::run_in_pieces(slip, a, b);
            assert(units(p, a + b) =~= units(p, a) + units(fed(p, a), b));
        },
        PipelineView::SlipRaw { slip, uid } => {
            slip::run_in_pieces(slip, a, b);
            assert(units(p, a + b) =~= units(p, a) + units(fed(p, a), b));
        },
    }
}

/// The packets of two runs of units follow one another, and so do the counts
/// of what could not be addressed.
pub proof fn routed_in_pieces(
    a: Seq<Option<(u32, Seq<u8>)>>,
    b: Seq<Option<(u32, Seq<u8>)>>,
)
    ensures
        routed(a + b) == routed(a) + routed(b),
        unroutable(a + b) == unroutable(a) + unroutable(b),
    decreases b.len(),
{
    if b.len() == 0 {
        assert(a + b =~= a);
        assert(routed(a) + routed(b) =~= routed(a));
    } else {
        routed_in_pieces(a, b.drop_last());
        assert((a + b).drop_last() =~= a + b.drop_last());
        assert(routed(a + b) =~= routed(a) + routed(b));
    }
}

/// Protocol agnosticism: the same payload, sent as a bare space packet, as a
/// SLIP-framed space packet or as a raw SLIP frame, comes out of the three
/// pipelines as the same one addressed packet, with nothing dropped.
pub proof fn compositions_agree(
    apid_map: Map<u16, u32>,
    apid: u16,
    seq_count: u16,
    uid: u32,
    payload: Seq<u8>,
)
    requires
        apid < 0x800,
        apid_map.contains_key(apid),
        apid_map[apid] == uid,
        0 < payload.len() <= ccsds_spp::MAX_PACKET - ccsds_spp::HEADER_SIZE,
    ensures
        ({
            let packet = ccsds_spp::packed(apid, seq_count, payload);
            let bare = units(PipelineView::Spp { held: Seq::empty(), apid_map }, packet);
            let framed = units(
                PipelineView::SlipSpp { slip: fresh_decoder(), apid_map },
                slip::encoded(packet),
            );
            let raw = units(
                PipelineView::SlipRaw { slip: fresh_decoder(), uid: Some(uid) },
                slip::encoded(payload),
            );
            &&& bare == framed
            &&& framed == raw
            &&& routed(raw) == seq![(uid, payload)]
            &&& unroutable(raw) == 0
        }),
{
    let one = seq![Some((uid, payload))];
    packets_are_one_unit(apid_map, apid, seq_count, payload);
    slip::decode_undoes_encode(fresh_decoder(), payload);
    let raw = PipelineView::SlipRaw { slip: fresh_decoder(), uid: Some(uid) };
    assert(units(raw, slip::encoded(payload)) =~= one);
    assert(one.drop_last() =~= Seq::empty());
    reveal_with_fuel(routed, 2);
    reveal_with_fuel(unroutable, 2);
    assert(routed(one) =~= seq![(uid, payload)]);
}

/// A packet, bare or framed, is one unit, addressed by its APID.
proof fn packets_are_one_unit(
    apid_map: Map<u16, u32>,
    apid: u16,
    seq_count: u16,
    payload: Seq<u8>,
)
    requires
        apid < 0x800,
        0 < payload.len() <= ccsds_spp::MAX_PACKET - ccsds_spp::HEADER_SIZE,
    ensures
        ({
            let packet = ccsds_spp::packed(apid, seq_count, payload);
            let one = seq![addressed(apid_map, apid, payload)];
            &&& units(PipelineView::Spp { held: Seq::empty(), apid_map }, packet) == one
            &&& units(
                PipelineView::SlipSpp { slip: fresh_decoder(), apid_map },
                slip::encoded(packet),
            ) == one
        }),
{
    let packet = ccsds_spp::packed(apid, seq_count, payload);
    let one = seq![addressed(apid_map, apid, payload)];
    let none = Seq::<u8>::empty();
    ccsds_spp::parse_undoes_pack(apid, seq_count, payload, none);
    ccsds_spp::extract_undoes_pack(apid, seq_count, payload, none);
    assert(packet + none =~= packet);
    assert(none + packet =~= packet);
    let bare = PipelineView::Spp { held: none, apid_map };
    assert(units(bare, packet) =~= one);
    slip::decode_undoes_encode(fresh_decoder(), packet);
    let framed = PipelineView::SlipSpp { slip: fresh_decoder(), apid_map };
    assert(packet.skip(ccsds_spp::HEADER_SIZE as int) =~= payload);
    assert(units(framed, slip::encoded(packet)) =~= one);
}

/// A raw-frame pipeline without a configured uid drops every frame instead of
/// inventing an address.
pub proof fn no_uid_no_packets(slip: DecoderView, bytes: Seq<u8>)
    ensures
        routed(units(PipelineView::SlipRaw { slip, uid: None }, bytes)).len() == 0,
        unroutable(units(PipelineView::SlipRaw { slip, uid: None }, bytes)) == slip::run(
            slip,
            bytes,
        ).1.len(),
{
    let all = units(PipelineView::SlipRaw { slip, uid: None }, bytes);
    all_dropped(all);
}

proof fn all_dropped(units: Seq<Option<(u32, Seq<u8>)>>)
    requires
        forall|i: int| 0 <= i < units.len() ==> (#[trigger] units[i]) is None,
    ensures
        routed(units).len() == 0,
        unroutable(units) == units.len(),
    decreases units.len(),
{
    if units.len() > 0 {
        all_dropped(units.drop_last());
    }
}

/// Every unit is accounted for: it is routed or it is counted as unroutable.
pub proof fn units_are_accounted_for(units: Seq<Option<(u32, Seq<u8>)>>)
    ensures
        routed(units).len() + unroutable(units) == units.len(),
        forall|i: int|
            0 <= i < units.len() && #[trigger] units[i] is Some ==> routed(units).contains(
                units[i]->0,
            ),
    decreases units.len(),
{
    if units.len() > 0 {
        let front = units.drop_last();
        units_are_accounted_for(front);
        let before = routed(front);
        let all = routed(units);
        assert forall|i: int| 0 <= i < units.len() && #[trigger] units[i] is Some implies
            all.contains(units[i]->0) by {
            if i < front.len() {
                assert(front[i] == units[i]);
                let k = choose|k: int| 0 <= k < before.len() && before[k] == front[i]->0;
                assert(all[k] == before[k]);
            } else {
                assert(all[all.len() - 1] == units[i]->0);
            }
        }
    }
}

/// A framed space packet is routed if and only if its header is sound, announces exactly
/// the octets that the frame holds, and names an APID that is mapped; it then goes to the
/// component that the APID maps to, with the octets behind the header.
pub proof fn framed_packets_must_agree_with_their_frame(
    apid_map: Map<u16, u32>,
    frame: Seq<u8>,
)
    ensures
        ({
            let sound = frame.len() >= 7 && frame[0] < 32 && 256 * frame[4] + frame[5] + 7
                == frame.len() && frame.len() <= 4096;
            let apid = (256 * (frame[0] % 8) + frame[1]) as u16;
            slip_spp_unit(apid_map, frame) == (if sound && apid_map.dom().contains(apid) {
                Some((apid_map[apid], frame.subrange(6, frame.len() as int)))
            } else {
                None
            })
        }),
{
    ccsds_spp::headers_are_read_from_their_octets(frame);
    if frame.len() >= 6 {
        assert(frame.skip(6) =~= frame.subrange(6, frame.len() as int));
    }
}

/// A packet whose APID is not mapped is counted and dropped, bare or framed.
pub proof fn unmapped_packets_are_dropped(
    apid_map: Map<u16, u32>,
    apid: u16,
    seq_count: u16,
    payload: Seq<u8>,
)
    requires
        apid < 0x800,
        !apid_map.contains_key(apid),
        0 < payload.len() <= 4090,
    ensures
        ({
            let packet = ccsds_spp::packed(apid, seq_count, payload);
            let bare = units(PipelineView::Spp { held: Seq::empty(), apid_map }, packet);
            let framed = units(
                PipelineView::SlipSpp { slip: fresh_decoder(), apid_map },
                slip::encoded(packet),
            );
            &&& routed(bare).len() == 0 && unroutable(bare) == 1
            &&& routed(framed).len() == 0 && unroutable(framed) == 1
        }),
{
    packets_are_one_unit(apid_map, apid, seq_count, payload);
    all_dropped(seq![None::<(u32, Seq<u8>)>]);
}

/// A new pipeline remembers nothing of an earlier connection: whatever bytes come first,
/// its units are those of these bytes alone.
pub proof fn new_pipelines_start_afresh(spec_: PipelineSpec, bytes: Seq<u8>)
    ensures
        ({
            let fresh = DecoderView { buf: Seq::empty(), in_frame: false, escape: false };
            match spec_ {
                PipelineSpec::Spp { apid_map } => {
                    let packets = ccsds_spp::extract(bytes).0;
                    let got = units(pristine(spec_), bytes);
                    &&& got.len() == packets.len()
                    &&& forall|i: int|
                        0 <= i < got.len() ==> #[trigger] got[i] == addressed(
                            apid_map@,
                            packets[i].0.apid,
                            packets[i].1,
                        )
                },
                PipelineSpec::SlipSpp { apid_map } => {
                    let frames = slip::run(fresh, bytes).1;
                    let got = units(pristine(spec_), bytes);
                    &&& got.len() == frames.len()
                    &&& forall|i: int|
                        0 <= i < got.len() ==> #[trigger] got[i] == slip_spp_unit(
                            apid_map@,
                            frames[i],
                        )
                },
                PipelineSpec::SlipRaw { uid } => {
                    let frames = slip::run(fresh, bytes).1;
                    let got = units(pristine(spec_), bytes);
                    &&& got.len() == frames.len()
                    &&& forall|i: int|
                        0 <= i < got.len() ==> #[trigger] got[i] == (match uid {
                            Some(u) => Some((u, frames[i])),
                            None => None,
                        })
                },
            }
        }),
{
    assert(Seq::<u8>::empty() + bytes =~= bytes);
}

/// A packet goes to the component that its APID maps to, with its payload as it is, and to
/// none when the APID is not mapped.
pub proof fn packets_go_where_their_apid_maps(
    apid_map: Map<u16, u32>,
    header: SppHeader,
    payload: Seq<u8>,
)
    ensures
        match spp_unit(apid_map, (header, payload)) {
            Some((uid, data)) => apid_map.dom().contains(header.apid) && uid
                == apid_map[header.apid] && data == payload,
            None => !apid_map.dom().contains(header.apid),
        },
{
}

} // verus!
