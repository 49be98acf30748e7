//! Telemetry decoding and routing.
//!
//! Decodes push telemetry using struct dictionaries for proper field-level
//! resolution. Each field is decoded according to its declared type (uint8,
//! uint16, float, etc.) from the struct dictionary, not blindly extracted as
//! 32-bit floats. Payloads that match no known struct definition fall back to
//! that generic extraction.

use vstd::prelude::*;

use std::collections::HashMap;
use std::sync::Arc;

use crate::config_manager::{
    component_names_match, field_kind, kind_of, names_match, signed_reading, to_signed,
    ComponentDict, FieldDef, FieldKind, StructDef, StructDictionary,
};
use crate::text::{
    before, dec, has_prefix, hex_upper, push_dec, push_hex, same_text, starts_with_text,
    text_before, texts, trim_text, trimmed,
};
use crate::text_map::{lookup, put, TextMap};
use crate::transport::PushTelemetryPacket;
use crate::wire::{get_u16_le, get_u32_le, get_u64_le};

verus! {

broadcast use vstd::std_specs::hash::group_hash_axioms;

// ------------------------------------------------------------------- samples

/// A numeric reading. Floating-point readings are their bit patterns.
#[derive(Debug, Clone, Copy, PartialEq, Eq, Structural)]
pub enum Reading {
    UInt(u64),
    Int(i64),
    F32(u32),
    F64(u64),
    Bool(bool),
}

/// The spread of an age-downsampled bucket: bit patterns of its extremes, and
/// how many samples it stands for.
#[derive(Debug, Clone, Copy, PartialEq, Eq, Structural)]
pub struct Envelope {
    pub min_bits: u64,
    pub max_bits: u64,
    pub count: u32,
}

/// A decoded telemetry sample for the frontend.
///
/// `target_id` and `channel` are shared so the decoder hot path can clone them
/// in O(1) without per-sample allocations.
#[derive(Debug, Clone)]
pub struct TelemetrySample {
    pub target_id: Arc<String>,
    pub timestamp_ms: u64,
    pub channel: Arc<String>,
    pub value: Reading,
    pub envelope: Option<Envelope>,
}

/// What a sample says.
pub struct SampleView {
    pub target_id: Seq<char>,
    pub timestamp_ms: u64,
    pub channel: Seq<char>,
    pub value: Reading,
    pub envelope: Option<Envelope>,
}

impl View for TelemetrySample {
    type V = SampleView;

    open spec fn view(&self) -> SampleView {
        SampleView {
            target_id: self.target_id@,
            timestamp_ms: self.timestamp_ms,
            channel: self.channel@,
            value: self.value,
            envelope: self.envelope,
        }
    }
}

/// What a list of samples says.
pub open spec fn sample_views(list: Seq<TelemetrySample>) -> Seq<SampleView> {
    Seq::new(list.len(), |i: int| list[i]@)
}

/// `Arc::clone`: another handle on the same shared value.
#[verifier::external_body]
pub(crate) fn share(text: &Arc<String>) -> (r: Arc<String>)
    ensures
        r@ == text@,
{
    Arc::clone(text)
}

// -------------------------------------------------------------------- fields

/// Whether the bit pattern of a single is that of a finite number.
pub open spec fn finite32(bits: u32) -> bool {
    bits / 0x80_0000 % 0x100 != 0xFF
}

/// Whether the bit pattern of a double is that of a finite number.
pub open spec fn finite64(bits: u64) -> bool {
    bits / 0x10_0000_0000_0000 % 0x800 != 0x7FF
}

/// The bit pattern of the single nearest to ten to the twelfth.
pub const PLAUSIBLE_LIMIT_BITS: u32 = 0x5368_D4A5;

/// Whether the bit pattern of a single is that of a finite number of magnitude
/// below ten to the twelfth. Magnitudes order as their bit patterns do.
pub open spec fn plausible(bits: u32) -> bool {
    finite32(bits) && bits % 0x8000_0000 < PLAUSIBLE_LIMIT_BITS
}

/// What the decoder needs to know of a field.
#[derive(Debug, Clone, Copy, PartialEq, Eq, Structural)]
pub struct FieldShape {
    pub kind: FieldKind,
    pub offset: usize,
    pub size: usize,
}

/// The numeric reading of a field: None for shapes that have none, and for
/// floating-point values that are not finite.
pub open spec fn reading_of(data: Seq<u8>, f: FieldShape) -> Option<Reading> {
    let at = f.offset as int;
    match (f.kind, f.size) {
        (FieldKind::UInt, 1) => Some(Reading::UInt(data[at] as u64)),
        (FieldKind::UInt, 2) => Some(Reading::UInt(crate::wire::u16_le_at(data, at) as u64)),
        (FieldKind::UInt, 4) => Some(Reading::UInt(crate::wire::u32_le_at(data, at) as u64)),
        (FieldKind::UInt, 8) => Some(Reading::UInt(crate::wire::u64_le_at(data, at))),
        (FieldKind::Int, 1) => Some(Reading::Int(signed_reading(data[at] as int, 0x100))),
        (FieldKind::Int, 2) => Some(
            Reading::Int(signed_reading(crate::wire::u16_le_at(data, at) as int, 0x1_0000)),
        ),
        (FieldKind::Int, 4) => Some(
            Reading::Int(signed_reading(crate::wire::u32_le_at(data, at) as int, 0x1_0000_0000)),
        ),
        (FieldKind::Float, 4) => {
            let bits = crate::wire::u32_le_at(data, at);
            if finite32(bits) {
                Some(Reading::F32(bits))
            } else {
                None
            }
        },
        (FieldKind::Float, 8) => {
            let bits = crate::wire::u64_le_at(data, at);
            if finite64(bits) {
                Some(Reading::F64(bits))
            } else {
                None
            }
        },
        (FieldKind::Bool, 1) => Some(Reading::Bool(data[at] != 0)),
        _ => None,
    }
}

/// Decode a single numeric field from raw bytes.
pub fn decode_numeric(data: &[u8], field: &FieldShape) -> (r: Option<Reading>)
    requires
        field.offset + field.size <= data@.len(),
    ensures
        r == reading_of(data@, *field),
{
    assert(field.offset + field.size <= data.len());
    let off: usize = field.offset;
    match (field.kind, field.size) {
        (FieldKind::UInt, 1) => Some(Reading::UInt(data[off] as u64)),
        (FieldKind::UInt, 2) => Some(Reading::UInt(get_u16_le(data, off) as u64)),
        (FieldKind::UInt, 4) => Some(Reading::UInt(get_u32_le(data, off) as u64)),
        (FieldKind::UInt, 8) => Some(Reading::UInt(get_u64_le(data, off))),
        (FieldKind::Int, 1) => Some(Reading::Int(to_signed(data[off] as i64, 0x100))),
        (FieldKind::Int, 2) => Some(
            Reading::Int(to_signed(get_u16_le(data, off) as i64, 0x1_0000)),
        ),
        (FieldKind::Int, 4) => Some(
            Reading::Int(to_signed(get_u32_le(data, off) as i64, 0x1_0000_0000)),
        ),
        (FieldKind::Float, 4) => {
            let bits: u32 = get_u32_le(data, off);
            if bits / 0x80_0000 % 0x100 != 0xFF {
                Some(Reading::F32(bits))
            } else {
                None
            }
        },
        (FieldKind::Float, 8) => {
            let bits: u64 = get_u64_le(data, off);
            if bits / 0x10_0000_0000_0000 % 0x800 != 0x7FF {
                Some(Reading::F64(bits))
            } else {
                None
            }
        },
        (FieldKind::Bool, 1) => Some(Reading::Bool(data[off] != 0)),
        _ => None,
    }
}

/// Priority of a struct category.
pub open spec fn priority_of(category: Seq<char>) -> u8 {
    if category == "OUTPUT"@ {
        4
    } else if category == "STATE"@ {
        3
    } else if category == "TELEMETRY"@ {
        2
    } else if category == "TUNABLE_PARAM"@ {
        1
    } else {
        0
    }
}

/// Priority for struct category when multiple structs match the same size.
/// Higher = preferred for push telemetry decoding.
pub fn category_priority(category: &str) -> (p: u8)
    ensures
        p == priority_of(category@),
        p <= 4,
{
    if same_text(category, "OUTPUT") {
        4
    } else if same_text(category, "STATE") {
        3
    } else if same_text(category, "TELEMETRY") {
        2
    } else if same_text(category, "TUNABLE_PARAM") {
        1
    } else {
        0
    }
}

/// Whether the decoder emits a field: no array, no string, no padding, nothing
/// reserved, nothing empty.
pub open spec fn is_emittable(f: FieldDef) -> bool {
    &&& f.field_type@ != "array"@
    &&& f.field_type@ != "string"@
    &&& !has_prefix(f.name@, "pad"@)
    &&& !has_prefix(f.name@, "reserved"@)
    &&& f.size != 0
}

fn emittable(f: &FieldDef) -> (r: bool)
    ensures
        r == is_emittable(*f),
{
    !same_text(f.field_type.as_str(), "array") && !same_text(f.field_type.as_str(), "string")
        && !starts_with_text(f.name.as_str(), "pad") && !starts_with_text(
        f.name.as_str(),
        "reserved",
    ) && f.size != 0
}

// ------------------------------------------------------------------- decoder

/// One field that the decoder will emit, with the channel name precomputed.
struct CachedField {
    /// "{component_name}.{field_name}", shared with every sample.
    channel: Arc<String>,
    shape: FieldShape,
}

/// A field that the decoder emits.
pub struct CachedView {
    pub channel: Seq<char>,
    pub shape: FieldShape,
}

/// The fields that the decoder emits for a component's payloads of one size.
struct Layout {
    uid: u32,
    size: usize,
    fields: Vec<CachedField>,
}

/// The fields that the decoder emits for a component's payloads of one size.
pub struct LayoutView {
    pub uid: u32,
    pub size: usize,
    pub fields: Seq<CachedView>,
}

spec fn cached_views(list: Seq<CachedField>) -> Seq<CachedView> {
    Seq::new(
        list.len(),
        |i: int| CachedView { channel: list[i].channel@, shape: list[i].shape },
    )
}

spec fn layout_views(list: Seq<Layout>) -> Seq<LayoutView> {
    Seq::new(
        list.len(),
        |i: int|
            LayoutView {
                uid: list[i].uid,
                size: list[i].size,
                fields: cached_views(list[i].fields@),
            },
    )
}

/// What a decoder has learned: its layouts, which field names each component's
/// layouts have claimed, and the components' display names.
pub struct DecoderTable {
    pub layouts: Seq<LayoutView>,
    pub claims: Seq<(u32, Seq<char>)>,
    pub names: Map<u32, Seq<char>>,
}

/// The shape of a dictionary field.
pub open spec fn shape_of(f: FieldDef) -> FieldShape {
    FieldShape { kind: kind_of(f.field_type@), offset: f.offset, size: f.size }
}

/// Whether a field is emitted: emittable, and not claimed by a layout of higher
/// priority.
pub open spec fn is_emitted(claims: Seq<(u32, Seq<char>)>, uid: u32, f: FieldDef) -> bool {
    is_emittable(f) && !claims.contains((uid, f.name@))
}

/// The emitted fields of a struct.
pub open spec fn emitted(
    claims: Seq<(u32, Seq<char>)>,
    uid: u32,
    component: Seq<char>,
    fields: Seq<FieldDef>,
) -> Seq<CachedView>
    decreases fields.len(),
{
    if fields.len() == 0 {
        Seq::empty()
    } else {
        let before = emitted(claims, uid, component, fields.drop_last());
        let f = fields.last();
        if is_emitted(claims, uid, f) {
            before.push(CachedView { channel: component + "."@ + f.name@, shape: shape_of(f) })
        } else {
            before
        }
    }
}

/// The names of the emitted fields of a struct, as claims.
pub open spec fn emitted_claims(
    claims: Seq<(u32, Seq<char>)>,
    uid: u32,
    fields: Seq<FieldDef>,
) -> Seq<(u32, Seq<char>)>
    decreases fields.len(),
{
    if fields.len() == 0 {
        Seq::empty()
    } else {
        let before = emitted_claims(claims, uid, fields.drop_last());
        let f = fields.last();
        if is_emitted(claims, uid, f) {
            before.push((uid, f.name@))
        } else {
            before
        }
    }
}

/// The structs of a component dictionary that can be decoded with, of one
/// priority.
pub open spec fn structs_of_priority(structs: Seq<(Seq<char>, StructDef)>, prio: u8) -> Seq<
    StructDef,
>
    decreases structs.len(),
{
    if structs.len() == 0 {
        Seq::empty()
    } else {
        let before = structs_of_priority(structs.drop_last(), prio);
        let s = structs.last().1;
        if s.fields@.len() > 0 && s.size > 0 && priority_of(s.category@) == prio {
            before.push(s)
        } else {
            before
        }
    }
}

/// The structs of one priority from every dictionary that matches a name.
pub open spec fn candidates_of_priority(
    components: Seq<(Seq<char>, ComponentDict)>,
    name: Seq<char>,
    prio: u8,
) -> Seq<StructDef>
    decreases components.len(),
{
    if components.len() == 0 {
        Seq::empty()
    } else {
        let before = candidates_of_priority(components.drop_last(), name, prio);
        let dict = components.last().1;
        if names_match(dict.component@, name) {
            before + structs_of_priority(dict.structs@, prio)
        } else {
            before
        }
    }
}

/// All candidate structs, highest priority first, from priority `prio` down.
pub open spec fn candidates(
    components: Seq<(Seq<char>, ComponentDict)>,
    name: Seq<char>,
    prio: u8,
) -> Seq<StructDef>
    decreases prio,
{
    if prio == 0 {
        candidates_of_priority(components, name, 0)
    } else {
        candidates_of_priority(components, name, prio) + candidates(
            components,
            name,
            (prio - 1) as u8,
        )
    }
}

/// The name a component's dictionaries are found by: its display name without
/// the instance suffix.
pub open spec fn base_name(component: Seq<char>) -> Seq<char> {
    trimmed(before(component, '#'))
}

/// What one component's candidates make: its layouts (one for each payload
/// size, the highest priority taking it) and the claims.
pub open spec fn component_layouts(
    claims: Seq<(u32, Seq<char>)>,
    uid: u32,
    component: Seq<char>,
    list: Seq<StructDef>,
) -> (Seq<LayoutView>, Seq<(u32, Seq<char>)>)
    decreases list.len(),
{
    if list.len() == 0 {
        (Seq::empty(), claims)
    } else {
        let before = component_layouts(claims, uid, component, list.drop_last());
        let s = list.last();
        let fields = emitted(before.1, uid, component, s.fields@);
        if has_size(before.0, s.size) || fields.len() == 0 {
            before
        } else {
            (
                before.0.push(LayoutView { uid, size: s.size, fields }),
                before.1 + emitted_claims(before.1, uid, s.fields@),
            )
        }
    }
}

/// Whether a payload size has its layout already.
pub open spec fn has_size(layouts: Seq<LayoutView>, size: usize) -> bool {
    exists|i: int| 0 <= i < layouts.len() && (#[trigger] layouts[i]).size == size
}

/// The layout for a payload, if there is one: the latest for its component and
/// size.
pub open spec fn layout_for(layouts: Seq<LayoutView>, uid: u32, size: nat) -> Option<
    Seq<CachedView>,
>
    decreases layouts.len(),
{
    if layouts.len() == 0 {
        None
    } else if layouts.last().uid == uid && layouts.last().size == size {
        Some(layouts.last().fields)
    } else {
        layout_for(layouts.drop_last(), uid, size)
    }
}

/// What a decoder learns from the dictionaries and the known components.
pub open spec fn table_of(
    components: Seq<(Seq<char>, ComponentDict)>,
    known: Seq<(u32, Seq<char>)>,
) -> DecoderTable
    decreases known.len(),
{
    if known.len() == 0 {
        DecoderTable { layouts: Seq::empty(), claims: Seq::empty(), names: Map::empty() }
    } else {
        let before = table_of(components, known.drop_last());
        let (uid, component) = known.last();
        let list = candidates(components, base_name(component), 4);
        let own = component_layouts(before.claims, uid, component, list);
        DecoderTable {
            layouts: before.layouts + own.0,
            claims: own.1,
            names: before.names.insert(uid, component),
        }
    }
}

/// The samples that a list of fields yields for a payload: those fields that lie
/// within it and have a reading.
pub open spec fn struct_samples(
    target: Seq<char>,
    ts: u64,
    fields: Seq<CachedView>,
    data: Seq<u8>,
) -> Seq<SampleView>
    decreases fields.len(),
{
    if fields.len() == 0 {
        Seq::empty()
    } else {
        let before = struct_samples(target, ts, fields.drop_last(), data);
        let f = fields.last();
        match reading_of(data, f.shape) {
            Some(value) if f.shape.offset + f.shape.size <= data.len() => before.push(
                SampleView {
                    target_id: target,
                    timestamp_ms: ts,
                    channel: f.channel,
                    value,
                    envelope: None,
                },
            ),
            _ => before,
        }
    }
}

/// The samples of the generic extraction: every plausible 32-bit float among the
/// first `n` words, with a synthetic channel name.
pub open spec fn generic_samples(
    target: Seq<char>,
    ts: u64,
    prefix: Seq<char>,
    data: Seq<u8>,
    n: nat,
) -> Seq<SampleView>
    decreases n,
{
    if n == 0 {
        Seq::empty()
    } else {
        let before = generic_samples(target, ts, prefix, data, (n - 1) as nat);
        let bits = crate::wire::u32_le_at(data, 4 * (n - 1));
        if plausible(bits) {
            before.push(
                SampleView {
                    target_id: target,
                    timestamp_ms: ts,
                    channel: prefix + ".field"@ + dec((n - 1) as nat),
                    value: Reading::F32(bits),
                    envelope: None,
                },
            )
        } else {
            before
        }
    }
}

/// The channel prefix of a component without a matching layout: its display
/// name, else its address.
pub open spec fn generic_prefix(names: Map<u32, Seq<char>>, uid: u32) -> Seq<char> {
    if names.contains_key(uid) {
        names[uid]
    } else {
        "0x"@ + hex_upper(uid as nat, 6)
    }
}

/// The samples of a packet.
pub open spec fn decoded(
    table: DecoderTable,
    target: Seq<char>,
    ts: u64,
    uid: u32,
    payload: Seq<u8>,
) -> Seq<SampleView> {
    match layout_for(table.layouts, uid, payload.len()) {
        Some(fields) => struct_samples(target, ts, fields, payload),
        None => generic_samples(
            target,
            ts,
            generic_prefix(table.names, uid),
            payload,
            payload.len() / 4,
        ),
    }
}

/// What a list of known components names.
pub open spec fn known_of(list: Seq<(u32, &str)>) -> Seq<(u32, Seq<char>)> {
    Seq::new(list.len(), |i: int| (list[i].0, list[i].1@))
}

/// Pre-built lookup table for decoding push telemetry using struct definitions.
///
/// Maps (fullUid, payload size) to the list of fields to emit, with their
/// channel names precomputed.
pub struct TelemetryDecoder {
    layouts: Vec<Layout>,
    claims: Vec<(u32, String)>,
    uid_names: HashMap<u32, Arc<String>>,
}

spec fn claim_views(list: Seq<(u32, String)>) -> Seq<(u32, Seq<char>)> {
    Seq::new(list.len(), |i: int| (list[i].0, list[i].1@))
}

spec fn name_views(m: Map<u32, Arc<String>>) -> Map<u32, Seq<char>> {
    m.map_values(|a: Arc<String>| a@)
}

impl View for TelemetryDecoder {
    type V = DecoderTable;

    closed spec fn view(&self) -> DecoderTable {
        DecoderTable {
            layouts: layout_views(self.layouts@),
            claims: claim_views(self.claims@),
            names: name_views(self.uid_names@),
        }
    }
}

fn push_of_priority<'a>(out: &mut Vec<&'a StructDef>, structs: &'a TextMap<StructDef>, prio: u8)
    ensures
        crate::param_update::referents(final(out)@) == crate::param_update::referents(old(out)@)
            + structs_of_priority(structs@, prio),
{
    let ghost start = crate::param_update::referents(out@);
    let n: usize = structs.len();
    assert(start + Seq::<StructDef>::empty() =~= start);
    for i in 0..n
        invariant
            n == structs@.len(),
            start == crate::param_update::referents(old(out)@),
            crate::param_update::referents(out@) == start + structs_of_priority(
                structs@.take(i as int),
                prio,
            ),
    {
        let (_, s) = structs.entry(i);
        assert(structs@.take(i + 1).drop_last() =~= structs@.take(i as int));
        let ghost prior = crate::param_update::referents(out@);
        if s.fields.len() > 0 && s.size > 0 && category_priority(s.category.as_str()) == prio {
            out.push(s);
            assert(crate::param_update::referents(out@) =~= prior.push(*s));
        }
        assert(crate::param_update::referents(out@) =~= start + structs_of_priority(
            structs@.take(i + 1),
            prio,
        ));
    }
    assert(structs@.take(n as int) =~= structs@);
}

fn push_candidates<'a>(
    out: &mut Vec<&'a StructDef>,
    dicts: &'a StructDictionary,
    name: &str,
    prio: u8,
)
    ensures
        crate::param_update::referents(final(out)@) == crate::param_update::referents(old(out)@)
            + candidates_of_priority(dicts.components@, name@, prio),
{
    let ghost start = crate::param_update::referents(out@);
    let ghost cs = dicts.components@;
    let n: usize = dicts.components.len();
    assert(start + Seq::<StructDef>::empty() =~= start);
    for c in 0..n
        invariant
            cs == dicts.components@,
            n == cs.len(),
            start == crate::param_update::referents(old(out)@),
            crate::param_update::referents(out@) == start + candidates_of_priority(
                cs.take(c as int),
                name@,
                prio,
            ),
    {
        let (_, dict) = dicts.components.entry(c);
        assert(cs.take(c + 1).drop_last() =~= cs.take(c as int));
        if component_names_match(dict.component.as_str(), name) {
            push_of_priority(out, &dict.structs, prio);
        }
        assert(crate::param_update::referents(out@) =~= start + candidates_of_priority(
            cs.take(c + 1),
            name@,
            prio,
        ));
    }
    assert(cs.take(n as int) =~= cs);
}

/// All candidate structs of a component, highest priority first.
fn collect_candidates<'a>(dicts: &'a StructDictionary, name: &str) -> (out: Vec<&'a StructDef>)
    ensures
        crate::param_update::referents(out@) == candidates(dicts.components@, name@, 4),
{
    let mut out: Vec<&'a StructDef> = Vec::new();
    push_candidates(&mut out, dicts, name, 4);
    push_candidates(&mut out, dicts, name, 3);
    push_candidates(&mut out, dicts, name, 2);
    push_candidates(&mut out, dicts, name, 1);
    push_candidates(&mut out, dicts, name, 0);
    proof {
        reveal_with_fuel(candidates, 5);
        assert(crate::param_update::referents(out@) =~= candidates(dicts.components@, name@, 4));
    }
    out
}

fn is_claimed(claims: &Vec<(u32, String)>, uid: u32, name: &str) -> (r: bool)
    ensures
        r == claim_views(claims@).contains((uid, name@)),
{
    for i in 0..claims.len()
        invariant
            forall|j: int| 0 <= j < i ==> claim_views(claims@)[j] != (uid, name@),
    {
        if claims[i].0 == uid && same_text(claims[i].1.as_str(), name) {
            assert(claim_views(claims@)[i as int] == (uid, name@));
            return true;
        }
    }
    false
}

fn channel_name(component: &str, field: &str) -> (t: String)
    ensures
        t@ == component@ + "."@ + field@,
{
    let mut t = component.to_owned();
    t.append(".");
    t.append(field);
    t
}

/// The emitted fields of a struct, and their names as claims.
fn emit_fields(
    claims: &Vec<(u32, String)>,
    uid: u32,
    component: &str,
    fields: &Vec<FieldDef>,
) -> (r: (Vec<CachedField>, Vec<(u32, String)>))
    ensures
        cached_views(r.0@) == emitted(claim_views(claims@), uid, component@, fields@),
        claim_views(r.1@) == emitted_claims(claim_views(claims@), uid, fields@),
{
    let ghost held = claim_views(claims@);
    let mut out: Vec<CachedField> = Vec::new();
    let mut names: Vec<(u32, String)> = Vec::new();
    assert(cached_views(out@) =~= Seq::empty());
    assert(claim_views(names@) =~= Seq::empty());
    for i in 0..fields.len()
        invariant
            held == claim_views(claims@),
            cached_views(out@) == emitted(held, uid, component@, fields@.take(i as int)),
            claim_views(names@) == emitted_claims(held, uid, fields@.take(i as int)),
    {
        let f = &fields[i];
        assert(fields@.take(i + 1).drop_last() =~= fields@.take(i as int));
        if emittable(f) && !is_claimed(claims, uid, f.name.as_str()) {
            let ghost prior = cached_views(out@);
            let ghost prior_names = claim_views(names@);
            let channel = Arc::new(channel_name(component, f.name.as_str()));
            let shape = FieldShape {
                kind: field_kind(f.field_type.as_str()),
                offset: f.offset,
                size: f.size,
            };
            out.push(CachedField { channel, shape });
            names.push((uid, f.name.clone()));
            assert(cached_views(out@) =~= prior.push(CachedView { channel: channel@, shape }));
            assert(claim_views(names@) =~= prior_names.push((uid, f.name@)));
        }
    }
    assert(fields@.take(fields@.len() as int) =~= fields@);
    (out, names)
}

fn size_taken(layouts: &Vec<Layout>, size: usize) -> (r: bool)
    ensures
        r == has_size(layout_views(layouts@), size),
{
    for i in 0..layouts.len()
        invariant
            forall|j: int| 0 <= j < i ==> (#[trigger] layout_views(layouts@)[j]).size != size,
    {
        if layouts[i].size == size {
            assert(layout_views(layouts@)[i as int].size == size);
            return true;
        }
    }
    false
}

impl TelemetryDecoder {
    /// Build the decoder lookup table from a struct dictionary plus a list of
    /// `(fullUid, component_name)` pairs from the manifest. Precomputes the
    /// channel name of every emittable field.
    pub fn new(dicts: &StructDictionary, known_components: &[(u32, &str)]) -> (d: Self)
        ensures
            d@ == table_of(dicts.components@, known_of(known_components@)),
    {
        let ghost known = known_of(known_components@);
        let mut d = TelemetryDecoder {
            layouts: Vec::new(),
            claims: Vec::new(),
            uid_names: HashMap::new(),
        };
        proof {
            assert(d@.layouts =~= Seq::empty());
            assert(d@.claims =~= Seq::empty());
            assert(d@.names =~= Map::empty());
        }
        for i in 0..known_components.len()
            invariant
                known == known_of(known_components@),
                d@ == table_of(dicts.components@, known.take(i as int)),
        {
            let (uid, component) = known_components[i];
            assert(known.take(i + 1).drop_last() =~= known.take(i as int));
            let ghost start = d@;
            let shared = Arc::new(component.to_owned());
            d.uid_names.insert(uid, shared);
            proof {
                assert(name_views(d.uid_names@) =~= start.names.insert(uid, component@));
            }
            d.learn(dicts, uid, component);
        }
        assert(known.take(known.len() as int) =~= known);
        d
    }

    /// Add one component's layouts.
    fn learn(&mut self, dicts: &StructDictionary, uid: u32, component: &str)
        ensures
            ({
                let own = component_layouts(
                    old(self)@.claims,
                    uid,
                    component@,
                    candidates(dicts.components@, base_name(component@), 4),
                );
                final(self)@ == (DecoderTable {
                    layouts: old(self)@.layouts + own.0,
                    claims: own.1,
                    names: old(self)@.names,
                })
            }),
    {
        let head = text_before(component, '#');
        let name = trim_text(head.as_str());
        let list = collect_candidates(dicts, name.as_str());
        let ghost all = crate::param_update::referents(list@);
        let ghost held = claim_views(self.claims@);
        let mut own: Vec<Layout> = Vec::new();
        assert(layout_views(own@) =~= Seq::empty());
        for i in 0..list.len()
            invariant
                all == crate::param_update::referents(list@),
                held == old(self)@.claims,
                self.layouts@ == old(self).layouts@,
                self.uid_names@ == old(self).uid_names@,
                layout_views(own@) == component_layouts(
                    held,
                    uid,
                    component@,
                    all.take(i as int),
                ).0,
                claim_views(self.claims@) == component_layouts(
                    held,
                    uid,
                    component@,
                    all.take(i as int),
                ).1,
        {
            let s = list[i];
            assert(all.take(i + 1).drop_last() =~= all.take(i as int));
            if !size_taken(&own, s.size) {
                let (fields, names) = emit_fields(&self.claims, uid, component, &s.fields);
                assert(cached_views(fields@).len() == fields@.len());
                if fields.len() > 0 {
                    let ghost prior = layout_views(own@);
                    let ghost prior_claims = claim_views(self.claims@);
                    let ghost shown = cached_views(fields@);
                    let ghost added = claim_views(names@);
                    own.push(Layout { uid, size: s.size, fields });
                    let mut names = names;
                    self.claims.append(&mut names);
                    assert(layout_views(own@) =~= prior.push(
                        LayoutView { uid, size: s.size, fields: shown },
                    ));
                    assert(claim_views(self.claims@) =~= prior_claims + added);
                }
            }
        }
        assert(all.take(all.len() as int) =~= all);
        let ghost mine = layout_views(own@);
        self.layouts.append(&mut own);
        assert(layout_views(self.layouts@) =~= old(self)@.layouts + mine);
    }

    /// The fields to emit for a payload.
    fn find_layout(&self, uid: u32, size: usize) -> (r: Option<&Vec<CachedField>>)
        ensures
            match r {
                Some(fields) => layout_for(self@.layouts, uid, size as nat) == Some(
                    cached_views(fields@),
                ),
                None => layout_for(self@.layouts, uid, size as nat) is None,
            },
    {
        let ghost all = self@.layouts;
        let mut i: usize = self.layouts.len();
        assert(all.take(all.len() as int) =~= all);
        while i > 0
            invariant
                i <= self.layouts@.len(),
                all == layout_views(self.layouts@),
                layout_for(all, uid, size as nat) == layout_for(all.take(i as int), uid, size as nat),
            decreases i,
        {
            i = i - 1;
            assert(all.take(i + 1).drop_last() =~= all.take(i as int));
            if self.layouts[i].uid == uid && self.layouts[i].size == size {
                return Some(&self.layouts[i].fields);
            }
        }
        None
    }

    /// Decode a push telemetry packet into named samples: with the component's
    /// layout for the payload's size where there is one, else by generic
    /// extraction.
    pub fn decode(&self, target_id: &Arc<String>, timestamp_ms: u64, pkt: &PushTelemetryPacket) -> (
    samples: Vec<TelemetrySample>)
        ensures
            sample_views(samples@) == decoded(
                self@,
                target_id@,
                timestamp_ms,
                pkt.full_uid,
                pkt.payload@,
            ),
    {
        match self.find_layout(pkt.full_uid, pkt.payload.len()) {
            Some(fields) => decode_with_struct(
                target_id,
                timestamp_ms,
                fields,
                pkt.payload.as_slice(),
            ),
            None => self.decode_generic(target_id, timestamp_ms, pkt),
        }
    }

    /// Generic extraction of 32-bit floats for unknown payloads.
    fn decode_generic(
        &self,
        target_id: &Arc<String>,
        timestamp_ms: u64,
        pkt: &PushTelemetryPacket,
    ) -> (samples: Vec<TelemetrySample>)
        ensures
            sample_views(samples@) == generic_samples(
                target_id@,
                timestamp_ms,
                generic_prefix(self@.names, pkt.full_uid),
                pkt.payload@,
                pkt.payload@.len() / 4,
            ),
    {
        let prefix: String = match self.uid_names.get(&pkt.full_uid) {
            Some(name) => name.as_str().to_owned(),
            None => {
                let mut t = "0x".to_owned();
                push_hex(&mut t, pkt.full_uid as u64, 6, true);
                t
            },
        };
        assert(prefix@ == generic_prefix(self@.names, pkt.full_uid));
        let data = pkt.payload.as_slice();
        let words: usize = data.len() / 4;
        let mut samples: Vec<TelemetrySample> = Vec::new();
        assert(sample_views(samples@) =~= Seq::empty());
        for idx in 0..words
            invariant
                words == data@.len() / 4,
                sample_views(samples@) == generic_samples(
                    target_id@,
                    timestamp_ms,
                    prefix@,
                    data@,
                    idx as nat,
                ),
        {
            assert(data@.len() == data.len());
            let bits: u32 = get_u32_le(data, idx * 4);
            if bits / 0x80_0000 % 0x100 != 0xFF && bits % 0x8000_0000 < PLAUSIBLE_LIMIT_BITS {
                let mut channel = prefix.clone();
                channel.append(".field");
                push_dec(&mut channel, idx as u64);
                let ghost prior = sample_views(samples@);
                let sample = TelemetrySample {
                    target_id: share(target_id),
                    timestamp_ms,
                    channel: Arc::new(channel),
                    value: Reading::F32(bits),
                    envelope: None,
                };
                samples.push(sample);
                assert(sample_views(samples@) =~= prior.push(sample@));
            }
        }
        samples
    }

    /// Every channel name the layouts can produce, in layout order.
    pub fn channel_names(&self) -> (out: Vec<String>)
        ensures
            texts(out@) == channels_of(self@.layouts),
    {
        let ghost all = self@.layouts;
        let mut out: Vec<String> = Vec::new();
        assert(texts(out@) =~= Seq::empty());
        for i in 0..self.layouts.len()
            invariant
                all == layout_views(self.layouts@),
                texts(out@) == channels_of(all.take(i as int)),
        {
            let fields = &self.layouts[i].fields;
            assert(all.take(i + 1).drop_last() =~= all.take(i as int));
            let ghost start = texts(out@);
            let ghost shown = cached_views(fields@);
            assert(start + field_channels(shown.take(0)) =~= start);
            for k in 0..fields.len()
                invariant
                    shown == cached_views(fields@),
                    texts(out@) == start + field_channels(shown.take(k as int)),
            {
                let ghost prior = texts(out@);
                out.push(fields[k].channel.as_str().to_owned());
                assert(texts(out@) =~= prior.push(shown[k as int].channel));
                assert(texts(out@) =~= start + field_channels(shown.take(k + 1)));
            }
            assert(shown.take(shown.len() as int) =~= shown);
        }
        assert(all.take(all.len() as int) =~= all);
        out
    }
}

/// The channel names of a list of fields.
pub open spec fn field_channels(fields: Seq<CachedView>) -> Seq<Seq<char>> {
    Seq::new(fields.len(), |i: int| fields[i].channel)
}

/// The channel names of all layouts, in order.
pub open spec fn channels_of(layouts: Seq<LayoutView>) -> Seq<Seq<char>>
    decreases layouts.len(),
{
    if layouts.len() == 0 {
        Seq::empty()
    } else {
        channels_of(layouts.drop_last()) + field_channels(layouts.last().fields)
    }
}

/// Decode using precomputed cached fields.
fn decode_with_struct(
    target_id: &Arc<String>,
    timestamp_ms: u64,
    cached: &Vec<CachedField>,
    data: &[u8],
) -> (samples: Vec<TelemetrySample>)
    ensures
        sample_views(samples@) == struct_samples(
            target_id@,
            timestamp_ms,
            cached_views(cached@),
            data@,
        ),
{
    let ghost all = cached_views(cached@);
    let mut samples: Vec<TelemetrySample> = Vec::new();
    assert(sample_views(samples@) =~= Seq::empty());
    for i in 0..cached.len()
        invariant
            all == cached_views(cached@),
            sample_views(samples@) == struct_samples(
                target_id@,
                timestamp_ms,
                all.take(i as int),
                data@,
            ),
    {
        assert(all.take(i + 1).drop_last() =~= all.take(i as int));
        let shape = cached[i].shape;
        if shape.size <= data.len() && shape.offset <= data.len() - shape.size {
            match decode_numeric(data, &shape) {
                Some(value) => {
                    let ghost prior = sample_views(samples@);
                    let sample = TelemetrySample {
                        target_id: share(target_id),
                        timestamp_ms,
                        channel: share(&cached[i].channel),
                        value,
                        envelope: None,
                    };
                    samples.push(sample);
                    assert(sample_views(samples@) =~= prior.push(sample@));
                },
                None => {},
            }
        }
    }
    assert(all.take(all.len() as int) =~= all);
    samples
}

// -------------------------------------------------------------------- router

/// Shortest time between two samples of a channel that are let through,
/// milliseconds (about 66 Hz).
pub const MIN_INTERVAL_MS: u64 = 15;

/// Whether a sample comes too soon after the last one of its channel that was
/// let through.
pub open spec fn too_soon(last: Seq<(Seq<char>, u64)>, channel: Seq<char>, ts: u64) -> bool {
    match lookup(last, channel) {
        Some(t) => ts < t + MIN_INTERVAL_MS,
        None => false,
    }
}

/// The samples of a run that are let through, and the last timestamp of each
/// channel afterwards.
pub open spec fn deduplicated(last: Seq<(Seq<char>, u64)>, samples: Seq<SampleView>) -> (
    Seq<SampleView>,
    Seq<(Seq<char>, u64)>,
)
    decreases samples.len(),
{
    if samples.len() == 0 {
        (Seq::empty(), last)
    } else {
        let before = deduplicated(last, samples.drop_last());
        let s = samples.last();
        if too_soon(before.1, s.channel, s.timestamp_ms) {
            before
        } else {
            (before.0.push(s), put(before.1, s.channel, s.timestamp_ms))
        }
    }
}

/// What a router knows: how to decode, and when each channel last had a sample.
pub struct RouterView {
    pub table: DecoderTable,
    pub last: Seq<(Seq<char>, u64)>,
}

/// Routes packets into samples, holding each channel to the minimum interval so
/// that several push sources cannot flood the database.
pub struct TelemetryRouter {
    decoder: TelemetryDecoder,
    last: TextMap<u64>,
}

impl View for TelemetryRouter {
    type V = RouterView;

    closed spec fn view(&self) -> RouterView {
        RouterView { table: self.decoder@, last: self.last@ }
    }
}

/// What came of one packet.
#[derive(Debug)]
pub struct Routed {
    /// The samples to pass on.
    pub samples: Vec<TelemetrySample>,
    /// How many samples the decoder produced.
    pub decoded: usize,
    /// How many of them came too soon.
    pub dropped: usize,
}

impl TelemetryRouter {
    /// A router for the components of a target.
    pub fn new(dicts: &StructDictionary, known_components: &[(u32, &str)]) -> (r: Self)
        ensures
            r@ == (RouterView {
                table: table_of(dicts.components@, known_of(known_components@)),
                last: Seq::empty(),
            }),
    {
        TelemetryRouter {
            decoder: TelemetryDecoder::new(dicts, known_components),
            last: TextMap::new(),
        }
    }

    /// Decode a packet received at `now_ms` and drop what comes too soon.
    pub fn route(&mut self, target_id: &Arc<String>, now_ms: u64, pkt: &PushTelemetryPacket) -> (r:
        Routed)
        ensures
            ({
                let all = decoded(old(self)@.table, target_id@, now_ms, pkt.full_uid, pkt.payload@);
                let kept = deduplicated(old(self)@.last, all);
                &&& sample_views(r.samples@) == kept.0
                &&& final(self)@ == (RouterView { table: old(self)@.table, last: kept.1 })
                &&& r.decoded == all.len()
                &&& r.dropped == all.len() - kept.0.len()
            }),
    {
        let samples = self.decoder.decode(target_id, now_ms, pkt);
        let ghost all = sample_views(samples@);
        let ghost given = samples@;
        let count: usize = samples.len();
        let mut kept: Vec<TelemetrySample> = Vec::new();
        assert(sample_views(kept@) =~= Seq::empty());
        assert(all.take(0) =~= Seq::empty());
        for sample in it: samples
            invariant
                it.seq() == given,
                all == sample_views(given),
                self.decoder == old(self).decoder,
                sample_views(kept@) == deduplicated(old(self)@.last, all.take(it.index())).0,
                self.last@ == deduplicated(old(self)@.last, all.take(it.index())).1,
                kept@.len() <= it.index(),
        {
            let ghost at = it.index();
            assert(all.take(at + 1).drop_last() =~= all.take(at));
            assert(all.take(at + 1).last() == sample@);
            let soon = match self.last.get(sample.channel.as_str()) {
                Some(t) => sample.timestamp_ms.saturating_sub(*t) < MIN_INTERVAL_MS,
                None => false,
            };
            if !soon {
                self.last.insert(sample.channel.as_str().to_owned(), sample.timestamp_ms);
                let ghost prior = sample_views(kept@);
                let ghost now = sample@;
                kept.push(sample);
                assert(sample_views(kept@) =~= prior.push(now));
            }
        }
        assert(all.take(all.len() as int) =~= all);
        assert(sample_views(kept@).len() == kept@.len());
        let dropped: usize = count - kept.len();
        Routed { samples: kept, decoded: count, dropped }
    }
}

// ---------------------------------------------------------------------- laws

/// Categories are preferred in the order OUTPUT, STATE, TELEMETRY,
/// TUNABLE_PARAM; every other category comes last.
pub proof fn category_order(category: Seq<char>)
    requires
        category != "OUTPUT"@,
        category != "STATE"@,
        category != "TELEMETRY"@,
        category != "TUNABLE_PARAM"@,
    ensures
        priority_of("OUTPUT"@) > priority_of("STATE"@),
        priority_of("STATE"@) > priority_of("TELEMETRY"@),
        priority_of("TELEMETRY"@) > priority_of("TUNABLE_PARAM"@),
        priority_of("TUNABLE_PARAM"@) > priority_of(category),
{
    reveal_strlit("OUTPUT");
    reveal_strlit("STATE");
    reveal_strlit("TELEMETRY");
    reveal_strlit("TUNABLE_PARAM");
    assert("OUTPUT"@.len() == 6 && "STATE"@.len() == 5 && "TELEMETRY"@.len() == 9
        && "TUNABLE_PARAM"@.len() == 13);
}

/// Whether claim `n` is that of a channel.
spec fn is_claim_of(
    claims: Seq<(u32, Seq<char>)>,
    uid: u32,
    component: Seq<char>,
    channel: Seq<char>,
    n: int,
) -> bool {
    0 <= n < claims.len() && claims[n].0 == uid && channel == component + "."@ + claims[n].1
}

/// Whether a channel's field name is among the claims.
spec fn has_claim(
    claims: Seq<(u32, Seq<char>)>,
    uid: u32,
    component: Seq<char>,
    channel: Seq<char>,
) -> bool {
    exists|n: int| is_claim_of(claims, uid, component, channel, n)
}

/// Whether every field of a layout has its name among the claims.
spec fn all_claimed(
    fields: Seq<CachedView>,
    claims: Seq<(u32, Seq<char>)>,
    uid: u32,
    component: Seq<char>,
) -> bool {
    forall|a: int|
        0 <= a < fields.len() ==> has_claim(claims, uid, component, (#[trigger] fields[a]).channel)
}

proof fn emitted_are_claimed(
    claims: Seq<(u32, Seq<char>)>,
    uid: u32,
    component: Seq<char>,
    fields: Seq<FieldDef>,
)
    ensures
        emitted(claims, uid, component, fields).len() == emitted_claims(claims, uid, fields).len(),
        forall|a: int|
            0 <= a < emitted(claims, uid, component, fields).len() ==> {
                &&& (#[trigger] emitted(claims, uid, component, fields)[a]).channel == component
                    + "."@ + emitted_claims(claims, uid, fields)[a].1
                &&& emitted_claims(claims, uid, fields)[a].0 == uid
                &&& !claims.contains(emitted_claims(claims, uid, fields)[a])
            },
    decreases fields.len(),
{
    if fields.len() > 0 {
        emitted_are_claimed(claims, uid, component, fields.drop_last());
        let before = emitted(claims, uid, component, fields.drop_last());
        let names = emitted_claims(claims, uid, fields.drop_last());
        assert forall|a: int| 0 <= a < emitted(claims, uid, component, fields).len() implies {
            &&& (#[trigger] emitted(claims, uid, component, fields)[a]).channel == component + "."@
                + emitted_claims(claims, uid, fields)[a].1
            &&& emitted_claims(claims, uid, fields)[a].0 == uid
            &&& !claims.contains(emitted_claims(claims, uid, fields)[a])
        } by {
            if a < before.len() {
                assert(before[a].channel == component + "."@ + names[a].1);
            }
        }
    }
}

proof fn same_channel_same_name(component: Seq<char>, a: Seq<char>, b: Seq<char>)
    requires
        component + "."@ + a == component + "."@ + b,
    ensures
        a == b,
{
    let x = component + "."@ + a;
    let n = (component + "."@).len() as int;
    assert(x.skip(n) =~= a);
    assert(x.skip(n) =~= b);
}

/// The layouts of a component never overlap: no two of them are for payloads of
/// one size, and no channel is emitted by two of them. A field that a struct of
/// higher priority emits is left out of every other.
pub proof fn layouts_do_not_overlap(
    claims: Seq<(u32, Seq<char>)>,
    uid: u32,
    component: Seq<char>,
    list: Seq<StructDef>,
)
    ensures
        ({
            let layouts = component_layouts(claims, uid, component, list).0;
            &&& forall|i: int, j: int|
                0 <= i < j < layouts.len() ==> (#[trigger] layouts[i]).size != (
                #[trigger] layouts[j]).size
            &&& forall|i: int, j: int, a: int, b: int|
                0 <= i < j < layouts.len() && 0 <= a < layouts[i].fields.len() && 0 <= b
                    < layouts[j].fields.len() ==> (#[trigger] layouts[i].fields[a]).channel != (
                #[trigger] layouts[j].fields[b]).channel
        }),
{
    layouts_stay_claimed(claims, uid, component, list);
}

proof fn layouts_stay_claimed(
    claims: Seq<(u32, Seq<char>)>,
    uid: u32,
    component: Seq<char>,
    list: Seq<StructDef>,
)
    ensures
        ({
            let (layouts, after) = component_layouts(claims, uid, component, list);
            &&& forall|i: int|
                0 <= i < layouts.len() ==> all_claimed(
                    (#[trigger] layouts[i]).fields,
                    after,
                    uid,
                    component,
                )
            &&& forall|i: int, j: int|
                0 <= i < j < layouts.len() ==> (#[trigger] layouts[i]).size != (
                #[trigger] layouts[j]).size
            &&& forall|i: int, j: int, a: int, b: int|
                0 <= i < j < layouts.len() && 0 <= a < layouts[i].fields.len() && 0 <= b
                    < layouts[j].fields.len() ==> (#[trigger] layouts[i].fields[a]).channel != (
                #[trigger] layouts[j].fields[b]).channel
        }),
    decreases list.len(),
{
    if list.len() > 0 {
        layouts_stay_claimed(claims, uid, component, list.drop_last());
        let (old_layouts, held) = component_layouts(claims, uid, component, list.drop_last());
        let (layouts, after) = component_layouts(claims, uid, component, list);
        let s = list.last();
        let fields = emitted(held, uid, component, s.fields@);
        let names = emitted_claims(held, uid, s.fields@);
        if !(has_size(old_layouts, s.size) || fields.len() == 0) {
            emitted_are_claimed(held, uid, component, s.fields@);
            let n = old_layouts.len() as int;
            assert forall|i: int| 0 <= i < layouts.len() implies all_claimed(
                (#[trigger] layouts[i]).fields,
                after,
                uid,
                component,
            ) by {
                assert forall|a: int| 0 <= a < layouts[i].fields.len() implies has_claim(
                    after,
                    uid,
                    component,
                    (#[trigger] layouts[i].fields[a]).channel,
                ) by {
                    let channel = layouts[i].fields[a].channel;
                    if i < n {
                        assert(all_claimed(old_layouts[i].fields, held, uid, component));
                        assert(has_claim(held, uid, component, old_layouts[i].fields[a].channel));
                        let k = choose|k: int| is_claim_of(held, uid, component, channel, k);
                        assert(after[k] == held[k]);
                        assert(is_claim_of(after, uid, component, channel, k));
                    } else {
                        assert(fields[a].channel == component + "."@ + names[a].1);
                        assert(after[held.len() + a] == names[a]);
                        assert(is_claim_of(after, uid, component, channel, held.len() + a));
                    }
                }
            }
            assert forall|i: int, j: int, a: int, b: int|
                0 <= i < j < layouts.len() && 0 <= a < layouts[i].fields.len() && 0 <= b
                    < layouts[j].fields.len() implies (#[trigger] layouts[i].fields[a]).channel
                != (#[trigger] layouts[j].fields[b]).channel by {
                if j < n {
                    assert(old_layouts[i].fields[a].channel != old_layouts[j].fields[b].channel);
                } else {
                    assert(all_claimed(old_layouts[i].fields, held, uid, component));
                    assert(has_claim(held, uid, component, old_layouts[i].fields[a].channel));
                    let k = choose|k: int|
                        is_claim_of(held, uid, component, old_layouts[i].fields[a].channel, k);
                    assert(fields[b].channel == component + "."@ + names[b].1);
                    if layouts[i].fields[a].channel == layouts[j].fields[b].channel {
                        same_channel_same_name(component, held[k].1, names[b].1);
                        assert(held[k] == names[b]);
                        assert(held.contains(names[b]));
                    }
                }
            }
        }
    }
}

/// Whether a reading is a number: not an infinity, not a not-a-number.
pub open spec fn is_finite(r: Reading) -> bool {
    match r {
        Reading::F32(bits) => finite32(bits),
        Reading::F64(bits) => finite64(bits),
        _ => true,
    }
}

/// Whatever a packet holds, every sample decoded from it is a finite number,
/// stamped with the target and the time of the packet.
pub proof fn samples_are_finite_and_stamped(
    table: DecoderTable,
    target: Seq<char>,
    ts: u64,
    uid: u32,
    payload: Seq<u8>,
)
    ensures
        forall|i: int|
            0 <= i < decoded(table, target, ts, uid, payload).len() ==> {
                let s = #[trigger] decoded(table, target, ts, uid, payload)[i];
                is_finite(s.value) && s.target_id == target && s.timestamp_ms == ts
                    && s.envelope is None
            },
{
    match layout_for(table.layouts, uid, payload.len()) {
        Some(fields) => struct_samples_are_finite(target, ts, fields, payload),
        None => generic_samples_are_finite(
            target,
            ts,
            generic_prefix(table.names, uid),
            payload,
            payload.len() / 4,
        ),
    }
}

proof fn struct_samples_are_finite(
    target: Seq<char>,
    ts: u64,
    fields: Seq<CachedView>,
    data: Seq<u8>,
)
    ensures
        forall|i: int|
            0 <= i < struct_samples(target, ts, fields, data).len() ==> {
                let s = #[trigger] struct_samples(target, ts, fields, data)[i];
                is_finite(s.value) && s.target_id == target && s.timestamp_ms == ts
                    && s.envelope is None
            },
    decreases fields.len(),
{
    if fields.len() > 0 {
        struct_samples_are_finite(target, ts, fields.drop_last(), data);
    }
}

proof fn generic_samples_are_finite(
    target: Seq<char>,
    ts: u64,
    prefix: Seq<char>,
    data: Seq<u8>,
    n: nat,
)
    ensures
        forall|i: int|
            0 <= i < generic_samples(target, ts, prefix, data, n).len() ==> {
                let s = #[trigger] generic_samples(target, ts, prefix, data, n)[i];
                is_finite(s.value) && s.target_id == target && s.timestamp_ms == ts
                    && s.envelope is None
            },
    decreases n,
{
    if n > 0 {
        generic_samples_are_finite(target, ts, prefix, data, (n - 1) as nat);
    }
}

/// The samples of a channel that are let through keep their distance: of any
/// two, the later one's timestamp is at least the minimum interval after the
/// earlier one's.
pub proof fn channels_keep_their_distance(
    last: Seq<(Seq<char>, u64)>,
    samples: Seq<SampleView>,
    i: int,
    j: int,
)
    requires
        0 <= i < j < deduplicated(last, samples).0.len(),
        deduplicated(last, samples).0[i].channel == deduplicated(last, samples).0[j].channel,
    ensures
        deduplicated(last, samples).0[i].timestamp_ms + MIN_INTERVAL_MS <= deduplicated(
            last,
            samples,
        ).0[j].timestamp_ms,
    decreases samples.len(),
{
    let kept = deduplicated(last, samples).0;
    let before = deduplicated(last, samples.drop_last());
    if j < before.0.len() {
        assert(before.0[i] == kept[i] && before.0[j] == kept[j]);
        channels_keep_their_distance(last, samples.drop_last(), i, j);
    } else {
        latest_is_remembered(last, samples.drop_last(), i);
        assert(before.0[i] == kept[i]);
    }
}

/// Every sample let through is no later than what is remembered of its channel.
proof fn latest_is_remembered(last: Seq<(Seq<char>, u64)>, samples: Seq<SampleView>, i: int)
    requires
        0 <= i < deduplicated(last, samples).0.len(),
    ensures
        ({
            let (kept, after) = deduplicated(last, samples);
            lookup(after, kept[i].channel) matches Some(t) && kept[i].timestamp_ms <= t
        }),
    decreases samples.len(),
{
    let (kept, after) = deduplicated(last, samples);
    let before = deduplicated(last, samples.drop_last());
    let s = samples.last();
    if too_soon(before.1, s.channel, s.timestamp_ms) {
        latest_is_remembered(last, samples.drop_last(), i);
    } else {
        crate::text_map::put_then_lookup(
            before.1,
            s.channel,
            s.timestamp_ms,
            kept[i].channel,
        );
        if i < before.0.len() {
            assert(before.0[i] == kept[i]);
            latest_is_remembered(last, samples.drop_last(), i);
        }
    }
}

// ------------------------------------------------------- what a sample stands for

/// Half of what a signed field of `size` bytes can hold.
pub open spec fn half_range(size: usize) -> int {
    if size == 1 {
        0x80
    } else if size == 2 {
        0x8000
    } else {
        0x8000_0000
    }
}

/// Whether a reading is the value of the bytes of a field, least significant first: the
/// number they stand for; for a signed field the number that differs from it by a
/// multiple of the field's range and lies in the signed half of it; for a
/// floating-point field the bit pattern; for a boolean one whether it is not zero.
pub open spec fn is_value_of(value: Reading, data: Seq<u8>, f: FieldShape) -> bool {
    let number = crate::wire::le_value(data, f.offset as int, f.size as nat) as int;
    match value {
        Reading::UInt(v) => f.kind == FieldKind::UInt && v == number,
        Reading::Int(v) => {
            &&& f.kind == FieldKind::Int
            &&& -half_range(f.size) <= v < half_range(f.size)
            &&& v == number || v == number - 2 * half_range(f.size)
        },
        Reading::F32(bits) => f.kind == FieldKind::Float && f.size == 4 && bits == number,
        Reading::F64(bits) => f.kind == FieldKind::Float && f.size == 8 && bits == number,
        Reading::Bool(b) => f.kind == FieldKind::Bool && b == (number != 0),
    }
}

/// Whether the bytes of a field have a value: an unsigned field of 1, 2, 4 or 8 bytes, a
/// signed one of 1, 2 or 4, a boolean one of 1, and a floating-point one of 4 or 8 whose
/// magnitude is below that of infinity.
pub open spec fn has_value(data: Seq<u8>, f: FieldShape) -> bool {
    let number = crate::wire::le_value(data, f.offset as int, f.size as nat);
    match f.kind {
        FieldKind::UInt => f.size == 1 || f.size == 2 || f.size == 4 || f.size == 8,
        FieldKind::Int => f.size == 1 || f.size == 2 || f.size == 4,
        FieldKind::Bool => f.size == 1,
        FieldKind::Float => (f.size == 4 && number % 0x8000_0000 < 0x7F80_0000) || (f.size == 8
            && number % 0x8000_0000_0000_0000 < 0x7FF0_0000_0000_0000),
        _ => false,
    }
}

/// A field is read as the number that all of its bytes stand for, for every kind and
/// size that has a reading, and every other field has none.
pub proof fn readings_are_the_numbers_of_the_bytes(data: Seq<u8>, f: FieldShape)
    ensures
        match reading_of(data, f) {
            Some(value) => has_value(data, f) && is_value_of(value, data, f),
            None => !has_value(data, f),
        },
        forall|a: Reading, b: Reading|
            is_value_of(a, data, f) && is_value_of(b, data, f) && has_value(data, f) ==> a == b,
{
    crate::wire::words_are_the_numbers_of_their_bytes(data, f.offset as int);
    finite_patterns(
        crate::wire::u32_le_at(data, f.offset as int),
        crate::wire::u64_le_at(data, f.offset as int),
    );
}

/// A bit pattern is that of a finite number if and only if its magnitude is below that
/// of infinity.
pub proof fn finite_patterns(single: u32, double: u64)
    ensures
        finite32(single) <==> single % 0x8000_0000 < 0x7F80_0000,
        finite64(double) <==> double % 0x8000_0000_0000_0000 < 0x7FF0_0000_0000_0000,
{
}

/// Telemetry reads a field to the number that the parameter encoder wrote into it: an
/// unsigned number modulo the field's range, a signed one that fits its field as it is,
/// a finite floating-point one bit for bit.
pub proof fn telemetry_reads_what_was_written(
    buf: Seq<u8>,
    f: FieldDef,
    n: crate::json::Number,
)
    requires
        crate::params::encodable(buf.len(), 0, f, crate::json::Json::Num(n)),
    ensures
        ({
            let data = crate::params::encoded_into(buf, 0, f, crate::json::Json::Num(n));
            let read = reading_of(data, shape_of(f));
            &&& kind_of(f.field_type@) == FieldKind::UInt ==> read == Some(
                Reading::UInt(
                    (n.unsigned()->0 as nat % crate::params::capacity(f.size)) as u64,
                ),
            )
            &&& kind_of(f.field_type@) == FieldKind::Int && crate::params::fits_signed(
                n.signed()->0,
                f.size,
            ) ==> read == Some(Reading::Int(n.signed()->0))
            &&& kind_of(f.field_type@) == FieldKind::Float && f.size == 4 && n.f32_bits
                % 0x8000_0000 < 0x7F80_0000 ==> read == Some(Reading::F32(n.f32_bits))
            &&& kind_of(f.field_type@) == FieldKind::Float && f.size == 8 && n.f64_bits
                % 0x8000_0000_0000_0000 < 0x7FF0_0000_0000_0000 ==> read == Some(
                Reading::F64(n.f64_bits),
            )
            &&& kind_of(f.field_type@) == FieldKind::Bool ==> read == Some(
                Reading::Bool(n.unsigned()->0 % 256 != 0),
            )
        }),
{
    let value = crate::json::Json::Num(n);
    let data = crate::params::encoded_into(buf, 0, f, value);
    let kind = kind_of(f.field_type@);
    let at = f.offset as int;
    let shape = shape_of(f);
    if kind == FieldKind::UInt || kind == FieldKind::Int || kind == FieldKind::Float || kind
        == FieldKind::Bool {
        let b = crate::params::value_bytes(f, value)->0;
        crate::params::numbers_are_written_as_themselves(kind, f.size, value);
        crate::params::written_fits_its_field(f, value);
        assert(data =~= buf.take(at) + b + buf.skip(at + b.len()));
        crate::wire::same_bytes_same_number(data, at, b, 0, f.size as nat);
        let number = crate::wire::le_value(data, at, f.size as nat) as int;
        readings_are_the_numbers_of_the_bytes(data, shape);
        if kind == FieldKind::Int && crate::params::fits_signed(n.signed()->0, f.size) {
            let v = n.signed()->0 as int;
            let c = crate::params::capacity(f.size) as int;
            assert(number == v % c);
            if v < 0 {
                assert(number == v + c) by {
                    vstd::arithmetic::div_mod::lemma_fundamental_div_mod_converse(v, c, -1, v + c);
                }
            } else {
                vstd::arithmetic::div_mod::lemma_small_mod(v as nat, c as nat);
            }
            assert(is_value_of(Reading::Int(n.signed()->0), data, shape));
        }
        if kind == FieldKind::UInt {
            assert(is_value_of(reading_of(data, shape)->0, data, shape));
        }
        if kind == FieldKind::Bool {
            assert(crate::params::capacity(f.size) == 256);
        }
    }
}

/// Whether a sample is that of a field of a payload.
pub open spec fn is_sample_of(
    s: SampleView,
    f: CachedView,
    target: Seq<char>,
    ts: u64,
    data: Seq<u8>,
) -> bool {
    &&& s.target_id == target
    &&& s.timestamp_ms == ts
    &&& s.channel == f.channel
    &&& is_value_of(s.value, data, f.shape)
    &&& s.envelope is None
}

/// Whether a field of a layout is in a payload and has a value there.
pub open spec fn is_read(f: CachedView, data: Seq<u8>) -> bool {
    f.shape.offset + f.shape.size <= data.len() && has_value(data, f.shape)
}

/// A payload decoded with a layout gives exactly the values of its fields: every field
/// that lies within the payload and has a value there gives a sample under the field's
/// channel, with the number that the field's bytes stand for; every sample is that of
/// such a field; and the samples come in the order of the fields.
pub proof fn samples_are_the_values_of_the_fields(
    table: DecoderTable,
    target: Seq<char>,
    ts: u64,
    uid: u32,
    payload: Seq<u8>,
    fields: Seq<CachedView>,
)
    requires
        layout_for(table.layouts, uid, payload.len()) == Some(fields),
    ensures
        ({
            let samples = decoded(table, target, ts, uid, payload);
            exists|from: Seq<int>| #[trigger]
                are_samples_of(samples, from, fields, target, ts, payload)
        }),
{
    let from = fields_read(fields, payload);
    sources_match(target, ts, fields, payload);
    assert(are_samples_of(
        decoded(table, target, ts, uid, payload),
        from,
        fields,
        target,
        ts,
        payload,
    ));
}

/// Whether `from` says, for each sample, which field it is of: every field that is read
/// once, in order, and no other.
pub open spec fn are_samples_of(
    samples: Seq<SampleView>,
    from: Seq<int>,
    fields: Seq<CachedView>,
    target: Seq<char>,
    ts: u64,
    data: Seq<u8>,
) -> bool {
    &&& from.len() == samples.len()
    &&& forall|j: int|
        0 <= j < from.len() ==> {
            &&& 0 <= #[trigger] from[j] < fields.len()
            &&& is_read(fields[from[j]], data)
            &&& is_sample_of(samples[j], fields[from[j]], target, ts, data)
        }
    &&& forall|j: int, k: int| 0 <= j < k < from.len() ==> #[trigger] from[j] < #[trigger] from[k]
    &&& forall|i: int|
        0 <= i < fields.len() && is_read(#[trigger] fields[i], data) ==> from.contains(i)
}

/// The places of the fields that are read.
spec fn fields_read(fields: Seq<CachedView>, data: Seq<u8>) -> Seq<int>
    decreases fields.len(),
{
    if fields.len() == 0 {
        Seq::empty()
    } else if is_read(fields.last(), data) {
        fields_read(fields.drop_last(), data).push(fields.len() - 1)
    } else {
        fields_read(fields.drop_last(), data)
    }
}

proof fn sources_match(target: Seq<char>, ts: u64, fields: Seq<CachedView>, data: Seq<u8>)
    ensures
        are_samples_of(
            struct_samples(target, ts, fields, data),
            fields_read(fields, data),
            fields,
            target,
            ts,
            data,
        ),
    decreases fields.len(),
{
    if fields.len() > 0 {
        let front = fields.drop_last();
        sources_match(target, ts, front, data);
        let last = fields.last();
        readings_are_the_numbers_of_the_bytes(data, last.shape);
        let before = fields_read(front, data);
        let from = fields_read(fields, data);
        let samples = struct_samples(target, ts, fields, data);
        let prior = struct_samples(target, ts, front, data);
        assert forall|j: int| 0 <= j < from.len() implies {
            &&& 0 <= #[trigger] from[j] < fields.len()
            &&& is_read(fields[from[j]], data)
            &&& is_sample_of(samples[j], fields[from[j]], target, ts, data)
        } by {
            if j < before.len() {
                assert(from[j] == before[j]);
                assert(front[before[j]] == fields[before[j]]);
                assert(samples[j] == prior[j]);
            }
        }
        assert forall|i: int| 0 <= i < fields.len() && is_read(#[trigger] fields[i], data) implies
            from.contains(i) by {
            if i < front.len() {
                assert(front[i] == fields[i]);
                assert(before.contains(i));
                let j = choose|j: int| 0 <= j < before.len() && before[j] == i;
                assert(from[j] == i);
            } else {
                assert(from[from.len() - 1] == i);
            }
        }
        assert forall|j: int, k: int| 0 <= j < k < from.len() implies #[trigger] from[j]
            < #[trigger] from[k] by {
            assert(from[j] == before[j]);
            if k < before.len() {
                assert(from[k] == before[k]);
            }
        }
    }
}

/// A payload without a layout gives its plausible floats: word `i` gives a sample, named
/// after the component and the word's index, if and only if the bits that its four bytes
/// stand for are those of a number of magnitude below ten to the twelfth; the samples
/// come in the order of the words.
pub proof fn unknown_payloads_give_their_floats(
    table: DecoderTable,
    target: Seq<char>,
    ts: u64,
    uid: u32,
    payload: Seq<u8>,
)
    requires
        layout_for(table.layouts, uid, payload.len()) is None,
    ensures
        ({
            let samples = decoded(table, target, ts, uid, payload);
            exists|from: Seq<int>| #[trigger]
                are_floats_of(
                    samples,
                    from,
                    generic_prefix(table.names, uid),
                    payload,
                    (payload.len() / 4) as int,
                )
        }),
{
    let prefix = generic_prefix(table.names, uid);
    let from = words_read(payload, payload.len() / 4);
    words_match(target, ts, prefix, payload, payload.len() / 4);
    assert(are_floats_of(
        decoded(table, target, ts, uid, payload),
        from,
        prefix,
        payload,
        (payload.len() / 4) as int,
    ));
}

/// Whether word `i` of a payload is a plausible float.
pub open spec fn is_plausible_word(data: Seq<u8>, i: int) -> bool {
    crate::wire::le_value(data, 4 * i, 4) % 0x8000_0000 < 0x5368_D4A5
}

/// Whether `from` says, for each sample, which of the first `n` words it is of: every
/// plausible one once, in order, and no other.
pub open spec fn are_floats_of(
    samples: Seq<SampleView>,
    from: Seq<int>,
    prefix: Seq<char>,
    data: Seq<u8>,
    n: int,
) -> bool {
    &&& from.len() == samples.len()
    &&& forall|j: int|
        0 <= j < from.len() ==> {
            &&& 0 <= #[trigger] from[j] < n
            &&& is_plausible_word(data, from[j])
            &&& samples[j].channel == prefix + ".field"@ + dec(from[j] as nat)
            &&& samples[j].value == Reading::F32(crate::wire::le_value(data, 4 * from[j], 4) as u32)
        }
    &&& forall|j: int, k: int| 0 <= j < k < from.len() ==> #[trigger] from[j] < #[trigger] from[k]
    &&& forall|i: int| 0 <= i < n && #[trigger] is_plausible_word(data, i) ==> from.contains(i)
}

/// The places of the plausible words among the first `n`.
spec fn words_read(data: Seq<u8>, n: nat) -> Seq<int>
    decreases n,
{
    if n == 0 {
        Seq::empty()
    } else if is_plausible_word(data, n - 1) {
        words_read(data, (n - 1) as nat).push(n - 1)
    } else {
        words_read(data, (n - 1) as nat)
    }
}

proof fn words_match(target: Seq<char>, ts: u64, prefix: Seq<char>, data: Seq<u8>, n: nat)
    ensures
        are_floats_of(
            generic_samples(target, ts, prefix, data, n),
            words_read(data, n),
            prefix,
            data,
            n as int,
        ),
    decreases n,
{
    if n > 0 {
        let m = (n - 1) as nat;
        words_match(target, ts, prefix, data, m);
        crate::wire::words_are_the_numbers_of_their_bytes(data, 4 * (n - 1));
        let before = words_read(data, m);
        let from = words_read(data, n);
        let samples = generic_samples(target, ts, prefix, data, n);
        let prior = generic_samples(target, ts, prefix, data, m);
        let bits = crate::wire::u32_le_at(data, 4 * (n - 1));
        assert(plausible(bits) == is_plausible_word(data, n - 1));
        assert forall|j: int| 0 <= j < from.len() implies {
            &&& 0 <= #[trigger] from[j] < n
            &&& is_plausible_word(data, from[j])
            &&& samples[j].channel == prefix + ".field"@ + dec(from[j] as nat)
            &&& samples[j].value == Reading::F32(crate::wire::le_value(data, 4 * from[j], 4) as u32)
        } by {
            if j < before.len() {
                assert(from[j] == before[j]);
                assert(samples[j] == prior[j]);
            }
        }
        assert forall|i: int| 0 <= i < n && #[trigger] is_plausible_word(data, i) implies
            from.contains(i) by {
            if i < n - 1 {
                assert(before.contains(i));
                let j = choose|j: int| 0 <= j < before.len() && before[j] == i;
                assert(from[j] == i);
            } else {
                assert(from[from.len() - 1] == i);
            }
        }
        assert forall|j: int, k: int| 0 <= j < k < from.len() implies #[trigger] from[j]
            < #[trigger] from[k] by {
            assert(from[j] == before[j]);
            if k < before.len() {
                assert(from[k] == before[k]);
            }
        }
    }
}

// ------------------------------------------------------- where a layout comes from

/// Whether a field of a dictionary is one that telemetry shows: a number, not an array
/// or a string, not padding, nothing reserved, nothing empty.
pub open spec fn is_shown(f: FieldDef) -> bool {
    &&& f.field_type@ != "array"@
    &&& f.field_type@ != "string"@
    &&& f.size > 0
    &&& !(f.name@.len() >= 3 && f.name@.take(3) == "pad"@)
    &&& !(f.name@.len() >= 8 && f.name@.take(8) == "reserved"@)
}

/// Whether an emitted field is field `b` of a list: named after the component and the
/// field, with the field's offset and size and the kind that its type name stands for.
pub open spec fn is_from(v: CachedView, component: Seq<char>, fields: Seq<FieldDef>, b: int) -> bool {
    &&& 0 <= b < fields.len()
    &&& is_shown(fields[b])
    &&& v.channel == component + "."@ + fields[b].name@
    &&& v.shape.offset == fields[b].offset
    &&& v.shape.size == fields[b].size
    &&& v.shape.kind == kind_of(fields[b].field_type@)
}

/// Whether every field of a layout is a field of a struct of its size.
pub open spec fn is_layout_of(l: LayoutView, uid: u32, component: Seq<char>, s: StructDef) -> bool {
    &&& l.uid == uid
    &&& l.size == s.size
    &&& l.fields.len() > 0
    &&& forall|a: int| 0 <= a < l.fields.len() ==> is_among(#[trigger] l.fields[a], component, s.fields@)
}

/// Whether an emitted field is one of a list.
pub open spec fn is_among(v: CachedView, component: Seq<char>, fields: Seq<FieldDef>) -> bool {
    exists|b: int| #[trigger] is_from(v, component, fields, b)
}

/// Whether a layout is that of a struct of a list.
pub open spec fn is_layout_among(
    l: LayoutView,
    uid: u32,
    component: Seq<char>,
    list: Seq<StructDef>,
) -> bool {
    exists|m: int| 0 <= m < list.len() && is_layout_of(l, uid, component, #[trigger] list[m])
}

proof fn shown_is_emittable(f: FieldDef)
    ensures
        is_shown(f) == is_emittable(f),
{
    reveal_strlit("pad");
    reveal_strlit("reserved");
    if f.name@.len() >= 3 {
        assert(f.name@.subrange(0, 3) =~= f.name@.take(3));
    }
    if f.name@.len() >= 8 {
        assert(f.name@.subrange(0, 8) =~= f.name@.take(8));
    }
}

proof fn emitted_come_from_fields(
    claims: Seq<(u32, Seq<char>)>,
    uid: u32,
    component: Seq<char>,
    fields: Seq<FieldDef>,
)
    ensures
        forall|a: int|
            0 <= a < emitted(claims, uid, component, fields).len() ==> is_among(
                #[trigger] emitted(claims, uid, component, fields)[a],
                component,
                fields,
            ),
        forall|b: int|
            0 <= b < fields.len() && is_shown(#[trigger] fields[b]) && !claims.contains(
                (uid, fields[b].name@),
            ) ==> exists|a: int|
                0 <= a < emitted(claims, uid, component, fields).len() && is_from(
                    #[trigger] emitted(claims, uid, component, fields)[a],
                    component,
                    fields,
                    b,
                ),
    decreases fields.len(),
{
    if fields.len() > 0 {
        let front = fields.drop_last();
        emitted_come_from_fields(claims, uid, component, front);
        let before = emitted(claims, uid, component, front);
        let all = emitted(claims, uid, component, fields);
        let f = fields.last();
        shown_is_emittable(f);
        assert forall|a: int| 0 <= a < all.len() implies is_among(
            #[trigger] all[a],
            component,
            fields,
        ) by {
            if a < before.len() {
                assert(all[a] == before[a]);
                assert(is_among(before[a], component, front));
                let b = choose|b: int| #[trigger] is_from(before[a], component, front, b);
                assert(front[b] == fields[b]);
                assert(is_from(all[a], component, fields, b));
            } else {
                assert(is_from(all[a], component, fields, fields.len() - 1));
            }
        }
        assert forall|b: int|
            0 <= b < fields.len() && is_shown(#[trigger] fields[b]) && !claims.contains(
                (uid, fields[b].name@),
            ) implies exists|a: int|
            0 <= a < all.len() && is_from(#[trigger] all[a], component, fields, b) by {
            if b < front.len() {
                assert(front[b] == fields[b]);
                let a = choose|a: int|
                    0 <= a < before.len() && is_from(#[trigger] before[a], component, front, b);
                assert(all[a] == before[a]);
                assert(is_from(all[a], component, fields, b));
            } else {
                assert(is_from(all[before.len() as int], component, fields, b));
            }
        }
    }
}

/// Every layout of a component is that of one of its candidate structs: it is for
/// payloads of the struct's size, and each of its fields is a field of the struct that
/// telemetry shows, at its offset, under the component's name.
pub proof fn layouts_are_those_of_structs(
    claims: Seq<(u32, Seq<char>)>,
    uid: u32,
    component: Seq<char>,
    list: Seq<StructDef>,
)
    ensures
        ({
            let layouts = component_layouts(claims, uid, component, list).0;
            forall|i: int|
                0 <= i < layouts.len() ==> is_layout_among(
                    #[trigger] layouts[i],
                    uid,
                    component,
                    list,
                )
        }),
    decreases list.len(),
{
    if list.len() > 0 {
        let front = list.drop_last();
        layouts_are_those_of_structs(claims, uid, component, front);
        let (before, held) = component_layouts(claims, uid, component, front);
        let layouts = component_layouts(claims, uid, component, list).0;
        let s = list.last();
        emitted_come_from_fields(held, uid, component, s.fields@);
        assert forall|i: int| 0 <= i < layouts.len() implies is_layout_among(
            #[trigger] layouts[i],
            uid,
            component,
            list,
        ) by {
            if i < before.len() {
                assert(layouts[i] == before[i]);
                assert(is_layout_among(before[i], uid, component, front));
                let m = choose|m: int|
                    0 <= m < front.len() && is_layout_of(
                        before[i],
                        uid,
                        component,
                        #[trigger] front[m],
                    );
                assert(list[m] == front[m]);
            } else {
                assert(is_layout_of(layouts[i], uid, component, list[list.len() - 1]));
            }
        }
    }
}

/// The preferred struct of a component is decoded whole: unless another component has
/// taken their names, all the fields of the first candidate that telemetry shows are in
/// the component's layout for payloads of its size.
pub proof fn preferred_struct_is_decoded_whole(
    claims: Seq<(u32, Seq<char>)>,
    uid: u32,
    component: Seq<char>,
    list: Seq<StructDef>,
    b: int,
)
    requires
        list.len() > 0,
        0 <= b < list[0].fields@.len(),
        is_shown(list[0].fields@[b]),
        forall|k: int| 0 <= k < claims.len() ==> (#[trigger] claims[k]).0 != uid,
    ensures
        ({
            let layouts = component_layouts(claims, uid, component, list).0;
            &&& layouts.len() > 0
            &&& layouts[0].size == list[0].size
            &&& exists|a: int|
                0 <= a < layouts[0].fields.len() && is_from(
                    #[trigger] layouts[0].fields[a],
                    component,
                    list[0].fields@,
                    b,
                )
        }),
    decreases list.len(),
{
    let front = list.drop_last();
    let (before, held) = component_layouts(claims, uid, component, front);
    if list.len() == 1 {
        let s = list[0];
        assert(list.last() == s);
        assert(before =~= Seq::empty() && held == claims);
        assert(!claims.contains((uid, s.fields@[b].name@)));
        emitted_come_from_fields(claims, uid, component, s.fields@);
        let e = emitted(claims, uid, component, s.fields@);
        let a = choose|a: int|
            0 <= a < e.len() && is_from(#[trigger] e[a], component, s.fields@, b);
        assert(component_layouts(claims, uid, component, list).0[0].fields == e);
    } else {
        assert(front[0] == list[0]);
        preferred_struct_is_decoded_whole(claims, uid, component, front, b);
        assert(component_layouts(claims, uid, component, list).0[0] == before[0]);
    }
}

/// Whether a layout of a list has a field under a channel.
pub open spec fn shows(layouts: Seq<LayoutView>, channel: Seq<char>) -> bool {
    exists|i: int, a: int|
        0 <= i < layouts.len() && 0 <= a < layouts[i].fields.len()
            && #[trigger] layouts[i].fields[a].channel == channel
}

/// Every name that a component's layouts have taken is shown by one of them.
proof fn claims_are_shown(
    claims: Seq<(u32, Seq<char>)>,
    uid: u32,
    component: Seq<char>,
    list: Seq<StructDef>,
    name: Seq<char>,
)
    ensures
        ({
            let (layouts, after) = component_layouts(claims, uid, component, list);
            after.contains((uid, name)) ==> claims.contains((uid, name)) || shows(
                layouts,
                component + "."@ + name,
            )
        }),
    decreases list.len(),
{
    let (layouts, after) = component_layouts(claims, uid, component, list);
    if list.len() > 0 && after.contains((uid, name)) {
        let front = list.drop_last();
        let (before, held) = component_layouts(claims, uid, component, front);
        claims_are_shown(claims, uid, component, front, name);
        let channel = component + "."@ + name;
        if held.contains((uid, name)) {
            if shows(before, channel) {
                let (i, a) = choose|i: int, a: int|
                    0 <= i < before.len() && 0 <= a < before[i].fields.len()
                        && #[trigger] before[i].fields[a].channel == channel;
                assert(layouts[i] == before[i]);
                assert(layouts[i].fields[a].channel == channel);
            }
        } else {
            let s = list.last();
            let names = emitted_claims(held, uid, s.fields@);
            emitted_are_claimed(held, uid, component, s.fields@);
            let k = choose|k: int| 0 <= k < after.len() && after[k] == (uid, name);
            assert(k >= held.len());
            let a = k - held.len();
            assert(names[a] == (uid, name));
            let n = before.len() as int;
            assert(layouts[n].fields == emitted(held, uid, component, s.fields@));
            assert(layouts[n].fields[a].channel == channel);
        }
    }
}

/// No field is lost: of every candidate struct, each field that telemetry shows is in a
/// layout of the component, unless its name was taken before, or another struct has the
/// payloads of that size.
pub proof fn no_field_is_lost(
    claims: Seq<(u32, Seq<char>)>,
    uid: u32,
    component: Seq<char>,
    list: Seq<StructDef>,
    m: int,
    b: int,
)
    requires
        0 <= m < list.len(),
        0 <= b < list[m].fields@.len(),
        is_shown(list[m].fields@[b]),
    ensures
        ({
            let layouts = component_layouts(claims, uid, component, list).0;
            let name = list[m].fields@[b].name@;
            ||| shows(layouts, component + "."@ + name)
            ||| claims.contains((uid, name))
            ||| exists|i: int|
                0 <= i < layouts.len() && (#[trigger] layouts[i]).size == list[m].size
        }),
{
    fields_are_claimed(claims, uid, component, list, m, b);
    claims_are_shown(claims, uid, component, list, list[m].fields@[b].name@);
}

proof fn fields_are_claimed(
    claims: Seq<(u32, Seq<char>)>,
    uid: u32,
    component: Seq<char>,
    list: Seq<StructDef>,
    m: int,
    b: int,
)
    requires
        0 <= m < list.len(),
        0 <= b < list[m].fields@.len(),
        is_shown(list[m].fields@[b]),
    ensures
        ({
            let layouts = component_layouts(claims, uid, component, list).0;
            let after = component_layouts(claims, uid, component, list).1;
            ||| after.contains((uid, list[m].fields@[b].name@))
            ||| exists|i: int|
                0 <= i < layouts.len() && (#[trigger] layouts[i]).size == list[m].size
        }),
    decreases list.len(),
{
    let front = list.drop_last();
    let (before, held) = component_layouts(claims, uid, component, front);
    let (layouts, after) = component_layouts(claims, uid, component, list);
    let name = list[m].fields@[b].name@;
    if m < front.len() {
        assert(front[m] == list[m]);
        fields_are_claimed(claims, uid, component, front, m, b);
    }
    if held.contains((uid, name)) {
        let k = choose|k: int| 0 <= k < held.len() && held[k] == (uid, name);
        assert(after[k] == held[k]);
    } else if has_size(before, list[m].size) {
        let i = choose|i: int|
            0 <= i < before.len() && (#[trigger] before[i]).size == list[m].size;
        assert(layouts[i] == before[i]);
    } else {
        emitted_come_from_fields(held, uid, component, list[m].fields@);
        assert(layouts[before.len() as int].size == list[m].size);
    }
}

/// The layout for a payload is the latest one for its component and its size, and there
/// is none only when no layout is for both.
pub proof fn layouts_are_found_by_component_and_size(layouts: Seq<LayoutView>, uid: u32, size: nat)
    ensures
        match layout_for(layouts, uid, size) {
            Some(fields) => exists|i: int|
                {
                    &&& 0 <= i < layouts.len()
                    &&& (#[trigger] layouts[i]).uid == uid
                    &&& layouts[i].size == size
                    &&& layouts[i].fields == fields
                    &&& forall|j: int|
                        i < j < layouts.len() ==> !((#[trigger] layouts[j]).uid == uid
                            && layouts[j].size == size)
                },
            None => forall|i: int|
                0 <= i < layouts.len() ==> !((#[trigger] layouts[i]).uid == uid && layouts[i].size
                    == size),
        },
    decreases layouts.len(),
{
    if layouts.len() > 0 && !(layouts.last().uid == uid && layouts.last().size == size) {
        let front = layouts.drop_last();
        layouts_are_found_by_component_and_size(front, uid, size);
        match layout_for(layouts, uid, size) {
            Some(fields) => {
                let i = choose|i: int|
                    {
                        &&& 0 <= i < front.len()
                        &&& (#[trigger] front[i]).uid == uid
                        &&& front[i].size == size
                        &&& front[i].fields == fields
                        &&& forall|j: int|
                            i < j < front.len() ==> !((#[trigger] front[j]).uid == uid
                                && front[j].size == size)
                    };
                assert(layouts[i] == front[i]);
                assert forall|j: int| i < j < layouts.len() implies !((#[trigger] layouts[j]).uid
                    == uid && layouts[j].size == size) by {
                    if j < front.len() {
                        assert(front[j] == layouts[j]);
                    }
                }
            },
            None => {
                assert forall|i: int| 0 <= i < layouts.len() implies !((#[trigger] layouts[i]).uid
                    == uid && layouts[i].size == size) by {
                    if i < front.len() {
                        assert(front[i] == layouts[i]);
                    }
                }
            },
        }
    }
}

/// Whether struct `t` of component `c` can be decoded with for a name: the component
/// matches it, and the struct has fields and a size.
pub open spec fn is_usable(
    components: Seq<(Seq<char>, ComponentDict)>,
    name: Seq<char>,
    c: int,
    t: int,
) -> bool {
    &&& 0 <= c < components.len()
    &&& names_match(components[c].1.component@, name)
    &&& 0 <= t < components[c].1.structs@.len()
    &&& components[c].1.structs@[t].1.fields@.len() > 0
    &&& components[c].1.structs@[t].1.size > 0
}

/// Whether a struct is one that can be decoded with for a name.
pub open spec fn is_candidate_for(
    components: Seq<(Seq<char>, ComponentDict)>,
    name: Seq<char>,
    s: StructDef,
) -> bool {
    exists|c: int, t: int|
        #[trigger] is_usable(components, name, c, t) && components[c].1.structs@[t].1 == s
}

proof fn structs_of_priority_are_those(structs: Seq<(Seq<char>, StructDef)>, prio: u8)
    ensures
        forall|i: int|
            0 <= i < structs_of_priority(structs, prio).len() ==> exists|t: int|
                0 <= t < structs.len() && (#[trigger] structs[t]).1
                    == #[trigger] structs_of_priority(structs, prio)[i] && structs[t].1.fields@.len()
                    > 0 && structs[t].1.size > 0 && priority_of(structs[t].1.category@) == prio,
        forall|t: int|
            0 <= t < structs.len() && (#[trigger] structs[t]).1.fields@.len() > 0
                && structs[t].1.size > 0 && priority_of(structs[t].1.category@) == prio
                ==> structs_of_priority(structs, prio).contains(structs[t].1),
    decreases structs.len(),
{
    if structs.len() > 0 {
        let front = structs.drop_last();
        structs_of_priority_are_those(front, prio);
        let before = structs_of_priority(front, prio);
        let all = structs_of_priority(structs, prio);
        assert forall|i: int| 0 <= i < all.len() implies exists|t: int|
            0 <= t < structs.len() && (#[trigger] structs[t]).1 == #[trigger] all[i]
                && structs[t].1.fields@.len() > 0 && structs[t].1.size > 0 && priority_of(
                structs[t].1.category@,
            ) == prio by {
            if i < before.len() {
                assert(all[i] == before[i]);
                let t = choose|t: int|
                    0 <= t < front.len() && (#[trigger] front[t]).1 == before[i]
                        && front[t].1.fields@.len() > 0 && front[t].1.size > 0 && priority_of(
                        front[t].1.category@,
                    ) == prio;
                assert(structs[t] == front[t]);
            } else {
                assert(structs[structs.len() - 1].1 == all[i]);
            }
        }
        assert forall|t: int|
            0 <= t < structs.len() && (#[trigger] structs[t]).1.fields@.len() > 0
                && structs[t].1.size > 0 && priority_of(structs[t].1.category@) == prio implies
            all.contains(structs[t].1) by {
            if t < front.len() {
                assert(front[t] == structs[t]);
                assert(before.contains(front[t].1));
                let i = choose|i: int| 0 <= i < before.len() && before[i] == front[t].1;
                assert(all[i] == before[i]);
            } else {
                assert(all[all.len() - 1] == structs[t].1);
            }
        }
    }
}

proof fn candidates_of_priority_are_those(
    components: Seq<(Seq<char>, ComponentDict)>,
    name: Seq<char>,
    prio: u8,
)
    ensures
        forall|i: int|
            0 <= i < candidates_of_priority(components, name, prio).len() ==> {
                let s = #[trigger] candidates_of_priority(components, name, prio)[i];
                is_candidate_for(components, name, s) && priority_of(s.category@) == prio
            },
        forall|c: int, t: int|
            #[trigger] is_usable(components, name, c, t) && priority_of(
                components[c].1.structs@[t].1.category@,
            ) == prio ==> candidates_of_priority(components, name, prio).contains(
                components[c].1.structs@[t].1,
            ),
    decreases components.len(),
{
    if components.len() > 0 {
        let front = components.drop_last();
        candidates_of_priority_are_those(front, name, prio);
        let before = candidates_of_priority(front, name, prio);
        let all = candidates_of_priority(components, name, prio);
        let dict = components.last().1;
        let more = structs_of_priority(dict.structs@, prio);
        structs_of_priority_are_those(dict.structs@, prio);
        assert forall|i: int| 0 <= i < all.len() implies is_candidate_for(
            components,
            name,
            #[trigger] all[i],
        ) && priority_of(all[i].category@) == prio by {
            if i < before.len() {
                assert(all[i] == before[i]);
                assert(is_candidate_for(front, name, before[i]));
                let (c, t) = choose|c: int, t: int|
                    #[trigger] is_usable(front, name, c, t) && front[c].1.structs@[t].1
                        == before[i];
                assert(front[c] == components[c]);
                assert(is_usable(components, name, c, t));
            } else {
                let k = i - before.len();
                assert(all[i] == more[k]);
                let t = choose|t: int|
                    0 <= t < dict.structs@.len() && (#[trigger] dict.structs@[t]).1 == more[k]
                        && dict.structs@[t].1.fields@.len() > 0 && dict.structs@[t].1.size > 0
                        && priority_of(dict.structs@[t].1.category@) == prio;
                assert(is_usable(components, name, components.len() - 1, t));
            }
        }
        assert forall|c: int, t: int|
            #[trigger] is_usable(components, name, c, t) && priority_of(
                components[c].1.structs@[t].1.category@,
            ) == prio implies all.contains(components[c].1.structs@[t].1) by {
            let s = components[c].1.structs@[t].1;
            if c < front.len() {
                assert(front[c] == components[c]);
                assert(is_usable(front, name, c, t));
                let i = choose|i: int| 0 <= i < before.len() && before[i] == s;
                assert(all[i] == s);
            } else {
                assert(dict.structs@[t].1 == s);
                assert(more.contains(s));
                let k = choose|k: int| 0 <= k < more.len() && more[k] == s;
                assert(all[before.len() + k] == s);
            }
        }
    }
}

/// The candidates for a component are exactly the structs with fields and a size of the
/// components that match its name, and no struct comes before one whose category is
/// preferred.
pub proof fn candidates_are_in_order_of_preference(
    components: Seq<(Seq<char>, ComponentDict)>,
    name: Seq<char>,
    prio: u8,
)
    ensures
        ({
            let list = candidates(components, name, prio);
            &&& forall|i: int|
                0 <= i < list.len() ==> is_candidate_for(components, name, #[trigger] list[i])
                    && priority_of(list[i].category@) <= prio
            &&& forall|c: int, t: int|
                #[trigger] is_usable(components, name, c, t) && priority_of(
                    components[c].1.structs@[t].1.category@,
                ) <= prio ==> list.contains(components[c].1.structs@[t].1)
            &&& forall|i: int, j: int|
                0 <= i < j < list.len() ==> priority_of((#[trigger] list[i]).category@)
                    >= priority_of((#[trigger] list[j]).category@)
        }),
    decreases prio,
{
    let list = candidates(components, name, prio);
    let top = candidates_of_priority(components, name, prio);
    candidates_of_priority_are_those(components, name, prio);
    if prio > 0 {
        let low = (prio - 1) as u8;
        let rest = candidates(components, name, low);
        candidates_are_in_order_of_preference(components, name, low);
        assert(list == top + rest);
        assert forall|i: int| 0 <= i < list.len() implies is_candidate_for(
            components,
            name,
            #[trigger] list[i],
        ) && priority_of(list[i].category@) <= prio by {
            if i < top.len() {
                assert(list[i] == top[i]);
            } else {
                assert(list[i] == rest[i - top.len()]);
            }
        }
        assert forall|c: int, t: int|
            #[trigger] is_usable(components, name, c, t) && priority_of(
                components[c].1.structs@[t].1.category@,
            ) <= prio implies list.contains(components[c].1.structs@[t].1) by {
            let s = components[c].1.structs@[t].1;
            if priority_of(s.category@) == prio {
                let i = choose|i: int| 0 <= i < top.len() && top[i] == s;
                assert(list[i] == s);
            } else {
                assert(rest.contains(s));
                let i = choose|i: int| 0 <= i < rest.len() && rest[i] == s;
                assert(list[top.len() + i] == s);
            }
        }
        assert forall|i: int, j: int| 0 <= i < j < list.len() implies priority_of(
            (#[trigger] list[i]).category@,
        ) >= priority_of((#[trigger] list[j]).category@) by {
            if i < top.len() {
                assert(list[i] == top[i]);
                assert(priority_of(top[i].category@) == prio);
                if j >= top.len() {
                    assert(list[j] == rest[j - top.len()]);
                } else {
                    assert(list[j] == top[j]);
                }
            } else {
                assert(list[i] == rest[i - top.len()] && list[j] == rest[j - top.len()]);
            }
        }
    }
}

/// A sample is held back only when its channel had one less than 15 milliseconds before:
/// the first sample of a channel is let through, and so is one that keeps its distance;
/// what is let through is what came, in order, and the time of the latest is remembered.
pub proof fn only_hurried_samples_are_dropped(
    last: Seq<(Seq<char>, u64)>,
    samples: Seq<SampleView>,
    s: SampleView,
)
    ensures
        ({
            let (kept, seen) = deduplicated(last, samples);
            let (kept_after, seen_after) = deduplicated(last, samples.push(s));
            match lookup(seen, s.channel) {
                Some(t) if s.timestamp_ms < t + 15 => kept_after == kept && seen_after == seen,
                _ => {
                    &&& kept_after == kept.push(s)
                    &&& lookup(seen_after, s.channel) == Some(s.timestamp_ms)
                    &&& forall|c: Seq<char>|
                        c != s.channel ==> #[trigger] lookup(seen_after, c) == lookup(seen, c)
                },
            }
        }),
        deduplicated(last, Seq::empty()) == (Seq::<SampleView>::empty(), last),
{
    let seen = deduplicated(last, samples).1;
    assert(samples.push(s).drop_last() =~= samples);
    crate::text_map::put_then_lookup(seen, s.channel, s.timestamp_ms, s.channel);
    assert forall|c: Seq<char>| c != s.channel implies #[trigger] lookup(
        put(seen, s.channel, s.timestamp_ms),
        c,
    ) == lookup(seen, c) by {
        crate::text_map::put_then_lookup(seen, s.channel, s.timestamp_ms, c);
    }
}

/// The later of two runs of layouts goes first.
proof fn later_layouts_go_first(a: Seq<LayoutView>, b: Seq<LayoutView>, uid: u32, size: nat)
    ensures
        layout_for(a + b, uid, size) == (match layout_for(b, uid, size) {
            Some(fields) => Some(fields),
            None => layout_for(a, uid, size),
        }),
    decreases b.len(),
{
    if b.len() == 0 {
        assert(a + b =~= a);
    } else {
        assert((a + b).last() == b.last());
        assert((a + b).drop_last() =~= a + b.drop_last());
        later_layouts_go_first(a, b.drop_last(), uid, size);
    }
}

/// A component claims names only for its own address.
proof fn claims_are_the_components_own(
    claims: Seq<(u32, Seq<char>)>,
    uid: u32,
    component: Seq<char>,
    list: Seq<StructDef>,
    other: u32,
)
    requires
        other != uid,
        forall|k: int| 0 <= k < claims.len() ==> (#[trigger] claims[k]).0 != other,
    ensures
        ({
            let (layouts, after) = component_layouts(claims, uid, component, list);
            &&& forall|k: int| 0 <= k < after.len() ==> (#[trigger] after[k]).0 != other
            &&& forall|i: int| 0 <= i < layouts.len() ==> (#[trigger] layouts[i]).uid == uid
        }),
    decreases list.len(),
{
    if list.len() > 0 {
        let front = list.drop_last();
        claims_are_the_components_own(claims, uid, component, front, other);
        let (before, held) = component_layouts(claims, uid, component, front);
        let (layouts, after) = component_layouts(claims, uid, component, list);
        let s = list.last();
        let names = emitted_claims(held, uid, s.fields@);
        emitted_are_claimed(held, uid, component, s.fields@);
        assert forall|k: int| 0 <= k < after.len() implies (#[trigger] after[k]).0 != other by {
            if k < held.len() {
                assert(after[k] == held[k]);
            } else {
                let a = k - held.len();
                assert(after[k] == names[a]);
                assert(emitted(held, uid, component, s.fields@)[a].channel == component + "."@
                    + names[a].1);
            }
        }
    }
}

proof fn unknown_addresses_have_no_claims(
    components: Seq<(Seq<char>, ComponentDict)>,
    known: Seq<(u32, Seq<char>)>,
    other: u32,
)
    requires
        forall|k: int| 0 <= k < known.len() ==> (#[trigger] known[k]).0 != other,
    ensures
        forall|k: int|
            0 <= k < table_of(components, known).claims.len() ==> (#[trigger] table_of(
                components,
                known,
            ).claims[k]).0 != other,
    decreases known.len(),
{
    if known.len() > 0 {
        let front = known.drop_last();
        assert forall|k: int| 0 <= k < front.len() implies (#[trigger] front[k]).0 != other by {
            assert(known[k].0 != other);
        }
        unknown_addresses_have_no_claims(components, front, other);
        let (uid, component) = known.last();
        assert(known[known.len() - 1].0 != other);
        claims_are_the_components_own(
            table_of(components, front).claims,
            uid,
            component,
            candidates(components, base_name(component), 4),
            other,
        );
    }
}

/// Whether a list of emitted fields has one that is field `b` of a struct.
pub open spec fn has_field(
    fields: Seq<CachedView>,
    component: Seq<char>,
    s: StructDef,
    b: int,
) -> bool {
    exists|a: int|
        0 <= a < fields.len() && is_from(#[trigger] fields[a], component, s.fields@, b)
}

proof fn preferred_struct_is_in_the_table(
    components: Seq<(Seq<char>, ComponentDict)>,
    known: Seq<(u32, Seq<char>)>,
    k: int,
    s: StructDef,
    b: int,
)
    requires
        0 <= k < known.len(),
        forall|i: int, j: int|
            0 <= i < j < known.len() ==> (#[trigger] known[i]).0 != (#[trigger] known[j]).0,
        candidates(components, base_name(known[k].1), 4).len() > 0,
        s == candidates(components, base_name(known[k].1), 4)[0],
        0 <= b < s.fields@.len(),
        is_shown(s.fields@[b]),
    ensures
        layout_for(table_of(components, known).layouts, known[k].0, s.size as nat) matches Some(
            fields,
        ) && has_field(fields, known[k].1, s, b),
    decreases known.len(),
{
    let front = known.drop_last();
    let before = table_of(components, front);
    let (uid, component) = known.last();
    let list = candidates(components, base_name(component), 4);
    let own = component_layouts(before.claims, uid, component, list).0;
    later_layouts_go_first(before.layouts, own, known[k].0, s.size as nat);
    layouts_are_found_by_component_and_size(own, known[k].0, s.size as nat);
    if k == known.len() - 1 {
        assert forall|i: int| 0 <= i < front.len() implies (#[trigger] front[i]).0 != uid by {
            assert(known[i].0 != known[k].0);
        }
        unknown_addresses_have_no_claims(components, front, uid);
        preferred_struct_is_decoded_whole(before.claims, uid, component, list, b);
        layouts_do_not_overlap(before.claims, uid, component, list);
        layouts_are_those_of_structs(before.claims, uid, component, list);
        assert(is_layout_among(own[0], uid, component, list));
        let i = choose|i: int|
            {
                &&& 0 <= i < own.len()
                &&& (#[trigger] own[i]).uid == uid
                &&& own[i].size == s.size
                &&& layout_for(own, uid, s.size as nat) == Some(own[i].fields)
            };
        if i > 0 {
            assert(own[0].size != own[i].size);
        }
        assert(layout_for(own, uid, s.size as nat) == Some(own[0].fields));
    } else {
        assert(known[k].0 != known[known.len() - 1].0);
        assert(front[k] == known[k]);
        assert forall|i: int, j: int| 0 <= i < j < front.len() implies (#[trigger] front[i]).0 != (
        #[trigger] front[j]).0 by {
            assert(known[i].0 != known[j].0);
        }
        preferred_struct_is_in_the_table(components, front, k, s, b);
        layouts_are_those_of_structs(before.claims, uid, component, list);
        assert forall|i: int| 0 <= i < own.len() implies (#[trigger] own[i]).uid == uid by {
            assert(is_layout_among(own[i], uid, component, list));
        }
        assert(layout_for(own, known[k].0, s.size as nat) is None);
    }
}

/// From the dictionary to the sample: with the components known by distinct addresses,
/// a packet of a component whose payload has the size of its preferred struct gives, for
/// every field of the struct that telemetry shows and that has a value in the payload, a
/// sample named after the component and the field, whose value is the number that the
/// field's bytes stand for.
pub proof fn dictionary_fields_become_samples(
    components: Seq<(Seq<char>, ComponentDict)>,
    known: Seq<(u32, Seq<char>)>,
    k: int,
    s: StructDef,
    b: int,
    target: Seq<char>,
    ts: u64,
    payload: Seq<u8>,
)
    requires
        0 <= k < known.len(),
        forall|i: int, j: int|
            0 <= i < j < known.len() ==> (#[trigger] known[i]).0 != (#[trigger] known[j]).0,
        candidates(components, base_name(known[k].1), 4).len() > 0,
        s == candidates(components, base_name(known[k].1), 4)[0],
        0 <= b < s.fields@.len(),
        is_shown(s.fields@[b]),
        payload.len() == s.size,
        s.fields@[b].offset + s.fields@[b].size <= payload.len(),
        has_value(payload, shape_of(s.fields@[b])),
    ensures
        ({
            let samples = decoded(table_of(components, known), target, ts, known[k].0, payload);
            let f = s.fields@[b];
            let shape = FieldShape {
                kind: kind_of(f.field_type@),
                offset: f.offset,
                size: f.size,
            };
            exists|j: int|
                {
                    &&& 0 <= j < samples.len()
                    &&& (#[trigger] samples[j]).channel == known[k].1 + "."@ + f.name@
                    &&& is_value_of(samples[j].value, payload, shape)
                    &&& samples[j].target_id == target
                    &&& samples[j].timestamp_ms == ts
                }
        }),
{
    let table = table_of(components, known);
    let samples = decoded(table, target, ts, known[k].0, payload);
    preferred_struct_is_in_the_table(components, known, k, s, b);
    let fields = layout_for(table.layouts, known[k].0, payload.len())->0;
    samples_are_the_values_of_the_fields(table, target, ts, known[k].0, payload, fields);
    let from = choose|from: Seq<int>| #[trigger]
        are_samples_of(samples, from, fields, target, ts, payload);
    let a = choose|a: int|
        0 <= a < fields.len() && is_from(#[trigger] fields[a], known[k].1, s.fields@, b);
    assert(fields[a].shape == shape_of(s.fields@[b]));
    assert(is_read(fields[a], payload));
    assert(from.contains(a));
    let j = choose|j: int| 0 <= j < from.len() && from[j] == a;
    assert(is_sample_of(samples[j], fields[from[j]], target, ts, payload));
    assert(samples[j].channel == known[k].1 + "."@ + s.fields@[b].name@);
}

/// A component without a matching layout is shown by the name that it was last made known
/// under, and an unknown one by its address.
pub proof fn components_are_shown_by_name(
    components: Seq<(Seq<char>, ComponentDict)>,
    known: Seq<(u32, Seq<char>)>,
    uid: u32,
    k: int,
)
    ensures
        0 <= k < known.len() && known[k].0 == uid && (forall|j: int|
            k < j < known.len() ==> (#[trigger] known[j]).0 != uid) ==> generic_prefix(
            table_of(components, known).names,
            uid,
        ) == known[k].1,
        (forall|j: int| 0 <= j < known.len() ==> (#[trigger] known[j]).0 != uid) ==> generic_prefix(
            table_of(components, known).names,
            uid,
        ) == "0x"@ + hex_upper(uid as nat, 6),
    decreases known.len(),
{
    if known.len() > 0 {
        let front = known.drop_last();
        components_are_shown_by_name(components, front, uid, k);
        assert(known[known.len() - 1] == known.last());
        assert forall|j: int| 0 <= j < front.len() implies #[trigger] front[j] == known[j] by {}
    }
}

/// A component's dictionaries are found by its name alone: an instance suffix does not
/// count, and neither does white space around the name.
pub proof fn instances_share_their_dictionary(name: Seq<char>, suffix: Seq<char>)
    requires
        !name.contains('#'),
    ensures
        base_name(name) == trimmed(name),
        base_name(name + "#"@ + suffix) == trimmed(name),
{
    reveal_strlit("#");
    let t = name + "#"@ + suffix;
    crate::text::before_ends_at_the_first(name, '#');
    crate::text::before_ends_at_the_first(t, '#');
    let (a, b) = (before(name, '#'), before(t, '#'));
    if a.len() < name.len() {
        assert(name.contains(name[a.len() as int]));
    }
    assert(name.subrange(0, name.len() as int) =~= name);
    if b.len() < name.len() {
        assert(t[b.len() as int] == name[b.len() as int]);
        assert(name.contains(name[b.len() as int]));
    }
    if b.len() > name.len() {
        assert(t[name.len() as int] == '#');
        assert(t.subrange(0, b.len() as int)[name.len() as int] == '#');
        assert(b.contains('#'));
    }
    assert(t.subrange(0, name.len() as int) =~= name);
}

/// The channel names of a decoder are exactly those that its layouts have fields under.
pub proof fn channels_are_those_of_the_layouts(layouts: Seq<LayoutView>, c: Seq<char>)
    ensures
        channels_of(layouts).contains(c) <==> shows(layouts, c),
    decreases layouts.len(),
{
    if layouts.len() > 0 {
        let front = layouts.drop_last();
        channels_are_those_of_the_layouts(front, c);
        let last = layouts.last().fields;
        let (x, y) = (channels_of(front), field_channels(last));
        let all = channels_of(layouts);
        let n = layouts.len() - 1;
        if all.contains(c) {
            let k = choose|k: int| 0 <= k < all.len() && all[k] == c;
            if k < x.len() {
                assert(x[k] == c);
                let (i, a) = choose|i: int, a: int|
                    0 <= i < front.len() && 0 <= a < front[i].fields.len()
                        && #[trigger] front[i].fields[a].channel == c;
                assert(layouts[i].fields[a].channel == c);
            } else {
                assert(layouts[n].fields[k - x.len()].channel == c);
            }
        }
        if shows(layouts, c) {
            let (i, a) = choose|i: int, a: int|
                0 <= i < layouts.len() && 0 <= a < layouts[i].fields.len()
                    && #[trigger] layouts[i].fields[a].channel == c;
            if i < front.len() {
                assert(front[i].fields[a].channel == c);
                let k = choose|k: int| 0 <= k < x.len() && x[k] == c;
                assert(all[k] == c);
            } else {
                assert(y[a] == c);
                assert(all[x.len() + a] == c);
            }
        }
    }
}

} // verus!
