//! Read-only reports: decoded parameters, schedule health, listings, exports and
//! the limits that requests for them are held to.

use vstd::prelude::*;

use crate::codec::{hex_encode, hex_text};
use crate::config::TargetSection;
use crate::config_manager::{
    decoded_fields, list_holds, values_of, variable_reading, AppManifest, ComponentDict,
    FieldValue, StructDef, StructDictionary, VariableLength,
};
use crate::param_update::{find_tunable_struct, is_tunable, manifest_name, tunable_struct};
use crate::protocol::aproto::AckResponse;
use crate::requests::{Refusal, BAD_GATEWAY, NOT_FOUND};
use crate::text::{dec, digit, digits, hex_upper, push_dec, push_hex, same_text, texts};
use crate::text_map::{lookup, TextMap};
use crate::tprm::{
    is_page, is_verdict, page_is_complete, parse_readback_page, parse_verify_verdict, ReadbackPage,
    TprmError, VerifyVerdict,
};
use crate::wire::{get_u16_le, get_u32_le, get_u64_le, u16_le_at, u32_le_at, u64_le_at};

verus! {

// ----------------------------------------------------------------- parameters

/// What a component's parameter image reads as.
#[derive(Debug)]
pub enum ParamsReading {
    /// A header followed by entries.
    Variable(VariableLength),
    /// One struct.
    Fixed { component: String, struct_name: String, fields: TextMap<FieldValue> },
    /// Nothing that the dictionaries know.
    Unknown,
}

/// A component's parameters as reported.
#[derive(Debug)]
pub struct ParamsReport {
    /// The component's address, in hexadecimal.
    pub full_uid: String,
    pub raw_hex: String,
    pub raw_length: usize,
    pub reading: ParamsReading,
}

/// Whether a reading is the one by a single struct, if there is one.
pub open spec fn fixed_reading(
    components: Seq<(Seq<char>, ComponentDict)>,
    found: Option<(int, int)>,
    data: Seq<u8>,
    r: ParamsReading,
) -> bool {
    match found {
        Some(at) => {
            let component = components[at.0].1.component@;
            let name = components[at.0].1.structs@[at.1].0;
            match lookup(components, component) {
                Some(dict) => match lookup(dict.structs@, name) {
                    Some(sdef) => r matches ParamsReading::Fixed { component: c, struct_name, fields }
                        && c@ == component && struct_name@ == name && values_of(fields@)
                        == decoded_fields(data, sdef.fields@, data.len()),
                    None => r is Unknown,
                },
                None => r is Unknown,
            }
        },
        None => r is Unknown,
    }
}

/// Reads a component's parameter image: as a header with entries where that fits
/// the component that the manifest names, else as the component's tunable struct.
pub fn read_params(
    full_uid: u32,
    data: &[u8],
    dicts: &StructDictionary,
    manifest: Option<&AppManifest>,
) -> (r: ParamsReading)
    ensures
        ({
            let name = manifest_name(manifest, full_uid);
            match r {
                ParamsReading::Variable(v) => variable_reading(
                    dicts.components@,
                    "TUNABLE_PARAM"@,
                    data@,
                    name,
                    Some(v),
                ),
                _ => variable_reading(dicts.components@, "TUNABLE_PARAM"@, data@, name, None)
                    && fixed_reading(
                    dicts.components@,
                    tunable_struct(dicts.components@, data@.len() as usize, name),
                    data@,
                    r,
                ),
            }
        }),
{
    let name = match manifest {
        Some(m) => m.component_name(full_uid),
        None => None,
    };
    match dicts.decode_variable_length_for("TUNABLE_PARAM", data, name) {
        Some(v) => {
            return ParamsReading::Variable(v);
        },
        None => {},
    }
    assert(data.len() == data@.len());
    match find_tunable_struct(dicts, data.len(), full_uid, manifest) {
        Some((component, struct_name, _)) => match dicts.decode_payload(
            component,
            struct_name,
            data,
        ) {
            Some(fields) => ParamsReading::Fixed {
                component: component.to_owned(),
                struct_name: struct_name.to_owned(),
                fields,
            },
            None => ParamsReading::Unknown,
        },
        None => ParamsReading::Unknown,
    }
}

/// Reports a component's parameters from the target's answer.
pub fn params_report(
    full_uid: u32,
    resp: &AckResponse,
    dicts: &StructDictionary,
    manifest: Option<&AppManifest>,
) -> (r: Result<ParamsReport, Refusal>)
    ensures
        match r {
            Ok(p) => {
                let name = manifest_name(manifest, full_uid);
                let data = resp.extra@;
                &&& resp.status == 0
                &&& p.full_uid@ == "0x"@ + hex_upper(full_uid as nat, 6)
                &&& p.raw_hex@ == hex_text(data)
                &&& p.raw_length == data.len()
                &&& match p.reading {
                    ParamsReading::Variable(v) => variable_reading(
                        dicts.components@,
                        "TUNABLE_PARAM"@,
                        data,
                        name,
                        Some(v),
                    ),
                    _ => variable_reading(dicts.components@, "TUNABLE_PARAM"@, data, name, None)
                        && fixed_reading(
                        dicts.components@,
                        tunable_struct(dicts.components@, data.len() as usize, name),
                        data,
                        p.reading,
                    ),
                }
            },
            Err(e) => resp.status != 0 && e.is(BAD_GATEWAY, "INSPECT failed: "@ + resp.status_name@),
        },
{
    if resp.status != 0 {
        let mut text: String = "INSPECT failed: ".to_owned();
        text.append(resp.status_name.as_str());
        return Err(Refusal { status: BAD_GATEWAY, text });
    }
    Ok(
        ParamsReport {
            full_uid: uid_text(full_uid),
            raw_hex: hex_encode(resp.extra.as_slice()),
            raw_length: resp.extra.len(),
            reading: read_params(full_uid, resp.extra.as_slice(), dicts, manifest),
        },
    )
}

/// The name under which a header with entries is shown.
pub fn variable_struct_name(header: &str, entry: &str) -> (t: String)
    ensures
        t@ == header@ + " + "@ + entry@ + "[]"@,
{
    let mut t: String = header.to_owned();
    t.append(" + ");
    t.append(entry);
    t.append("[]");
    t
}

/// A component address as shown: six hexadecimal digits at least.
pub fn uid_text(uid: u32) -> (t: String)
    ensures
        t@ == "0x"@ + hex_upper(uid as nat, 6),
{
    let mut t: String = "0x".to_owned();
    push_hex(&mut t, uid as u64, 6, true);
    t
}

/// A hash or checksum as shown: eight hexadecimal digits.
pub fn word_text(word: u32) -> (t: String)
    ensures
        t@ == "0x"@ + hex_upper(word as nat, 8),
{
    let mut t: String = "0x".to_owned();
    push_hex(&mut t, word as u64, 8, true);
    t
}

// ---------------------------------------------------------------- staged bank

fn parse_failure(what: &str, e: &TprmError) -> (r: Refusal)
    ensures
        r.is(BAD_GATEWAY, what@ + e.text()),
{
    let mut text: String = what.to_owned();
    let reason = e.message();
    text.append(reason.as_str());
    Refusal { status: BAD_GATEWAY, text }
}

/// Reads a target's answer to a request for the digest of its staged parameters.
pub fn staged_digest(resp: &AckResponse) -> (r: Result<ReadbackPage, Refusal>)
    ensures
        match r {
            Ok(page) => resp.status == 0 && page_is_complete(resp.extra@) && is_page(
                page,
                resp.extra@,
            ),
            Err(e) => if resp.status != 0 {
                e.is(BAD_GATEWAY, "READBACK_TPRM refused: "@ + resp.status_name@)
            } else {
                !page_is_complete(resp.extra@) && e.is(
                    BAD_GATEWAY,
                    "digest parse: "@ + TprmError::Truncated.text(),
                )
            },
        },
{
    if resp.status != 0 {
        let mut text: String = "READBACK_TPRM refused: ".to_owned();
        text.append(resp.status_name.as_str());
        return Err(Refusal { status: BAD_GATEWAY, text });
    }
    match parse_readback_page(resp.extra.as_slice()) {
        Ok(page) => Ok(page),
        Err(e) => Err(parse_failure("digest parse: ", &e)),
    }
}

/// A target's answer to a request to verify a staged payload.
#[derive(Debug)]
pub enum StagedVerdict {
    /// The target did not carry the command out.
    Refused { status: u8, status_name: String },
    Verdict(VerifyVerdict),
}

/// Reads a target's answer to a request to verify a staged payload.
pub fn staged_verdict(resp: &AckResponse) -> (r: Result<StagedVerdict, Refusal>)
    ensures
        match r {
            Ok(StagedVerdict::Refused { status, status_name }) => resp.status != 0 && status
                == resp.status && status_name@ == resp.status_name@,
            Ok(StagedVerdict::Verdict(v)) => resp.status == 0 && resp.extra@.len() >= 12
                && is_verdict(v, resp.extra@),
            Err(e) => resp.status == 0 && resp.extra@.len() < 12 && e.is(
                BAD_GATEWAY,
                "verdict parse: "@ + TprmError::Truncated.text(),
            ),
        },
{
    if resp.status != 0 {
        return Ok(
            StagedVerdict::Refused { status: resp.status, status_name: resp.status_name.clone() },
        );
    }
    match parse_verify_verdict(resp.extra.as_slice()) {
        Ok(v) => Ok(StagedVerdict::Verdict(v)),
        Err(e) => Err(parse_failure("verdict parse: ", &e)),
    }
}

// ------------------------------------------------------------------- schedule

/// Addresses and opcode of the health queries.
pub const EXECUTIVE_UID: u32 = 0x000000;

pub const SCHEDULER_UID: u32 = 0x000100;

pub const OP_HEALTH: u16 = 0x0100;

/// A scheduler's health block.
#[derive(Debug, Clone, Copy, PartialEq, Eq, Structural)]
pub struct SchedulerHealth {
    pub tick_count: u64,
    pub task_count: u32,
    pub period_violations: u32,
    pub total_skip_count: u32,
    pub fundamental_freq_hz: u16,
    pub pool_count: u8,
    pub sleeping: bool,
}

/// Reads a scheduler's answer to a health query: 32 bytes at least, from a
/// command that succeeded.
pub fn scheduler_health(status: u8, extra: &[u8]) -> (r: Option<SchedulerHealth>)
    ensures
        r is Some <==> status == 0 && extra@.len() >= 32,
        r matches Some(h) ==> h == (SchedulerHealth {
            tick_count: u64_le_at(extra@, 0),
            task_count: u32_le_at(extra@, 8),
            period_violations: u32_le_at(extra@, 12),
            total_skip_count: u32_le_at(extra@, 16),
            fundamental_freq_hz: u16_le_at(extra@, 20),
            pool_count: extra@[22],
            sleeping: extra@[23] != 0,
        }),
{
    if status != 0 || extra.len() < 32 {
        return None;
    }
    Some(
        SchedulerHealth {
            tick_count: get_u64_le(extra, 0),
            task_count: get_u32_le(extra, 8),
            period_violations: get_u32_le(extra, 12),
            total_skip_count: get_u32_le(extra, 16),
            fundamental_freq_hz: get_u16_le(extra, 20),
            pool_count: extra[22],
            sleeping: extra[23] != 0,
        },
    )
}

/// An executive's health block.
#[derive(Debug, Clone, Copy, PartialEq, Eq, Structural)]
pub struct ExecutiveHealth {
    pub clock_cycles: u64,
    pub clock_freq_hz: u16,
    /// Whole seconds that the cycles make at the clock's frequency; none while the
    /// frequency is not known.
    pub uptime_seconds: u64,
    pub frame_overruns: u64,
    pub watchdog_warnings: u64,
}

/// Reads an executive's answer to a health query: 48 bytes at least, from a
/// command that succeeded.
pub fn executive_health(status: u8, extra: &[u8]) -> (r: Option<ExecutiveHealth>)
    ensures
        r is Some <==> status == 0 && extra@.len() >= 48,
        r matches Some(h) ==> {
            &&& h.clock_cycles == u64_le_at(extra@, 0)
            &&& h.clock_freq_hz == u16_le_at(extra@, 32)
            &&& h.uptime_seconds == if h.clock_freq_hz > 0 {
                h.clock_cycles as int / h.clock_freq_hz as int
            } else {
                0
            }
            &&& h.frame_overruns == u64_le_at(extra@, 16)
            &&& h.watchdog_warnings == u64_le_at(extra@, 24)
        },
{
    if status != 0 || extra.len() < 48 {
        return None;
    }
    let clock_cycles: u64 = get_u64_le(extra, 0);
    let clock_freq_hz: u16 = get_u16_le(extra, 32);
    let uptime_seconds: u64 = if clock_freq_hz > 0 {
        clock_cycles / clock_freq_hz as u64
    } else {
        0
    };
    Some(
        ExecutiveHealth {
            clock_cycles,
            clock_freq_hz,
            uptime_seconds,
            frame_overruns: get_u64_le(extra, 16),
            watchdog_warnings: get_u64_le(extra, 24),
        },
    )
}

// ------------------------------------------------------------------- listings

/// A component's name in the registry: with its instance where it has one.
pub fn registry_name(name: &str, instance_index: Option<u32>) -> (t: String)
    ensures
        t@ == match instance_index {
            Some(i) => name@ + " #"@ + dec(i as nat),
            None => name@,
        },
{
    let mut t: String = name.to_owned();
    match instance_index {
        Some(i) => {
            t.append(" #");
            push_dec(&mut t, i as u64);
        },
        None => {},
    }
    t
}

/// A tunable struct as listed.
#[derive(Debug)]
pub struct TunableRow {
    pub component: String,
    pub struct_name: String,
    pub size: usize,
    pub field_count: usize,
}

/// What a listed struct says.
pub struct TunableView {
    pub component: Seq<char>,
    pub struct_name: Seq<char>,
    pub size: usize,
    pub field_count: nat,
}

impl View for TunableRow {
    type V = TunableView;

    open spec fn view(&self) -> TunableView {
        TunableView {
            component: self.component@,
            struct_name: self.struct_name@,
            size: self.size,
            field_count: self.field_count as nat,
        }
    }
}

/// The contents of a listing.
pub open spec fn tunable_views(rows: Seq<TunableRow>) -> Seq<TunableView> {
    Seq::new(rows.len(), |i: int| rows[i]@)
}

/// The tunable structs of a component, in order.
pub open spec fn tunables_of(component: Seq<char>, structs: Seq<(Seq<char>, StructDef)>) -> Seq<
    TunableView,
>
    decreases structs.len(),
{
    if structs.len() == 0 {
        Seq::empty()
    } else {
        let rest = tunables_of(component, structs.drop_last());
        let (name, sdef) = structs.last();
        if is_tunable(sdef) {
            rest.push(
                TunableView {
                    component,
                    struct_name: name,
                    size: sdef.size,
                    field_count: sdef.fields@.len(),
                },
            )
        } else {
            rest
        }
    }
}

/// The tunable structs of all components, in order.
pub open spec fn all_tunable_rows(components: Seq<(Seq<char>, ComponentDict)>) -> Seq<TunableView>
    decreases components.len(),
{
    if components.len() == 0 {
        Seq::empty()
    } else {
        all_tunable_rows(components.drop_last()) + tunables_of(
            components.last().1.component@,
            components.last().1.structs@,
        )
    }
}

/// Lists every struct of tunable parameters that the dictionaries have.
pub fn list_tunables(dicts: &StructDictionary) -> (out: Vec<TunableRow>)
    ensures
        tunable_views(out@) == all_tunable_rows(dicts.components@),
{
    let ghost components = dicts.components@;
    let mut out: Vec<TunableRow> = Vec::new();
    assert(tunable_views(out@) =~= Seq::empty());
    let n: usize = dicts.components.len();
    for c in 0..n
        invariant
            n == components.len(),
            components == dicts.components@,
            tunable_views(out@) == all_tunable_rows(components.take(c as int)),
    {
        assert(components.take(c + 1).drop_last() =~= components.take(c as int));
        let (_, dict) = dicts.components.entry(c);
        let ghost structs = dict.structs@;
        let ghost start = tunable_views(out@);
        let m: usize = dict.structs.len();
        assert(start + tunables_of(dict.component@, structs.take(0)) =~= start);
        for i in 0..m
            invariant
                m == structs.len(),
                structs == dict.structs@,
                tunable_views(out@) == start + tunables_of(
                    dict.component@,
                    structs.take(i as int),
                ),
        {
            assert(structs.take(i + 1).drop_last() =~= structs.take(i as int));
            let (name, sdef) = dict.structs.entry(i);
            if same_text(sdef.category.as_str(), "TUNABLE_PARAM") && sdef.fields.len() > 0 {
                let ghost prior = tunable_views(out@);
                let row = TunableRow {
                    component: dict.component.clone(),
                    struct_name: name.clone(),
                    size: sdef.size,
                    field_count: sdef.fields.len(),
                };
                let ghost seen = row@;
                out.push(row);
                assert(tunable_views(out@) =~= prior.push(seen));
            }
            assert(tunable_views(out@) =~= start + tunables_of(
                dict.component@,
                structs.take(i + 1),
            ));
        }
        assert(structs.take(m as int) =~= structs);
    }
    assert(components.take(n as int) =~= components);
    out
}

/// The dictionaries that a target is described by: its own, or the global ones
/// when it has none.
pub fn dictionary_for<'a>(own: &'a StructDictionary, global: &'a StructDictionary) -> (r:
    &'a StructDictionary)
    ensures
        *r == if own.components@.len() > 0 {
            *own
        } else {
            *global
        },
{
    if !own.components.is_empty() {
        own
    } else {
        global
    }
}

/// A component's dictionary: the target's own, else the global one.
pub fn component_detail<'a>(
    own: &'a StructDictionary,
    global: &'a StructDictionary,
    component: &str,
    target_id: &str,
) -> (r: Result<&'a ComponentDict, Refusal>)
    ensures
        match r {
            Ok(dict) => Some(*dict) == match lookup(own.components@, component@) {
                Some(d) => Some(d),
                None => lookup(global.components@, component@),
            },
            Err(e) => {
                &&& lookup(own.components@, component@) is None
                &&& lookup(global.components@, component@) is None
                &&& e.is(
                    NOT_FOUND,
                    "Component '"@ + component@
                        + "' not found in struct dictionaries for target '"@ + target_id@ + "'"@,
                )
            },
        },
{
    match own.get_component(component) {
        Some(dict) => {
            return Ok(dict);
        },
        None => {},
    }
    match global.get_component(component) {
        Some(dict) => Ok(dict),
        None => {
            let mut text: String = "Component '".to_owned();
            text.append(component);
            text.append("' not found in struct dictionaries for target '");
            text.append(target_id);
            text.append("'");
            Err(Refusal { status: NOT_FOUND, text })
        },
    }
}

// --------------------------------------------------------------------- limits

/// Most rows that a history or CSV request can get.
pub const HISTORY_LIMIT_MAX: usize = 200_000;

/// Most rows that an audit request can get.
pub const AUDIT_LIMIT_MAX: usize = 1000;

/// A request for history.
#[derive(Debug, Clone)]
pub struct HistoryQuery {
    pub channel: Option<String>,
    pub start_ms: u64,
    pub end_ms: u64,
    pub limit: usize,
}

impl HistoryQuery {
    /// Rows to return: as many as asked for, never more than the ceiling.
    pub fn clamped_limit(&self) -> (r: usize)
        ensures
            r == if self.limit < HISTORY_LIMIT_MAX {
                self.limit
            } else {
                HISTORY_LIMIT_MAX
            },
            r <= self.limit && r <= 200_000 && (r == self.limit || r == 200_000),
    {
        if self.limit < HISTORY_LIMIT_MAX {
            self.limit
        } else {
            HISTORY_LIMIT_MAX
        }
    }
}

/// Start of the range when a request gives none.
pub fn default_start() -> (r: u64)
    ensures
        r == 0,
{
    0
}

/// End of the range when a request gives none, in the year 2286.
pub fn default_end() -> (r: u64)
    ensures
        r == 9_999_999_999_999,
{
    9_999_999_999_999
}

/// Rows when a request asks for no number.
pub fn default_limit() -> (r: usize)
    ensures
        r == 10_000,
{
    10_000
}

/// Audit rows when a request asks for no number.
pub fn default_audit_limit() -> (r: usize)
    ensures
        r == 100,
{
    100
}

/// Audit rows to return: as many as asked for, never more than the ceiling.
pub fn audit_limit(asked: usize) -> (r: usize)
    ensures
        r == if asked < AUDIT_LIMIT_MAX {
            asked
        } else {
            AUDIT_LIMIT_MAX
        },
        r <= asked && r <= 1000 && (r == asked || r == 1000),
{
    if asked < AUDIT_LIMIT_MAX {
        asked
    } else {
        AUDIT_LIMIT_MAX
    }
}

/// Bytes that a request body may have: half as much again as the largest upload,
/// for its encoding.
pub fn body_limit(upload_max_mb: u32) -> (r: u64)
    ensures
        r == upload_max_mb * 1_048_576 * 3 / 2,
{
    upload_max_mb as u64 * 1_048_576 * 3 / 2
}

// ------------------------------------------------------------------------ csv

/// A sample as exported.
#[derive(Debug)]
pub struct CsvRow {
    pub timestamp_ms: u64,
    pub channel: String,
    /// The value as text.
    pub value: String,
}

/// A line of an export.
pub open spec fn csv_line(row: CsvRow) -> Seq<char> {
    dec(row.timestamp_ms as nat) + ","@ + row.channel@ + ","@ + row.value@ + "\n"@
}

/// The lines of an export.
pub open spec fn csv_lines(rows: Seq<CsvRow>) -> Seq<char>
    decreases rows.len(),
{
    if rows.len() == 0 {
        Seq::empty()
    } else {
        csv_lines(rows.drop_last()) + csv_line(rows.last())
    }
}

/// An export of samples: a heading, and a line for each.
pub fn csv_document(rows: &Vec<CsvRow>) -> (t: String)
    ensures
        t@ == "timestamp_ms,channel,value\n"@ + csv_lines(rows@),
{
    let mut t: String = "timestamp_ms,channel,value\n".to_owned();
    let ghost head = t@;
    assert(t@ =~= head + csv_lines(rows@.take(0)));
    for i in 0..rows.len()
        invariant
            t@ == head + csv_lines(rows@.take(i as int)),
    {
        assert(rows@.take(i + 1).drop_last() =~= rows@.take(i as int));
        push_dec(&mut t, rows[i].timestamp_ms);
        t.append(",");
        t.append(rows[i].channel.as_str());
        t.append(",");
        t.append(rows[i].value.as_str());
        t.append("\n");
        assert(t@ =~= head + csv_lines(rows@.take(i + 1)));
    }
    assert(rows@.take(rows@.len() as int) =~= rows@);
    t
}

/// The file name that an export is offered under.
pub fn csv_file_name(target_id: &str) -> (t: String)
    ensures
        t@ == target_id@ + "_telemetry.csv"@,
{
    let mut t: String = target_id.to_owned();
    t.append("_telemetry.csv");
    t
}

// ----------------------------------------------------------------- target ids

/// The id of the config file's `i`-th target. It is positional, so that a
/// target's history stays addressable across restarts.
pub fn config_target_id(i: usize) -> (t: String)
    ensures
        t@ == "target-"@ + dec(i as nat),
{
    let mut t: String = "target-".to_owned();
    push_dec(&mut t, i as u64);
    t
}

/// The id of a target that is added at run time, made of a random suffix. None
/// when a target has it already.
pub fn added_target_id(suffix: &str, taken: &Vec<String>) -> (r: Option<String>)
    ensures
        match r {
            Some(t) => t@ == "target-"@ + suffix@ && !texts(taken@).contains(t@),
            None => texts(taken@).contains("target-"@ + suffix@),
        },
{
    let mut t: String = "target-".to_owned();
    t.append(suffix);
    if list_holds(taken, t.as_str()) {
        None
    } else {
        Some(t)
    }
}

/// The targets to connect to at start.
pub open spec fn auto_ids(targets: Seq<TargetSection>) -> Seq<Seq<char>>
    decreases targets.len(),
{
    if targets.len() == 0 {
        Seq::empty()
    } else {
        let rest = auto_ids(targets.drop_last());
        if targets.last().auto_connect {
            rest.push("target-"@ + dec((targets.len() - 1) as nat))
        } else {
            rest
        }
    }
}

/// Lists the ids of the targets that are to be connected to at start.
pub fn auto_connect_ids(targets: &Vec<TargetSection>) -> (out: Vec<String>)
    ensures
        texts(out@) == auto_ids(targets@),
{
    let mut out: Vec<String> = Vec::new();
    assert(texts(out@) =~= Seq::empty());
    for i in 0..targets.len()
        invariant
            texts(out@) == auto_ids(targets@.take(i as int)),
    {
        assert(targets@.take(i + 1).drop_last() =~= targets@.take(i as int));
        if targets[i].auto_connect {
            let ghost prior = texts(out@);
            let id = config_target_id(i);
            let ghost named = id@;
            out.push(id);
            assert(texts(out@) =~= prior.push(named));
        }
    }
    assert(targets@.take(targets@.len() as int) =~= targets@);
    out
}

/// Port of a target that is added without one.
pub fn default_port_9000() -> (r: u16)
    ensures
        r == 9000,
{
    9000
}

/// What a health check answers for the whole server: degraded only when the
/// database cannot be written.
pub fn health_status(db_writable: bool) -> (r: &'static str)
    ensures
        r@ == if db_writable {
            "ok"@
        } else {
            "degraded"@
        },
{
    if db_writable {
        "ok"
    } else {
        "degraded"
    }
}

/// Positional ids are distinct: two places of the config file never share one.
pub proof fn config_ids_are_distinct(i: nat, j: nat)
    requires
        "target-"@ + dec(i) == "target-"@ + dec(j),
    ensures
        i == j,
{
    assert(dec(i) =~= ("target-"@ + dec(i)).skip("target-"@.len() as int));
    assert(dec(j) =~= ("target-"@ + dec(j)).skip("target-"@.len() as int));
    dec_is_injective(i, j);
}

proof fn dec_is_injective(i: nat, j: nat)
    requires
        dec(i) == dec(j),
    ensures
        i == j,
    decreases i,
{
    reveal_with_fuel(digits, 2);
    digits_are_some(i);
    digits_are_some(j);
    assert(dec(i).last() == digit(i % 10, false));
    assert(dec(j).last() == digit(j % 10, false));
    assert(i % 10 == j % 10);
    if i >= 10 && j >= 10 {
        assert(dec(i).drop_last() =~= dec(i / 10));
        assert(dec(j).drop_last() =~= dec(j / 10));
        dec_is_injective(i / 10, j / 10);
    } else if i >= 10 {
        digits_are_some(i / 10);
        assert(dec(i).len() >= 2 && dec(j).len() == 1);
    } else if j >= 10 {
        digits_are_some(j / 10);
        assert(dec(j).len() >= 2 && dec(i).len() == 1);
    }
}

proof fn digits_are_some(n: nat)
    ensures
        dec(n).len() > 0,
{
}

/// The targets connected to at start are exactly those of the config file that ask for it,
/// under the ids of their places.
pub proof fn auto_targets_are_those_that_ask(targets: Seq<TargetSection>, i: nat)
    ensures
        auto_ids(targets).contains("target-"@ + dec(i)) <==> i < targets.len()
            && targets[i as int].auto_connect,
    decreases targets.len(),
{
    if targets.len() > 0 {
        let front = targets.drop_last();
        auto_targets_are_those_that_ask(front, i);
        let n = (targets.len() - 1) as nat;
        let before = auto_ids(front);
        let all = auto_ids(targets);
        let id = "target-"@ + dec(i);
        if before.contains(id) {
            let k = choose|k: int| 0 <= k < before.len() && before[k] == id;
            assert(all[k] == id);
        }
        if targets.last().auto_connect {
            let own = "target-"@ + dec(n);
            assert(all == before.push(own));
            assert(all[all.len() - 1] == own);
            if all.contains(id) && !before.contains(id) {
                let k = choose|k: int| 0 <= k < all.len() && all[k] == id;
                if k < before.len() {
                    assert(before[k] == id);
                }
                config_ids_are_distinct(i, n);
            }
        }
    }
}

proof fn tunables_of_are_those(component: Seq<char>, structs: Seq<(Seq<char>, StructDef)>)
    ensures
        forall|k: int|
            0 <= k < structs.len() && (#[trigger] structs[k]).1.category@ == "TUNABLE_PARAM"@
                && structs[k].1.fields@.len() > 0 ==> tunables_of(component, structs).contains(
                TunableView {
                    component,
                    struct_name: structs[k].0,
                    size: structs[k].1.size,
                    field_count: structs[k].1.fields@.len(),
                },
            ),
        tunables_of(component, structs).len() <= structs.len(),
        (forall|k: int|
            0 <= k < structs.len() ==> (#[trigger] structs[k]).1.category@ != "TUNABLE_PARAM"@
                || structs[k].1.fields@.len() == 0) ==> tunables_of(component, structs).len() == 0,
    decreases structs.len(),
{
    if structs.len() > 0 {
        let front = structs.drop_last();
        tunables_of_are_those(component, front);
        let before = tunables_of(component, front);
        let all = tunables_of(component, structs);
        assert(structs[structs.len() - 1] == structs.last());
        assert forall|k: int|
            0 <= k < structs.len() && (#[trigger] structs[k]).1.category@ == "TUNABLE_PARAM"@
                && structs[k].1.fields@.len() > 0 implies all.contains(
            TunableView {
                component,
                struct_name: structs[k].0,
                size: structs[k].1.size,
                field_count: structs[k].1.fields@.len(),
            },
        ) by {
            let row = TunableView {
                component,
                struct_name: structs[k].0,
                size: structs[k].1.size,
                field_count: structs[k].1.fields@.len(),
            };
            if k < front.len() {
                assert(front[k] == structs[k]);
                assert(before.contains(row));
                let j = choose|j: int| 0 <= j < before.len() && before[j] == row;
                assert(all[j] == row);
            } else {
                assert(all[all.len() - 1] == row);
            }
        }
        if forall|k: int|
            0 <= k < structs.len() ==> (#[trigger] structs[k]).1.category@ != "TUNABLE_PARAM"@
                || structs[k].1.fields@.len() == 0 {
            assert forall|k: int| 0 <= k < front.len() implies (#[trigger] front[k]).1.category@
                != "TUNABLE_PARAM"@ || front[k].1.fields@.len() == 0 by {
                assert(front[k] == structs[k]);
            }
        }
    }
}

/// Every struct of tunable parameters that has fields is listed, with its component, its
/// name, its size and the number of its fields.
pub proof fn tunables_are_listed(
    components: Seq<(Seq<char>, ComponentDict)>,
    c: int,
    k: int,
)
    requires
        0 <= c < components.len(),
        0 <= k < components[c].1.structs@.len(),
        components[c].1.structs@[k].1.category@ == "TUNABLE_PARAM"@,
        components[c].1.structs@[k].1.fields@.len() > 0,
    ensures
        all_tunable_rows(components).contains(
            TunableView {
                component: components[c].1.component@,
                struct_name: components[c].1.structs@[k].0,
                size: components[c].1.structs@[k].1.size,
                field_count: components[c].1.structs@[k].1.fields@.len(),
            },
        ),
    decreases components.len(),
{
    let front = components.drop_last();
    let before = all_tunable_rows(front);
    let dict = components.last().1;
    let more = tunables_of(dict.component@, dict.structs@);
    let all = all_tunable_rows(components);
    let s = components[c].1.structs@[k];
    let row = TunableView {
        component: components[c].1.component@,
        struct_name: s.0,
        size: s.1.size,
        field_count: s.1.fields@.len(),
    };
    if c < front.len() {
        assert(front[c] == components[c]);
        tunables_are_listed(front, c, k);
        let j = choose|j: int| 0 <= j < before.len() && before[j] == row;
        assert(all[j] == row);
    } else {
        tunables_of_are_those(dict.component@, dict.structs@);
        assert(dict.structs@[k] == s);
        assert(more.contains(row));
        let j = choose|j: int| 0 <= j < more.len() && more[j] == row;
        assert(all[before.len() + j] == row);
    }
}

/// The lines of an export follow one another, one for each sample, in order.
pub proof fn exports_have_a_line_for_each_sample(a: Seq<CsvRow>, b: Seq<CsvRow>, row: CsvRow)
    ensures
        csv_lines(a + b) == csv_lines(a) + csv_lines(b),
        csv_lines(seq![row]) == dec(row.timestamp_ms as nat) + ","@ + row.channel@ + ","@
            + row.value@ + "\n"@,
    decreases b.len(),
{
    reveal_with_fuel(csv_lines, 2);
    assert(seq![row].drop_last() =~= Seq::empty());
    assert(csv_lines(seq![row]) =~= csv_line(row));
    if b.len() == 0 {
        assert(a + b =~= a);
        assert(csv_lines(a) + csv_lines(b) =~= csv_lines(a));
    } else {
        assert((a + b).drop_last() =~= a + b.drop_last());
        exports_have_a_line_for_each_sample(a, b.drop_last(), row);
        assert(csv_lines(a + b) =~= csv_lines(a) + csv_lines(b));
    }
}

/// A parameter image that is read with one struct shows the values of its fields: where the
/// dictionaries have the struct under the component and the name that were found, every
/// field that lies within the image, and that no later one of its name covers, has under
/// its name the value of its own bytes.
pub proof fn parameters_are_read_by_their_struct(
    components: Seq<(Seq<char>, ComponentDict)>,
    at: (int, int),
    data: Seq<u8>,
    r: ParamsReading,
    dict: ComponentDict,
    s: StructDef,
    k: int,
)
    requires
        fixed_reading(components, Some(at), data, r),
        lookup(components, components[at.0].1.component@) == Some(dict),
        lookup(dict.structs@, components[at.0].1.structs@[at.1].0) == Some(s),
        0 <= k < s.fields@.len(),
        s.fields@[k].offset + s.fields@[k].size <= data.len(),
        forall|j: int|
            k < j < s.fields@.len() ==> (#[trigger] s.fields@[j]).name@ != s.fields@[k].name@,
    ensures
        r matches ParamsReading::Fixed { component, struct_name, fields } && {
            &&& component@ == components[at.0].1.component@
            &&& struct_name@ == components[at.0].1.structs@[at.1].0
            &&& lookup(values_of(fields@), s.fields@[k].name@) == Some(
                crate::config_manager::field_view(data, s.fields@[k]),
            )
        },
{
    crate::config_manager::decoded_values_are_those_of_the_fields(
        data,
        s.fields@,
        data.len(),
        k,
    );
}

/// Nothing is made up: without a struct that was found, or without its entry in the
/// dictionaries, the image is reported as unknown.
pub proof fn unknown_parameters_stay_unknown(
    components: Seq<(Seq<char>, ComponentDict)>,
    found: Option<(int, int)>,
    data: Seq<u8>,
    r: ParamsReading,
)
    requires
        fixed_reading(components, found, data, r),
        found matches Some(at) ==> lookup(components, components[at.0].1.component@) is None,
    ensures
        r is Unknown,
{
}

} // verus!
