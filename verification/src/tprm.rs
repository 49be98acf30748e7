//! TPRM format A v3 prelude: stamp and verify.
//!
//! Every component payload zenith uploads carries a 20-byte little-endian
//! prelude the vehicle verifies before the body touches a component:
//!
//!   magic[4]       = "APV3"
//!   version[2]     = 3
//!   payloadSize[2] = byte length of the payload that follows
//!   fullUid[4]     = component the payload targets
//!   layoutHash[4]  = CRC-32 of the canonical field spec
//!   payloadCrc[4]  = CRC-32 (IEEE 802.3) of the payload bytes
//!
//! Canonical field spec (offset-aware): every leaf contributes
//! `name:type:size:offset;` in emission order (nested structs flatten to
//! their leaves at absolute offsets, arrays contribute
//! `name:array:total:offset;[elemtype:elemsizexN]`), terminated by
//! `|size:total`. layoutHash is the CRC-32 of that ASCII string, so two
//! layouts with the same fields still hash apart when their packing differs.

use vstd::prelude::*;

use crate::crc::{crc_of, crc_reflected};
use crate::text::{dec, push_dec};
use crate::wire::{get_u16_le, get_u32_le, put_bytes, put_u16_le, put_u32_le};

verus! {

/// v3 magic bytes.
pub const MAGIC: [u8; 4] = [0x41, 0x50, 0x56, 0x33];

/// v3 format version.
pub const VERSION: u16 = 3;

/// Prelude length in bytes.
pub const HEADER_SIZE: usize = 20;

/// Executive opcode: read back the staged bank's digest.
pub const OP_READBACK_TPRM: u16 = 0x0131;

/// Executive opcode: verify one staged payload without applying it.
pub const OP_VERIFY_TPRM: u16 = 0x0132;

/// The IEEE 802.3 polynomial, reflected.
pub const CRC32_POLY: u32 = 0xEDB8_8320;

/// Errors from prelude stamping and verification.
#[derive(Debug, Clone, Copy, PartialEq, Eq, Structural)]
pub enum TprmError {
    Truncated,
    BadMagic,
    BadVersion(u16),
    SizeMismatch { header: u16, actual: usize },
    BadCrc,
    TooLarge,
}

impl TprmError {
    /// The operator-facing text of the error.
    pub open spec fn text(self) -> Seq<char> {
        match self {
            TprmError::Truncated => "payload too short for v3 prelude"@,
            TprmError::BadMagic => "bad magic"@,
            TprmError::BadVersion(v) => "unsupported version "@ + dec(v as nat),
            TprmError::SizeMismatch { header, actual } => "payload size mismatch (header "@ + dec(
                header as nat,
            ) + ", actual "@ + dec(actual as nat) + ")"@,
            TprmError::BadCrc => "payload CRC mismatch"@,
            TprmError::TooLarge => "payload exceeds the u16 size field"@,
        }
    }

    /// The operator-facing text of the error.
    pub fn message(&self) -> (out: String)
        ensures
            out@ == self.text(),
    {
        match *self {
            TprmError::Truncated => "payload too short for v3 prelude".to_owned(),
            TprmError::BadMagic => "bad magic".to_owned(),
            TprmError::BadVersion(v) => {
                let mut out = "unsupported version ".to_owned();
                push_dec(&mut out, v as u64);
                out
            },
            TprmError::SizeMismatch { header, actual } => {
                let mut out = "payload size mismatch (header ".to_owned();
                push_dec(&mut out, header as u64);
                out.append(", actual ");
                push_dec(&mut out, actual as u64);
                out.append(")");
                out
            },
            TprmError::BadCrc => "payload CRC mismatch".to_owned(),
            TprmError::TooLarge => "payload exceeds the u16 size field".to_owned(),
        }
    }
}

/// One leaf of a payload layout, in emission order. Nested structs do not
/// appear as entries: they flatten to their leaves, each carrying its
/// absolute offset.
#[derive(Debug, Clone, Copy)]
pub struct LeafSpec<'a> {
    pub name: &'a str,
    pub field_type: &'a str,
    /// Total serialized bytes of this leaf (element size x count for
    /// arrays).
    pub size: usize,
    /// Absolute byte offset within the payload.
    pub offset: usize,
    /// For arrays: (element_type, element_size, element_count).
    pub array: Option<(&'a str, usize, usize)>,
}

/// A leaf's contribution to the canonical field spec.
pub open spec fn leaf_text(leaf: LeafSpec) -> Seq<char> {
    match leaf.array {
        None => leaf.name@ + ":"@ + leaf.field_type@ + ":"@ + dec(leaf.size as nat) + ":"@ + dec(
            leaf.offset as nat,
        ) + ";"@,
        Some((elem_type, elem_size, count)) => leaf.name@ + ":array:"@ + dec(leaf.size as nat)
            + ":"@ + dec(leaf.offset as nat) + ";["@ + elem_type@ + ":"@ + dec(elem_size as nat)
            + "x"@ + dec(count as nat) + "]"@,
    }
}

/// The contributions of all leaves, in order.
pub open spec fn leaves_text(fields: Seq<LeafSpec>) -> Seq<char>
    decreases fields.len(),
{
    if fields.len() == 0 {
        Seq::empty()
    } else {
        leaves_text(fields.drop_last()) + leaf_text(fields.last())
    }
}

/// The canonical field spec.
pub open spec fn canonical_text(fields: Seq<LeafSpec>, total_size: nat) -> Seq<char> {
    leaves_text(fields) + "|size:"@ + dec(total_size)
}

/// CRC-32 (IEEE 802.3).
pub open spec fn crc32_of(data: Seq<u8>) -> u32 {
    crc_of(CRC32_POLY, data)
}

/// The layout hash: CRC-32 over the canonical field spec.
pub open spec fn layout_hash_of(fields: Seq<LeafSpec>, total_size: nat) -> u32 {
    crc32_of(vstd::utf8::encode_utf8(canonical_text(fields, total_size)))
}

/// Parsed v3 prelude fields.
#[derive(Debug, Clone, Copy, PartialEq, Eq, Structural)]
pub struct PreludeFields {
    pub version: u16,
    pub payload_size: u16,
    pub full_uid: u32,
    pub layout_hash: u32,
    pub payload_crc: u32,
}

/// The prelude of a payload.
pub open spec fn prelude_bytes(p: PreludeFields) -> Seq<u8> {
    seq![MAGIC[0], MAGIC[1], MAGIC[2], MAGIC[3]] + crate::wire::u16_le_bytes(p.version)
        + crate::wire::u16_le_bytes(p.payload_size) + crate::wire::u32_le_bytes(p.full_uid)
        + crate::wire::u32_le_bytes(p.layout_hash) + crate::wire::u32_le_bytes(p.payload_crc)
}

/// The prelude a payload is stamped with.
pub open spec fn prelude_for(full_uid: u32, layout_hash: u32, payload: Seq<u8>) -> PreludeFields {
    PreludeFields {
        version: VERSION,
        payload_size: payload.len() as u16,
        full_uid,
        layout_hash,
        payload_crc: crc32_of(payload),
    }
}

/// A stamped payload.
pub open spec fn stamped(full_uid: u32, layout_hash: u32, payload: Seq<u8>) -> Seq<u8> {
    prelude_bytes(prelude_for(full_uid, layout_hash, payload)) + payload
}

/// The prelude fields that stand at the front of `data`.
pub open spec fn prelude_at(data: Seq<u8>) -> PreludeFields {
    PreludeFields {
        version: crate::wire::u16_le_at(data, 4),
        payload_size: crate::wire::u16_le_at(data, 6),
        full_uid: crate::wire::u32_le_at(data, 8),
        layout_hash: crate::wire::u32_le_at(data, 12),
        payload_crc: crate::wire::u32_le_at(data, 16),
    }
}

/// What verification of `data` finds: the first defect in the order length,
/// magic, version, size, body CRC; otherwise the prelude fields and the body.
pub open spec fn verified(data: Seq<u8>) -> Result<(PreludeFields, Seq<u8>), TprmError> {
    let p = prelude_at(data);
    let body = data.skip(HEADER_SIZE as int);
    if data.len() < HEADER_SIZE {
        Err(TprmError::Truncated)
    } else if data[0] != MAGIC[0] || data[1] != MAGIC[1] || data[2] != MAGIC[2] || data[3]
        != MAGIC[3] {
        Err(TprmError::BadMagic)
    } else if p.version != VERSION {
        Err(TprmError::BadVersion(p.version))
    } else if body.len() != p.payload_size {
        Err(TprmError::SizeMismatch { header: p.payload_size, actual: body.len() as usize })
    } else if crc32_of(body) != p.payload_crc {
        Err(TprmError::BadCrc)
    } else {
        Ok((p, body))
    }
}

/// CRC-32 (IEEE 802.3): reflected polynomial 0xEDB88320, init and final XOR
/// 0xFFFFFFFF. Distinct from the CRC-32C the file-transfer protocol uses; the
/// two must not be conflated.
pub fn crc32(data: &[u8]) -> (r: u32)
    ensures
        r == crc32_of(data@),
{
    crc_reflected(CRC32_POLY, data)
}

/// Append a leaf's contribution to the canonical field spec.
fn push_leaf(out: &mut String, leaf: &LeafSpec)
    ensures
        final(out)@ == old(out)@ + leaf_text(*leaf),
{
    let mut t = leaf.name.to_owned();
    match leaf.array {
        None => {
            t.append(":");
            t.append(leaf.field_type);
            t.append(":");
            push_dec(&mut t, leaf.size as u64);
            t.append(":");
            push_dec(&mut t, leaf.offset as u64);
            t.append(";");
        },
        Some((elem_type, elem_size, count)) => {
            t.append(":array:");
            push_dec(&mut t, leaf.size as u64);
            t.append(":");
            push_dec(&mut t, leaf.offset as u64);
            t.append(";[");
            t.append(elem_type);
            t.append(":");
            push_dec(&mut t, elem_size as u64);
            t.append("x");
            push_dec(&mut t, count as u64);
            t.append("]");
        },
    }
    out.append(t.as_str());
}

/// Build the canonical field spec string. Scalar leaves contribute
/// `name:type:size:offset;`; array leaves contribute
/// `name:array:totalsize:offset;[elemtype:elemsizexN]`; the string ends with
/// the `|size:total` terminator so trailing padding is part of the hashed
/// layout.
pub fn canonical_field_spec(fields: &[LeafSpec], total_size: usize) -> (spec_text: String)
    ensures
        spec_text@ == canonical_text(fields@, total_size as nat),
{
    let mut out = String::new();
    for i in 0..fields.len()
        invariant
            out@ == leaves_text(fields@.take(i as int)),
    {
        assert(fields@.take(i + 1).drop_last() =~= fields@.take(i as int));
        push_leaf(&mut out, &fields[i]);
    }
    assert(fields@.take(fields@.len() as int) =~= fields@);
    out.append("|size:");
    push_dec(&mut out, total_size as u64);
    out
}

/// layoutHash over a canonical field spec.
pub fn layout_hash(fields: &[LeafSpec], total_size: usize) -> (r: u32)
    ensures
        r == layout_hash_of(fields@, total_size as nat),
{
    let t = canonical_field_spec(fields, total_size);
    crc32(t.as_str().as_bytes())
}

/// Stamp the v3 prelude onto a payload body.
pub fn stamp_v3(full_uid: u32, layout_hash: u32, payload: &[u8]) -> (r: Result<Vec<u8>, TprmError>)
    ensures
        match r {
            Ok(out) => {
                &&& payload@.len() <= 0xFFFF
                &&& out@ == stamped(full_uid, layout_hash, payload@)
            },
            Err(e) => payload@.len() > 0xFFFF && e == TprmError::TooLarge,
        },
{
    if payload.len() > 0xFFFF {
        return Err(TprmError::TooLarge);
    }
    let mut out: Vec<u8> = Vec::new();
    out.push(MAGIC[0]);
    out.push(MAGIC[1]);
    out.push(MAGIC[2]);
    out.push(MAGIC[3]);
    put_u16_le(&mut out, VERSION);
    put_u16_le(&mut out, payload.len() as u16);
    put_u32_le(&mut out, full_uid);
    put_u32_le(&mut out, layout_hash);
    put_u32_le(&mut out, crc32(payload));
    put_bytes(&mut out, payload);
    assert(out@ =~= stamped(full_uid, layout_hash, payload@));
    Ok(out)
}

/// Verify a stamped payload and return its prelude fields and body. Checks
/// magic, version, declared-vs-actual size, and body CRC; the caller compares
/// full_uid and layout_hash against its expectations (they are policy, not
/// format).
pub fn parse_v3<'a>(data: &'a [u8]) -> (r: Result<(PreludeFields, &'a [u8]), TprmError>)
    ensures
        match r {
            Ok((p, body)) => verified(data@) == Ok::<_, TprmError>((p, body@)),
            Err(e) => verified(data@) == Err::<(PreludeFields, Seq<u8>), _>(e),
        },
{
    if data.len() < HEADER_SIZE {
        return Err(TprmError::Truncated);
    }
    if data[0] != MAGIC[0] || data[1] != MAGIC[1] || data[2] != MAGIC[2] || data[3] != MAGIC[3] {
        return Err(TprmError::BadMagic);
    }
    let version: u16 = get_u16_le(data, 4);
    if version != VERSION {
        return Err(TprmError::BadVersion(version));
    }
    let payload_size: u16 = get_u16_le(data, 6);
    let body = vstd::slice::slice_subrange(data, HEADER_SIZE, data.len());
    assert(body@ =~= data@.skip(HEADER_SIZE as int));
    if body.len() != payload_size as usize {
        return Err(TprmError::SizeMismatch { header: payload_size, actual: body.len() });
    }
    let fields = PreludeFields {
        version,
        payload_size,
        full_uid: get_u32_le(data, 8),
        layout_hash: get_u32_le(data, 12),
        payload_crc: get_u32_le(data, 16),
    };
    if crc32(body) != fields.payload_crc {
        return Err(TprmError::BadCrc);
    }
    Ok((fields, body))
}

/// The name of a payload-check fault code.
pub open spec fn check_name_of(code: u8) -> Seq<char> {
    match code {
        0 => "OK"@,
        1 => "FILE_ERROR"@,
        2 => "TOO_SMALL"@,
        3 => "BAD_MAGIC"@,
        4 => "BAD_VERSION"@,
        5 => "SIZE_MISMATCH"@,
        6 => "UID_MISMATCH"@,
        7 => "CRC_MISMATCH"@,
        8 => "BODY_SIZE_MISMATCH"@,
        9 => "CONSTRAINT_VIOLATION"@,
        10 => "LAYOUT_MISMATCH"@,
        _ => "UNKNOWN"@,
    }
}

/// Payload-check fault-code names: the vocabulary the vehicle speaks for both
/// VERIFY verdicts and RELOAD-refusal extra bytes. Hash mismatch and
/// constraint violation are distinct codes.
pub fn payload_check_name(code: u8) -> (name: &'static str)
    ensures
        name@ == check_name_of(code),
{
    match code {
        0 => "OK",
        1 => "FILE_ERROR",
        2 => "TOO_SMALL",
        3 => "BAD_MAGIC",
        4 => "BAD_VERSION",
        5 => "SIZE_MISMATCH",
        6 => "UID_MISMATCH",
        7 => "CRC_MISMATCH",
        8 => "BODY_SIZE_MISMATCH",
        9 => "CONSTRAINT_VIOLATION",
        10 => "LAYOUT_MISMATCH",
        _ => "UNKNOWN",
    }
}

/// One staged-bank digest row: the identity a staged payload's prelude
/// declares, plus the vehicle's header verdict for the file. Corrupt files
/// are rows with non-OK verdicts, never skipped.
#[derive(Debug, Clone, Copy, PartialEq)]
pub struct ReadbackRow {
    pub full_uid: u32,
    pub layout_hash: u32,
    pub payload_crc: u32,
    pub verdict: u8,
    pub verdict_name: &'static str,
}

/// One READBACK_TPRM page: 8-byte header (total u16, first u16, count u8,
/// reserved[3]) + 16-byte rows.
#[derive(Debug, Clone, PartialEq)]
pub struct ReadbackPage {
    pub total: u16,
    pub first: u16,
    pub rows: Vec<ReadbackRow>,
}

/// Whether `row` is the digest row at offset `at` of a page.
pub open spec fn is_row_at(row: ReadbackRow, extra: Seq<u8>, at: int) -> bool {
    &&& row.full_uid == crate::wire::u32_le_at(extra, at)
    &&& row.layout_hash == crate::wire::u32_le_at(extra, at + 4)
    &&& row.payload_crc == crate::wire::u32_le_at(extra, at + 8)
    &&& row.verdict == extra[at + 12]
    &&& row.verdict_name@ == check_name_of(row.verdict)
}

/// Whether a page is complete: the header and every row it announces.
pub open spec fn page_is_complete(extra: Seq<u8>) -> bool {
    extra.len() >= 8 && extra.len() >= 8 + extra[4] * 16
}

/// Whether `page` is what a complete page says.
pub open spec fn is_page(page: ReadbackPage, extra: Seq<u8>) -> bool {
    &&& page.total == crate::wire::u16_le_at(extra, 0)
    &&& page.first == crate::wire::u16_le_at(extra, 2)
    &&& page.rows@.len() == extra[4]
    &&& forall|i: int|
        0 <= i < page.rows@.len() ==> is_row_at(#[trigger] page.rows@[i], extra, 8 + 16 * i)
}

/// Parse one READBACK_TPRM page.
pub fn parse_readback_page(extra: &[u8]) -> (r: Result<ReadbackPage, TprmError>)
    ensures
        match r {
            Ok(page) => page_is_complete(extra@) && is_page(page, extra@),
            Err(e) => !page_is_complete(extra@) && e == TprmError::Truncated,
        },
{
    if extra.len() < 8 {
        return Err(TprmError::Truncated);
    }
    let count: usize = extra[4] as usize;
    if extra.len() < 8 + count * 16 {
        return Err(TprmError::Truncated);
    }
    let mut rows: Vec<ReadbackRow> = Vec::new();
    for i in 0..count
        invariant
            count <= 255,
            extra@.len() >= 8 + count * 16,
            rows@.len() == i,
            forall|j: int| 0 <= j < i ==> is_row_at(#[trigger] rows@[j], extra@, 8 + 16 * j),
    {
        let at: usize = 8 + i * 16;
        let verdict: u8 = extra[at + 12];
        rows.push(
            ReadbackRow {
                full_uid: get_u32_le(extra, at),
                layout_hash: get_u32_le(extra, at + 4),
                payload_crc: get_u32_le(extra, at + 8),
                verdict,
                verdict_name: payload_check_name(verdict),
            },
        );
    }
    Ok(ReadbackPage { total: get_u16_le(extra, 0), first: get_u16_le(extra, 2), rows })
}

/// A VERIFY_TPRM verdict block: verdict u8, reserved[3], then the declared
/// layoutHash and payloadCrc from the staged prelude.
#[derive(Debug, Clone, Copy)]
pub struct VerifyVerdict {
    pub verdict: u8,
    pub verdict_name: &'static str,
    pub ok: bool,
    pub declared_layout_hash: u32,
    pub declared_payload_crc: u32,
}

/// Whether `v` is what a verdict block says.
pub open spec fn is_verdict(v: VerifyVerdict, extra: Seq<u8>) -> bool {
    &&& v.verdict == extra[0]
    &&& v.verdict_name@ == check_name_of(v.verdict)
    &&& v.ok == (v.verdict == 0)
    &&& v.declared_layout_hash == crate::wire::u32_le_at(extra, 4)
    &&& v.declared_payload_crc == crate::wire::u32_le_at(extra, 8)
}

/// Parse a VERIFY_TPRM verdict block.
pub fn parse_verify_verdict(extra: &[u8]) -> (r: Result<VerifyVerdict, TprmError>)
    ensures
        match r {
            Ok(v) => extra@.len() >= 12 && is_verdict(v, extra@),
            Err(e) => extra@.len() < 12 && e == TprmError::Truncated,
        },
{
    if extra.len() < 12 {
        return Err(TprmError::Truncated);
    }
    let verdict: u8 = extra[0];
    Ok(
        VerifyVerdict {
            verdict,
            verdict_name: payload_check_name(verdict),
            ok: verdict == 0,
            declared_layout_hash: get_u32_le(extra, 4),
            declared_payload_crc: get_u32_le(extra, 8),
        },
    )
}

/// Verification accepts exactly what stamping produced: the prelude fields
/// and the body come back.
pub proof fn verify_undoes_stamp(full_uid: u32, layout_hash: u32, payload: Seq<u8>)
    requires
        payload.len() <= 0xFFFF,
    ensures
        verified(stamped(full_uid, layout_hash, payload)) == Ok::<_, TprmError>(
            (prelude_for(full_uid, layout_hash, payload), payload),
        ),
{
    let data = stamped(full_uid, layout_hash, payload);
    let p = prelude_for(full_uid, layout_hash, payload);
    assert(data.subrange(4, 6) =~= crate::wire::u16_le_bytes(p.version));
    assert(data.subrange(6, 8) =~= crate::wire::u16_le_bytes(p.payload_size));
    assert(data.subrange(8, 12) =~= crate::wire::u32_le_bytes(p.full_uid));
    assert(data.subrange(12, 16) =~= crate::wire::u32_le_bytes(p.layout_hash));
    assert(data.subrange(16, 20) =~= crate::wire::u32_le_bytes(p.payload_crc));
    crate::wire::u16_le_reads(data, 4, p.version);
    crate::wire::u16_le_reads(data, 6, p.payload_size);
    crate::wire::u32_le_reads(data, 8, p.full_uid);
    crate::wire::u32_le_reads(data, 12, p.layout_hash);
    crate::wire::u32_le_reads(data, 16, p.payload_crc);
    assert(prelude_at(data) == p);
    assert(data.skip(HEADER_SIZE as int) =~= payload);
}

/// A payload that verifies is reproduced byte for byte by stamping its body
/// with the identity it declares.
pub proof fn stamp_undoes_verify(data: Seq<u8>)
    requires
        verified(data) is Ok,
    ensures
        ({
            let (p, body) = verified(data)->Ok_0;
            stamped(p.full_uid, p.layout_hash, body) == data
        }),
{
    let (p, body) = verified(data)->Ok_0;
    let again = stamped(p.full_uid, p.layout_hash, body);
    crate::wire::u16_le_write_back(data, 4);
    crate::wire::u16_le_write_back(data, 6);
    crate::wire::u32_le_write_back(data, 8);
    crate::wire::u32_le_write_back(data, 12);
    crate::wire::u32_le_write_back(data, 16);
    assert(again =~= data);
}

/// The total size is part of the canonical spec: a layout text always ends in
/// the terminator with the total.
pub proof fn total_size_is_hashed(fields: Seq<LeafSpec>, total_size: nat)
    ensures
        ({
            let t = canonical_text(fields, total_size);
            let tail = "|size:"@ + dec(total_size);
            t.len() >= tail.len() && t.skip(t.len() - tail.len()) == tail
        }),
{
    let t = canonical_text(fields, total_size);
    let tail = "|size:"@ + dec(total_size);
    assert(t =~= leaves_text(fields) + tail);
    assert(t.skip(t.len() - tail.len()) =~= tail);
}

/// A stamped payload is the 20-byte prelude followed by the payload: "APV3", then the
/// version 3, the payload's length, the address, the layout hash and the payload's
/// CRC-32, each least significant byte first.
pub proof fn preludes_are_laid_out(full_uid: u32, layout_hash: u32, payload: Seq<u8>)
    requires
        payload.len() <= 0xFFFF,
    ensures
        ({
            let data = stamped(full_uid, layout_hash, payload);
            &&& data.len() == 20 + payload.len()
            &&& data[0] == 0x41 && data[1] == 0x50 && data[2] == 0x56 && data[3] == 0x33
            &&& crate::wire::le_value(data, 4, 2) == 3
            &&& crate::wire::le_value(data, 6, 2) == payload.len()
            &&& crate::wire::le_value(data, 8, 4) == full_uid
            &&& crate::wire::le_value(data, 12, 4) == layout_hash
            &&& crate::wire::le_value(data, 16, 4) == crc32_of(payload)
            &&& data.skip(20) == payload
        }),
{
    let data = stamped(full_uid, layout_hash, payload);
    verify_undoes_stamp(full_uid, layout_hash, payload);
    payloads_verify_by_their_bytes(data);
    assert(data.skip(20) =~= payload);
}

/// What verification finds is decided by the bytes, in this order: 20 bytes at least,
/// "APV3", version 3, the length that follows, and the CRC-32 of what follows. The
/// first that is not so is the error; otherwise the address, the layout hash and the
/// CRC are the numbers that stand in the prelude, and the body is what follows it.
pub proof fn payloads_verify_by_their_bytes(data: Seq<u8>)
    ensures
        ({
            let magic = data[0] == 0x41 && data[1] == 0x50 && data[2] == 0x56 && data[3] == 0x33;
            let version = crate::wire::le_value(data, 4, 2);
            let size = crate::wire::le_value(data, 6, 2);
            let body = data.skip(20);
            let crc = crate::wire::le_value(data, 16, 4);
            &&& data.len() < 20 <==> verified(data) == Err::<(PreludeFields, Seq<u8>), _>(
                TprmError::Truncated,
            )
            &&& data.len() >= 20 && !magic <==> verified(data) == Err::<
                (PreludeFields, Seq<u8>),
                _,
            >(TprmError::BadMagic)
            &&& data.len() >= 20 && magic && version != 3 <==> verified(data) == Err::<
                (PreludeFields, Seq<u8>),
                _,
            >(TprmError::BadVersion(version as u16))
            &&& data.len() >= 20 && magic && version == 3 && size != body.len() ==> verified(data)
                == Err::<(PreludeFields, Seq<u8>), _>(
                TprmError::SizeMismatch { header: size as u16, actual: body.len() as usize },
            )
            &&& data.len() >= 20 && magic && version == 3 && size == body.len() && crc != crc32_of(
                body,
            ) <==> verified(data) == Err::<(PreludeFields, Seq<u8>), _>(TprmError::BadCrc)
            &&& data.len() >= 20 && magic && version == 3 && size == body.len() && crc == crc32_of(
                body,
            ) <==> verified(data) is Ok
            &&& verified(data) matches Ok((p, b)) ==> {
                &&& p.version == 3
                &&& p.payload_size == size
                &&& p.full_uid == crate::wire::le_value(data, 8, 4)
                &&& p.layout_hash == crate::wire::le_value(data, 12, 4)
                &&& p.payload_crc == crc
                &&& b == body
            }
        }),
{
    crate::wire::words_are_the_numbers_of_their_bytes(data, 4);
    crate::wire::words_are_the_numbers_of_their_bytes(data, 6);
    crate::wire::words_are_the_numbers_of_their_bytes(data, 8);
    crate::wire::words_are_the_numbers_of_their_bytes(data, 12);
    crate::wire::words_are_the_numbers_of_their_bytes(data, 16);
}

/// A payload damaged in one byte of its body does not verify.
pub proof fn damaged_bodies_do_not_verify(data: Seq<u8>, i: int, b: u8)
    requires
        verified(data) is Ok,
        20 <= i < data.len(),
        data[i] != b,
    ensures
        verified(data.update(i, b)) == Err::<(PreludeFields, Seq<u8>), _>(TprmError::BadCrc),
{
    let bad = data.update(i, b);
    let (x, y) = (data.skip(20), bad.skip(20));
    crate::crc::one_damaged_byte_is_noticed(CRC32_POLY, x, y, i - 20);
    crate::wire::same_bytes_same_number(data, 16, bad, 16, 4);
    payloads_verify_by_their_bytes(data);
    payloads_verify_by_their_bytes(bad);
    crate::wire::same_bytes_same_number(data, 4, bad, 4, 2);
    crate::wire::same_bytes_same_number(data, 6, bad, 6, 2);
}

/// Fault codes keep their names apart: the codes up to 10 have names of their own,
/// none of them the one that every other code shares.
pub proof fn check_names_tell_codes_apart(a: u8, b: u8)
    requires
        a <= 10,
        a != b,
    ensures
        check_name_of(a) != check_name_of(b),
{
    reveal_strlit("OK");
    reveal_strlit("FILE_ERROR");
    reveal_strlit("TOO_SMALL");
    reveal_strlit("BAD_MAGIC");
    reveal_strlit("BAD_VERSION");
    reveal_strlit("SIZE_MISMATCH");
    reveal_strlit("UID_MISMATCH");
    reveal_strlit("CRC_MISMATCH");
    reveal_strlit("BODY_SIZE_MISMATCH");
    reveal_strlit("CONSTRAINT_VIOLATION");
    reveal_strlit("LAYOUT_MISMATCH");
    reveal_strlit("UNKNOWN");
    assert("TOO_SMALL"@[0] != "BAD_MAGIC"@[0]);
    assert("UID_MISMATCH"@[0] != "CRC_MISMATCH"@[0]);
    let (n, m) = (check_name_of(a), check_name_of(b));
    if n == m {
        assert(n.len() == m.len() && n[0] == m[0]);
    }
}

/// Packing is part of the hashed text: two leaves of one name and type that are not
/// arrays contribute the same text only when their sizes and their offsets agree.
pub proof fn packing_is_hashed(a: LeafSpec, b: LeafSpec)
    requires
        a.name@ == b.name@,
        a.field_type@ == b.field_type@,
        a.array is None,
        b.array is None,
        leaf_text(a) == leaf_text(b),
    ensures
        a.size == b.size,
        a.offset == b.offset,
{
    reveal_strlit(":");
    reveal_strlit(";");
    assert(":"@ =~= seq![':'] && ";"@ =~= seq![';']);
    let (n, t) = (a.name@, a.field_type@);
    let (da, oa) = (dec(a.size as nat), dec(a.offset as nat));
    let (db, ob) = (dec(b.size as nat), dec(b.offset as nat));
    grouped(n, ":"@, t, ":"@, da, ":"@, oa, ";"@);
    grouped(n, ":"@, t, ":"@, db, ":"@, ob, ";"@);
    number_ends_at(a.size as nat, b.size as nat, ':', oa + ";"@, ob + ";"@);
    let end = Seq::<char>::empty();
    assert(oa + ";"@ =~= oa + seq![';'] + end);
    assert(ob + ";"@ =~= ob + seq![';'] + end);
    number_ends_at(a.offset as nat, b.offset as nat, ';', end, end);
}

/// Eight texts in a row are the last four behind the first four.
proof fn grouped(
    a: Seq<char>,
    b: Seq<char>,
    c: Seq<char>,
    d: Seq<char>,
    e: Seq<char>,
    f: Seq<char>,
    g: Seq<char>,
    h: Seq<char>,
)
    ensures
        (a + b + c + d + e + f + g + h).skip((a + b + c + d).len() as int) == e + f + (g + h),
{
    assert((a + b + c + d + e + f + g + h).skip((a + b + c + d).len() as int) =~= e + f + (g + h));
}

/// A decimal number ends at the first character behind it that is no digit.
proof fn number_ends_at(a: nat, b: nat, c: char, x: Seq<char>, y: Seq<char>)
    requires
        crate::text::digit_value(c, 10) is None,
        dec(a) + seq![c] + x == dec(b) + seq![c] + y,
    ensures
        a == b,
        x == y,
{
    let (p, q) = (dec(a), dec(b));
    let (s, t) = (p + seq![c] + x, q + seq![c] + y);
    crate::text::digits_read_back(a, 10, false);
    crate::text::digits_read_back(b, 10, false);
    if p.len() < q.len() {
        assert(s[p.len() as int] == c && t[p.len() as int] == q[p.len() as int]);
    }
    if q.len() < p.len() {
        assert(t[q.len() as int] == c && s[q.len() as int] == p[q.len() as int]);
    }
    assert(s.take(p.len() as int) =~= p && t.take(q.len() as int) =~= q);
    crate::text::decimals_differ(a, b);
    assert(s.skip(p.len() as int + 1) =~= x && t.skip(q.len() as int + 1) =~= y);
}

/// A digest page is read from its bytes: the total and the first index, the number of rows,
/// and behind eight bytes the rows of sixteen, each with the address, the layout hash, the
/// payload CRC and the code, least significant byte first. A page that is shorter than it
/// says is not read.
pub proof fn pages_are_read_from_their_bytes(page: ReadbackPage, extra: Seq<u8>, i: int)
    requires
        is_page(page, extra),
        0 <= i < page.rows@.len(),
    ensures
        page_is_complete(extra) <==> extra.len() >= 8 && extra.len() >= 8 + 16 * page.rows@.len(),
        page.total == crate::wire::le_value(extra, 0, 2),
        page.first == crate::wire::le_value(extra, 2, 2),
        page.rows@.len() == extra[4],
        page.rows@[i].full_uid == crate::wire::le_value(extra, 8 + 16 * i, 4),
        page.rows@[i].layout_hash == crate::wire::le_value(extra, 12 + 16 * i, 4),
        page.rows@[i].payload_crc == crate::wire::le_value(extra, 16 + 16 * i, 4),
        page.rows@[i].verdict == extra[20 + 16 * i],
        page.rows@[i].verdict_name@ == check_name_of(extra[20 + 16 * i]),
{
    assert(is_row_at(page.rows@[i], extra, 8 + 16 * i));
    crate::wire::words_are_the_numbers_of_their_bytes(extra, 0);
    crate::wire::words_are_the_numbers_of_their_bytes(extra, 2);
    crate::wire::words_are_the_numbers_of_their_bytes(extra, 8 + 16 * i);
    crate::wire::words_are_the_numbers_of_their_bytes(extra, 8 + 16 * i + 4);
    crate::wire::words_are_the_numbers_of_their_bytes(extra, 8 + 16 * i + 8);
}

/// A block that answers a verify is read from its bytes: the code in front, which is
/// accepted if and only if it is zero, and the declared layout hash and payload CRC behind
/// three reserved bytes.
pub proof fn blocks_are_read_from_their_bytes(v: VerifyVerdict, extra: Seq<u8>)
    requires
        is_verdict(v, extra),
    ensures
        v.verdict == extra[0],
        v.verdict_name@ == check_name_of(extra[0]),
        v.ok <==> extra[0] == 0,
        v.declared_layout_hash == crate::wire::le_value(extra, 4, 4),
        v.declared_payload_crc == crate::wire::le_value(extra, 8, 4),
{
    crate::wire::words_are_the_numbers_of_their_bytes(extra, 4);
    crate::wire::words_are_the_numbers_of_their_bytes(extra, 8);
}

/// A name tells the fault code, and no other code has it: whoever reads a name knows which
/// check of the vehicle failed.
pub proof fn names_tell_the_code(code: u8)
    ensures
        check_name_of(code) == "OK"@ <==> code == 0,
        check_name_of(code) == "FILE_ERROR"@ <==> code == 1,
        check_name_of(code) == "TOO_SMALL"@ <==> code == 2,
        check_name_of(code) == "BAD_MAGIC"@ <==> code == 3,
        check_name_of(code) == "BAD_VERSION"@ <==> code == 4,
        check_name_of(code) == "SIZE_MISMATCH"@ <==> code == 5,
        check_name_of(code) == "UID_MISMATCH"@ <==> code == 6,
        check_name_of(code) == "CRC_MISMATCH"@ <==> code == 7,
        check_name_of(code) == "BODY_SIZE_MISMATCH"@ <==> code == 8,
        check_name_of(code) == "CONSTRAINT_VIOLATION"@ <==> code == 9,
        check_name_of(code) == "LAYOUT_MISMATCH"@ <==> code == 10,
{
    if code != 0 {
        check_names_tell_codes_apart(0, code);
    }
    if code != 1 {
        check_names_tell_codes_apart(1, code);
    }
    if code != 2 {
        check_names_tell_codes_apart(2, code);
    }
    if code != 3 {
        check_names_tell_codes_apart(3, code);
    }
    if code != 4 {
        check_names_tell_codes_apart(4, code);
    }
    if code != 5 {
        check_names_tell_codes_apart(5, code);
    }
    if code != 6 {
        check_names_tell_codes_apart(6, code);
    }
    if code != 7 {
        check_names_tell_codes_apart(7, code);
    }
    if code != 8 {
        check_names_tell_codes_apart(8, code);
    }
    if code != 9 {
        check_names_tell_codes_apart(9, code);
    }
    if code != 10 {
        check_names_tell_codes_apart(10, code);
    }
}

} // verus!
