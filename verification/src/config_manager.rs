//! Struct dictionaries and app manifests.
//!
//! The build artifacts in a target's configuration directory: struct
//! dictionaries with field-level type information for decoding telemetry and
//! generating command forms, the app manifest, plot layouts and the command
//! catalog.

use vstd::prelude::*;

use crate::codec::{hex_encode, hex_text};
use crate::json::Json;
use crate::text::{
    chars_of, contains_text, dec, has_prefix, hex_u32_value, lowercase, lowercased, occurs_in,
    parse_hex_u32, push_dec, same_text, starts_with_text, strip_hex_prefix, text_of, texts,
    without_hex_prefix,
};
use crate::text_map::{lookup, put, TextMap};
use crate::wire::{get_u16_le, get_u32_le, get_u64_le};

verus! {

/// A single field in a struct.
#[derive(Debug)]
pub struct FieldDef {
    pub name: String,
    pub field_type: String,
    pub offset: usize,
    pub size: usize,
    pub value: Json,
    pub element_type: Option<String>,
    pub dims: Option<Vec<usize>>,
    /// Rails the dictionary puts on the field's value.
    pub constraints: Option<Json>,
    /// Name of the struct a nested field refers to.
    pub struct_ref: Option<String>,
}

/// A struct definition with its fields.
#[derive(Debug)]
pub struct StructDef {
    pub category: String,
    pub size: usize,
    pub opcode: Option<String>,
    pub fields: Vec<FieldDef>,
    /// Producer-stated v3 layout hash ("0x" hex). When present it is THE hash
    /// the vehicle verifies; consumers must not recompute.
    pub layout_hash: Option<String>,
    /// The canonical field-spec string the hash derives from (diagnostic
    /// surface; the hash is the contract).
    pub canonical_spec: Option<String>,
    pub packed: Option<bool>,
}

impl StructDef {
    /// The producer-stated layout hash as a number.
    pub open spec fn stated_hash(self) -> Option<u32> {
        match self.layout_hash {
            Some(s) => hex_u32_value(s@),
            None => None,
        }
    }

    /// The producer-stated layout hash as the u32 the prelude carries, when
    /// the dictionary exports one.
    pub fn layout_hash_u32(&self) -> (r: Option<u32>)
        ensures
            r == self.stated_hash(),
    {
        match &self.layout_hash {
            Some(s) => parse_hex_u32(s.as_str()),
            None => None,
        }
    }
}

/// A component's struct dictionary (one JSON file).
#[derive(Debug)]
pub struct ComponentDict {
    pub component: String,
    pub structs: TextMap<StructDef>,
    pub enums: TextMap<Json>,
    /// Command-surface capabilities the component declares.
    pub capabilities: Vec<String>,
}

/// All loaded struct dictionaries keyed by component name.
#[derive(Debug)]
pub struct StructDictionary {
    pub components: TextMap<ComponentDict>,
}

// ------------------------------------------------------------ field decoding

/// The shape of a field's serialized value.
#[derive(Debug, Clone, Copy, PartialEq, Eq, Structural)]
pub enum FieldKind {
    UInt,
    Int,
    Bool,
    Float,
    Double,
    Text,
    Array,
    Other,
}

/// The shape a dictionary type name stands for.
pub open spec fn kind_of(t: Seq<char>) -> FieldKind {
    if t == "uint"@ {
        FieldKind::UInt
    } else if t == "int"@ {
        FieldKind::Int
    } else if t == "bool"@ {
        FieldKind::Bool
    } else if t == "float"@ {
        FieldKind::Float
    } else if t == "double"@ {
        FieldKind::Double
    } else if t == "string"@ {
        FieldKind::Text
    } else if t == "array"@ {
        FieldKind::Array
    } else {
        FieldKind::Other
    }
}

/// The shape a dictionary type name stands for.
pub fn field_kind(t: &str) -> (k: FieldKind)
    ensures
        k == kind_of(t@),
{
    if same_text(t, "uint") {
        FieldKind::UInt
    } else if same_text(t, "int") {
        FieldKind::Int
    } else if same_text(t, "bool") {
        FieldKind::Bool
    } else if same_text(t, "float") {
        FieldKind::Float
    } else if same_text(t, "double") {
        FieldKind::Double
    } else if same_text(t, "string") {
        FieldKind::Text
    } else if same_text(t, "array") {
        FieldKind::Array
    } else {
        FieldKind::Other
    }
}

/// A decoded field value. Floating-point values are their bit patterns; a
/// value of a shape the decoder does not know is its bytes in hexadecimal.
#[derive(Debug, Clone)]
pub enum FieldValue {
    UInt(u64),
    Int(i64),
    F32(u32),
    F64(u64),
    Hex(String),
}

/// What a decoded field value is.
pub enum FieldView {
    UInt(u64),
    Int(i64),
    F32(u32),
    F64(u64),
    Hex(Seq<char>),
}

impl View for FieldValue {
    type V = FieldView;

    open spec fn view(&self) -> FieldView {
        match self {
            FieldValue::UInt(v) => FieldView::UInt(*v),
            FieldValue::Int(v) => FieldView::Int(*v),
            FieldValue::F32(v) => FieldView::F32(*v),
            FieldValue::F64(v) => FieldView::F64(*v),
            FieldValue::Hex(s) => FieldView::Hex(s@),
        }
    }
}

impl FieldView {
    /// The value as a non-negative integer, if it is one.
    pub open spec fn count(self) -> Option<u64> {
        match self {
            FieldView::UInt(v) => Some(v),
            FieldView::Int(v) => if v >= 0 {
                Some(v as u64)
            } else {
                None
            },
            _ => None,
        }
    }
}

impl FieldValue {
    /// The value as a non-negative integer, if it is one.
    pub fn as_u64(&self) -> (r: Option<u64>)
        ensures
            r == self@.count(),
    {
        match self {
            FieldValue::UInt(v) => Some(*v),
            FieldValue::Int(v) => if *v >= 0 {
                Some(*v as u64)
            } else {
                None
            },
            _ => None,
        }
    }
}

/// The signed reading of an unsigned value below `modulus`.
pub open spec fn signed_reading(v: int, modulus: int) -> i64 {
    if v < modulus / 2 {
        v as i64
    } else {
        (v - modulus) as i64
    }
}

/// Whether a field lies within the first `limit` bytes.
pub open spec fn lies_within(f: FieldDef, limit: nat) -> bool {
    f.offset + f.size <= limit
}

/// The value of a field of a payload.
pub open spec fn field_view(data: Seq<u8>, f: FieldDef) -> FieldView {
    let at = f.offset as int;
    match (kind_of(f.field_type@), f.size) {
        (FieldKind::UInt, 1) => FieldView::UInt(data[at] as u64),
        (FieldKind::UInt, 2) => FieldView::UInt(crate::wire::u16_le_at(data, at) as u64),
        (FieldKind::UInt, 4) => FieldView::UInt(crate::wire::u32_le_at(data, at) as u64),
        (FieldKind::UInt, 8) => FieldView::UInt(crate::wire::u64_le_at(data, at)),
        (FieldKind::Int, 1) => FieldView::Int(signed_reading(data[at] as int, 0x100)),
        (FieldKind::Int, 2) => FieldView::Int(
            signed_reading(crate::wire::u16_le_at(data, at) as int, 0x1_0000),
        ),
        (FieldKind::Int, 4) => FieldView::Int(
            signed_reading(crate::wire::u32_le_at(data, at) as int, 0x1_0000_0000),
        ),
        (FieldKind::Float, 4) => FieldView::F32(crate::wire::u32_le_at(data, at)),
        (FieldKind::Float, 8) => FieldView::F64(crate::wire::u64_le_at(data, at)),
        (FieldKind::Double, 8) => FieldView::F64(crate::wire::u64_le_at(data, at)),
        _ => FieldView::Hex(hex_text(data.subrange(at, at + f.size))),
    }
}

/// Decode one field of a payload.
pub fn decode_field(data: &[u8], field: &FieldDef) -> (v: FieldValue)
    requires
        lies_within(*field, data@.len()),
    ensures
        v@ == field_view(data@, *field),
{
    assert(field.offset + field.size <= data.len());
    let off: usize = field.offset;
    let kind = field_kind(field.field_type.as_str());
    match (kind, field.size) {
        (FieldKind::UInt, 1) => FieldValue::UInt(data[off] as u64),
        (FieldKind::UInt, 2) => FieldValue::UInt(get_u16_le(data, off) as u64),
        (FieldKind::UInt, 4) => FieldValue::UInt(get_u32_le(data, off) as u64),
        (FieldKind::UInt, 8) => FieldValue::UInt(get_u64_le(data, off)),
        (FieldKind::Int, 1) => FieldValue::Int(to_signed(data[off] as i64, 0x100)),
        (FieldKind::Int, 2) => FieldValue::Int(to_signed(get_u16_le(data, off) as i64, 0x1_0000)),
        (FieldKind::Int, 4) => FieldValue::Int(
            to_signed(get_u32_le(data, off) as i64, 0x1_0000_0000),
        ),
        (FieldKind::Float, 4) => FieldValue::F32(get_u32_le(data, off)),
        (FieldKind::Float, 8) => FieldValue::F64(get_u64_le(data, off)),
        (FieldKind::Double, 8) => FieldValue::F64(get_u64_le(data, off)),
        _ => FieldValue::Hex(
            hex_encode(vstd::slice::slice_subrange(data, off, off + field.size)),
        ),
    }
}

/// The signed reading of an unsigned value below `modulus`.
pub fn to_signed(v: i64, modulus: i64) -> (r: i64)
    requires
        0 <= v < modulus <= 0x1_0000_0000,
        modulus % 2 == 0,
    ensures
        r == signed_reading(v as int, modulus as int),
{
    if v < modulus / 2 {
        v
    } else {
        v - modulus
    }
}

/// What the entries of a map of decoded values are.
pub open spec fn values_of(m: Seq<(Seq<char>, FieldValue)>) -> Seq<(Seq<char>, FieldView)> {
    Seq::new(m.len(), |i: int| (m[i].0, m[i].1@))
}

/// The decoded values of the fields that lie within the first `limit` bytes,
/// by name. Of two fields with one name the later one counts.
pub open spec fn decoded_fields(data: Seq<u8>, fields: Seq<FieldDef>, limit: nat) -> Seq<
    (Seq<char>, FieldView),
>
    decreases fields.len(),
{
    if fields.len() == 0 {
        Seq::empty()
    } else {
        let before = decoded_fields(data, fields.drop_last(), limit);
        let f = fields.last();
        if lies_within(f, limit) {
            put(before, f.name@, field_view(data, f))
        } else {
            before
        }
    }
}

proof fn put_value(m: Seq<(Seq<char>, FieldValue)>, key: Seq<char>, v: FieldValue)
    ensures
        values_of(put(m, key, v)) == put(values_of(m), key, v@),
{
    crate::text_map::position_is_first(m, key);
    crate::text_map::first_is_position(
        values_of(m),
        key,
        crate::text_map::position(m, key),
    );
    assert(values_of(put(m, key, v)) =~= put(values_of(m), key, v@));
}

/// Whether a field lies within the first `limit` bytes.
pub fn is_within(field: &FieldDef, limit: usize) -> (r: bool)
    ensures
        r == lies_within(*field, limit as nat),
{
    field.size <= limit && field.offset <= limit - field.size
}

/// Decode the fields that lie within the first `limit` bytes.
fn decode_fields(data: &[u8], fields: &Vec<FieldDef>, limit: usize) -> (m: TextMap<FieldValue>)
    requires
        limit <= data@.len(),
    ensures
        values_of(m@) == decoded_fields(data@, fields@, limit as nat),
{
    let mut m: TextMap<FieldValue> = TextMap::new();
    assert(values_of(m@) =~= Seq::empty());
    for i in 0..fields.len()
        invariant
            limit <= data@.len(),
            values_of(m@) == decoded_fields(data@, fields@.take(i as int), limit as nat),
    {
        assert(fields@.take(i + 1).drop_last() =~= fields@.take(i as int));
        let field = &fields[i];
        if is_within(field, limit) {
            let v = decode_field(data, field);
            proof {
                put_value(m@, field.name@, v);
            }
            m.insert(field.name.clone(), v);
        }
    }
    assert(fields@.take(fields@.len() as int) =~= fields@);
    m
}

// --------------------------------------------------------- struct dictionary

/// Whether two component names are taken for one another: equal, or one inside
/// the other, ignoring case.
pub open spec fn names_match(a: Seq<char>, b: Seq<char>) -> bool {
    let x = lowercased(a);
    let y = lowercased(b);
    x == y || occurs_in(x, y) || occurs_in(y, x)
}

/// Whether two component names are taken for one another.
pub fn component_names_match(a: &str, b: &str) -> (r: bool)
    ensures
        r == names_match(a@, b@),
{
    let x = lowercase(a);
    let y = lowercase(b);
    same_text(x.as_str(), y.as_str()) || contains_text(x.as_str(), y.as_str()) || contains_text(
        y.as_str(),
        x.as_str(),
    )
}

/// Whether a component is searched: always, unless a hint names another one.
pub open spec fn hinted(dict: ComponentDict, hint: Option<Seq<char>>) -> bool {
    match hint {
        Some(h) => names_match(dict.component@, h),
        None => true,
    }
}

/// Whether a struct can take part in a variable-length payload.
pub open spec fn is_candidate(s: StructDef, category: Seq<char>) -> bool {
    s.category@ == category && s.fields@.len() > 0 && s.size > 0
}

/// Whether some field of a header carries the given entry count.
pub open spec fn states_count(hdr: StructDef, data: Seq<u8>, count: nat) -> bool {
    exists|k: int|
        0 <= k < hdr.fields@.len() && lies_within(#[trigger] hdr.fields@[k], hdr.size as nat)
            && field_view(data, hdr.fields@[k]).count() == Some(count as u64)
}

/// Whether a payload is one header followed by whole entries, as many as the
/// header says.
pub open spec fn pair_fits(hdr: StructDef, ent: StructDef, data: Seq<u8>) -> bool {
    &&& hdr.size < data.len()
    &&& ent.size > 0
    &&& (data.len() - hdr.size) % (ent.size as int) == 0
    &&& states_count(hdr, data, ((data.len() - hdr.size) / (ent.size as int)) as nat)
}

/// Whether structs `i` and `j` of a component are header and entry of the
/// payload.
pub open spec fn is_pair(
    structs: Seq<(Seq<char>, StructDef)>,
    category: Seq<char>,
    data: Seq<u8>,
    i: int,
    j: int,
) -> bool {
    &&& 0 <= i < structs.len()
    &&& 0 <= j < structs.len()
    &&& i != j
    &&& is_candidate(structs[i].1, category)
    &&& is_candidate(structs[j].1, category)
    &&& pair_fits(structs[i].1, structs[j].1, data)
}

/// Whether (`i`, `j`) is the first such pair of a component.
pub open spec fn is_first_pair(
    structs: Seq<(Seq<char>, StructDef)>,
    category: Seq<char>,
    data: Seq<u8>,
    i: int,
    j: int,
) -> bool {
    &&& is_pair(structs, category, data, i, j)
    &&& forall|a: int, b: int|
        (a < i || a == i && b < j) ==> !#[trigger] is_pair(structs, category, data, a, b)
}

/// A payload decoded as a header and the entries that follow it.
#[derive(Debug)]
pub struct VariableLength {
    pub component: String,
    pub header_name: String,
    pub entry_name: String,
    pub header: TextMap<FieldValue>,
    pub entries: Vec<TextMap<FieldValue>>,
}

/// Whether `v` is the decoding of a payload with structs `i` and `j` of a
/// component as header and entry.
pub open spec fn is_decoding(
    v: VariableLength,
    dict: ComponentDict,
    data: Seq<u8>,
    i: int,
    j: int,
) -> bool {
    let hdr = dict.structs@[i].1;
    let ent = dict.structs@[j].1;
    &&& v.component@ == dict.component@
    &&& v.header_name@ == dict.structs@[i].0
    &&& v.entry_name@ == dict.structs@[j].0
    &&& values_of(v.header@) == decoded_fields(data, hdr.fields@, hdr.size as nat)
    &&& v.entries@.len() == (data.len() - hdr.size) / (ent.size as int)
    &&& forall|e: int|
        0 <= e < v.entries@.len() ==> values_of((#[trigger] v.entries@[e])@) == decoded_fields(
            entry_bytes(data, hdr.size as int, ent.size as int, e),
            ent.fields@,
            ent.size as nat,
        )
}

/// The bytes of entry `e`.
pub open spec fn entry_bytes(data: Seq<u8>, hdr_size: int, ent_size: int, e: int) -> Seq<u8> {
    data.subrange(hdr_size + e * ent_size, hdr_size + e * ent_size + ent_size)
}

fn header_states_count(hdr: &StructDef, data: &[u8], count: u64) -> (r: bool)
    requires
        hdr.size <= data@.len(),
    ensures
        r == states_count(*hdr, data@, count as nat),
{
    for k in 0..hdr.fields.len()
        invariant
            hdr.size <= data@.len(),
            forall|m: int|
                0 <= m < k ==> !(lies_within(#[trigger] hdr.fields@[m], hdr.size as nat)
                    && field_view(data@, hdr.fields@[m]).count() == Some(count)),
    {
        let field = &hdr.fields[k];
        if is_within(field, hdr.size) {
            let v = decode_field(data, field);
            match v.as_u64() {
                Some(n) => {
                    if n == count {
                        return true;
                    }
                },
                None => {},
            }
        }
    }
    false
}

fn candidate(s: &StructDef, category: &str) -> (r: bool)
    ensures
        r == is_candidate(*s, category@),
{
    same_text(s.category.as_str(), category) && s.fields.len() > 0 && s.size > 0
}

fn fits(hdr: &StructDef, ent: &StructDef, data: &[u8]) -> (r: bool)
    ensures
        r == pair_fits(*hdr, *ent, data@),
{
    if hdr.size >= data.len() || ent.size == 0 {
        return false;
    }
    let remainder: usize = data.len() - hdr.size;
    if remainder % ent.size != 0 {
        return false;
    }
    header_states_count(hdr, data, (remainder / ent.size) as u64)
}

/// The first header/entry pair of a component's structs that a payload fits.
fn find_pair(structs: &TextMap<StructDef>, category: &str, data: &[u8]) -> (r: Option<
    (usize, usize),
>)
    ensures
        match r {
            Some((i, j)) => is_first_pair(structs@, category@, data@, i as int, j as int),
            None => forall|a: int, b: int| !#[trigger] is_pair(structs@, category@, data@, a, b),
        },
{
    let n: usize = structs.len();
    for i in 0..n
        invariant
            n == structs@.len(),
            forall|a: int, b: int|
                a < i ==> !#[trigger] is_pair(structs@, category@, data@, a, b),
    {
        let (_, hdr) = structs.entry(i);
        let hdr_ok = candidate(hdr, category);
        for j in 0..n
            invariant
                n == structs@.len(),
                i < n,
                *hdr == structs@[i as int].1,
                hdr_ok == is_candidate(*hdr, category@),
                forall|a: int, b: int|
                    (a < i || a == i && b < j) ==> !#[trigger] is_pair(
                        structs@,
                        category@,
                        data@,
                        a,
                        b,
                    ),
        {
            let (_, ent) = structs.entry(j);
            if i != j && hdr_ok && candidate(ent, category) && fits(hdr, ent, data) {
                return Some((i, j));
            }
        }
        assert forall|a: int, b: int| a < i + 1 implies !#[trigger] is_pair(
            structs@,
            category@,
            data@,
            a,
            b,
        ) by {
            if a == i && b >= n {
                assert(!is_pair(structs@, category@, data@, a, b));
            }
        }
    }
    None
}

fn decode_pair(dict: &ComponentDict, i: usize, j: usize, data: &[u8]) -> (v: VariableLength)
    requires
        i < dict.structs@.len(),
        j < dict.structs@.len(),
        pair_fits(dict.structs@[i as int].1, dict.structs@[j as int].1, data@),
    ensures
        is_decoding(v, *dict, data@, i as int, j as int),
{
    let (hdr_name, hdr) = dict.structs.entry(i);
    let (ent_name, ent) = dict.structs.entry(j);
    let header = decode_fields(data, &hdr.fields, hdr.size);
    let count: usize = (data.len() - hdr.size) / ent.size;
    let mut entries: Vec<TextMap<FieldValue>> = Vec::new();
    for e in 0..count
        invariant
            hdr.size < data@.len(),
            ent.size > 0,
            count == (data@.len() - hdr.size) / (ent.size as int),
            entries@.len() == e,
            forall|m: int|
                0 <= m < e ==> values_of((#[trigger] entries@[m])@) == decoded_fields(
                    entry_bytes(data@, hdr.size as int, ent.size as int, m),
                    ent.fields@,
                    ent.size as nat,
                ),
    {
        assert(data.len() == data@.len());
        assert(e * ent.size + ent.size <= data@.len() - hdr.size && e * ent.size >= 0)
            by (nonlinear_arith)
            requires
                0 <= e < count,
                ent.size > 0,
                count == (data@.len() - hdr.size) / (ent.size as int),
                hdr.size < data@.len(),
        ;
        let base: usize = hdr.size + e * ent.size;
        let entry_data = vstd::slice::slice_subrange(data, base, base + ent.size);
        entries.push(decode_fields(entry_data, &ent.fields, ent.size));
    }
    VariableLength {
        component: dict.component.clone(),
        header_name: hdr_name.clone(),
        entry_name: ent_name.clone(),
        header,
        entries,
    }
}

/// Whether component `c` is searched and structs `i` and `j` of it are its
/// first pair for the payload.
pub open spec fn is_match(
    components: Seq<(Seq<char>, ComponentDict)>,
    category: Seq<char>,
    data: Seq<u8>,
    hint: Option<Seq<char>>,
    c: int,
    i: int,
    j: int,
) -> bool {
    &&& 0 <= c < components.len()
    &&& hinted(components[c].1, hint)
    &&& is_first_pair(components[c].1.structs@, category, data, i, j)
}

/// Whether `r` is what a payload reads as when taken for a header and entries:
/// the decoding by the first component that is searched and has a pair for it, or
/// nothing when there is none.
pub open spec fn variable_reading(
    components: Seq<(Seq<char>, ComponentDict)>,
    category: Seq<char>,
    data: Seq<u8>,
    hint: Option<Seq<char>>,
    r: Option<VariableLength>,
) -> bool {
    match r {
        Some(v) => exists|c: int, i: int, j: int|
            {
                &&& #[trigger] is_match(components, category, data, hint, c, i, j)
                &&& forall|c2: int, i2: int, j2: int|
                    c2 < c ==> !#[trigger] is_match(components, category, data, hint, c2, i2, j2)
                &&& is_decoding(v, components[c].1, data, i, j)
            },
        None => forall|c: int, i: int, j: int|
            !#[trigger] is_match(components, category, data, hint, c, i, j),
    }
}

/// A hint as text.
pub open spec fn hint_text(hint: Option<&str>) -> Option<Seq<char>> {
    match hint {
        Some(h) => Some(h@),
        None => None,
    }
}

impl StructDictionary {
    /// A dictionary with no components.
    pub fn new() -> (d: Self)
        ensures
            d.components@.len() == 0,
    {
        StructDictionary { components: TextMap::new() }
    }

    /// Decode a binary payload using a struct definition: the decoded value of
    /// every field that lies within the payload, by name.
    pub fn decode_payload(&self, component: &str, struct_name: &str, data: &[u8]) -> (r: Option<
        TextMap<FieldValue>,
    >)
        ensures
            match lookup(self.components@, component@) {
                Some(dict) => match lookup(dict.structs@, struct_name@) {
                    Some(sdef) => match r {
                        Some(m) => values_of(m@) == decoded_fields(
                            data@,
                            sdef.fields@,
                            data@.len(),
                        ),
                        None => false,
                    },
                    None => r is None,
                },
                None => r is None,
            },
    {
        match self.components.get(component) {
            Some(dict) => match dict.structs.get(struct_name) {
                Some(sdef) => Some(decode_fields(data, &sdef.fields, data.len())),
                None => None,
            },
            None => None,
        }
    }

    /// Get all struct definitions for a component.
    pub fn get_component(&self, name: &str) -> (r: Option<&ComponentDict>)
        ensures
            match r {
                Some(d) => lookup(self.components@, name@) == Some(*d),
                None => lookup(self.components@, name@) is None,
            },
    {
        self.components.get(name)
    }

    /// Decode a variable-length payload (one header followed by entries),
    /// optionally restricted to components that match a name. The first
    /// component and, within it, the first pair of structs that the payload
    /// fits are taken.
    pub fn decode_variable_length_for(
        &self,
        category: &str,
        data: &[u8],
        component_hint: Option<&str>,
    ) -> (r: Option<VariableLength>)
        ensures
            variable_reading(
                self.components@,
                category@,
                data@,
                hint_text(component_hint),
                r,
            ),
    {
        let ghost hint = hint_text(component_hint);
        let n: usize = self.components.len();
        for c in 0..n
            invariant
                n == self.components@.len(),
                hint == hint_text(component_hint),
                forall|c2: int, i2: int, j2: int|
                    c2 < c ==> !#[trigger] is_match(
                        self.components@,
                        category@,
                        data@,
                        hint,
                        c2,
                        i2,
                        j2,
                    ),
        {
            let (_, dict) = self.components.entry(c);
            let searched = match component_hint {
                Some(h) => component_names_match(dict.component.as_str(), h),
                None => true,
            };
            if searched {
                match find_pair(&dict.structs, category, data) {
                    Some((i, j)) => {
                        let v = decode_pair(dict, i, j, data);
                        assert(is_match(
                            self.components@,
                            category@,
                            data@,
                            hint,
                            c as int,
                            i as int,
                            j as int,
                        ));
                        return Some(v);
                    },
                    None => {},
                }
            }
        }
        None
    }

    /// Whether some component declares a capability.
    pub open spec fn declares(self, name: Seq<char>) -> bool {
        exists|c: int, k: int|
            0 <= c < self.components@.len() && 0 <= k
                < self.components@[c].1.capabilities@.len()
                && #[trigger] self.components@[c].1.capabilities@[k]@ == name
    }

    /// Whether some component declares a capability.
    pub fn has_capability(&self, name: &str) -> (r: bool)
        ensures
            r == self.declares(name@),
    {
        let n: usize = self.components.len();
        for c in 0..n
            invariant
                n == self.components@.len(),
                forall|a: int, k: int|
                    0 <= a < c && 0 <= k < self.components@[a].1.capabilities@.len()
                        ==> #[trigger] self.components@[a].1.capabilities@[k]@ != name@,
        {
            let (_, dict) = self.components.entry(c);
            for k in 0..dict.capabilities.len()
                invariant
                    c < self.components@.len(),
                    *dict == self.components@[c as int].1,
                    forall|m: int| 0 <= m < k ==> #[trigger] dict.capabilities@[m]@ != name@,
            {
                if same_text(dict.capabilities[k].as_str(), name) {
                    assert(self.components@[c as int].1.capabilities@[k as int]@ == name@);
                    return true;
                }
            }
        }
        false
    }
}

impl Default for StructDictionary {
    fn default() -> (d: Self)
        ensures
            d.components@.len() == 0,
    {
        StructDictionary::new()
    }
}

// ---------------------------------------------------------- dictionary files

/// Whether a file of a dictionary directory holds a struct dictionary: a JSON file
/// that is neither an app artifact nor a manifest.
pub open spec fn names_dictionary(name: Seq<char>) -> bool {
    &&& name.len() > 5
    &&& name.skip(name.len() - 5) == ".json"@
    &&& !has_prefix(name, "app_"@)
    &&& !has_prefix(name, "manifest"@)
}

/// Whether a file of a dictionary directory holds a struct dictionary.
pub fn is_dictionary_file(name: &str) -> (r: bool)
    ensures
        r == names_dictionary(name@),
{
    let chars = chars_of(name);
    let n: usize = chars.len();
    if n <= 5 {
        return false;
    }
    let tail = vstd::slice::slice_subrange(chars.as_slice(), n - 5, n);
    let ending = text_of(tail);
    assert(ending@ =~= name@.skip(n - 5));
    same_text(ending.as_str(), ".json") && !starts_with_text(name, "app_") && !starts_with_text(
        name,
        "manifest",
    )
}

// ------------------------------------------------------------ capabilities

/// A list with `t` behind it, unless it is there already.
pub open spec fn add_once(list: Seq<Seq<char>>, t: Seq<char>) -> Seq<Seq<char>> {
    if list.contains(t) {
        list
    } else {
        list.push(t)
    }
}

/// A list with every text of `more` that it did not hold yet.
pub open spec fn add_all_once(list: Seq<Seq<char>>, more: Seq<Seq<char>>) -> Seq<Seq<char>>
    decreases more.len(),
{
    if more.len() == 0 {
        list
    } else {
        add_once(add_all_once(list, more.drop_last()), more.last())
    }
}

/// Everything the components declare, each capability once, in the order of
/// first declaration.
pub open spec fn declared(components: Seq<(Seq<char>, ComponentDict)>) -> Seq<Seq<char>>
    decreases components.len(),
{
    if components.len() == 0 {
        Seq::empty()
    } else {
        add_all_once(
            declared(components.drop_last()),
            texts(components.last().1.capabilities@),
        )
    }
}

/// Whether a list holds a text.
pub fn list_holds(list: &Vec<String>, t: &str) -> (r: bool)
    ensures
        r == texts(list@).contains(t@),
{
    for i in 0..list.len()
        invariant
            forall|j: int| 0 <= j < i ==> texts(list@)[j] != t@,
    {
        if same_text(list[i].as_str(), t) {
            assert(texts(list@)[i as int] == t@);
            return true;
        }
    }
    false
}

impl StructDictionary {
    /// Command-surface capabilities the dictionaries declare.
    pub fn capabilities(&self) -> (out: Vec<String>)
        ensures
            texts(out@) == declared(self.components@),
    {
        let mut out: Vec<String> = Vec::new();
        assert(texts(out@) =~= Seq::empty());
        let n: usize = self.components.len();
        for c in 0..n
            invariant
                n == self.components@.len(),
                texts(out@) == declared(self.components@.take(c as int)),
        {
            let (_, dict) = self.components.entry(c);
            let ghost before = texts(out@);
            let ghost caps = texts(dict.capabilities@);
            assert(self.components@.take(c + 1).drop_last() =~= self.components@.take(c as int));
            for k in 0..dict.capabilities.len()
                invariant
                    caps == texts(dict.capabilities@),
                    texts(out@) == add_all_once(before, caps.take(k as int)),
            {
                assert(caps.take(k + 1).drop_last() =~= caps.take(k as int));
                if !list_holds(&out, dict.capabilities[k].as_str()) {
                    let ghost held = texts(out@);
                    out.push(dict.capabilities[k].clone());
                    assert(texts(out@) =~= held.push(caps[k as int]));
                }
            }
            assert(caps.take(caps.len() as int) =~= caps);
        }
        assert(self.components@.take(n as int) =~= self.components@);
        out
    }
}

// -------------------------------------------------------------- validation

/// What is wrong with one field of a struct: that it extends past the struct.
pub open spec fn field_warnings(
    comp: Seq<char>,
    sname: Seq<char>,
    size: usize,
    fields: Seq<FieldDef>,
) -> Seq<Seq<char>>
    decreases fields.len(),
{
    if fields.len() == 0 {
        Seq::empty()
    } else {
        let before = field_warnings(comp, sname, size, fields.drop_last());
        let f = fields.last();
        if size > 0 && !lies_within(f, size as nat) && f.size > 0 {
            before.push(
                comp + "/"@ + sname + "."@ + f.name@ + ": field extends past struct (offset "@
                    + dec(f.offset as nat) + " + size "@ + dec(f.size as nat) + " > "@ + dec(
                    size as nat,
                ) + ")"@,
            )
        } else {
            before
        }
    }
}

/// What is wrong with the structs of a component.
pub open spec fn struct_warnings(comp: Seq<char>, structs: Seq<(Seq<char>, StructDef)>) -> Seq<
    Seq<char>,
>
    decreases structs.len(),
{
    if structs.len() == 0 {
        Seq::empty()
    } else {
        let before = struct_warnings(comp, structs.drop_last());
        let (sname, sdef) = structs.last();
        let hollow = if sdef.fields@.len() == 0 && sdef.size > 0 {
            before.push(
                comp + "/"@ + sname + ": has size "@ + dec(sdef.size as nat) + " but no fields"@,
            )
        } else {
            before
        };
        hollow + field_warnings(comp, sname, sdef.size, sdef.fields@)
    }
}

/// What is wrong with the dictionaries.
pub open spec fn dictionary_warnings(components: Seq<(Seq<char>, ComponentDict)>) -> Seq<Seq<char>>
    decreases components.len(),
{
    if components.len() == 0 {
        Seq::empty()
    } else {
        let before = dictionary_warnings(components.drop_last());
        let (comp, dict) = components.last();
        let bare = if dict.structs@.len() == 0 {
            before.push(comp + ": no structs defined"@)
        } else {
            before
        };
        bare + struct_warnings(comp, dict.structs@)
    }
}

/// Append a text to a list.
fn push_text(out: &mut Vec<String>, t: String)
    ensures
        texts(final(out)@) == texts(old(out)@).push(t@),
{
    out.push(t);
    assert(texts(out@) =~= texts(old(out)@).push(t@));
}

fn push_field_warnings(
    out: &mut Vec<String>,
    comp: &String,
    sname: &String,
    size: usize,
    fields: &Vec<FieldDef>,
)
    ensures
        texts(final(out)@) == texts(old(out)@) + field_warnings(comp@, sname@, size, fields@),
{
    let ghost start = texts(out@);
    assert(start + Seq::<Seq<char>>::empty() =~= start);
    for i in 0..fields.len()
        invariant
            start == texts(old(out)@),
            texts(out@) == start + field_warnings(comp@, sname@, size, fields@.take(i as int)),
    {
        let f = &fields[i];
        assert(fields@.take(i + 1).drop_last() =~= fields@.take(i as int));
        let ghost before = texts(out@);
        if size > 0 && !is_within(f, size) && f.size > 0 {
            let mut t = comp.clone();
            t.append("/");
            t.append(sname.as_str());
            t.append(".");
            t.append(f.name.as_str());
            t.append(": field extends past struct (offset ");
            push_dec(&mut t, f.offset as u64);
            t.append(" + size ");
            push_dec(&mut t, f.size as u64);
            t.append(" > ");
            push_dec(&mut t, size as u64);
            t.append(")");
            push_text(out, t);
        }
        assert(texts(out@) =~= start + field_warnings(comp@, sname@, size, fields@.take(i + 1)));
    }
    assert(fields@.take(fields@.len() as int) =~= fields@);
}

fn push_struct_warnings(out: &mut Vec<String>, comp: &String, structs: &TextMap<StructDef>)
    ensures
        texts(final(out)@) == texts(old(out)@) + struct_warnings(comp@, structs@),
{
    let ghost start = texts(out@);
    let n: usize = structs.len();
    assert(start + Seq::<Seq<char>>::empty() =~= start);
    for i in 0..n
        invariant
            n == structs@.len(),
            start == texts(old(out)@),
            texts(out@) == start + struct_warnings(comp@, structs@.take(i as int)),
    {
        let (sname, sdef) = structs.entry(i);
        assert(structs@.take(i + 1).drop_last() =~= structs@.take(i as int));
        if sdef.fields.len() == 0 && sdef.size > 0 {
            let mut t = comp.clone();
            t.append("/");
            t.append(sname.as_str());
            t.append(": has size ");
            push_dec(&mut t, sdef.size as u64);
            t.append(" but no fields");
            push_text(out, t);
        }
        push_field_warnings(out, comp, sname, sdef.size, &sdef.fields);
        assert(texts(out@) =~= start + struct_warnings(comp@, structs@.take(i + 1)));
    }
    assert(structs@.take(n as int) =~= structs@);
}

impl StructDictionary {
    /// Validate struct dictionary contents. Returns list of warnings.
    pub fn validate(&self) -> (out: Vec<String>)
        ensures
            texts(out@) == dictionary_warnings(self.components@),
    {
        let mut out: Vec<String> = Vec::new();
        assert(texts(out@) =~= Seq::empty());
        let n: usize = self.components.len();
        for c in 0..n
            invariant
                n == self.components@.len(),
                texts(out@) == dictionary_warnings(self.components@.take(c as int)),
        {
            let (comp, dict) = self.components.entry(c);
            assert(self.components@.take(c + 1).drop_last() =~= self.components@.take(c as int));
            if dict.structs.is_empty() {
                let mut t = comp.clone();
                t.append(": no structs defined");
                push_text(&mut out, t);
            }
            push_struct_warnings(&mut out, comp, &dict.structs);
        }
        assert(self.components@.take(n as int) =~= self.components@);
        out
    }
}

// ------------------------------------------------------------- app manifest

/// A component entry from the application manifest.
#[derive(Debug, Clone)]
pub struct ManifestComponent {
    pub name: String,
    pub full_uid: String,
    pub comp_type: String,
    pub instance_index: Option<u32>,
    pub data_file: Option<String>,
    pub notes: Option<String>,
}

impl ManifestComponent {
    /// The component's address as a number.
    pub open spec fn uid(self) -> Option<u32> {
        hex_u32_value(self.full_uid@)
    }

    /// The component's display name: its name, with its instance index if it
    /// has one.
    pub open spec fn display(self) -> Seq<char> {
        match self.instance_index {
            Some(i) => self.name@ + "#"@ + dec(i as nat),
            None => self.name@,
        }
    }

    fn display_name(&self) -> (t: String)
        ensures
            t@ == self.display(),
    {
        let mut t = self.name.clone();
        match self.instance_index {
            Some(i) => {
                t.append("#");
                push_dec(&mut t, i as u64);
            },
            None => {},
        }
        t
    }
}

/// Application manifest loaded from JSON build artifact.
#[derive(Debug)]
pub struct AppManifest {
    pub application: String,
    pub description: String,
    pub components: Vec<ManifestComponent>,
    pub extra: TextMap<Json>,
}

/// Whether a component is the executive.
pub open spec fn is_executive(c: ManifestComponent) -> bool {
    without_hex_prefix(c.full_uid@) == "000000"@
}

/// A warning for each component whose address an earlier component has.
pub open spec fn duplicate_warnings(cs: Seq<ManifestComponent>) -> Seq<Seq<char>>
    decreases cs.len(),
{
    if cs.len() == 0 {
        Seq::empty()
    } else {
        let before = duplicate_warnings(cs.drop_last());
        if exists|j: int| 0 <= j < cs.len() - 1 && #[trigger] cs[j].full_uid@ == cs.last().full_uid@ {
            before.push("Duplicate fullUid: "@ + cs.last().full_uid@)
        } else {
            before
        }
    }
}

/// A warning for each component whose address is no 32-bit hexadecimal number.
pub open spec fn address_warnings(cs: Seq<ManifestComponent>) -> Seq<Seq<char>>
    decreases cs.len(),
{
    if cs.len() == 0 {
        Seq::empty()
    } else {
        let before = address_warnings(cs.drop_last());
        if cs.last().uid() is None {
            before.push(
                "Invalid fullUid '"@ + cs.last().full_uid@ + "' for component '"@ + cs.last().name@
                    + "'"@,
            )
        } else {
            before
        }
    }
}

/// One text, if the condition holds.
pub open spec fn warn_if(cond: bool, t: Seq<char>) -> Seq<Seq<char>> {
    if cond {
        seq![t]
    } else {
        Seq::empty()
    }
}

/// The addresses and display names of the components that have a valid
/// address, in order.
pub open spec fn uid_pairs(cs: Seq<ManifestComponent>) -> Seq<(u32, Seq<char>)>
    decreases cs.len(),
{
    if cs.len() == 0 {
        Seq::empty()
    } else {
        match cs.last().uid() {
            Some(uid) => uid_pairs(cs.drop_last()).push((uid, cs.last().display())),
            None => uid_pairs(cs.drop_last()),
        }
    }
}

/// The contents of a list of (address, name) pairs.
pub open spec fn named(pairs: Seq<(u32, String)>) -> Seq<(u32, Seq<char>)> {
    Seq::new(pairs.len(), |i: int| (pairs[i].0, pairs[i].1@))
}

/// The name of the first component with the given address.
pub open spec fn name_of_uid(cs: Seq<ManifestComponent>, uid: u32) -> Option<Seq<char>>
    decreases cs.len(),
{
    if cs.len() == 0 {
        None
    } else if cs[0].uid() == Some(uid) {
        Some(cs[0].name@)
    } else {
        name_of_uid(cs.skip(1), uid)
    }
}

impl AppManifest {
    /// Everything that is wrong with the manifest.
    pub open spec fn warnings(self) -> Seq<Seq<char>> {
        let cs = self.components@;
        warn_if(self.application@.len() == 0, "Missing 'application' name"@) + warn_if(
            cs.len() == 0,
            "No components defined"@,
        ) + warn_if(
            !(exists|i: int| 0 <= i < cs.len() && #[trigger] is_executive(cs[i])),
            "No Executive component (fullUid 0x000000) found"@,
        ) + duplicate_warnings(cs) + address_warnings(cs)
    }

    fn has_executive(&self) -> (r: bool)
        ensures
            r == exists|i: int|
                0 <= i < self.components@.len() && #[trigger] is_executive(self.components@[i]),
    {
        for i in 0..self.components.len()
            invariant
                forall|j: int| 0 <= j < i ==> !#[trigger] is_executive(self.components@[j]),
        {
            let rest = strip_hex_prefix(self.components[i].full_uid.as_str());
            let t = text_of(rest.as_slice());
            if same_text(t.as_str(), "000000") {
                assert(is_executive(self.components@[i as int]));
                return true;
            }
        }
        false
    }

    fn seen_before(&self, i: usize) -> (r: bool)
        requires
            i < self.components@.len(),
        ensures
            r == exists|j: int|
                0 <= j < i && #[trigger] self.components@[j].full_uid@
                    == self.components@[i as int].full_uid@,
    {
        for j in 0..i
            invariant
                i < self.components@.len(),
                forall|k: int|
                    0 <= k < j ==> #[trigger] self.components@[k].full_uid@
                        != self.components@[i as int].full_uid@,
        {
            if same_text(
                self.components[j].full_uid.as_str(),
                self.components[i].full_uid.as_str(),
            ) {
                return true;
            }
        }
        false
    }

    /// Validate manifest contents. Returns list of warnings (non-fatal).
    pub fn validate(&self) -> (out: Vec<String>)
        ensures
            texts(out@) == self.warnings(),
    {
        let mut out: Vec<String> = Vec::new();
        let ghost cs = self.components@;
        let ghost w1 = warn_if(self.application@.len() == 0, "Missing 'application' name"@);
        let ghost w2 = w1 + warn_if(cs.len() == 0, "No components defined"@);
        assert(texts(out@) =~= Seq::empty());
        if self.application.as_str().is_empty() {
            push_text(&mut out, "Missing 'application' name".to_owned());
        }
        assert(texts(out@) =~= w1);
        if self.components.len() == 0 {
            push_text(&mut out, "No components defined".to_owned());
        }
        assert(texts(out@) =~= w2);
        let ghost w3 = w2 + warn_if(
            !(exists|i: int| 0 <= i < cs.len() && #[trigger] is_executive(cs[i])),
            "No Executive component (fullUid 0x000000) found"@,
        );
        if !self.has_executive() {
            push_text(&mut out, "No Executive component (fullUid 0x000000) found".to_owned());
        }
        assert(texts(out@) =~= w3);
        assert(w3 + Seq::<Seq<char>>::empty() =~= w3);
        for i in 0..self.components.len()
            invariant
                cs == self.components@,
                texts(out@) == w3 + duplicate_warnings(cs.take(i as int)),
        {
            assert(cs.take(i + 1).drop_last() =~= cs.take(i as int));
            let ghost shown = cs.take(i + 1);
            assert((exists|j: int| 0 <= j < i && #[trigger] cs[j].full_uid@ == cs[i as int].full_uid@)
                == (exists|j: int|
                0 <= j < shown.len() - 1 && #[trigger] shown[j].full_uid@
                    == shown.last().full_uid@)) by {
                if exists|j: int| 0 <= j < i && #[trigger] cs[j].full_uid@ == cs[i as int].full_uid@ {
                    let j = choose|j: int|
                        0 <= j < i && #[trigger] cs[j].full_uid@ == cs[i as int].full_uid@;
                    assert(shown[j].full_uid@ == shown.last().full_uid@);
                }
                if exists|j: int|
                    0 <= j < shown.len() - 1 && #[trigger] shown[j].full_uid@
                        == shown.last().full_uid@ {
                    let j = choose|j: int|
                        0 <= j < shown.len() - 1 && #[trigger] shown[j].full_uid@
                            == shown.last().full_uid@;
                    assert(cs[j].full_uid@ == cs[i as int].full_uid@);
                }
            }
            if self.seen_before(i) {
                let mut t = "Duplicate fullUid: ".to_owned();
                t.append(self.components[i].full_uid.as_str());
                push_text(&mut out, t);
            }
            assert(texts(out@) =~= w3 + duplicate_warnings(shown));
        }
        assert(cs.take(cs.len() as int) =~= cs);
        let ghost w4 = w3 + duplicate_warnings(cs);
        assert(w4 + Seq::<Seq<char>>::empty() =~= w4);
        for i in 0..self.components.len()
            invariant
                cs == self.components@,
                texts(out@) == w4 + address_warnings(cs.take(i as int)),
        {
            assert(cs.take(i + 1).drop_last() =~= cs.take(i as int));
            let c = &self.components[i];
            if parse_hex_u32(c.full_uid.as_str()).is_none() {
                let mut t = "Invalid fullUid '".to_owned();
                t.append(c.full_uid.as_str());
                t.append("' for component '");
                t.append(c.name.as_str());
                t.append("'");
                push_text(&mut out, t);
            }
            assert(texts(out@) =~= w4 + address_warnings(cs.take(i + 1)));
        }
        assert(cs.take(cs.len() as int) =~= cs);
        out
    }

    /// Component list as (fullUid, display name) pairs for telemetry routing.
    pub fn component_uids(&self) -> (out: Vec<(u32, String)>)
        ensures
            named(out@) == uid_pairs(self.components@),
    {
        let mut out: Vec<(u32, String)> = Vec::new();
        assert(named(out@) =~= Seq::empty());
        for i in 0..self.components.len()
            invariant
                named(out@) == uid_pairs(self.components@.take(i as int)),
        {
            let c = &self.components[i];
            assert(self.components@.take(i + 1).drop_last() =~= self.components@.take(i as int));
            match parse_hex_u32(c.full_uid.as_str()) {
                Some(uid) => {
                    let ghost before = named(out@);
                    out.push((uid, c.display_name()));
                    assert(named(out@) =~= before.push((uid, c.display())));
                },
                None => {},
            }
        }
        assert(self.components@.take(self.components@.len() as int) =~= self.components@);
        out
    }

    /// The name of the first component with the given address.
    pub fn component_name(&self, uid: u32) -> (r: Option<&str>)
        ensures
            match r {
                Some(name) => name_of_uid(self.components@, uid) == Some(name@),
                None => name_of_uid(self.components@, uid) is None,
            },
    {
        let cs = &self.components;
        assert(cs@.skip(0) =~= cs@);
        for i in 0..cs.len()
            invariant
                cs@ == self.components@,
                name_of_uid(cs@, uid) == name_of_uid(cs@.skip(i as int), uid),
        {
            match parse_hex_u32(cs[i].full_uid.as_str()) {
                Some(u) => {
                    if u == uid {
                        return Some(cs[i].name.as_str());
                    }
                },
                None => {},
            }
            assert(cs@.skip(i as int).skip(1) =~= cs@.skip(i + 1));
        }
        None
    }
}

// ---------------------------------------------------------- telemetry config

/// A single plot definition within a telemetry layout.
#[derive(Debug, Clone)]
pub struct PlotDef {
    pub title: String,
    pub channels: Vec<String>,
    pub height: u16,
}

/// Plot height in pixels when a plot does not state one.
pub fn default_plot_height() -> (h: u16)
    ensures
        h == 180,
{
    180
}

/// A named collection of plots (a "layout" or "screen").
#[derive(Debug, Clone)]
pub struct TelemetryLayout {
    pub name: String,
    pub plots: Vec<PlotDef>,
}

/// Telemetry display configuration loaded from a target's telemetry.json.
#[derive(Debug, Clone)]
pub struct TelemetryConfig {
    pub layouts: Vec<TelemetryLayout>,
}

/// A warning for each plot without channels.
pub open spec fn plot_warnings(layout: Seq<char>, plots: Seq<PlotDef>) -> Seq<Seq<char>>
    decreases plots.len(),
{
    if plots.len() == 0 {
        Seq::empty()
    } else {
        let before = plot_warnings(layout, plots.drop_last());
        if plots.last().channels@.len() == 0 {
            before.push(
                "Plot '"@ + plots.last().title@ + "' in layout '"@ + layout + "' has no channels"@,
            )
        } else {
            before
        }
    }
}

/// What is wrong with the layouts.
pub open spec fn layout_warnings(layouts: Seq<TelemetryLayout>) -> Seq<Seq<char>>
    decreases layouts.len(),
{
    if layouts.len() == 0 {
        Seq::empty()
    } else {
        let l = layouts.last();
        layout_warnings(layouts.drop_last()) + warn_if(
            l.name@.len() == 0,
            "Layout has empty name"@,
        ) + warn_if(l.plots@.len() == 0, "Layout '"@ + l.name@ + "' has no plots"@)
            + plot_warnings(l.name@, l.plots@)
    }
}

impl TelemetryConfig {
    /// Validate layout definitions. Returns list of warnings.
    pub fn validate(&self) -> (out: Vec<String>)
        ensures
            texts(out@) == layout_warnings(self.layouts@),
    {
        let mut out: Vec<String> = Vec::new();
        assert(texts(out@) =~= Seq::empty());
        for i in 0..self.layouts.len()
            invariant
                texts(out@) == layout_warnings(self.layouts@.take(i as int)),
        {
            let layout = &self.layouts[i];
            assert(self.layouts@.take(i + 1).drop_last() =~= self.layouts@.take(i as int));
            let ghost w1 = texts(out@) + warn_if(
                layout.name@.len() == 0,
                "Layout has empty name"@,
            );
            if layout.name.as_str().is_empty() {
                push_text(&mut out, "Layout has empty name".to_owned());
            }
            assert(texts(out@) =~= w1);
            let ghost w2 = w1 + warn_if(
                layout.plots@.len() == 0,
                "Layout '"@ + layout.name@ + "' has no plots"@,
            );
            if layout.plots.len() == 0 {
                let mut t = "Layout '".to_owned();
                t.append(layout.name.as_str());
                t.append("' has no plots");
                push_text(&mut out, t);
            }
            assert(texts(out@) =~= w2);
            assert(w2 + Seq::<Seq<char>>::empty() =~= w2);
            for k in 0..layout.plots.len()
                invariant
                    texts(out@) == w2 + plot_warnings(layout.name@, layout.plots@.take(k as int)),
            {
                let plot = &layout.plots[k];
                assert(layout.plots@.take(k + 1).drop_last() =~= layout.plots@.take(k as int));
                if plot.channels.len() == 0 {
                    let mut t = "Plot '".to_owned();
                    t.append(plot.title.as_str());
                    t.append("' in layout '");
                    t.append(layout.name.as_str());
                    t.append("' has no channels");
                    push_text(&mut out, t);
                }
                assert(texts(out@) =~= w2 + plot_warnings(
                    layout.name@,
                    layout.plots@.take(k + 1),
                ));
            }
            assert(layout.plots@.take(layout.plots@.len() as int) =~= layout.plots@);
        }
        assert(self.layouts@.take(self.layouts@.len() as int) =~= self.layouts@);
        out
    }
}

// ------------------------------------------------------------ command config

/// A field in a command definition.
#[derive(Debug)]
pub struct CommandFieldDef {
    pub name: String,
    pub field_type: String,
    pub desc: String,
    pub default: Option<Json>,
}

/// A single command definition.
#[derive(Debug)]
pub struct CommandDef {
    pub name: String,
    pub opcode: String,
    pub desc: String,
    pub fields: Vec<CommandFieldDef>,
}

/// Commands for a component.
#[derive(Debug)]
pub struct ComponentCommands {
    pub full_uid: String,
    pub commands: Vec<CommandDef>,
}

/// Quick command button.
#[derive(Debug, Clone)]
pub struct QuickCommand {
    pub label: String,
    pub full_uid: String,
    pub opcode: String,
    pub desc: String,
    pub payload: Option<String>,
}

/// Command configuration loaded from commands.json.
#[derive(Debug)]
pub struct CommandConfig {
    pub quick_commands: Vec<QuickCommand>,
    pub components: TextMap<ComponentCommands>,
}

// ---------------------------------------------------------------------- laws

/// A field is decoded as the number that all of its bytes stand for, least significant
/// first: an unsigned one of 1, 2, 4 or 8 bytes as it is, a signed one of 1, 2 or 4 bytes
/// as the number of the signed half of its range that differs from it by a multiple of
/// the range, a floating-point one of 4 or 8 bytes as its bit pattern. Every other field
/// is shown as its bytes, in hexadecimal.
pub proof fn decoded_values_are_the_numbers_of_the_bytes(data: Seq<u8>, f: FieldDef)
    ensures
        ({
            let number = crate::wire::le_value(data, f.offset as int, f.size as nat) as int;
            let kind = kind_of(f.field_type@);
            let view = field_view(data, f);
            let half: int = if f.size == 1 {
                0x80
            } else if f.size == 2 {
                0x8000
            } else {
                0x8000_0000
            };
            if kind == FieldKind::UInt && (f.size == 1 || f.size == 2 || f.size == 4 || f.size
                == 8) {
                view matches FieldView::UInt(v) && v == number
            } else if kind == FieldKind::Int && (f.size == 1 || f.size == 2 || f.size == 4) {
                view matches FieldView::Int(v) && -half <= v < half && (v == number || v == number
                    - 2 * half)
            } else if kind == FieldKind::Float && f.size == 4 {
                view matches FieldView::F32(bits) && bits == number
            } else if (kind == FieldKind::Float || kind == FieldKind::Double) && f.size == 8 {
                view matches FieldView::F64(bits) && bits == number
            } else {
                view == FieldView::Hex(hex_text(data.subrange(f.offset as int, f.offset + f.size)))
            }
        }),
{
    crate::wire::words_are_the_numbers_of_their_bytes(data, f.offset as int);
}

/// The decoded values are those of the fields, by name: a field that lies within the
/// payload has its value under its name, unless a later one of that name does too.
pub proof fn decoded_values_are_those_of_the_fields(
    data: Seq<u8>,
    fields: Seq<FieldDef>,
    limit: nat,
    k: int,
)
    requires
        0 <= k < fields.len(),
        fields[k].offset + fields[k].size <= limit,
        forall|j: int|
            k < j < fields.len() && (#[trigger] fields[j]).name@ == fields[k].name@
                ==> fields[j].offset + fields[j].size > limit,
    ensures
        lookup(decoded_fields(data, fields, limit), fields[k].name@) == Some(
            field_view(data, fields[k]),
        ),
    decreases fields.len(),
{
    let front = fields.drop_last();
    let f = fields.last();
    let name = fields[k].name@;
    let before = decoded_fields(data, front, limit);
    crate::text_map::put_then_lookup(before, f.name@, field_view(data, f), name);
    if k < front.len() {
        assert(front[k] == fields[k]);
        assert forall|j: int| k < j < front.len() && (#[trigger] front[j]).name@ == name implies
            front[j].offset + front[j].size > limit by {
            assert(front[j] == fields[j]);
        }
        decoded_values_are_those_of_the_fields(data, front, limit, k);
        assert(fields[fields.len() - 1] == f);
    }
}

/// A name that no field within the payload has is not among the decoded values.
pub proof fn other_names_are_not_decoded(
    data: Seq<u8>,
    fields: Seq<FieldDef>,
    limit: nat,
    name: Seq<char>,
)
    requires
        forall|k: int|
            0 <= k < fields.len() && (#[trigger] fields[k]).name@ == name ==> fields[k].offset
                + fields[k].size > limit,
    ensures
        lookup(decoded_fields(data, fields, limit), name) is None,
    decreases fields.len(),
{
    if fields.len() > 0 {
        let front = fields.drop_last();
        let f = fields.last();
        assert forall|k: int| 0 <= k < front.len() && (#[trigger] front[k]).name@ == name implies
            front[k].offset + front[k].size > limit by {
            assert(front[k] == fields[k]);
        }
        other_names_are_not_decoded(data, front, limit, name);
        assert(fields[fields.len() - 1] == f);
        crate::text_map::put_then_lookup(
            decoded_fields(data, front, limit),
            f.name@,
            field_view(data, f),
            name,
        );
    }
}

/// A header and an entry struct fit a payload if and only if the payload is the header
/// followed by one entry or more, nothing else, and some field of the header holds
/// exactly that number of entries.
pub proof fn headers_count_their_entries(hdr: StructDef, ent: StructDef, data: Seq<u8>, n: int)
    requires
        ent.size > 0,
        data.len() <= 0xFFFF_FFFF_FFFF_FFFF,
    ensures
        pair_fits(hdr, ent, data) && n == (data.len() - hdr.size) / (ent.size as int) ==> {
            &&& n > 0
            &&& data.len() == hdr.size + n * ent.size
            &&& exists|k: int| #[trigger] holds_number(hdr, data, k, n)
        },
        n > 0 && data.len() == hdr.size + n * ent.size && (exists|k: int| #[trigger]
            holds_number(hdr, data, k, n)) ==> pair_fits(hdr, ent, data),
{
    let rest = data.len() - hdr.size;
    let size = ent.size as int;
    if pair_fits(hdr, ent, data) && n == rest / size {
        assert(n > 0 && rest == n * size) by (nonlinear_arith)
            requires
                n == rest / size,
                rest % size == 0,
                size > 0,
                rest > 0,
        ;
        assert(n <= rest) by (nonlinear_arith)
            requires
                rest == n * size,
                size > 0,
                n > 0,
        ;
        let k = choose|k: int|
            0 <= k < hdr.fields@.len() && lies_within(#[trigger] hdr.fields@[k], hdr.size as nat)
                && field_view(data, hdr.fields@[k]).count() == Some(n as u64);
        assert(holds_number(hdr, data, k, n));
    }
    if n > 0 && data.len() == hdr.size + n * ent.size && (exists|k: int| #[trigger]
        holds_number(hdr, data, k, n)) {
        let k = choose|k: int| #[trigger] holds_number(hdr, data, k, n);
        assert(rest > 0 && rest % size == 0 && rest / size == n) by {
            assert(n * size > 0) by (nonlinear_arith)
                requires
                    n > 0,
                    size > 0,
            ;
            vstd::arithmetic::div_mod::lemma_fundamental_div_mod_converse(rest, size, n, 0);
        }
        assert(lies_within(hdr.fields@[k], hdr.size as nat));
        assert(field_view(data, hdr.fields@[k]).count() == Some(n as u64));
        assert(states_count(hdr, data, n as nat));
    }
}

/// Whether field `k` of a header lies within it and holds the number `n`.
pub open spec fn holds_number(hdr: StructDef, data: Seq<u8>, k: int, n: int) -> bool {
    &&& 0 <= k < hdr.fields@.len()
    &&& hdr.fields@[k].offset + hdr.fields@[k].size <= hdr.size
    &&& match field_view(data, hdr.fields@[k]) {
        FieldView::UInt(v) => v == n,
        FieldView::Int(v) => v == n && v >= 0,
        _ => false,
    }
}

/// Names are taken for one another in both directions, and every name for itself; a name
/// is taken for every one that occurs in it, whatever the case of the letters.
pub proof fn matching_goes_both_ways(a: Seq<char>, b: Seq<char>, x: Seq<char>, y: Seq<char>)
    ensures
        names_match(a, b) == names_match(b, a),
        names_match(a, a),
        lowercased(a) == x + lowercased(b) + y ==> names_match(a, b),
        names_match(a, b) ==> occurs_in(lowercased(a), lowercased(b)) || occurs_in(
            lowercased(b),
            lowercased(a),
        ),
{
    if lowercased(a) == x + lowercased(b) + y {
        let n = x.len() as int;
        assert((x + lowercased(b) + y).subrange(n, n + lowercased(b).len()) =~= lowercased(b));
        assert(crate::text::occurs_at(lowercased(a), lowercased(b), n));
    }
    if lowercased(a) == lowercased(b) {
        let t = lowercased(a);
        assert(t.subrange(0, t.len() as int) =~= t);
        assert(crate::text::occurs_at(t, t, 0));
    }
}

proof fn adding_once(list: Seq<Seq<char>>, more: Seq<Seq<char>>, t: Seq<char>)
    requires
        list.no_duplicates(),
    ensures
        add_all_once(list, more).no_duplicates(),
        add_all_once(list, more).contains(t) <==> list.contains(t) || more.contains(t),
    decreases more.len(),
{
    if more.len() > 0 {
        let front = more.drop_last();
        adding_once(list, front, t);
        let before = add_all_once(list, front);
        let all = add_all_once(list, more);
        adding_once(list, front, more.last());
        assert(more[more.len() - 1] == more.last());
        if more.contains(t) {
            let i = choose|i: int| 0 <= i < more.len() && more[i] == t;
            if i < front.len() {
                assert(front[i] == t);
                assert(front.contains(t));
            }
        }
        if front.contains(t) {
            let i = choose|i: int| 0 <= i < front.len() && front[i] == t;
            assert(more[i] == t);
        }
        if !before.contains(more.last()) {
            assert(all == before.push(more.last()));
            if before.contains(t) {
                let i = choose|i: int| 0 <= i < before.len() && before[i] == t;
                assert(all[i] == t);
            }
            if t == more.last() {
                assert(all[all.len() - 1] == t);
            }
            if all.contains(t) {
                let i = choose|i: int| 0 <= i < all.len() && all[i] == t;
                if i < before.len() {
                    assert(before[i] == t);
                }
            }
        }
    }
}

/// The capabilities of a target are exactly those that some component declares, each of
/// them once.
pub proof fn capabilities_are_those_declared(
    components: Seq<(Seq<char>, ComponentDict)>,
    t: Seq<char>,
)
    ensures
        declared(components).no_duplicates(),
        declared(components).contains(t) <==> exists|c: int|
            0 <= c < components.len() && texts(
                (#[trigger] components[c]).1.capabilities@,
            ).contains(t),
    decreases components.len(),
{
    if components.len() > 0 {
        let front = components.drop_last();
        capabilities_are_those_declared(front, t);
        adding_once(declared(front), texts(components.last().1.capabilities@), t);
        assert(components[components.len() - 1] == components.last());
        if exists|c: int|
            0 <= c < front.len() && texts((#[trigger] front[c]).1.capabilities@).contains(t) {
            let c = choose|c: int|
                0 <= c < front.len() && texts((#[trigger] front[c]).1.capabilities@).contains(t);
            assert(components[c] == front[c]);
        }
        if exists|c: int|
            0 <= c < components.len() && texts(
                (#[trigger] components[c]).1.capabilities@,
            ).contains(t) {
            let c = choose|c: int|
                0 <= c < components.len() && texts(
                    (#[trigger] components[c]).1.capabilities@,
                ).contains(t);
            if c < front.len() {
                assert(components[c] == front[c]);
            }
        }
    }
}

/// Whether a field fits its struct, as far as both have a size.
pub open spec fn field_fits(f: FieldDef, size: usize) -> bool {
    size == 0 || f.size == 0 || f.offset + f.size <= size
}

/// Whether a struct is sound: with a size it has fields, and they fit it.
pub open spec fn struct_is_sound(s: StructDef) -> bool {
    &&& s.size > 0 ==> s.fields@.len() > 0
    &&& forall|k: int| 0 <= k < s.fields@.len() ==> field_fits(#[trigger] s.fields@[k], s.size)
}

/// Whether a component is sound: it has structs, and they are.
pub open spec fn component_is_sound(d: ComponentDict) -> bool {
    &&& d.structs@.len() > 0
    &&& forall|k: int| 0 <= k < d.structs@.len() ==> struct_is_sound((#[trigger] d.structs@[k]).1)
}

proof fn fields_warn(comp: Seq<char>, sname: Seq<char>, size: usize, fields: Seq<FieldDef>)
    ensures
        field_warnings(comp, sname, size, fields).len() == 0 <==> forall|k: int|
            0 <= k < fields.len() ==> field_fits(#[trigger] fields[k], size),
    decreases fields.len(),
{
    if fields.len() > 0 {
        let front = fields.drop_last();
        fields_warn(comp, sname, size, front);
        assert(fields[fields.len() - 1] == fields.last());
        assert forall|k: int| 0 <= k < front.len() implies #[trigger] front[k] == fields[k] by {}
        if field_warnings(comp, sname, size, fields).len() == 0 {
            assert forall|k: int| 0 <= k < fields.len() implies field_fits(
                #[trigger] fields[k],
                size,
            ) by {
                if k < front.len() {
                    assert(field_fits(front[k], size));
                }
            }
        }
    }
}

proof fn structs_warn(comp: Seq<char>, structs: Seq<(Seq<char>, StructDef)>)
    ensures
        struct_warnings(comp, structs).len() == 0 <==> forall|k: int|
            0 <= k < structs.len() ==> struct_is_sound((#[trigger] structs[k]).1),
    decreases structs.len(),
{
    if structs.len() > 0 {
        let front = structs.drop_last();
        structs_warn(comp, front);
        let (sname, sdef) = structs.last();
        fields_warn(comp, sname, sdef.size, sdef.fields@);
        assert(structs[structs.len() - 1] == structs.last());
        assert forall|k: int| 0 <= k < front.len() implies #[trigger] front[k] == structs[k] by {}
        if struct_warnings(comp, structs).len() == 0 {
            assert forall|k: int| 0 <= k < structs.len() implies struct_is_sound(
                (#[trigger] structs[k]).1,
            ) by {
                if k < front.len() {
                    assert(struct_is_sound(front[k].1));
                }
            }
        }
    }
}

/// Dictionaries are warned about if and only if something is wrong with them: a component
/// without structs, a struct with a size but no fields, or a field that runs past the end
/// of its struct.
pub proof fn sound_dictionaries_have_no_warnings(components: Seq<(Seq<char>, ComponentDict)>)
    ensures
        dictionary_warnings(components).len() == 0 <==> forall|c: int|
            0 <= c < components.len() ==> component_is_sound((#[trigger] components[c]).1),
    decreases components.len(),
{
    if components.len() > 0 {
        let front = components.drop_last();
        sound_dictionaries_have_no_warnings(front);
        let (comp, dict) = components.last();
        structs_warn(comp, dict.structs@);
        assert(components[components.len() - 1] == components.last());
        assert forall|k: int| 0 <= k < front.len() implies #[trigger] front[k] == components[k] by {}
        if dictionary_warnings(components).len() == 0 {
            assert forall|c: int| 0 <= c < components.len() implies component_is_sound(
                (#[trigger] components[c]).1,
            ) by {
                if c < front.len() {
                    assert(component_is_sound(front[c].1));
                }
            }
        }
    }
}

/// A manifest is warned about if and only if something is wrong with it: no application
/// name, no components, no component at address zero written as six digits, an address
/// that occurs twice, or one that is no hexadecimal number.
pub proof fn sound_manifests_have_no_warnings(m: AppManifest)
    ensures
        m.warnings().len() == 0 <==> {
            &&& m.application@.len() > 0
            &&& m.components@.len() > 0
            &&& exists|i: int|
                0 <= i < m.components@.len() && without_hex_prefix(
                    (#[trigger] m.components@[i]).full_uid@,
                ) == "000000"@
            &&& forall|i: int, j: int|
                0 <= i < j < m.components@.len() ==> (#[trigger] m.components@[i]).full_uid@ != (
                #[trigger] m.components@[j]).full_uid@
            &&& forall|i: int|
                0 <= i < m.components@.len() ==> hex_u32_value(
                    (#[trigger] m.components@[i]).full_uid@,
                ) is Some
        },
{
    let cs = m.components@;
    duplicates_warn(cs);
    addresses_warn(cs);
    let ex = exists|i: int| 0 <= i < cs.len() && #[trigger] is_executive(cs[i]);
    let ex2 = exists|i: int|
        0 <= i < cs.len() && without_hex_prefix((#[trigger] cs[i]).full_uid@) == "000000"@;
    if ex {
        let i = choose|i: int| 0 <= i < cs.len() && #[trigger] is_executive(cs[i]);
        assert(without_hex_prefix(cs[i].full_uid@) == "000000"@);
    }
    if ex2 {
        let i = choose|i: int|
            0 <= i < cs.len() && without_hex_prefix((#[trigger] cs[i]).full_uid@) == "000000"@;
        assert(is_executive(cs[i]));
    }
}

proof fn duplicates_warn(cs: Seq<ManifestComponent>)
    ensures
        duplicate_warnings(cs).len() == 0 <==> forall|i: int, j: int|
            0 <= i < j < cs.len() ==> (#[trigger] cs[i]).full_uid@ != (#[trigger] cs[j]).full_uid@,
    decreases cs.len(),
{
    if cs.len() > 0 {
        let front = cs.drop_last();
        duplicates_warn(front);
        assert(cs[cs.len() - 1] == cs.last());
        assert forall|k: int| 0 <= k < front.len() implies #[trigger] front[k] == cs[k] by {}
        if duplicate_warnings(cs).len() == 0 {
            assert forall|i: int, j: int| 0 <= i < j < cs.len() implies (
            #[trigger] cs[i]).full_uid@ != (#[trigger] cs[j]).full_uid@ by {
                if j < front.len() {
                    assert(front[i].full_uid@ != front[j].full_uid@);
                }
            }
        } else if exists|j: int|
            0 <= j < cs.len() - 1 && #[trigger] cs[j].full_uid@ == cs.last().full_uid@ {
            let j = choose|j: int|
                0 <= j < cs.len() - 1 && #[trigger] cs[j].full_uid@ == cs.last().full_uid@;
            assert(cs[j].full_uid@ == cs[cs.len() - 1].full_uid@);
        } else {
            let (i, j) = choose|i: int, j: int|
                0 <= i < j < front.len() && (#[trigger] front[i]).full_uid@ == (
                #[trigger] front[j]).full_uid@;
            assert(cs[i].full_uid@ == cs[j].full_uid@);
        }
    }
}

proof fn addresses_warn(cs: Seq<ManifestComponent>)
    ensures
        address_warnings(cs).len() == 0 <==> forall|i: int|
            0 <= i < cs.len() ==> hex_u32_value((#[trigger] cs[i]).full_uid@) is Some,
    decreases cs.len(),
{
    if cs.len() > 0 {
        let front = cs.drop_last();
        addresses_warn(front);
        assert(cs[cs.len() - 1] == cs.last());
        assert forall|k: int| 0 <= k < front.len() implies #[trigger] front[k] == cs[k] by {}
        if address_warnings(cs).len() == 0 {
            assert forall|i: int| 0 <= i < cs.len() implies hex_u32_value(
                (#[trigger] cs[i]).full_uid@,
            ) is Some by {
                if i < front.len() {
                    assert(hex_u32_value(front[i].full_uid@) is Some);
                }
            }
        }
    }
}

/// A component is known by its address: the name found for an address is that of the
/// first component whose address, read as hexadecimal, is that number, and none is found
/// only when no component has it.
pub proof fn names_are_found_by_address(cs: Seq<ManifestComponent>, uid: u32)
    ensures
        match name_of_uid(cs, uid) {
            Some(name) => exists|i: int|
                {
                    &&& 0 <= i < cs.len()
                    &&& hex_u32_value((#[trigger] cs[i]).full_uid@) == Some(uid)
                    &&& cs[i].name@ == name
                    &&& forall|j: int|
                        0 <= j < i ==> hex_u32_value((#[trigger] cs[j]).full_uid@) != Some(uid)
                },
            None => forall|i: int|
                0 <= i < cs.len() ==> hex_u32_value((#[trigger] cs[i]).full_uid@) != Some(uid),
        },
    decreases cs.len(),
{
    if cs.len() > 0 && cs[0].uid() != Some(uid) {
        let rest = cs.skip(1);
        names_are_found_by_address(rest, uid);
        match name_of_uid(cs, uid) {
            Some(name) => {
                let i = choose|i: int|
                    {
                        &&& 0 <= i < rest.len()
                        &&& hex_u32_value((#[trigger] rest[i]).full_uid@) == Some(uid)
                        &&& rest[i].name@ == name
                        &&& forall|j: int|
                            0 <= j < i ==> hex_u32_value((#[trigger] rest[j]).full_uid@) != Some(
                                uid,
                            )
                    };
                assert(cs[i + 1] == rest[i]);
                assert forall|j: int| 0 <= j < i + 1 implies hex_u32_value(
                    (#[trigger] cs[j]).full_uid@,
                ) != Some(uid) by {
                    if j > 0 {
                        assert(cs[j] == rest[j - 1]);
                    }
                }
            },
            None => {
                assert forall|i: int| 0 <= i < cs.len() implies hex_u32_value(
                    (#[trigger] cs[i]).full_uid@,
                ) != Some(uid) by {
                    if i > 0 {
                        assert(cs[i] == rest[i - 1]);
                    }
                }
            },
        }
    }
}

/// Whether some component has an address.
pub open spec fn is_addressed(cs: Seq<ManifestComponent>, uid: u32) -> bool {
    exists|i: int|
        0 <= i < cs.len() && hex_u32_value((#[trigger] cs[i]).full_uid@) == Some(uid)
}

/// Telemetry knows every component with a valid address, and no other: under that
/// address, by its name, with "#" and the instance index behind it if it has one.
pub proof fn components_are_known_by_address(cs: Seq<ManifestComponent>)
    ensures
        forall|i: int|
            0 <= i < cs.len() && hex_u32_value((#[trigger] cs[i]).full_uid@) is Some ==> uid_pairs(
                cs,
            ).contains(
                (
                    hex_u32_value(cs[i].full_uid@)->0,
                    match cs[i].instance_index {
                        Some(n) => cs[i].name@ + "#"@ + dec(n as nat),
                        None => cs[i].name@,
                    },
                ),
            ),
        forall|k: int|
            0 <= k < uid_pairs(cs).len() ==> is_addressed(cs, (#[trigger] uid_pairs(cs)[k]).0),
        uid_pairs(cs).len() <= cs.len(),
    decreases cs.len(),
{
    if cs.len() > 0 {
        let front = cs.drop_last();
        components_are_known_by_address(front);
        let before = uid_pairs(front);
        let all = uid_pairs(cs);
        assert(cs[cs.len() - 1] == cs.last());
        assert forall|i: int|
            0 <= i < cs.len() && hex_u32_value(
                (#[trigger] cs[i]).full_uid@,
            ) is Some implies all.contains((hex_u32_value(cs[i].full_uid@)->0, cs[i].display())) by {
            let pair = (hex_u32_value(cs[i].full_uid@)->0, cs[i].display());
            if i < front.len() {
                assert(front[i] == cs[i]);
                assert(before.contains(pair));
                let k = choose|k: int| 0 <= k < before.len() && before[k] == pair;
                assert(all[k] == pair);
            } else {
                assert(all[all.len() - 1] == pair);
            }
        }
        assert forall|k: int| 0 <= k < all.len() implies is_addressed(cs, (#[trigger] all[k]).0) by {
            if k < before.len() {
                assert(all[k] == before[k]);
                assert(is_addressed(front, before[k].0));
                let i = choose|i: int|
                    0 <= i < front.len() && hex_u32_value((#[trigger] front[i]).full_uid@) == Some(
                        before[k].0,
                    );
                assert(cs[i] == front[i]);
            } else {
                assert(hex_u32_value(cs[cs.len() - 1].full_uid@) == Some(all[k].0));
            }
        }
    }
}

proof fn plots_warn(layout: Seq<char>, plots: Seq<PlotDef>)
    ensures
        plot_warnings(layout, plots).len() == 0 <==> forall|k: int|
            0 <= k < plots.len() ==> (#[trigger] plots[k]).channels@.len() > 0,
    decreases plots.len(),
{
    if plots.len() > 0 {
        let front = plots.drop_last();
        plots_warn(layout, front);
        assert(plots[plots.len() - 1] == plots.last());
        assert forall|k: int| 0 <= k < front.len() implies #[trigger] front[k] == plots[k] by {}
        if plot_warnings(layout, plots).len() == 0 {
            assert forall|k: int| 0 <= k < plots.len() implies (#[trigger] plots[k]).channels@.len()
                > 0 by {
                if k < front.len() {
                    assert(front[k].channels@.len() > 0);
                }
            }
        }
    }
}

/// Whether a layout is sound: it has a name and plots, and they have channels.
pub open spec fn layout_is_sound(l: TelemetryLayout) -> bool {
    &&& l.name@.len() > 0
    &&& l.plots@.len() > 0
    &&& forall|k: int| 0 <= k < l.plots@.len() ==> (#[trigger] l.plots@[k]).channels@.len() > 0
}

/// Layouts are warned about if and only if one of them is not sound: without a name,
/// without plots, or with a plot that has no channels.
pub proof fn sound_layouts_have_no_warnings(layouts: Seq<TelemetryLayout>)
    ensures
        layout_warnings(layouts).len() == 0 <==> forall|i: int|
            0 <= i < layouts.len() ==> layout_is_sound(#[trigger] layouts[i]),
    decreases layouts.len(),
{
    if layouts.len() > 0 {
        let front = layouts.drop_last();
        sound_layouts_have_no_warnings(front);
        let l = layouts.last();
        plots_warn(l.name@, l.plots@);
        assert(layouts[layouts.len() - 1] == l);
        assert forall|k: int| 0 <= k < front.len() implies #[trigger] front[k] == layouts[k] by {}
        if layout_warnings(layouts).len() == 0 {
            assert forall|i: int| 0 <= i < layouts.len() implies layout_is_sound(
                #[trigger] layouts[i],
            ) by {
                if i < front.len() {
                    assert(layout_is_sound(front[i]));
                }
            }
        }
    }
}

/// Whether a file holds a dictionary goes by its name: ".json" behind something, and
/// neither "app_" nor "manifest" in front.
pub proof fn dictionaries_are_named(stem: Seq<char>)
    requires
        stem.len() > 0,
    ensures
        names_dictionary(stem + ".json"@) <==> !has_prefix(stem + ".json"@, "app_"@) && !has_prefix(
            stem + ".json"@,
            "manifest"@,
        ),
        stem.len() > 5 && stem.skip(stem.len() - 5) != ".json"@ ==> !names_dictionary(stem),
{
    reveal_strlit(".json");
    let t = stem + ".json"@;
    assert(t.skip(t.len() - 5) =~= ".json"@);
}

/// A type name stands for one shape and no other, and each shape has one name; every name
/// that is none of them stands for no shape that is known.
pub proof fn shapes_go_by_their_name(t: Seq<char>)
    ensures
        kind_of(t) == FieldKind::UInt <==> t == "uint"@,
        kind_of(t) == FieldKind::Int <==> t == "int"@,
        kind_of(t) == FieldKind::Bool <==> t == "bool"@,
        kind_of(t) == FieldKind::Float <==> t == "float"@,
        kind_of(t) == FieldKind::Double <==> t == "double"@,
        kind_of(t) == FieldKind::Text <==> t == "string"@,
        kind_of(t) == FieldKind::Array <==> t == "array"@,
{
    reveal_strlit("uint");
    reveal_strlit("int");
    reveal_strlit("bool");
    reveal_strlit("float");
    reveal_strlit("double");
    reveal_strlit("string");
    reveal_strlit("array");
    assert("uint"@[0] != "bool"@[0]);
    assert("float"@[0] != "array"@[0]);
    assert("double"@[0] != "string"@[0]);
    assert("uint"@.len() == 4 && "int"@.len() == 3 && "bool"@.len() == 4 && "float"@.len() == 5
        && "double"@.len() == 6 && "string"@.len() == 6 && "array"@.len() == 5);
}

/// A target has a capability if and only if it is among those that its dictionaries list.
pub proof fn capabilities_are_listed(d: StructDictionary, name: Seq<char>)
    ensures
        d.declares(name) <==> declared(d.components@).contains(name),
{
    let cs = d.components@;
    capabilities_are_those_declared(cs, name);
    if d.declares(name) {
        let (c, k) = choose|c: int, k: int|
            0 <= c < cs.len() && 0 <= k < cs[c].1.capabilities@.len()
                && #[trigger] cs[c].1.capabilities@[k]@ == name;
        assert(texts(cs[c].1.capabilities@)[k] == name);
        assert(texts(cs[c].1.capabilities@).contains(name));
    }
    if declared(cs).contains(name) {
        let c = choose|c: int|
            0 <= c < cs.len() && texts((#[trigger] cs[c]).1.capabilities@).contains(name);
        let list = texts(cs[c].1.capabilities@);
        let k = choose|k: int| 0 <= k < list.len() && list[k] == name;
        assert(cs[c].1.capabilities@[k]@ == name);
    }
}

/// A payload that is read as a header and entries is made of two structs of one component:
/// it matches the hint if there is one, both structs have the category, fields and a size,
/// the payload is the header and a whole number of entries behind it, and what is told of it
/// are the names of the component and of the two structs.
pub proof fn variable_payloads_have_a_header_and_entries(
    components: Seq<(Seq<char>, ComponentDict)>,
    category: Seq<char>,
    data: Seq<u8>,
    hint: Option<Seq<char>>,
    v: VariableLength,
)
    requires
        variable_reading(components, category, data, hint, Some(v)),
        data.len() <= 0xFFFF_FFFF_FFFF_FFFF,
    ensures
        exists|c: int, i: int, j: int| #[trigger]
            is_read_with(components, category, data, hint, v, c, i, j),
{
    let (c, i, j) = choose|c: int, i: int, j: int|
        {
            &&& #[trigger] is_match(components, category, data, hint, c, i, j)
            &&& forall|c2: int, i2: int, j2: int|
                c2 < c ==> !#[trigger] is_match(components, category, data, hint, c2, i2, j2)
            &&& is_decoding(v, components[c].1, data, i, j)
        };
    let hdr = components[c].1.structs@[i].1;
    let ent = components[c].1.structs@[j].1;
    headers_count_their_entries(
        hdr,
        ent,
        data,
        (data.len() - hdr.size) / (ent.size as int),
    );
    assert(is_read_with(components, category, data, hint, v, c, i, j));
}

/// Whether a payload was read with structs `i` and `j` of component `c`.
pub open spec fn is_read_with(
    components: Seq<(Seq<char>, ComponentDict)>,
    category: Seq<char>,
    data: Seq<u8>,
    hint: Option<Seq<char>>,
    v: VariableLength,
    c: int,
    i: int,
    j: int,
) -> bool {
    let dict = components[c].1;
    let hdr = dict.structs@[i].1;
    let ent = dict.structs@[j].1;
    &&& 0 <= c < components.len()
    &&& hint matches Some(h) ==> names_match(dict.component@, h)
    &&& 0 <= i < dict.structs@.len()
    &&& 0 <= j < dict.structs@.len()
    &&& i != j
    &&& hdr.category@ == category && hdr.fields@.len() > 0 && hdr.size > 0
    &&& ent.category@ == category && ent.fields@.len() > 0 && ent.size > 0
    &&& v.entries@.len() > 0
    &&& data.len() == hdr.size + v.entries@.len() * ent.size
    &&& exists|k: int| #[trigger] holds_number(hdr, data, k, v.entries@.len() as int)
    &&& v.component@ == dict.component@
    &&& v.header_name@ == dict.structs@[i].0
    &&& v.entry_name@ == dict.structs@[j].0
}

/// Bytes stand for the same number in a part as in the whole.
proof fn parts_stand_for_the_same(data: Seq<u8>, from: int, to: int, at: int, n: nat)
    requires
        0 <= from <= to <= data.len(),
        0 <= at,
        at + n <= to - from,
    ensures
        crate::wire::le_value(data.subrange(from, to), at, n) == crate::wire::le_value(
            data,
            from + at,
            n,
        ),
{
    crate::wire::same_bytes_same_number(data.subrange(from, to), at, data, from + at, n);
}

/// The values of entry `e` are those of its own bytes: a field of the entry struct that lies
/// within it, and that no later one of its name covers, is read from the payload at the
/// header's size, `e` entries and the field's offset; the header's are read from the front.
pub proof fn entries_are_read_in_place(
    v: VariableLength,
    dict: ComponentDict,
    data: Seq<u8>,
    i: int,
    j: int,
    e: int,
    k: int,
)
    requires
        is_decoding(v, dict, data, i, j),
        pair_fits(dict.structs@[i].1, dict.structs@[j].1, data),
        0 <= e < v.entries@.len(),
        0 <= k < dict.structs@[j].1.fields@.len(),
        ({
            let ent = dict.structs@[j].1;
            let f = ent.fields@[k];
            &&& kind_of(f.field_type@) == FieldKind::UInt
            &&& f.size == 1 || f.size == 2 || f.size == 4 || f.size == 8
            &&& f.offset + f.size <= ent.size
            &&& forall|m: int|
                k < m < ent.fields@.len() ==> (#[trigger] ent.fields@[m]).name@ != f.name@
        }),
    ensures
        ({
            let hdr = dict.structs@[i].1;
            let ent = dict.structs@[j].1;
            let f = ent.fields@[k];
            let at = hdr.size + e * ent.size + f.offset;
            lookup(values_of(v.entries@[e]@), f.name@) == Some(
                FieldView::UInt(crate::wire::le_value(data, at, f.size as nat) as u64),
            )
        }),
{
    let hdr = dict.structs@[i].1;
    let ent = dict.structs@[j].1;
    let f = ent.fields@[k];
    let (h, s) = (hdr.size as int, ent.size as int);
    let n = v.entries@.len() as int;
    assert(e * s + s <= data.len() - h && e * s >= 0) by (nonlinear_arith)
        requires
            0 <= e < n,
            s > 0,
            n == (data.len() - h) / s,
            h < data.len(),
    ;
    let bytes = entry_bytes(data, h, s, e);
    let base = h + e * s;
    decoded_values_are_those_of_the_fields(bytes, ent.fields@, ent.size as nat, k);
    decoded_values_are_the_numbers_of_the_bytes(bytes, f);
    assert(values_of(v.entries@[e]@) == decoded_fields(bytes, ent.fields@, ent.size as nat));
    parts_stand_for_the_same(data, base, base + s, f.offset as int, f.size as nat);
}

} // verus!
