//! Tunable parameters: finding the struct that describes a payload, encoding
//! edited values into it, and preparing the stamped upload.

use vstd::prelude::*;

use crate::config_manager::{
    field_kind, field_view, signed_reading, kind_of, FieldDef, FieldKind, FieldView, StructDef,
};
use crate::json::{Json, Number};
use crate::text::{dec, same_text};

use crate::tprm::{crc32_of, layout_hash, leaf_text, leaves_text, stamped, LeafSpec};
use crate::wire::{put_bytes, put_u16_le, put_u32_le, put_u64_le};

verus! {

// ------------------------------------------------------------ field encoding

/// The two's-complement reading of a signed value.
pub open spec fn wrap_signed(v: i64) -> u64 {
    if v >= 0 {
        v as u64
    } else {
        (v + 0x1_0000_0000_0000_0000) as u64
    }
}

/// The low `size` bytes of a value, least significant first.
pub open spec fn low_bytes(w: u64, size: usize) -> Seq<u8> {
    if size == 1 {
        seq![(w % 0x100) as u8]
    } else if size == 2 {
        crate::wire::u16_le_bytes((w % 0x1_0000) as u16)
    } else if size == 4 {
        crate::wire::u32_le_bytes((w % 0x1_0000_0000) as u32)
    } else {
        crate::wire::u64_le_bytes(w)
    }
}

/// Text in a fixed buffer, NUL-padded.
pub open spec fn padded_text(s: Seq<char>, size: nat) -> Seq<u8> {
    let b = vstd::utf8::encode_utf8(s);
    b + Seq::new((size - b.len()) as nat, |i: int| 0u8)
}

/// The serialized form of a single value; None when the shape is not encodable
/// or the value has the wrong JSON type. Integers keep their low bytes. Text
/// longer than its field is refused, never truncated.
pub open spec fn scalar_bytes(kind: FieldKind, size: usize, value: Json) -> Option<Seq<u8>> {
    match kind {
        FieldKind::UInt => match value {
            Json::Num(n) if size == 1 || size == 2 || size == 4 || size == 8 => match n.unsigned() {
                Some(v) => Some(low_bytes(v, size)),
                None => None,
            },
            _ => None,
        },
        FieldKind::Bool => match value {
            Json::Num(n) if size == 1 => match n.unsigned() {
                Some(v) => Some(low_bytes(v, size)),
                None => None,
            },
            _ => None,
        },
        FieldKind::Int => match value {
            Json::Num(n) if size == 1 || size == 2 || size == 4 || size == 8 => match n.signed() {
                Some(v) => Some(low_bytes(wrap_signed(v), size)),
                None => None,
            },
            _ => None,
        },
        FieldKind::Float => match value {
            Json::Num(n) => if size == 4 {
                Some(crate::wire::u32_le_bytes(n.f32_bits))
            } else if size == 8 {
                Some(crate::wire::u64_le_bytes(n.f64_bits))
            } else {
                None
            },
            _ => None,
        },
        FieldKind::Double => match value {
            Json::Num(n) if size == 8 => Some(crate::wire::u64_le_bytes(n.f64_bits)),
            _ => None,
        },
        FieldKind::Text => match value {
            Json::Str(s) => if vstd::utf8::encode_utf8(s@).len() <= size {
                Some(padded_text(s@, size as nat))
            } else {
                None
            },
            _ => None,
        },
        _ => None,
    }
}

/// The serialized form of a list of values of one shape.
pub open spec fn elements_bytes(kind: FieldKind, size: usize, items: Seq<Json>) -> Option<Seq<u8>>
    decreases items.len(),
{
    if items.len() == 0 {
        Some(Seq::empty())
    } else {
        match (
            elements_bytes(kind, size, items.drop_last()),
            scalar_bytes(kind, size, items.last()),
        ) {
            (Some(a), Some(b)) => Some(a + b),
            _ => None,
        }
    }
}

/// The serialized form of the longest run of leading values that have one.
pub open spec fn leading_bytes(kind: FieldKind, size: usize, items: Seq<Json>) -> Seq<u8>
    decreases items.len(),
{
    match elements_bytes(kind, size, items) {
        Some(b) => b,
        None => if items.len() == 0 {
            Seq::empty()
        } else {
            leading_bytes(kind, size, items.drop_last())
        },
    }
}

/// The product of array dimensions.
pub open spec fn product(dims: Seq<usize>) -> nat
    decreases dims.len(),
{
    if dims.len() == 0 {
        1
    } else {
        product(dims.drop_last()) * dims.last() as nat
    }
}

/// How many elements an array field has; `absent` when it states no dimensions.
pub open spec fn element_count(f: FieldDef, absent: nat) -> nat {
    match f.dims {
        Some(d) => product(d@),
        None => absent,
    }
}

/// The element shape of an array field.
pub open spec fn element_kind(f: FieldDef) -> FieldKind {
    match f.element_type {
        Some(t) => kind_of(t@),
        None => kind_of("uint"@),
    }
}

/// The elements of an array field's value: None when the value is no array of exactly
/// as many elements as the dimensions say, or the field does not divide into them.
pub open spec fn array_items(f: FieldDef, value: Json) -> Option<Seq<Json>> {
    let count = element_count(f, 0);
    match value {
        Json::Array(items) => if count == 0 || items@.len() != count || f.size as nat % count
            != 0 {
            None
        } else {
            Some(items@)
        },
        _ => None,
    }
}

/// Bytes of one element of an array field.
pub open spec fn element_size(f: FieldDef) -> usize {
    (f.size as nat / element_count(f, 0)) as usize
}

/// The serialized form of a field's value. An array takes exactly as many
/// elements as its dimensions say.
pub open spec fn value_bytes(f: FieldDef, value: Json) -> Option<Seq<u8>> {
    if kind_of(f.field_type@) == FieldKind::Array {
        match array_items(f, value) {
            Some(items) => elements_bytes(element_kind(f), element_size(f), items),
            None => None,
        }
    } else {
        scalar_bytes(kind_of(f.field_type@), f.size, value)
    }
}

/// The bytes that writing a field's value puts at the field: its serialized form; of an
/// array with an element that has none, the elements before that one; else nothing.
pub open spec fn written_bytes(f: FieldDef, value: Json) -> Seq<u8> {
    if kind_of(f.field_type@) == FieldKind::Array {
        match array_items(f, value) {
            Some(items) => leading_bytes(element_kind(f), element_size(f), items),
            None => Seq::empty(),
        }
    } else {
        match scalar_bytes(kind_of(f.field_type@), f.size, value) {
            Some(b) => b,
            None => Seq::empty(),
        }
    }
}

/// `buf` with `bytes` written at `at`.
pub open spec fn splice(buf: Seq<u8>, at: int, bytes: Seq<u8>) -> Seq<u8> {
    buf.take(at) + bytes + buf.skip(at + bytes.len())
}

/// Whether a field's value can be written into a buffer.
pub open spec fn encodable(buf_len: nat, base: int, f: FieldDef, value: Json) -> bool {
    base + f.offset + f.size <= buf_len && value_bytes(f, value) is Some
}

/// The buffer after a field's value is written, as far as that is possible.
pub open spec fn encoded_into(buf: Seq<u8>, base: int, f: FieldDef, value: Json) -> Seq<u8> {
    if base + f.offset + f.size <= buf.len() {
        splice(buf, base + f.offset, written_bytes(f, value))
    } else {
        buf
    }
}

fn low_bytes_of(w: u64, size: usize) -> (out: Vec<u8>)
    requires
        size == 1 || size == 2 || size == 4 || size == 8,
    ensures
        out@ == low_bytes(w, size),
        out@.len() == size,
{
    let mut out: Vec<u8> = Vec::new();
    if size == 1 {
        out.push((w % 0x100) as u8);
    } else if size == 2 {
        put_u16_le(&mut out, (w % 0x1_0000) as u16);
    } else if size == 4 {
        put_u32_le(&mut out, (w % 0x1_0000_0000) as u32);
    } else {
        put_u64_le(&mut out, w);
    }
    assert(out@ =~= low_bytes(w, size));
    out
}

fn to_unsigned(v: i64) -> (w: u64)
    ensures
        w == wrap_signed(v),
{
    if v >= 0 {
        v as u64
    } else {
        (v as i128 + 0x1_0000_0000_0000_0000) as u64
    }
}

/// Whether a size is that of a fixed-width integer.
fn is_word(size: usize) -> (r: bool)
    ensures
        r == (size == 1 || size == 2 || size == 4 || size == 8),
{
    size == 1 || size == 2 || size == 4 || size == 8
}

fn encode_unsigned(size: usize, value: &Json) -> (r: Option<Vec<u8>>)
    requires
        size == 1 || size == 2 || size == 4 || size == 8,
    ensures
        match r {
            Some(b) => value matches Json::Num(n) && n.unsigned() matches Some(v) && b@
                == low_bytes(v, size) && b@.len() == size,
            None => !(value matches Json::Num(n) && n.unsigned() is Some),
        },
{
    match value {
        Json::Num(n) => match n.as_u64() {
            Some(v) => Some(low_bytes_of(v, size)),
            None => None,
        },
        _ => None,
    }
}

fn encode_text(size: usize, s: &String) -> (r: Option<Vec<u8>>)
    ensures
        match r {
            Some(b) => {
                &&& vstd::utf8::encode_utf8(s@).len() <= size
                &&& b@ == padded_text(s@, size as nat)
                &&& b@.len() == size
            },
            None => vstd::utf8::encode_utf8(s@).len() > size,
        },
{
    let bytes = s.as_str().as_bytes();
    if bytes.len() > size {
        return None;
    }
    let mut out: Vec<u8> = Vec::new();
    put_bytes(&mut out, bytes);
    let ghost head = out@;
    for i in 0..size - bytes.len()
        invariant
            out@ == head + Seq::new(i as nat, |j: int| 0u8),
    {
        out.push(0);
        assert(out@ =~= head + Seq::new((i + 1) as nat, |j: int| 0u8));
    }
    assert(out@ =~= padded_text(s@, size as nat));
    Some(out)
}

fn encode_scalar(kind: FieldKind, size: usize, value: &Json) -> (r: Option<Vec<u8>>)
    ensures
        match r {
            Some(b) => scalar_bytes(kind, size, *value) == Some(b@) && b@.len() == size,
            None => scalar_bytes(kind, size, *value) is None,
        },
{
    match kind {
        FieldKind::UInt => if is_word(size) {
            encode_unsigned(size, value)
        } else {
            None
        },
        FieldKind::Bool => if size == 1 {
            encode_unsigned(size, value)
        } else {
            None
        },
        FieldKind::Int => match value {
            Json::Num(n) => if is_word(size) {
                match n.as_i64() {
                    Some(v) => Some(low_bytes_of(to_unsigned(v), size)),
                    None => None,
                }
            } else {
                None
            },
            _ => None,
        },
        FieldKind::Float => match value {
            Json::Num(n) => {
                let mut out: Vec<u8> = Vec::new();
                if size == 4 {
                    put_u32_le(&mut out, n.f32_bits);
                    assert(out@ =~= crate::wire::u32_le_bytes(n.f32_bits));
                    Some(out)
                } else if size == 8 {
                    put_u64_le(&mut out, n.f64_bits);
                    assert(out@ =~= crate::wire::u64_le_bytes(n.f64_bits));
                    Some(out)
                } else {
                    None
                }
            },
            _ => None,
        },
        FieldKind::Double => match value {
            Json::Num(n) => if size == 8 {
                let mut out: Vec<u8> = Vec::new();
                put_u64_le(&mut out, n.f64_bits);
                assert(out@ =~= crate::wire::u64_le_bytes(n.f64_bits));
                Some(out)
            } else {
                None
            },
            _ => None,
        },
        FieldKind::Text => match value {
            Json::Str(s) => encode_text(size, s),
            _ => None,
        },
        _ => None,
    }
}

proof fn product_of_positive(dims: Seq<usize>, k: int)
    requires
        0 <= k <= dims.len(),
        forall|i: int| 0 <= i < dims.len() ==> dims[i] > 0,
    ensures
        1 <= product(dims.take(k)) <= product(dims),
    decreases dims.len() - k, dims.len(),
{
    if k == dims.len() {
        assert(dims.take(k) =~= dims);
        if k > 0 {
            product_of_positive(dims.drop_last(), k - 1);
            assert(dims.drop_last().take(k - 1) =~= dims.drop_last());
            assert(product(dims.drop_last()) * dims.last() as nat >= 1) by (nonlinear_arith)
                requires
                    product(dims.drop_last()) >= 1,
                    dims.last() >= 1,
            ;
        }
    } else {
        product_of_positive(dims, k + 1);
        let t = dims.take(k + 1);
        assert(t.drop_last() =~= dims.take(k));
        if k > 0 {
            product_of_positive(dims.take(k), k);
            assert(dims.take(k).take(k) =~= dims.take(k));
        } else {
            assert(dims.take(0) =~= Seq::empty());
        }
        assert(product(dims.take(k)) * t.last() as nat >= product(dims.take(k)))
            by (nonlinear_arith)
            requires
                product(dims.take(k)) >= 1,
                t.last() >= 1,
        ;
    }
}

proof fn product_with_zero(dims: Seq<usize>, i: int)
    requires
        0 <= i < dims.len(),
        dims[i] == 0,
    ensures
        product(dims) == 0,
    decreases dims.len(),
{
    if i < dims.len() - 1 {
        product_with_zero(dims.drop_last(), i);
    }
    assert(product(dims.drop_last()) * dims.last() as nat == 0) by (nonlinear_arith)
        requires
            product(dims.drop_last()) == 0 || dims.last() == 0,
    ;
}

/// The product of array dimensions, None beyond the machine's word.
fn dims_product(dims: &Vec<usize>) -> (r: Option<usize>)
    ensures
        match r {
            Some(n) => n == product(dims@),
            None => product(dims@) > usize::MAX,
        },
{
    for i in 0..dims.len()
        invariant
            forall|j: int| 0 <= j < i ==> dims@[j] > 0,
    {
        if dims[i] == 0 {
            proof {
                product_with_zero(dims@, i as int);
            }
            return Some(0);
        }
    }
    let mut n: usize = 1;
    assert(dims@.take(0) =~= Seq::empty());
    for i in 0..dims.len()
        invariant
            forall|j: int| 0 <= j < dims@.len() ==> dims@[j] > 0,
            n == product(dims@.take(i as int)),
    {
        proof {
            assert(dims@.take(i + 1).drop_last() =~= dims@.take(i as int));
            product_of_positive(dims@, i + 1);
        }
        match n.checked_mul(dims[i]) {
            Some(m) => {
                n = m;
            },
            None => {
                return None;
            },
        }
    }
    assert(dims@.take(dims@.len() as int) =~= dims@);
    Some(n)
}

/// Serialize a field's value: the bytes to write, and whether they are all of it.
fn encode_value(field: &FieldDef, value: &Json) -> (r: (Vec<u8>, bool))
    ensures
        r.0@ == written_bytes(*field, *value),
        r.1 == (value_bytes(*field, *value) is Some),
        r.0@.len() <= field.size,
{
    proof {
        written_fits_its_field(*field, *value);
    }
    let mut out: Vec<u8> = Vec::new();
    assert(out@ =~= Seq::empty());
    let kind = field_kind(field.field_type.as_str());
    if kind != FieldKind::Array {
        return match encode_scalar(kind, field.size, value) {
            Some(b) => (b, true),
            None => (out, false),
        };
    }
    let items = match value {
        Json::Array(items) => items,
        _ => return (out, false),
    };
    let count: usize = match &field.dims {
        Some(d) => match dims_product(d) {
            Some(n) => n,
            None => return (out, false),
        },
        None => 0,
    };
    if count == 0 || items.len() != count || field.size % count != 0 {
        return (out, false);
    }
    let elem_size: usize = field.size / count;
    let elem_kind = match &field.element_type {
        Some(t) => field_kind(t.as_str()),
        None => field_kind("uint"),
    };
    assert(items@.take(0) =~= Seq::empty());
    assert(array_items(*field, *value) == Some(items@));
    for i in 0..items.len()
        invariant
            value_bytes(*field, *value) == elements_bytes(elem_kind, elem_size, items@),
            written_bytes(*field, *value) == leading_bytes(elem_kind, elem_size, items@),
            written_bytes(*field, *value).len() <= field.size,
            elements_bytes(elem_kind, elem_size, items@.take(i as int)) == Some(out@),
    {
        assert(items@.take(i + 1).drop_last() =~= items@.take(i as int));
        match encode_scalar(elem_kind, elem_size, &items[i]) {
            Some(b) => {
                put_bytes(&mut out, b.as_slice());
            },
            None => {
                proof {
                    unencodable_element(elem_kind, elem_size, items@, i as int);
                    run_ends_at(elem_kind, elem_size, items@, i as int);
                }
                return (out, false);
            },
        }
    }
    assert(items@.take(items@.len() as int) =~= items@);
    (out, true)
}

/// Of an array with a value that has no serialized form, what stands before the first such
/// value is written, and nothing of the rest.
pub proof fn run_ends_at(kind: FieldKind, size: usize, items: Seq<Json>, i: int)
    requires
        0 <= i < items.len(),
        elements_bytes(kind, size, items.take(i)) is Some,
        scalar_bytes(kind, size, items[i]) is None,
    ensures
        Some(leading_bytes(kind, size, items)) == elements_bytes(kind, size, items.take(i)),
    decreases items.len(),
{
    reveal_with_fuel(leading_bytes, 2);
    unencodable_element(kind, size, items, i);
    let before = items.drop_last();
    if i == items.len() - 1 {
        assert(before =~= items.take(i));
    } else {
        assert(before.take(i) =~= items.take(i));
        run_ends_at(kind, size, before, i);
    }
}

proof fn unencodable_element(kind: FieldKind, size: usize, items: Seq<Json>, i: int)
    requires
        0 <= i < items.len(),
        scalar_bytes(kind, size, items[i]) is None,
    ensures
        elements_bytes(kind, size, items) is None,
    decreases items.len(),
{
    if i < items.len() - 1 {
        unencodable_element(kind, size, items.drop_last(), i);
    }
}

/// Write a field's value into a buffer, with the struct starting at `base`.
pub fn encode_at(buf: &mut Vec<u8>, base: usize, field: &FieldDef, value: &Json) -> (ok: bool)
    ensures
        ok == encodable(old(buf)@.len(), base as int, *field, *value),
        final(buf)@ == encoded_into(old(buf)@, base as int, *field, *value),
        final(buf)@.len() == old(buf)@.len(),
{
    let len: usize = buf.len();
    if field.size > len || field.offset > len - field.size || base > len - field.size
        - field.offset {
        return false;
    }
    let at: usize = base + field.offset;
    let (bytes, whole) = encode_value(field, value);
    for i in 0..bytes.len()
        invariant
            bytes@.len() <= field.size,
            at + field.size <= len,
            buf@.len() == len,
            old(buf)@.len() == len,
            forall|j: int| 0 <= j < i ==> buf@[at + j] == bytes@[j],
            forall|j: int| 0 <= j < len && !(at <= j < at + i) ==> buf@[j] == old(buf)@[j],
    {
        buf.set(at + i, bytes[i]);
    }
    assert(buf@ =~= splice(old(buf)@, at as int, bytes@));
    whole
}

/// Encode one edited field into the payload buffer. Returns false when the
/// (type, size) shape is not encodable, the value has the wrong JSON type or
/// the field does not lie within the buffer: callers must surface that as an
/// error. The buffer is then left as it was, but for the elements of an array
/// before the one that cannot be encoded.
pub fn encode_field(buf: &mut Vec<u8>, field: &FieldDef, value: &Json) -> (ok: bool)
    ensures
        ok == encodable(old(buf)@.len(), 0, *field, *value),
        final(buf)@ == encoded_into(old(buf)@, 0, *field, *value),
        final(buf)@.len() == old(buf)@.len(),
{
    encode_at(buf, 0, field, value)
}

/// Writing a field touches no byte outside it.
pub proof fn encoding_is_local(buf: Seq<u8>, base: int, f: FieldDef, value: Json, i: int)
    requires
        0 <= base,
        0 <= i < buf.len(),
        !(base + f.offset <= i < base + f.offset + f.size),
    ensures
        encoded_into(buf, base, f, value).len() == buf.len(),
        encoded_into(buf, base, f, value)[i] == buf[i],
{
    written_fits_its_field(f, value);
}

/// A value that can be written is written whole, and what is written of any value lies
/// within its field.
pub proof fn written_fits_its_field(f: FieldDef, value: Json)
    ensures
        value_bytes(f, value) matches Some(b) ==> written_bytes(f, value) == b,
        written_bytes(f, value).len() <= f.size,
{
    if value_bytes(f, value) is Some {
        value_fills_its_field(f, value);
    }
    if kind_of(f.field_type@) == FieldKind::Array {
        if let Some(items) = array_items(f, value) {
            let count = element_count(f, 0);
            array_divides(f.size as nat, count);
            leading_fits(element_kind(f), element_size(f), items);
        }
    }
}

proof fn array_divides(size: nat, count: nat)
    requires
        count > 0,
        size % count == 0,
    ensures
        count * (size / count) == size,
        size / count <= size,
{
    assert(count * (size / count) == size) by (nonlinear_arith)
        requires
            count > 0,
            size % count == 0,
    ;
    assert(size / count <= size) by (nonlinear_arith)
        requires
            count > 0,
    ;
}

proof fn leading_fits(kind: FieldKind, size: usize, items: Seq<Json>)
    ensures
        leading_bytes(kind, size, items).len() <= items.len() * size,
    decreases items.len(),
{
    if elements_bytes(kind, size, items) is Some {
        elements_fill(kind, size, items);
    } else if items.len() > 0 {
        leading_fits(kind, size, items.drop_last());
        assert((items.len() - 1) * size <= items.len() * size) by (nonlinear_arith);
    }
}

/// The length of a serialized value is its field's size.
pub proof fn value_fills_its_field(f: FieldDef, value: Json)
    requires
        value_bytes(f, value) is Some,
    ensures
        value_bytes(f, value)->0.len() == f.size,
{
    if kind_of(f.field_type@) == FieldKind::Array {
        if let Some(items) = array_items(f, value) {
            elements_fill(element_kind(f), element_size(f), items);
            array_divides(f.size as nat, element_count(f, 0));
        }
    }
}

proof fn elements_fill(kind: FieldKind, size: usize, items: Seq<Json>)
    requires
        elements_bytes(kind, size, items) is Some,
    ensures
        elements_bytes(kind, size, items)->0.len() == items.len() * size,
    decreases items.len(),
{
    if items.len() > 0 {
        elements_fill(kind, size, items.drop_last());
        assert((items.len() - 1) * size + size == items.len() * size) by (nonlinear_arith);
    }
}

/// What a decoder reads from a field after a value was written to it.
pub open spec fn read_back(f: FieldDef, n: Number) -> FieldView {
    match (kind_of(f.field_type@), f.size) {
        (FieldKind::UInt, 1) => FieldView::UInt((n.unsigned()->0 % 0x100) as u64),
        (FieldKind::UInt, 2) => FieldView::UInt((n.unsigned()->0 % 0x1_0000) as u64),
        (FieldKind::UInt, 4) => FieldView::UInt((n.unsigned()->0 % 0x1_0000_0000) as u64),
        (FieldKind::UInt, _) => FieldView::UInt(n.unsigned()->0),
        (FieldKind::Int, _) => FieldView::Int(n.signed()->0),
        (FieldKind::Float, 4) => FieldView::F32(n.f32_bits),
        (_, _) => FieldView::F64(n.f64_bits),
    }
}

/// Whether a signed value fits a field of `size` bytes.
pub open spec fn fits_signed(v: i64, size: usize) -> bool {
    ||| size == 1 && -0x80 <= v < 0x80
    ||| size == 2 && -0x8000 <= v < 0x8000
    ||| size == 4 && -0x8000_0000 <= v < 0x8000_0000
}

/// Decoding undoes encoding: after a number was written to a scalar field, the
/// decoder reads that number back. Unsigned values come back modulo the
/// field's width, signed values when they fit, floating-point values as the
/// bits that were written.
pub proof fn decode_undoes_encode(buf: Seq<u8>, f: FieldDef, n: Number)
    requires
        encodable(buf.len(), 0, f, Json::Num(n)),
        kind_of(f.field_type@) != FieldKind::Bool,
        kind_of(f.field_type@) == FieldKind::Int ==> fits_signed(n.signed()->0, f.size),
    ensures
        field_view(encoded_into(buf, 0, f, Json::Num(n)), f) == read_back(f, n),
{
    let bytes = value_bytes(f, Json::Num(n))->0;
    let at = f.offset as int;
    let data = encoded_into(buf, 0, f, Json::Num(n));
    value_fills_its_field(f, Json::Num(n));
    written_fits_its_field(f, Json::Num(n));
    assert(data.subrange(at, at + f.size) =~= bytes);
    match kind_of(f.field_type@) {
        FieldKind::UInt => {
            low_bytes_read_back(data, at, n.unsigned()->0, f.size);
        },
        FieldKind::Int => {
            let v = n.signed()->0;
            low_bytes_read_back(data, at, wrap_signed(v), f.size);
            signed_round_trip(v, f.size);
        },
        _ => {
            if f.size == 4 {
                crate::wire::u32_le_reads(data, at, n.f32_bits);
            } else {
                crate::wire::u64_le_reads(data, at, n.f64_bits);
            }
        },
    }
}

proof fn low_bytes_read_back(data: Seq<u8>, at: int, w: u64, size: usize)
    requires
        size == 1 || size == 2 || size == 4 || size == 8,
        0 <= at,
        at + size <= data.len(),
        data.subrange(at, at + size) == low_bytes(w, size),
    ensures
        size == 1 ==> data[at] == w % 0x100,
        size == 2 ==> crate::wire::u16_le_at(data, at) == w % 0x1_0000,
        size == 4 ==> crate::wire::u32_le_at(data, at) == w % 0x1_0000_0000,
        size == 8 ==> crate::wire::u64_le_at(data, at) == w,
{
    if size == 1 {
        assert(data.subrange(at, at + 1)[0] == data[at]);
        assert(low_bytes(w, size)[0] == w % 0x100);
    } else if size == 2 {
        crate::wire::u16_le_reads(data, at, (w % 0x1_0000) as u16);
    } else if size == 4 {
        crate::wire::u32_le_reads(data, at, (w % 0x1_0000_0000) as u32);
    } else {
        crate::wire::u64_le_reads(data, at, w);
    }
}

proof fn signed_round_trip(v: i64, size: usize)
    requires
        fits_signed(v, size),
    ensures
        size == 1 ==> signed_reading((wrap_signed(v) % 0x100) as int, 0x100) == v,
        size == 2 ==> signed_reading((wrap_signed(v) % 0x1_0000) as int, 0x1_0000) == v,
        size == 4 ==> signed_reading((wrap_signed(v) % 0x1_0000_0000) as int, 0x1_0000_0000)
            == v,
{
    let w = wrap_signed(v) as int;
    if v < 0 {
        assert(w == v + 0x1_0000_0000_0000_0000);
        if size == 1 {
            remainder_of(w, 0x100, 0xFF_FFFF_FFFF_FFFF, v + 0x100);
        } else if size == 2 {
            remainder_of(w, 0x1_0000, 0xFFFF_FFFF_FFFF, v + 0x1_0000);
        } else {
            remainder_of(w, 0x1_0000_0000, 0xFFFF_FFFF, v + 0x1_0000_0000);
        }
    } else if size == 1 {
        remainder_of(w, 0x100, 0, v as int);
    } else if size == 2 {
        remainder_of(w, 0x1_0000, 0, v as int);
    } else {
        remainder_of(w, 0x1_0000_0000, 0, v as int);
    }
}

proof fn remainder_of(w: int, modulus: int, q: int, r: int)
    requires
        w == q * modulus + r,
        0 <= r < modulus,
    ensures
        w % modulus == r,
{
    vstd::arithmetic::div_mod::lemma_fundamental_div_mod_converse(w, modulus, q, r);
}

// --------------------------------------------------------------- layout hash

/// A number held at the largest word.
pub open spec fn capped(n: nat) -> nat {
    if n <= usize::MAX {
        n
    } else {
        usize::MAX as nat
    }
}

/// How many elements an array field's layout states: at least one.
pub open spec fn stated_count(f: FieldDef) -> nat {
    let n = capped(element_count(f, 1));
    if n == 0 {
        1
    } else {
        n
    }
}

/// The element type an array field's layout states.
pub open spec fn stated_element(f: FieldDef) -> Seq<char> {
    match f.element_type {
        Some(t) => t@,
        None => "uint"@,
    }
}

/// A dictionary field's contribution to the canonical field spec, with its
/// struct starting at `base`.
pub open spec fn field_text(f: FieldDef, base: nat) -> Seq<char> {
    let at = capped(base + f.offset as nat);
    if f.field_type@ == "array"@ {
        f.name@ + ":array:"@ + dec(f.size as nat) + ":"@ + dec(at) + ";["@ + stated_element(f)
            + ":"@ + dec(f.size as nat / stated_count(f)) + "x"@ + dec(stated_count(f)) + "]"@
    } else {
        f.name@ + ":"@ + f.field_type@ + ":"@ + dec(f.size as nat) + ":"@ + dec(at) + ";"@
    }
}

/// The contributions of a struct's fields, in declaration order.
pub open spec fn fields_text(fields: Seq<FieldDef>, base: nat) -> Seq<char>
    decreases fields.len(),
{
    if fields.len() == 0 {
        Seq::empty()
    } else {
        fields_text(fields.drop_last(), base) + field_text(fields.last(), base)
    }
}

/// The layout hash of a text and a total size.
pub open spec fn text_hash(t: Seq<char>, total: nat) -> u32 {
    crc32_of(vstd::utf8::encode_utf8(t + "|size:"@ + dec(total)))
}

/// The contributions of `n` entries that follow a header, each at its absolute
/// offset.
pub open spec fn entries_text(ent: StructDef, hdr_size: nat, n: nat) -> Seq<char>
    decreases n,
{
    if n == 0 {
        Seq::empty()
    } else {
        entries_text(ent, hdr_size, (n - 1) as nat) + fields_text(
            ent.fields@,
            hdr_size + (n - 1) as nat * ent.size as nat,
        )
    }
}

/// Whether a leaf is that of a dictionary field, with its struct starting at `base`:
/// the field's name, type and size, its absolute offset, and for an array the element
/// type, the bytes of an element and the number of elements.
pub open spec fn is_leaf_of(leaf: LeafSpec, f: FieldDef, base: nat) -> bool {
    &&& leaf.name@ == f.name@
    &&& leaf.field_type@ == f.field_type@
    &&& leaf.size == f.size
    &&& leaf.offset == capped(base + f.offset as nat)
    &&& match leaf.array {
        Some((elem, elem_size, count)) => {
            &&& f.field_type@ == "array"@
            &&& elem@ == stated_element(f)
            &&& elem_size == f.size as nat / stated_count(f)
            &&& count == stated_count(f)
        },
        None => f.field_type@ != "array"@,
    }
}

/// The leaf of one dictionary field.
fn dict_leaf<'a>(f: &'a FieldDef, base: usize) -> (leaf: LeafSpec<'a>)
    ensures
        is_leaf_of(leaf, *f, base as nat),
        leaf_text(leaf) == field_text(*f, base as nat),
{
    let offset: usize = base.saturating_add(f.offset);
    let array = if same_text(f.field_type.as_str(), "array") {
        let product: usize = match &f.dims {
            Some(d) => match dims_product(d) {
                Some(n) => n,
                None => usize::MAX,
            },
            None => 1,
        };
        let count: usize = if product == 0 {
            1
        } else {
            product
        };
        assert(count == stated_count(*f));
        let elem = match &f.element_type {
            Some(t) => t.as_str(),
            None => "uint",
        };
        Some((elem, f.size / count, count))
    } else {
        None
    };
    LeafSpec {
        name: f.name.as_str(),
        field_type: f.field_type.as_str(),
        size: f.size,
        offset,
        array,
    }
}

/// Leaf views over dictionary fields, shared by flat and variable-length layout
/// hashing. Dictionary declaration order is template emission order.
pub fn dict_leaf_specs<'a>(fields: &'a Vec<FieldDef>, base: usize) -> (out: Vec<LeafSpec<'a>>)
    ensures
        out@.len() == fields@.len(),
        forall|i: int|
            0 <= i < fields@.len() ==> is_leaf_of(#[trigger] out@[i], fields@[i], base as nat),
        leaves_text(out@) == fields_text(fields@, base as nat),
{
    let mut out: Vec<LeafSpec> = Vec::new();
    for i in 0..fields.len()
        invariant
            out@.len() == i,
            forall|j: int|
                0 <= j < i ==> is_leaf_of(#[trigger] out@[j], fields@[j], base as nat),
            leaves_text(out@) == fields_text(fields@.take(i as int), base as nat),
    {
        assert(fields@.take(i + 1).drop_last() =~= fields@.take(i as int));
        let ghost before = out@;
        let leaf = dict_leaf(&fields[i], base);
        out.push(leaf);
        assert(out@.drop_last() =~= before);
    }
    assert(fields@.take(fields@.len() as int) =~= fields@);
    out
}

proof fn leaves_text_joined(a: Seq<LeafSpec>, b: Seq<LeafSpec>)
    ensures
        leaves_text(a + b) == leaves_text(a) + leaves_text(b),
    decreases b.len(),
{
    if b.len() == 0 {
        assert(a + b =~= a);
        assert(leaves_text(a) + leaves_text(b) =~= leaves_text(a));
    } else {
        leaves_text_joined(a, b.drop_last());
        assert((a + b).drop_last() =~= a + b.drop_last());
        assert(leaves_text(a + b) =~= leaves_text(a) + leaves_text(b));
    }
}

/// The layout hash of a single struct.
pub fn flat_hash(sdef: &StructDef) -> (r: u32)
    ensures
        r == text_hash(fields_text(sdef.fields@, 0), sdef.size as nat),
{
    let leaves = dict_leaf_specs(&sdef.fields, 0);
    layout_hash(leaves.as_slice(), sdef.size)
}

/// The layout hash of a header and the entries behind it: the entry count is
/// part of the layout the vehicle will read.
pub fn variable_hash(hdr: &StructDef, ent: &StructDef, n: usize) -> (r: u32)
    requires
        hdr.size + n * ent.size <= usize::MAX,
    ensures
        r == text_hash(
            fields_text(hdr.fields@, 0) + entries_text(*ent, hdr.size as nat, n as nat),
            (hdr.size + n * ent.size) as nat,
        ),
{
    let mut leaves = dict_leaf_specs(&hdr.fields, 0);
    let ghost head = leaves_text(leaves@);
    assert(head + Seq::<char>::empty() =~= head);
    for i in 0..n
        invariant
            hdr.size + n * ent.size <= usize::MAX,
            leaves_text(leaves@) == head + entries_text(*ent, hdr.size as nat, i as nat),
    {
        assert(i * ent.size <= n * ent.size && i * ent.size >= 0) by (nonlinear_arith)
            requires
                0 <= i < n,
        ;
        let base: usize = hdr.size + i * ent.size;
        let mut more = dict_leaf_specs(&ent.fields, base);
        proof {
            leaves_text_joined(leaves@, more@);
        }
        leaves.append(&mut more);
        assert(leaves_text(leaves@) =~= head + entries_text(
            *ent,
            hdr.size as nat,
            (i + 1) as nat,
        ));
    }
    layout_hash(leaves.as_slice(), hdr.size + n * ent.size)
}

// ---------------------------------------------------------------------- laws

/// What a number of bytes can hold.
pub open spec fn capacity(size: usize) -> nat {
    if size == 1 {
        0x100
    } else if size == 2 {
        0x1_0000
    } else if size == 4 {
        0x1_0000_0000
    } else {
        0x1_0000_0000_0000_0000
    }
}

/// The low bytes of a value stand for the value modulo what they can hold.
pub proof fn low_bytes_stand_for_the_remainder(w: u64, size: usize)
    requires
        size == 1 || size == 2 || size == 4 || size == 8,
    ensures
        low_bytes(w, size).len() == size,
        crate::wire::le_value(low_bytes(w, size), 0, size as nat) == w as nat % capacity(size),
{
    let b = low_bytes(w, size);
    crate::wire::words_are_the_numbers_of_their_bytes(b, 0);
    if size == 1 {
        assert(b.len() == 1 && b[0] == w % 0x100);
    } else if size == 2 {
        crate::wire::written_words_stand_for_themselves((w % 0x1_0000) as u16, 0, 0);
    } else if size == 4 {
        crate::wire::written_words_stand_for_themselves(0, (w % 0x1_0000_0000) as u32, 0);
    } else {
        crate::wire::written_words_stand_for_themselves(0, 0, w);
    }
}

/// A number is written as itself. Into an unsigned or boolean field goes a
/// non-negative integer, into a signed field any integer, each modulo what the field
/// can hold; into a floating-point field goes the bit pattern of the number. A value
/// that is not such a number, and a field of another size, is refused.
pub proof fn numbers_are_written_as_themselves(kind: FieldKind, size: usize, value: Json)
    requires
        kind == FieldKind::UInt || kind == FieldKind::Int || kind == FieldKind::Bool || kind
            == FieldKind::Float || kind == FieldKind::Double,
    ensures
        ({
            let word = size == 1 || size == 2 || size == 4 || size == 8;
            let written = scalar_bytes(kind, size, value);
            &&& written matches Some(b) ==> {
                &&& word
                &&& b.len() == size
                &&& value matches Json::Num(n)
                &&& kind == FieldKind::UInt || kind == FieldKind::Bool ==> match n.kind {
                    crate::json::NumberKind::Pos(v) => crate::wire::le_value(b, 0, size as nat)
                        == v as nat % capacity(size),
                    _ => false,
                }
                &&& kind == FieldKind::Int ==> match n.kind {
                    crate::json::NumberKind::Pos(v) => v <= i64::MAX && crate::wire::le_value(
                        b,
                        0,
                        size as nat,
                    ) == v as int % capacity(size) as int,
                    crate::json::NumberKind::Neg(v) => crate::wire::le_value(b, 0, size as nat)
                        == v as int % capacity(size) as int,
                    crate::json::NumberKind::Float => false,
                }
                &&& kind == FieldKind::Float && size == 4 ==> crate::wire::le_value(b, 0, 4)
                    == n.f32_bits
                &&& (kind == FieldKind::Float || kind == FieldKind::Double) && size == 8
                    ==> crate::wire::le_value(b, 0, 8) == n.f64_bits
            }
            &&& written is None ==> {
                ||| !(value is Num)
                ||| !word
                ||| kind == FieldKind::Bool && size != 1
                ||| kind == FieldKind::Float && size != 4 && size != 8
                ||| kind == FieldKind::Double && size != 8
                ||| (kind == FieldKind::UInt || kind == FieldKind::Bool) && !(value->Num_0.kind
                    is Pos)
                ||| kind == FieldKind::Int && match value->Num_0.kind {
                    crate::json::NumberKind::Pos(v) => v > i64::MAX,
                    crate::json::NumberKind::Neg(_) => false,
                    crate::json::NumberKind::Float => true,
                }
            }
        }),
{
    match value {
        Json::Num(n) => {
            crate::wire::written_words_stand_for_themselves(0, n.f32_bits, n.f64_bits);
            let word = size == 1 || size == 2 || size == 4 || size == 8;
            if word {
                if let Some(v) = n.unsigned() {
                    low_bytes_stand_for_the_remainder(v, size);
                }
                if let Some(v) = n.signed() {
                    low_bytes_stand_for_the_remainder(wrap_signed(v), size);
                    wrapping_keeps_the_remainder(v, size);
                }
            }
        },
        _ => {},
    }
}

proof fn wrapping_keeps_the_remainder(v: i64, size: usize)
    requires
        size == 1 || size == 2 || size == 4 || size == 8,
    ensures
        wrap_signed(v) as int % capacity(size) as int == v as int % capacity(size) as int,
{
    if v < 0 {
        let c = capacity(size) as int;
        let q: int = if size == 1 {
            0x100_0000_0000_0000
        } else if size == 2 {
            0x1_0000_0000_0000
        } else if size == 4 {
            0x1_0000_0000
        } else {
            1
        };
        assert(wrap_signed(v) as int == q * c + v);
        vstd::arithmetic::div_mod::lemma_mod_multiples_vanish(q, v as int, c);
        assert(c * q + v == q * c + v) by (nonlinear_arith);
    }
}

/// Text is written whole, with NULs behind it up to the size of its field, or not at
/// all.
pub proof fn text_is_written_whole(size: usize, value: Json)
    ensures
        match scalar_bytes(FieldKind::Text, size, value) {
            Some(b) => value matches Json::Str(s) && {
                let t = vstd::utf8::encode_utf8(s@);
                &&& b.len() == size
                &&& t.len() <= size
                &&& b.take(t.len() as int) == t
                &&& forall|i: int| t.len() <= i < size ==> #[trigger] b[i] == 0
            },
            None => value matches Json::Str(s) ==> vstd::utf8::encode_utf8(s@).len() > size,
        },
{
    match value {
        Json::Str(s) => {
            let t = vstd::utf8::encode_utf8(s@);
            if t.len() <= size {
                assert(padded_text(s@, size as nat).take(t.len() as int) =~= t);
            }
        },
        _ => {},
    }
}

/// Array elements are written one behind the other: element `i` stands at `i` times
/// the element size, as it would stand alone.
pub proof fn elements_stand_in_order(kind: FieldKind, size: usize, items: Seq<Json>, i: int)
    requires
        0 <= i < items.len(),
        elements_bytes(kind, size, items) is Some,
    ensures
        elements_bytes(kind, size, items)->0.len() == items.len() * size,
        0 <= i * size,
        (i + 1) * size <= items.len() * size,
        Some(elements_bytes(kind, size, items)->0.subrange(i * size, (i + 1) * size))
            == scalar_bytes(kind, size, items[i]),
    decreases items.len(),
{
    elements_fill(kind, size, items);
    let before = items.drop_last();
    let b = elements_bytes(kind, size, items)->0;
    let front = elements_bytes(kind, size, before)->0;
    elements_fill(kind, size, before);
    assert((i + 1) * size <= items.len() * size && 0 <= i * size <= (i + 1) * size && (i + 1) * size
        == i * size + size) by (nonlinear_arith)
        requires
            0 <= i < items.len(),
    ;
    if i < items.len() - 1 {
        elements_stand_in_order(kind, size, before, i);
        assert(b.subrange(i * size, (i + 1) * size) =~= front.subrange(i * size, (i + 1) * size));
    } else {
        let last = scalar_bytes(kind, size, items.last())->0;
        assert(b =~= front + last);
        assert(last.len() == size);
        assert(b.subrange(i * size, (i + 1) * size) =~= last);
    }
}

/// Without a producer's statement, the hash of a struct is the one over its leaves:
/// one for each field, with the field's name, type, size and offset.
pub proof fn computed_hash_is_over_the_leaves(fields: Seq<FieldDef>, leaves: Seq<LeafSpec>, base: nat)
    requires
        leaves.len() == fields.len(),
        forall|i: int| 0 <= i < fields.len() ==> is_leaf_of(#[trigger] leaves[i], fields[i], base),
    ensures
        fields_text(fields, base) == leaves_text(leaves),
        forall|total: nat|
            #[trigger] text_hash(fields_text(fields, base), total)
                == crate::tprm::layout_hash_of(leaves, total),
    decreases fields.len(),
{
    if fields.len() > 0 {
        let (f, l) = (fields.drop_last(), leaves.drop_last());
        assert forall|i: int| 0 <= i < f.len() implies is_leaf_of(#[trigger] l[i], f[i], base) by {
            assert(is_leaf_of(leaves[i], fields[i], base));
        }
        computed_hash_is_over_the_leaves(f, l, base);
        assert(is_leaf_of(leaves[fields.len() - 1], fields[fields.len() - 1], base));
        assert(leaf_text(leaves.last()) == field_text(fields.last(), base));
    }
}

/// The number of elements is the product of the dimensions, in whatever order they stand.
pub proof fn dimensions_multiply(a: Seq<usize>, b: Seq<usize>, d: usize)
    ensures
        product(a + b) == product(a) * product(b),
        product(seq![d]) == d,
        product(Seq::empty()) == 1,
    decreases b.len(),
{
    reveal_with_fuel(product, 2);
    assert(seq![d].drop_last() =~= Seq::empty());
    assert(1 * (d as nat) == d && product(a) * 1 == product(a)) by (nonlinear_arith);
    if b.len() == 0 {
        assert(a + b =~= a);
    } else {
        assert((a + b).last() == b.last());
        assert((a + b).drop_last() =~= a + b.drop_last());
        dimensions_multiply(a, b.drop_last(), d);
        let (x, y, z) = (product(a), product(b.drop_last()), b.last() as nat);
        assert((x * y) * z == x * (y * z)) by (nonlinear_arith);
    }
}

/// An array takes exactly the elements that its dimensions say: a value that is written is
/// an array of that many elements, which share the field's size evenly, and each of them is
/// written as it would be alone. Without dimensions nothing is taken.
pub proof fn arrays_take_exactly_their_elements(f: FieldDef, value: Json, i: int)
    requires
        kind_of(f.field_type@) == FieldKind::Array,
        value_bytes(f, value) is Some,
    ensures
        value matches Json::Array(items) && f.dims matches Some(dims) && {
            let size = f.size as int / items@.len() as int;
            let kind = match f.element_type {
                Some(t) => kind_of(t@),
                None => kind_of("uint"@),
            };
            &&& items@.len() == product(dims@)
            &&& items@.len() > 0
            &&& size * items@.len() == f.size
            &&& 0 <= i < items@.len() ==> scalar_bytes(kind, size as usize, items@[i]) == Some(
                value_bytes(f, value)->0.subrange(i * size, (i + 1) * size),
            )
        },
{
    let items = array_items(f, value)->0;
    array_divides(f.size as nat, element_count(f, 0));
    let size = f.size as int / items.len() as int;
    assert(size * items.len() == items.len() * size) by (nonlinear_arith);
    assert(element_size(f) == size);
    if 0 <= i < items.len() {
        elements_stand_in_order(element_kind(f), element_size(f), items, i);
    }
}

/// The layout of an array states the product of its dimensions, one at least and a machine
/// word at most; offsets are absolute, and held at a machine word too.
pub proof fn layouts_state_the_dimensions(f: FieldDef, n: nat)
    ensures
        f.dims is None ==> stated_count(f) == 1,
        f.dims matches Some(d) ==> (1 <= product(d@) <= usize::MAX ==> stated_count(f) == product(
            d@,
        )),
        f.dims matches Some(d) ==> (product(d@) == 0 ==> stated_count(f) == 1),
        f.dims matches Some(d) ==> (product(d@) > usize::MAX ==> stated_count(f) == usize::MAX),
        n <= usize::MAX ==> capped(n) == n,
        n > usize::MAX ==> capped(n) == usize::MAX,
        stated_element(f) == (match f.element_type {
            Some(t) => t@,
            None => "uint"@,
        }),
{
}

} // verus!
