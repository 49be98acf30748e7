//! Fixed-width integers on the wire, in both byte orders.

use vstd::prelude::*;

verus! {

/// The little-endian 16-bit value at `at`.
pub open spec fn u16_le_at(s: Seq<u8>, at: int) -> u16 {
    (s[at] + 256 * s[at + 1]) as u16
}

/// The little-endian 32-bit value at `at`.
pub open spec fn u32_le_at(s: Seq<u8>, at: int) -> u32 {
    (s[at] + 256 * s[at + 1] + 65536 * s[at + 2] + 16777216 * s[at + 3]) as u32
}

/// The little-endian 64-bit value at `at`.
pub open spec fn u64_le_at(s: Seq<u8>, at: int) -> u64 {
    (u32_le_at(s, at) + 4294967296 * u32_le_at(s, at + 4)) as u64
}

/// The big-endian 16-bit value at `at`.
pub open spec fn u16_be_at(s: Seq<u8>, at: int) -> u16 {
    (256 * s[at] + s[at + 1]) as u16
}

/// A 16-bit value, least significant byte first.
pub open spec fn u16_le_bytes(v: u16) -> Seq<u8> {
    seq![(v % 256) as u8, (v / 256) as u8]
}

/// A 32-bit value, least significant byte first.
pub open spec fn u32_le_bytes(v: u32) -> Seq<u8> {
    seq![
        (v % 256) as u8,
        (v / 256 % 256) as u8,
        (v / 65536 % 256) as u8,
        (v / 16777216) as u8,
    ]
}

/// A 64-bit value, least significant byte first.
pub open spec fn u64_le_bytes(v: u64) -> Seq<u8> {
    u32_le_bytes((v % 4294967296) as u32) + u32_le_bytes((v / 4294967296) as u32)
}

/// A 16-bit value, most significant byte first.
pub open spec fn u16_be_bytes(v: u16) -> Seq<u8> {
    seq![(v / 256) as u8, (v % 256) as u8]
}

pub fn get_u16_le(data: &[u8], at: usize) -> (v: u16)
    requires
        at + 2 <= data@.len(),
    ensures
        v == u16_le_at(data@, at as int),
{
    data[at] as u16 + 256 * (data[at + 1] as u16)
}

pub fn get_u32_le(data: &[u8], at: usize) -> (v: u32)
    requires
        at + 4 <= data@.len(),
    ensures
        v == u32_le_at(data@, at as int),
{
    data[at] as u32 + 256 * (data[at + 1] as u32) + 65536 * (data[at + 2] as u32) + 16777216 * (
    data[at + 3] as u32)
}

pub fn get_u64_le(data: &[u8], at: usize) -> (v: u64)
    requires
        at + 8 <= data@.len(),
    ensures
        v == u64_le_at(data@, at as int),
{
    assert(at + 8 <= data.len());
    let lo: u32 = get_u32_le(data, at);
    let hi: u32 = get_u32_le(data, at + 4);
    lo as u64 + 4294967296 * (hi as u64)
}

pub fn get_u16_be(data: &[u8], at: usize) -> (v: u16)
    requires
        at + 2 <= data@.len(),
    ensures
        v == u16_be_at(data@, at as int),
{
    256 * (data[at] as u16) + data[at + 1] as u16
}

pub fn put_u16_le(out: &mut Vec<u8>, v: u16)
    ensures
        final(out)@ == old(out)@ + u16_le_bytes(v),
{
    out.push((v % 256) as u8);
    out.push((v / 256) as u8);
    assert(out@ =~= old(out)@ + u16_le_bytes(v));
}

pub fn put_u32_le(out: &mut Vec<u8>, v: u32)
    ensures
        final(out)@ == old(out)@ + u32_le_bytes(v),
{
    out.push((v % 256) as u8);
    out.push((v / 256 % 256) as u8);
    out.push((v / 65536 % 256) as u8);
    out.push((v / 16777216) as u8);
    assert(out@ =~= old(out)@ + u32_le_bytes(v));
}

pub fn put_u64_le(out: &mut Vec<u8>, v: u64)
    ensures
        final(out)@ == old(out)@ + u64_le_bytes(v),
{
    put_u32_le(out, (v % 4294967296) as u32);
    put_u32_le(out, (v / 4294967296) as u32);
    assert(out@ =~= old(out)@ + u64_le_bytes(v));
}

pub fn put_u16_be(out: &mut Vec<u8>, v: u16)
    ensures
        final(out)@ == old(out)@ + u16_be_bytes(v),
{
    out.push((v / 256) as u8);
    out.push((v % 256) as u8);
    assert(out@ =~= old(out)@ + u16_be_bytes(v));
}

/// Append a copy of `data`.
pub fn put_bytes(out: &mut Vec<u8>, data: &[u8])
    ensures
        final(out)@ == old(out)@ + data@,
{
    for i in 0..data.len()
        invariant
            out@ == old(out)@ + data@.take(i as int),
    {
        out.push(data[i]);
        assert(data@.take(i + 1) =~= data@.take(i as int).push(data@[i as int]));
    }
    assert(data@.take(data@.len() as int) =~= data@);
}

/// A copy of `data[from..to]`.
pub fn copy_range(data: &[u8], from: usize, to: usize) -> (out: Vec<u8>)
    requires
        from <= to <= data@.len(),
    ensures
        out@ == data@.subrange(from as int, to as int),
{
    vstd::slice::slice_to_vec(vstd::slice::slice_subrange(data, from, to))
}

/// Whether two byte strings are the same.
pub fn same_bytes(a: &[u8], b: &[u8]) -> (r: bool)
    ensures
        r == (a@ == b@),
{
    if a.len() != b.len() {
        return false;
    }
    for i in 0..a.len()
        invariant
            a@.len() == b@.len(),
            forall|j: int| 0 <= j < i ==> a@[j] == b@[j],
    {
        if a[i] != b[i] {
            return false;
        }
    }
    assert(a@ =~= b@);
    true
}

/// Writing back a read 16-bit little-endian value gives the bytes.
pub broadcast proof fn u16_le_write_back(s: Seq<u8>, at: int)
    ensures
        #[trigger] u16_le_bytes(u16_le_at(s, at)) == seq![s[at], s[at + 1]],
{
    assert(u16_le_bytes(u16_le_at(s, at)) =~= seq![s[at], s[at + 1]]);
}

/// Writing back a read 32-bit little-endian value gives the bytes.
pub broadcast proof fn u32_le_write_back(s: Seq<u8>, at: int)
    ensures
        #[trigger] u32_le_bytes(u32_le_at(s, at)) == seq![s[at], s[at + 1], s[at + 2], s[at + 3]],
{
    let (a, b, c, d) = (s[at] as int, s[at + 1] as int, s[at + 2] as int, s[at + 3] as int);
    let v = u32_le_at(s, at) as int;
    assert(v == a + 256 * b + 65536 * c + 16777216 * d);
    assert(v % 256 == a && v / 256 == b + 256 * c + 65536 * d);
    assert(v / 256 % 256 == b && v / 65536 == c + 256 * d);
    assert(v / 65536 % 256 == c && v / 16777216 == d);
    assert(u32_le_bytes(u32_le_at(s, at)) =~= seq![s[at], s[at + 1], s[at + 2], s[at + 3]]);
}

/// The value whose bytes stand at `at` is the value read there.
pub proof fn u16_le_reads(s: Seq<u8>, at: int, v: u16)
    requires
        0 <= at,
        at + 2 <= s.len(),
        s.subrange(at, at + 2) == u16_le_bytes(v),
    ensures
        u16_le_at(s, at) == v,
{
    let t = u16_le_bytes(v);
    assert(s[at] == t[0] && s[at + 1] == t[1]) by {
        assert(s.subrange(at, at + 2)[0] == s[at] && s.subrange(at, at + 2)[1] == s[at + 1]);
    }
}

/// The value whose bytes stand at `at` is the value read there.
pub proof fn u32_le_reads(s: Seq<u8>, at: int, v: u32)
    requires
        0 <= at,
        at + 4 <= s.len(),
        s.subrange(at, at + 4) == u32_le_bytes(v),
    ensures
        u32_le_at(s, at) == v,
{
    let t = u32_le_bytes(v);
    let r = s.subrange(at, at + 4);
    assert(s[at] == r[0] && s[at + 1] == r[1] && s[at + 2] == r[2] && s[at + 3] == r[3]);
    u32_le_read_back(v);
    assert(u32_le_at(s, at) == u32_le_at(t, 0));
}

/// The value whose bytes stand at `at` is the value read there.
pub proof fn u64_le_reads(s: Seq<u8>, at: int, v: u64)
    requires
        0 <= at,
        at + 8 <= s.len(),
        s.subrange(at, at + 8) == u64_le_bytes(v),
    ensures
        u64_le_at(s, at) == v,
{
    let lo = (v % 4294967296) as u32;
    let hi = (v / 4294967296) as u32;
    let r = s.subrange(at, at + 8);
    assert(s.subrange(at, at + 4) =~= r.subrange(0, 4));
    assert(s.subrange(at + 4, at + 8) =~= r.subrange(4, 8));
    assert(u64_le_bytes(v).subrange(0, 4) =~= u32_le_bytes(lo));
    assert(u64_le_bytes(v).subrange(4, 8) =~= u32_le_bytes(hi));
    u32_le_reads(s, at, lo);
    u32_le_reads(s, at + 4, hi);
}

/// Reading back a written 32-bit little-endian value gives the value.
pub broadcast proof fn u32_le_read_back(v: u32)
    ensures
        u32_le_at(#[trigger] u32_le_bytes(v), 0) == v,
        u32_le_bytes(v).len() == 4,
{
}

// ---------------------------------------------------------------------- laws

/// The number that the `n` bytes from `at` on stand for, least significant
/// first: the sum of each byte times 256 to the power of its place.
pub open spec fn le_value(s: Seq<u8>, at: int, n: nat) -> nat
    decreases n,
{
    if n == 0 {
        0
    } else {
        s[at] as nat + 256 * le_value(s, at + 1, (n - 1) as nat)
    }
}

/// A byte is its own number, a little-endian word the number that its bytes
/// stand for, least significant first, and a big-endian one the number that they
/// stand for in the opposite order.
pub proof fn words_are_the_numbers_of_their_bytes(s: Seq<u8>, at: int)
    ensures
        s[at] == le_value(s, at, 1),
        u16_le_at(s, at) == le_value(s, at, 2),
        u32_le_at(s, at) == le_value(s, at, 4),
        u64_le_at(s, at) == le_value(s, at, 8),
        u16_be_at(s, at) == le_value(seq![s[at + 1], s[at]], 0, 2),
{
    reveal_with_fuel(le_value, 9);
}

/// A word is written as the bytes that stand for it.
pub proof fn written_words_stand_for_themselves(a: u16, b: u32, c: u64)
    ensures
        u16_le_bytes(a).len() == 2,
        le_value(u16_le_bytes(a), 0, 2) == a,
        u32_le_bytes(b).len() == 4,
        le_value(u32_le_bytes(b), 0, 4) == b,
        u64_le_bytes(c).len() == 8,
        le_value(u64_le_bytes(c), 0, 8) == c,
        u16_be_bytes(a).len() == 2,
        le_value(u16_be_bytes(a).reverse(), 0, 2) == a,
{
    let (x, y, z, w) = (u16_le_bytes(a), u32_le_bytes(b), u64_le_bytes(c), u16_be_bytes(a));
    assert(x.subrange(0, 2) =~= x && y.subrange(0, 4) =~= y && z.subrange(0, 8) =~= z);
    u16_le_reads(x, 0, a);
    u32_le_reads(y, 0, b);
    u64_le_reads(z, 0, c);
    words_are_the_numbers_of_their_bytes(x, 0);
    words_are_the_numbers_of_their_bytes(y, 0);
    words_are_the_numbers_of_their_bytes(z, 0);
    assert(w.reverse() =~= x);
}

/// Bytes that agree stand for the same number.
pub proof fn same_bytes_same_number(s: Seq<u8>, at: int, t: Seq<u8>, from: int, n: nat)
    requires
        forall|k: int| 0 <= k < n ==> #[trigger] s[at + k] == t[from + k],
    ensures
        le_value(s, at, n) == le_value(t, from, n),
    decreases n,
{
    if n > 0 {
        assert(s[at + 0] == t[from + 0]);
        assert forall|k: int| 0 <= k < n - 1 implies #[trigger] s[at + 1 + k] == t[from + 1 + k] by {
            assert(s[at + (1 + k)] == t[from + (1 + k)]);
        }
        same_bytes_same_number(s, at + 1, t, from + 1, (n - 1) as nat);
    }
}

} // verus!
