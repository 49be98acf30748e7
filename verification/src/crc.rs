//! Reflected 32-bit cyclic redundancy checks.

use vstd::prelude::*;

verus! {

/// One shift of a reflected CRC register.
pub open spec fn shift(poly: u32, crc: u32) -> u32 {
    if crc & 1 != 0 {
        (crc >> 1) ^ poly
    } else {
        crc >> 1
    }
}

/// `n` shifts of a reflected CRC register.
pub open spec fn shifts(poly: u32, crc: u32, n: nat) -> u32
    decreases n,
{
    if n == 0 {
        crc
    } else {
        shift(poly, shifts(poly, crc, (n - 1) as nat))
    }
}

/// The register after a byte string, started from all ones.
pub open spec fn register(poly: u32, data: Seq<u8>) -> u32
    decreases data.len(),
{
    if data.len() == 0 {
        u32::MAX
    } else {
        shifts(poly, register(poly, data.drop_last()) ^ (data.last() as u32), 8)
    }
}

/// The CRC of a byte string: init and final XOR 0xFFFFFFFF.
pub open spec fn crc_of(poly: u32, data: Seq<u8>) -> u32 {
    !register(poly, data)
}

/// Compute the reflected CRC with the given polynomial.
pub fn crc_reflected(poly: u32, data: &[u8]) -> (r: u32)
    ensures
        r == crc_of(poly, data@),
{
    let mut crc: u32 = u32::MAX;
    for i in 0..data.len()
        invariant
            crc == register(poly, data@.take(i as int)),
    {
        crc = crc ^ (data[i] as u32);
        let ghost start = crc;
        for k in 0..8u32
            invariant
                crc == shifts(poly, start, k as nat),
        {
            crc = if crc & 1 != 0 {
                (crc >> 1) ^ poly
            } else {
                crc >> 1
            };
        }
        assert(data@.take(i + 1).drop_last() =~= data@.take(i as int));
    }
    assert(data@.take(data@.len() as int) =~= data@);
    !crc
}

// ---------------------------------------------------------------------- laws

/// A shift loses nothing when the polynomial's top bit is set.
proof fn shift_is_injective(poly: u32, a: u32, b: u32)
    requires
        poly >= 0x8000_0000,
        shift(poly, a) == shift(poly, b),
    ensures
        a == b,
{
    assert((if a & 1 != 0 {
        (a >> 1) ^ poly
    } else {
        a >> 1
    }) == (if b & 1 != 0 {
        (b >> 1) ^ poly
    } else {
        b >> 1
    }) && poly >= 0x8000_0000 ==> a == b) by (bit_vector);
}

proof fn shifts_are_injective(poly: u32, a: u32, b: u32, n: nat)
    requires
        poly >= 0x8000_0000,
        shifts(poly, a, n) == shifts(poly, b, n),
    ensures
        a == b,
    decreases n,
{
    if n > 0 {
        let m = (n - 1) as nat;
        shift_is_injective(poly, shifts(poly, a, m), shifts(poly, b, m));
        shifts_are_injective(poly, a, b, m);
    }
}

proof fn registers_stay_apart(poly: u32, x: Seq<u8>, y: Seq<u8>, i: int)
    requires
        poly >= 0x8000_0000,
        x.len() == y.len(),
        0 <= i < x.len(),
        x[i] != y[i],
        forall|j: int| 0 <= j < x.len() && j != i ==> x[j] == y[j],
    ensures
        register(poly, x) != register(poly, y),
    decreases x.len(),
{
    let (a, b) = (register(poly, x.drop_last()), register(poly, y.drop_last()));
    let (u, v) = (x.last() as u32, y.last() as u32);
    if register(poly, x) == register(poly, y) {
        shifts_are_injective(poly, a ^ u, b ^ v, 8);
        if i == x.len() - 1 {
            assert(x.drop_last() =~= y.drop_last());
            assert(a ^ u == a ^ v ==> u == v) by (bit_vector);
        } else {
            registers_stay_apart(poly, x.drop_last(), y.drop_last(), i);
            assert(u == v);
            assert(a ^ u == b ^ u ==> a == b) by (bit_vector);
        }
    }
}

/// A check notices a damaged byte: two byte strings of one length that differ in
/// exactly one byte never have the same check.
pub proof fn one_damaged_byte_is_noticed(poly: u32, x: Seq<u8>, y: Seq<u8>, i: int)
    requires
        poly >= 0x8000_0000,
        x.len() == y.len(),
        0 <= i < x.len(),
        x[i] != y[i],
        forall|j: int| 0 <= j < x.len() && j != i ==> x[j] == y[j],
    ensures
        crc_of(poly, x) != crc_of(poly, y),
{
    registers_stay_apart(poly, x, y, i);
    let (a, b) = (register(poly, x), register(poly, y));
    assert(!a == !b ==> a == b) by (bit_vector);
}

} // verus!
