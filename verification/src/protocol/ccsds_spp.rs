//! CCSDS Space Packet Protocol primary header (CCSDS 133.0-B-2).
//!
//! Zenith's second wire protocol. Field layout per the Blue Book: 6-octet
//! header; version/type/secondary-flag/APID-high in octet 0, APID-low in
//! octet 1, sequence flags+count in octets 2-3, packet-data-length-minus-one
//! big-endian in octets 4-5.

use vstd::prelude::*;

use crate::wire::{copy_range, get_u16_be, put_bytes, put_u16_be};

verus! {

/// Primary header length in octets.
pub const HEADER_SIZE: usize = 6;

/// Ceiling on a whole packet.
pub const MAX_PACKET: usize = 4096;

/// Parsed primary header.
#[derive(Debug, Clone, Copy, PartialEq, Eq, Structural)]
pub struct SppHeader {
    pub version: u8,
    /// Packet type bit: true = telecommand, false = telemetry.
    pub is_command: bool,
    pub has_secondary_header: bool,
    pub apid: u16,
    pub seq_flags: u8,
    pub seq_count: u16,
    /// Actual data-field byte count (the wire carries this minus one).
    pub data_len: usize,
}

/// The primary header at the front of `b`: None when fewer than 6 octets are
/// there, the version is not 0, or the whole packet would exceed the ceiling.
pub open spec fn header_of(b: Seq<u8>) -> Option<SppHeader> {
    if b.len() < HEADER_SIZE || b[0] / 32 != 0 || HEADER_SIZE + crate::wire::u16_be_at(b, 4) + 1
        > MAX_PACKET {
        None
    } else {
        Some(
            SppHeader {
                version: 0,
                is_command: b[0] / 16 % 2 == 1,
                has_secondary_header: b[0] / 8 % 2 == 1,
                apid: (crate::wire::u16_be_at(b, 0) % 0x800) as u16,
                seq_flags: (b[2] / 64) as u8,
                seq_count: (crate::wire::u16_be_at(b, 2) % 0x4000) as u16,
                data_len: (crate::wire::u16_be_at(b, 4) + 1) as usize,
            },
        )
    }
}

/// The length field of a packet that carries `len` octets of data.
pub open spec fn length_field(len: nat) -> u16 {
    if len == 0 {
        0
    } else {
        ((len - 1) % 65536) as u16
    }
}

/// An unsegmented telemetry packet on the wire.
pub open spec fn packed(apid: u16, seq_count: u16, payload: Seq<u8>) -> Seq<u8> {
    crate::wire::u16_be_bytes((apid % 0x800) as u16) + crate::wire::u16_be_bytes(
        (0xC000 + seq_count % 0x4000) as u16,
    ) + crate::wire::u16_be_bytes(length_field(payload.len())) + payload
}

/// The complete packets of a byte stream, each with its data field, and the
/// residue that waits for more bytes. An implausible header costs one octet.
pub open spec fn extract(buf: Seq<u8>) -> (Seq<(SppHeader, Seq<u8>)>, Seq<u8>)
    decreases buf.len(),
{
    if buf.len() < HEADER_SIZE {
        (Seq::empty(), buf)
    } else {
        match header_of(buf) {
            None => extract(buf.skip(1)),
            Some(h) => if buf.len() < HEADER_SIZE + h.data_len {
                (Seq::empty(), buf)
            } else {
                let rest = extract(buf.skip(HEADER_SIZE + h.data_len));
                let data = buf.subrange(HEADER_SIZE as int, HEADER_SIZE + h.data_len);
                (seq![(h, data)] + rest.0, rest.1)
            },
        }
    }
}

/// The contents of a list of extracted packets.
pub open spec fn contents(packets: Seq<(SppHeader, Vec<u8>)>) -> Seq<(SppHeader, Seq<u8>)> {
    Seq::new(packets.len(), |i: int| (packets[i].0, packets[i].1@))
}

/// Parse a primary header from the first 6 octets. None when the buffer is
/// short, the version is not 0, or the declared data field would exceed the
/// packet ceiling; the extractor uses those checks to resynchronize a damaged
/// stream.
pub fn parse_header(b: &[u8]) -> (r: Option<SppHeader>)
    ensures
        r == header_of(b@),
{
    if b.len() < HEADER_SIZE {
        return None;
    }
    let version: u8 = b[0] / 32;
    if version != 0 {
        return None;
    }
    let data_len: usize = get_u16_be(b, 4) as usize + 1;
    if HEADER_SIZE + data_len > MAX_PACKET {
        return None;
    }
    Some(
        SppHeader {
            version,
            is_command: b[0] / 16 % 2 == 1,
            has_secondary_header: b[0] / 8 % 2 == 1,
            apid: get_u16_be(b, 0) % 0x800,
            seq_flags: b[2] / 64,
            seq_count: get_u16_be(b, 2) % 0x4000,
            data_len,
        },
    )
}

/// Pack a telemetry packet (version 0, unsegmented).
pub fn pack(apid: u16, seq_count: u16, payload: &[u8]) -> (out: Vec<u8>)
    ensures
        out@ == packed(apid, seq_count, payload@),
{
    let mut out: Vec<u8> = Vec::new();
    put_u16_be(&mut out, apid % 0x800);
    // Sequence flags 0b11 = unsegmented, per the Blue Book default for
    // standalone packets.
    put_u16_be(&mut out, 0xC000 + seq_count % 0x4000);
    let pdl: u16 = if payload.len() == 0 {
        0
    } else {
        ((payload.len() - 1) % 65536) as u16
    };
    put_u16_be(&mut out, pdl);
    put_bytes(&mut out, payload);
    out
}

/// Streaming packet extractor. SPP has no sync marker: framing is
/// header-declared length over a byte stream. A damaged stream resynchronizes
/// by skipping forward one octet at a time until a plausible header parses.
pub struct Extractor {
    buf: Vec<u8>,
}

impl View for Extractor {
    type V = Seq<u8>;

    /// The bytes held back for the next packet.
    closed spec fn view(&self) -> Seq<u8> {
        self.buf@
    }
}

impl Extractor {
    pub fn new() -> (e: Self)
        ensures
            e@ == Seq::<u8>::empty(),
    {
        Extractor { buf: Vec::new() }
    }

    /// Feed stream bytes; returns every complete packet now available as
    /// (header, data field bytes).
    ///
    /// Consumption is cursor-based with a single compaction per feed, so a
    /// garbage run costs linear time. What is held back afterwards is less
    /// than one packet.
    pub fn feed(&mut self, data: &[u8]) -> (out: Vec<(SppHeader, Vec<u8>)>)
        ensures
            contents(out@) == extract(old(self)@ + data@).0,
            final(self)@ == extract(old(self)@ + data@).1,
            final(self)@.len() < MAX_PACKET,
    {
        put_bytes(&mut self.buf, data);
        let ghost all = self.buf@;
        let mut out: Vec<(SppHeader, Vec<u8>)> = Vec::new();
        let mut pos: usize = 0;
        assert(all.skip(0) =~= all);
        assert(contents(out@) + extract(all).0 =~= extract(all).0);
        while self.buf.len() - pos >= HEADER_SIZE
            invariant
                pos <= self.buf@.len(),
                self.buf@ == all,
                contents(out@) + extract(all.skip(pos as int)).0 == extract(all).0,
                extract(all.skip(pos as int)).1 == extract(all).1,
            ensures
                extract(all.skip(pos as int)) == (
                    Seq::<(SppHeader, Seq<u8>)>::empty(),
                    all.skip(pos as int),
                ),
                all.skip(pos as int).len() < MAX_PACKET,
            decreases self.buf@.len() - pos,
        {
            let rest = vstd::slice::slice_subrange(self.buf.as_slice(), pos, self.buf.len());
            assert(rest@ =~= all.skip(pos as int));
            match parse_header(rest) {
                None => {
                    assert(all.skip(pos as int).skip(1) =~= all.skip(pos + 1));
                    pos += 1;
                },
                Some(hdr) => {
                    let total: usize = HEADER_SIZE + hdr.data_len;
                    if self.buf.len() - pos < total {
                        break;
                    }
                    let field = copy_range(rest, HEADER_SIZE, total);
                    let ghost before = contents(out@);
                    let ghost tail = extract(all.skip(pos + total));
                    assert(all.skip(pos as int).skip(total as int) =~= all.skip(pos + total));
                    out.push((hdr, field));
                    assert(contents(out@) =~= before + seq![(hdr, field@)]);
                    assert(contents(out@) + tail.0 =~= before + (seq![(hdr, field@)] + tail.0));
                    pos += total;
                },
            }
        }
        assert(contents(out@) + extract(all.skip(pos as int)).0 =~= contents(out@));
        let rest = self.buf.split_off(pos);
        assert(rest@ =~= all.skip(pos as int));
        self.buf = rest;
        out
    }
}

impl Default for Extractor {
    fn default() -> (e: Self)
        ensures
            e@ == Seq::<u8>::empty(),
    {
        Extractor::new()
    }
}

/// However a stream is cut into feeds, the packets and the residue are those
/// of the whole: what the first piece leaves behind, joined by the second,
/// yields the rest.
pub proof fn extract_in_pieces(a: Seq<u8>, b: Seq<u8>)
    ensures
        extract(a + b).0 == extract(a).0 + extract(extract(a).1 + b).0,
        extract(a + b).1 == extract(extract(a).1 + b).1,
    decreases a.len(),
{
    if a.len() < HEADER_SIZE {
        assert(extract(a).0 + extract(extract(a).1 + b).0 =~= extract(a + b).0);
    } else {
        assert(header_of(a + b) == header_of(a));
        match header_of(a) {
            None => {
                extract_in_pieces(a.skip(1), b);
                assert((a + b).skip(1) =~= a.skip(1) + b);
            },
            Some(h) => {
                let total = HEADER_SIZE + h.data_len;
                if a.len() < total {
                    assert(extract(a).0 + extract(extract(a).1 + b).0 =~= extract(a + b).0);
                } else {
                    extract_in_pieces(a.skip(total), b);
                    assert((a + b).skip(total) =~= a.skip(total) + b);
                    let data = a.subrange(HEADER_SIZE as int, total);
                    assert((a + b).subrange(HEADER_SIZE as int, total) =~= data);
                    assert(extract(a + b).0 =~= extract(a).0 + extract(extract(a).1 + b).0);
                }
            },
        }
    }
}

/// Whatever bytes arrive, what an extractor holds back is less than one
/// maximum-size packet.
pub proof fn residue_is_bounded(buf: Seq<u8>)
    ensures
        extract(buf).1.len() < MAX_PACKET,
    decreases buf.len(),
{
    if buf.len() >= HEADER_SIZE {
        match header_of(buf) {
            None => residue_is_bounded(buf.skip(1)),
            Some(h) => if buf.len() >= HEADER_SIZE + h.data_len {
                residue_is_bounded(buf.skip(HEADER_SIZE + h.data_len));
            },
        }
    }
}

/// Parsing undoes packing: APID (11 bits), sequence count (14 bits) and data
/// length come back, as an unsegmented telemetry packet of version 0.
pub proof fn parse_undoes_pack(apid: u16, seq_count: u16, payload: Seq<u8>, rest: Seq<u8>)
    requires
        0 < payload.len() <= MAX_PACKET - HEADER_SIZE,
    ensures
        header_of(packed(apid, seq_count, payload) + rest) == Some(
            SppHeader {
                version: 0,
                is_command: false,
                has_secondary_header: false,
                apid: (apid % 0x800) as u16,
                seq_flags: 3,
                seq_count: (seq_count % 0x4000) as u16,
                data_len: payload.len() as usize,
            },
        ),
{
    let b = packed(apid, seq_count, payload) + rest;
    let id = (apid % 0x800) as u16;
    let seq = (0xC000 + seq_count % 0x4000) as u16;
    let pdl = length_field(payload.len());
    assert(b[0] == id / 256 && b[1] == id % 256);
    assert(b[2] == seq / 256 && b[3] == seq % 256);
    assert(b[4] == pdl / 256 && b[5] == pdl % 256);
    assert(crate::wire::u16_be_at(b, 0) == id);
    assert(crate::wire::u16_be_at(b, 2) == seq);
    assert(crate::wire::u16_be_at(b, 4) == pdl);
    assert(b[0] < 8);
    assert(b[2] / 64 == 3);
}

/// A packed packet at the front of a stream comes out first and whole, and the
/// extractor then continues right behind it.
pub proof fn extract_undoes_pack(apid: u16, seq_count: u16, payload: Seq<u8>, rest: Seq<u8>)
    requires
        0 < payload.len() <= MAX_PACKET - HEADER_SIZE,
    ensures
        extract(packed(apid, seq_count, payload) + rest).0 == seq![
            (header_of(packed(apid, seq_count, payload) + rest).unwrap(), payload),
        ] + extract(rest).0,
        extract(packed(apid, seq_count, payload) + rest).1 == extract(rest).1,
{
    let b = packed(apid, seq_count, payload) + rest;
    parse_undoes_pack(apid, seq_count, payload, rest);
    let total = HEADER_SIZE + payload.len();
    assert(b.subrange(HEADER_SIZE as int, total as int) =~= payload);
    assert(b.skip(total as int) =~= rest);
}

/// A damaged stream resynchronizes: a run of octets at which no plausible
/// header starts is skipped, and extraction goes on behind it.
pub proof fn extract_skips_garbage(garbage: Seq<u8>, rest: Seq<u8>)
    requires
        rest.len() >= HEADER_SIZE,
        forall|i: int|
            0 <= i < garbage.len() ==> header_of(#[trigger] (garbage + rest).skip(i)) is None,
    ensures
        extract(garbage + rest) == extract(rest),
    decreases garbage.len(),
{
    if garbage.len() == 0 {
        assert(garbage + rest =~= rest);
    } else {
        assert((garbage + rest).skip(0) =~= garbage + rest);
        assert((garbage + rest).skip(1) =~= garbage.skip(1) + rest);
        assert forall|i: int| 0 <= i < garbage.skip(1).len() implies header_of(
            #[trigger] (garbage.skip(1) + rest).skip(i),
        ) is None by {
            assert((garbage.skip(1) + rest).skip(i) =~= (garbage + rest).skip(i + 1));
        }
        extract_skips_garbage(garbage.skip(1), rest);
    }
}

/// A header is read from its six octets: three bits of version that must be zero, one of
/// type, one for a secondary header and eleven of APID; two of sequence flags and
/// fourteen of count; and sixteen of data length, less one. There is no header in fewer
/// octets, and none that announces a packet of more than 4096.
pub proof fn headers_are_read_from_their_octets(b: Seq<u8>)
    ensures
        ({
            let data_len = 256 * b[4] + b[5] + 1;
            &&& header_of(b) is Some <==> b.len() >= 6 && b[0] < 32 && 6 + data_len <= 4096
            &&& header_of(b) matches Some(h) ==> {
                &&& h.version == 0
                &&& h.is_command == (b[0] / 16 % 2 == 1)
                &&& h.has_secondary_header == (b[0] / 8 % 2 == 1)
                &&& h.apid == 256 * (b[0] % 8) + b[1]
                &&& h.seq_flags == b[2] / 64
                &&& h.seq_count == 256 * (b[2] % 64) + b[3]
                &&& h.data_len == data_len
            }
        }),
{
}

/// A packet is packed octet for octet: APID, unsegmented sequence flags and count, the
/// data length less one, and the data.
pub proof fn packets_are_packed_octet_for_octet(apid: u16, seq_count: u16, payload: Seq<u8>)
    requires
        0 < payload.len() <= 65536,
    ensures
        ({
            let b = packed(apid, seq_count, payload);
            &&& b.len() == 6 + payload.len()
            &&& b[0] < 8
            &&& 256 * b[0] + b[1] == apid % 2048
            &&& b[2] >= 192
            &&& 256 * (b[2] - 192) + b[3] == seq_count % 16384
            &&& 256 * b[4] + b[5] == payload.len() - 1
            &&& b.skip(6) == payload
        }),
{
    let b = packed(apid, seq_count, payload);
    let id = (apid % 0x800) as u16;
    let seq = (0xC000 + seq_count % 0x4000) as u16;
    let pdl = length_field(payload.len());
    assert(b[0] == id / 256 && b[1] == id % 256);
    assert(b[2] == seq / 256 && b[3] == seq % 256);
    assert(b[4] == pdl / 256 && b[5] == pdl % 256);
    assert(b.skip(6) =~= payload);
}

/// A packet that has not all arrived waits: nothing comes out of its front part, and all
/// of it is held.
pub proof fn unfinished_packets_wait(apid: u16, seq_count: u16, payload: Seq<u8>, n: int)
    requires
        0 < payload.len() <= 4090,
        0 <= n < 6 + payload.len(),
    ensures
        extract(packed(apid, seq_count, payload).take(n)) == (
            Seq::<(SppHeader, Seq<u8>)>::empty(),
            packed(apid, seq_count, payload).take(n),
        ),
{
    let whole = packed(apid, seq_count, payload);
    let part = whole.take(n);
    packets_are_packed_octet_for_octet(apid, seq_count, payload);
    headers_are_read_from_their_octets(part);
}

/// Nothing is invented: every packet that comes out of a stream stands in it, as its six
/// header octets and right behind them its data, as long as the header says.
pub proof fn packets_stand_in_the_stream(buf: Seq<u8>, i: int)
    requires
        0 <= i < extract(buf).0.len(),
    ensures
        ({
            let (h, data) = extract(buf).0[i];
            exists|at: int|
                {
                    &&& 0 <= at
                    &&& at + 6 + h.data_len <= buf.len()
                    &&& header_of(#[trigger] buf.skip(at)) == Some(h)
                    &&& data == buf.subrange(at + 6, at + 6 + h.data_len)
                }
        }),
    decreases buf.len(),
{
    let (h, data) = extract(buf).0[i];
    match header_of(buf) {
        None => {
            let rest = buf.skip(1);
            packets_stand_in_the_stream(rest, i);
            let at = choose|at: int|
                {
                    &&& 0 <= at
                    &&& at + 6 + h.data_len <= rest.len()
                    &&& header_of(#[trigger] rest.skip(at)) == Some(h)
                    &&& data == rest.subrange(at + 6, at + 6 + h.data_len)
                };
            assert(rest.skip(at) =~= buf.skip(at + 1));
            assert(data =~= buf.subrange(at + 1 + 6, at + 1 + 6 + h.data_len));
        },
        Some(g) => {
            let total = 6 + g.data_len;
            let rest = buf.skip(total as int);
            if i == 0 {
                assert(buf.skip(0) =~= buf);
                assert(data =~= buf.subrange(6, 6 + h.data_len));
            } else {
                assert(extract(buf).0[i] == extract(rest).0[i - 1]);
                packets_stand_in_the_stream(rest, i - 1);
                let at = choose|at: int|
                    {
                        &&& 0 <= at
                        &&& at + 6 + h.data_len <= rest.len()
                        &&& header_of(#[trigger] rest.skip(at)) == Some(h)
                        &&& data == rest.subrange(at + 6, at + 6 + h.data_len)
                    };
                assert(rest.skip(at) =~= buf.skip(at + total));
                assert(data =~= buf.subrange(at + total + 6, at + total + 6 + h.data_len));
            }
        },
    }
}

} // verus!
