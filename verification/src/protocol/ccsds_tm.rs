//! CCSDS TM Space Data Link Protocol framing (CCSDS 132.0-B).
//!
//! Fixed-length transfer frames over a reliable byte stream: 6-octet primary
//! header, packet data field, 2-octet frame error control field (CRC16-CCITT:
//! poly 0x1021, init 0xFFFF, no reflection, no final xor) computed over
//! everything before it. The data field carries space packets with
//! idle-packet fill, so consecutive verified data fields concatenate into a
//! packet-aligned stream for the SPP extractor downstream.
//!
//! No sync marker: framing rides the stream's own reliability, so deframing
//! is strict fixed-size chunking, and a CRC failure costs exactly that frame,
//! never alignment.

use vstd::prelude::*;

use crate::wire::{copy_range, get_u16_be, put_bytes, put_u16_be};

verus! {

/// Primary header length in octets.
pub const HEADER_SIZE: usize = 6;

/// Frame error control field length in octets.
pub const TRAILER_SIZE: usize = 2;

/// Smallest sane fixed frame: header + one minimal (7-octet idle) packet +
/// trailer.
pub const MIN_FRAME: usize = HEADER_SIZE + 7 + TRAILER_SIZE;

/// One shift of the CRC register.
pub open spec fn crc16_shift(crc: u16) -> u16 {
    if crc & 0x8000 != 0 {
        (crc << 1) ^ 0x1021
    } else {
        crc << 1
    }
}

/// `n` shifts of the CRC register.
pub open spec fn crc16_shifts(crc: u16, n: nat) -> u16
    decreases n,
{
    if n == 0 {
        crc
    } else {
        crc16_shift(crc16_shifts(crc, (n - 1) as nat))
    }
}

/// CRC16-CCITT of a byte string.
pub open spec fn crc16_of(data: Seq<u8>) -> u16
    decreases data.len(),
{
    if data.len() == 0 {
        0xFFFF
    } else {
        crc16_shifts(crc16_of(data.drop_last()) ^ ((data.last() as u16) << 8), 8)
    }
}

/// Whether a frame's trailer matches what it covers.
pub open spec fn frame_checks(frame: Seq<u8>) -> bool {
    crc16_of(frame.take(frame.len() - TRAILER_SIZE)) == crate::wire::u16_be_at(
        frame,
        frame.len() - TRAILER_SIZE,
    )
}

/// The packet data field of a frame.
pub open spec fn data_field(frame: Seq<u8>) -> Seq<u8> {
    frame.subrange(HEADER_SIZE as int, frame.len() - TRAILER_SIZE)
}

/// The verified data fields of a stream of `size`-octet frames, the number of
/// frames that failed their check, and the residue short of one frame.
pub open spec fn deframe(size: nat, buf: Seq<u8>) -> (Seq<Seq<u8>>, nat, Seq<u8>)
    decreases buf.len(),
{
    if size < MIN_FRAME || buf.len() < size {
        (Seq::empty(), 0, buf)
    } else {
        let frame = buf.take(size as int);
        let rest = deframe(size, buf.skip(size as int));
        if frame_checks(frame) {
            (seq![data_field(frame)] + rest.0, rest.1, rest.2)
        } else {
            (rest.0, rest.1 + 1, rest.2)
        }
    }
}

/// The fill behind `len` octets of content in a field of `field_len` octets:
/// nothing, or one idle packet.
pub open spec fn idle_fill(fill: nat) -> Seq<u8> {
    if fill == 0 {
        Seq::empty()
    } else {
        seq![0x07u8, 0xFFu8] + crate::wire::u16_be_bytes(0xC000) + crate::wire::u16_be_bytes(
            ((fill - 7) % 65536) as u16,
        ) + Seq::new((fill - 6) as nat, |i: int| 0u8)
    }
}

/// A transfer frame without its trailer.
pub open spec fn frame_body(frame_size: nat, scid: u16, frame_count: u8, content: Seq<u8>) -> Seq<
    u8,
> {
    crate::wire::u16_be_bytes((scid % 0x400 * 16) as u16) + seq![frame_count, frame_count]
        + crate::wire::u16_be_bytes(0x1800) + content + idle_fill(
        (frame_size - HEADER_SIZE - TRAILER_SIZE - content.len()) as nat,
    )
}

/// A transfer frame on the wire.
pub open spec fn framed(frame_size: nat, scid: u16, frame_count: u8, content: Seq<u8>) -> Seq<u8> {
    let body = frame_body(frame_size, scid, frame_count, content);
    body + crate::wire::u16_be_bytes(crc16_of(body))
}

/// Whether `content` fits a frame of `frame_size` octets: it leaves at least 7
/// octets for the idle packet or exactly fills the field.
pub open spec fn fits(frame_size: nat, content: Seq<u8>) -> bool {
    ||| content.len() + HEADER_SIZE + TRAILER_SIZE == frame_size
    ||| content.len() + 7 + HEADER_SIZE + TRAILER_SIZE <= frame_size
}

/// CRC16-CCITT as the frame error control field specifies.
pub fn crc16(data: &[u8]) -> (r: u16)
    ensures
        r == crc16_of(data@),
{
    let mut crc: u16 = 0xFFFF;
    for i in 0..data.len()
        invariant
            crc == crc16_of(data@.take(i as int)),
    {
        let ghost before = crc;
        crc = crc ^ ((data[i] as u16) << 8);
        let ghost start = crc;
        for k in 0..8u32
            invariant
                crc == crc16_shifts(start, k as nat),
        {
            crc = if crc & 0x8000 != 0 {
                (crc << 1) ^ 0x1021
            } else {
                crc << 1
            };
        }
        assert(data@.take(i + 1).drop_last() =~= data@.take(i as int));
    }
    assert(data@.take(data@.len() as int) =~= data@);
    crc
}

/// Streaming deframer for one fixed frame length.
pub struct Deframer {
    frame_size: usize,
    buf: Vec<u8>,
}

impl View for Deframer {
    type V = Seq<u8>;

    /// The bytes held back for the next frame.
    closed spec fn view(&self) -> Seq<u8> {
        self.buf@
    }
}

impl Deframer {
    /// The fixed frame length.
    pub closed spec fn size(self) -> nat {
        self.frame_size as nat
    }

    /// A frame has room for its header, one packet and its trailer.
    pub open spec fn wf(self) -> bool {
        self.size() >= MIN_FRAME
    }

    pub fn new(frame_size: usize) -> (d: Self)
        ensures
            d.wf(),
            d@ == Seq::<u8>::empty(),
            d.size() == (if frame_size < MIN_FRAME {
                MIN_FRAME as nat
            } else {
                frame_size as nat
            }),
    {
        let frame_size: usize = if frame_size < MIN_FRAME {
            MIN_FRAME
        } else {
            frame_size
        };
        Deframer { frame_size, buf: Vec::new() }
    }

    /// Feed stream bytes; returns each completed frame's verified packet data
    /// field plus a count of CRC-failed frames (dropped whole: their packets
    /// never reach the stream).
    pub fn feed(&mut self, data: &[u8]) -> (r: (Vec<Vec<u8>>, usize))
        requires
            old(self).wf(),
        ensures
            final(self).wf(),
            final(self).size() == old(self).size(),
            crate::protocol::slip::contents(r.0@) == deframe(old(self).size(), old(self)@ + data@).0,
            r.1 == deframe(old(self).size(), old(self)@ + data@).1,
            final(self)@ == deframe(old(self).size(), old(self)@ + data@).2,
            final(self)@.len() < final(self).size(),
    {
        put_bytes(&mut self.buf, data);
        let ghost all = self.buf@;
        let ghost size = self.size();
        let mut fields: Vec<Vec<u8>> = Vec::new();
        let mut bad: usize = 0;
        let mut pos: usize = 0;
        assert(all.skip(0) =~= all);
        assert(crate::protocol::slip::contents(fields@) + deframe(size, all).0 =~= deframe(
            size,
            all,
        ).0);
        while self.buf.len() - pos >= self.frame_size
            invariant
                bad <= pos <= self.buf@.len(),
                self.buf@ == all,
                self.size() == size,
                size >= MIN_FRAME,
                size == old(self).size(),
                crate::protocol::slip::contents(fields@) + deframe(size, all.skip(pos as int)).0
                    == deframe(size, all).0,
                bad + deframe(size, all.skip(pos as int)).1 == deframe(size, all).1,
                deframe(size, all.skip(pos as int)).2 == deframe(size, all).2,
            decreases self.buf@.len() - pos,
        {
            let end: usize = pos + self.frame_size;
            let frame = vstd::slice::slice_subrange(self.buf.as_slice(), pos, end);
            let covered: usize = self.frame_size - TRAILER_SIZE;
            assert(frame@ =~= all.skip(pos as int).take(size as int));
            let stated: u16 = get_u16_be(frame, covered);
            let head = vstd::slice::slice_subrange(frame, 0, covered);
            assert(head@ =~= frame@.take(covered as int));
            let ghost before = crate::protocol::slip::contents(fields@);
            let ghost tail = deframe(size, all.skip(end as int));
            assert(all.skip(pos as int).skip(size as int) =~= all.skip(end as int));
            if crc16(head) == stated {
                let field = copy_range(frame, HEADER_SIZE, covered);
                fields.push(field);
                assert(crate::protocol::slip::contents(fields@) =~= before + seq![field@]);
                assert(crate::protocol::slip::contents(fields@) + tail.0 =~= before + (
                seq![field@] + tail.0));
            } else {
                bad += 1;
            }
            pos = end;
        }
        assert(crate::protocol::slip::contents(fields@) + deframe(size, all.skip(pos as int)).0
            =~= crate::protocol::slip::contents(fields@));
        let rest = self.buf.split_off(pos);
        assert(rest@ =~= all.skip(pos as int));
        self.buf = rest;
        (fields, bad)
    }
}

/// Pack one frame: header with the given spacecraft id and frame count, the
/// content at offset zero, standard-conformant idle-packet fill, CRC trailer.
/// Content must leave at least 7 octets for the idle packet or exactly fill
/// the field.
pub fn pack_frame(frame_size: usize, scid: u16, frame_count: u8, content: &[u8]) -> (frame: Vec<u8>)
    requires
        fits(frame_size as nat, content@),
    ensures
        frame@ == framed(frame_size as nat, scid, frame_count, content@),
{
    let field_len: usize = frame_size - HEADER_SIZE - TRAILER_SIZE;
    let mut frame: Vec<u8> = Vec::new();
    put_u16_be(&mut frame, scid % 0x400 * 16);
    frame.push(frame_count);
    frame.push(frame_count);
    // Data field status: segment length id 0b11, first header pointer 0
    // (content starts at offset zero).
    put_u16_be(&mut frame, 0x1800);
    put_bytes(&mut frame, content);
    let fill: usize = field_len - content.len();
    if fill > 0 {
        // Idle packet: APID 0x7FF, unsegmented, length covering the
        // remaining fill.
        frame.push(0x07);
        frame.push(0xFF);
        put_u16_be(&mut frame, 0xC000);
        put_u16_be(&mut frame, ((fill - 7) % 65536) as u16);
        let ghost head = frame@;
        for i in 0..fill - 6
            invariant
                frame@ == head + Seq::new(i as nat, |j: int| 0u8),
        {
            frame.push(0);
            assert(frame@ =~= head + Seq::new((i + 1) as nat, |j: int| 0u8));
        }
    }
    assert(frame@ =~= frame_body(frame_size as nat, scid, frame_count, content@));
    let crc: u16 = crc16(frame.as_slice());
    put_u16_be(&mut frame, crc);
    frame
}

/// Splitting a stream of frames between feeds changes nothing.
pub proof fn deframe_in_pieces(size: nat, a: Seq<u8>, b: Seq<u8>)
    ensures
        deframe(size, a + b).0 == deframe(size, a).0 + deframe(size, deframe(size, a).2 + b).0,
        deframe(size, a + b).1 == deframe(size, a).1 + deframe(size, deframe(size, a).2 + b).1,
        deframe(size, a + b).2 == deframe(size, deframe(size, a).2 + b).2,
    decreases a.len(),
{
    if size < MIN_FRAME || a.len() < size {
        assert(deframe(size, a).0 + deframe(size, deframe(size, a).2 + b).0 =~= deframe(
            size,
            a + b,
        ).0);
    } else {
        deframe_in_pieces(size, a.skip(size as int), b);
        assert((a + b).skip(size as int) =~= a.skip(size as int) + b);
        assert((a + b).take(size as int) =~= a.take(size as int));
        assert(deframe(size, a + b).0 =~= deframe(size, a).0 + deframe(
            size,
            deframe(size, a).2 + b,
        ).0);
    }
}

/// Every frame costs or yields exactly itself: a frame that fails its check is
/// counted and dropped whole, one that passes yields its data field, and
/// either way deframing continues aligned right behind it.
pub proof fn bad_frame_costs_only_itself(frame: Seq<u8>, rest: Seq<u8>)
    requires
        frame.len() >= MIN_FRAME,
    ensures
        deframe(frame.len(), frame + rest) == ({
            let tail = deframe(frame.len(), rest);
            if frame_checks(frame) {
                (seq![data_field(frame)] + tail.0, tail.1, tail.2)
            } else {
                (tail.0, tail.1 + 1, tail.2)
            }
        }),
{
    assert((frame + rest).take(frame.len() as int) =~= frame);
    assert((frame + rest).skip(frame.len() as int) =~= rest);
}

/// A packed frame passes its check; its data field is the content followed by
/// the fill.
pub proof fn deframe_undoes_pack(frame_size: nat, scid: u16, frame_count: u8, content: Seq<u8>)
    requires
        fits(frame_size, content),
    ensures
        framed(frame_size, scid, frame_count, content).len() == frame_size,
        frame_checks(framed(frame_size, scid, frame_count, content)),
        data_field(framed(frame_size, scid, frame_count, content)) == content + idle_fill(
            (frame_size - HEADER_SIZE - TRAILER_SIZE - content.len()) as nat,
        ),
{
    let body = frame_body(frame_size, scid, frame_count, content);
    let frame = framed(frame_size, scid, frame_count, content);
    let crc = crc16_of(body);
    assert(frame.take(frame.len() - TRAILER_SIZE) =~= body);
    assert(frame[frame.len() - 2] == crc / 256);
    assert(frame[frame.len() - 1] == crc % 256);
    assert(data_field(frame) =~= content + idle_fill(
        (frame_size - HEADER_SIZE - TRAILER_SIZE - content.len()) as nat,
    ));
}

/// The fill is itself a space packet with the idle APID, so verified data
/// fields concatenate into a packet-aligned stream.
pub proof fn fill_is_an_idle_packet(fill: nat)
    requires
        fill >= 7,
    ensures
        idle_fill(fill) == crate::protocol::ccsds_spp::packed(
            0x7FF,
            0,
            Seq::new((fill - 6) as nat, |i: int| 0u8),
        ),
{
    assert(idle_fill(fill) =~= crate::protocol::ccsds_spp::packed(
        0x7FF,
        0,
        Seq::new((fill - 6) as nat, |i: int| 0u8),
    ));
}

proof fn crc16_shift_is_injective(a: u16, b: u16)
    requires
        crc16_shift(a) == crc16_shift(b),
    ensures
        a == b,
{
    assert((if a & 0x8000 != 0 {
        (a << 1) ^ 0x1021
    } else {
        a << 1
    }) == (if b & 0x8000 != 0 {
        (b << 1) ^ 0x1021
    } else {
        b << 1
    }) ==> a == b) by (bit_vector);
}

proof fn crc16_shifts_are_injective(a: u16, b: u16, n: nat)
    requires
        crc16_shifts(a, n) == crc16_shifts(b, n),
    ensures
        a == b,
    decreases n,
{
    if n > 0 {
        let m = (n - 1) as nat;
        crc16_shift_is_injective(crc16_shifts(a, m), crc16_shifts(b, m));
        crc16_shifts_are_injective(a, b, m);
    }
}

/// The check notices a damaged byte: two byte strings of one length that differ in exactly
/// one byte never have the same check.
pub proof fn crc16_notices_a_damaged_byte(x: Seq<u8>, y: Seq<u8>, i: int)
    requires
        x.len() == y.len(),
        0 <= i < x.len(),
        x[i] != y[i],
        forall|j: int| 0 <= j < x.len() && j != i ==> x[j] == y[j],
    ensures
        crc16_of(x) != crc16_of(y),
    decreases x.len(),
{
    let (a, b) = (crc16_of(x.drop_last()), crc16_of(y.drop_last()));
    let (u, v) = (x.last(), y.last());
    if crc16_of(x) == crc16_of(y) {
        crc16_shifts_are_injective(a ^ ((u as u16) << 8), b ^ ((v as u16) << 8), 8);
        if i == x.len() - 1 {
            assert(x.drop_last() =~= y.drop_last());
            assert(a ^ ((u as u16) << 8) == a ^ ((v as u16) << 8) ==> u == v) by (bit_vector);
        } else {
            crc16_notices_a_damaged_byte(x.drop_last(), y.drop_last(), i);
            assert(u == v);
            assert(a ^ ((u as u16) << 8) == b ^ ((u as u16) << 8) ==> a == b) by (bit_vector);
        }
    }
}

/// A frame passes its check if and only if its last two octets, the more significant
/// first, are the check of all the octets before them.
pub proof fn frames_check_by_their_trailer(frame: Seq<u8>)
    requires
        frame.len() >= 2,
    ensures
        frame_checks(frame) <==> crc16_of(frame.subrange(0, frame.len() - 2)) == 256
            * frame[frame.len() - 2] + frame[frame.len() - 1],
{
    assert(frame.take(frame.len() - 2) =~= frame.subrange(0, frame.len() - 2));
}

/// A frame damaged in one octet does not pass, and costs exactly itself.
pub proof fn damaged_frames_are_dropped(frame: Seq<u8>, i: int, b: u8, rest: Seq<u8>)
    requires
        frame.len() >= 15,
        frame_checks(frame),
        0 <= i < frame.len(),
        frame[i] != b,
    ensures
        ({
            let tail = deframe(frame.len(), rest);
            deframe(frame.len(), frame.update(i, b) + rest) == (tail.0, tail.1 + 1, tail.2)
        }),
{
    let bad = frame.update(i, b);
    frames_check_by_their_trailer(frame);
    frames_check_by_their_trailer(bad);
    let n = frame.len() - 2;
    let (x, y) = (frame.subrange(0, n), bad.subrange(0, n));
    if i < n {
        crc16_notices_a_damaged_byte(x, y, i);
    } else {
        assert(x =~= y);
    }
    assert(!frame_checks(bad));
    bad_frame_costs_only_itself(bad, rest);
}

/// A frame is laid out octet for octet: the spacecraft id in ten bits behind the version,
/// both frame counts, the data field status, the content from octet six on, and in the
/// last two octets the check of all the others.
pub proof fn frames_are_laid_out(frame_size: nat, scid: u16, frame_count: u8, content: Seq<u8>)
    requires
        fits(frame_size, content),
    ensures
        ({
            let f = framed(frame_size, scid, frame_count, content);
            &&& f.len() == frame_size
            &&& 256 * f[0] + f[1] == scid % 1024 * 16
            &&& f[2] == frame_count && f[3] == frame_count
            &&& f[4] == 0x18 && f[5] == 0
            &&& f.subrange(6, 6 + content.len() as int) == content
            &&& crc16_of(f.subrange(0, frame_size - 2)) == 256 * f[frame_size - 2] + f[frame_size
                - 1]
        }),
{
    deframe_undoes_pack(frame_size, scid, frame_count, content);
    let f = framed(frame_size, scid, frame_count, content);
    frames_check_by_their_trailer(f);
    assert(f.subrange(6, 6 + content.len() as int) =~= content);
}

/// Content fits a frame if and only if what is left of the field is nothing, or room for
/// a whole idle packet of at least seven octets; and then the field carries the content,
/// followed by one packet with the idle APID that fills it up.
pub proof fn fields_carry_content_and_fill(frame_size: nat, scid: u16, count: u8, content: Seq<u8>)
    ensures
        fits(frame_size, content) <==> frame_size == 8 + content.len() || frame_size >= 15
            + content.len(),
        fits(frame_size, content) ==> {
            let field = data_field(framed(frame_size, scid, count, content));
            &&& field.len() == frame_size - 8
            &&& field.take(content.len() as int) == content
            &&& field.skip(content.len() as int) == idle_fill(
                (frame_size - 8 - content.len()) as nat,
            )
        },
{
    if fits(frame_size, content) {
        deframe_undoes_pack(frame_size, scid, count, content);
        let fill = idle_fill((frame_size - 8 - content.len()) as nat);
        assert((content + fill).take(content.len() as int) =~= content);
        assert((content + fill).skip(content.len() as int) =~= fill);
    }
}

} // verus!
