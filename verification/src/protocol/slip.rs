//! SLIP framing (RFC 1055).
//!
//! Encodes and decodes byte frames with END/ESC delimiters so that packet
//! boundaries survive a byte stream such as TCP. The decoder's meaning is a
//! fold of [`step`] over the bytes it has been fed.

use vstd::prelude::*;

verus! {

pub const END: u8 = 0xC0;

pub const ESC: u8 = 0xDB;

pub const ESC_END: u8 = 0xDC;

pub const ESC_ESC: u8 = 0xDD;

/// Maximum allowed frame size (64 KB). Frames exceeding this are dropped
/// to prevent unbounded memory growth from malformed streams.
pub const MAX_FRAME_SIZE: usize = 65536;

/// The wire form of one payload byte.
pub open spec fn escaped_byte(b: u8) -> Seq<u8> {
    if b == END {
        seq![ESC, ESC_END]
    } else if b == ESC {
        seq![ESC, ESC_ESC]
    } else {
        seq![b]
    }
}

/// The wire form of a payload, without its delimiters.
pub open spec fn escaped(data: Seq<u8>) -> Seq<u8>
    decreases data.len(),
{
    if data.len() == 0 {
        Seq::empty()
    } else {
        escaped(data.drop_last()) + escaped_byte(data.last())
    }
}

/// The wire form of a frame: the escaped payload between two END bytes.
pub open spec fn encoded(data: Seq<u8>) -> Seq<u8> {
    seq![END] + escaped(data) + seq![END]
}

/// What a decoder remembers between bytes.
pub struct DecoderView {
    pub buf: Seq<u8>,
    pub in_frame: bool,
    pub escape: bool,
}

impl DecoderView {
    /// The assembly buffer is bounded, and empty outside a frame.
    pub open spec fn wf(self) -> bool {
        &&& self.buf.len() <= MAX_FRAME_SIZE
        &&& !self.in_frame ==> self.buf.len() == 0
    }
}

/// Append a payload byte to the frame in progress. Outside a frame the byte
/// is discarded; a frame that would outgrow the limit is dropped whole.
pub open spec fn accept(s: DecoderView, b: u8) -> DecoderView {
    if !s.in_frame {
        DecoderView { escape: false, ..s }
    } else if s.buf.len() >= MAX_FRAME_SIZE {
        DecoderView { buf: Seq::empty(), in_frame: false, escape: false }
    } else {
        DecoderView { buf: s.buf.push(b), in_frame: true, escape: false }
    }
}

/// The decoder's reaction to one byte: its next state and the frames (none
/// or one) that the byte completes.
pub open spec fn step(s: DecoderView, b: u8) -> (DecoderView, Seq<Seq<u8>>) {
    if s.escape {
        let plain = if b == ESC_END {
            END
        } else if b == ESC_ESC {
            ESC
        } else {
            b
        };
        (accept(s, plain), Seq::empty())
    } else if b == END {
        (
            DecoderView { buf: Seq::empty(), in_frame: true, escape: false },
            if s.in_frame && s.buf.len() > 0 {
                seq![s.buf]
            } else {
                Seq::empty()
            },
        )
    } else if b == ESC {
        (DecoderView { escape: true, ..s }, Seq::empty())
    } else {
        (accept(s, b), Seq::empty())
    }
}

/// The decoder's reaction to a run of bytes.
pub open spec fn run(s: DecoderView, data: Seq<u8>) -> (DecoderView, Seq<Seq<u8>>)
    decreases data.len(),
{
    if data.len() == 0 {
        (s, Seq::empty())
    } else {
        let before = run(s, data.drop_last());
        let now = step(before.0, data.last());
        (now.0, before.1 + now.1)
    }
}

/// The contents of a list of byte buffers.
pub open spec fn contents(frames: Seq<Vec<u8>>) -> Seq<Seq<u8>> {
    Seq::new(frames.len(), |i: int| frames[i]@)
}

/// SLIP-encode a frame with END delimiters.
pub fn encode(data: &[u8]) -> (out: Vec<u8>)
    ensures
        out@ == encoded(data@),
{
    let mut out: Vec<u8> = Vec::new();
    out.push(END);
    for i in 0..data.len()
        invariant
            out@ == seq![END] + escaped(data@.take(i as int)),
    {
        let b: u8 = data[i];
        proof {
            assert(data@.take(i + 1).drop_last() =~= data@.take(i as int));
        }
        if b == END {
            out.push(ESC);
            out.push(ESC_END);
        } else if b == ESC {
            out.push(ESC);
            out.push(ESC_ESC);
        } else {
            out.push(b);
        }
        assert(out@ =~= seq![END] + escaped(data@.take(i + 1)));
    }
    assert(data@.take(data@.len() as int) =~= data@);
    out.push(END);
    out
}

/// Streaming SLIP decoder.
///
/// Feeds bytes into the decoder and extracts complete frames. Keeps its state
/// across calls, so a frame may arrive in any number of pieces.
pub struct Decoder {
    buf: Vec<u8>,
    in_frame: bool,
    escape: bool,
}

impl View for Decoder {
    type V = DecoderView;

    closed spec fn view(&self) -> DecoderView {
        DecoderView { buf: self.buf@, in_frame: self.in_frame, escape: self.escape }
    }
}

impl Decoder {
    /// A fresh decoder with no in-flight frame state.
    pub fn new() -> (d: Self)
        ensures
            d@ == (DecoderView { buf: Seq::empty(), in_frame: false, escape: false }),
            d@.wf(),
    {
        Decoder { buf: Vec::new(), in_frame: false, escape: false }
    }

    /// Take a payload byte into the frame in progress.
    fn accept(&mut self, b: u8)
        ensures
            final(self)@ == accept(old(self)@, b),
    {
        self.escape = false;
        if self.in_frame {
            if self.buf.len() >= MAX_FRAME_SIZE {
                self.buf.clear();
                self.in_frame = false;
            } else {
                self.buf.push(b);
            }
        }
    }

    /// Feed raw bytes from the socket. Returns the frames they complete.
    pub fn feed(&mut self, data: &[u8]) -> (frames: Vec<Vec<u8>>)
        ensures
            final(self)@ == run(old(self)@, data@).0,
            contents(frames@) == run(old(self)@, data@).1,
            old(self)@.wf() ==> final(self)@.wf(),
    {
        let mut frames: Vec<Vec<u8>> = Vec::new();
        let mut i: usize = 0;
        while i < data.len()
            invariant
                i <= data@.len(),
                self@ == run(old(self)@, data@.take(i as int)).0,
                contents(frames@) =~= run(old(self)@, data@.take(i as int)).1,
            decreases data@.len() - i,
        {
            let b: u8 = data[i];
            let ghost s = self@;
            let ghost emitted = contents(frames@);
            if self.escape {
                let plain: u8 = if b == ESC_END {
                    END
                } else if b == ESC_ESC {
                    ESC
                } else {
                    b
                };
                self.accept(plain);
            } else if b == END {
                let mut done: Vec<u8> = Vec::new();
                std::mem::swap(&mut done, &mut self.buf);
                if self.in_frame && done.len() > 0 {
                    frames.push(done);
                    assert(contents(frames@) =~= emitted.push(s.buf));
                }
                self.in_frame = true;
            } else if b == ESC {
                self.escape = true;
            } else {
                self.accept(b);
            }
            proof {
                assert(data@.take(i + 1).drop_last() =~= data@.take(i as int));
                assert(contents(frames@) =~= emitted + step(s, b).1);
                assert(self@.buf =~= step(s, b).0.buf);
            }
            i += 1;
        }
        proof {
            assert(data@.take(data@.len() as int) =~= data@);
            if old(self)@.wf() {
                run_keeps_bounds(old(self)@, data@);
            }
        }
        frames
    }
}

impl Default for Decoder {
    fn default() -> (d: Self)
        ensures
            d@ == (DecoderView { buf: Seq::empty(), in_frame: false, escape: false }),
    {
        Decoder::new()
    }
}

/// Feeding a stream in two pieces is feeding it whole: the state carries over
/// and the frames of the pieces follow one another.
pub proof fn run_in_pieces(s: DecoderView, a: Seq<u8>, b: Seq<u8>)
    ensures
        run(s, a + b).0 == run(run(s, a).0, b).0,
        run(s, a + b).1 == run(s, a).1 + run(run(s, a).0, b).1,
    decreases b.len(),
{
    if b.len() == 0 {
        assert(a + b =~= a);
        assert(run(s, a).1 + run(run(s, a).0, b).1 =~= run(s, a).1);
    } else {
        run_in_pieces(s, a, b.drop_last());
        assert((a + b).drop_last() =~= a + b.drop_last());
        assert((a + b).last() == b.last());
        let mid = run(run(s, a).0, b.drop_last());
        let now = step(mid.0, b.last());
        assert(run(s, a).1 + mid.1 + now.1 =~= run(s, a).1 + (mid.1 + now.1));
    }
}

/// On any bytes whatsoever the assembly buffer stays within the frame limit,
/// and every emitted frame is non-empty and no longer than the limit.
pub proof fn run_keeps_bounds(s: DecoderView, data: Seq<u8>)
    requires
        s.wf(),
    ensures
        run(s, data).0.wf(),
        forall|i: int|
            0 <= i < run(s, data).1.len() ==> 0 < (#[trigger] run(s, data).1[i]).len()
                <= MAX_FRAME_SIZE,
    decreases data.len(),
{
    if data.len() > 0 {
        run_keeps_bounds(s, data.drop_last());
    }
}

/// The body of a frame accumulates in the buffer, byte for byte.
proof fn run_escaped(p: Seq<u8>, data: Seq<u8>)
    requires
        p.len() + data.len() <= MAX_FRAME_SIZE,
    ensures
        run(DecoderView { buf: p, in_frame: true, escape: false }, escaped(data)) == (
            DecoderView { buf: p + data, in_frame: true, escape: false },
            Seq::<Seq<u8>>::empty(),
        ),
    decreases data.len(),
{
    let s = DecoderView { buf: p, in_frame: true, escape: false };
    if data.len() == 0 {
        assert(p + data =~= p);
    } else {
        run_escaped(p, data.drop_last());
        let head = escaped(data.drop_last());
        let tail = escaped_byte(data.last());
        run_in_pieces(s, head, tail);
        let mid = run(s, head).0;
        assert(p + data =~= mid.buf.push(data.last()));
        reveal_with_fuel(run, 3);
        if tail.len() == 1 {
            assert(tail.drop_last() =~= Seq::empty());
        } else {
            assert(tail.drop_last() =~= seq![ESC]);
            assert(tail.drop_last().drop_last() =~= Seq::empty());
        }
        assert(run(mid, tail).1 =~= Seq::empty());
        assert(run(s, escaped(data)).1 =~= Seq::empty());
    }
}

/// Decoding undoes encoding. Whatever a decoder holds (so long as it is not in
/// the middle of an escape), an encoded frame of 1 to 64 KB comes out whole,
/// after the unterminated frame that was in progress, if there was one; and
/// the decoder is left ready for the next frame.
pub proof fn decode_undoes_encode(s: DecoderView, data: Seq<u8>)
    requires
        !s.escape,
        0 < data.len() <= MAX_FRAME_SIZE,
    ensures
        run(s, encoded(data)).0 == (DecoderView {
            buf: Seq::empty(),
            in_frame: true,
            escape: false,
        }),
        run(s, encoded(data)).1 == (if s.in_frame && s.buf.len() > 0 {
            seq![s.buf, data]
        } else {
            seq![data]
        }),
{
    let open = DecoderView { buf: Seq::empty(), in_frame: true, escape: false };
    let first = seq![END];
    let last = seq![END];
    reveal_with_fuel(run, 2);
    assert(first.drop_last() =~= Seq::empty());
    assert(run(s, first).0 == open);
    run_in_pieces(s, first, escaped(data));
    run_escaped(Seq::empty(), data);
    assert(Seq::<u8>::empty() + data =~= data);
    run_in_pieces(s, first + escaped(data), last);
    assert(run(s, encoded(data)).1 =~= run(s, first).1 + seq![data]);
}

/// An encoded frame is delimited: it begins and ends with END, and no END stands between.
/// Every payload byte takes one octet, or two if it is one of the two special ones.
pub proof fn encoded_frames_are_delimited(data: Seq<u8>)
    ensures
        ({
            let e = encoded(data);
            &&& data.len() + 2 <= e.len() <= 2 * data.len() + 2
            &&& e[0] == 0xC0
            &&& e[e.len() - 1] == 0xC0
            &&& forall|i: int| 0 < i < e.len() - 1 ==> #[trigger] e[i] != 0xC0
        }),
{
    escaped_has_no_end(data);
    let (e, body) = (encoded(data), escaped(data));
    assert forall|i: int| 0 < i < e.len() - 1 implies #[trigger] e[i] != 0xC0 by {
        assert(e[i] == body[i - 1]);
    }
}

proof fn escaped_has_no_end(data: Seq<u8>)
    ensures
        data.len() <= escaped(data).len() <= 2 * data.len(),
        forall|i: int| 0 <= i < escaped(data).len() ==> #[trigger] escaped(data)[i] != 0xC0,
    decreases data.len(),
{
    if data.len() > 0 {
        let front = escaped(data.drop_last());
        escaped_has_no_end(data.drop_last());
        let all = escaped(data);
        assert forall|i: int| 0 <= i < all.len() implies #[trigger] all[i] != 0xC0 by {
            if i < front.len() {
                assert(all[i] == front[i]);
            }
        }
    }
}

proof fn skipping_stays_outside(data: Seq<u8>)
    ensures
        ({
            let outside = DecoderView { buf: Seq::empty(), in_frame: false, escape: false };
            run(outside, escaped(data)) == (outside, Seq::<Seq<u8>>::empty())
        }),
    decreases data.len(),
{
    let outside = DecoderView { buf: Seq::empty(), in_frame: false, escape: false };
    if data.len() > 0 {
        skipping_stays_outside(data.drop_last());
        let head = escaped(data.drop_last());
        let tail = escaped_byte(data.last());
        run_in_pieces(outside, head, tail);
        reveal_with_fuel(run, 3);
        if tail.len() == 1 {
            assert(tail.drop_last() =~= Seq::empty());
        } else {
            assert(tail.drop_last() =~= seq![ESC]);
            assert(tail.drop_last().drop_last() =~= Seq::empty());
        }
        assert(run(outside, tail).1 =~= Seq::empty());
        assert(run(outside, escaped(data)).1 =~= Seq::empty());
    }
}

proof fn escaped_in_pieces(a: Seq<u8>, b: Seq<u8>)
    ensures
        escaped(a + b) == escaped(a) + escaped(b),
    decreases b.len(),
{
    if b.len() == 0 {
        assert(a + b =~= a);
        assert(escaped(a) + escaped(b) =~= escaped(a));
    } else {
        assert((a + b).drop_last() =~= a + b.drop_last());
        escaped_in_pieces(a, b.drop_last());
        assert(escaped(a + b) =~= escaped(a) + escaped(b));
    }
}

/// A frame of more than 65536 bytes is dropped whole: nothing of it comes out, and the
/// next frame is not harmed.
pub proof fn oversized_frames_are_dropped(data: Seq<u8>)
    requires
        data.len() > 65536,
    ensures
        ({
            let fresh = DecoderView { buf: Seq::empty(), in_frame: false, escape: false };
            &&& run(fresh, encoded(data)).1.len() == 0
            &&& run(fresh, encoded(data)).0 == (DecoderView {
                buf: Seq::empty(),
                in_frame: true,
                escape: false,
            })
        }),
{
    let fresh = DecoderView { buf: Seq::empty(), in_frame: false, escape: false };
    let open = DecoderView { buf: Seq::empty(), in_frame: true, escape: false };
    let n: int = 65536;
    let (a, one, b) = (data.take(n), seq![data[n]], data.skip(n + 1));
    assert(data =~= a + one + b);
    escaped_in_pieces(a, one);
    escaped_in_pieces(a + one, b);
    let (ea, eo, eb) = (escaped(a), escaped_byte(data[n]), escaped(b));
    assert(one.drop_last() =~= Seq::empty());
    reveal_with_fuel(escaped, 2);
    assert(escaped(one) =~= eo);
    let first = seq![END];
    assert(encoded(data) =~= first + ea + eo + eb + first);
    reveal_with_fuel(run, 3);
    assert(first.drop_last() =~= Seq::empty());
    assert(run(fresh, first).0 == open);
    assert(run(fresh, first).1 =~= Seq::empty());
    run_in_pieces(fresh, first, ea);
    run_escaped(Seq::empty(), a);
    assert(Seq::<u8>::empty() + a =~= a);
    let full = DecoderView { buf: a, in_frame: true, escape: false };
    assert(run(fresh, first + ea).0 == full);
    assert(run(fresh, first + ea).1 =~= Seq::empty());
    run_in_pieces(fresh, first + ea, eo);
    if eo.len() == 1 {
        assert(eo.drop_last() =~= Seq::empty());
    } else {
        assert(eo.drop_last() =~= seq![ESC]);
        assert(eo.drop_last().drop_last() =~= Seq::empty());
    }
    assert(run(full, eo).0 == fresh);
    assert(run(full, eo).1 =~= Seq::empty());
    assert(run(fresh, first + ea + eo).1 =~= Seq::empty());
    run_in_pieces(fresh, first + ea + eo, eb);
    skipping_stays_outside(b);
    assert(run(fresh, first + ea + eo + eb).1 =~= Seq::empty());
    run_in_pieces(fresh, first + ea + eo + eb, first);
    assert(run(fresh, encoded(data)).1 =~= Seq::empty());
}

} // verus!
