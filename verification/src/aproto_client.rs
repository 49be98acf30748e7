//! The APROTO client's protocol rules.
//!
//! What the client sends and how it reads what comes back, as functions and
//! step-by-step machines over plain values: which inbound packet is an
//! acknowledgement and which is telemetry, which acknowledgement answers a
//! command, and which commands make up a file transfer, a parameter update and
//! a library swap. The sockets and tasks that carry the bytes are elsewhere.

use vstd::prelude::*;

use crate::crc::{crc_of, crc_reflected};
use crate::metrics::CommandOutcome;
use crate::protocol::aproto;
use crate::protocol::aproto::{
    ack_of, build_command, command_bytes, command_header, packet_of, parse_ack, parse_packet,
    AckResponse, AckView, FLAG_RESPONSE, SYS_ACK, SYS_NAK,
};
use crate::protocol::slip;
use crate::protocol::slip::DecoderView;
use crate::text::{dec, hex_lower, push_dec, push_hex};
use crate::transport::{ClientError, PushTelemetryPacket};
use crate::wire::{put_bytes, put_u16_le, put_u32_le};

verus! {

// ------------------------------------------------------------------ checksum

/// The Castagnoli polynomial, reflected.
pub const CRC32C_POLY: u32 = 0x82F6_3B78;

/// CRC-32C (Castagnoli).
pub open spec fn crc32c_of(data: Seq<u8>) -> u32 {
    crc_of(CRC32C_POLY, data)
}

/// CRC-32C (Castagnoli) used for file transfer integrity.
pub fn crc32c(data: &[u8]) -> (r: u32)
    ensures
        r == crc32c_of(data@),
{
    crc_reflected(CRC32C_POLY, data)
}

// ------------------------------------------------------------------- inbound

/// Something a target sent us.
#[derive(Debug)]
pub enum Inbound {
    /// An ACK or NAK for a command.
    Ack(AckResponse),
    /// Push telemetry.
    Telemetry(PushTelemetryPacket),
}

/// What a target sent us.
pub enum InboundView {
    Ack(AckView),
    Telemetry(u32, Seq<u8>),
}

impl View for Inbound {
    type V = InboundView;

    open spec fn view(&self) -> InboundView {
        match self {
            Inbound::Ack(a) => InboundView::Ack(a@),
            Inbound::Telemetry(p) => InboundView::Telemetry(p.full_uid, p.payload@),
        }
    }
}

/// What a decoded frame is: only responses count; ACK and NAK opcodes carry an
/// acknowledgement, every other response is telemetry for its component.
pub open spec fn inbound_of(frame: Seq<u8>) -> Option<InboundView> {
    match packet_of(frame) {
        Some((h, payload)) if h.flags & FLAG_RESPONSE != 0 => if h.opcode == SYS_ACK || h.opcode
            == SYS_NAK {
            match ack_of(payload) {
                Some(a) => Some(InboundView::Ack(a)),
                None => None,
            }
        } else {
            Some(InboundView::Telemetry(h.full_uid, payload))
        },
        _ => None,
    }
}

/// What a run of decoded frames is, in order.
pub open spec fn inbound_among(frames: Seq<Seq<u8>>) -> Seq<InboundView>
    decreases frames.len(),
{
    if frames.len() == 0 {
        Seq::empty()
    } else {
        match inbound_of(frames.last()) {
            Some(i) => inbound_among(frames.drop_last()).push(i),
            None => inbound_among(frames.drop_last()),
        }
    }
}

/// The contents of a list of inbound items.
pub open spec fn inbound_views(list: Seq<Inbound>) -> Seq<InboundView> {
    Seq::new(list.len(), |i: int| list[i]@)
}

/// Classify one decoded frame.
pub fn route_frame(frame: &[u8]) -> (r: Option<Inbound>)
    ensures
        match r {
            Some(i) => inbound_of(frame@) == Some(i@),
            None => inbound_of(frame@) is None,
        },
{
    let pkt = match parse_packet(frame) {
        Some(p) => p,
        None => return None,
    };
    if !pkt.header.is_response() {
        return None;
    }
    let opc: u16 = pkt.header.opcode;
    if opc == SYS_ACK || opc == SYS_NAK {
        match parse_ack(pkt.payload.as_slice()) {
            Some(ack) => Some(Inbound::Ack(ack)),
            None => None,
        }
    } else {
        Some(
            Inbound::Telemetry(
                PushTelemetryPacket { full_uid: pkt.header.full_uid, payload: pkt.payload },
            ),
        )
    }
}

/// The reading side of a connection: SLIP frames in, acknowledgements and
/// telemetry out.
pub struct LinkReader {
    decoder: slip::Decoder,
}

impl View for LinkReader {
    type V = DecoderView;

    closed spec fn view(&self) -> DecoderView {
        self.decoder@
    }
}

impl LinkReader {
    /// A reader for a fresh connection.
    pub fn new() -> (r: Self)
        ensures
            r@ == (DecoderView { buf: Seq::empty(), in_frame: false, escape: false }),
    {
        LinkReader { decoder: slip::Decoder::new() }
    }

    /// Take the next bytes from the socket.
    pub fn feed(&mut self, data: &[u8]) -> (out: Vec<Inbound>)
        ensures
            final(self)@ == slip::run(old(self)@, data@).0,
            inbound_views(out@) == inbound_among(slip::run(old(self)@, data@).1),
    {
        let frames = self.decoder.feed(data);
        let ghost all = slip::contents(frames@);
        let mut out: Vec<Inbound> = Vec::new();
        assert(inbound_views(out@) =~= Seq::empty());
        for i in 0..frames.len()
            invariant
                all == slip::contents(frames@),
                inbound_views(out@) == inbound_among(all.take(i as int)),
        {
            assert(all.take(i + 1).drop_last() =~= all.take(i as int));
            match route_frame(frames[i].as_slice()) {
                Some(item) => {
                    let ghost before = inbound_views(out@);
                    out.push(item);
                    assert(inbound_views(out@) =~= before.push(item@));
                },
                None => {},
            }
        }
        assert(all.take(all.len() as int) =~= all);
        out
    }
}

// ------------------------------------------------------------------ outbound

/// A command ready for the wire.
#[derive(Debug)]
pub struct OutboundCommand {
    /// Sequence number stamped into the packet header; only an ACK that
    /// carries it answers the command.
    pub seq: u16,
    /// The SLIP-encoded packet.
    pub encoded: Vec<u8>,
}

/// Numbers and frames the commands of one connection.
pub struct CommandSequencer {
    next: u16,
}

impl View for CommandSequencer {
    type V = u16;

    /// The sequence number of the next command.
    closed spec fn view(&self) -> u16 {
        self.next
    }
}

impl CommandSequencer {
    /// Numbering starts at zero on every connection.
    pub fn new() -> (s: Self)
        ensures
            s@ == 0,
    {
        CommandSequencer { next: 0 }
    }

    /// Take the next sequence number; numbers wrap at 16 bits.
    pub fn next_seq(&mut self) -> (seq: u16)
        ensures
            seq == old(self)@,
            final(self)@ == (if old(self)@ == u16::MAX {
                0
            } else {
                old(self)@ + 1
            }),
    {
        let s: u16 = self.next;
        self.next = self.next.wrapping_add(1);
        s
    }

    /// Number and frame a command.
    pub fn frame_command(&mut self, full_uid: u32, opcode: u16, payload: &[u8]) -> (cmd:
        OutboundCommand)
        ensures
            cmd.seq == old(self)@,
            cmd.encoded@ == slip::encoded(command_bytes(full_uid, opcode, cmd.seq, payload@)),
            final(self)@ == (if old(self)@ == u16::MAX {
                0
            } else {
                old(self)@ + 1
            }),
    {
        let seq: u16 = self.next_seq();
        let packet = build_command(full_uid, opcode, seq, payload);
        OutboundCommand { seq, encoded: slip::encode(packet.as_slice()) }
    }
}

/// A framed command arrives intact: a target whose decoder is between frames
/// decodes exactly one frame from it, and the packet in it has the command's
/// address, opcode, sequence number and payload.
pub proof fn command_arrives_intact(
    full_uid: u32,
    opcode: u16,
    seq: u16,
    payload: Seq<u8>,
)
    requires
        payload.len() <= slip::MAX_FRAME_SIZE - aproto::HEADER_SIZE,
    ensures
        ({
            let fresh = DecoderView { buf: Seq::empty(), in_frame: false, escape: false };
            let frames = slip::run(
                fresh,
                slip::encoded(command_bytes(full_uid, opcode, seq, payload)),
            ).1;
            &&& frames.len() == 1
            &&& packet_of(frames[0]) == Some(
                (command_header(full_uid, opcode, seq, payload.len()), payload),
            )
        }),
{
    let fresh = DecoderView { buf: Seq::empty(), in_frame: false, escape: false };
    let packet = command_bytes(full_uid, opcode, seq, payload);
    slip::decode_undoes_encode(fresh, packet);
    aproto::parse_undoes_build(full_uid, opcode, seq, payload, Seq::empty());
    assert(packet + Seq::<u8>::empty() =~= packet);
}

// ----------------------------------------------------------- acknowledgement

/// The wait for a command's acknowledgement.
#[derive(Debug, Clone, Copy, PartialEq, Eq, Structural)]
pub struct AckWait {
    /// Sequence number of the command in flight.
    pub seq: u16,
    /// Whether the interim QUEUED receipt has arrived.
    pub saw_queued: bool,
}

/// What can happen during the wait.
#[derive(Debug)]
pub enum AckEvent {
    /// The reader delivered an acknowledgement.
    Ack(AckResponse),
    /// The reader reported a failure.
    ReaderFailed(ClientError),
    /// The reader is gone.
    ReaderGone,
    /// The command's deadline passed.
    DeadlinePassed,
}

/// The wait's reaction to an acknowledgement: the next wait, and whether the
/// acknowledgement ends it. One that answers another command is stale and
/// changes nothing; a QUEUED receipt is only noted.
pub open spec fn wait_step(w: AckWait, ack: AckView) -> (AckWait, bool) {
    if ack.cmd_sequence != w.seq {
        (w, false)
    } else if ack.stage == aproto::STAGE_QUEUED {
        (AckWait { saw_queued: true, ..w }, false)
    } else {
        (w, true)
    }
}

/// The acknowledgement that a wait delivers from a run of acknowledgements.
pub open spec fn wait_result(w: AckWait, acks: Seq<AckView>) -> Option<AckView>
    decreases acks.len(),
{
    if acks.len() == 0 {
        None
    } else {
        let (next, done) = wait_step(w, acks[0]);
        if done {
            Some(AckView { queued: w.saw_queued, ..acks[0] })
        } else {
            wait_result(next, acks.skip(1))
        }
    }
}

impl AckWait {
    /// Wait for the answer to a command.
    pub fn new(seq: u16) -> (w: Self)
        ensures
            w == (AckWait { seq, saw_queued: false }),
    {
        AckWait { seq, saw_queued: false }
    }

    /// Take an event. None means: keep waiting, on the same deadline.
    pub fn on_event(&mut self, event: AckEvent) -> (r: Option<Result<AckResponse, ClientError>>)
        ensures
            match event {
                AckEvent::Ack(ack) => {
                    &&& *final(self) == wait_step(*old(self), ack@).0
                    &&& wait_step(*old(self), ack@).1 == (r is Some)
                    &&& r matches Some(result) ==> {
                        &&& result matches Ok(answer)
                        &&& answer@ == (AckView { queued: old(self).saw_queued, ..ack@ })
                    }
                },
                AckEvent::ReaderFailed(e) => *final(self) == *old(self) && r == Some(
                    Err::<AckResponse, _>(e),
                ),
                AckEvent::ReaderGone => *final(self) == *old(self) && r == Some(
                    Err::<AckResponse, _>(ClientError::Closed),
                ),
                AckEvent::DeadlinePassed => *final(self) == *old(self) && r == Some(
                    Err::<AckResponse, _>(ClientError::Timeout),
                ),
            },
    {
        match event {
            AckEvent::Ack(ack) => {
                if ack.cmd_sequence != self.seq {
                    return None;
                }
                if ack.stage == aproto::STAGE_QUEUED {
                    self.saw_queued = true;
                    return None;
                }
                let mut answer = ack;
                answer.queued = self.saw_queued;
                Some(Ok(answer))
            },
            AckEvent::ReaderFailed(e) => Some(Err(e)),
            AckEvent::ReaderGone => Some(Err(ClientError::Closed)),
            AckEvent::DeadlinePassed => Some(Err(ClientError::Timeout)),
        }
    }
}

/// Whether the connection's writer stops after a command ended this way: only
/// when the reader is gone. A timeout fails that one command and the writer
/// keeps serving.
pub fn stops_writer(result: &Result<AckResponse, ClientError>) -> (r: bool)
    ensures
        r == (result matches Err(e) && e is Closed),
{
    match result {
        Err(ClientError::Closed) => true,
        _ => false,
    }
}

/// How a command round trip is accounted.
pub fn outcome_of(result: &Result<AckResponse, ClientError>, latency_us: u64) -> (o:
    CommandOutcome)
    ensures
        o == (match *result {
            Ok(_) => CommandOutcome::Completed { latency_us },
            Err(ClientError::Timeout) => CommandOutcome::TimedOut,
            Err(_) => CommandOutcome::Failed,
        }),
{
    match result {
        Ok(_) => CommandOutcome::Completed { latency_us },
        Err(ClientError::Timeout) => CommandOutcome::TimedOut,
        Err(_) => CommandOutcome::Failed,
    }
}

/// A delivered acknowledgement answers its own command: it carries the
/// command's sequence number, it is not the interim QUEUED receipt, it is one
/// of those that arrived, and everything that arrived before it was stale or
/// such a receipt. It is marked as queued exactly when a receipt was seen.
pub proof fn delivered_ack_is_the_answer(w: AckWait, acks: Seq<AckView>)
    requires
        wait_result(w, acks) is Some,
    ensures
        ({
            let ack = wait_result(w, acks)->0;
            &&& ack.cmd_sequence == w.seq
            &&& ack.stage != aproto::STAGE_QUEUED
            &&& exists|i: int|
                {
                    &&& 0 <= i < acks.len()
                    &&& ack == (AckView { queued: ack.queued, ..#[trigger] acks[i] })
                    &&& forall|j: int|
                        0 <= j < i ==> (#[trigger] acks[j]).cmd_sequence != w.seq || acks[j].stage
                            == aproto::STAGE_QUEUED
                    &&& ack.queued == (w.saw_queued || exists|j: int|
                        0 <= j < i && (#[trigger] acks[j]).cmd_sequence == w.seq && acks[j].stage
                            == aproto::STAGE_QUEUED)
                }
        }),
    decreases acks.len(),
{
    let (next, done) = wait_step(w, acks[0]);
    if done {
        assert(wait_result(w, acks)->0 == (AckView { queued: w.saw_queued, ..acks[0] }));
    } else {
        let rest = acks.skip(1);
        delivered_ack_is_the_answer(next, rest);
        let ack = wait_result(w, acks)->0;
        let i = choose|i: int|
            {
                &&& 0 <= i < rest.len()
                &&& ack == (AckView { queued: ack.queued, ..#[trigger] rest[i] })
                &&& forall|j: int|
                    0 <= j < i ==> (#[trigger] rest[j]).cmd_sequence != w.seq || rest[j].stage
                        == aproto::STAGE_QUEUED
                &&& ack.queued == (next.saw_queued || exists|j: int|
                    0 <= j < i && (#[trigger] rest[j]).cmd_sequence == w.seq && rest[j].stage
                        == aproto::STAGE_QUEUED)
            };
        assert(acks[i + 1] == rest[i]);
        assert forall|j: int| 0 <= j < i + 1 implies (#[trigger] acks[j]).cmd_sequence != w.seq
            || acks[j].stage == aproto::STAGE_QUEUED by {
            if j > 0 {
                assert(acks[j] == rest[j - 1]);
            }
        }
        let before = exists|j: int|
            0 <= j < i && (#[trigger] rest[j]).cmd_sequence == w.seq && rest[j].stage
                == aproto::STAGE_QUEUED;
        let whole = exists|j: int|
            0 <= j < i + 1 && (#[trigger] acks[j]).cmd_sequence == w.seq && acks[j].stage
                == aproto::STAGE_QUEUED;
        if before {
            let j = choose|j: int|
                0 <= j < i && (#[trigger] rest[j]).cmd_sequence == w.seq && rest[j].stage
                    == aproto::STAGE_QUEUED;
            assert(acks[j + 1] == rest[j]);
        }
        if whole && !before {
            let j = choose|j: int|
                0 <= j < i + 1 && (#[trigger] acks[j]).cmd_sequence == w.seq && acks[j].stage
                    == aproto::STAGE_QUEUED;
            if j > 0 {
                assert(acks[j] == rest[j - 1]);
            }
        }
    }
}

/// A stale acknowledgement (one that answers another command) never makes a
/// difference, wherever it arrives.
pub proof fn stale_acks_make_no_difference(
    w: AckWait,
    a: Seq<AckView>,
    stale: AckView,
    b: Seq<AckView>,
)
    requires
        stale.cmd_sequence != w.seq,
    ensures
        wait_result(w, a.push(stale) + b) == wait_result(w, a + b),
    decreases a.len(),
{
    if a.len() == 0 {
        assert((a.push(stale) + b).skip(1) =~= a + b);
    } else {
        let (next, done) = wait_step(w, a[0]);
        assert((a.push(stale) + b)[0] == a[0] && (a + b)[0] == a[0]);
        if !done {
            assert((a.push(stale) + b).skip(1) =~= a.skip(1).push(stale) + b);
            assert((a + b).skip(1) =~= a.skip(1) + b);
            stale_acks_make_no_difference(next, a.skip(1), stale, b);
        }
    }
}

// ---------------------------------------------------------- simple commands

/// The payload of an INSPECT command.
pub open spec fn inspect_bytes(full_uid: u32, category: u8, offset: u16, length: u16) -> Seq<u8> {
    crate::wire::u32_le_bytes(full_uid) + seq![category] + crate::wire::u16_le_bytes(offset)
        + crate::wire::u16_le_bytes(length)
}

/// The payload of an INSPECT command: which component's data block to read, and
/// which part of it.
pub fn inspect_payload(full_uid: u32, category: u8, offset: u16, length: u16) -> (out: Vec<u8>)
    ensures
        out@ == inspect_bytes(full_uid, category, offset, length),
{
    let mut out: Vec<u8> = Vec::new();
    put_u32_le(&mut out, full_uid);
    out.push(category);
    put_u16_le(&mut out, offset);
    put_u16_le(&mut out, length);
    assert(out@ =~= inspect_bytes(full_uid, category, offset, length));
    out
}

/// The payload of the executive commands that name one component.
pub fn uid_payload(full_uid: u32) -> (out: Vec<u8>)
    ensures
        out@ == crate::wire::u32_le_bytes(full_uid),
{
    let mut out: Vec<u8> = Vec::new();
    put_u32_le(&mut out, full_uid);
    assert(out@ =~= crate::wire::u32_le_bytes(full_uid));
    out
}

/// Executive opcode: lock a component.
pub const OP_LOCK: u16 = 0x0114;

/// Executive opcode: unlock a component.
pub const OP_UNLOCK: u16 = 0x0115;

/// Executive opcode: apply a component's staged parameters.
pub const OP_RELOAD_TPRM: u16 = 0x0125;

/// Executive opcode: load a component's staged library.
pub const OP_RELOAD_LIBRARY: u16 = 0x0126;

/// Executive opcode: restart the executive.
pub const OP_RELOAD_EXECUTIVE: u16 = 0x0127;

// ------------------------------------------------------------ file transfer

/// Bytes of file content per FILE_CHUNK.
pub const CHUNK_SIZE: usize = 4096;

/// Bytes of the remote-path field of FILE_BEGIN.
pub const PATH_SIZE: usize = 64;

/// How many chunks a file of `len` bytes takes.
pub open spec fn chunk_count(len: nat) -> nat {
    (len + CHUNK_SIZE - 1) as nat / CHUNK_SIZE as nat
}

/// The NUL-padded path field: at most 63 bytes of the path.
pub open spec fn path_field(path: Seq<u8>) -> Seq<u8> {
    let kept = if path.len() < PATH_SIZE - 1 {
        path.len()
    } else {
        (PATH_SIZE - 1) as nat
    };
    path.take(kept as int) + Seq::new((PATH_SIZE - kept) as nat, |i: int| 0u8)
}

/// The FILE_BEGIN payload: total size, chunk size, chunk count, CRC-32C, path.
pub open spec fn begin_bytes(path: Seq<u8>, data: Seq<u8>) -> Seq<u8> {
    crate::wire::u32_le_bytes((data.len() % 0x1_0000_0000) as u32) + crate::wire::u16_le_bytes(
        CHUNK_SIZE as u16,
    ) + crate::wire::u16_le_bytes((chunk_count(data.len()) % 0x1_0000) as u16)
        + crate::wire::u32_le_bytes(crc32c_of(data)) + path_field(path)
}

/// The file content of chunk `i`.
pub open spec fn chunk_data(data: Seq<u8>, i: int) -> Seq<u8> {
    let end = if (i + 1) * CHUNK_SIZE < data.len() {
        (i + 1) * CHUNK_SIZE
    } else {
        data.len() as int
    };
    data.subrange(i * CHUNK_SIZE, end)
}

/// The FILE_CHUNK payload of chunk `i`: its index, then its content.
pub open spec fn chunk_bytes(data: Seq<u8>, i: int) -> Seq<u8> {
    crate::wire::u16_le_bytes((i % 0x1_0000) as u16) + chunk_data(data, i)
}

/// Step `k` of a transfer: FILE_BEGIN, then every chunk in order, then
/// FILE_END.
pub open spec fn transfer_step(path: Seq<u8>, data: Seq<u8>, k: int) -> (u16, Seq<u8>) {
    if k == 0 {
        (aproto::FILE_BEGIN, begin_bytes(path, data))
    } else if k <= chunk_count(data.len()) {
        (aproto::FILE_CHUNK, chunk_bytes(data, k - 1))
    } else {
        (aproto::FILE_END, Seq::empty())
    }
}

/// A command to the executive.
#[derive(Debug)]
pub struct Command {
    pub opcode: u16,
    pub payload: Vec<u8>,
}

impl View for Command {
    type V = (u16, Seq<u8>);

    open spec fn view(&self) -> (u16, Seq<u8>) {
        (self.opcode, self.payload@)
    }
}

/// What to do after a reply.
#[derive(Debug, Clone, Copy, PartialEq, Eq, Structural)]
pub enum Progress {
    /// Send the next command.
    Continue,
    /// Done; the reply just taken is the result.
    Finished,
}

/// A file upload, one command at a time.
#[derive(Debug)]
pub struct FileTransfer {
    path: Vec<u8>,
    data: Vec<u8>,
    chunks: usize,
    step: usize,
}

/// What a transfer uploads, and which step is next.
pub struct TransferView {
    pub path: Seq<u8>,
    pub data: Seq<u8>,
    pub step: int,
}

impl View for FileTransfer {
    type V = TransferView;

    closed spec fn view(&self) -> TransferView {
        TransferView { path: self.path@, data: self.data@, step: self.step as int }
    }
}

impl FileTransfer {
    /// The step is one of the transfer's steps.
    pub closed spec fn wf(self) -> bool {
        &&& self.chunks == chunk_count(self.data@.len())
        &&& self.step <= self.chunks + 1
    }

    /// Upload `data` to `remote_path` on the target's filesystem.
    pub fn new(remote_path: &str, data: Vec<u8>) -> (t: Self)
        ensures
            t.wf(),
            t@ == (TransferView {
                path: vstd::utf8::encode_utf8(remote_path@),
                data: data@,
                step: 0,
            }),
    {
        let path = vstd::slice::slice_to_vec(remote_path.as_bytes());
        let whole: usize = data.len() / CHUNK_SIZE;
        let chunks: usize = if data.len() % CHUNK_SIZE == 0 {
            whole
        } else {
            whole + 1
        };
        FileTransfer { path, data, chunks, step: 0 }
    }

    /// Number of content bytes.
    pub fn size(&self) -> (n: usize)
        ensures
            n == self@.data.len(),
    {
        self.data.len()
    }

    /// The next command.
    pub fn command(&self) -> (c: Command)
        requires
            self.wf(),
        ensures
            c@ == transfer_step(self@.path, self@.data, self@.step),
    {
        if self.step == 0 {
            Command { opcode: aproto::FILE_BEGIN, payload: self.begin() }
        } else if self.step <= self.chunks {
            Command { opcode: aproto::FILE_CHUNK, payload: self.chunk(self.step - 1) }
        } else {
            let payload: Vec<u8> = Vec::new();
            assert(payload@ =~= Seq::empty());
            Command { opcode: aproto::FILE_END, payload }
        }
    }

    fn begin(&self) -> (out: Vec<u8>)
        requires
            self.wf(),
        ensures
            out@ == begin_bytes(self@.path, self@.data),
    {
        let mut out: Vec<u8> = Vec::new();
        put_u32_le(&mut out, (self.data.len() as u64 % 0x1_0000_0000) as u32);
        put_u16_le(&mut out, CHUNK_SIZE as u16);
        put_u16_le(&mut out, (self.chunks % 0x1_0000) as u16);
        put_u32_le(&mut out, crc32c(self.data.as_slice()));
        let kept: usize = if self.path.len() < PATH_SIZE - 1 {
            self.path.len()
        } else {
            PATH_SIZE - 1
        };
        let ghost head = out@;
        put_bytes(&mut out, vstd::slice::slice_subrange(self.path.as_slice(), 0, kept));
        let ghost named = out@;
        for i in 0..PATH_SIZE - kept
            invariant
                out@ == named + Seq::new(i as nat, |j: int| 0u8),
        {
            out.push(0);
            assert(out@ =~= named + Seq::new((i + 1) as nat, |j: int| 0u8));
        }
        assert(self.path@.subrange(0, kept as int) =~= self.path@.take(kept as int));
        assert(out@ =~= head + path_field(self.path@));
        assert(head =~= crate::wire::u32_le_bytes((self.data@.len() % 0x1_0000_0000) as u32)
            + crate::wire::u16_le_bytes(CHUNK_SIZE as u16) + crate::wire::u16_le_bytes(
            (chunk_count(self.data@.len()) % 0x1_0000) as u16,
        ) + crate::wire::u32_le_bytes(crc32c_of(self.data@)));
        out
    }

    fn chunk(&self, i: usize) -> (out: Vec<u8>)
        requires
            self.wf(),
            i < chunk_count(self@.data.len()),
        ensures
            out@ == chunk_bytes(self@.data, i as int),
    {
        assert(self.data@.len() == self.data.len());
        let offset: usize = i * CHUNK_SIZE;
        let end: usize = if self.data.len() - offset > CHUNK_SIZE {
            offset + CHUNK_SIZE
        } else {
            self.data.len()
        };
        let mut out: Vec<u8> = Vec::new();
        put_u16_le(&mut out, (i % 0x1_0000) as u16);
        put_bytes(&mut out, vstd::slice::slice_subrange(self.data.as_slice(), offset, end));
        assert(out@ =~= chunk_bytes(self@.data, i as int));
        out
    }

    /// Take the status of the reply to the current command: a refusal or the
    /// answer to FILE_END ends the transfer.
    pub fn on_status(&mut self, status: u8) -> (p: Progress)
        requires
            old(self).wf(),
        ensures
            final(self).wf(),
            final(self)@.path == old(self)@.path,
            final(self)@.data == old(self)@.data,
            p == Progress::Finished <==> (status != 0 || old(self)@.step == chunk_count(
                old(self)@.data.len(),
            ) + 1),
            final(self)@.step == (if p == Progress::Finished {
                old(self)@.step
            } else {
                old(self)@.step + 1
            }),
    {
        if status != 0 || self.step > self.chunks {
            Progress::Finished
        } else {
            assert(self.data@.len() == self.data.len());
            self.step = self.step + 1;
            Progress::Continue
        }
    }
}

/// The content of the first `n` chunks.
pub open spec fn chunks_joined(data: Seq<u8>, n: nat) -> Seq<u8>
    decreases n,
{
    if n == 0 {
        Seq::empty()
    } else {
        chunks_joined(data, (n - 1) as nat) + chunk_data(data, n - 1)
    }
}

proof fn chunks_joined_is_prefix(data: Seq<u8>, n: nat)
    requires
        n <= chunk_count(data.len()),
    ensures
        chunks_joined(data, n) == data.take(
            if n * CHUNK_SIZE < data.len() {
                n * CHUNK_SIZE
            } else {
                data.len() as int
            },
        ),
    decreases n,
{
    if n == 0 {
        assert(chunks_joined(data, n) =~= data.take(0));
    } else {
        chunks_joined_is_prefix(data, (n - 1) as nat);
        let end = if n * CHUNK_SIZE < data.len() {
            n * CHUNK_SIZE
        } else {
            data.len() as int
        };
        assert((n - 1) * CHUNK_SIZE < data.len());
        assert(chunks_joined(data, n) =~= data.take(end));
    }
}

/// The chunks of a transfer partition the file: every chunk has 1 to 4096
/// bytes, and together, in the order sent, they are the file.
pub proof fn chunks_partition_the_file(data: Seq<u8>)
    ensures
        chunks_joined(data, chunk_count(data.len())) == data,
        forall|i: int|
            0 <= i < chunk_count(data.len()) ==> 0 < (#[trigger] chunk_data(data, i)).len()
                <= CHUNK_SIZE,
{
    let n = chunk_count(data.len());
    chunks_joined_is_prefix(data, n);
    assert(n * CHUNK_SIZE >= data.len());
    assert(data.take(data.len() as int) =~= data);
}

// --------------------------------------------------------- parameter staging

/// Where a component's staged parameters go.
pub open spec fn staged_path(full_uid: u32) -> Seq<char> {
    "bank_b/tprm/"@ + hex_lower(full_uid as nat, 6) + ".tprm"@
}

/// Where a component's staged parameters go.
pub fn staged_tprm_path(full_uid: u32) -> (p: String)
    ensures
        p@ == staged_path(full_uid),
{
    let mut p = "bank_b/tprm/".to_owned();
    push_hex(&mut p, full_uid as u64, 6, false);
    p.append(".tprm");
    p
}

/// Upload a stamped TPRM payload to the staged bank without reloading: the
/// first step of the verify-before-apply flow.
pub fn stage_tprm(full_uid: u32, data: Vec<u8>) -> (t: FileTransfer)
    ensures
        t.wf(),
        t@ == (TransferView {
            path: vstd::utf8::encode_utf8(staged_path(full_uid)),
            data: data@,
            step: 0,
        }),
{
    let path = staged_tprm_path(full_uid);
    FileTransfer::new(path.as_str(), data)
}

/// Upload a component's parameters and reload them, one command at a time.
#[derive(Debug)]
pub struct TprmUpdate {
    full_uid: u32,
    staging: FileTransfer,
    reloading: bool,
}

/// Where an update stands.
pub struct UpdateView {
    pub full_uid: u32,
    pub staging: TransferView,
    pub reloading: bool,
}

impl View for TprmUpdate {
    type V = UpdateView;

    closed spec fn view(&self) -> UpdateView {
        UpdateView {
            full_uid: self.full_uid,
            staging: self.staging@,
            reloading: self.reloading,
        }
    }
}

impl TprmUpdate {
    pub closed spec fn wf(self) -> bool {
        self.staging.wf()
    }

    /// Stage `data` for a component, then reload it.
    pub fn new(full_uid: u32, data: Vec<u8>) -> (u: Self)
        ensures
            u.wf(),
            u@ == (UpdateView {
                full_uid,
                staging: TransferView {
                    path: vstd::utf8::encode_utf8(staged_path(full_uid)),
                    data: data@,
                    step: 0,
                },
                reloading: false,
            }),
    {
        TprmUpdate { full_uid, staging: stage_tprm(full_uid, data), reloading: false }
    }

    /// The next command.
    pub fn command(&self) -> (c: Command)
        requires
            self.wf(),
        ensures
            c@ == (if self@.reloading {
                (OP_RELOAD_TPRM, crate::wire::u32_le_bytes(self@.full_uid))
            } else {
                transfer_step(self@.staging.path, self@.staging.data, self@.staging.step)
            }),
    {
        if self.reloading {
            Command { opcode: OP_RELOAD_TPRM, payload: uid_payload(self.full_uid) }
        } else {
            self.staging.command()
        }
    }

    /// Take the status of the reply to the current command: a refusal ends the
    /// update, and so does the answer to the reload. Nothing is reloaded
    /// unless every staging step was accepted.
    pub fn on_status(&mut self, status: u8) -> (p: Progress)
        requires
            old(self).wf(),
        ensures
            final(self).wf(),
            final(self)@.full_uid == old(self)@.full_uid,
            final(self)@.staging.path == old(self)@.staging.path,
            final(self)@.staging.data == old(self)@.staging.data,
            p == Progress::Finished <==> (status != 0 || old(self)@.reloading),
            final(self)@.reloading == (old(self)@.reloading || (status == 0
                && old(self)@.staging.step == chunk_count(old(self)@.staging.data.len()) + 1)),
            !final(self)@.reloading && p == Progress::Continue ==> final(self)@.staging.step
                == old(self)@.staging.step + 1,
    {
        if self.reloading {
            return Progress::Finished;
        }
        let p = self.staging.on_status(status);
        if status == 0 {
            if p == Progress::Finished {
                self.reloading = true;
            }
            Progress::Continue
        } else {
            Progress::Finished
        }
    }
}

// -------------------------------------------------------------- library swap

/// Where a component's staged library goes.
pub open spec fn library_path_of(bank: Seq<char>, name: Seq<char>, instance: u32) -> Seq<char> {
    bank + "/libs/"@ + name + "_"@ + dec(instance as nat) + ".so"@
}

/// Where a component's staged library goes.
pub fn library_path(bank: &str, name: &str, instance: u32) -> (p: String)
    ensures
        p@ == library_path_of(bank@, name@, instance),
{
    let mut p = bank.to_owned();
    p.append("/libs/");
    p.append(name);
    p.append("_");
    push_dec(&mut p, instance as u64);
    p.append(".so");
    p
}

/// Where a library swap stands.
#[derive(Debug, Clone, Copy, PartialEq, Eq, Structural)]
pub enum SwapPhase {
    /// Locking the component.
    Lock,
    /// Uploading the library to the inactive bank.
    Upload,
    /// Loading the library; the executive unlocks by itself on success.
    Reload,
    /// Best-effort unlock after a failure.
    Unlock,
}

/// What to do after a result.
#[derive(Debug)]
pub enum SwapStep {
    /// Send the next command.
    Continue,
    /// Done, with this result.
    Finished(Result<AckResponse, ClientError>),
}

/// Orchestrated library hot-swap:
///   1. Lock the component.
///   2. Upload the library to `{inactive_bank}/libs/{name}_{instance}.so`.
///   3. Reload it. The executive unlocks on success.
///   4. On any failure after the lock, attempt an unlock (best-effort).
#[derive(Debug)]
pub struct LibrarySwap {
    full_uid: u32,
    upload: FileTransfer,
    phase: SwapPhase,
    failed_with: Option<Result<AckResponse, ClientError>>,
}

/// What a swap works on and where it stands.
pub struct SwapView {
    pub full_uid: u32,
    pub upload: TransferView,
    pub phase: SwapPhase,
    /// The result of the step that failed, while unlocking.
    pub failed_with: Option<Result<AckResponse, ClientError>>,
}

impl View for LibrarySwap {
    type V = SwapView;

    closed spec fn view(&self) -> SwapView {
        SwapView {
            full_uid: self.full_uid,
            upload: self.upload@,
            phase: self.phase,
            failed_with: self.failed_with,
        }
    }
}

/// Whether a result is an accepted command.
pub open spec fn accepted(r: Result<AckResponse, ClientError>) -> bool {
    r matches Ok(ack) && ack.status == 0
}

/// The swap's reaction to the result of its current command: the next state,
/// and the final result if it is done.
pub open spec fn swap_step(s: SwapView, r: Result<AckResponse, ClientError>) -> (
    SwapView,
    Option<Result<AckResponse, ClientError>>,
) {
    match s.phase {
        SwapPhase::Lock => if accepted(r) {
            (SwapView { phase: SwapPhase::Upload, ..s }, None)
        } else {
            (s, Some(r))
        },
        SwapPhase::Upload => if !accepted(r) {
            (SwapView { phase: SwapPhase::Unlock, failed_with: Some(r), ..s }, None)
        } else if s.upload.step == chunk_count(s.upload.data.len()) + 1 {
            (SwapView { phase: SwapPhase::Reload, ..s }, None)
        } else {
            (
                SwapView {
                    upload: TransferView { step: s.upload.step + 1, ..s.upload },
                    ..s
                },
                None,
            )
        },
        SwapPhase::Reload => if accepted(r) {
            (s, Some(r))
        } else {
            (SwapView { phase: SwapPhase::Unlock, failed_with: Some(r), ..s }, None)
        },
        SwapPhase::Unlock => (SwapView { failed_with: None, ..s }, Some(s.failed_with->0)),
    }
}

/// The command a swap sends next.
pub open spec fn swap_command(s: SwapView) -> (u16, Seq<u8>) {
    match s.phase {
        SwapPhase::Lock => (OP_LOCK, crate::wire::u32_le_bytes(s.full_uid)),
        SwapPhase::Upload => transfer_step(s.upload.path, s.upload.data, s.upload.step),
        SwapPhase::Reload => (OP_RELOAD_LIBRARY, crate::wire::u32_le_bytes(s.full_uid)),
        SwapPhase::Unlock => (OP_UNLOCK, crate::wire::u32_le_bytes(s.full_uid)),
    }
}

impl LibrarySwap {
    /// The upload is sound, and there is a failure to report while unlocking.
    pub closed spec fn wf(self) -> bool {
        &&& self.upload.wf()
        &&& self.phase == SwapPhase::Unlock ==> self.failed_with is Some
    }

    /// Swap in `data` as the library of a component.
    pub fn new(
        full_uid: u32,
        component_name: &str,
        instance_index: u32,
        inactive_bank: &str,
        data: Vec<u8>,
    ) -> (s: Self)
        ensures
            s.wf(),
            s@ == (SwapView {
                full_uid,
                upload: TransferView {
                    path: vstd::utf8::encode_utf8(
                        library_path_of(inactive_bank@, component_name@, instance_index),
                    ),
                    data: data@,
                    step: 0,
                },
                phase: SwapPhase::Lock,
                failed_with: None,
            }),
    {
        let path = library_path(inactive_bank, component_name, instance_index);
        LibrarySwap {
            full_uid,
            upload: FileTransfer::new(path.as_str(), data),
            phase: SwapPhase::Lock,
            failed_with: None,
        }
    }

    /// The next command.
    pub fn command(&self) -> (c: Command)
        requires
            self.wf(),
        ensures
            c@ == swap_command(self@),
    {
        match self.phase {
            SwapPhase::Lock => Command { opcode: OP_LOCK, payload: uid_payload(self.full_uid) },
            SwapPhase::Upload => self.upload.command(),
            SwapPhase::Reload => Command {
                opcode: OP_RELOAD_LIBRARY,
                payload: uid_payload(self.full_uid),
            },
            SwapPhase::Unlock => Command {
                opcode: OP_UNLOCK,
                payload: uid_payload(self.full_uid),
            },
        }
    }

    /// Take the result of the current command. After `Finished` the swap is
    /// over and takes no more results.
    pub fn on_result(&mut self, r: Result<AckResponse, ClientError>) -> (step: SwapStep)
        requires
            old(self).wf(),
        ensures
            final(self)@ == swap_step(old(self)@, r).0,
            match step {
                SwapStep::Continue => swap_step(old(self)@, r).1 is None && final(self).wf(),
                SwapStep::Finished(result) => swap_step(old(self)@, r).1 == Some(result),
            },
    {
        let ok = match &r {
            Ok(ack) => ack.status == 0,
            Err(_) => false,
        };
        match self.phase {
            SwapPhase::Lock => {
                if ok {
                    self.phase = SwapPhase::Upload;
                    SwapStep::Continue
                } else {
                    SwapStep::Finished(r)
                }
            },
            SwapPhase::Upload => {
                if !ok {
                    self.failed_with = Some(r);
                    self.phase = SwapPhase::Unlock;
                } else if self.upload.on_status(0) == Progress::Finished {
                    self.phase = SwapPhase::Reload;
                }
                SwapStep::Continue
            },
            SwapPhase::Reload => {
                if ok {
                    SwapStep::Finished(r)
                } else {
                    self.failed_with = Some(r);
                    self.phase = SwapPhase::Unlock;
                    SwapStep::Continue
                }
            },
            SwapPhase::Unlock => {
                let result = self.failed_with.take().unwrap();
                SwapStep::Finished(result)
            },
        }
    }
}

/// A locked component is always released: a swap ends only because the lock
/// itself was not obtained, because the reload succeeded (the executive then
/// unlocks by itself), or right after its own unlock command.
pub proof fn locked_component_is_released(s: SwapView, r: Result<AckResponse, ClientError>)
    requires
        swap_step(s, r).1 is Some,
    ensures
        (s.phase == SwapPhase::Lock && !accepted(r)) || (s.phase == SwapPhase::Reload && accepted(
            r,
        )) || swap_command(s) == (OP_UNLOCK, crate::wire::u32_le_bytes(s.full_uid)),
{
}

/// A library is reloaded only after the whole upload was accepted: the step
/// into the reload phase is the accepted answer to FILE_END.
pub proof fn reload_follows_accepted_upload(s: SwapView, r: Result<AckResponse, ClientError>)
    requires
        s.phase != SwapPhase::Reload,
        swap_step(s, r).0.phase == SwapPhase::Reload,
    ensures
        s.phase == SwapPhase::Upload,
        accepted(r),
        s.upload.step == chunk_count(s.upload.data.len()) + 1,
        swap_command(s) == (aproto::FILE_END, Seq::<u8>::empty()),
{
}

/// A swap that fails reports the step that failed, whatever becomes of the
/// unlock.
pub proof fn failed_step_is_reported(
    s: SwapView,
    r: Result<AckResponse, ClientError>,
    unlock: Result<AckResponse, ClientError>,
)
    requires
        s.phase == SwapPhase::Upload || s.phase == SwapPhase::Reload,
        !accepted(r),
    ensures
        swap_step(s, r).1 is None,
        swap_command(swap_step(s, r).0).0 == OP_UNLOCK,
        swap_step(swap_step(s, r).0, unlock).1 == Some(r),
{
}

// ---------------------------------------------------------------------- laws

/// Whether a frame is a response packet: a whole packet whose flags have the response bit.
pub open spec fn is_response_frame(frame: Seq<u8>) -> bool {
    &&& frame.len() >= 14 + crate::wire::le_value(frame, 12, 2)
    &&& frame[0] == 0x41
    &&& frame[1] == 0x50
    &&& frame[3] / 2 % 2 == 1
}

/// A target's answer is delivered, whether it accepts or refuses: a response packet with
/// the ACK or the NAK opcode and at least eight payload bytes comes out as an
/// acknowledgement with the opcode, the sequence number, the status and the stage that
/// its bytes carry. A shorter one is no acknowledgement, and is dropped.
pub proof fn answers_are_delivered(frame: Seq<u8>)
    requires
        is_response_frame(frame),
        crate::wire::le_value(frame, 8, 2) == 0x00FE || crate::wire::le_value(frame, 8, 2)
            == 0x00FF,
    ensures
        ({
            let n = crate::wire::le_value(frame, 12, 2);
            &&& n < 8 ==> inbound_of(frame) is None
            &&& n >= 8 ==> {
                &&& inbound_of(frame) matches Some(InboundView::Ack(a))
                &&& a.cmd_opcode == crate::wire::le_value(frame, 14, 2)
                &&& a.cmd_sequence == crate::wire::le_value(frame, 16, 2)
                &&& a.status == frame[18]
                &&& a.status_name == aproto::status_name_of(frame[18])
                &&& a.stage == frame[19]
                &&& !a.queued
                &&& a.extra == frame.subrange(22, 14 + n as int)
            }
        }),
{
    let n = crate::wire::le_value(frame, 12, 2);
    aproto::packets_are_read_from_their_bytes(frame);
    let (h, payload) = packet_of(frame)->0;
    aproto::flags_are_bits(h.flags);
    aproto::acks_are_read_from_their_bytes(payload);
    if n >= 8 {
        crate::wire::same_bytes_same_number(payload, 0, frame, 14, 2);
        crate::wire::same_bytes_same_number(payload, 2, frame, 16, 2);
        assert(payload.subrange(8, n as int) =~= frame.subrange(22, 14 + n as int));
    }
}

/// Every other response is telemetry of the component it names, with its whole payload;
/// and what is no response packet is nothing at all.
pub proof fn other_responses_are_telemetry(frame: Seq<u8>)
    ensures
        !is_response_frame(frame) ==> inbound_of(frame) is None,
        is_response_frame(frame) && crate::wire::le_value(frame, 8, 2) != 0x00FE
            && crate::wire::le_value(frame, 8, 2) != 0x00FF ==> inbound_of(frame) == Some(
            InboundView::Telemetry(
                crate::wire::le_value(frame, 4, 4) as u32,
                frame.subrange(14, 14 + crate::wire::le_value(frame, 12, 2) as int),
            ),
        ),
{
    aproto::packets_are_read_from_their_bytes(frame);
    match packet_of(frame) {
        Some((h, payload)) => {
            aproto::flags_are_bits(h.flags);
        },
        None => {},
    }
}

/// A refusal ends the wait for its command: for a command in flight under a sequence
/// number, an answer packet that carries that number arrives through the framing and is
/// handed to the command with the status that it carries, whatever the status is. Only
/// an interim receipt (stage 1) keeps the command waiting, and an answer to another
/// command does not touch it.
pub proof fn answers_end_the_wait(s: DecoderView, frame: Seq<u8>, w: AckWait)
    requires
        !s.escape,
        s.buf.len() == 0 || !s.in_frame,
        frame.len() <= 65536,
        is_response_frame(frame),
        crate::wire::le_value(frame, 8, 2) == 0x00FE || crate::wire::le_value(frame, 8, 2)
            == 0x00FF,
        crate::wire::le_value(frame, 12, 2) >= 8,
    ensures
        ({
            let got = inbound_among(slip::run(s, slip::encoded(frame)).1);
            let answers = crate::wire::le_value(frame, 16, 2) == w.seq;
            &&& got.len() == 1
            &&& got[0] matches InboundView::Ack(a)
            &&& a.status == frame[18]
            &&& !answers ==> wait_step(w, a) == (w, false)
            &&& answers && frame[19] == 1 ==> wait_step(w, a) == (
                AckWait { saw_queued: true, ..w },
                false,
            )
            &&& answers && frame[19] != 1 ==> wait_step(w, a) == (w, true) && wait_result(
                w,
                seq![a],
            ) == Some(AckView { queued: w.saw_queued, ..a })
        }),
{
    slip::decode_undoes_encode(s, frame);
    let frames = slip::run(s, slip::encoded(frame)).1;
    assert(frames =~= seq![frame]);
    answers_are_delivered(frame);
    reveal_with_fuel(inbound_among, 2);
    assert(frames.drop_last() =~= Seq::empty());
    assert(frames.last() == frame);
}

/// A wait ends as soon as the answer is among what arrived: with an acknowledgement that
/// carries the command's sequence number and is no interim receipt, there is a result.
pub proof fn arrived_answers_are_found(w: AckWait, acks: Seq<AckView>, i: int)
    requires
        0 <= i < acks.len(),
        acks[i].cmd_sequence == w.seq,
        acks[i].stage != 1,
    ensures
        wait_result(w, acks) is Some,
    decreases acks.len(),
{
    let (next, done) = wait_step(w, acks[0]);
    if !done {
        let rest = acks.skip(1);
        assert(i > 0);
        assert(rest[i - 1] == acks[i]);
        arrived_answers_are_found(next, rest, i - 1);
    }
}

/// An INSPECT command names the component, the category, and the part of the block that
/// is wanted.
pub proof fn inspections_are_laid_out(full_uid: u32, category: u8, offset: u16, length: u16)
    ensures
        ({
            let p = inspect_bytes(full_uid, category, offset, length);
            &&& p.len() == 9
            &&& crate::wire::le_value(p, 0, 4) == full_uid
            &&& p[4] == category
            &&& crate::wire::le_value(p, 5, 2) == offset
            &&& crate::wire::le_value(p, 7, 2) == length
        }),
{
    let p = inspect_bytes(full_uid, category, offset, length);
    crate::wire::written_words_stand_for_themselves(offset, full_uid, 0);
    crate::wire::written_words_stand_for_themselves(length, full_uid, 0);
    crate::wire::same_bytes_same_number(p, 0, crate::wire::u32_le_bytes(full_uid), 0, 4);
    crate::wire::same_bytes_same_number(p, 5, crate::wire::u16_le_bytes(offset), 0, 2);
    crate::wire::same_bytes_same_number(p, 7, crate::wire::u16_le_bytes(length), 0, 2);
}

/// A transfer begins by announcing the file: its size, chunks of 4096 bytes, how many of
/// them, its CRC-32C, and the path in a field of 64 bytes that holds at most 63 bytes of
/// it and NULs behind.
pub proof fn transfers_announce_the_file(path: Seq<u8>, data: Seq<u8>)
    ensures
        ({
            let (opcode, p) = transfer_step(path, data, 0);
            let kept = if path.len() < 63 {
                path.len() as int
            } else {
                63
            };
            &&& opcode == 0x0020
            &&& p.len() == 76
            &&& crate::wire::le_value(p, 0, 4) == data.len() % 0x1_0000_0000
            &&& crate::wire::le_value(p, 4, 2) == 4096
            &&& crate::wire::le_value(p, 6, 2) == ((data.len() + 4095) / 4096) % 0x1_0000
            &&& crate::wire::le_value(p, 8, 4) == crc32c_of(data)
            &&& p.subrange(12, 12 + kept) == path.take(kept)
            &&& forall|i: int| 12 + kept <= i < 76 ==> #[trigger] p[i] == 0
        }),
{
    let p = begin_bytes(path, data);
    let size = (data.len() % 0x1_0000_0000) as u32;
    let count = (chunk_count(data.len()) % 0x1_0000) as u16;
    let crc = crc32c_of(data);
    let kept = if path.len() < 63 {
        path.len() as int
    } else {
        63
    };
    crate::wire::written_words_stand_for_themselves(4096, size, 0);
    crate::wire::written_words_stand_for_themselves(count, crc, 0);
    crate::wire::same_bytes_same_number(p, 0, crate::wire::u32_le_bytes(size), 0, 4);
    crate::wire::same_bytes_same_number(p, 4, crate::wire::u16_le_bytes(4096), 0, 2);
    crate::wire::same_bytes_same_number(p, 6, crate::wire::u16_le_bytes(count), 0, 2);
    crate::wire::same_bytes_same_number(p, 8, crate::wire::u32_le_bytes(crc), 0, 4);
    assert(p.subrange(12, 12 + kept) =~= path.take(kept));
}

/// Chunk `k` of a transfer carries its index and the bytes of the file from `4096 * k`
/// on, 4096 of them or as many as are left; behind the last chunk comes the end, which
/// carries nothing.
pub proof fn chunks_carry_their_part(path: Seq<u8>, data: Seq<u8>, k: int)
    requires
        0 <= k,
    ensures
        4096 * k < data.len() ==> {
            let (opcode, p) = transfer_step(path, data, k + 1);
            let end = if 4096 * (k + 1) < data.len() {
                4096 * (k + 1)
            } else {
                data.len() as int
            };
            &&& opcode == 0x0021
            &&& crate::wire::le_value(p, 0, 2) == k % 0x1_0000
            &&& p.skip(2) == data.subrange(4096 * k, end)
        },
        4096 * k >= data.len() ==> transfer_step(path, data, k + 1) == (
            0x0022u16,
            Seq::<u8>::empty(),
        ),
{
    if 4096 * k < data.len() {
        let p = chunk_bytes(data, k);
        let index = (k % 0x1_0000) as u16;
        crate::wire::written_words_stand_for_themselves(index, 0, 0);
        crate::wire::same_bytes_same_number(p, 0, crate::wire::u16_le_bytes(index), 0, 2);
        assert(p.skip(2) =~= chunk_data(data, k));
    }
}

/// No two components share a staged path.
pub proof fn staged_paths_differ(a: u32, b: u32)
    requires
        staged_path(a) == staged_path(b),
    ensures
        a == b,
{
    let (x, y) = (hex_lower(a as nat, 6), hex_lower(b as nat, 6));
    let head = "bank_b/tprm/"@;
    let tail = ".tprm"@;
    let (s, t) = (head + x + tail, head + y + tail);
    assert(s.len() == head.len() + x.len() + tail.len());
    assert(t.len() == head.len() + y.len() + tail.len());
    let n = head.len() as int;
    assert(s.subrange(n, n + x.len()) =~= x);
    assert(t.subrange(n, n + y.len()) =~= y);
    crate::text::hex_reads_back(a, 6, false);
    crate::text::hex_reads_back(b, 6, false);
}

/// Where a swap stands after a run of results that did not end it, None once it has.
pub open spec fn swap_after(
    s: SwapView,
    results: Seq<Result<AckResponse, ClientError>>,
) -> Option<SwapView>
    decreases results.len(),
{
    if results.len() == 0 {
        Some(s)
    } else {
        match swap_after(s, results.drop_last()) {
            Some(m) => if swap_step(m, results.last()).1 is None {
                Some(swap_step(m, results.last()).0)
            } else {
                None
            },
            None => None,
        }
    }
}

/// The commands of a swap that goes well, in order: LOCK, FILE_BEGIN, one FILE_CHUNK for
/// every 4096 bytes or part of them, FILE_END, RELOAD_LIBRARY; and the reply to the last
/// one is the result.
pub proof fn swap_commands_come_in_order(
    s: SwapView,
    results: Seq<Result<AckResponse, ClientError>>,
    last: Result<AckResponse, ClientError>,
)
    requires
        s.phase == SwapPhase::Lock,
        s.upload.step == 0,
        results.len() <= (s.upload.data.len() + 4095) / 4096 + 3,
        forall|i: int|
            0 <= i < results.len() ==> ((#[trigger] results[i]) matches Ok(a) && a.status == 0),
        last matches Ok(a) && a.status == 0,
    ensures
        ({
            let n = (s.upload.data.len() + 4095) as int / 4096;
            let k = results.len();
            &&& swap_after(s, results) matches Some(m)
            &&& m.full_uid == s.full_uid
            &&& k == 0 ==> swap_command(m).0 == 0x0114
            &&& 0 < k < n + 3 ==> swap_command(m) == transfer_step(
                s.upload.path,
                s.upload.data,
                k - 1,
            )
            &&& k == n + 3 ==> {
                &&& swap_command(m).0 == 0x0126
                &&& swap_step(m, last).1 == Some(last)
            }
            &&& k == 0 || k == n + 3 ==> crate::wire::le_value(swap_command(m).1, 0, 4)
                == s.full_uid
        }),
{
    swap_phases_follow(s, results);
    crate::wire::written_words_stand_for_themselves(0, s.full_uid, 0);
}

proof fn swap_phases_follow(s: SwapView, results: Seq<Result<AckResponse, ClientError>>)
    requires
        s.phase == SwapPhase::Lock,
        s.upload.step == 0,
        results.len() <= chunk_count(s.upload.data.len()) + 3,
        forall|i: int| 0 <= i < results.len() ==> accepted(#[trigger] results[i]),
    ensures
        ({
            let n = chunk_count(s.upload.data.len());
            let k = results.len();
            &&& swap_after(s, results) matches Some(m)
            &&& m.full_uid == s.full_uid
            &&& m.upload.path == s.upload.path
            &&& m.upload.data == s.upload.data
            &&& k == 0 ==> m.phase == SwapPhase::Lock && m.upload.step == 0
            &&& 0 < k < n + 3 ==> m.phase == SwapPhase::Upload && m.upload.step == k - 1
            &&& k == n + 3 ==> m.phase == SwapPhase::Reload
        }),
    decreases results.len(),
{
    if results.len() > 0 {
        let front = results.drop_last();
        assert forall|i: int| 0 <= i < front.len() implies accepted(#[trigger] front[i]) by {
            assert(accepted(results[i]));
        }
        swap_phases_follow(s, front);
        assert(accepted(results[results.len() - 1]));
    }
}

/// After any failure behind the lock, the next command is the unlock of the same
/// component, and it is the last.
pub proof fn failures_unlock(
    s: SwapView,
    r: Result<AckResponse, ClientError>,
    unlock: Result<AckResponse, ClientError>,
)
    requires
        s.phase == SwapPhase::Upload || s.phase == SwapPhase::Reload,
        !(r matches Ok(a) && a.status == 0),
    ensures
        swap_step(s, r).1 is None,
        swap_command(swap_step(s, r).0).0 == 0x0115,
        crate::wire::le_value(swap_command(swap_step(s, r).0).1, 0, 4) == s.full_uid,
        swap_step(swap_step(s, r).0, unlock).1 == Some(r),
{
    crate::wire::written_words_stand_for_themselves(0, s.full_uid, 0);
}

/// A component that was not locked is not touched: without an accepted LOCK the swap ends
/// at once, with that result.
pub proof fn no_lock_no_swap(s: SwapView, r: Result<AckResponse, ClientError>)
    requires
        s.phase == SwapPhase::Lock,
    ensures
        swap_command(s).0 == 0x0114,
        !(r matches Ok(a) && a.status == 0) ==> swap_step(s, r).1 == Some(r),
{
}

/// What a run of frames holds is what its parts hold, in order: every frame gives at most
/// one item, and no frame touches another's.
pub proof fn frames_are_read_one_by_one(a: Seq<Seq<u8>>, b: Seq<Seq<u8>>, frame: Seq<u8>)
    ensures
        inbound_among(a + b) == inbound_among(a) + inbound_among(b),
        inbound_among(seq![frame]) == (match inbound_of(frame) {
            Some(i) => seq![i],
            None => Seq::<InboundView>::empty(),
        }),
    decreases b.len(),
{
    reveal_with_fuel(inbound_among, 2);
    assert(seq![frame].drop_last() =~= Seq::empty());
    assert(inbound_among(seq![frame]) =~= (match inbound_of(frame) {
        Some(i) => seq![i],
        None => Seq::<InboundView>::empty(),
    }));
    if b.len() == 0 {
        assert(a + b =~= a);
        assert(inbound_among(a) + inbound_among(b) =~= inbound_among(a));
    } else {
        assert((a + b).drop_last() =~= a + b.drop_last());
        frames_are_read_one_by_one(a, b.drop_last(), frame);
        assert(inbound_among(a + b) =~= inbound_among(a) + inbound_among(b));
    }
}

/// No two instances of a component share a library path.
pub proof fn library_paths_differ(bank: Seq<char>, name: Seq<char>, a: u32, b: u32)
    requires
        library_path_of(bank, name, a) == library_path_of(bank, name, b),
    ensures
        a == b,
{
    let head = bank + "/libs/"@ + name + "_"@;
    let tail = ".so"@;
    let (x, y) = (dec(a as nat), dec(b as nat));
    let (s, t) = (head + x + tail, head + y + tail);
    let n = head.len() as int;
    assert(s.len() == head.len() + x.len() + tail.len());
    assert(t.len() == head.len() + y.len() + tail.len());
    assert(s.subrange(n, n + x.len()) =~= x);
    assert(t.subrange(n, n + y.len()) =~= y);
    crate::text::decimals_differ(a as nat, b as nat);
}

} // verus!
