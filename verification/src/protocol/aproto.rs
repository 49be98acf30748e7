//! APROTO packet encoding and decoding.
//!
//! Wire format: 14-byte little-endian header + variable payload.
//!
//! Header layout:
//!   Offset  Size  Field
//!   0       2     magic          (0x5041 "PA")
//!   2       1     version        (1)
//!   3       1     flags          (bitfield)
//!   4       4     fullUid        (component address)
//!   8       2     opcode
//!   10      2     sequence
//!   12      2     payloadLength

use vstd::prelude::*;

use crate::wire::{copy_range, get_u16_le, get_u32_le, put_bytes, put_u16_le, put_u32_le};

verus! {

/// APROTO magic bytes ("PA" little-endian) at the start of every header.
pub const MAGIC: u16 = 0x5041;

/// Wire-protocol version supported by this client.
pub const VERSION: u8 = 1;

/// Fixed header length in bytes.
pub const HEADER_SIZE: usize = 14;

/// Flag bit: internal/system-generated packet.
pub const FLAG_INTERNAL: u8 = 0x01;

/// Flag bit: this packet is a response (ACK / NAK / push telemetry).
pub const FLAG_RESPONSE: u8 = 0x02;

/// Flag bit: command requests an ACK from the receiver.
pub const FLAG_ACK_REQ: u8 = 0x04;

/// Flag bit: payload carries a CRC trailer.
pub const FLAG_CRC: u8 = 0x08;

/// Flag bit: payload is encrypted.
pub const FLAG_ENCRYPTED: u8 = 0x10;

/// System opcode: no-op, used as a connectivity check.
pub const SYS_NOOP: u16 = 0x0000;

/// System opcode: ping, returns a pong.
pub const SYS_PING: u16 = 0x0001;

/// System opcode: positive acknowledgement of a command.
pub const SYS_ACK: u16 = 0x00FE;

/// System opcode: negative acknowledgement of a command.
pub const SYS_NAK: u16 = 0x00FF;

/// File transfer opcode: begin a file upload.
pub const FILE_BEGIN: u16 = 0x0020;

/// File transfer opcode: a single data chunk of an in-flight upload.
pub const FILE_CHUNK: u16 = 0x0021;

/// File transfer opcode: finalize the upload; the receiver verifies the CRC.
pub const FILE_END: u16 = 0x0022;

/// File transfer opcode: abort an in-flight upload.
pub const FILE_ABORT: u16 = 0x0023;

/// File transfer opcode: query current transfer state.
pub const FILE_STATUS: u16 = 0x0024;

/// Executive opcode: GET_HEALTH, returns the executive health struct.
pub const EXEC_GET_HEALTH: u16 = 0x0100;

/// Executive opcode: GET_CLOCK_CYCLES, returns the elapsed clock count.
pub const EXEC_GET_CLOCK_CYCLES: u16 = 0x0104;

/// Executive opcode: CMD_PAUSE, halts the scheduler.
pub const EXEC_CMD_PAUSE: u16 = 0x0110;

/// Executive opcode: CMD_RESUME, resumes a paused scheduler.
pub const EXEC_CMD_RESUME: u16 = 0x0111;

/// Executive opcode: CMD_SHUTDOWN, gracefully exits the process.
pub const EXEC_CMD_SHUTDOWN: u16 = 0x0112;

/// Executive opcode: CMD_SLEEP, puts the system into idle mode.
pub const EXEC_CMD_SLEEP: u16 = 0x0116;

/// Executive opcode: CMD_WAKE, returns the system to active mode.
pub const EXEC_CMD_WAKE: u16 = 0x0117;

/// Executive opcode: INSPECT, reads a registered data block.
pub const EXEC_INSPECT: u16 = 0x0130;

/// NAK status code: SUCCESS (also returned in ACK).
pub const NAK_SUCCESS: u8 = 0;

/// NAK status code: opcode not recognized by the receiving component.
pub const NAK_UNKNOWN_OPCODE: u8 = 1;

/// NAK status code: payload format or length is invalid.
pub const NAK_INVALID_PAYLOAD: u8 = 2;

/// NAK status code: target component (by fullUid) is not registered.
pub const NAK_COMPONENT_NOT_FOUND: u8 = 4;

/// ACK stage: the command's own result (the value a receiver that does not
/// know stages leaves in the reserved byte).
pub const STAGE_RESULT: u8 = 0;

/// ACK stage: the command was queued; a later ACK carries its completion.
pub const STAGE_QUEUED: u8 = 1;

/// ACK stage: completion of a command that was queued before.
pub const STAGE_COMPLETION: u8 = 2;

/// Parsed APROTO header.
#[derive(Debug, Clone, Copy, PartialEq, Eq, Structural)]
pub struct Header {
    pub magic: u16,
    pub version: u8,
    pub flags: u8,
    pub full_uid: u32,
    pub opcode: u16,
    pub sequence: u16,
    pub payload_length: u16,
}

impl Header {
    /// Check if this is a response packet (ACK/NAK or telemetry).
    pub fn is_response(&self) -> (r: bool)
        ensures
            r == (self.flags & FLAG_RESPONSE != 0),
    {
        self.flags & FLAG_RESPONSE != 0
    }

    /// Check if ACK was requested.
    pub fn ack_requested(&self) -> (r: bool)
        ensures
            r == (self.flags & FLAG_ACK_REQ != 0),
    {
        self.flags & FLAG_ACK_REQ != 0
    }
}

/// Fully parsed APROTO packet (header + payload).
#[derive(Debug, Clone)]
pub struct Packet {
    pub header: Header,
    pub payload: Vec<u8>,
}

/// Parsed ACK/NAK response payload.
#[derive(Debug, Clone)]
pub struct AckResponse {
    pub cmd_opcode: u16,
    pub cmd_sequence: u16,
    pub status: u8,
    pub status_name: String,
    /// Stage of the command this ACK reports on.
    pub stage: u8,
    /// Whether an interim QUEUED receipt preceded this ACK.
    pub queued: bool,
    /// Extra data after the 8-byte ACK header (response payload of the command).
    pub extra: Vec<u8>,
}

/// What an ACK/NAK payload says.
pub struct AckView {
    pub cmd_opcode: u16,
    pub cmd_sequence: u16,
    pub status: u8,
    pub status_name: Seq<char>,
    pub stage: u8,
    pub queued: bool,
    pub extra: Seq<u8>,
}

impl View for AckResponse {
    type V = AckView;

    open spec fn view(&self) -> AckView {
        AckView {
            cmd_opcode: self.cmd_opcode,
            cmd_sequence: self.cmd_sequence,
            status: self.status,
            status_name: self.status_name@,
            stage: self.stage,
            queued: self.queued,
            extra: self.extra@,
        }
    }
}

/// The 14 header octets.
pub open spec fn header_bytes(h: Header) -> Seq<u8> {
    crate::wire::u16_le_bytes(h.magic) + seq![h.version, h.flags] + crate::wire::u32_le_bytes(
        h.full_uid,
    ) + crate::wire::u16_le_bytes(h.opcode) + crate::wire::u16_le_bytes(h.sequence)
        + crate::wire::u16_le_bytes(h.payload_length)
}

/// The header of a command with a payload of `len` bytes. The length field is
/// 16 bits wide and wraps.
pub open spec fn command_header(full_uid: u32, opcode: u16, sequence: u16, len: nat) -> Header {
    Header {
        magic: MAGIC,
        version: VERSION,
        flags: FLAG_ACK_REQ,
        full_uid,
        opcode,
        sequence,
        payload_length: (len % 65536) as u16,
    }
}

/// A command packet on the wire.
pub open spec fn command_bytes(
    full_uid: u32,
    opcode: u16,
    sequence: u16,
    payload: Seq<u8>,
) -> Seq<u8> {
    header_bytes(command_header(full_uid, opcode, sequence, payload.len())) + payload
}

/// The header at the front of `data`: None when fewer than 14 bytes are there
/// or the magic does not match.
pub open spec fn header_of(data: Seq<u8>) -> Option<Header> {
    if data.len() < HEADER_SIZE || crate::wire::u16_le_at(data, 0) != MAGIC {
        None
    } else {
        Some(
            Header {
                magic: MAGIC,
                version: data[2],
                flags: data[3],
                full_uid: crate::wire::u32_le_at(data, 4),
                opcode: crate::wire::u16_le_at(data, 8),
                sequence: crate::wire::u16_le_at(data, 10),
                payload_length: crate::wire::u16_le_at(data, 12),
            },
        )
    }
}

/// The packet at the front of `data`: None when the header does not parse or
/// the declared payload is not all there. Bytes past the payload are ignored.
pub open spec fn packet_of(data: Seq<u8>) -> Option<(Header, Seq<u8>)> {
    match header_of(data) {
        Some(h) if data.len() >= HEADER_SIZE + h.payload_length => Some(
            (h, data.subrange(HEADER_SIZE as int, HEADER_SIZE + h.payload_length)),
        ),
        _ => None,
    }
}

/// The acknowledgement in `payload`: None below 8 bytes.
pub open spec fn ack_of(payload: Seq<u8>) -> Option<AckView> {
    if payload.len() < 8 {
        None
    } else {
        Some(
            AckView {
                cmd_opcode: crate::wire::u16_le_at(payload, 0),
                cmd_sequence: crate::wire::u16_le_at(payload, 2),
                status: payload[4],
                status_name: status_name_of(payload[4]),
                stage: payload[5],
                queued: false,
                extra: payload.skip(8),
            },
        )
    }
}

/// The readable name of an ACK status code.
pub open spec fn status_name_of(status: u8) -> Seq<char> {
    match status {
        0 => "SUCCESS"@,
        1 => "UNKNOWN_OPCODE"@,
        2 => "INVALID_PAYLOAD"@,
        3 => "NO_RESOLVER"@,
        4 => "COMPONENT_NOT_FOUND"@,
        5 => "LOAD_FAILED"@,
        _ => "UNKNOWN"@,
    }
}

/// Build an APROTO command packet (header + payload).
pub fn build_command(full_uid: u32, opcode: u16, sequence: u16, payload: &[u8]) -> (buf: Vec<u8>)
    ensures
        buf@ == command_bytes(full_uid, opcode, sequence, payload@),
{
    let mut buf: Vec<u8> = Vec::new();
    put_u16_le(&mut buf, MAGIC);
    buf.push(VERSION);
    buf.push(FLAG_ACK_REQ);
    put_u32_le(&mut buf, full_uid);
    put_u16_le(&mut buf, opcode);
    put_u16_le(&mut buf, sequence);
    put_u16_le(&mut buf, (payload.len() % 65536) as u16);
    put_bytes(&mut buf, payload);
    assert(buf@ =~= command_bytes(full_uid, opcode, sequence, payload@));
    buf
}

/// Parse an APROTO header from raw bytes. Returns None if invalid.
pub fn parse_header(data: &[u8]) -> (r: Option<Header>)
    ensures
        r == header_of(data@),
{
    if data.len() < HEADER_SIZE {
        return None;
    }
    let magic: u16 = get_u16_le(data, 0);
    if magic != MAGIC {
        return None;
    }
    Some(
        Header {
            magic,
            version: data[2],
            flags: data[3],
            full_uid: get_u32_le(data, 4),
            opcode: get_u16_le(data, 8),
            sequence: get_u16_le(data, 10),
            payload_length: get_u16_le(data, 12),
        },
    )
}

/// Parse a complete APROTO packet (header + payload).
pub fn parse_packet(data: &[u8]) -> (r: Option<Packet>)
    ensures
        match r {
            Some(p) => packet_of(data@) == Some((p.header, p.payload@)),
            None => packet_of(data@) is None,
        },
{
    let header = match parse_header(data) {
        Some(h) => h,
        None => return None,
    };
    let payload_end: usize = HEADER_SIZE + header.payload_length as usize;
    if data.len() < payload_end {
        return None;
    }
    Some(Packet { header, payload: copy_range(data, HEADER_SIZE, payload_end) })
}

/// The readable name of an ACK status code.
fn status_name(status: u8) -> (name: String)
    ensures
        name@ == status_name_of(status),
{
    let name = match status {
        0 => "SUCCESS",
        1 => "UNKNOWN_OPCODE",
        2 => "INVALID_PAYLOAD",
        3 => "NO_RESOLVER",
        4 => "COMPONENT_NOT_FOUND",
        5 => "LOAD_FAILED",
        _ => "UNKNOWN",
    };
    name.to_owned()
}

/// Parse an ACK/NAK payload (8+ bytes).
pub fn parse_ack(payload: &[u8]) -> (r: Option<AckResponse>)
    ensures
        match r {
            Some(ack) => ack_of(payload@) == Some(ack@),
            None => ack_of(payload@) is None,
        },
{
    if payload.len() < 8 {
        return None;
    }
    let status: u8 = payload[4];
    let extra = copy_range(payload, 8, payload.len());
    assert(extra@ =~= payload@.skip(8));
    Some(
        AckResponse {
            cmd_opcode: get_u16_le(payload, 0),
            cmd_sequence: get_u16_le(payload, 2),
            status,
            status_name: status_name(status),
            stage: payload[5],
            queued: false,
            extra,
        },
    )
}

/// Parsing undoes building: a command whose payload fits the 16-bit length
/// field comes back with every header field and the payload intact, marked as
/// asking for an ACK and not as a response; bytes that follow it are ignored.
pub proof fn parse_undoes_build(
    full_uid: u32,
    opcode: u16,
    sequence: u16,
    payload: Seq<u8>,
    rest: Seq<u8>,
)
    requires
        payload.len() <= 0xFFFF,
    ensures
        packet_of(command_bytes(full_uid, opcode, sequence, payload) + rest) == Some(
            (command_header(full_uid, opcode, sequence, payload.len()), payload),
        ),
        command_header(full_uid, opcode, sequence, payload.len()).payload_length == payload.len(),
        command_header(full_uid, opcode, sequence, payload.len()).flags & FLAG_ACK_REQ != 0,
        command_header(full_uid, opcode, sequence, payload.len()).flags & FLAG_RESPONSE == 0,
{
    let h = command_header(full_uid, opcode, sequence, payload.len());
    let data = command_bytes(full_uid, opcode, sequence, payload) + rest;
    assert(FLAG_ACK_REQ & FLAG_ACK_REQ != 0 && FLAG_ACK_REQ & FLAG_RESPONSE == 0) by (bit_vector);
    assert(header_of(data) == Some(h));
    assert(data.subrange(HEADER_SIZE as int, HEADER_SIZE + h.payload_length) =~= payload);
}

/// A flag byte marks a response if and only if its second bit is set, and asks for an
/// ACK if and only if its third bit is set.
pub proof fn flags_are_bits(flags: u8)
    ensures
        flags & FLAG_RESPONSE != 0 <==> flags / 2 % 2 == 1,
        flags & FLAG_ACK_REQ != 0 <==> flags / 4 % 2 == 1,
{
    assert(flags & 0x02 != 0 <==> flags / 2 % 2 == 1) by (bit_vector);
    assert(flags & 0x04 != 0 <==> flags / 4 % 2 == 1) by (bit_vector);
}

/// A packet is read from its bytes: it is one if and only if the 14 bytes of a header are
/// there, the magic stands in front and the payload that the header announces follows;
/// the header fields are the numbers that stand at their places, least significant byte
/// first.
pub proof fn packets_are_read_from_their_bytes(data: Seq<u8>)
    ensures
        ({
            let n = crate::wire::le_value(data, 12, 2);
            let whole = data.len() >= 14 && data[0] == 0x41 && data[1] == 0x50 && data.len() >= 14
                + n;
            &&& packet_of(data) is Some <==> whole
            &&& packet_of(data) matches Some((h, payload)) ==> {
                &&& h.version == data[2]
                &&& h.flags == data[3]
                &&& h.full_uid == crate::wire::le_value(data, 4, 4)
                &&& h.opcode == crate::wire::le_value(data, 8, 2)
                &&& h.sequence == crate::wire::le_value(data, 10, 2)
                &&& h.payload_length == n
                &&& payload == data.subrange(14, 14 + n as int)
            }
        }),
{
    crate::wire::words_are_the_numbers_of_their_bytes(data, 0);
    crate::wire::words_are_the_numbers_of_their_bytes(data, 4);
    crate::wire::words_are_the_numbers_of_their_bytes(data, 8);
    crate::wire::words_are_the_numbers_of_their_bytes(data, 10);
    crate::wire::words_are_the_numbers_of_their_bytes(data, 12);
}

/// A command is laid out byte for byte: the magic, version 1, a request for an ACK and
/// nothing else among the flags, then address, opcode, sequence number and length, least
/// significant byte first, and the payload.
pub proof fn commands_are_laid_out(
    full_uid: u32,
    opcode: u16,
    sequence: u16,
    payload: Seq<u8>,
)
    ensures
        ({
            let data = command_bytes(full_uid, opcode, sequence, payload);
            &&& data.len() == 14 + payload.len()
            &&& data[0] == 0x41 && data[1] == 0x50 && data[2] == 1 && data[3] == 0x04
            &&& crate::wire::le_value(data, 4, 4) == full_uid
            &&& crate::wire::le_value(data, 8, 2) == opcode
            &&& crate::wire::le_value(data, 10, 2) == sequence
            &&& crate::wire::le_value(data, 12, 2) == payload.len() % 65536
            &&& data.skip(14) == payload
        }),
{
    let data = command_bytes(full_uid, opcode, sequence, payload);
    let n = (payload.len() % 65536) as u16;
    let (a, b, c, d) = (
        crate::wire::u32_le_bytes(full_uid),
        crate::wire::u16_le_bytes(opcode),
        crate::wire::u16_le_bytes(sequence),
        crate::wire::u16_le_bytes(n),
    );
    crate::wire::written_words_stand_for_themselves(opcode, full_uid, 0);
    crate::wire::written_words_stand_for_themselves(sequence, full_uid, 0);
    crate::wire::written_words_stand_for_themselves(n, full_uid, 0);
    crate::wire::same_bytes_same_number(data, 4, a, 0, 4);
    crate::wire::same_bytes_same_number(data, 8, b, 0, 2);
    crate::wire::same_bytes_same_number(data, 10, c, 0, 2);
    crate::wire::same_bytes_same_number(data, 12, d, 0, 2);
    assert(data.skip(14) =~= payload);
}

/// An acknowledgement is read from its bytes: it is one if and only if there are eight of
/// them; the opcode and the sequence number that it answers stand in front, least
/// significant byte first, then the status and the stage; what follows the eight bytes
/// is the command's own reply.
pub proof fn acks_are_read_from_their_bytes(payload: Seq<u8>)
    ensures
        ack_of(payload) is Some <==> payload.len() >= 8,
        ack_of(payload) matches Some(a) ==> {
            &&& a.cmd_opcode == crate::wire::le_value(payload, 0, 2)
            &&& a.cmd_sequence == crate::wire::le_value(payload, 2, 2)
            &&& a.status == payload[4]
            &&& a.status_name == status_name_of(payload[4])
            &&& a.stage == payload[5]
            &&& !a.queued
            &&& a.extra == payload.subrange(8, payload.len() as int)
        },
{
    crate::wire::words_are_the_numbers_of_their_bytes(payload, 0);
    crate::wire::words_are_the_numbers_of_their_bytes(payload, 2);
    if payload.len() >= 8 {
        assert(payload.skip(8) =~= payload.subrange(8, payload.len() as int));
    }
}

/// Status codes keep their names apart: the codes up to 5 have names of their own, none
/// of them the one that every other code shares.
pub proof fn status_names_tell_codes_apart(a: u8, b: u8)
    requires
        a <= 5,
        a != b,
    ensures
        status_name_of(a) != status_name_of(b),
{
    reveal_strlit("SUCCESS");
    reveal_strlit("UNKNOWN_OPCODE");
    reveal_strlit("INVALID_PAYLOAD");
    reveal_strlit("NO_RESOLVER");
    reveal_strlit("COMPONENT_NOT_FOUND");
    reveal_strlit("LOAD_FAILED");
    reveal_strlit("UNKNOWN");
    assert("SUCCESS"@[0] != "UNKNOWN"@[0]);
    assert("NO_RESOLVER"@[0] != "LOAD_FAILED"@[0]);
    let (n, m) = (status_name_of(a), status_name_of(b));
    if n == m {
        assert(n.len() == m.len() && n[0] == m[0]);
    }
}

/// A name tells the status code, and no other code has it: whoever reads a name knows how
/// the target took the command.
pub proof fn names_tell_the_status(code: u8)
    ensures
        status_name_of(code) == "SUCCESS"@ <==> code == 0,
        status_name_of(code) == "UNKNOWN_OPCODE"@ <==> code == 1,
        status_name_of(code) == "INVALID_PAYLOAD"@ <==> code == 2,
        status_name_of(code) == "NO_RESOLVER"@ <==> code == 3,
        status_name_of(code) == "COMPONENT_NOT_FOUND"@ <==> code == 4,
        status_name_of(code) == "LOAD_FAILED"@ <==> code == 5,
{
    if code != 0 {
        status_names_tell_codes_apart(0, code);
    }
    if code != 1 {
        status_names_tell_codes_apart(1, code);
    }
    if code != 2 {
        status_names_tell_codes_apart(2, code);
    }
    if code != 3 {
        status_names_tell_codes_apart(3, code);
    }
    if code != 4 {
        status_names_tell_codes_apart(4, code);
    }
    if code != 5 {
        status_names_tell_codes_apart(5, code);
    }
}

} // verus!
