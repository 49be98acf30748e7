//! The per-target transport seam.
//!
//! Zenith's generic layers (storage, decoder, router, HTTP surface) speak to a
//! target only through its link: link lifecycle plus a raw telemetry-packet
//! stream. Everything else (command opcodes, file transfer, TPRM staging) is a
//! protocol-family operation, and handlers answer "unsupported for this
//! target's protocol" when it is absent.

use vstd::prelude::*;

use crate::text::same_text;

verus! {

/// A raw telemetry packet from any transport: the component fullUid plus raw
/// payload bytes. Protocol-neutral by design.
#[derive(Debug, Clone)]
pub struct PushTelemetryPacket {
    pub full_uid: u32,
    pub payload: Vec<u8>,
}

/// What a list of telemetry packets holds.
pub open spec fn packets_of(packets: Seq<PushTelemetryPacket>) -> Seq<(u32, Seq<u8>)> {
    Seq::new(packets.len(), |i: int| (packets[i].full_uid, packets[i].payload@))
}

/// Wire protocol a target speaks.
#[derive(Debug, Clone, Copy, PartialEq, Eq, Structural)]
pub enum Protocol {
    /// APROTO packets over SLIP framing on TCP.
    AprotoSlip,
    /// CCSDS Space Packets over a byte stream (telemetry-only).
    CcsdsSpp,
    /// CCSDS Space Packets, one per SLIP frame (telemetry-only).
    SlipCcsdsSpp,
    /// Header-less SLIP frames (telemetry-only).
    RawSlip,
}

/// A protocol's name.
pub open spec fn protocol_name(p: Protocol) -> Seq<char> {
    match p {
        Protocol::AprotoSlip => "aproto-slip"@,
        Protocol::CcsdsSpp => "ccsds-spp"@,
        Protocol::SlipCcsdsSpp => "slip-ccsds-spp"@,
        Protocol::RawSlip => "raw-slip"@,
    }
}

/// The protocol that a config string selects.
pub open spec fn configured_protocol(s: Seq<char>) -> Option<Protocol> {
    if s == "aproto-slip"@ {
        Some(Protocol::AprotoSlip)
    } else if s == "ccsds-spp"@ {
        Some(Protocol::CcsdsSpp)
    } else {
        None
    }
}

impl Protocol {
    /// Parse the config string. Unknown values are a boot error: a misspelled
    /// protocol must never silently become the default.
    pub fn from_config(s: &str) -> (r: Result<Self, String>)
        ensures
            match r {
                Ok(p) => configured_protocol(s@) == Some(p),
                Err(e) => {
                    &&& configured_protocol(s@) is None
                    &&& e@ == "unknown protocol '"@ + s@
                        + "' (supported: aproto-slip, ccsds-spp)"@
                },
            },
    {
        if same_text(s, "aproto-slip") {
            Ok(Protocol::AprotoSlip)
        } else if same_text(s, "ccsds-spp") {
            Ok(Protocol::CcsdsSpp)
        } else {
            let mut e = "unknown protocol '".to_owned();
            e.append(s);
            e.append("' (supported: aproto-slip, ccsds-spp)");
            Err(e)
        }
    }

    pub fn name(&self) -> (r: &'static str)
        ensures
            r@ == protocol_name(*self),
    {
        match self {
            Protocol::AprotoSlip => "aproto-slip",
            Protocol::CcsdsSpp => "ccsds-spp",
            Protocol::SlipCcsdsSpp => "slip-ccsds-spp",
            Protocol::RawSlip => "raw-slip",
        }
    }

    /// Whether the protocol has a command surface.
    pub fn commandable(&self) -> (r: bool)
        ensures
            r == (*self == Protocol::AprotoSlip),
    {
        match self {
            Protocol::AprotoSlip => true,
            _ => false,
        }
    }
}

/// The uniform "this target's protocol cannot do that" answer for handlers,
/// keeping the phrasing consistent across the surface.
pub fn unsupported_op(op: &str, protocol: Protocol) -> (t: String)
    ensures
        t@ == "operation '"@ + op@ + "' is not supported by this target's protocol ("@
            + protocol_name(protocol) + ")"@,
{
    let mut t = "operation '".to_owned();
    t.append(op);
    t.append("' is not supported by this target's protocol (");
    t.append(protocol.name());
    t.append(")");
    t
}

/// Why a link operation failed.
#[derive(Debug, Clone)]
pub enum ClientError {
    /// The connection could not be made.
    Connect(String),
    /// The socket failed.
    Io(String),
    /// There is no connection to send on.
    NotConnected,
    /// The command could not be written.
    SendFailed,
    /// The connection closed while a command was in flight.
    Closed,
    /// No answer within the command's deadline.
    Timeout,
}

impl ClientError {
    /// The operator-facing text of the error.
    pub open spec fn text(self) -> Seq<char> {
        match self {
            ClientError::Connect(e) => "connection failed: "@ + e@,
            ClientError::Io(e) => "I/O error: "@ + e@,
            ClientError::NotConnected => "not connected"@,
            ClientError::SendFailed => "send failed"@,
            ClientError::Closed => "connection closed"@,
            ClientError::Timeout => "command timed out"@,
        }
    }

    /// The operator-facing text of the error.
    pub fn message(&self) -> (t: String)
        ensures
            t@ == self.text(),
    {
        match self {
            ClientError::Connect(e) => {
                let mut t = "connection failed: ".to_owned();
                t.append(e.as_str());
                t
            },
            ClientError::Io(e) => {
                let mut t = "I/O error: ".to_owned();
                t.append(e.as_str());
                t
            },
            ClientError::NotConnected => "not connected".to_owned(),
            ClientError::SendFailed => "send failed".to_owned(),
            ClientError::Closed => "connection closed".to_owned(),
            ClientError::Timeout => "command timed out".to_owned(),
        }
    }
}

/// A link's connection flag, guarded by a generation counter: every connect
/// starts a new generation, and a background task clears the flag only while
/// its own generation is the current one.
#[derive(Debug, Clone, Copy, PartialEq, Eq, Structural)]
pub struct LinkState {
    pub generation: u64,
    pub connected: bool,
}

/// The number of the generation after this one; the counter wraps.
pub open spec fn next_generation(generation: u64) -> u64 {
    if generation == u64::MAX {
        0
    } else {
        (generation + 1) as u64
    }
}

/// A link after a background task of some generation saw its connection end.
pub open spec fn after_end(s: LinkState, generation: u64) -> LinkState {
    LinkState { connected: s.connected && generation != s.generation, ..s }
}

impl LinkState {
    /// A link that was never connected.
    pub fn new() -> (s: Self)
        ensures
            s == (LinkState { generation: 0, connected: false }),
    {
        LinkState { generation: 0, connected: false }
    }

    /// Start a new generation; background tasks of the connect carry the
    /// number. The counter wraps.
    pub fn begin(&mut self) -> (generation: u64)
        ensures
            generation == final(self).generation,
            final(self).generation == next_generation(old(self).generation),
            final(self).connected == old(self).connected,
    {
        self.generation = self.generation.wrapping_add(1);
        self.generation
    }

    /// The connect succeeded.
    pub fn established(&mut self)
        ensures
            final(self).connected,
            final(self).generation == old(self).generation,
    {
        self.connected = true;
    }

    /// A background task of the given generation saw the connection end.
    pub fn task_ended(&mut self, generation: u64)
        ensures
            *final(self) == after_end(*old(self), generation),
    {
        if self.generation == generation {
            self.connected = false;
        }
    }

    /// Explicit teardown.
    pub fn disconnect(&mut self)
        ensures
            !final(self).connected,
            final(self).generation == old(self).generation,
    {
        self.connected = false;
    }
}

/// A background task that outlives its connection cannot take down the next one: once
/// a new generation has begun, the end of the one before changes nothing, and only the
/// end of the new one clears the flag.
pub proof fn stale_tasks_change_nothing(s: LinkState, stale: u64)
    requires
        s.generation == next_generation(stale),
    ensures
        after_end(s, stale) == s,
        !after_end(s, s.generation).connected,
{
}

/// The config string of a selectable protocol selects that protocol, and no
/// other string does.
pub proof fn protocol_names_select(p: Protocol, s: Seq<char>)
    ensures
        p == Protocol::AprotoSlip || p == Protocol::CcsdsSpp ==> configured_protocol(
            protocol_name(p),
        ) == Some(p),
        configured_protocol(s) == Some(p) ==> s == protocol_name(p),
{
    reveal_strlit("aproto-slip");
    reveal_strlit("ccsds-spp");
    assert("aproto-slip"@[0] != "ccsds-spp"@[0]);
}

/// The end of a connection is noticed by its own generation and by no other, and a link is
/// never connected by it.
pub proof fn only_the_current_generation_ends_a_link(s: LinkState, generation: u64)
    ensures
        after_end(s, generation).generation == s.generation,
        generation == s.generation ==> !after_end(s, generation).connected,
        generation != s.generation ==> after_end(s, generation).connected == s.connected,
        next_generation(s.generation) != s.generation,
        s.generation < u64::MAX ==> next_generation(s.generation) == s.generation + 1,
{
}

} // verus!
