//! The verify-before-apply pipeline for readback-capable targets: upload,
//! cross-check the staged bank's declared identity against what was sent, run
//! the vehicle's full verify, and only then apply. Anything short of a
//! verified payload never reaches the reload.

use vstd::prelude::*;

use crate::aproto_client::{
    chunk_count, stage_tprm, staged_path, transfer_step, uid_payload, Command, FileTransfer,
    Progress, TransferView, OP_RELOAD_TPRM,
};
use crate::protocol::aproto::{AckResponse, AckView};
use crate::tprm::{
    check_name_of, is_row_at, page_is_complete, parse_readback_page, parse_v3,
    parse_verify_verdict, payload_check_name, verified, PreludeFields, ReadbackRow, VerifyVerdict,
    OP_READBACK_TPRM, OP_VERIFY_TPRM,
};

verus! {

/// Where the pipeline stands.
#[derive(Debug, Clone, Copy, PartialEq, Eq, Structural)]
pub enum StagedPhase {
    /// Uploading to the staged bank.
    Stage,
    /// Reading back the staged bank's digest.
    Readback,
    /// Asking the vehicle for its full verify.
    Verify,
    /// Applying.
    Reload,
}

/// Where and why the pipeline stopped.
#[derive(Debug, Clone, Copy)]
pub enum StagedReport {
    /// The upload was refused.
    UploadRefused,
    /// The staged bytes do not match the intent.
    ReadbackMismatch { sent_layout_hash: u32, sent_payload_crc: u32, row: Option<ReadbackRow> },
    /// The vehicle's verify refused.
    VerifyRefused { verdict: Option<VerifyVerdict> },
    /// Verified and applied.
    Applied,
}

/// What to do after a reply.
#[derive(Debug)]
pub enum StagedStep {
    /// Send the next command.
    Continue,
    /// Done, with this response and report.
    Finished(AckResponse, StagedReport),
}

/// The pipeline, one command at a time.
#[derive(Debug)]
pub struct StagedUpdate {
    full_uid: u32,
    sent: PreludeFields,
    staging: FileTransfer,
    phase: StagedPhase,
}

/// What is being staged and where the pipeline stands.
pub struct StagedView {
    pub full_uid: u32,
    pub sent: PreludeFields,
    pub staging: TransferView,
    pub phase: StagedPhase,
}

impl View for StagedUpdate {
    type V = StagedView;

    closed spec fn view(&self) -> StagedView {
        StagedView {
            full_uid: self.full_uid,
            sent: self.sent,
            staging: self.staging@,
            phase: self.phase,
        }
    }
}

/// The command the pipeline sends next.
pub open spec fn staged_command(s: StagedView) -> (u16, Seq<u8>) {
    match s.phase {
        StagedPhase::Stage => transfer_step(s.staging.path, s.staging.data, s.staging.step),
        StagedPhase::Readback => (OP_READBACK_TPRM, Seq::empty()),
        StagedPhase::Verify => (OP_VERIFY_TPRM, crate::wire::u32_le_bytes(s.full_uid)),
        StagedPhase::Reload => (OP_RELOAD_TPRM, crate::wire::u32_le_bytes(s.full_uid)),
    }
}

/// Whether row `i` of a digest is the first one for a component.
pub open spec fn is_first_row(extra: Seq<u8>, full_uid: u32, i: int) -> bool {
    &&& page_is_complete(extra)
    &&& 0 <= i < extra[4]
    &&& crate::wire::u32_le_at(extra, 8 + 16 * i) == full_uid
    &&& forall|j: int|
        0 <= j < i ==> #[trigger] crate::wire::u32_le_at(extra, 8 + 16 * j) != full_uid
}

/// Whether the staged bank declares exactly the identity that was sent: the
/// first row for the component has the layout hash and the payload CRC, and
/// the vehicle finds nothing wrong with it.
pub open spec fn readback_matches(extra: Seq<u8>, full_uid: u32, sent: PreludeFields) -> bool {
    exists|i: int|
        #[trigger] is_first_row(extra, full_uid, i) && crate::wire::u32_le_at(
            extra,
            8 + 16 * i + 4,
        ) == sent.layout_hash && crate::wire::u32_le_at(extra, 8 + 16 * i + 8) == sent.payload_crc
            && extra[8 + 16 * i + 12] == 0
}

/// Whether the vehicle's verify accepts.
pub open spec fn verify_accepts(reply: AckView) -> bool {
    reply.status == 0 && reply.extra.len() >= 12 && reply.extra[0] == 0
}

/// The pipeline's reaction to a reply: the next state, or None when it stops.
pub open spec fn staged_next(s: StagedView, reply: AckView) -> Option<StagedView> {
    match s.phase {
        StagedPhase::Stage => if reply.status != 0 {
            None
        } else if s.staging.step == chunk_count(s.staging.data.len()) + 1 {
            Some(StagedView { phase: StagedPhase::Readback, ..s })
        } else {
            Some(
                StagedView {
                    staging: TransferView { step: s.staging.step + 1, ..s.staging },
                    ..s
                },
            )
        },
        StagedPhase::Readback => if readback_matches(reply.extra, s.full_uid, s.sent) {
            Some(StagedView { phase: StagedPhase::Verify, ..s })
        } else {
            None
        },
        StagedPhase::Verify => if verify_accepts(reply) {
            Some(StagedView { phase: StagedPhase::Reload, ..s })
        } else {
            None
        },
        StagedPhase::Reload => None,
    }
}

/// Whether `row` is what a digest says of a component: its first row, or
/// nothing when the digest is incomplete or has none.
pub open spec fn is_row_for(row: Option<ReadbackRow>, extra: Seq<u8>, full_uid: u32) -> bool {
    match row {
        Some(r) => exists|i: int|
            #[trigger] is_first_row(extra, full_uid, i) && is_row_at(r, extra, 8 + 16 * i),
        None => forall|i: int| !#[trigger] is_first_row(extra, full_uid, i),
    }
}

/// Whether `v` is the verdict block of a reply, None when it is too short.
pub open spec fn is_verdict_in(v: Option<VerifyVerdict>, extra: Seq<u8>) -> bool {
    match v {
        Some(v) => {
            &&& extra.len() >= 12
            &&& v.verdict == extra[0]
            &&& v.verdict_name@ == check_name_of(v.verdict)
            &&& v.ok == (v.verdict == 0)
            &&& v.declared_layout_hash == crate::wire::u32_le_at(extra, 4)
            &&& v.declared_payload_crc == crate::wire::u32_le_at(extra, 8)
        },
        None => extra.len() < 12,
    }
}

/// Whether a response and report are what the pipeline stops with.
pub open spec fn is_stop(
    s: StagedView,
    reply: AckResponse,
    response: AckResponse,
    report: StagedReport,
) -> bool {
    match s.phase {
        StagedPhase::Stage => response == reply && report is UploadRefused,
        StagedPhase::Readback => {
            &&& response@ == (AckView {
                cmd_opcode: OP_READBACK_TPRM,
                status_name: "READBACK_MISMATCH"@,
                extra: Seq::empty(),
                ..reply@
            })
            &&& report matches StagedReport::ReadbackMismatch {
                sent_layout_hash,
                sent_payload_crc,
                row,
            }
            &&& sent_layout_hash == s.sent.layout_hash
            &&& sent_payload_crc == s.sent.payload_crc
            &&& is_row_for(row, reply.extra@, s.full_uid)
        },
        StagedPhase::Verify => {
            &&& report matches StagedReport::VerifyRefused { verdict }
            &&& is_verdict_in(verdict, reply.extra@)
            &&& response@ == (AckView {
                status_name: match verdict {
                    Some(v) => v.verdict_name@,
                    None => reply.status_name@,
                },
                ..reply@
            })
        },
        StagedPhase::Reload => response == reply && report is Applied,
    }
}

/// The first row of a digest for a component.
fn find_row(extra: &[u8], full_uid: u32) -> (r: Option<ReadbackRow>)
    ensures
        is_row_for(r, extra@, full_uid),
{
    match parse_readback_page(extra) {
        Ok(page) => {
            for i in 0..page.rows.len()
                invariant
                    page_is_complete(extra@),
                    page.rows@.len() == extra@[4],
                    forall|k: int|
                        0 <= k < page.rows@.len() ==> is_row_at(
                            #[trigger] page.rows@[k],
                            extra@,
                            8 + 16 * k,
                        ),
                    forall|j: int|
                        0 <= j < i ==> #[trigger] crate::wire::u32_le_at(extra@, 8 + 16 * j)
                            != full_uid,
            {
                let row = page.rows[i];
                assert(is_row_at(page.rows@[i as int], extra@, 8 + 16 * i));
                if row.full_uid == full_uid {
                    assert(is_first_row(extra@, full_uid, i as int));
                    return Some(row);
                }
            }
            None
        },
        Err(_) => None,
    }
}

impl StagedUpdate {
    pub closed spec fn wf(self) -> bool {
        self.staging.wf()
    }

    /// Stage a stamped payload for a component. Its own prelude is the intent
    /// the vehicle must echo back.
    pub fn new(full_uid: u32, stamped: Vec<u8>) -> (s: Self)
        requires
            verified(stamped@) is Ok,
        ensures
            s.wf(),
            s@ == (StagedView {
                full_uid,
                sent: verified(stamped@)->Ok_0.0,
                staging: TransferView {
                    path: vstd::utf8::encode_utf8(staged_path(full_uid)),
                    data: stamped@,
                    step: 0,
                },
                phase: StagedPhase::Stage,
            }),
    {
        let sent = match parse_v3(stamped.as_slice()) {
            Ok((p, _)) => p,
            Err(_) => PreludeFields {
                version: 0,
                payload_size: 0,
                full_uid: 0,
                layout_hash: 0,
                payload_crc: 0,
            },
        };
        StagedUpdate {
            full_uid,
            sent,
            staging: stage_tprm(full_uid, stamped),
            phase: StagedPhase::Stage,
        }
    }

    /// The next command.
    pub fn command(&self) -> (c: Command)
        requires
            self.wf(),
        ensures
            c@ == staged_command(self@),
    {
        match self.phase {
            StagedPhase::Stage => self.staging.command(),
            StagedPhase::Readback => {
                let payload: Vec<u8> = Vec::new();
                assert(payload@ =~= Seq::empty());
                Command { opcode: OP_READBACK_TPRM, payload }
            },
            StagedPhase::Verify => Command {
                opcode: OP_VERIFY_TPRM,
                payload: uid_payload(self.full_uid),
            },
            StagedPhase::Reload => Command {
                opcode: OP_RELOAD_TPRM,
                payload: uid_payload(self.full_uid),
            },
        }
    }

    /// Take the reply to the current command.
    pub fn on_reply(&mut self, reply: AckResponse) -> (step: StagedStep)
        requires
            old(self).wf(),
        ensures
            final(self).wf(),
            match step {
                StagedStep::Continue => staged_next(old(self)@, reply@) == Some(final(self)@),
                StagedStep::Finished(response, report) => {
                    &&& staged_next(old(self)@, reply@) is None
                    &&& is_stop(old(self)@, reply, response, report)
                },
            },
    {
        match self.phase {
            StagedPhase::Stage => {
                let p = self.staging.on_status(reply.status);
                if reply.status != 0 {
                    return StagedStep::Finished(reply, StagedReport::UploadRefused);
                }
                if p == Progress::Finished {
                    self.phase = StagedPhase::Readback;
                }
                StagedStep::Continue
            },
            StagedPhase::Readback => {
                let row = find_row(reply.extra.as_slice(), self.full_uid);
                let row_ok = match &row {
                    Some(r) => r.layout_hash == self.sent.layout_hash && r.payload_crc
                        == self.sent.payload_crc && r.verdict == 0,
                    None => false,
                };
                proof {
                    row_decides(row, reply.extra@, self.full_uid, self.sent);
                }
                if row_ok {
                    self.phase = StagedPhase::Verify;
                    return StagedStep::Continue;
                }
                let extra: Vec<u8> = Vec::new();
                let refused = AckResponse {
                    cmd_opcode: OP_READBACK_TPRM,
                    cmd_sequence: reply.cmd_sequence,
                    status: reply.status,
                    status_name: "READBACK_MISMATCH".to_owned(),
                    stage: reply.stage,
                    queued: reply.queued,
                    extra,
                };
                assert(refused@.extra =~= Seq::empty());
                StagedStep::Finished(
                    refused,
                    StagedReport::ReadbackMismatch {
                        sent_layout_hash: self.sent.layout_hash,
                        sent_payload_crc: self.sent.payload_crc,
                        row,
                    },
                )
            },
            StagedPhase::Verify => {
                let verdict = match parse_verify_verdict(reply.extra.as_slice()) {
                    Ok(v) => Some(v),
                    Err(_) => None,
                };
                let accepted = match &verdict {
                    Some(v) => reply.status == 0 && v.ok,
                    None => false,
                };
                if accepted {
                    self.phase = StagedPhase::Reload;
                    return StagedStep::Continue;
                }
                let mut refused = reply;
                match &verdict {
                    Some(v) => {
                        refused.status_name = v.verdict_name.to_owned();
                    },
                    None => {},
                }
                StagedStep::Finished(refused, StagedReport::VerifyRefused { verdict })
            },
            StagedPhase::Reload => StagedStep::Finished(reply, StagedReport::Applied),
        }
    }
}

/// The first row of a digest decides whether the readback matches.
proof fn row_decides(
    row: Option<ReadbackRow>,
    extra: Seq<u8>,
    full_uid: u32,
    sent: PreludeFields,
)
    requires
        is_row_for(row, extra, full_uid),
    ensures
        readback_matches(extra, full_uid, sent) == (match row {
            Some(r) => r.layout_hash == sent.layout_hash && r.payload_crc == sent.payload_crc
                && r.verdict == 0,
            None => false,
        }),
{
    match row {
        Some(r) => {
            let i = choose|i: int|
                #[trigger] is_first_row(extra, full_uid, i) && is_row_at(r, extra, 8 + 16 * i);
            if readback_matches(extra, full_uid, sent) {
                let k = choose|k: int|
                    #[trigger] is_first_row(extra, full_uid, k) && crate::wire::u32_le_at(
                        extra,
                        8 + 16 * k + 4,
                    ) == sent.layout_hash && crate::wire::u32_le_at(extra, 8 + 16 * k + 8)
                        == sent.payload_crc && extra[8 + 16 * k + 12] == 0;
                if k < i {
                    assert(crate::wire::u32_le_at(extra, 8 + 16 * k) != full_uid);
                }
                if i < k {
                    assert(crate::wire::u32_le_at(extra, 8 + 16 * i) != full_uid);
                }
                assert(i == k);
            }
        },
        None => {},
    }
}

/// The verdict that a refused RELOAD carries: status 5 with a payload-check
/// code in the extra.
pub fn reload_verdict(reply: &AckResponse) -> (r: Option<&'static str>)
    ensures
        match r {
            Some(name) => {
                &&& reply.status == 5
                &&& reply.extra@.len() > 0
                &&& name@ == check_name_of(reply.extra@[0])
            },
            None => reply.status != 5 || reply.extra@.len() == 0,
        },
{
    if reply.status == 5 && reply.extra.len() > 0 {
        Some(payload_check_name(reply.extra[0]))
    } else {
        None
    }
}

/// Anything short of a verified payload never reaches the reload: the pipeline
/// sends RELOAD only after the vehicle's verify accepted, and asks for that
/// verify only after the staged bank declared exactly what was sent.
pub proof fn reload_only_after_verify(s: StagedView, reply: AckView)
    requires
        staged_next(s, reply) is Some,
        s.phase != StagedPhase::Reload,
    ensures
        ({
            let n = staged_next(s, reply)->0;
            &&& n.phase == StagedPhase::Reload ==> s.phase == StagedPhase::Verify
                && verify_accepts(reply)
            &&& n.phase == StagedPhase::Verify ==> s.phase == StagedPhase::Readback
                && readback_matches(reply.extra, s.full_uid, s.sent)
            &&& n.phase == StagedPhase::Readback ==> s.phase == StagedPhase::Stage && reply.status
                == 0 && s.staging.step == chunk_count(s.staging.data.len()) + 1
            &&& n.full_uid == s.full_uid && n.sent == s.sent && n.staging.data == s.staging.data
        }),
{
}

/// Nothing but the reload applies bytes: every command before it is part of the
/// upload, or only reads.
pub proof fn earlier_commands_do_not_apply(s: StagedView)
    requires
        s.phase != StagedPhase::Reload,
        0 <= s.staging.step,
    ensures
        staged_command(s).0 != OP_RELOAD_TPRM,
{
}

/// Whether row `i` of a digest, read from its bytes, declares an identity: the
/// component's address, the layout hash and the payload CRC, least significant
/// byte first, with a zero verdict behind them.
pub open spec fn row_declares(extra: Seq<u8>, i: int, full_uid: u32, sent: PreludeFields) -> bool {
    &&& row_address(extra, i) == full_uid
    &&& crate::wire::le_value(extra, 8 + 16 * i + 4, 4) == sent.layout_hash
    &&& crate::wire::le_value(extra, 8 + 16 * i + 8, 4) == sent.payload_crc
    &&& extra[8 + 16 * i + 12] == 0
}

/// The address in row `i` of a digest.
pub open spec fn row_address(extra: Seq<u8>, i: int) -> nat {
    crate::wire::le_value(extra, 8 + 16 * i, 4)
}

/// RELOAD is sent if and only if the last reply answered VERIFY with status zero
/// and a verdict block of at least 12 bytes whose first byte is zero. For every
/// other verdict byte, for a shorter block and for every other status the
/// pipeline stops.
pub proof fn reload_needs_a_zero_verdict(s: StagedView, reply: AckView)
    requires
        s.phase == StagedPhase::Verify,
    ensures
        staged_command(s).0 == 0x0132,
        crate::wire::le_value(staged_command(s).1, 0, 4) == s.full_uid,
        reply.status == 0 && reply.extra.len() >= 12 && reply.extra[0] == 0 ==> {
            &&& staged_next(s, reply) matches Some(n)
            &&& staged_command(n).0 == 0x0125
            &&& crate::wire::le_value(staged_command(n).1, 0, 4) == s.full_uid
        },
        !(reply.status == 0 && reply.extra.len() >= 12 && reply.extra[0] == 0) ==> staged_next(
            s,
            reply,
        ) is None,
{
    crate::wire::written_words_stand_for_themselves(0, s.full_uid, 0);
}

/// Nothing else leads to RELOAD: where it is the next command, the last reply
/// answered VERIFY, with status zero and a zero verdict byte.
pub proof fn reload_follows_only_a_verdict(s: StagedView, reply: AckView)
    requires
        staged_next(s, reply) is Some,
        staged_command(staged_next(s, reply)->0).0 == 0x0125,
    ensures
        staged_command(s).0 == 0x0132,
        reply.status == 0,
        reply.extra.len() >= 12,
        reply.extra[0] == 0,
{
}

/// A payload that the vehicle does not accept is refused under the name of the fault
/// code that came back, whichever it is; the response is otherwise the vehicle's reply,
/// and the report carries the code, the declared layout hash and the declared payload CRC
/// as they stand in the block. Without a whole block the reply is passed on as it came.
pub proof fn refused_verifies_name_their_verdict(
    s: StagedView,
    reply: AckResponse,
    response: AckResponse,
    report: StagedReport,
)
    requires
        s.phase == StagedPhase::Verify,
        is_stop(s, reply, response, report),
    ensures
        response.cmd_opcode == reply.cmd_opcode,
        response.cmd_sequence == reply.cmd_sequence,
        response.status == reply.status,
        response.stage == reply.stage,
        response.queued == reply.queued,
        response.extra@ == reply.extra@,
        report is VerifyRefused,
        reply.extra@.len() < 12 ==> response.status_name@ == reply.status_name@
            && report->VerifyRefused_verdict is None,
        reply.extra@.len() >= 12 ==> {
            &&& response.status_name@ == check_name_of(reply.extra@[0])
            &&& report->VerifyRefused_verdict matches Some(v)
            &&& v.verdict == reply.extra@[0]
            &&& v.ok == (reply.extra@[0] == 0)
            &&& v.declared_layout_hash == crate::wire::le_value(reply.extra@, 4, 4)
            &&& v.declared_payload_crc == crate::wire::le_value(reply.extra@, 8, 4)
        },
{
    assert(response@.cmd_opcode == reply@.cmd_opcode && response@.extra == reply@.extra);
    crate::wire::words_are_the_numbers_of_their_bytes(reply.extra@, 4);
    crate::wire::words_are_the_numbers_of_their_bytes(reply.extra@, 8);
}

/// VERIFY is sent if and only if the last reply answered READBACK with a complete
/// digest whose first row for the component declares the layout hash and the
/// payload CRC that were sent, with a zero verdict. Every other digest stops the
/// pipeline.
pub proof fn verify_needs_the_identity_sent(s: StagedView, reply: AckView)
    requires
        s.phase == StagedPhase::Readback,
    ensures
        staged_command(s).0 == 0x0131,
        staged_command(s).1.len() == 0,
        ({
            let extra = reply.extra;
            let echoed = exists|i: int|
                {
                    &&& extra.len() >= 8 + 16 * extra[4]
                    &&& 0 <= i < extra[4]
                    &&& #[trigger] row_declares(extra, i, s.full_uid, s.sent)
                    &&& forall|j: int| 0 <= j < i ==> #[trigger] row_address(extra, j) != s.full_uid
                };
            &&& echoed && extra.len() >= 8 ==> {
                &&& staged_next(s, reply) matches Some(n)
                &&& staged_command(n).0 == 0x0132
                &&& crate::wire::le_value(staged_command(n).1, 0, 4) == s.full_uid
            }
            &&& !(echoed && extra.len() >= 8) ==> staged_next(s, reply) is None
        }),
{
    let extra = reply.extra;
    crate::wire::written_words_stand_for_themselves(0, s.full_uid, 0);
    assert forall|i: int|
        {
            &&& #[trigger] row_address(extra, i) == crate::wire::u32_le_at(extra, 8 + 16 * i)
            &&& row_declares(extra, i, s.full_uid, s.sent) == (crate::wire::u32_le_at(
                extra,
                8 + 16 * i,
            ) == s.full_uid && crate::wire::u32_le_at(extra, 8 + 16 * i + 4) == s.sent.layout_hash
                && crate::wire::u32_le_at(extra, 8 + 16 * i + 8) == s.sent.payload_crc && extra[8
                + 16 * i + 12] == 0)
        } by {
        crate::wire::words_are_the_numbers_of_their_bytes(extra, 8 + 16 * i);
        crate::wire::words_are_the_numbers_of_their_bytes(extra, 8 + 16 * i + 4);
        crate::wire::words_are_the_numbers_of_their_bytes(extra, 8 + 16 * i + 8);
    }
    if readback_matches(extra, s.full_uid, s.sent) {
        let i = choose|i: int|
            #[trigger] is_first_row(extra, s.full_uid, i) && crate::wire::u32_le_at(
                extra,
                8 + 16 * i + 4,
            ) == s.sent.layout_hash && crate::wire::u32_le_at(extra, 8 + 16 * i + 8)
                == s.sent.payload_crc && extra[8 + 16 * i + 12] == 0;
        assert(row_address(extra, i) == s.full_uid);
        assert(row_declares(extra, i, s.full_uid, s.sent));
        assert forall|j: int| 0 <= j < i implies #[trigger] row_address(extra, j)
            != s.full_uid by {
            assert(crate::wire::u32_le_at(extra, 8 + 16 * j) != s.full_uid);
        }
    }
    if extra.len() >= 8 && exists|i: int|
        {
            &&& extra.len() >= 8 + 16 * extra[4]
            &&& 0 <= i < extra[4]
            &&& #[trigger] row_declares(extra, i, s.full_uid, s.sent)
            &&& forall|j: int| 0 <= j < i ==> #[trigger] row_address(extra, j) != s.full_uid
        } {
        let i = choose|i: int|
            {
                &&& extra.len() >= 8 + 16 * extra[4]
                &&& 0 <= i < extra[4]
                &&& #[trigger] row_declares(extra, i, s.full_uid, s.sent)
                &&& forall|j: int| 0 <= j < i ==> #[trigger] row_address(extra, j) != s.full_uid
            };
        assert(row_address(extra, i) == s.full_uid);
        assert forall|j: int| 0 <= j < i implies #[trigger] crate::wire::u32_le_at(
            extra,
            8 + 16 * j,
        ) != s.full_uid by {
            assert(row_address(extra, j) != s.full_uid);
        }
        assert(is_first_row(extra, s.full_uid, i));
    }
}

/// Where the pipeline stands after a run of replies, None once it has stopped.
pub open spec fn staged_after(s: StagedView, replies: Seq<AckView>) -> Option<StagedView>
    decreases replies.len(),
{
    if replies.len() == 0 {
        Some(s)
    } else {
        match staged_after(s, replies.drop_last()) {
            Some(m) => staged_next(m, replies.last()),
            None => None,
        }
    }
}

/// The commands of a pipeline, in order: FILE_BEGIN, one FILE_CHUNK for every 4096
/// bytes or part of them, FILE_END, READBACK, VERIFY, RELOAD. Each is sent only
/// after every reply before it was accepted; what is staged, and for which
/// component, stays the same throughout.
pub proof fn staged_commands_come_in_order(s: StagedView, replies: Seq<AckView>)
    requires
        s.phase == StagedPhase::Stage,
        s.staging.step == 0,
        staged_after(s, replies) is Some,
    ensures
        ({
            let n = (s.staging.data.len() + 4095) as int / 4096;
            let m = staged_after(s, replies)->0;
            let k = replies.len();
            &&& m.full_uid == s.full_uid && m.sent == s.sent
            &&& m.staging.path == s.staging.path && m.staging.data == s.staging.data
            &&& k <= n + 4
            &&& k == 0 ==> staged_command(m).0 == 0x0020
            &&& 0 < k <= n ==> staged_command(m).0 == 0x0021 && m.staging.step == k
            &&& k == n + 1 ==> staged_command(m).0 == 0x0022
            &&& k == n + 2 ==> staged_command(m).0 == 0x0131
            &&& k == n + 3 ==> staged_command(m).0 == 0x0132
            &&& k == n + 4 ==> staged_command(m).0 == 0x0125
            &&& forall|i: int|
                0 <= i < k && (i < n + 2 || i == n + 3) ==> (#[trigger] replies[i]).status == 0
            &&& k == n + 4 ==> replies[n + 3].extra.len() >= 12 && replies[n + 3].extra[0] == 0
        }),
{
    let n = chunk_count(s.staging.data.len()) as int;
    assert(n == (s.staging.data.len() + 4095) / 4096);
    staged_phases_follow(s, replies);
}

proof fn staged_phases_follow(s: StagedView, replies: Seq<AckView>)
    requires
        s.phase == StagedPhase::Stage,
        s.staging.step == 0,
        staged_after(s, replies) is Some,
    ensures
        ({
            let n = chunk_count(s.staging.data.len()) as int;
            let m = staged_after(s, replies)->0;
            let k = replies.len();
            &&& m.full_uid == s.full_uid && m.sent == s.sent
            &&& m.staging.path == s.staging.path && m.staging.data == s.staging.data
            &&& k <= n + 4
            &&& k < n + 2 ==> m.phase == StagedPhase::Stage && m.staging.step == k
            &&& k == n + 2 ==> m.phase == StagedPhase::Readback
            &&& k == n + 3 ==> m.phase == StagedPhase::Verify
            &&& k == n + 4 ==> m.phase == StagedPhase::Reload
            &&& forall|i: int|
                0 <= i < k && (i < n + 2 || i == n + 3) ==> (#[trigger] replies[i]).status == 0
            &&& k == n + 4 ==> replies[n + 3].extra.len() >= 12 && replies[n + 3].extra[0] == 0
        }),
    decreases replies.len(),
{
    if replies.len() > 0 {
        let before = replies.drop_last();
        staged_phases_follow(s, before);
        assert forall|i: int| 0 <= i < before.len() implies #[trigger] replies[i] == before[i] by {}
    }
}

/// An upload goes on through every accepted reply and stops at the first refused
/// one, with that reply as its response. The reply to RELOAD, whatever it says, is
/// the response of the whole pipeline.
pub proof fn uploads_stop_at_a_refusal(
    s: StagedView,
    reply: AckResponse,
    response: AckResponse,
    report: StagedReport,
)
    requires
        s.phase == StagedPhase::Stage || s.phase == StagedPhase::Reload,
    ensures
        s.phase == StagedPhase::Stage ==> (staged_next(s, reply@) is None <==> reply.status != 0),
        s.phase == StagedPhase::Reload ==> staged_next(s, reply@) is None,
        is_stop(s, reply, response, report) ==> response == reply,
        is_stop(s, reply, response, report) ==> (report is Applied <==> s.phase
            == StagedPhase::Reload),
        is_stop(s, reply, response, report) ==> (report is UploadRefused <==> s.phase
            == StagedPhase::Stage),
{
}

/// A digest that does not match is reported with what was sent beside what the
/// first row for the component says, read from its bytes; the response answers
/// READBACK, with the status of the reply and nothing behind it.
pub proof fn mismatches_show_both_sides(
    s: StagedView,
    reply: AckResponse,
    response: AckResponse,
    report: StagedReport,
)
    requires
        s.phase == StagedPhase::Readback,
        is_stop(s, reply, response, report),
    ensures
        response.cmd_opcode == 0x0131,
        response.cmd_sequence == reply.cmd_sequence,
        response.status == reply.status,
        response.stage == reply.stage,
        response.queued == reply.queued,
        response.extra@.len() == 0,
        report matches StagedReport::ReadbackMismatch { sent_layout_hash, sent_payload_crc, row }
            && sent_layout_hash == s.sent.layout_hash && sent_payload_crc == s.sent.payload_crc
            && match row {
            Some(r) => exists|i: int|
                {
                    &&& reply.extra@.len() >= 8 + 16 * reply.extra@[4]
                    &&& 0 <= i < reply.extra@[4]
                    &&& #[trigger] row_address(reply.extra@, i) == s.full_uid
                    &&& forall|j: int|
                        0 <= j < i ==> #[trigger] row_address(reply.extra@, j) != s.full_uid
                    &&& r.full_uid == s.full_uid
                    &&& r.layout_hash == crate::wire::le_value(reply.extra@, 8 + 16 * i + 4, 4)
                    &&& r.payload_crc == crate::wire::le_value(reply.extra@, 8 + 16 * i + 8, 4)
                    &&& r.verdict == reply.extra@[8 + 16 * i + 12]
                },
            None => reply.extra@.len() >= 8 + 16 * reply.extra@[4] && reply.extra@.len() >= 8
                ==> forall|i: int|
                0 <= i < reply.extra@[4] ==> #[trigger] row_address(reply.extra@, i) != s.full_uid,
        },
{
    let extra = reply.extra@;
    assert(response@.cmd_sequence == reply@.cmd_sequence && response@.extra.len() == 0);
    assert forall|i: int| #[trigger]
        row_address(extra, i) == crate::wire::u32_le_at(extra, 8 + 16 * i) by {
        crate::wire::words_are_the_numbers_of_their_bytes(extra, 8 + 16 * i);
    }
    match report->ReadbackMismatch_row {
        Some(r) => {
            let i = choose|i: int|
                #[trigger] is_first_row(extra, s.full_uid, i) && is_row_at(r, extra, 8 + 16 * i);
            crate::wire::words_are_the_numbers_of_their_bytes(extra, 8 + 16 * i + 4);
            crate::wire::words_are_the_numbers_of_their_bytes(extra, 8 + 16 * i + 8);
            assert(row_address(extra, i) == s.full_uid);
            assert forall|j: int| 0 <= j < i implies #[trigger] row_address(extra, j)
                != s.full_uid by {
                assert(crate::wire::u32_le_at(extra, 8 + 16 * j) != s.full_uid);
            }
        },
        None => {
            if extra.len() >= 8 && extra.len() >= 8 + 16 * extra[4] {
                no_row_at_all(extra, s.full_uid, extra[4] as int);
            }
        },
    }
}

/// A complete digest without a first row for a component has no row for it.
proof fn no_row_at_all(extra: Seq<u8>, full_uid: u32, n: int)
    requires
        page_is_complete(extra),
        0 <= n <= extra[4],
        forall|i: int| !#[trigger] is_first_row(extra, full_uid, i),
    ensures
        forall|i: int| 0 <= i < n ==> #[trigger] row_address(extra, i) != full_uid,
    decreases n,
{
    if n > 0 {
        no_row_at_all(extra, full_uid, n - 1);
        crate::wire::words_are_the_numbers_of_their_bytes(extra, 8 + 16 * (n - 1));
        assert forall|j: int| 0 <= j < n - 1 implies #[trigger] crate::wire::u32_le_at(
            extra,
            8 + 16 * j,
        ) != full_uid by {
            crate::wire::words_are_the_numbers_of_their_bytes(extra, 8 + 16 * j);
            assert(row_address(extra, j) != full_uid);
        }
        assert(!is_first_row(extra, full_uid, n - 1));
    }
}

} // verus!
