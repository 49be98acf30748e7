use zenith::aproto_client::{
    crc32c, inspect_payload, library_path, outcome_of, route_frame, staged_tprm_path, stops_writer,
    uid_payload, AckEvent, AckWait, CommandSequencer, FileTransfer, Inbound, LibrarySwap,
    LinkReader, Progress, SwapStep, TprmUpdate, OP_LOCK, OP_RELOAD_LIBRARY, OP_RELOAD_TPRM,
    OP_UNLOCK,
};
use zenith::metrics::CommandOutcome;
use zenith::protocol::aproto::{
    parse_packet, AckResponse, FILE_BEGIN, FILE_CHUNK, FILE_END, FLAG_RESPONSE,
    HEADER_SIZE, MAGIC, STAGE_COMPLETION, STAGE_QUEUED, STAGE_RESULT, SYS_ACK, SYS_NOOP, VERSION,
};
use zenith::protocol::slip;
use zenith::transport::{ClientError, LinkState};

fn ack_packet(cmd_opcode: u16, cmd_seq: u16, status: u8) -> Vec<u8> {
    staged_ack_packet(cmd_opcode, cmd_seq, status, STAGE_RESULT)
}

fn staged_ack_packet(cmd_opcode: u16, cmd_seq: u16, status: u8, stage: u8) -> Vec<u8> {
    let mut ack_payload = Vec::with_capacity(8);
    ack_payload.extend_from_slice(&cmd_opcode.to_le_bytes());
    ack_payload.extend_from_slice(&cmd_seq.to_le_bytes());
    ack_payload.push(status);
    ack_payload.push(stage);
    ack_payload.extend_from_slice(&[0u8; 2]);

    let mut pkt = Vec::with_capacity(HEADER_SIZE + ack_payload.len());
    pkt.extend_from_slice(&MAGIC.to_le_bytes());
    pkt.push(VERSION);
    pkt.push(FLAG_RESPONSE);
    pkt.extend_from_slice(&0u32.to_le_bytes());
    pkt.extend_from_slice(&SYS_ACK.to_le_bytes());
    pkt.extend_from_slice(&0u16.to_le_bytes());
    pkt.extend_from_slice(&(ack_payload.len() as u16).to_le_bytes());
    pkt.extend_from_slice(&ack_payload);
    slip::encode(&pkt)
}

/// Sends a command to a target that answers with bytes, and takes what comes back.
/// None stands for an answer that never came.
fn exchange(
    sequencer: &mut CommandSequencer,
    reader: &mut LinkReader,
    opcode: u16,
    target: impl Fn(u16, u16) -> Vec<u8>,
) -> Option<Result<AckResponse, ClientError>> {
    let cmd = sequencer.frame_command(0, opcode, &[]);
    let mut decoder = slip::Decoder::new();
    let frames = decoder.feed(&cmd.encoded);
    assert_eq!(frames.len(), 1);
    let pkt = parse_packet(&frames[0]).unwrap();
    assert_eq!(pkt.header.sequence, cmd.seq);
    let mut wait = AckWait::new(cmd.seq);
    for inbound in reader.feed(&target(pkt.header.opcode, pkt.header.sequence)) {
        if let Inbound::Ack(ack) = inbound {
            let result = wait.on_event(AckEvent::Ack(ack));
            if result.is_some() {
                return result;
            }
        }
    }
    None
}

/// A command round-trips against a well-behaved target: the ACK is matched by
/// sequence and carries the status through, and a legacy zeroed stage byte reads
/// as an immediate RESULT.
#[test]
fn command_round_trip_success() {
    let mut seq = CommandSequencer::new();
    let mut reader = LinkReader::new();
    let resp = exchange(&mut seq, &mut reader, SYS_NOOP, |op, s| ack_packet(op, s, 0))
        .unwrap()
        .unwrap();
    assert_eq!(resp.status, 0);
    assert_eq!(resp.cmd_sequence, 0);
    assert_eq!(resp.stage, STAGE_RESULT);
    assert!(!resp.queued);
}

/// A deferred command's QUEUED interim frame is not returned to the caller: the
/// client waits through it and delivers the COMPLETION terminal carrying the
/// handler's real status, with the queued flag set so the UI can show the
/// lifecycle.
#[test]
fn queued_command_waits_for_completion_frame() {
    let mut seq = CommandSequencer::new();
    let mut reader = LinkReader::new();
    let resp = exchange(&mut seq, &mut reader, SYS_NOOP, |op, s| {
        let mut reply = staged_ack_packet(op, s, 0, STAGE_QUEUED);
        reply.extend(staged_ack_packet(op, s, 5, STAGE_COMPLETION));
        reply
    })
    .unwrap()
    .unwrap();
    assert_eq!(resp.stage, STAGE_COMPLETION);
    assert!(resp.queued, "interim QUEUED frame must set the flag");
    assert_eq!(resp.status, 5, "terminal status comes from COMPLETION");
}

/// A QUEUED interim with no COMPLETION is no outcome; the next command is
/// unaffected.
#[test]
fn queued_without_completion_times_out() {
    let mut seq = CommandSequencer::new();
    let mut reader = LinkReader::new();
    let target = |op: u16, s: u16| {
        if s == 0 {
            staged_ack_packet(op, 0, 0, STAGE_QUEUED)
        } else {
            ack_packet(op, s, 0)
        }
    };
    assert!(exchange(&mut seq, &mut reader, SYS_NOOP, target).is_none());
    let mut wait = AckWait::new(0);
    assert!(matches!(
        wait.on_event(AckEvent::DeadlinePassed),
        Some(Err(ClientError::Timeout))
    ));
    let second = exchange(&mut seq, &mut reader, SYS_NOOP, target).unwrap().unwrap();
    assert_eq!(second.status, 0);
}

/// A target that never ACKs fails that command with Timeout, and the next command
/// (which the target does ACK) succeeds.
#[test]
fn missing_ack_times_out_and_client_recovers() {
    let mut seq = CommandSequencer::new();
    let mut reader = LinkReader::new();
    let target = |op: u16, s: u16| {
        if s == 0 {
            Vec::new() // stay silent on the first command
        } else {
            ack_packet(op, s, 0)
        }
    };
    assert!(exchange(&mut seq, &mut reader, SYS_NOOP, target).is_none());
    let timeout: Result<AckResponse, ClientError> = Err(ClientError::Timeout);
    assert!(!stops_writer(&timeout), "timeout must not tear down the connection");
    let second = exchange(&mut seq, &mut reader, SYS_NOOP, target).unwrap().unwrap();
    assert_eq!(second.status, 0);
    assert_eq!(second.cmd_sequence, 1);
}

/// An ACK that arrives after its command already timed out is discarded by the
/// sequence match instead of being delivered to the next command.
#[test]
fn late_ack_is_discarded_not_misdelivered() {
    let mut seq = CommandSequencer::new();
    let mut reader = LinkReader::new();
    let target = |op: u16, s: u16| {
        if s == 0 {
            Vec::new()
        } else {
            // Deliver the stale seq-0 ACK first, then the real one.
            let mut both = ack_packet(SYS_NOOP, 0, 0);
            both.extend_from_slice(&ack_packet(op, s, 0));
            both
        }
    };
    assert!(exchange(&mut seq, &mut reader, SYS_NOOP, target).is_none());
    let resp = exchange(&mut seq, &mut reader, SYS_NOOP, target).unwrap().unwrap();
    assert_eq!(
        resp.cmd_sequence, 1,
        "second command must get its own ACK, not the stale seq-0 one"
    );
}

/// An ACK whose sequence never matches the in-flight command is not delivered.
#[test]
fn mismatched_seq_ack_is_not_delivered() {
    let mut seq = CommandSequencer::new();
    let mut reader = LinkReader::new();
    assert!(exchange(&mut seq, &mut reader, SYS_NOOP, |op, _| ack_packet(op, 999, 0)).is_none());
}

/// A remote close while a command is in flight yields Closed and drops the
/// connection.
#[test]
fn remote_close_yields_closed_and_disconnects() {
    let mut state = LinkState::new();
    let generation = state.begin();
    state.established();
    assert!(state.connected);
    let mut wait = AckWait::new(0);
    let result = wait.on_event(AckEvent::ReaderGone).unwrap();
    assert!(matches!(result, Err(ClientError::Closed)));
    assert!(stops_writer(&result));
    state.task_ended(generation);
    assert!(!state.connected);
}

/// The end of an earlier connection's task does not disconnect the current one.
#[test]
fn old_tasks_do_not_disconnect() {
    let mut state = LinkState::new();
    let first = state.begin();
    state.established();
    let second = state.begin();
    state.established();
    state.task_ended(first);
    assert!(state.connected);
    state.task_ended(second);
    assert!(!state.connected);
}

/// An upload emits FILE_BEGIN with correct size/chunking/CRC fields, the right
/// number of FILE_CHUNKs in order, and FILE_END.
#[test]
fn upload_file_chunks_and_crc_are_correct() {
    // 10000 bytes -> 3 chunks of 4096/4096/1808
    let data: Vec<u8> = (0..10000u32).map(|i| (i % 251) as u8).collect();
    let mut transfer = FileTransfer::new("test/upload.bin", data.clone());
    let mut seen: Vec<(u16, Vec<u8>)> = Vec::new();
    loop {
        let c = transfer.command();
        seen.push((c.opcode, c.payload));
        if matches!(transfer.on_status(0), Progress::Finished) {
            break;
        }
    }

    let opcodes: Vec<u16> = seen.iter().map(|(o, _)| *o).collect();
    assert_eq!(
        opcodes,
        vec![FILE_BEGIN, FILE_CHUNK, FILE_CHUNK, FILE_CHUNK, FILE_END]
    );

    let begin = &seen[0].1;
    assert_eq!(u32::from_le_bytes(begin[0..4].try_into().unwrap()), 10000);
    assert_eq!(u16::from_le_bytes(begin[4..6].try_into().unwrap()), 4096);
    assert_eq!(u16::from_le_bytes(begin[6..8].try_into().unwrap()), 3);
    assert_eq!(
        u32::from_le_bytes(begin[8..12].try_into().unwrap()),
        crc32c(&data)
    );
    assert!(begin[12..].starts_with(b"test/upload.bin\0"));

    // Chunk indices ascend from 0 and sizes partition the data.
    let chunk_sizes: Vec<usize> = seen[1..4]
        .iter()
        .enumerate()
        .map(|(i, (_, p))| {
            assert_eq!(u16::from_le_bytes(p[0..2].try_into().unwrap()) as usize, i);
            p.len() - 2
        })
        .collect();
    assert_eq!(chunk_sizes, vec![4096, 4096, 1808]);
}

/// crc32c matches the CRC-32C (Castagnoli) check vectors.
#[test]
fn crc32c_known_vectors() {
    assert_eq!(crc32c(b""), 0x0000_0000);
    assert_eq!(crc32c(b"123456789"), 0xE306_9283);
}

/// A refused step ends a transfer.
#[test]
fn refused_uploads_stop() {
    let mut transfer = FileTransfer::new("a", vec![1, 2, 3]);
    assert_eq!(transfer.command().opcode, FILE_BEGIN);
    assert!(matches!(transfer.on_status(2), Progress::Finished));
}

/// A parameter update stages the image and then reloads it.
#[test]
fn parameter_updates_reload_last() {
    let mut update = TprmUpdate::new(0x00D000, vec![1, 2, 3]);
    let mut opcodes = Vec::new();
    loop {
        let c = update.command();
        opcodes.push(c.opcode);
        if c.opcode == OP_RELOAD_TPRM {
            assert_eq!(c.payload, vec![0x00, 0xD0, 0x00, 0x00]);
        }
        if matches!(update.on_status(0), Progress::Finished) {
            break;
        }
    }
    assert_eq!(opcodes, vec![FILE_BEGIN, FILE_CHUNK, FILE_END, OP_RELOAD_TPRM]);
    let mut refused = TprmUpdate::new(0x00D000, vec![1, 2, 3]);
    assert!(matches!(refused.on_status(1), Progress::Finished));
}

fn ack(status: u8) -> AckResponse {
    AckResponse {
        cmd_opcode: 0,
        cmd_sequence: 0,
        status,
        status_name: "X".to_string(),
        stage: STAGE_RESULT,
        queued: false,
        extra: Vec::new(),
    }
}

/// A library swap locks, uploads and reloads; a failure after the lock unlocks and
/// reports the failure.
#[test]
fn library_swaps_release_what_they_lock() {
    let mut swap = LibrarySwap::new(7, "Wave", 1, "bank_b", vec![9]);
    let mut opcodes = Vec::new();
    loop {
        opcodes.push(swap.command().opcode);
        match swap.on_result(Ok(ack(0))) {
            SwapStep::Continue => {}
            SwapStep::Finished(r) => {
                assert_eq!(r.unwrap().status, 0);
                break;
            }
        }
    }
    assert_eq!(opcodes, vec![OP_LOCK, FILE_BEGIN, FILE_CHUNK, FILE_END, OP_RELOAD_LIBRARY]);

    let mut swap = LibrarySwap::new(7, "Wave", 1, "bank_b", vec![9]);
    assert!(matches!(swap.on_result(Ok(ack(0))), SwapStep::Continue));
    assert!(matches!(swap.on_result(Ok(ack(3))), SwapStep::Continue));
    assert_eq!(swap.command().opcode, OP_UNLOCK);
    match swap.on_result(Ok(ack(0))) {
        SwapStep::Finished(Ok(r)) => assert_eq!(r.status, 3),
        _ => panic!("the failure is the result"),
    }

    let mut swap = LibrarySwap::new(7, "Wave", 1, "bank_b", vec![9]);
    match swap.on_result(Ok(ack(4))) {
        SwapStep::Finished(Ok(r)) => assert_eq!(r.status, 4),
        _ => panic!("nothing was locked"),
    }
}

/// Where things go on the target.
#[test]
fn target_paths() {
    assert_eq!(staged_tprm_path(0x00D001), "bank_b/tprm/00d001.tprm");
    assert_eq!(library_path("bank_b", "Wave", 2), "bank_b/libs/Wave_2.so");
    assert_eq!(uid_payload(0x0102_0304), vec![4, 3, 2, 1]);
    assert_eq!(inspect_payload(1, 2, 3, 4), vec![1, 0, 0, 0, 2, 3, 0, 4, 0]);
}

/// Responses are answers, everything else that parses is telemetry.
#[test]
fn frames_are_routed() {
    let mut decoder = slip::Decoder::new();
    let frame = decoder.feed(&ack_packet(1, 2, 3)).remove(0);
    assert!(matches!(route_frame(&frame), Some(Inbound::Ack(_))));
    assert!(route_frame(&[1, 2, 3]).is_none());
}

/// Sequence numbers wrap.
#[test]
fn sequence_numbers_wrap() {
    let mut seq = CommandSequencer::new();
    for i in 0..=u16::MAX {
        assert_eq!(seq.next_seq(), i);
    }
    assert_eq!(seq.next_seq(), 0);
}

/// How outcomes are counted, and what errors say.
#[test]
fn outcomes_and_errors() {
    assert!(matches!(
        outcome_of(&Ok(ack(1)), 5),
        CommandOutcome::Completed { latency_us: 5 }
    ));
    assert!(matches!(
        outcome_of(&Err(ClientError::Timeout), 5),
        CommandOutcome::TimedOut
    ));
    assert!(matches!(
        outcome_of(&Err(ClientError::Closed), 5),
        CommandOutcome::Failed
    ));
    assert_eq!(ClientError::NotConnected.message(), "not connected");
    assert_eq!(ClientError::SendFailed.message(), "send failed");
    assert_eq!(ClientError::Closed.message(), "connection closed");
    assert_eq!(ClientError::Timeout.message(), "command timed out");
    assert_eq!(ClientError::Io("x".to_string()).message(), "I/O error: x");
    assert_eq!(ClientError::Connect("x".to_string()).message(), "connection failed: x");
}

/// An acknowledgement that the reader delivers names its status.
#[test]
fn delivered_acks_name_their_status() {
    let mut reader = LinkReader::new();
    let mut names = Vec::new();
    for status in [0u8, 5, 99] {
        for inbound in reader.feed(&ack_packet(SYS_NOOP, 0, status)) {
            if let Inbound::Ack(ack) = inbound {
                names.push(ack.status_name);
            }
        }
    }
    assert_eq!(names, vec!["SUCCESS", "LOAD_FAILED", "UNKNOWN"]);
}
