use zenith::metrics::{sample_age, CommandOutcome, TargetMetrics};

/// A snapshot reports raw counters, derives average command latency over
/// successful commands only, and reports no sample age until a sample has been
/// seen.
#[test]
fn snapshot_derives_average_and_age() {
    let mut m = TargetMetrics::new();
    assert_eq!(m.snapshot(10_000).last_sample_age_ms, None);

    m.commands_sent = 4;
    m.command_errors = 1;
    m.command_latency_us_total = 3000;
    m.last_sample_ms = 9_000;

    let snap = m.snapshot(10_000);
    assert_eq!(snap.command_latency_avg_us, 1000); // 3000us / 3 ok
    assert_eq!(snap.last_sample_age_ms, Some(1000));
    assert_eq!(snap.counters.commands_sent, 4);
}

/// Every command is counted once; only the ones that were answered count toward
/// the latency.
#[test]
fn commands_are_accounted_for() {
    let mut m = TargetMetrics::new();
    m.record_command(CommandOutcome::Completed { latency_us: 100 });
    m.record_command(CommandOutcome::Completed { latency_us: 300 });
    m.record_command(CommandOutcome::TimedOut);
    m.record_command(CommandOutcome::Failed);
    assert_eq!(m.commands_sent, 4);
    assert_eq!(m.command_errors, 2);
    assert_eq!(m.command_timeouts, 1);
    assert_eq!(m.snapshot(0).command_latency_avg_us, 200);
}

/// No commands, no average; a sample from the future has no age.
#[test]
fn snapshots_of_nothing() {
    assert_eq!(TargetMetrics::new().snapshot(5).command_latency_avg_us, 0);
    assert_eq!(sample_age(0, 5), None);
    assert_eq!(sample_age(9, 5), Some(0));
}

/// Every counter starts at zero, however it is made.
#[test]
fn default_counters_are_zero() {
    assert_eq!(TargetMetrics::default(), TargetMetrics::new());
    assert_eq!(TargetMetrics::default().command_latency_us_total, 0);
}
