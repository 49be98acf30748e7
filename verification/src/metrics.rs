//! Per-target pipeline counters.
//!
//! Every stage of the telemetry pipeline that can drop data or fail does so
//! through a counter here instead of silently. Counters wrap at 64 bits.

use vstd::prelude::*;

verus! {

/// Counters of one target's pipeline.
#[derive(Debug, Clone, Copy, PartialEq, Eq, Structural)]
pub struct TargetMetrics {
    /// Samples produced by the decoder (post-decode, pre-dedup).
    pub decoded_samples: u64,
    /// Samples dropped by the per-channel min-interval dedup.
    pub dedup_drops: u64,
    /// Push packets missed by the router (broadcast lag).
    pub router_lag_drops: u64,
    /// Samples missed by the DB writer (broadcast lag).
    pub db_writer_lag_drops: u64,
    /// Samples committed to the DB.
    pub db_written_samples: u64,
    /// Batches that failed to insert.
    pub db_write_failures: u64,
    /// Samples lost inside failed batches.
    pub db_failed_samples: u64,
    /// Samples missed by WebSocket subscribers (broadcast lag, summed over
    /// all clients).
    pub ws_lag_drops: u64,
    /// Currently connected WebSocket subscribers.
    pub ws_clients: u64,
    /// Commands written to the target.
    pub commands_sent: u64,
    /// Commands that failed (send failure, closed, or error response path;
    /// timeouts are counted separately below as well as here).
    pub command_errors: u64,
    /// Commands that timed out awaiting their ACK.
    pub command_timeouts: u64,
    /// Sum of round-trip latency over successful commands, microseconds.
    pub command_latency_us_total: u64,
    /// Wall-clock ms timestamp of the most recent decoded sample (0 = never).
    pub last_sample_ms: u64,
}

/// How a command round trip ended. A NAK is still a completed round trip; only
/// transport failures are errors.
#[derive(Debug, Clone, Copy, PartialEq, Eq, Structural)]
pub enum CommandOutcome {
    Completed { latency_us: u64 },
    TimedOut,
    Failed,
}

/// Point-in-time view of the counters with the derived values.
#[derive(Debug, Clone, Copy, PartialEq, Eq, Structural)]
pub struct MetricsSnapshot {
    pub counters: TargetMetrics,
    /// Average latency over successful commands, 0 when there were none.
    pub command_latency_avg_us: u64,
    /// Age of the most recent sample, None until one was seen.
    pub last_sample_age_ms: Option<u64>,
}

/// How many commands succeeded.
pub open spec fn succeeded(m: TargetMetrics) -> nat {
    if m.commands_sent >= m.command_errors {
        (m.commands_sent - m.command_errors) as nat
    } else {
        0
    }
}

/// Average latency over the commands that succeeded.
pub open spec fn average_latency(m: TargetMetrics) -> u64 {
    if succeeded(m) == 0 {
        0
    } else {
        (m.command_latency_us_total / succeeded(m) as u64) as u64
    }
}

/// Age of a timestamp, where 0 stands for "never".
pub open spec fn age_of(last_ms: u64, now_ms: u64) -> Option<u64> {
    if last_ms == 0 {
        None
    } else if now_ms >= last_ms {
        Some((now_ms - last_ms) as u64)
    } else {
        Some(0)
    }
}

/// Age of a timestamp, where 0 stands for "never".
pub fn sample_age(last_ms: u64, now_ms: u64) -> (r: Option<u64>)
    ensures
        r == age_of(last_ms, now_ms),
{
    if last_ms > 0 {
        Some(now_ms.saturating_sub(last_ms))
    } else {
        None
    }
}

impl TargetMetrics {
    /// All counters at zero.
    pub fn new() -> (m: Self)
        ensures
            m == (TargetMetrics {
                decoded_samples: 0,
                dedup_drops: 0,
                router_lag_drops: 0,
                db_writer_lag_drops: 0,
                db_written_samples: 0,
                db_write_failures: 0,
                db_failed_samples: 0,
                ws_lag_drops: 0,
                ws_clients: 0,
                commands_sent: 0,
                command_errors: 0,
                command_timeouts: 0,
                command_latency_us_total: 0,
                last_sample_ms: 0,
            }),
    {
        TargetMetrics {
            decoded_samples: 0,
            dedup_drops: 0,
            router_lag_drops: 0,
            db_writer_lag_drops: 0,
            db_written_samples: 0,
            db_write_failures: 0,
            db_failed_samples: 0,
            ws_lag_drops: 0,
            ws_clients: 0,
            commands_sent: 0,
            command_errors: 0,
            command_timeouts: 0,
            command_latency_us_total: 0,
            last_sample_ms: 0,
        }
    }

    /// The counters after one command round trip.
    pub open spec fn after_command(self, outcome: CommandOutcome) -> TargetMetrics {
        let sent = TargetMetrics { commands_sent: wrapped(self.commands_sent + 1), ..self };
        match outcome {
            CommandOutcome::Completed { latency_us } => TargetMetrics {
                command_latency_us_total: wrapped(self.command_latency_us_total + latency_us),
                ..sent
            },
            CommandOutcome::TimedOut => TargetMetrics {
                command_errors: wrapped(self.command_errors + 1),
                command_timeouts: wrapped(self.command_timeouts + 1),
                ..sent
            },
            CommandOutcome::Failed => TargetMetrics {
                command_errors: wrapped(self.command_errors + 1),
                ..sent
            },
        }
    }

    /// Account one command round trip.
    pub fn record_command(&mut self, outcome: CommandOutcome)
        ensures
            *final(self) == old(self).after_command(outcome),
    {
        self.commands_sent = self.commands_sent.wrapping_add(1);
        match outcome {
            CommandOutcome::Completed { latency_us } => {
                self.command_latency_us_total =
                self.command_latency_us_total.wrapping_add(latency_us);
            },
            CommandOutcome::TimedOut => {
                self.command_errors = self.command_errors.wrapping_add(1);
                self.command_timeouts = self.command_timeouts.wrapping_add(1);
            },
            CommandOutcome::Failed => {
                self.command_errors = self.command_errors.wrapping_add(1);
            },
        }
    }

    /// Point-in-time snapshot. `now_ms` supplies the reference for the age of
    /// the last sample so callers control the clock.
    pub fn snapshot(&self, now_ms: u64) -> (s: MetricsSnapshot)
        ensures
            s.counters == *self,
            s.command_latency_avg_us == average_latency(*self),
            s.last_sample_age_ms == age_of(self.last_sample_ms, now_ms),
    {
        let ok: u64 = self.commands_sent.saturating_sub(self.command_errors);
        let avg: u64 = if ok == 0 {
            0
        } else {
            self.command_latency_us_total / ok
        };
        MetricsSnapshot {
            counters: *self,
            command_latency_avg_us: avg,
            last_sample_age_ms: sample_age(self.last_sample_ms, now_ms),
        }
    }
}

/// A counter value reduced to 64 bits.
pub open spec fn wrapped(v: int) -> u64 {
    if v > u64::MAX {
        (v - u64::MAX - 1) as u64
    } else {
        v as u64
    }
}

impl Default for TargetMetrics {
    fn default() -> (m: Self)
        ensures
            m == (TargetMetrics {
                decoded_samples: 0,
                dedup_drops: 0,
                router_lag_drops: 0,
                db_writer_lag_drops: 0,
                db_written_samples: 0,
                db_write_failures: 0,
                db_failed_samples: 0,
                ws_lag_drops: 0,
                ws_clients: 0,
                commands_sent: 0,
                command_errors: 0,
                command_timeouts: 0,
                command_latency_us_total: 0,
                last_sample_ms: 0,
            }),
    {
        TargetMetrics::new()
    }
}

/// Command accounting stays consistent: timeouts are among the errors and
/// errors among the commands sent, as long as the counters do not wrap; and a
/// completed round trip, NAK or not, is never an error.
pub proof fn command_accounting_is_consistent(m: TargetMetrics, outcome: CommandOutcome)
    requires
        m.command_timeouts <= m.command_errors <= m.commands_sent < u64::MAX,
    ensures
        ({
            let n = m.after_command(outcome);
            &&& n.command_timeouts <= n.command_errors <= n.commands_sent
            &&& n.commands_sent == m.commands_sent + 1
            &&& outcome is Completed ==> succeeded(n) == succeeded(m) + 1
            &&& !(outcome is Completed) ==> succeeded(n) == succeeded(m)
        }),
{
}

/// The average is the total over the commands that succeeded, rounded down; without any
/// it is zero.
pub proof fn averages_are_over_successes(m: TargetMetrics)
    ensures
        ({
            let ok = m.commands_sent - m.command_errors;
            let avg = average_latency(m) as int;
            &&& ok <= 0 ==> avg == 0
            &&& ok > 0 ==> avg * ok <= m.command_latency_us_total < (avg + 1) * ok
        }),
{
    let ok = m.commands_sent - m.command_errors;
    if ok > 0 {
        let total = m.command_latency_us_total as int;
        let avg = average_latency(m) as int;
        assert(avg == total / ok);
        assert(avg * ok <= total < (avg + 1) * ok) by (nonlinear_arith)
            requires
                avg == total / ok,
                ok > 0,
                total >= 0,
        ;
    }
}

/// A round trip changes the command counters and nothing else: every one counts as sent,
/// a completed one adds its latency, a failed one is an error, and one that timed out is
/// an error and a timeout.
pub proof fn round_trips_are_counted(m: TargetMetrics, outcome: CommandOutcome)
    requires
        m.commands_sent < u64::MAX,
        m.command_errors < u64::MAX,
        m.command_timeouts < u64::MAX,
        outcome matches CommandOutcome::Completed { latency_us } ==> m.command_latency_us_total
            + latency_us <= u64::MAX,
    ensures
        ({
            let n = m.after_command(outcome);
            &&& n.commands_sent == m.commands_sent + 1
            &&& n.command_errors - m.command_errors == (if outcome is Completed {
                0int
            } else {
                1
            })
            &&& n.command_timeouts - m.command_timeouts == (if outcome is TimedOut {
                1int
            } else {
                0
            })
            &&& n.command_latency_us_total - m.command_latency_us_total == (match outcome {
                CommandOutcome::Completed { latency_us } => latency_us as int,
                _ => 0,
            })
            &&& n == (TargetMetrics {
                commands_sent: n.commands_sent,
                command_errors: n.command_errors,
                command_timeouts: n.command_timeouts,
                command_latency_us_total: n.command_latency_us_total,
                ..m
            })
        }),
{
}

/// A sample is as old as the time that has passed since it, never younger than nothing;
/// without a sample there is no age.
pub proof fn ages_are_the_time_since(last_ms: u64, now_ms: u64)
    ensures
        age_of(0, now_ms) is None,
        last_ms > 0 && last_ms <= now_ms ==> (age_of(last_ms, now_ms) matches Some(age) && last_ms
            + age == now_ms),
        last_ms > now_ms ==> age_of(last_ms, now_ms) == Some(0u64),
{
}

/// Counters wrap at 64 bits: what they hold is the count modulo two to the 64th.
pub proof fn counters_wrap(v: int)
    requires
        0 <= v < 2 * 0x1_0000_0000_0000_0000,
    ensures
        wrapped(v) == v % 0x1_0000_0000_0000_0000,
{
}

} // verus!
