//! Batched sample writing: when a batch goes to the database, what becomes of a
//! batch that failed, and which channels have to be looked up first.

use vstd::prelude::*;

use crate::metrics::TargetMetrics;
use crate::telemetry::TelemetrySample;
use crate::text::same_text;

verus! {

/// Samples that make a full batch.
pub const BATCH_SIZE: usize = 50;

/// Least time between two error or lag lines in the log.
pub const LOG_EVERY_MS: u64 = 30_000;

/// Whether a rate-limited line is due.
pub open spec fn line_due(last_ms: Option<u64>, now_ms: u64) -> bool {
    last_ms matches Some(last) ==> now_ms - last >= LOG_EVERY_MS
}

fn due(last_ms: Option<u64>, now_ms: u64) -> (r: bool)
    ensures
        r == line_due(last_ms, now_ms),
{
    match last_ms {
        Some(last) => now_ms >= last && now_ms - last >= LOG_EVERY_MS,
        None => true,
    }
}

/// What a flush has to say.
#[derive(Debug, Clone, Copy, PartialEq, Eq, Structural)]
pub enum FlushReport {
    /// Nothing to log.
    Quiet,
    /// Writes work again; so many batches were dropped meanwhile.
    Recovered(u64),
    /// A batch failed; so many have failed so far.
    Failed(u64),
}

/// One target's writer.
#[derive(Debug)]
pub struct SampleWriter {
    pub batch: Vec<TelemetrySample>,
    /// Batches dropped since the last that was written.
    pub failed_batches: u64,
    pub last_error_log_ms: Option<u64>,
    pub last_lag_log_ms: Option<u64>,
}

impl SampleWriter {
    pub fn new() -> (w: SampleWriter)
        ensures
            w.batch@.len() == 0,
            w.failed_batches == 0,
            w.last_error_log_ms is None,
            w.last_lag_log_ms is None,
    {
        SampleWriter {
            batch: Vec::new(),
            failed_batches: 0,
            last_error_log_ms: None,
            last_lag_log_ms: None,
        }
    }

    /// Takes a sample, and says whether to flush now: with a full batch, or when
    /// no more samples wait.
    pub fn on_sample(&mut self, sample: TelemetrySample, more_waiting: bool) -> (flush: bool)
        ensures
            final(self).batch@ == old(self).batch@.push(sample),
            final(self).failed_batches == old(self).failed_batches,
            final(self).last_error_log_ms == old(self).last_error_log_ms,
            final(self).last_lag_log_ms == old(self).last_lag_log_ms,
            flush == (final(self).batch@.len() >= BATCH_SIZE || !more_waiting),
            !flush ==> final(self).batch@.len() < BATCH_SIZE,
            flush <==> final(self).batch@.len() >= 50 || !more_waiting,
    {
        self.batch.push(sample);
        self.batch.len() >= BATCH_SIZE || !more_waiting
    }

    /// Takes note of `missed` samples that were lost to lag. Says whether to log
    /// it, and whether to flush what there is.
    pub fn on_lag(
        &mut self,
        metrics: &mut TargetMetrics,
        missed: u64,
        more_waiting: bool,
        now_ms: u64,
    ) -> (r: (bool, bool))
        ensures
            final(self).batch@ == old(self).batch@,
            final(self).failed_batches == old(self).failed_batches,
            final(self).last_error_log_ms == old(self).last_error_log_ms,
            *final(metrics) == (TargetMetrics {
                db_writer_lag_drops: old(metrics).db_writer_lag_drops.wrapping_add(missed),
                ..*old(metrics)
            }),
            r.0 == line_due(old(self).last_lag_log_ms, now_ms),
            final(self).last_lag_log_ms == if r.0 {
                Some(now_ms)
            } else {
                old(self).last_lag_log_ms
            },
            r.1 == (old(self).batch@.len() > 0 && !more_waiting),
    {
        metrics.db_writer_lag_drops = metrics.db_writer_lag_drops.wrapping_add(missed);
        let log = due(self.last_lag_log_ms, now_ms);
        if log {
            self.last_lag_log_ms = Some(now_ms);
        }
        (log, self.batch.len() > 0 && !more_waiting)
    }

    /// Takes the outcome of handing the batch to the database, which empties it
    /// either way. A failed batch is dropped but counted, and reported at most
    /// once per interval; the first batch that is written again reports how many
    /// were lost.
    pub fn on_flushed(&mut self, metrics: &mut TargetMetrics, written: bool, now_ms: u64) -> (r:
        FlushReport)
        requires
            old(self).failed_batches < u64::MAX,
        ensures
            final(self).batch@.len() == 0,
            final(self).last_lag_log_ms == old(self).last_lag_log_ms,
            old(self).batch@.len() == 0 ==> {
                &&& r == FlushReport::Quiet
                &&& *final(metrics) == *old(metrics)
                &&& final(self).failed_batches == old(self).failed_batches
                &&& final(self).last_error_log_ms == old(self).last_error_log_ms
            },
            old(self).batch@.len() > 0 && written ==> {
                &&& r == if old(self).failed_batches > 0 {
                    FlushReport::Recovered(old(self).failed_batches)
                } else {
                    FlushReport::Quiet
                }
                &&& final(self).failed_batches == 0
                &&& final(self).last_error_log_ms == if old(self).failed_batches > 0 {
                    None
                } else {
                    old(self).last_error_log_ms
                }
                &&& *final(metrics) == (TargetMetrics {
                    db_written_samples: old(metrics).db_written_samples.wrapping_add(
                        old(self).batch@.len() as u64,
                    ),
                    ..*old(metrics)
                })
            },
            old(self).batch@.len() > 0 && !written ==> {
                let log = line_due(old(self).last_error_log_ms, now_ms);
                &&& final(self).failed_batches == old(self).failed_batches + 1
                &&& r == if log {
                    FlushReport::Failed(final(self).failed_batches)
                } else {
                    FlushReport::Quiet
                }
                &&& final(self).last_error_log_ms == if log {
                    Some(now_ms)
                } else {
                    old(self).last_error_log_ms
                }
                &&& *final(metrics) == (TargetMetrics {
                    db_write_failures: old(metrics).db_write_failures.wrapping_add(1),
                    db_failed_samples: old(metrics).db_failed_samples.wrapping_add(
                        old(self).batch@.len() as u64,
                    ),
                    ..*old(metrics)
                })
            },
    {
        let n: usize = self.batch.len();
        if n == 0 {
            return FlushReport::Quiet;
        }
        let mut report = FlushReport::Quiet;
        if written {
            metrics.db_written_samples = metrics.db_written_samples.wrapping_add(n as u64);
            if self.failed_batches > 0 {
                report = FlushReport::Recovered(self.failed_batches);
                self.failed_batches = 0;
                self.last_error_log_ms = None;
            }
        } else {
            self.failed_batches = self.failed_batches + 1;
            metrics.db_write_failures = metrics.db_write_failures.wrapping_add(1);
            metrics.db_failed_samples = metrics.db_failed_samples.wrapping_add(n as u64);
            if due(self.last_error_log_ms, now_ms) {
                report = FlushReport::Failed(self.failed_batches);
                self.last_error_log_ms = Some(now_ms);
            }
        }
        self.batch = Vec::new();
        report
    }
}

// ---------------------------------------------------------------- channel ids

/// What identifies a channel: its target and its name.
pub struct ChannelKey {
    pub target: Seq<char>,
    pub channel: Seq<char>,
}

/// A channel's row in the dictionary.
#[derive(Debug)]
pub struct ChannelId {
    pub target: String,
    pub channel: String,
    pub id: i64,
}

impl ChannelId {
    pub open spec fn key(self) -> ChannelKey {
        ChannelKey { target: self.target@, channel: self.channel@ }
    }
}

/// A sample's channel.
pub open spec fn key_of(sample: TelemetrySample) -> ChannelKey {
    ChannelKey { target: (*sample.target_id)@, channel: (*sample.channel)@ }
}

/// Whether a list of dictionary rows has a channel.
pub open spec fn knows(known: Seq<ChannelId>, key: ChannelKey) -> bool {
    exists|i: int| 0 <= i < known.len() && (#[trigger] known[i]).key() == key
}

/// Whether a sample is the first of its batch on a channel that is not known.
pub open spec fn first_unknown(
    known: Seq<ChannelId>,
    samples: Seq<TelemetrySample>,
    i: int,
) -> bool {
    &&& !knows(known, key_of(samples[i]))
    &&& forall|j: int| 0 <= j < i ==> key_of(#[trigger] samples[j]) != key_of(samples[i])
}

/// Dictionary rows that were seen committed.
#[derive(Debug)]
pub struct ChannelIds {
    pub known: Vec<ChannelId>,
}

impl ChannelIds {
    pub fn new() -> (r: ChannelIds)
        ensures
            r.known@.len() == 0,
    {
        ChannelIds { known: Vec::new() }
    }

    /// A channel's row id.
    pub fn get(&self, target: &str, channel: &str) -> (r: Option<i64>)
        ensures
            r is Some <==> knows(self.known@, ChannelKey { target: target@, channel: channel@ }),
            r matches Some(id) ==> exists|i: int|
                0 <= i < self.known@.len() && (#[trigger] self.known@[i]).id == id
                    && self.known@[i].key() == (ChannelKey { target: target@, channel: channel@ })
                    && forall|j: int|
                    0 <= j < i ==> (#[trigger] self.known@[j]).key() != self.known@[i].key(),
    {
        for i in 0..self.known.len()
            invariant
                forall|j: int|
                    0 <= j < i ==> (#[trigger] self.known@[j]).key() != (ChannelKey {
                        target: target@,
                        channel: channel@,
                    }),
        {
            let row = &self.known[i];
            if same_text(row.target.as_str(), target) && same_text(row.channel.as_str(), channel) {
                assert(self.known@[i as int].key() == (ChannelKey {
                    target: target@,
                    channel: channel@,
                }));
                return Some(row.id);
            }
        }
        None
    }

    /// The samples of a batch whose channels have to be resolved first: for each
    /// channel that is not known, the first sample on it.
    pub fn unresolved(&self, samples: &Vec<TelemetrySample>) -> (out: Vec<usize>)
        ensures
            forall|k: int|
                0 <= k < out@.len() ==> 0 <= #[trigger] out@[k] < samples@.len() && first_unknown(
                    self.known@,
                    samples@,
                    out@[k] as int,
                ),
            forall|i: int|
                0 <= i < samples@.len() && #[trigger] first_unknown(self.known@, samples@, i)
                    ==> out@.contains(i as usize),
            forall|a: int, b: int|
                0 <= a < b < out@.len() ==> #[trigger] out@[a] < #[trigger] out@[b],
    {
        let mut out: Vec<usize> = Vec::new();
        for i in 0..samples.len()
            invariant
                forall|k: int|
                    0 <= k < out@.len() ==> 0 <= #[trigger] out@[k] < i && first_unknown(
                        self.known@,
                        samples@,
                        out@[k] as int,
                    ),
                forall|j: int|
                    0 <= j < i && #[trigger] first_unknown(self.known@, samples@, j)
                        ==> out@.contains(j as usize),
                forall|a: int, b: int|
                    0 <= a < b < out@.len() ==> #[trigger] out@[a] < #[trigger] out@[b],
        {
            let s = &samples[i];
            let mut fresh = self.get(s.target_id.as_str(), s.channel.as_str()).is_none();
            let mut j: usize = 0;
            let ghost unknown = fresh;
            while fresh && j < i
                invariant
                    i < samples@.len(),
                    j <= i,
                    *s == samples@[i as int],
                    fresh ==> unknown,
                    fresh ==> forall|k: int|
                        0 <= k < j ==> key_of(#[trigger] samples@[k]) != key_of(
                            samples@[i as int],
                        ),
                    unknown && !fresh ==> exists|k: int|
                        0 <= k < i && key_of(#[trigger] samples@[k]) == key_of(
                            samples@[i as int],
                        ),
                decreases i - j,
            {
                let other = &samples[j];
                if same_text(other.target_id.as_str(), s.target_id.as_str()) && same_text(
                    other.channel.as_str(),
                    s.channel.as_str(),
                ) {
                    assert(key_of(samples@[j as int]) == key_of(samples@[i as int]));
                    fresh = false;
                }
                j = j + 1;
            }
            assert(fresh == first_unknown(self.known@, samples@, i as int));
            let ghost before = out@;
            if fresh {
                out.push(i);
                assert(out@[before.len() as int] == i);
            }
            assert forall|j: int|
                0 <= j < i + 1 && #[trigger] first_unknown(
                    self.known@,
                    samples@,
                    j,
                ) implies out@.contains(j as usize) by {
                if j < i {
                    let k = choose|k: int| 0 <= k < before.len() && before[k] == j as usize;
                    assert(out@[k] == j as usize);
                }
            }
        }
        out
    }

    /// Remembers rows once the transaction that made them is committed. Before
    /// that nothing is remembered, so a batch that is rolled back leaves no row
    /// id behind that is not in the database.
    pub fn commit(&mut self, fresh: Vec<ChannelId>)
        ensures
            final(self).known@ == old(self).known@ + fresh@,
    {
        let mut rest = fresh;
        self.known.append(&mut rest);
    }
}

/// Once rows for the channels that a batch lacked are committed, every sample of
/// the batch has a row.
pub proof fn commit_resolves_the_batch(
    known: Seq<ChannelId>,
    samples: Seq<TelemetrySample>,
    fresh: Seq<ChannelId>,
    i: int,
)
    requires
        0 <= i < samples.len(),
        forall|j: int|
            0 <= j < samples.len() && #[trigger] first_unknown(known, samples, j) ==> knows(
                fresh,
                key_of(samples[j]),
            ),
    ensures
        knows(known + fresh, key_of(samples[i])),
    decreases i,
{
    let key = key_of(samples[i]);
    if knows(known, key) {
        let k = choose|k: int| 0 <= k < known.len() && (#[trigger] known[k]).key() == key;
        assert((known + fresh)[k].key() == key);
    } else if first_unknown(known, samples, i) {
        let k = choose|k: int| 0 <= k < fresh.len() && (#[trigger] fresh[k]).key() == key;
        assert((known + fresh)[known.len() + k].key() == key);
    } else {
        let j = choose|j: int| 0 <= j < i && key_of(#[trigger] samples[j]) == key;
        commit_resolves_the_batch(known, samples, fresh, j);
    }
}

/// Every sample of a flushed batch is accounted for: the samples written and the
/// samples lost grow by the batch together, and by nothing else.
pub proof fn flushes_account_for_every_sample(
    before: TargetMetrics,
    after: TargetMetrics,
    n: u64,
    written: bool,
)
    requires
        before.db_written_samples + n <= u64::MAX,
        before.db_failed_samples + n <= u64::MAX,
        written ==> after == (TargetMetrics {
            db_written_samples: before.db_written_samples.wrapping_add(n),
            ..before
        }),
        !written ==> after == (TargetMetrics {
            db_write_failures: before.db_write_failures.wrapping_add(1),
            db_failed_samples: before.db_failed_samples.wrapping_add(n),
            ..before
        }),
    ensures
        after.db_written_samples + after.db_failed_samples == before.db_written_samples
            + before.db_failed_samples + n,
{
}

/// A line is due when there was none yet, or the last one is half a minute ago or more.
pub proof fn lines_keep_half_a_minute(last_ms: u64, now_ms: u64)
    ensures
        line_due(None, now_ms),
        line_due(Some(last_ms), now_ms) <==> last_ms + 30_000 <= now_ms,
{
}

} // verus!
