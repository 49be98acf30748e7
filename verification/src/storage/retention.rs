//! Retention: how large the database may grow, what a maintenance tick evicts
//! and which window of history each step of the tier ladder rewrites.

use vstd::prelude::*;

use crate::config::{FifoStrategy, TiersSection};
use crate::storage::telemetry_db::{
    allocate_evictions, evictions, named_counts, total, COARSE_TIER, DownsampleResult, GlobalStats,
    MID_TIER, TargetStats, TierPassResult,
};
use crate::telemetry::Envelope;

verus! {

/// Rows above which the file-size/row-count ratio is a better bytes/sample
/// estimate than the measured baseline.
pub const LIVE_AVG_MIN_ROWS: u64 = 10_000;

/// Measured per-row footprint of the dictionary schema.
pub const BASELINE_BYTES_PER_SAMPLE: u64 = 76;

/// Size cap when none is configured, and the bounds any configured one is held
/// to, in megabytes.
pub const DEFAULT_CAP_MB: u32 = 2048;

pub const MIN_CAP_MB: u32 = 256;

pub const MAX_CAP_MB: u32 = 102_400;

/// Source data one scheduled ladder step may cover.
pub const LADDER_SLICE_MS: u64 = 600_000;

/// Source data one operator-triggered downsample step may cover.
pub const DOWNSAMPLE_SLICE_MS: u64 = 3_600_000;

/// Rows an eviction takes at least.
pub const MIN_EVICTION: u64 = 100;

// ------------------------------------------------------------------- ages

/// Timestamp below which rows are older than an age.
pub fn cutoff(now_ms: u64, age_ms: u64) -> (r: u64)
    ensures
        r == if now_ms >= age_ms {
            now_ms - age_ms
        } else {
            0
        },
{
    now_ms.saturating_sub(age_ms)
}

/// Retention period of samples.
pub fn retention_ms(retention_hours: u32) -> (r: u64)
    ensures
        r == retention_hours * 3_600_000,
{
    retention_hours as u64 * 3_600_000
}

/// Timestamp below which audit rows are pruned. Zero days keeps them forever.
pub fn audit_cutoff(now_ms: u64, audit_retention_days: u32) -> (r: Option<u64>)
    ensures
        r is None <==> audit_retention_days == 0,
        r matches Some(at) ==> at == if now_ms >= audit_retention_days * 86_400_000 {
            now_ms - audit_retention_days * 86_400_000
        } else {
            0
        },
{
    if audit_retention_days > 0 {
        Some(cutoff(now_ms, audit_retention_days as u64 * 86_400_000))
    } else {
        None
    }
}

// --------------------------------------------------------------- size cap

/// Size cap in bytes.
pub open spec fn cap(max_db_size_mb: Option<u32>) -> int {
    let mb = match max_db_size_mb {
        Some(mb) => mb,
        None => DEFAULT_CAP_MB,
    };
    (if mb < MIN_CAP_MB {
        MIN_CAP_MB
    } else if mb > MAX_CAP_MB {
        MAX_CAP_MB
    } else {
        mb
    }) * 1_048_576
}

/// Size cap in bytes for a configured cap in megabytes.
pub fn cap_bytes(max_db_size_mb: Option<u32>) -> (r: u64)
    ensures
        r == cap(max_db_size_mb),
        256 * 1_048_576 <= r <= 102_400 * 1_048_576,
{
    let asked: u32 = match max_db_size_mb {
        Some(mb) => mb,
        None => DEFAULT_CAP_MB,
    };
    let mb: u32 = if asked < MIN_CAP_MB {
        MIN_CAP_MB
    } else if asked > MAX_CAP_MB {
        MAX_CAP_MB
    } else {
        asked
    };
    mb as u64 * 1024 * 1024
}

/// Average bytes a sample takes, at least one.
pub open spec fn bytes_per_sample(stats: GlobalStats) -> int {
    let avg = stats.db_size_bytes as int / stats.total_samples as int;
    if avg < 1 {
        1
    } else {
        avg
    }
}

/// How many samples account for the bytes over the cap.
pub open spec fn samples_over(stats: GlobalStats, cap_bytes: u64) -> int {
    (stats.db_size_bytes - cap_bytes) / bytes_per_sample(stats)
}

/// How many of the oldest samples have to go for the database to get back under
/// its cap: a fifth more than the average size asks for, to cover index
/// overhead, and a hundred at least. None while it is under the cap or empty.
pub fn eviction_volume(stats: &GlobalStats, cap_bytes: u64) -> (r: Option<u64>)
    requires
        stats.db_size_bytes > cap_bytes && stats.total_samples > 0 ==> samples_over(
            *stats,
            cap_bytes,
        ) * 6 <= u64::MAX,
    ensures
        r is Some <==> stats.db_size_bytes > cap_bytes && stats.total_samples > 0,
        r matches Some(n) ==> ({
            let wanted = samples_over(*stats, cap_bytes) * 6 / 5;
            n == if wanted < MIN_EVICTION {
                MIN_EVICTION as int
            } else {
                wanted
            }
        }),
        r matches Some(n) ==> n >= 100,
{
    if stats.db_size_bytes > cap_bytes && stats.total_samples > 0 {
        let over: u64 = stats.db_size_bytes - cap_bytes;
        let avg: u64 = stats.db_size_bytes / stats.total_samples;
        let per_sample: u64 = if avg < 1 {
            1
        } else {
            avg
        };
        let wanted: u64 = (over / per_sample) * 6 / 5;
        if wanted < MIN_EVICTION {
            Some(MIN_EVICTION)
        } else {
            Some(wanted)
        }
    } else {
        None
    }
}

/// An eviction covers the bytes over the cap, as far as an average sample
/// measures them: what it deletes is worth at least all of them but a sample's
/// share.
pub proof fn evictions_cover_the_overrun(stats: GlobalStats, cap_bytes: u64, volume: int)
    requires
        stats.db_size_bytes > cap_bytes,
        stats.total_samples > 0,
        volume >= samples_over(stats, cap_bytes) * 6 / 5,
    ensures
        (volume + 1) * bytes_per_sample(stats) > stats.db_size_bytes - cap_bytes,
{
    let over = stats.db_size_bytes - cap_bytes;
    let per = bytes_per_sample(stats);
    let q = over / per;
    vstd::arithmetic::div_mod::lemma_fundamental_div_mod(over, per);
    vstd::arithmetic::div_mod::lemma_mod_bound(over, per);
    vstd::arithmetic::div_mod::lemma_div_pos_is_pos(over, per);
    assert(volume >= q);
    assert((volume + 1) * per >= (q + 1) * per) by (nonlinear_arith)
        requires
            volume >= q,
            per > 0,
    ;
    assert((q + 1) * per == per * q + per) by (nonlinear_arith);
}

/// Which rows an eviction takes.
#[derive(Debug)]
pub enum EvictionPlan {
    /// So many of each target's oldest.
    PerTarget(Vec<(String, u64)>),
    /// So many of the oldest, whoever has them.
    Oldest(u64),
}

/// Which rows an eviction of `volume` samples takes. The fair strategy falls back
/// to the oldest rows of all when the targets' counts are not to be had.
pub fn eviction_plan(
    strategy: FifoStrategy,
    counts: Option<&Vec<(String, u64)>>,
    volume: u64,
) -> (r: EvictionPlan)
    requires
        counts matches Some(c) ==> total(named_counts(c@)) <= u64::MAX,
    ensures
        match (strategy, counts) {
            (FifoStrategy::Fair, Some(c)) => r matches EvictionPlan::PerTarget(split)
                && named_counts(split@) == evictions(named_counts(c@), volume as nat),
            _ => r == EvictionPlan::Oldest(volume),
        },
{
    match strategy {
        FifoStrategy::Fair => match counts {
            Some(c) => EvictionPlan::PerTarget(allocate_evictions(c.as_slice(), volume)),
            None => EvictionPlan::Oldest(volume),
        },
        FifoStrategy::Global => EvictionPlan::Oldest(volume),
    }
}

/// How many samples a trim deletes: what was asked for, or a quarter of the
/// target's samples and one at least.
pub fn trim_count(asked: Option<u64>, sample_count: u64) -> (r: u64)
    ensures
        r == match asked {
            Some(n) if n > 0 => n as int,
            _ => if sample_count / 4 < 1 {
                1int
            } else {
                sample_count as int / 4
            },
        },
        r > 0,
{
    match asked {
        Some(n) => if n > 0 {
            return n;
        },
        None => {},
    }
    if sample_count / 4 < 1 {
        1
    } else {
        sample_count / 4
    }
}

// ------------------------------------------------------------------ vitals

/// Storage pressure measured by the maintenance loop.
#[derive(Debug, Clone, Copy)]
pub struct StorageVitals {
    pub cap_bytes: u64,
    /// Retention-ladder config, echoed to the storage panel.
    pub tiers: TiersSection,
    /// Net file growth per minute; evictions and vacuums shrink the file.
    pub fill_bytes_per_min: i64,
    /// File size at the previous tick; 0 means that there was none yet.
    pub last_size: u64,
    /// Rows removed by the size-cap FIFO since boot.
    pub fifo_evicted_samples: u64,
    /// Rows removed by time-based retention since boot.
    pub retention_pruned_samples: u64,
    /// Source rows the ladder has converted to envelope buckets since boot.
    pub tiered_source_rows: u64,
    /// Rows per age band as of the last tick: full resolution, mid horizon, older.
    pub tier_band_rows: (u64, u64, u64),
}

impl StorageVitals {
    pub fn new(cap_bytes: u64, tiers: TiersSection) -> (r: StorageVitals)
        ensures
            r == (StorageVitals {
                cap_bytes,
                tiers,
                fill_bytes_per_min: 0,
                last_size: 0,
                fifo_evicted_samples: 0,
                retention_pruned_samples: 0,
                tiered_source_rows: 0,
                tier_band_rows: (0, 0, 0),
            }),
    {
        StorageVitals {
            cap_bytes,
            tiers,
            fill_bytes_per_min: 0,
            last_size: 0,
            fifo_evicted_samples: 0,
            retention_pruned_samples: 0,
            tiered_source_rows: 0,
            tier_band_rows: (0, 0, 0),
        }
    }

    /// Takes a tick's file size. Ticks are a minute apart, so the difference to
    /// the last one is the growth per minute; the first tick has none.
    pub fn measure(&mut self, size_now: u64)
        requires
            size_now <= i64::MAX,
            old(self).last_size <= i64::MAX,
        ensures
            *final(self) == (StorageVitals {
                last_size: size_now,
                fill_bytes_per_min: if old(self).last_size > 0 {
                    (size_now - old(self).last_size) as i64
                } else {
                    old(self).fill_bytes_per_min
                },
                ..*old(self)
            }),
    {
        let prev: u64 = self.last_size;
        self.last_size = size_now;
        if prev > 0 {
            self.fill_bytes_per_min = size_now as i64 - prev as i64;
        }
    }

    /// Seconds until the database reaches its cap at the measured growth. None
    /// when it does not grow, or is there already.
    pub fn projected_secs_to_cap(&self, size_bytes: u64) -> (r: Option<u64>)
        requires
            (self.cap_bytes - size_bytes) * 60 <= u64::MAX,
        ensures
            r is Some <==> self.fill_bytes_per_min > 0 && size_bytes < self.cap_bytes,
            r matches Some(secs) ==> secs == (self.cap_bytes - size_bytes) * 60
                / self.fill_bytes_per_min as int,
    {
        if self.fill_bytes_per_min > 0 && size_bytes < self.cap_bytes {
            Some((self.cap_bytes - size_bytes) * 60 / self.fill_bytes_per_min as u64)
        } else {
            None
        }
    }
}

// ------------------------------------------------------------------- ladder

/// One step of the retention ladder: rows below `tier` older than `cutoff_ms`
/// become envelope buckets `bucket_ms` wide.
#[derive(Debug, Clone, Copy, PartialEq, Eq, Structural)]
pub struct LadderStep {
    pub tier: u32,
    pub cutoff_ms: u64,
    pub bucket_ms: u64,
}

/// An age band: rows from `start_ms` up to, not including, `end_ms`.
#[derive(Debug, Clone, Copy, PartialEq, Eq, Structural)]
pub struct AgeBand {
    pub start_ms: u64,
    pub end_ms: u64,
}

/// What a maintenance tick does to the ladder.
#[derive(Debug, Clone, Copy)]
pub struct LadderPlan {
    pub mid: LadderStep,
    pub coarse: LadderStep,
    pub bands: (AgeBand, AgeBand, AgeBand),
}

/// Where an age begins, in the past of `now_ms`.
pub open spec fn before(now_ms: u64, age_ms: int) -> int {
    if now_ms >= age_ms {
        now_ms - age_ms
    } else {
        0
    }
}

/// The steps of a tick, or none when the ladder is off.
pub fn ladder_plan(tiers: &TiersSection, now_ms: u64) -> (r: Option<LadderPlan>)
    ensures
        r is Some <==> tiers.enabled,
        r matches Some(plan) ==> {
            let full = before(now_ms, tiers.full_resolution_minutes * 60_000);
            let mid = before(now_ms, tiers.mid_horizon_hours * 3_600_000);
            &&& plan.mid.tier == MID_TIER
            &&& plan.mid.cutoff_ms == full
            &&& plan.mid.bucket_ms == tiers.mid_bucket_seconds * 1000
            &&& plan.coarse.tier == COARSE_TIER
            &&& plan.coarse.cutoff_ms == mid
            &&& plan.coarse.bucket_ms == tiers.coarse_bucket_seconds * 1000
            &&& plan.bands.0.start_ms == full
            &&& plan.bands.0.end_ms == i64::MAX
            &&& plan.bands.1.start_ms == mid
            &&& plan.bands.1.end_ms == full
            &&& plan.bands.2.start_ms == 0
            &&& plan.bands.2.end_ms == mid
        },
{
    if !tiers.enabled {
        return None;
    }
    let full: u64 = cutoff(now_ms, tiers.full_resolution_minutes as u64 * 60_000);
    let mid: u64 = cutoff(now_ms, tiers.mid_horizon_hours as u64 * 3_600_000);
    Some(
        LadderPlan {
            mid: LadderStep {
                tier: MID_TIER,
                cutoff_ms: full,
                bucket_ms: tiers.mid_bucket_seconds as u64 * 1000,
            },
            coarse: LadderStep {
                tier: COARSE_TIER,
                cutoff_ms: mid,
                bucket_ms: tiers.coarse_bucket_seconds as u64 * 1000,
            },
            bands: (
                AgeBand { start_ms: full, end_ms: i64::MAX as u64 },
                AgeBand { start_ms: mid, end_ms: full },
                AgeBand { start_ms: 0, end_ms: mid },
            ),
        },
    )
}

/// When the mid horizon lies behind the full-resolution window, the age bands
/// cover every timestamp exactly once.
pub proof fn bands_partition_history(tiers: TiersSection, now_ms: u64, plan: LadderPlan, ts: u64)
    requires
        tiers.full_resolution_minutes * 60_000 <= tiers.mid_horizon_hours * 3_600_000,
        plan.bands.0.start_ms == before(now_ms, tiers.full_resolution_minutes * 60_000),
        plan.bands.0.end_ms == i64::MAX,
        plan.bands.1.start_ms == before(now_ms, tiers.mid_horizon_hours * 3_600_000),
        plan.bands.1.end_ms == plan.bands.0.start_ms,
        plan.bands.2.start_ms == 0,
        plan.bands.2.end_ms == plan.bands.1.start_ms,
        ts < i64::MAX,
    ensures
        ({
            let a = plan.bands.0.start_ms <= ts < plan.bands.0.end_ms;
            let b = plan.bands.1.start_ms <= ts < plan.bands.1.end_ms;
            let c = plan.bands.2.start_ms <= ts < plan.bands.2.end_ms;
            (a && !b && !c) || (!a && b && !c) || (!a && !b && c)
        }),
{
}

/// The window of source rows that one pass rewrites.
#[derive(Debug, Clone, Copy, PartialEq, Eq, Structural)]
pub struct TierWindow {
    /// Bucket width in effect, at least one millisecond.
    pub bucket: u64,
    pub start: u64,
    /// First timestamp past the window.
    pub end: u64,
}

/// Bucket width in effect.
pub open spec fn effective_bucket(bucket_ms: u64) -> int {
    if bucket_ms < 1 {
        1
    } else {
        bucket_ms as int
    }
}

/// Start of the bucket that a timestamp falls in.
pub open spec fn bucket_start(ts: u64, bucket: int) -> int {
    (ts as int / bucket) * bucket
}

/// First timestamp past the window that starts at `start`.
pub open spec fn window_end(start: int, bucket: int, slice_ms: u64, cutoff_ms: u64) -> int {
    let reach = if slice_ms > bucket {
        start + slice_ms
    } else {
        start + bucket
    };
    if reach < cutoff_ms {
        reach
    } else {
        cutoff_ms as int
    }
}

/// The window of one pass: from the bucket of the oldest row that is due, over
/// at most `slice_ms` (one bucket at least), and never past the cutoff.
pub fn tier_window(oldest: u64, cutoff_ms: u64, bucket_ms: u64, slice_ms: u64) -> (r: TierWindow)
    ensures
        r.bucket == effective_bucket(bucket_ms),
        r.start == bucket_start(oldest, r.bucket as int),
        r.end == window_end(r.start as int, r.bucket as int, slice_ms, cutoff_ms),
{
    let bucket: u64 = if bucket_ms < 1 {
        1
    } else {
        bucket_ms
    };
    proof {
        bucket_start_facts(oldest, bucket as int);
    }
    let start: u64 = (oldest / bucket) * bucket;
    let step: u64 = if slice_ms > bucket {
        slice_ms
    } else {
        bucket
    };
    let reach: u64 = start.saturating_add(step);
    let end: u64 = if reach < cutoff_ms {
        reach
    } else {
        cutoff_ms
    };
    TierWindow { bucket, start, end }
}

proof fn bucket_start_facts(ts: u64, bucket: int)
    requires
        bucket >= 1,
    ensures
        0 <= bucket_start(ts, bucket) <= ts < bucket_start(ts, bucket) + bucket,
        bucket_start(ts, bucket) % bucket == 0,
{
    vstd::arithmetic::div_mod::lemma_fundamental_div_mod(ts as int, bucket);
    vstd::arithmetic::div_mod::lemma_mod_bound(ts as int, bucket);
    vstd::arithmetic::div_mod::lemma_div_pos_is_pos(ts as int, bucket);
    let q = ts as int / bucket;
    assert(q * bucket == bucket * q) by (nonlinear_arith);
    assert(bucket * q >= 0) by (nonlinear_arith)
        requires
            bucket >= 1,
            q >= 0,
    ;
    vstd::arithmetic::div_mod::lemma_mod_multiples_basic(q, bucket);
}

/// A pass makes progress, stays behind the cutoff and is bounded: its window
/// holds the oldest row that is due, never crosses the cutoff, starts on a bucket
/// boundary and spans no more than the larger of a slice and a bucket.
pub proof fn passes_progress_within_bounds(
    oldest: u64,
    cutoff_ms: u64,
    bucket_ms: u64,
    slice_ms: u64,
)
    requires
        oldest < cutoff_ms,
    ensures
        ({
            let bucket = effective_bucket(bucket_ms);
            let start = bucket_start(oldest, bucket);
            let end = window_end(start, bucket, slice_ms, cutoff_ms);
            &&& 0 <= start <= oldest < end <= cutoff_ms
            &&& start % bucket == 0
            &&& end - start <= slice_ms || end - start <= bucket
        }),
{
    bucket_start_facts(oldest, effective_bucket(bucket_ms));
}

/// With slices of whole buckets, a pass that stops short of the cutoff stops on
/// a bucket boundary, so that every bucket it writes is complete.
pub proof fn passes_write_whole_buckets(
    oldest: u64,
    cutoff_ms: u64,
    bucket_ms: u64,
    slice_ms: u64,
)
    requires
        slice_ms as int % effective_bucket(bucket_ms) == 0,
        window_end(
            bucket_start(oldest, effective_bucket(bucket_ms)),
            effective_bucket(bucket_ms),
            slice_ms,
            cutoff_ms,
        ) < cutoff_ms,
    ensures
        window_end(
            bucket_start(oldest, effective_bucket(bucket_ms)),
            effective_bucket(bucket_ms),
            slice_ms,
            cutoff_ms,
        ) % effective_bucket(bucket_ms) == 0,
{
    let bucket = effective_bucket(bucket_ms);
    let start = bucket_start(oldest, bucket);
    bucket_start_facts(oldest, bucket);
    let step: int = if slice_ms > bucket {
        slice_ms as int
    } else {
        bucket
    };
    vstd::arithmetic::div_mod::lemma_mod_self_0(bucket);
    vstd::arithmetic::div_mod::lemma_mod_adds(start, step, bucket);
    vstd::arithmetic::div_mod::lemma_mod_bound(start + step, bucket);
    assert((start + step) % bucket == 0);
}

// --------------------------------------------------------------- downsample

/// Totals of a downsample run.
#[derive(Debug, Clone, Copy, PartialEq, Eq, Structural)]
pub struct Downsampling {
    pub source_total: u64,
    pub bucket_total: u64,
}

impl Downsampling {
    pub fn new() -> (r: Downsampling)
        ensures
            r.source_total == 0,
            r.bucket_total == 0,
    {
        Downsampling { source_total: 0, bucket_total: 0 }
    }

    /// Takes the outcome of a pass. The run ends with the first pass that finds
    /// nothing to do.
    pub fn on_pass(&mut self, pass: &TierPassResult) -> (r: Option<DownsampleResult>)
        requires
            old(self).source_total + pass.source_rows <= u64::MAX,
            old(self).bucket_total + pass.bucket_rows <= u64::MAX,
        ensures
            r is Some <==> pass.source_rows == 0,
            r matches Some(done) ==> {
                &&& done.samples_before == old(self).source_total
                &&& done.samples_after == old(self).bucket_total
                &&& done.removed == if old(self).source_total >= old(self).bucket_total {
                    old(self).source_total - old(self).bucket_total
                } else {
                    0
                }
                &&& *final(self) == *old(self)
            },
            r is None ==> {
                &&& final(self).source_total == old(self).source_total + pass.source_rows
                &&& final(self).bucket_total == old(self).bucket_total + pass.bucket_rows
            },
    {
        if pass.source_rows == 0 {
            return Some(
                DownsampleResult {
                    samples_before: self.source_total,
                    samples_after: self.bucket_total,
                    removed: self.source_total.saturating_sub(self.bucket_total),
                },
            );
        }
        self.source_total = self.source_total + pass.source_rows;
        self.bucket_total = self.bucket_total + pass.bucket_rows;
        None
    }
}

// -------------------------------------------------------------------- stats

/// Bytes a sample is reckoned at.
pub open spec fn reckoned_bytes(total_rows: u64, file_bytes: u64) -> int {
    if total_rows >= LIVE_AVG_MIN_ROWS {
        file_bytes as int / total_rows as int
    } else {
        BASELINE_BYTES_PER_SAMPLE as int
    }
}

/// A target's statistics, from its row count, its channels, the ends of its
/// history, and the rows and bytes of the whole database.
pub fn target_stats(
    sample_count: u64,
    channel_count: u64,
    oldest_ms: Option<u64>,
    newest_ms: Option<u64>,
    total_rows: u64,
    file_bytes: u64,
) -> (r: TargetStats)
    requires
        sample_count * reckoned_bytes(total_rows, file_bytes) <= u64::MAX,
        oldest_ms matches Some(o) ==> newest_ms matches Some(n) ==> o <= n,
    ensures
        r.sample_count == sample_count,
        r.channel_count == channel_count,
        r.oldest_ms == oldest_ms,
        r.newest_ms == newest_ms,
        r.span_seconds == match (oldest_ms, newest_ms) {
            (Some(o), Some(n)) => Some(((n - o) / 1000) as u64),
            _ => None,
        },
        r.byte_estimate == sample_count * reckoned_bytes(total_rows, file_bytes),
{
    let avg: u64 = if total_rows >= LIVE_AVG_MIN_ROWS {
        file_bytes / total_rows
    } else {
        BASELINE_BYTES_PER_SAMPLE
    };
    TargetStats {
        sample_count,
        channel_count,
        oldest_ms,
        newest_ms,
        span_seconds: match (oldest_ms, newest_ms) {
            (Some(o), Some(n)) => Some((n - o) / 1000),
            _ => None,
        },
        byte_estimate: sample_count * avg,
    }
}

/// The envelope of a stored row: present only on rows that the ladder wrote,
/// which have all three columns.
pub fn envelope_from_row(v_min: Option<u64>, v_max: Option<u64>, agg_count: Option<i64>) -> (r: Option<
    Envelope,
>)
    ensures
        r == match (v_min, v_max, agg_count) {
            (Some(min), Some(max), Some(count)) => Some(
                Envelope {
                    min_bits: min,
                    max_bits: max,
                    count: (if count < 0 {
                        0i64
                    } else {
                        count
                    }) as u32,
                },
            ),
            _ => None,
        },
{
    match (v_min, v_max, agg_count) {
        (Some(min), Some(max), Some(count)) => {
            let held: i64 = if count < 0 {
                0
            } else {
                count
            };
            Some(Envelope { min_bits: min, max_bits: max, count: #[verifier::truncate] (held as u32) })
        },
        _ => None,
    }
}

/// The cap is the configured one between 256 and 102400 megabytes, the nearer bound
/// outside of that, and 2048 megabytes when none is configured.
pub proof fn caps_are_held_to_their_bounds(mb: u32)
    ensures
        256 <= mb <= 102_400 ==> cap(Some(mb)) == mb * 1024 * 1024,
        mb < 256 ==> cap(Some(mb)) == cap(Some(256)),
        mb > 102_400 ==> cap(Some(mb)) == cap(Some(102_400)),
        cap(None) == cap(Some(2048)),
{
}

/// With enough rows to measure by, the estimates of all targets together do not exceed the
/// file: a target's share of it is at most its share of the rows.
pub proof fn estimates_stay_within_the_file(sample_count: u64, total_rows: u64, file_bytes: u64)
    requires
        total_rows >= 10_000,
        sample_count <= total_rows,
    ensures
        sample_count * reckoned_bytes(total_rows, file_bytes) <= file_bytes,
        total_rows * (reckoned_bytes(total_rows, file_bytes) + 1) > file_bytes,
{
    let per = reckoned_bytes(total_rows, file_bytes);
    let (n, b) = (total_rows as int, file_bytes as int);
    vstd::arithmetic::div_mod::lemma_fundamental_div_mod(b, n);
    vstd::arithmetic::div_mod::lemma_mod_bound(b, n);
    assert(n * per <= b);
    assert(n * (per + 1) == n * per + n) by (nonlinear_arith);
    vstd::arithmetic::div_mod::lemma_div_pos_is_pos(b, n);
    assert(sample_count * per <= n * per) by (nonlinear_arith)
        requires
            sample_count <= n,
            per >= 0,
    ;
}

/// Every row that is due falls in exactly one bucket: its own starts at or before it and
/// ends after it, at a multiple of the width.
pub proof fn buckets_hold_their_rows(ts: u64, other: u64, bucket: int)
    requires
        bucket >= 1,
    ensures
        bucket_start(ts, bucket) <= ts < bucket_start(ts, bucket) + bucket,
        bucket_start(ts, bucket) % bucket == 0,
        bucket_start(ts, bucket) <= other < bucket_start(ts, bucket) + bucket ==> bucket_start(
            other,
            bucket,
        ) == bucket_start(ts, bucket),
{
    bucket_start_facts(ts, bucket);
    bucket_start_facts(other, bucket);
    let (p, q) = (ts as int / bucket, other as int / bucket);
    if bucket_start(ts, bucket) <= other < bucket_start(ts, bucket) + bucket {
        assert(p == q) by (nonlinear_arith)
            requires
                bucket >= 1,
                p * bucket <= other < p * bucket + bucket,
                q * bucket <= other < q * bucket + bucket,
        ;
    }
}

/// The bytes of a sample are the average over the file, rounded down and one at least, and
/// the samples over the cap are as many as it takes to make up the bytes over it, rounded
/// down.
pub proof fn overruns_are_measured_by_the_average(stats: GlobalStats, cap_bytes: u64)
    requires
        stats.total_samples > 0,
        stats.db_size_bytes > cap_bytes,
    ensures
        ({
            let per = bytes_per_sample(stats);
            let over = stats.db_size_bytes - cap_bytes;
            let n = samples_over(stats, cap_bytes);
            &&& per >= 1
            &&& per == 1 || per * stats.total_samples <= stats.db_size_bytes
            &&& stats.db_size_bytes < (per + 1) * stats.total_samples
            &&& n * per <= over < (n + 1) * per
        }),
{
    let per = bytes_per_sample(stats);
    let (b, t) = (stats.db_size_bytes as int, stats.total_samples as int);
    let over = b - cap_bytes;
    let n = samples_over(stats, cap_bytes);
    vstd::arithmetic::div_mod::lemma_fundamental_div_mod(b, t);
    vstd::arithmetic::div_mod::lemma_mod_bound(b, t);
    let q = b / t;
    assert(t * q == q * t && (q + 1) * t == q * t + t && (per + 1) * t >= (q + 1) * t)
        by (nonlinear_arith)
        requires
            per >= q,
            t > 0,
    ;
    vstd::arithmetic::div_mod::lemma_fundamental_div_mod(over, per);
    vstd::arithmetic::div_mod::lemma_mod_bound(over, per);
    assert(per * n == n * per && (n + 1) * per == n * per + per) by (nonlinear_arith);
}

/// A pass covers what it can: it reaches the cutoff, or a whole slice and a whole bucket
/// from the start of the oldest row's bucket; a width of zero counts as one millisecond.
pub proof fn passes_cover_their_slice(
    oldest: u64,
    cutoff_ms: u64,
    bucket_ms: u64,
    slice_ms: u64,
)
    ensures
        ({
            let bucket = effective_bucket(bucket_ms);
            let start = bucket_start(oldest, bucket);
            let end = window_end(start, bucket, slice_ms, cutoff_ms);
            &&& bucket_ms > 0 ==> bucket == bucket_ms
            &&& bucket_ms == 0 ==> bucket == 1
            &&& end <= cutoff_ms
            &&& end == cutoff_ms || (end >= start + slice_ms && end >= start + bucket)
        }),
{
}

/// An age begins that long before now, and at zero when now is not that late; with too few
/// rows to measure by, a sample is reckoned at 76 bytes.
pub proof fn ages_and_estimates(now_ms: u64, age_ms: int, total_rows: u64, file_bytes: u64)
    requires
        age_ms >= 0,
    ensures
        before(now_ms, age_ms) >= 0,
        age_ms <= now_ms ==> before(now_ms, age_ms) + age_ms == now_ms,
        age_ms > now_ms ==> before(now_ms, age_ms) == 0,
        total_rows < 10_000 ==> reckoned_bytes(total_rows, file_bytes) == 76,
{
}

} // verus!
