use std::sync::Arc;

use zenith::config::{FifoStrategy, TiersSection};
use zenith::metrics::TargetMetrics;
use zenith::storage::layouts::{
    may_delete, save_conflict, seed_plan, unknown_channels, SavedLayout, SavedPlot, SeedStep,
    StoredLayout,
};
use zenith::storage::retention::{
    audit_cutoff, cap_bytes, cutoff, envelope_from_row, eviction_plan, eviction_volume,
    ladder_plan, retention_ms, target_stats, tier_window, trim_count, Downsampling, EvictionPlan,
    StorageVitals,
};
use zenith::storage::telemetry_db::{
    allocate_evictions, GlobalStats, TierPassResult, COARSE_TIER, MID_TIER,
};
use zenith::storage::writer::{ChannelId, ChannelIds, FlushReport, SampleWriter, BATCH_SIZE};
use zenith::telemetry::{Reading, TelemetrySample};
use zenith::text_map::TextMap;

fn counts(v: &[(&str, u64)]) -> Vec<(String, u64)> {
    v.iter().map(|(t, n)| (t.to_string(), *n)).collect()
}

/// Fair eviction trims only the largest holder when its excess covers the whole
/// volume; the quiet target loses nothing.
#[test]
fn allocate_evictions_spares_quiet_targets() {
    let out = allocate_evictions(&counts(&[("big", 80), ("small", 20)]), 40);
    assert_eq!(out, vec![("big".to_string(), 40)]);
    let out = allocate_evictions(&counts(&[("big", 100), ("small", 5)]), 50);
    assert_eq!(out, vec![("big".to_string(), 50)]);
}

/// Equal holders split the eviction volume equally, and the integer remainder is
/// shaved so allocations sum exactly.
#[test]
fn allocate_evictions_splits_equals_and_sums_exactly() {
    let out = allocate_evictions(&counts(&[("a", 50), ("b", 50)]), 20);
    assert_eq!(out.iter().map(|(_, d)| d).sum::<u64>(), 20);
    assert!(out.iter().all(|(_, d)| *d == 10));

    let out = allocate_evictions(&counts(&[("a", 50), ("b", 50)]), 21);
    assert_eq!(out.iter().map(|(_, d)| d).sum::<u64>(), 21);

    let out = allocate_evictions(&counts(&[("a", 5), ("b", 5), ("c", 5)]), 1);
    assert_eq!(out.iter().map(|(_, d)| d).sum::<u64>(), 1);
}

/// A waterline between targets trims each proportionally to its excess: mixed
/// sizes converge to a common survivor level.
#[test]
fn allocate_evictions_waterlines_mixed_sizes() {
    // 7/3/3 evicting 6: waterline 2 -> allocations 5/1/1 minus one
    // shaved row = exactly 6, and every survivor holds >= 2.
    let out = allocate_evictions(&counts(&[("a", 7), ("b", 3), ("c", 3)]), 6);
    assert_eq!(out.iter().map(|(_, d)| d).sum::<u64>(), 6);
    let get = |t: &str| {
        out.iter()
            .find(|(n, _)| n == t)
            .map(|(_, d)| *d)
            .unwrap_or(0)
    };
    assert!(get("a") >= 4);
    assert!(get("b") <= 1 && get("c") <= 1);
}

/// Requesting at least the total row count returns every nonzero target in full;
/// zero requests return nothing.
#[test]
fn allocate_evictions_edges() {
    let all = allocate_evictions(&counts(&[("a", 10), ("b", 0), ("c", 3)]), 999);
    assert_eq!(all.len(), 2);
    assert_eq!(all.iter().map(|(_, d)| d).sum::<u64>(), 13);
    assert!(allocate_evictions(&counts(&[("a", 10)]), 0).is_empty());
    assert!(allocate_evictions(&[], 5).is_empty());
}

/// The lowest-ranked of the trimmed holders gives up the odd row less; names break
/// ties.
#[test]
fn evictions_are_exact_by_rank() {
    assert_eq!(
        allocate_evictions(&counts(&[("c", 3), ("b", 3), ("a", 7)]), 6),
        counts(&[("a", 5), ("b", 1)])
    );
    assert_eq!(
        allocate_evictions(&counts(&[("b", 50), ("a", 50)]), 21),
        counts(&[("a", 11), ("b", 10)])
    );
}

/// Whatever the volume, evictions sum to it and leave every holder what it has
/// below the waterline.
#[test]
fn evictions_sum_for_every_volume() {
    let held = counts(&[("a", 9), ("b", 4), ("c", 0), ("d", 4), ("e", 1)]);
    for volume in 0..=20u64 {
        let out = allocate_evictions(&held, volume);
        assert_eq!(out.iter().map(|(_, d)| d).sum::<u64>(), volume.min(18));
        for (name, n) in &out {
            let has = held.iter().find(|(t, _)| t == name).unwrap().1;
            assert!(*n > 0 && *n <= has);
        }
    }
}

/// A pass covers its slice, and never crosses the cutoff.
#[test]
fn tier_pass_is_bounded_and_respects_cutoff() {
    let cutoff = 20 * 60 * 1_000;
    let w = tier_window(0, cutoff, 60_000, 600_000);
    assert_eq!((w.bucket, w.start, w.end), (60_000, 0, 600_000));
    let w = tier_window(600_000, cutoff, 60_000, 600_000);
    assert_eq!((w.start, w.end), (600_000, 1_200_000));
    let w = tier_window(1_150_000, cutoff, 60_000, 600_000);
    assert_eq!((w.start, w.end), (1_140_000, 1_200_000));
}

/// A window holds one bucket at least, and a bucket one millisecond.
#[test]
fn windows_hold_a_bucket() {
    let w = tier_window(5, 1_000_000, 60_000, 10);
    assert_eq!((w.start, w.end), (0, 60_000));
    let w = tier_window(5, 1_000_000, 0, 10);
    assert_eq!((w.bucket, w.start, w.end), (1, 5, 15));
    let w = tier_window(u64::MAX - 1, u64::MAX, 60_000, u64::MAX);
    assert_eq!(w.end, u64::MAX);
}

/// A downsample run adds its passes up and ends with the first that finds nothing.
#[test]
fn downsampling_adds_up() {
    let mut run = Downsampling::new();
    let pass = |source_rows, bucket_rows| TierPassResult {
        source_rows,
        bucket_rows,
    };
    assert!(run.on_pass(&pass(600, 10)).is_none());
    assert!(run.on_pass(&pass(300, 5)).is_none());
    let done = run.on_pass(&pass(0, 0)).unwrap();
    assert_eq!(done.samples_before, 900);
    assert_eq!(done.samples_after, 15);
    assert_eq!(done.removed, 885);
}

/// The ladder's steps and age bands.
#[test]
fn ladders_are_planned() {
    let mut tiers = TiersSection::default();
    assert!(ladder_plan(&tiers, 1).is_none());
    tiers.enabled = true;
    let now = 200_000_000;
    let plan = ladder_plan(&tiers, now).unwrap();
    assert_eq!(plan.mid.tier, MID_TIER);
    assert_eq!(plan.mid.cutoff_ms, now - 3_600_000);
    assert_eq!(plan.mid.bucket_ms, 1000);
    assert_eq!(plan.coarse.tier, COARSE_TIER);
    assert_eq!(plan.coarse.cutoff_ms, now - 86_400_000);
    assert_eq!(plan.coarse.bucket_ms, 60_000);
    assert_eq!(plan.bands.1.start_ms, plan.bands.2.end_ms);
    assert_eq!(plan.bands.0.start_ms, plan.bands.1.end_ms);
}

/// Caps are held to their bounds.
#[test]
fn caps_are_clamped() {
    assert_eq!(cap_bytes(None), 2048 * 1_048_576);
    assert_eq!(cap_bytes(Some(1)), 256 * 1_048_576);
    assert_eq!(cap_bytes(Some(u32::MAX)), 102_400 * 1_048_576);
    assert_eq!(cap_bytes(Some(300)), 300 * 1_048_576);
}

/// An eviction takes a fifth more than the overrun asks for, a hundred at least.
#[test]
fn evictions_are_sized() {
    let stats = |total_samples, db_size_bytes| GlobalStats {
        total_samples,
        db_size_bytes,
    };
    assert_eq!(eviction_volume(&stats(10, 1000), 1000), None);
    assert_eq!(eviction_volume(&stats(0, 2000), 1000), None);
    assert_eq!(eviction_volume(&stats(10, 1100), 1000), Some(100));
    // 100 bytes each, 50 000 bytes over: 500 samples, and a fifth more.
    assert_eq!(eviction_volume(&stats(1000, 100_000), 50_000), Some(600));
    // More samples than bytes: a sample is reckoned at one byte.
    assert_eq!(eviction_volume(&stats(10_000, 5000), 4000), Some(1200));
}

/// The fair strategy splits, and falls back to the oldest without counts.
#[test]
fn eviction_strategies() {
    let held = counts(&[("big", 80), ("small", 20)]);
    match eviction_plan(FifoStrategy::Fair, Some(&held), 40) {
        EvictionPlan::PerTarget(split) => assert_eq!(split, counts(&[("big", 40)])),
        _ => panic!("counts are there to be fair by"),
    }
    assert!(matches!(eviction_plan(FifoStrategy::Fair, None, 40), EvictionPlan::Oldest(40)));
    assert!(matches!(
        eviction_plan(FifoStrategy::Global, Some(&held), 40),
        EvictionPlan::Oldest(40)
    ));
}

/// Growth per minute, and what it projects.
#[test]
fn fill_is_measured_and_projected() {
    let mut v = StorageVitals::new(1_000_000, TiersSection::default());
    v.measure(1000);
    assert_eq!(v.fill_bytes_per_min, 0);
    v.measure(3000);
    assert_eq!(v.fill_bytes_per_min, 2000);
    assert_eq!(v.projected_secs_to_cap(400_000), Some(18_000));
    assert_eq!(v.projected_secs_to_cap(1_000_000), None);
    v.measure(2000);
    assert_eq!(v.fill_bytes_per_min, -1000);
    assert_eq!(v.projected_secs_to_cap(400_000), None);
}

/// Ages and retention.
#[test]
fn ages_are_cut_off() {
    assert_eq!(cutoff(100, 30), 70);
    assert_eq!(cutoff(10, 30), 0);
    assert_eq!(retention_ms(2), 7_200_000);
    assert_eq!(audit_cutoff(5, 0), None);
    assert_eq!(audit_cutoff(100_000_000, 1), Some(13_600_000));
}

/// A trim takes what is asked for, or a quarter, one at least.
#[test]
fn trims_default_to_a_quarter() {
    assert_eq!(trim_count(Some(7), 100), 7);
    assert_eq!(trim_count(Some(0), 100), 25);
    assert_eq!(trim_count(None, 100), 25);
    assert_eq!(trim_count(None, 3), 1);
}

/// Span and counts; the byte estimate follows the file only when there is enough
/// in it.
#[test]
fn target_stats_returns_correct_span_and_counts() {
    let s = target_stats(10, 2, Some(1000), Some(61_500), 100, 50_000_000);
    assert_eq!(s.sample_count, 10);
    assert_eq!(s.channel_count, 2);
    assert_eq!(s.span_seconds, Some(60));
    assert_eq!(s.byte_estimate, 760);
    let s = target_stats(5000, 2, None, None, 10_000, 1_000_000);
    assert_eq!(s.span_seconds, None);
    assert_eq!(s.byte_estimate, 500_000);
}

/// A row has an envelope only when it has all three columns.
#[test]
fn envelopes_are_whole() {
    let e = envelope_from_row(Some(1.0f64.to_bits()), Some(2.0f64.to_bits()), Some(9)).unwrap();
    assert_eq!((e.min_bits, e.max_bits, e.count), (1.0f64.to_bits(), 2.0f64.to_bits(), 9));
    assert_eq!(envelope_from_row(Some(0), Some(0), Some(-3)).unwrap().count, 0);
    assert!(envelope_from_row(None, Some(0), Some(1)).is_none());
    assert!(envelope_from_row(Some(0), None, Some(1)).is_none());
    assert!(envelope_from_row(Some(0), Some(0), None).is_none());
}

fn stored(rows: &[(&str, i64, &str)]) -> TextMap<StoredLayout> {
    let mut map = TextMap::new();
    for (name, id, source) in rows {
        map.insert(
            name.to_string(),
            StoredLayout {
                id: *id,
                source: source.to_string(),
            },
        );
    }
    map
}

fn names(list: &[&str]) -> Vec<String> {
    list.iter().map(|s| s.to_string()).collect()
}

/// Seeding mirrors the config file: a renamed layout in the file replaces the old
/// config row, a content change updates plots in place, and user layouts survive.
#[test]
fn seed_layouts_syncs_config_source_with_file() {
    let first = seed_plan(&stored(&[]), &names(&["Waves", "Health"]));
    assert_eq!(first.steps, vec![SeedStep::Insert, SeedStep::Insert]);
    assert_eq!(first.inserted, 2);

    let rows = stored(&[("Waves", 1, "config"), ("Health", 2, "config"), ("MyCustom", 3, "user")]);
    let plan = seed_plan(&rows, &names(&["Waves", "Monitor"]));
    assert_eq!(plan.stale, vec![2], "stale config layout must go");
    assert_eq!(plan.steps, vec![SeedStep::Replace(1), SeedStep::Insert]);
    assert_eq!(plan.inserted, 1);
}

/// A user-saved layout owns its name: a config layout with the same name in the
/// file is skipped, never clobbers the user's.
#[test]
fn seed_layouts_user_name_wins_over_file_default() {
    let plan = seed_plan(&stored(&[("Waves", 1, "user")]), &names(&["Waves"]));
    assert!(plan.stale.is_empty());
    assert_eq!(plan.steps, vec![SeedStep::Skip]);
    assert_eq!(plan.inserted, 0);
}

/// A name that the file repeats replaces what it inserted, and seeding again
/// changes nothing.
#[test]
fn seeding_again_changes_nothing() {
    let plan = seed_plan(&stored(&[]), &names(&["A", "B", "A"]));
    assert_eq!(
        plan.steps,
        vec![SeedStep::Insert, SeedStep::Insert, SeedStep::ReplaceEarlier(0)]
    );
    let again = seed_plan(
        &stored(&[("A", 1, "config"), ("B", 2, "config")]),
        &names(&["A", "B", "A"]),
    );
    assert!(again.stale.is_empty());
    assert_eq!(again.inserted, 0);
}

/// A config layout's name cannot be taken.
#[test]
fn save_layout_refuses_to_overwrite_config_layout() {
    let rows = stored(&[("Waves", 1, "config")]);
    assert_eq!(
        save_conflict(&rows, "Waves").unwrap(),
        "A config-sourced layout named 'Waves' already exists. Pick a different name to save as a user layout."
    );
}

/// Another name can, and an operator's own too.
#[test]
fn save_layout_allows_distinct_user_name() {
    let rows = stored(&[("Waves", 1, "config"), ("Mine", 2, "user")]);
    assert!(save_conflict(&rows, "Other").is_none());
    assert!(save_conflict(&rows, "Mine").is_none());
}

/// An operator's layout can be deleted, a config layout cannot.
#[test]
fn delete_user_layout_succeeds_but_config_layout_refuses() {
    assert!(may_delete(Some("user")));
    assert!(!may_delete(Some("config")));
    assert!(!may_delete(None));
}

/// Channels that no dictionary produces are pointed out, in order.
#[test]
fn unknown_channels_are_listed() {
    let plot = |channels: &[&str]| SavedPlot {
        title: "p".to_string(),
        channels: names(channels),
        height: 180,
        position: [0, 0],
        y_min_bits: None,
        y_max_bits: None,
        y_label: None,
        thresholds: None,
    };
    let layout = SavedLayout {
        id: 1,
        name: "l".to_string(),
        source: "user".to_string(),
        grid: "1x1".to_string(),
        time_window_s: 30,
        plots: vec![plot(&["a", "x"]), plot(&["y", "b"])],
    };
    assert_eq!(unknown_channels(&layout, &names(&["a", "b"])), names(&["x", "y"]));
}

fn sample(target: &str, channel: &str, ts: u64) -> TelemetrySample {
    TelemetrySample {
        target_id: Arc::new(target.to_string()),
        timestamp_ms: ts,
        channel: Arc::new(channel.to_string()),
        value: Reading::F64(0),
        envelope: None,
    }
}

/// A full batch is flushed, and so is whatever there is when nothing waits.
#[test]
fn batches_are_flushed() {
    let mut w = SampleWriter::new();
    for i in 0..BATCH_SIZE - 1 {
        assert!(!w.on_sample(sample("t", "c", i as u64), true));
    }
    assert!(w.on_sample(sample("t", "c", 99), true));
    let mut m = TargetMetrics::new();
    assert_eq!(w.on_flushed(&mut m, true, 0), FlushReport::Quiet);
    assert_eq!(m.db_written_samples, BATCH_SIZE as u64);
    assert!(w.batch.is_empty());
    assert!(w.on_sample(sample("t", "c", 1), false));
}

/// Failed batches are counted and reported no more often than the interval;
/// recovery says how many were lost.
#[test]
fn failed_batches_are_reported() {
    let mut w = SampleWriter::new();
    let mut m = TargetMetrics::new();
    w.on_sample(sample("t", "c", 1), false);
    assert_eq!(w.on_flushed(&mut m, false, 1000), FlushReport::Failed(1));
    w.on_sample(sample("t", "c", 2), false);
    assert_eq!(w.on_flushed(&mut m, false, 30_999), FlushReport::Quiet);
    w.on_sample(sample("t", "c", 3), false);
    assert_eq!(w.on_flushed(&mut m, false, 31_000), FlushReport::Failed(3));
    assert_eq!((m.db_write_failures, m.db_failed_samples), (3, 3));
    w.on_sample(sample("t", "c", 4), false);
    assert_eq!(w.on_flushed(&mut m, true, 31_001), FlushReport::Recovered(3));
    assert_eq!(m.db_written_samples, 1);
    w.on_sample(sample("t", "c", 5), false);
    assert_eq!(w.on_flushed(&mut m, false, 31_002), FlushReport::Failed(1));
    assert_eq!(w.on_flushed(&mut m, false, 31_003), FlushReport::Quiet);
}

/// Lag is counted, and logged no more often than the interval.
#[test]
fn lag_is_counted() {
    let mut w = SampleWriter::new();
    let mut m = TargetMetrics::new();
    assert_eq!(w.on_lag(&mut m, 5, false, 0), (true, false));
    w.on_sample(sample("t", "c", 1), true);
    assert_eq!(w.on_lag(&mut m, 2, false, 10), (false, true));
    assert_eq!(w.on_lag(&mut m, 2, true, 30_000), (true, false));
    assert_eq!(m.db_writer_lag_drops, 9);
}

/// Each channel that is not known is looked up once.
#[test]
fn channel_dictionary_dedups_names() {
    let ids = ChannelIds::new();
    let batch = vec![
        sample("t1", "X", 1),
        sample("t1", "Y", 2),
        sample("t1", "X", 3),
        sample("t2", "X", 4),
    ];
    assert_eq!(ids.unresolved(&batch), vec![0, 1, 3]);
}

/// Nothing is remembered of a batch that is not committed.
#[test]
fn failed_batch_does_not_poison_channel_cache() {
    let mut ids = ChannelIds::new();
    let batch = vec![sample("t1", "X", 1)];
    assert_eq!(ids.unresolved(&batch), vec![0]);
    assert_eq!(ids.get("t1", "X"), None);
    // The transaction is rolled back here: the next one looks the channel up again.
    assert_eq!(ids.unresolved(&batch), vec![0]);
    ids.commit(vec![ChannelId {
        target: "t1".to_string(),
        channel: "X".to_string(),
        id: 7,
    }]);
    assert_eq!(ids.get("t1", "X"), Some(7));
    assert_eq!(ids.get("t2", "X"), None);
    assert!(ids.unresolved(&batch).is_empty());
}
