//! Counters and latency histograms of a matching engine.

use match_risk_engine::matching_engine::metrics::{
    EngineMetrics, LatencyHistogram, LatencySnapshot, NUM_BUCKETS,
};
use std::time::Duration;

#[test]
fn bucket_boundaries_are_monotonic() {
    assert_eq!(LatencyHistogram::bucket_for(0), 0);
    assert_eq!(LatencyHistogram::bucket_for(1), 1);
    assert!(LatencyHistogram::bucket_for(1_000) > LatencyHistogram::bucket_for(100));
    assert_eq!(LatencyHistogram::bucket_for(u64::MAX), NUM_BUCKETS - 1);
}

#[test]
fn bucket_edges() {
    assert_eq!(LatencyHistogram::bucket_for(2), 1);
    assert_eq!(LatencyHistogram::bucket_for(3), 2);
    assert_eq!(LatencyHistogram::bucket_for(6), 2);
    assert_eq!(LatencyHistogram::bucket_for(7), 3);
    assert_eq!(LatencyHistogram::bucket_for((1 << 31) - 2), 30);
    assert_eq!(LatencyHistogram::bucket_for((1 << 31) - 1), 31);
    assert_eq!(LatencyHistogram::bucket_for(1 << 40), 31);
}

#[test]
fn record_updates_count_sum_max() {
    let mut h = LatencyHistogram::new();
    h.record(Duration::from_nanos(100).as_nanos());
    h.record(Duration::from_nanos(300).as_nanos());
    h.record(Duration::from_nanos(50).as_nanos());

    let snap = h.snapshot();
    assert_eq!(snap.count, 3);
    assert_eq!(snap.sum_ns, 450);
    assert_eq!(snap.max_ns, 300);
    assert_eq!(snap.mean_ns, 150);
}

#[test]
fn percentiles_are_monotonic_and_bounded_by_max() {
    let mut h = LatencyHistogram::new();
    for ns in 1..=1000u64 {
        h.record(Duration::from_nanos(ns).as_nanos());
    }
    let snap = h.snapshot();

    assert!(snap.p50() <= snap.p90());
    assert!(snap.p90() <= snap.p99());
    assert!(snap.p99() <= snap.p999());
    assert!(snap.p999() <= snap.max_ns.max(snap.p999()));
    // Roughly in the right ballpark for a uniform 1..=1000ns sample.
    assert!(snap.p50() > 100 && snap.p50() < 2000);
}

#[test]
fn empty_histogram_percentiles_are_zero() {
    let h = LatencyHistogram::new();
    let snap = h.snapshot();
    assert_eq!(snap.p50(), 0);
    assert_eq!(snap.p99(), 0);
}

#[test]
fn percentile_is_the_upper_edge_of_its_bucket() {
    let mut h = LatencyHistogram::new();
    for _ in 0..9 {
        h.record(5);
    }
    h.record(1_000);
    let snap = h.snapshot();
    assert_eq!(snap.p50(), 7);
    assert_eq!(snap.p90(), 7);
    assert_eq!(snap.p99(), 1023);
    assert_eq!(snap.value_at_rank(9), 7);
    assert_eq!(snap.value_at_rank(10), 1023);
    // Beyond the last sample the largest one is given.
    assert_eq!(snap.value_at_rank(11), 1000);
}

#[test]
fn merge_sums_buckets_count_and_max() {
    let mut h1 = LatencyHistogram::new();
    h1.record(Duration::from_nanos(100).as_nanos());
    h1.record(Duration::from_nanos(200).as_nanos());

    let mut h2 = LatencyHistogram::new();
    h2.record(Duration::from_nanos(5_000).as_nanos());

    let mut merged = h1.snapshot();
    merged.merge(&h2.snapshot());

    assert_eq!(merged.count, 3);
    assert_eq!(merged.sum_ns, 5_300);
    assert_eq!(merged.max_ns, 5_000);
    assert_eq!(merged.mean_ns, 1_766);
    assert_eq!(merged.buckets.iter().sum::<u64>(), 3);
}

#[test]
fn default_snapshot_is_empty() {
    let s = LatencySnapshot::default();
    assert_eq!((s.count, s.sum_ns, s.mean_ns, s.max_ns), (0, 0, 0, 0));
    assert!(s.buckets.iter().all(|b| *b == 0));
}

#[test]
fn reset_clears_histogram_and_counters() {
    let mut m = EngineMetrics::new();
    m.record_order(2, false);
    m.match_latency.record(Duration::from_nanos(500).as_nanos());

    m.reset_intervals();

    let snap = m.snapshot();
    assert_eq!(snap.orders_processed, 0);
    assert_eq!(snap.fills_generated, 0);
    assert_eq!(snap.match_latency.count, 0);
}

#[test]
fn counters_count() {
    let mut m = EngineMetrics::new();
    m.record_order(2, false);
    m.record_order(7, true);
    m.record_order(0, false);
    m.record_idle_spin();
    m.record_outbound_drop();
    m.record_wal_failure();
    m.record_wal_failure();
    let snap = m.snapshot();
    assert_eq!(snap.orders_processed, 3);
    assert_eq!(snap.fills_generated, 2);
    assert_eq!(snap.risk_rejects, 1);
    assert_eq!(snap.idle_spins, 1);
    m.reset_intervals();
    assert_eq!(m.outbound_drops, 1);
    assert_eq!(m.wal_failures, 2);
}

#[test]
fn merging_is_recording_both() {
    let a = [0u64, 3, 90, 90, 70_000];
    let b = [1u64, 5_000_000_000, 12];
    let mut apart = LatencyHistogram::new();
    let mut other = LatencyHistogram::new();
    let mut all = LatencyHistogram::new();
    for ns in a {
        apart.record(ns as u128);
        all.record(ns as u128);
    }
    for ns in b {
        other.record(ns as u128);
        all.record(ns as u128);
    }
    let mut merged = apart.snapshot();
    merged.merge(&other.snapshot());
    let expected = all.snapshot();
    assert_eq!(merged.buckets, expected.buckets);
    assert_eq!(merged.count, 8);
    assert_eq!(merged.sum_ns, expected.sum_ns);
    assert_eq!(merged.mean_ns, expected.mean_ns);
    assert_eq!(merged.max_ns, 5_000_000_000);
    // The fourth of eight sorted latencies is 12, in the bucket up to 15.
    assert_eq!(merged.p50(), 15);
}
