//! Metrics over all shards.

use match_risk_engine::matching_engine::metrics::{EngineMetrics, EngineMetricsSnapshot};
use match_risk_engine::metrics::aggregator::{AggregatedSnapshot, MetricsAggregator};

/// The exported text, with large values written as floating-point numbers.
fn render(agg: &MetricsAggregator) -> String {
    let large: Vec<String> = agg
        .prometheus_large_values()
        .iter()
        .map(|v| format!("{}", *v as f64))
        .collect();
    agg.render_prometheus(&large)
}

#[test]
fn aggregates_across_shards() {
    let mut agg = MetricsAggregator::new(0, 0);

    let mut m1 = EngineMetrics::new();
    let mut m2 = EngineMetrics::new();

    m1.record_order(2, false);
    m1.record_order(0, true);
    m2.record_order(1, false);

    agg.register_shard(1, m1);
    agg.register_shard(2, m2);

    let snap = agg.collect_now(1);
    assert_eq!(snap.totals.orders_processed, 3);
    assert_eq!(snap.totals.fills_generated, 3);
    assert_eq!(snap.totals.risk_rejects, 1);
    assert_eq!(snap.per_shard.len(), 2);
}

#[test]
fn maybe_collect_respects_interval() {
    let hour = 3600 * 1_000_000_000;
    let mut agg = MetricsAggregator::new(hour, 0);
    let mut m1 = EngineMetrics::new();
    m1.record_order(5, false);
    agg.register_shard(1, m1);

    agg.collect_now(10);
    m1.record_order(10, false);
    agg.update_shard(1, m1);

    // Interval not elapsed: should still show the old snapshot (5 fills).
    let snap = agg.maybe_collect(20);
    assert_eq!(snap.totals.fills_generated, 5);
    assert_eq!(snap.taken_at, Some(10));

    // One nanosecond before the end of the interval, and at its end.
    assert_eq!(agg.maybe_collect(hour + 9).totals.fills_generated, 5);
    assert_eq!(agg.maybe_collect(hour + 10).totals.fills_generated, 15);
    assert_eq!(agg.last_snapshot().taken_at, Some(hour + 10));
}

#[test]
fn prometheus_render_contains_expected_metrics() {
    let mut agg = MetricsAggregator::new(0, 0);
    let mut m1 = EngineMetrics::new();
    m1.record_order(3, false);
    agg.register_shard(7, m1);
    agg.collect_now(0);

    let text = render(&agg);
    assert!(text.contains("engine_orders_processed_total{shard=\"7\"}"));
    assert!(text.contains("engine_fills_generated_total{shard=\"_total\"}"));
}

#[test]
fn prometheus_render_contains_percentiles() {
    let mut agg = MetricsAggregator::new(0, 0);
    let mut m1 = EngineMetrics::new();
    for ns in 1..=100u64 {
        m1.match_latency.record(ns as u128);
    }
    agg.register_shard(1, m1);
    agg.collect_now(0);

    let text = render(&agg);
    assert!(text.contains("engine_match_latency_ns_p50{shard=\"1\"}"));
    assert!(text.contains("engine_match_latency_ns_p99{shard=\"_total\"}"));
}

#[test]
fn cross_shard_percentiles_reflect_merged_population_not_averaged_shard_percentiles() {
    let mut agg = MetricsAggregator::new(0, 0);

    // Shard 1: all fast (100ns).
    let mut m1 = EngineMetrics::new();
    for _ in 0..1000 {
        m1.match_latency.record(100);
    }

    // Shard 2: all slow (1,000,000ns).
    let mut m2 = EngineMetrics::new();
    for _ in 0..1000 {
        m2.match_latency.record(1_000_000);
    }

    agg.register_shard(1, m1);
    agg.register_shard(2, m2);
    let snap = agg.collect_now(0);

    // The merged population is 50% fast and 50% slow, so the median is at
    // the boundary.
    let merged_p50 = snap.totals.match_latency.p50();
    assert!(merged_p50 <= 1_000_000);
    assert_eq!(snap.totals.match_latency.count, 2000);
    assert_eq!(merged_p50, 127);
    assert_eq!(snap.totals.match_latency.p90(), 1_048_575);
}

#[test]
fn export_text_is_exact() {
    let mut agg = MetricsAggregator::new(0, 0);
    let mut m = EngineMetrics::new();
    m.record_order(3, false);
    m.record_idle_spin();
    m.match_latency.record(5);
    agg.register_shard(12, m);
    agg.collect_now(0);
    let text = render(&agg);
    let lines: Vec<&str> = text.lines().collect();
    assert_eq!(lines.len(), 16 + 15);
    assert_eq!(lines[0], "engine_orders_processed_total{shard=\"12\"} 1");
    assert_eq!(lines[1], "engine_fills_generated_total{shard=\"12\"} 3");
    assert_eq!(lines[2], "engine_risk_rejects_total{shard=\"12\"} 0");
    assert_eq!(lines[3], "engine_idle_spins_total{shard=\"12\"} 1");
    assert_eq!(lines[4], "engine_match_latency_ns_mean{shard=\"12\"} 5");
    assert_eq!(lines[5], "engine_match_latency_ns_max{shard=\"12\"} 5");
    assert_eq!(lines[6], "engine_match_latency_ns_p50{shard=\"12\"} 7");
    assert_eq!(lines[9], "engine_match_latency_ns_p999{shard=\"12\"} 7");
    assert_eq!(
        lines[16],
        "engine_orders_processed_total{shard=\"_total\"} 1"
    );
    assert_eq!(
        lines[30],
        "engine_risk_check_latency_ns_p999{shard=\"_total\"} 0"
    );
    assert!(text.ends_with('\n'));
}

#[test]
fn same_shard_counts_once() {
    let mut agg = MetricsAggregator::new(0, 0);
    let mut m1 = EngineMetrics::new();
    m1.record_order(1, false);
    let mut m2 = EngineMetrics::new();
    m2.record_order(5, false);
    agg.register_shard(4, m1);
    agg.register_shard(4, m2);
    let snap = agg.collect_now(0);
    assert_eq!(snap.per_shard.len(), 1);
    assert_eq!(snap.totals.fills_generated, 5);
}

#[test]
fn reset_starts_a_new_interval_on_all_shards() {
    let mut agg = MetricsAggregator::new(0, 0);
    let mut own: Vec<EngineMetrics> = Vec::new();
    for id in 0..3 {
        let mut m = EngineMetrics::new();
        m.record_order(2, false);
        m.record_outbound_drop();
        m.match_latency.record(900);
        agg.register_shard(id, m);
        own.push(m);
    }
    assert_eq!(agg.collect_now(0).totals.fills_generated, 6);
    agg.reset_shard_intervals(&mut own);
    assert_eq!(agg.last_snapshot().totals.fills_generated, 6);
    let snap = agg.collect_now(1);
    assert_eq!(snap.totals.fills_generated, 0);
    assert_eq!(snap.totals.match_latency.max_ns, 0);
    assert_eq!(agg.shards[2].metrics.outbound_drops, 1);

    // The shards count on from zero, so only the difference is exported.
    assert_eq!(own[1].outbound_drops, 1);
    own[1].record_order(5, false);
    own[1].match_latency.record(100);
    agg.update_shard(1, own[1]);
    let snap = agg.collect_now(2);
    assert_eq!(snap.totals.fills_generated, 5);
    assert_eq!(snap.totals.orders_processed, 1);
    assert_eq!(snap.totals.match_latency.max_ns, 100);
}

#[test]
fn only_large_values_are_written_as_floating_point() {
    let mut agg = MetricsAggregator::new(0, 0);
    let mut m = EngineMetrics::new();
    m.record_order(1 << 53, false);
    agg.register_shard(1, m);
    agg.collect_now(0);
    assert!(agg.prometheus_large_values().is_empty());
    let text = agg.render_prometheus(&Vec::new());
    assert!(text.contains("engine_fills_generated_total{shard=\"1\"} 9007199254740992\n"));
    assert_eq!(
        format!("{}", (1u64 << 53) as f64),
        "9007199254740992"
    );

    m.record_order(3, false);
    agg.update_shard(1, m);
    agg.collect_now(0);
    let large = (1u64 << 53) + 3;
    assert_eq!(agg.prometheus_large_values(), vec![large, large]);
    let text = render(&agg);
    assert!(text.contains("engine_fills_generated_total{shard=\"1\"} 9007199254740996\n"));
    assert!(text.contains("engine_fills_generated_total{shard=\"_total\"} 9007199254740996\n"));
    assert!(text.contains("engine_orders_processed_total{shard=\"1\"} 2\n"));
}

#[test]
fn merging_adds_up_anew() {
    let mut snap = AggregatedSnapshot::default();
    assert_eq!(snap.taken_at, None);
    let mut s = EngineMetricsSnapshot::default();
    s.orders_processed = 7;
    snap.merge(1, s);
    snap.merge(2, s);
    assert_eq!(snap.totals.orders_processed, 14);
    s.orders_processed = 1;
    snap.merge(1, s);
    assert_eq!(snap.totals.orders_processed, 8);
}

#[test]
fn shards_report_what_they_reached_meanwhile() {
    let mut agg = MetricsAggregator::new(0, 0);
    let mut m1 = EngineMetrics::new();
    let mut m2 = EngineMetrics::new();
    m1.record_order(1, false);
    m2.record_order(2, false);
    agg.register_shard(1, m1);
    agg.register_shard(2, m2);
    assert_eq!(agg.collect_now(1).totals.fills_generated, 3);

    m1.record_order(4, false);
    agg.update_shard(1, m1);
    // Nobody has this id.
    agg.update_shard(3, m2);
    assert_eq!(agg.last_snapshot().totals.fills_generated, 3);
    let snap = agg.collect_now(2);
    assert_eq!(snap.totals.fills_generated, 7);
    assert_eq!(snap.totals.orders_processed, 3);
    assert_eq!(snap.per_shard.len(), 2);
}
