//! Counters and latency histograms of a matching engine.
//!
//! Latencies are kept as histograms rather than as a mean, so that
//! percentiles can be reported and histograms of several engines can be
//! added up. Counters wrap around.

use vstd::prelude::*;

verus! {

/// Number of buckets of a histogram. Bucket `i` counts the latencies from
/// `2^i - 1` up to, but not including, `2^(i+1) - 1` nanoseconds; the last
/// one counts everything above, too.
pub const NUM_BUCKETS: usize = 32;

/// Two to the power of `n`.
pub open spec fn two_to(n: nat) -> nat
    decreases n,
{
    if n == 0 {
        1
    } else {
        2 * two_to((n - 1) as nat)
    }
}

/// The binary logarithm, rounded down.
pub open spec fn floor_log2(x: nat) -> nat
    decreases x,
{
    if x < 2 {
        0
    } else {
        1 + floor_log2(x / 2)
    }
}

/// The bucket of a latency.
pub open spec fn bucket_of(ns: u64) -> int {
    let log = floor_log2((ns + 1) as nat);
    if log < NUM_BUCKETS {
        log as int
    } else {
        NUM_BUCKETS - 1
    }
}

/// The sum of the counts.
pub open spec fn total(counts: Seq<u64>) -> nat
    decreases counts.len(),
{
    if counts.len() == 0 {
        0
    } else {
        total(counts.drop_last()) + counts.last() as nat
    }
}

/// The mean, zero if there is nothing to take it of.
pub open spec fn mean(sum: u64, count: u64) -> u64 {
    if count > 0 {
        sum / count
    } else {
        0
    }
}

/// The first bucket at which the running total reaches `rank`, the number of
/// buckets if none does.
pub open spec fn bucket_at_rank(counts: Seq<u64>, rank: nat, from: nat) -> nat
    decreases counts.len() - from,
{
    if from >= counts.len() || total(counts.take(from as int + 1)) >= rank {
        from
    } else {
        bucket_at_rank(counts, rank, from + 1)
    }
}

/// The smallest rank that covers the fraction `num / den` of `count` samples,
/// at least one.
pub open spec fn rank_of(count: u64, num: u64, den: u64) -> nat {
    let exact = (count * num + den - 1) / den as int;
    if exact < 1 {
        1
    } else {
        exact as nat
    }
}

pub proof fn lemma_log2_unique(x: nat, k: nat)
    requires
        two_to(k) <= x < two_to(k + 1),
    ensures
        floor_log2(x) == k,
    decreases k,
{
    reveal_with_fuel(two_to, 2);
    if k > 0 {
        assert(two_to(k) == 2 * two_to((k - 1) as nat));
        lemma_two_to_positive((k - 1) as nat);
        lemma_log2_unique(x / 2, (k - 1) as nat);
    }
}

/// The number lies between two neighbouring powers of two.
pub proof fn lemma_log2_bounds(x: nat)
    requires
        x > 0,
    ensures
        two_to(floor_log2(x)) <= x < two_to(floor_log2(x) + 1),
    decreases x,
{
    reveal_with_fuel(two_to, 2);
    if x >= 2 {
        lemma_log2_bounds(x / 2);
    }
}

pub proof fn lemma_two_to_positive(n: nat)
    ensures
        two_to(n) > 0,
    decreases n,
{
    if n > 0 {
        lemma_two_to_positive((n - 1) as nat);
    }
}

pub proof fn lemma_two_to_monotone(a: nat, b: nat)
    requires
        a <= b,
    ensures
        two_to(a) <= two_to(b),
    decreases b,
{
    if a < b {
        lemma_two_to_monotone(a, (b - 1) as nat);
        lemma_two_to_positive((b - 1) as nat);
    }
}

/// A shifted one is a power of two.
pub proof fn lemma_shift(n: u64)
    requires
        n < 64,
    ensures
        (1u64 << n) == two_to(n as nat),
    decreases n,
{
    if n == 0 {
        assert(1u64 << 0u64 == 1) by (bit_vector);
    } else {
        let m = (n - 1) as u64;
        lemma_shift(m);
        assert((1u64 << n) == 2 * (1u64 << m)) by (bit_vector)
            requires
                0 < n < 64,
                m == n - 1,
        ;
    }
}

/// A latency falls into the bucket whose range holds it.
pub proof fn law_bucket_range(ns: u64)
    ensures
        0 <= bucket_of(ns) < NUM_BUCKETS,
        two_to(bucket_of(ns) as nat) - 1 <= ns,
        bucket_of(ns) < NUM_BUCKETS - 1 ==> ns < two_to((bucket_of(ns) + 1) as nat) - 1,
{
    lemma_log2_bounds((ns + 1) as nat);
    lemma_two_to_monotone(bucket_of(ns) as nat, floor_log2((ns + 1) as nat));
}

/// A longer latency never falls into an earlier bucket.
pub proof fn law_bucket_monotone(a: u64, b: u64)
    requires
        a <= b,
    ensures
        bucket_of(a) <= bucket_of(b),
{
    lemma_log2_monotone((a + 1) as nat, (b + 1) as nat);
}

proof fn lemma_log2_monotone(a: nat, b: nat)
    requires
        a <= b,
    ensures
        floor_log2(a) <= floor_log2(b),
    decreases b,
{
    if a >= 2 {
        lemma_log2_monotone(a / 2, b / 2);
    }
}

/// A latency histogram.
#[derive(Debug, Clone, Copy)]
pub struct LatencyHistogram {
    buckets: [u64; NUM_BUCKETS],
    count: u64,
    sum_ns: u64,
    max_ns: u64,
}

/// A histogram at one point in time.
#[derive(Debug, Clone, Copy)]
pub struct LatencySnapshot {
    pub buckets: [u64; NUM_BUCKETS],
    pub count: u64,
    pub sum_ns: u64,
    pub mean_ns: u64,
    pub max_ns: u64,
}

/// A histogram as a value.
#[verifier::ext_equal]
pub struct HistogramModel {
    pub buckets: Seq<u64>,
    pub count: u64,
    pub sum_ns: u64,
    pub max_ns: u64,
}

impl HistogramModel {
    pub open spec fn empty() -> HistogramModel {
        HistogramModel {
            buckets: Seq::new(NUM_BUCKETS as nat, |i: int| 0u64),
            count: 0,
            sum_ns: 0,
            max_ns: 0,
        }
    }

    /// The histogram with one more latency.
    pub open spec fn with(self, ns: u64) -> HistogramModel {
        let b = bucket_of(ns);
        HistogramModel {
            buckets: self.buckets.update(b, self.buckets[b].wrapping_add(1)),
            count: self.count.wrapping_add(1),
            sum_ns: self.sum_ns.wrapping_add(ns),
            max_ns: if ns > self.max_ns {
                ns
            } else {
                self.max_ns
            },
        }
    }

    /// Two histograms added up.
    pub open spec fn plus(self, other: HistogramModel) -> HistogramModel {
        HistogramModel {
            buckets: Seq::new(
                self.buckets.len(),
                |i: int| (self.buckets[i] + other.buckets[i]) as u64,
            ),
            count: (self.count + other.count) as u64,
            sum_ns: (self.sum_ns + other.sum_ns) as u64,
            max_ns: if other.max_ns > self.max_ns {
                other.max_ns
            } else {
                self.max_ns
            },
        }
    }

    /// The latency that the fraction `num / den` of the samples do not
    /// exceed, up to the width of a bucket: the upper edge of the bucket at
    /// which the running total reaches the rank.
    pub open spec fn percentile(self, num: u64, den: u64) -> u64 {
        let b = bucket_at_rank(self.buckets, rank_of(self.count, num, den), 0);
        if self.count == 0 {
            0
        } else if b < NUM_BUCKETS {
            (two_to(b + 1) - 1) as u64
        } else {
            self.max_ns
        }
    }

    /// The sums can be counted.
    pub open spec fn can_add(self, other: HistogramModel) -> bool {
        &&& forall|i: int|
            0 <= i < NUM_BUCKETS ==> #[trigger] self.buckets[i] + other.buckets[i] <= u64::MAX
        &&& self.count + other.count <= u64::MAX
        &&& self.sum_ns + other.sum_ns <= u64::MAX
    }
}

impl LatencyHistogram {
    pub closed spec fn view(self) -> HistogramModel {
        HistogramModel {
            buckets: self.buckets@,
            count: self.count,
            sum_ns: self.sum_ns,
            max_ns: self.max_ns,
        }
    }

    pub fn new() -> (h: LatencyHistogram)
        ensures
            h@ == HistogramModel::empty(),
    {
        let h = LatencyHistogram { buckets: [0u64; 32], count: 0, sum_ns: 0, max_ns: 0 };
        assert(h@ =~= HistogramModel::empty());
        h
    }

    /// The bucket of a latency: the logarithm of one more than it, rounded
    /// down, and at most the last bucket.
    pub fn bucket_for(ns: u64) -> (b: usize)
        ensures
            b == bucket_of(ns),
            b < NUM_BUCKETS,
    {
        let x: u64 = ns.saturating_add(1);
        let zeros: u32 = x.leading_zeros();
        let ghost n: u64 = (63 - zeros) as u64;
        proof {
            vstd::std_specs::bits::axiom_u64_leading_zeros(x);
            let z = zeros as u64;
            assert((x >> n) & 1u64 != 0u64 ==> (1u64 << n) <= x) by (bit_vector)
                requires
                    n < 64,
            ;
            lemma_shift(n);
            if n < 63 {
                let m = (n + 1) as u64;
                lemma_shift(m);
                assert(x >> m == 0u64 ==> x < (1u64 << m)) by (bit_vector)
                    requires
                        m < 64,
                ;
            } else {
                lemma_two_to_64();
            }
            lemma_log2_unique(x as nat, n as nat);
            if ns == u64::MAX {
                lemma_log2_monotone(x as nat, (ns + 1) as nat);
            }
        }
        let idx: usize = (63 - zeros) as usize;
        if idx < NUM_BUCKETS {
            idx
        } else {
            NUM_BUCKETS - 1
        }
    }

    /// Counts a latency. Of a latency of 2^64 nanoseconds or more only the
    /// low 64 bits count.
    pub fn record(&mut self, nanos: u128)
        ensures
            final(self)@ == old(self)@.with(nanos as u64),
    {
        let ns: u64 = nanos as u64;
        let bucket: usize = Self::bucket_for(ns);
        self.buckets[bucket] = self.buckets[bucket].wrapping_add(1);
        self.count = self.count.wrapping_add(1);
        self.sum_ns = self.sum_ns.wrapping_add(ns);
        if ns > self.max_ns {
            self.max_ns = ns;
        }
        assert(self@ =~= old(self)@.with(nanos as u64));
    }

    pub fn snapshot(&self) -> (s: LatencySnapshot)
        ensures
            s@ == self@,
            s.mean_ns == mean(s.sum_ns, s.count),
    {
        LatencySnapshot {
            buckets: self.buckets,
            count: self.count,
            sum_ns: self.sum_ns,
            mean_ns: if self.count > 0 {
                self.sum_ns / self.count
            } else {
                0
            },
            max_ns: self.max_ns,
        }
    }

    /// Forgets everything.
    pub fn reset(&mut self)
        ensures
            final(self)@ == HistogramModel::empty(),
    {
        *self = LatencyHistogram::new();
    }
}

proof fn lemma_two_to_64()
    ensures
        two_to(64) == 0x1_0000_0000_0000_0000,
{
    lemma_shift(63);
    assert(1u64 << 63u64 == 0x8000_0000_0000_0000) by (bit_vector);
}

impl Default for LatencyHistogram {
    fn default() -> (h: LatencyHistogram)
        ensures
            h@ == HistogramModel::empty(),
    {
        LatencyHistogram::new()
    }
}

impl Default for LatencySnapshot {
    fn default() -> (s: LatencySnapshot)
        ensures
            s@ == HistogramModel::empty(),
            s.mean_ns == 0,
    {
        let s = LatencySnapshot {
            buckets: [0u64; 32],
            count: 0,
            sum_ns: 0,
            mean_ns: 0,
            max_ns: 0,
        };
        assert(s@ =~= HistogramModel::empty());
        s
    }
}

impl LatencySnapshot {
    pub open spec fn view(self) -> HistogramModel {
        HistogramModel {
            buckets: self.buckets@,
            count: self.count,
            sum_ns: self.sum_ns,
            max_ns: self.max_ns,
        }
    }

    /// The percentile of the samples in the snapshot.
    pub open spec fn spec_percentile(self, num: u64, den: u64) -> u64 {
        self@.percentile(num, den)
    }

    /// The upper edge of the bucket at which the running total of the counts
    /// reaches `rank`, the largest latency if it never does.
    pub fn value_at_rank(&self, rank: u64) -> (r: u64)
        ensures
            ({
                let b = bucket_at_rank(self.buckets@, rank as nat, 0);
                r == if b < NUM_BUCKETS {
                    (two_to(b + 1) - 1) as u64
                } else {
                    self.max_ns
                }
            }),
    {
        let mut running: u128 = 0;
        let mut i: usize = 0;
        assert(self.buckets@.take(0) =~= Seq::<u64>::empty());
        while i < NUM_BUCKETS
            invariant
                i <= NUM_BUCKETS,
                running == total(self.buckets@.take(i as int)),
                running <= i * 0x1_0000_0000_0000_0000,
                bucket_at_rank(self.buckets@, rank as nat, 0) == bucket_at_rank(
                    self.buckets@,
                    rank as nat,
                    i as nat,
                ),
            decreases NUM_BUCKETS - i,
        {
            proof {
                let part = self.buckets@.take(i + 1);
                assert(part.drop_last() =~= self.buckets@.take(i as int));
                assert(part.last() == self.buckets@[i as int]);
            }
            running = running + self.buckets[i] as u128;
            if running >= rank as u128 {
                proof {
                    lemma_shift((i + 1) as u64);
                    lemma_two_to_positive((i + 1) as nat);
                }
                return (1u64 << (i as u64 + 1)) - 1;
            }
            i += 1;
        }
        self.max_ns
    }

    /// The rank of the fraction `num / den` of the samples.
    fn rank(&self, num: u64, den: u64) -> (r: u64)
        requires
            0 < num <= den,
        ensures
            r == rank_of(self.count, num, den),
    {
        proof {
            lemma_rank_bound(self.count as int, num as int, den as int);
        }
        let exact: u128 = (self.count as u128 * num as u128 + den as u128 - 1) / den as u128;
        if exact < 1 {
            1
        } else {
            exact as u64
        }
    }

    fn percentile_of(&self, num: u64, den: u64) -> (r: u64)
        requires
            0 < num <= den,
        ensures
            r == self.spec_percentile(num, den),
    {
        if self.count == 0 {
            return 0;
        }
        self.value_at_rank(self.rank(num, den))
    }

    /// The median.
    pub fn p50(&self) -> (r: u64)
        ensures
            r == self.spec_percentile(50, 100),
    {
        self.percentile_of(50, 100)
    }

    pub fn p90(&self) -> (r: u64)
        ensures
            r == self.spec_percentile(90, 100),
    {
        self.percentile_of(90, 100)
    }

    pub fn p99(&self) -> (r: u64)
        ensures
            r == self.spec_percentile(99, 100),
    {
        self.percentile_of(99, 100)
    }

    pub fn p999(&self) -> (r: u64)
        ensures
            r == self.spec_percentile(999, 1000),
    {
        self.percentile_of(999, 1000)
    }

    /// Adds the counts of another snapshot to this one. Percentiles of the
    /// sum are those of both populations together.
    pub fn merge(&mut self, other: &LatencySnapshot)
        requires
            old(self)@.can_add(other@),
        ensures
            final(self)@ == old(self)@.plus(other@),
            final(self).mean_ns == mean(final(self).sum_ns, final(self).count),
    {
        let ghost pre = self@;
        let mut i: usize = 0;
        while i < NUM_BUCKETS
            invariant
                i <= NUM_BUCKETS,
                pre.can_add(other@),
                pre.buckets.len() == NUM_BUCKETS,
                self.count == pre.count,
                self.sum_ns == pre.sum_ns,
                self.max_ns == pre.max_ns,
                forall|j: int|
                    0 <= j < i ==> #[trigger] self.buckets@[j] == pre.buckets[j]
                        + other.buckets@[j],
                forall|j: int| i <= j < NUM_BUCKETS ==> #[trigger] self.buckets@[j] == pre.buckets[j],
            decreases NUM_BUCKETS - i,
        {
            assert(pre.buckets[i as int] + other@.buckets[i as int] <= u64::MAX);
            self.buckets[i] = self.buckets[i] + other.buckets[i];
            i += 1;
        }
        self.count = self.count + other.count;
        self.sum_ns = self.sum_ns + other.sum_ns;
        self.mean_ns = if self.count > 0 {
            self.sum_ns / self.count
        } else {
            0
        };
        if other.max_ns > self.max_ns {
            self.max_ns = other.max_ns;
        }
        assert(self@ =~= pre.plus(other@));
    }
}

/// A rank never exceeds the number of samples.
proof fn lemma_rank_bound(count: int, num: int, den: int)
    requires
        0 <= count <= u64::MAX,
        0 < num <= den <= u64::MAX,
    ensures
        0 <= count * num <= 0xFFFF_FFFF_FFFF_FFFF * 0xFFFF_FFFF_FFFF_FFFF,
        0 <= (count * num + den - 1) / den <= count,
{
    assert(0 <= count * num <= 0xFFFF_FFFF_FFFF_FFFF * 0xFFFF_FFFF_FFFF_FFFF) by (nonlinear_arith)
        requires
            0 <= count <= 0xFFFF_FFFF_FFFF_FFFF,
            0 < num <= 0xFFFF_FFFF_FFFF_FFFF,
    ;
    assert(0 <= (count * num + den - 1) / den <= count) by (nonlinear_arith)
        requires
            0 <= count,
            0 < num <= den,
    ;
}

/// The counters and latencies of one matching engine.
#[derive(Debug, Clone, Copy)]
pub struct EngineMetrics {
    pub match_latency: LatencyHistogram,
    pub risk_check_latency: LatencyHistogram,
    pub orders_processed: u64,
    pub fills_generated: u64,
    pub risk_rejects: u64,
    pub idle_spins: u64,
    /// Events that were dropped because the ring they go out on stayed full.
    /// Anything but zero means that others work on stale data.
    pub outbound_drops: u64,
    pub wal_failures: u64,
}

/// The metrics of an engine at one point in time.
#[derive(Debug, Clone, Copy)]
pub struct EngineMetricsSnapshot {
    pub match_latency: LatencySnapshot,
    pub risk_check_latency: LatencySnapshot,
    pub orders_processed: u64,
    pub fills_generated: u64,
    pub risk_rejects: u64,
    pub idle_spins: u64,
}

impl Default for EngineMetricsSnapshot {
    fn default() -> (s: EngineMetricsSnapshot)
        ensures
            s.is_zero(),
    {
        EngineMetricsSnapshot {
            match_latency: LatencySnapshot::default(),
            risk_check_latency: LatencySnapshot::default(),
            orders_processed: 0,
            fills_generated: 0,
            risk_rejects: 0,
            idle_spins: 0,
        }
    }
}

impl EngineMetricsSnapshot {
    /// Nothing has been counted.
    pub open spec fn is_zero(self) -> bool {
        &&& self.match_latency@ == HistogramModel::empty()
        &&& self.match_latency.mean_ns == 0
        &&& self.risk_check_latency@ == HistogramModel::empty()
        &&& self.risk_check_latency.mean_ns == 0
        &&& self.orders_processed == 0
        &&& self.fills_generated == 0
        &&& self.risk_rejects == 0
        &&& self.idle_spins == 0
    }
}

impl EngineMetrics {
    /// The metrics after an order with `fills` fills.
    pub open spec fn with_order(self, fills: u64, risk_rejected: bool) -> EngineMetrics {
        EngineMetrics {
            orders_processed: self.orders_processed.wrapping_add(1),
            risk_rejects: if risk_rejected {
                self.risk_rejects.wrapping_add(1)
            } else {
                self.risk_rejects
            },
            fills_generated: if risk_rejected {
                self.fills_generated
            } else {
                self.fills_generated.wrapping_add(fills)
            },
            ..self
        }
    }

    pub fn new() -> (m: EngineMetrics)
        ensures
            m.match_latency@ == HistogramModel::empty(),
            m.risk_check_latency@ == HistogramModel::empty(),
            m == (EngineMetrics {
                match_latency: m.match_latency,
                risk_check_latency: m.risk_check_latency,
                orders_processed: 0,
                fills_generated: 0,
                risk_rejects: 0,
                idle_spins: 0,
                outbound_drops: 0,
                wal_failures: 0,
            }),
    {
        EngineMetrics {
            match_latency: LatencyHistogram::new(),
            risk_check_latency: LatencyHistogram::new(),
            orders_processed: 0,
            fills_generated: 0,
            risk_rejects: 0,
            idle_spins: 0,
            outbound_drops: 0,
            wal_failures: 0,
        }
    }

    /// Counts an order: as rejected, or with its fills.
    pub fn record_order(&mut self, fills: u64, risk_rejected: bool)
        ensures
            *final(self) == old(self).with_order(fills, risk_rejected),
    {
        self.orders_processed = self.orders_processed.wrapping_add(1);
        if risk_rejected {
            self.risk_rejects = self.risk_rejects.wrapping_add(1);
        } else if fills > 0 {
            self.fills_generated = self.fills_generated.wrapping_add(fills);
        }
    }

    /// Counts a failed write to the log.
    pub fn record_wal_failure(&mut self)
        ensures
            *final(self) == (EngineMetrics {
                wal_failures: old(self).wal_failures.wrapping_add(1),
                ..*old(self)
            }),
    {
        self.wal_failures = self.wal_failures.wrapping_add(1);
    }

    /// Counts a turn of the loop without a command.
    pub fn record_idle_spin(&mut self)
        ensures
            *final(self) == (EngineMetrics {
                idle_spins: old(self).idle_spins.wrapping_add(1),
                ..*old(self)
            }),
    {
        self.idle_spins = self.idle_spins.wrapping_add(1);
    }

    /// Counts an event that could not be published.
    pub fn record_outbound_drop(&mut self)
        ensures
            *final(self) == (EngineMetrics {
                outbound_drops: old(self).outbound_drops.wrapping_add(1),
                ..*old(self)
            }),
    {
        self.outbound_drops = self.outbound_drops.wrapping_add(1);
    }

    /// What the snapshot shows of the metrics.
    pub open spec fn shown_by(self, s: EngineMetricsSnapshot) -> bool {
        &&& s.match_latency@ == self.match_latency@
        &&& s.match_latency.mean_ns == mean(s.match_latency.sum_ns, s.match_latency.count)
        &&& s.risk_check_latency@ == self.risk_check_latency@
        &&& s.risk_check_latency.mean_ns == mean(
            s.risk_check_latency.sum_ns,
            s.risk_check_latency.count,
        )
        &&& s.orders_processed == self.orders_processed
        &&& s.fills_generated == self.fills_generated
        &&& s.risk_rejects == self.risk_rejects
        &&& s.idle_spins == self.idle_spins
    }

    pub fn snapshot(&self) -> (s: EngineMetricsSnapshot)
        ensures
            self.shown_by(s),
    {
        EngineMetricsSnapshot {
            match_latency: self.match_latency.snapshot(),
            risk_check_latency: self.risk_check_latency.snapshot(),
            orders_processed: self.orders_processed,
            fills_generated: self.fills_generated,
            risk_rejects: self.risk_rejects,
            idle_spins: self.idle_spins,
        }
    }

    /// Starts a new interval. Drops and failures are counted over the whole
    /// life of the engine and stay.
    pub fn reset_intervals(&mut self)
        ensures
            final(self).match_latency@ == HistogramModel::empty(),
            final(self).risk_check_latency@ == HistogramModel::empty(),
            *final(self) == (EngineMetrics {
                match_latency: final(self).match_latency,
                risk_check_latency: final(self).risk_check_latency,
                orders_processed: 0,
                fills_generated: 0,
                risk_rejects: 0,
                idle_spins: 0,
                ..*old(self)
            }),
    {
        self.match_latency.reset();
        self.risk_check_latency.reset();
        self.orders_processed = 0;
        self.fills_generated = 0;
        self.risk_rejects = 0;
        self.idle_spins = 0;
    }
}

/// The total of a changed list of counts.
proof fn lemma_total_update(counts: Seq<u64>, i: int, v: u64)
    requires
        0 <= i < counts.len(),
    ensures
        total(counts.update(i, v)) == total(counts) - counts[i] + v,
    decreases counts.len(),
{
    let later = counts.update(i, v);
    if i == counts.len() - 1 {
        assert(later.drop_last() =~= counts.drop_last());
    } else {
        assert(later.drop_last() =~= counts.drop_last().update(i, v));
        lemma_total_update(counts.drop_last(), i, v);
    }
}

/// No count exceeds the total.
proof fn lemma_total_bounds(counts: Seq<u64>, i: int)
    requires
        0 <= i < counts.len(),
    ensures
        counts[i] <= total(counts),
    decreases counts.len(),
{
    if i < counts.len() - 1 {
        lemma_total_bounds(counts.drop_last(), i);
    }
}

/// Every sample is in exactly one bucket: the buckets add up to the count,
/// and recording one more latency keeps it so. (The count must not be at the
/// end of its range, where it wraps around.)
pub proof fn law_buckets_add_up(h: HistogramModel, ns: u64)
    requires
        h.buckets.len() == NUM_BUCKETS,
        total(h.buckets) == h.count,
        h.count < u64::MAX,
    ensures
        total(h.with(ns).buckets) == h.with(ns).count,
        h.with(ns).count == h.count + 1,
{
    law_bucket_range(ns);
    let b = bucket_of(ns);
    lemma_total_bounds(h.buckets, b);
    lemma_total_update(h.buckets, b, h.buckets[b].wrapping_add(1));
}

/// The total of a front part does not shrink as the part grows.
proof fn lemma_total_monotone(counts: Seq<u64>, a: int, b: int)
    requires
        0 <= a <= b <= counts.len(),
    ensures
        total(counts.take(a)) <= total(counts.take(b)),
    decreases b - a,
{
    if a < b {
        lemma_total_monotone(counts, a, b - 1);
        assert(counts.take(b).drop_last() =~= counts.take(b - 1));
    }
}

/// A higher rank is never reached in an earlier bucket, and a rank within the
/// total is reached.
proof fn lemma_rank_monotone(counts: Seq<u64>, low: nat, high: nat, from: nat)
    requires
        low <= high <= total(counts),
        from < counts.len(),
    ensures
        from <= bucket_at_rank(counts, low, from) <= bucket_at_rank(counts, high, from)
            < counts.len(),
    decreases counts.len() - from,
{
    if from + 1 == counts.len() {
        assert(counts.take(from as int + 1) =~= counts);
    } else {
        lemma_rank_monotone(counts, low, high, from + 1);
    }
}

/// Percentiles are in order: a larger fraction of the samples needs at least
/// the same latency.
pub proof fn law_percentiles_in_order(s: LatencySnapshot, n1: u64, n2: u64, den: u64)
    requires
        0 < n1 <= n2 <= den,
        total(s.buckets@) == s.count,
    ensures
        s.spec_percentile(n1, den) <= s.spec_percentile(n2, den),
{
    if s.count > 0 {
        let r1 = rank_of(s.count, n1, den);
        let r2 = rank_of(s.count, n2, den);
        lemma_rank_bound(s.count as int, n1 as int, den as int);
        lemma_rank_bound(s.count as int, n2 as int, den as int);
        let c = s.count as int;
        assert((c * n1 + den - 1) / den as int <= (c * n2 + den - 1) / den as int)
            by (nonlinear_arith)
            requires
                c >= 0,
                0 < n1 <= n2,
                0 < den,
        ;
        lemma_rank_monotone(s.buckets@, r1, r2, 0);
        let b1 = bucket_at_rank(s.buckets@, r1, 0);
        let b2 = bucket_at_rank(s.buckets@, r2, 0);
        lemma_two_to_monotone(b1 + 1, b2 + 1);
        lemma_two_to_monotone(b2 + 1, 32);
        lemma_two_to_positive(b1 + 1);
        lemma_shift(32);
        assert(1u64 << 32u64 == 0x1_0000_0000) by (bit_vector);
    }
}

/// Adding histograms is adding populations: the buckets of the sum add up to
/// the sum of the counts.
pub proof fn law_merge_adds_populations(a: HistogramModel, b: HistogramModel)
    requires
        a.buckets.len() == NUM_BUCKETS,
        b.buckets.len() == NUM_BUCKETS,
        a.can_add(b),
        total(a.buckets) == a.count,
        total(b.buckets) == b.count,
    ensures
        total(a.plus(b).buckets) == a.plus(b).count,
        a.plus(b).count == a.count + b.count,
{
    lemma_total_sum(a.buckets, b.buckets, a.plus(b).buckets);
}

proof fn lemma_total_sum(a: Seq<u64>, b: Seq<u64>, c: Seq<u64>)
    requires
        a.len() == b.len() == c.len(),
        forall|i: int| 0 <= i < a.len() ==> #[trigger] c[i] == a[i] + b[i],
    ensures
        total(c) == total(a) + total(b),
    decreases a.len(),
{
    if a.len() > 0 {
        let (x, y, z) = (a.drop_last(), b.drop_last(), c.drop_last());
        assert forall|i: int| 0 <= i < x.len() implies #[trigger] z[i] == x[i] + y[i] by {
            assert(c[i] == a[i] + b[i]);
        }
        lemma_total_sum(x, y, z);
        let last = a.len() - 1;
        assert(c[last] == a[last] + b[last]);
    }
}

/// The histogram of a list of latencies.
pub open spec fn recorded(list: Seq<u64>) -> HistogramModel
    decreases list.len(),
{
    if list.len() == 0 {
        HistogramModel::empty()
    } else {
        recorded(list.drop_last()).with(list.last())
    }
}

/// The sum of the latencies.
pub open spec fn sum_of(list: Seq<u64>) -> nat
    decreases list.len(),
{
    if list.len() == 0 {
        0
    } else {
        sum_of(list.drop_last()) + list.last() as nat
    }
}

/// How many of the latencies fall into a bucket before `k`.
pub open spec fn below(list: Seq<u64>, k: int) -> nat
    decreases list.len(),
{
    if list.len() == 0 {
        0
    } else {
        below(list.drop_last(), k) + (if bucket_of(list.last()) < k {
            1nat
        } else {
            0
        })
    }
}

/// What a list of latencies leaves in the histogram, as long as nothing wraps
/// around.
proof fn lemma_recorded(list: Seq<u64>)
    requires
        list.len() <= u64::MAX,
    ensures
        recorded(list).buckets.len() == NUM_BUCKETS,
        recorded(list).count == list.len(),
        forall|i: int|
            0 <= i < NUM_BUCKETS ==> (#[trigger] recorded(list).buckets[i]) <= list.len(),
        sum_of(list) <= u64::MAX ==> recorded(list).sum_ns == sum_of(list),
    decreases list.len(),
{
    if list.len() > 0 {
        lemma_recorded(list.drop_last());
        law_bucket_range(list.last());
        let front = recorded(list.drop_last());
        assert forall|i: int| 0 <= i < NUM_BUCKETS implies (#[trigger] recorded(
            list,
        ).buckets[i]) <= list.len() by {
            assert(front.buckets[i] <= list.len() - 1);
        }
    }
}

proof fn lemma_sum_concat(a: Seq<u64>, b: Seq<u64>)
    ensures
        sum_of(a + b) == sum_of(a) + sum_of(b),
    decreases b.len(),
{
    if b.len() == 0 {
        assert(a + b =~= a);
    } else {
        assert((a + b).drop_last() =~= a + b.drop_last());
        lemma_sum_concat(a, b.drop_last());
    }
}

/// Adding two histograms up is recording all latencies of both in one. (Their
/// number and their sum must stay within the range of the counters.)
pub proof fn law_merge_is_recording_both(a: Seq<u64>, b: Seq<u64>)
    requires
        a.len() + b.len() <= u64::MAX,
        sum_of(a) + sum_of(b) <= u64::MAX,
    ensures
        recorded(a).can_add(recorded(b)),
        recorded(a).plus(recorded(b)) == recorded(a + b),
    decreases b.len(),
{
    lemma_recorded(a);
    lemma_recorded(b);
    lemma_sum_concat(a, b);
    assert forall|i: int| 0 <= i < NUM_BUCKETS implies #[trigger] recorded(a).buckets[i]
        + recorded(b).buckets[i] <= u64::MAX by {
        assert(recorded(b).buckets[i] <= b.len());
    }
    if b.len() == 0 {
        assert(a + b =~= a);
        assert(recorded(a).plus(recorded(b)) =~= recorded(a));
    } else {
        let front = b.drop_last();
        let x = b.last();
        law_merge_is_recording_both(a, front);
        lemma_recorded(front);
        lemma_recorded(a + front);
        lemma_sum_concat(a, front);
        law_bucket_range(x);
        assert((a + b).drop_last() =~= a + front);
        assert((a + b).last() == x);
        assert forall|i: int| 0 <= i < NUM_BUCKETS implies #[trigger] recorded(a).plus(
            recorded(b),
        ).buckets[i] == recorded(a + b).buckets[i] by {
            assert(recorded(a).buckets[i] <= a.len());
            assert(recorded(front).buckets[i] <= front.len());
            assert(recorded(a).plus(recorded(front)).buckets[i] == recorded(a + front).buckets[i]);
        }
        assert(recorded(a).plus(recorded(b)) =~= recorded(a + b));
    }
}

/// The running total of the buckets counts the latencies in them.
proof fn lemma_running_total(list: Seq<u64>, k: int)
    requires
        list.len() <= u64::MAX,
        0 <= k <= NUM_BUCKETS,
    ensures
        total(recorded(list).buckets.take(k)) == below(list, k),
    decreases list.len(),
{
    lemma_recorded(list);
    if list.len() == 0 {
        lemma_zero_total(recorded(list).buckets.take(k));
    } else {
        let front = list.drop_last();
        let b = bucket_of(list.last());
        lemma_running_total(front, k);
        lemma_recorded(front);
        law_bucket_range(list.last());
        let was = recorded(front).buckets;
        let now = recorded(list).buckets;
        assert(was[b] <= front.len());
        if b < k {
            assert(now.take(k) =~= was.take(k).update(b, now[b]));
            lemma_total_update(was.take(k), b, now[b]);
        } else {
            assert(now.take(k) =~= was.take(k));
        }
    }
}

proof fn lemma_zero_total(counts: Seq<u64>)
    requires
        forall|i: int| 0 <= i < counts.len() ==> #[trigger] counts[i] == 0,
    ensures
        total(counts) == 0,
    decreases counts.len(),
{
    if counts.len() > 0 {
        lemma_zero_total(counts.drop_last());
        assert(counts[counts.len() - 1] == 0);
    }
}

/// Sorted latencies fall into the buckets one after the other.
proof fn lemma_below_sorted(list: Seq<u64>, k: int, j: int)
    requires
        forall|x: int, y: int| 0 <= x <= y < list.len() ==> #[trigger] list[x] <= #[trigger] list[y],
        0 <= j < list.len(),
    ensures
        below(list, k) <= list.len(),
        j < below(list, k) <==> bucket_of(list[j]) < k,
    decreases list.len(),
{
    let front = list.drop_last();
    let last = list.len() - 1;
    law_bucket_monotone(list[j], list[last]);
    if front.len() > 0 {
        let i = if j < front.len() {
            j
        } else {
            j - 1
        };
        lemma_below_sorted(front, k, i);
        law_bucket_monotone(list[last - 1], list[last]);
        lemma_below_sorted(front, k, last - 1);
        assert(front[i] == list[i] && front[last - 1] == list[last - 1]);
    } else {
        assert(below(front, k) == 0);
    }
}

/// The bucket at a rank is the first whose running total reaches it.
proof fn lemma_bucket_at_rank(counts: Seq<u64>, rank: nat, from: nat, b: nat)
    requires
        from <= b < counts.len(),
        total(counts.take(b as int + 1)) >= rank,
        forall|i: int| 0 <= i < b ==> total(#[trigger] counts.take(i + 1)) < rank,
    ensures
        bucket_at_rank(counts, rank, from) == b,
    decreases b - from,
{
    if from < b {
        assert(total(counts.take(from as int + 1)) < rank);
        lemma_bucket_at_rank(counts, rank, from + 1, b);
    }
}

/// A percentile is the upper edge of the bucket that holds the latency of its
/// rank: with the latencies sorted, the median is reported by the bucket of
/// the one in the middle, and it does not exceed what is reported, unless it
/// is beyond the last bucket.
pub proof fn law_percentile_is_in_its_bucket(list: Seq<u64>, num: u64, den: u64)
    requires
        0 < list.len() <= u64::MAX,
        0 < num <= den,
        forall|x: int, y: int| 0 <= x <= y < list.len() ==> #[trigger] list[x] <= #[trigger] list[y],
    ensures
        ({
            let rank = rank_of(list.len() as u64, num, den);
            let sample = list[rank - 1];
            let p = recorded(list).percentile(num, den);
            &&& 1 <= rank <= list.len()
            &&& p == two_to((bucket_of(sample) + 1) as nat) - 1
            &&& two_to(bucket_of(sample) as nat) - 1 <= sample
            &&& bucket_of(sample) < NUM_BUCKETS - 1 ==> sample < p
        }),
{
    let rank = rank_of(list.len() as u64, num, den);
    lemma_rank_bound(list.len() as int, num as int, den as int);
    let j = rank - 1;
    let b = bucket_of(list[j]);
    let counts = recorded(list).buckets;
    lemma_recorded(list);
    law_bucket_range(list[j]);
    lemma_running_total(list, b + 1);
    lemma_below_sorted(list, b + 1, j);
    assert forall|i: int| 0 <= i < b implies total(#[trigger] counts.take(i + 1)) < rank by {
        lemma_running_total(list, i + 1);
        lemma_below_sorted(list, i + 1, j);
    }
    lemma_bucket_at_rank(counts, rank, 0, b as nat);
    lemma_shift((b + 1) as u64);
    lemma_two_to_positive((b + 1) as nat);
}

/// The rank of a fraction is the smallest that covers it: so many samples are
/// at least the fraction, and one fewer would not be. It is at least one.
pub proof fn law_rank_covers_the_fraction(count: u64, num: u64, den: u64)
    requires
        den > 0,
    ensures
        ({
            let r = rank_of(count, num, den) as int;
            &&& r >= 1
            &&& r * den >= count * num
            &&& r > 1 ==> (r - 1) * den < count * num
        }),
{
    let a = count * num;
    let q = (a + den - 1) / den as int;
    assert(a >= 0) by (nonlinear_arith)
        requires
            a == count * num,
    ;
    assert(q * den <= a + den - 1 && a + den - 1 < q * den + den) by (nonlinear_arith)
        requires
            q == (a + den - 1) / den as int,
            den > 0,
    ;
    assert((q - 1) * den == q * den - den) by (nonlinear_arith);
    assert(q < 1 ==> q * den <= 0) by (nonlinear_arith)
        requires
            den > 0,
    ;
}

/// The mean is the sum divided by the count, rounded down; of nothing it is
/// zero.
pub proof fn law_mean_is_the_average(sum: u64, count: u64)
    ensures
        count == 0 ==> mean(sum, count) == 0,
        count > 0 ==> mean(sum, count) * count <= sum < (mean(sum, count) + 1) * count,
{
    if count > 0 {
        let q = sum / count;
        assert(q * count <= sum < (q + 1) * count) by (nonlinear_arith)
            requires
                q == sum / count,
                count > 0,
        ;
    }
}

/// A latency belongs into a bucket: the first holds zero, each of the next
/// twice as wide a range as the one before, and the last everything longer.
pub open spec fn belongs(ns: u64, i: int) -> bool {
    two_to(i as nat) - 1 <= ns && (i < 31 ==> ns < two_to((i + 1) as nat) - 1)
}

/// One more latency is counted in the bucket that it belongs into and in no
/// other. The count grows by one, the sum by the latency, and the maximum to
/// the latency if that is longer. There are 32 buckets. The counters wrap around.
pub proof fn law_one_more_latency(h: HistogramModel, ns: u64, i: int)
    requires
        h.buckets.len() == 32,
        0 <= i < 32,
    ensures
        h.with(ns).buckets.len() == 32,
        h.with(ns).buckets[i] == (h.buckets[i] + if belongs(ns, i) {
            1int
        } else {
            0
        }) % 0x1_0000_0000_0000_0000,
        h.with(ns).count == (h.count + 1) % 0x1_0000_0000_0000_0000,
        h.with(ns).sum_ns == (h.sum_ns + ns) % 0x1_0000_0000_0000_0000,
        h.with(ns).max_ns >= h.max_ns,
        h.with(ns).max_ns >= ns,
        h.with(ns).max_ns == h.max_ns || h.with(ns).max_ns == ns,
{
    law_bucket_range(ns);
    let b = bucket_of(ns);
    if b < i {
        lemma_two_to_monotone((b + 1) as nat, i as nat);
    } else if i < b {
        lemma_two_to_monotone((i + 1) as nat, b as nat);
    }
}

/// Two histograms are added up bucket by bucket; so are their counts and
/// sums, and the longer maximum stays. An empty one holds nothing.
pub proof fn law_histograms_add_up(a: HistogramModel, b: HistogramModel, i: int)
    requires
        a.buckets.len() == 32,
        b.buckets.len() == 32,
        a.can_add(b),
        0 <= i < 32,
    ensures
        a.plus(b).buckets.len() == 32,
        a.plus(b).buckets[i] == a.buckets[i] + b.buckets[i],
        a.plus(b).count == a.count + b.count,
        a.plus(b).sum_ns == a.sum_ns + b.sum_ns,
        a.plus(b).max_ns >= a.max_ns,
        a.plus(b).max_ns >= b.max_ns,
        a.plus(b).max_ns == a.max_ns || a.plus(b).max_ns == b.max_ns,
        HistogramModel::empty().buckets.len() == 32,
        HistogramModel::empty().buckets[i] == 0,
        HistogramModel::empty().count == 0,
        HistogramModel::empty().sum_ns == 0,
        HistogramModel::empty().max_ns == 0,
{
}

/// Histograms can be added if every sum fits.
pub proof fn law_when_histograms_add_up(a: HistogramModel, b: HistogramModel)
    ensures
        a.can_add(b) <==> a.count + b.count <= u64::MAX && a.sum_ns + b.sum_ns <= u64::MAX && (
        forall|i: int| 0 <= i < 32 ==> #[trigger] a.buckets[i] + b.buckets[i] <= u64::MAX),
{
}

/// Of an empty histogram every percentile is zero.
pub proof fn law_no_samples_no_latency(h: HistogramModel, num: u64, den: u64)
    ensures
        h.count == 0 ==> h.percentile(num, den) == 0,
{
}

/// An order counts once, as rejected if the risk check turned it down, and
/// otherwise with its fills. Nothing else is counted. The counters wrap around.
pub proof fn law_what_an_order_counts(m: EngineMetrics, fills: u64, risk_rejected: bool)
    ensures
        ({
            let n = m.with_order(fills, risk_rejected);
            &&& n.orders_processed == (m.orders_processed + 1) % 0x1_0000_0000_0000_0000
            &&& n.risk_rejects == (m.risk_rejects + if risk_rejected {
                1int
            } else {
                0
            }) % 0x1_0000_0000_0000_0000
            &&& n.fills_generated == (m.fills_generated + if risk_rejected {
                0int
            } else {
                fills as int
            }) % 0x1_0000_0000_0000_0000
            &&& n.match_latency == m.match_latency
            &&& n.risk_check_latency == m.risk_check_latency
            &&& n.idle_spins == m.idle_spins
            &&& n.outbound_drops == m.outbound_drops
            &&& n.wal_failures == m.wal_failures
        }),
{
}

/// A snapshot shows the metrics as they are: the counters, and of the
/// latencies the buckets, the count, the sum, the maximum and the mean.
pub proof fn law_snapshot_shows_the_metrics(m: EngineMetrics, s: EngineMetricsSnapshot, i: int)
    requires
        m.shown_by(s),
        0 <= i < 32,
    ensures
        s.orders_processed == m.orders_processed,
        s.fills_generated == m.fills_generated,
        s.risk_rejects == m.risk_rejects,
        s.idle_spins == m.idle_spins,
        s.match_latency.buckets@[i] == m.match_latency@.buckets[i],
        s.match_latency.count == m.match_latency@.count,
        s.match_latency.sum_ns == m.match_latency@.sum_ns,
        s.match_latency.max_ns == m.match_latency@.max_ns,
        s.match_latency.count > 0 ==> s.match_latency.mean_ns == s.match_latency.sum_ns
            / s.match_latency.count,
        s.match_latency.count == 0 ==> s.match_latency.mean_ns == 0,
        s.risk_check_latency.buckets@[i] == m.risk_check_latency@.buckets[i],
        s.risk_check_latency.count == m.risk_check_latency@.count,
        s.risk_check_latency.sum_ns == m.risk_check_latency@.sum_ns,
        s.risk_check_latency.max_ns == m.risk_check_latency@.max_ns,
        s.risk_check_latency.count > 0 ==> s.risk_check_latency.mean_ns
            == s.risk_check_latency.sum_ns / s.risk_check_latency.count,
        s.risk_check_latency.count == 0 ==> s.risk_check_latency.mean_ns == 0,
{
    assert(s.match_latency@.buckets == m.match_latency@.buckets);
    assert(s.risk_check_latency@.buckets == m.risk_check_latency@.buckets);
}

/// A snapshot of nothing has every counter, bucket, sum, mean and maximum at
/// zero.
pub proof fn law_snapshot_of_nothing(s: EngineMetricsSnapshot, i: int)
    requires
        s.is_zero(),
        0 <= i < 32,
    ensures
        s.orders_processed == 0 && s.fills_generated == 0 && s.risk_rejects == 0 && s.idle_spins
            == 0,
        s.match_latency.buckets@[i] == 0 && s.match_latency.count == 0 && s.match_latency.sum_ns
            == 0 && s.match_latency.mean_ns == 0 && s.match_latency.max_ns == 0,
        s.risk_check_latency.buckets@[i] == 0 && s.risk_check_latency.count == 0
            && s.risk_check_latency.sum_ns == 0 && s.risk_check_latency.mean_ns == 0
            && s.risk_check_latency.max_ns == 0,
{
    assert(s.match_latency@.buckets[i] == 0);
    assert(s.risk_check_latency@.buckets[i] == 0);
}

/// Each power of two is twice the one before, and counts add up one by one.
pub proof fn law_powers_and_totals(n: nat, a: Seq<u64>, b: Seq<u64>)
    ensures
        two_to(0) == 1,
        two_to(n + 1) == two_to(n) + two_to(n),
        total(a + b) == total(a) + total(b),
        a.len() == 0 ==> total(a) == 0,
        a.len() == 1 ==> total(a) == a[0],
    decreases b.len(),
{
    reveal_with_fuel(two_to, 2);
    reveal_with_fuel(total, 2);
    if b.len() == 0 {
        assert(a + b =~= a);
    } else {
        law_powers_and_totals(n, a, b.drop_last());
        assert((a + b).drop_last() =~= a + b.drop_last());
    }
}

/// Where the buckets do not hold as many samples as the rank asks for, the
/// percentile is the longest latency.
pub proof fn law_rank_beyond_the_buckets(h: HistogramModel, num: u64, den: u64)
    requires
        h.buckets.len() == 32,
        h.count > 0,
        total(h.buckets) < rank_of(h.count, num, den),
    ensures
        h.percentile(num, den) == h.max_ns,
{
    lemma_rank_not_reached(h.buckets, rank_of(h.count, num, den), 0);
}

proof fn lemma_rank_not_reached(counts: Seq<u64>, rank: nat, from: nat)
    requires
        from <= counts.len(),
        total(counts) < rank,
    ensures
        bucket_at_rank(counts, rank, from) == counts.len(),
    decreases counts.len() - from,
{
    if from < counts.len() {
        lemma_total_monotone(counts, from as int + 1, counts.len() as int);
        assert(counts.take(counts.len() as int) =~= counts);
        lemma_rank_not_reached(counts, rank, from + 1);
    }
}

} // verus!
