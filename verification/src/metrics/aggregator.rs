//! Collects the metrics of all matching shards and adds them up.
//!
//! The shards only ever write their own metrics. They are read here now and
//! then, away from the matching path.

use crate::matching_engine::metrics;
use crate::matching_engine::metrics::{
    EngineMetrics, EngineMetricsSnapshot, HistogramModel,
};
use vstd::prelude::*;

verus! {

/// Number of a matching shard.
pub type ShardId = u32;

/// The metrics of a registered shard.
#[derive(Debug, Clone, Copy)]
pub struct ShardHandle {
    pub shard_id: ShardId,
    pub metrics: EngineMetrics,
}

/// What is counted of a shard, or of all shards together.
#[verifier::ext_equal]
pub struct Counts {
    pub orders_processed: u64,
    pub fills_generated: u64,
    pub risk_rejects: u64,
    pub idle_spins: u64,
    pub match_latency: HistogramModel,
    pub risk_check_latency: HistogramModel,
}

impl Counts {
    pub open spec fn zero() -> Counts {
        Counts {
            orders_processed: 0,
            fills_generated: 0,
            risk_rejects: 0,
            idle_spins: 0,
            match_latency: HistogramModel::empty(),
            risk_check_latency: HistogramModel::empty(),
        }
    }

    /// Both added up. Latencies are added as populations, so that the
    /// percentiles of the sum are those of all samples together.
    pub open spec fn plus(self, other: Counts) -> Counts {
        Counts {
            orders_processed: (self.orders_processed + other.orders_processed) as u64,
            fills_generated: (self.fills_generated + other.fills_generated) as u64,
            risk_rejects: (self.risk_rejects + other.risk_rejects) as u64,
            idle_spins: (self.idle_spins + other.idle_spins) as u64,
            match_latency: self.match_latency.plus(other.match_latency),
            risk_check_latency: self.risk_check_latency.plus(other.risk_check_latency),
        }
    }

    /// The sums can be counted.
    pub open spec fn can_add(self, other: Counts) -> bool {
        &&& self.orders_processed + other.orders_processed <= u64::MAX
        &&& self.fills_generated + other.fills_generated <= u64::MAX
        &&& self.risk_rejects + other.risk_rejects <= u64::MAX
        &&& self.idle_spins + other.idle_spins <= u64::MAX
        &&& self.match_latency.can_add(other.match_latency)
        &&& self.risk_check_latency.can_add(other.risk_check_latency)
    }
}

/// What the metrics of an engine count.
pub open spec fn counts_of(m: EngineMetrics) -> Counts {
    Counts {
        orders_processed: m.orders_processed,
        fills_generated: m.fills_generated,
        risk_rejects: m.risk_rejects,
        idle_spins: m.idle_spins,
        match_latency: m.match_latency@,
        risk_check_latency: m.risk_check_latency@,
    }
}

/// What a snapshot counts.
pub open spec fn counts_in(s: EngineMetricsSnapshot) -> Counts {
    Counts {
        orders_processed: s.orders_processed,
        fills_generated: s.fills_generated,
        risk_rejects: s.risk_rejects,
        idle_spins: s.idle_spins,
        match_latency: s.match_latency@,
        risk_check_latency: s.risk_check_latency@,
    }
}

/// The means of a snapshot fit its sums.
pub open spec fn means_fit(s: EngineMetricsSnapshot) -> bool {
    &&& s.match_latency.mean_ns == metrics::mean(s.match_latency.sum_ns, s.match_latency.count)
    &&& s.risk_check_latency.mean_ns == metrics::mean(
        s.risk_check_latency.sum_ns,
        s.risk_check_latency.count,
    )
}

/// Counts by shard.
pub type ShardCounts = (ShardId, Counts);

/// The sum over all shards.
pub open spec fn totals_of(list: Seq<ShardCounts>) -> Counts
    decreases list.len(),
{
    if list.len() == 0 {
        Counts::zero()
    } else {
        totals_of(list.drop_last()).plus(list.last().1)
    }
}

/// The sum over all shards can be counted.
pub open spec fn fits(list: Seq<ShardCounts>) -> bool
    decreases list.len(),
{
    list.len() > 0 ==> fits(list.drop_last()) && totals_of(list.drop_last()).can_add(
        list.last().1,
    )
}

/// The place of a shard in the list, its length if it is not there.
pub open spec fn place_of(list: Seq<ShardCounts>, id: ShardId) -> int
    decreases list.len(),
{
    if list.len() == 0 || list[0].0 == id {
        0
    } else {
        1 + place_of(list.drop_first(), id)
    }
}

/// The list with the counts of one shard set. A shard stands in it once.
pub open spec fn with_shard(list: Seq<ShardCounts>, id: ShardId, counts: Counts) -> Seq<
    ShardCounts,
> {
    let p = place_of(list, id);
    if p < list.len() {
        list.update(p, (id, counts))
    } else {
        list.push((id, counts))
    }
}

/// What is collected from the shards. Of two with the same number the later
/// one counts.
pub open spec fn collected(shards: Seq<ShardHandle>) -> Seq<ShardCounts>
    decreases shards.len(),
{
    if shards.len() == 0 {
        Seq::empty()
    } else {
        with_shard(
            collected(shards.drop_last()),
            shards.last().shard_id,
            counts_of(shards.last().metrics),
        )
    }
}

/// The metrics can be added up while they are collected one by one.
pub open spec fn collectable(shards: Seq<ShardHandle>) -> bool
    decreases shards.len(),
{
    fits(collected(shards)) && (shards.len() > 0 ==> collectable(shards.drop_last()))
}

proof fn lemma_place_of(list: Seq<ShardCounts>, id: ShardId, p: int)
    requires
        0 <= p <= list.len(),
        forall|i: int| 0 <= i < p ==> (#[trigger] list[i]).0 != id,
        p < list.len() ==> list[p].0 == id,
    ensures
        place_of(list, id) == p,
    decreases list.len(),
{
    if p > 0 {
        let rest = list.drop_first();
        assert forall|i: int| 0 <= i < p - 1 implies (#[trigger] rest[i]).0 != id by {
            assert(rest[i] == list[i + 1]);
        }
        assert(list[0].0 != id);
        lemma_place_of(rest, id, p - 1);
    }
}

/// What a look-up by number finds.
proof fn lemma_place_found(list: Seq<ShardCounts>, id: ShardId)
    ensures
        0 <= place_of(list, id) <= list.len(),
        place_of(list, id) < list.len() ==> list[place_of(list, id)].0 == id,
        forall|i: int| 0 <= i < place_of(list, id) ==> (#[trigger] list[i]).0 != id,
    decreases list.len(),
{
    if list.len() > 0 && list[0].0 != id {
        let rest = list.drop_first();
        lemma_place_found(rest, id);
        assert forall|i: int| 0 <= i < place_of(list, id) implies (#[trigger] list[i]).0 != id by {
            if i > 0 {
                assert(list[i] == rest[i - 1]);
            }
        }
    }
}

/// No shard stands in the list twice.
pub open spec fn distinct(list: Seq<ShardCounts>) -> bool {
    forall|i: int, j: int|
        0 <= i < j < list.len() ==> (#[trigger] list[i]).0 != (#[trigger] list[j]).0
}

/// No shard is counted twice, whatever was registered how often.
pub proof fn law_no_shard_counts_twice(shards: Seq<ShardHandle>)
    ensures
        distinct(collected(shards)),
    decreases shards.len(),
{
    if shards.len() > 0 {
        law_no_shard_counts_twice(shards.drop_last());
        lemma_place_found(collected(shards.drop_last()), shards.last().shard_id);
    }
}

/// Where every shard has its own number, each of them counts, in the order of
/// registration.
pub proof fn law_each_shard_counts(shards: Seq<ShardHandle>)
    requires
        forall|i: int, j: int|
            0 <= i < j < shards.len() ==> (#[trigger] shards[i]).shard_id != (
            #[trigger] shards[j]).shard_id,
    ensures
        collected(shards).len() == shards.len(),
        forall|i: int|
            0 <= i < shards.len() ==> #[trigger] collected(shards)[i] == (
                shards[i].shard_id,
                counts_of(shards[i].metrics),
            ),
    decreases shards.len(),
{
    if shards.len() > 0 {
        let front = shards.drop_last();
        let before = collected(front);
        law_each_shard_counts(front);
        assert forall|i: int| 0 <= i < before.len() implies (#[trigger] before[i]).0
            != shards.last().shard_id by {
            assert(before[i].0 == front[i].shard_id);
            assert(shards[i].shard_id != shards[shards.len() - 1].shard_id);
        }
        lemma_place_of(before, shards.last().shard_id, before.len() as int);
    }
}

/// The totals do not depend on which of two shards was registered first.
pub proof fn law_totals_ignore_order(list: Seq<ShardCounts>, a: ShardCounts, b: ShardCounts)
    requires
        fits(list.push(a).push(b)),
        fits(list.push(b).push(a)),
    ensures
        totals_of(list.push(a).push(b)) == totals_of(list.push(b).push(a)),
{
    assert(list.push(a).push(b).drop_last() =~= list.push(a));
    assert(list.push(b).push(a).drop_last() =~= list.push(b));
    assert(list.push(a).drop_last() =~= list);
    assert(list.push(b).drop_last() =~= list);
    reveal_with_fuel(fits, 3);
    reveal_with_fuel(totals_of, 3);
    let x = totals_of(list);
    lemma_totals_buckets(list);
    let ab = x.plus(a.1).plus(b.1);
    let ba = x.plus(b.1).plus(a.1);
    lemma_histograms_commute(x.match_latency, a.1.match_latency, b.1.match_latency);
    lemma_histograms_commute(x.risk_check_latency, a.1.risk_check_latency, b.1.risk_check_latency);
    assert(ab =~= ba);
}

proof fn lemma_histograms_commute(x: HistogramModel, a: HistogramModel, b: HistogramModel)
    requires
        x.can_add(a),
        x.plus(a).can_add(b),
        x.can_add(b),
        x.plus(b).can_add(a),
        x.buckets.len() == metrics::NUM_BUCKETS,
    ensures
        x.plus(a).plus(b) == x.plus(b).plus(a),
{
    let ab = x.plus(a).plus(b);
    let ba = x.plus(b).plus(a);
    assert forall|i: int| 0 <= i < ab.buckets.len() implies ab.buckets[i] == ba.buckets[i] by {
        assert(x.buckets[i] + a.buckets[i] <= u64::MAX);
        assert(x.buckets[i] + b.buckets[i] <= u64::MAX);
        assert(x.plus(a).buckets[i] + b.buckets[i] <= u64::MAX);
        assert(x.plus(b).buckets[i] + a.buckets[i] <= u64::MAX);
    }
    assert(ab.buckets =~= ba.buckets);
}

proof fn lemma_totals_buckets(list: Seq<ShardCounts>)
    ensures
        totals_of(list).match_latency.buckets.len() == metrics::NUM_BUCKETS,
        totals_of(list).risk_check_latency.buckets.len() == metrics::NUM_BUCKETS,
    decreases list.len(),
{
    if list.len() > 0 {
        lemma_totals_buckets(list.drop_last());
    }
}

/// A combined view of all shards at one point in time.
#[derive(Debug, Clone)]
pub struct AggregatedSnapshot {
    /// When it was taken, in nanoseconds; `None` before the first time.
    pub taken_at: Option<u64>,
    /// The shards, each once.
    pub per_shard: Vec<(ShardId, EngineMetricsSnapshot)>,
    pub totals: EngineMetricsSnapshot,
}

impl Default for AggregatedSnapshot {
    fn default() -> (s: AggregatedSnapshot)
        ensures
            s.wf(),
            s.taken_at is None,
            s@ == Seq::<ShardCounts>::empty(),
    {
        let s = AggregatedSnapshot {
            taken_at: None,
            per_shard: Vec::new(),
            totals: EngineMetricsSnapshot::default(),
        };
        assert(s@ =~= Seq::<ShardCounts>::empty());
        assert(counts_in(s.totals) =~= Counts::zero());
        s
    }
}

impl AggregatedSnapshot {
    /// The counts by shard.
    pub open spec fn view(self) -> Seq<ShardCounts> {
        Seq::new(
            self.per_shard@.len(),
            |i: int| (self.per_shard@[i].0, counts_in(self.per_shard@[i].1)),
        )
    }

    /// The totals are the sum over the shards.
    pub open spec fn wf(self) -> bool {
        &&& counts_in(self.totals) == totals_of(self@)
        &&& means_fit(self.totals)
        &&& forall|i: int|
            0 <= i < self.per_shard@.len() ==> means_fit((#[trigger] self.per_shard@[i]).1)
    }

    /// Where a shard stands, the number of shards if it is not there.
    fn find(&self, shard_id: ShardId) -> (p: usize)
        ensures
            p == place_of(self@, shard_id),
    {
        let mut p: usize = 0;
        while p < self.per_shard.len()
            invariant
                p <= self.per_shard@.len(),
                forall|i: int| 0 <= i < p ==> (#[trigger] self@[i]).0 != shard_id,
            decreases self.per_shard@.len() - p,
        {
            if self.per_shard[p].0 == shard_id {
                proof {
                    lemma_place_of(self@, shard_id, p as int);
                }
                return p;
            }
            p += 1;
        }
        proof {
            lemma_place_of(self@, shard_id, p as int);
        }
        p
    }

    /// Sets the snapshot of one shard and adds everything up anew.
    pub fn merge(&mut self, shard_id: ShardId, snap: EngineMetricsSnapshot)
        requires
            old(self).wf(),
            means_fit(snap),
            fits(with_shard(old(self)@, shard_id, counts_in(snap))),
        ensures
            final(self).wf(),
            final(self).taken_at == old(self).taken_at,
            final(self)@ == with_shard(old(self)@, shard_id, counts_in(snap)),
    {
        let ghost target = with_shard(self@, shard_id, counts_in(snap));
        let p: usize = self.find(shard_id);
        proof {
            lemma_place_found(self@, shard_id);
        }
        if p < self.per_shard.len() {
            self.per_shard.set(p, (shard_id, snap));
        } else {
            self.per_shard.push((shard_id, snap));
        }
        assert(self@ =~= target);
        self.add_up();
    }

    /// Adds the shards up.
    fn add_up(&mut self)
        requires
            fits(old(self)@),
            forall|i: int|
                0 <= i < old(self).per_shard@.len() ==> means_fit(
                    (#[trigger] old(self).per_shard@[i]).1,
                ),
        ensures
            final(self).wf(),
            final(self).taken_at == old(self).taken_at,
            final(self).per_shard == old(self).per_shard,
    {
        let mut totals = EngineMetricsSnapshot::default();
        let mut i: usize = 0;
        let ghost list = self@;
        assert(list.take(0) =~= Seq::<ShardCounts>::empty());
        assert(counts_in(totals) =~= Counts::zero());
        proof {
            assert(list.take(list.len() as int) =~= list);
        }
        while i < self.per_shard.len()
            invariant
                *self == *old(self),
                list == self@,
                fits(list),
                i <= self.per_shard@.len(),
                counts_in(totals) == totals_of(list.take(i as int)),
                means_fit(totals),
            decreases self.per_shard@.len() - i,
        {
            proof {
                lemma_fits_prefix(list, i + 1);
                assert(list.take(i + 1).drop_last() =~= list.take(i as int));
                assert(list.take(i + 1).last() == list[i as int]);
            }
            let s: &EngineMetricsSnapshot = &self.per_shard[i].1;
            totals.orders_processed = totals.orders_processed + s.orders_processed;
            totals.fills_generated = totals.fills_generated + s.fills_generated;
            totals.risk_rejects = totals.risk_rejects + s.risk_rejects;
            totals.idle_spins = totals.idle_spins + s.idle_spins;
            totals.match_latency.merge(&s.match_latency);
            totals.risk_check_latency.merge(&s.risk_check_latency);
            assert(counts_in(totals) =~= totals_of(list.take(i + 1)));
            i += 1;
        }
        self.totals = totals;
        assert(list.take(i as int) =~= list);
        assert(self@ =~= list);
    }
}

/// If the whole list can be added up, so can a part.
proof fn lemma_fits_prefix(list: Seq<ShardCounts>, j: int)
    requires
        fits(list),
        0 <= j <= list.len(),
    ensures
        fits(list.take(j)),
    decreases list.len() - j,
{
    if j < list.len() {
        lemma_fits_prefix(list, j + 1);
        assert(list.take(j + 1).drop_last() =~= list.take(j));
    } else {
        assert(list.take(j) =~= list);
    }
}

/// Collects the metrics of the registered shards, on demand or at most once
/// per interval. Times are in nanoseconds of any one clock.
#[derive(Debug, Clone)]
pub struct MetricsAggregator {
    pub shards: Vec<ShardHandle>,
    pub last_snapshot: AggregatedSnapshot,
    pub interval_ns: u64,
    pub last_collected: u64,
}

impl MetricsAggregator {
    /// The interval is over.
    pub open spec fn is_due(self, now_ns: u64) -> bool {
        now_ns - self.last_collected >= self.interval_ns || self.interval_ns == 0
    }

    pub fn new(interval_ns: u64, now_ns: u64) -> (a: MetricsAggregator)
        ensures
            a.shards@ == Seq::<ShardHandle>::empty(),
            a.last_snapshot.wf(),
            a.last_snapshot.taken_at is None,
            a.last_snapshot@ == Seq::<ShardCounts>::empty(),
            a.interval_ns == interval_ns,
            a.last_collected == now_ns,
    {
        MetricsAggregator {
            shards: Vec::new(),
            last_snapshot: AggregatedSnapshot::default(),
            interval_ns,
            last_collected: now_ns,
        }
    }

    /// Adds a shard.
    pub fn register_shard(&mut self, shard_id: ShardId, metrics: EngineMetrics)
        ensures
            final(self).shards@ == old(self).shards@.push(ShardHandle { shard_id, metrics }),
            final(self).last_snapshot == old(self).last_snapshot,
            final(self).interval_ns == old(self).interval_ns,
            final(self).last_collected == old(self).last_collected,
    {
        self.shards.push(ShardHandle { shard_id, metrics });
    }

    /// Brings in the metrics that a shard has reached meanwhile. An id that was
    /// never registered changes nothing.
    pub fn update_shard(&mut self, shard_id: ShardId, metrics: EngineMetrics)
        ensures
            final(self).shards@ == Seq::new(
                old(self).shards@.len(),
                |i: int|
                    if old(self).shards@[i].shard_id == shard_id {
                        ShardHandle { shard_id, metrics }
                    } else {
                        old(self).shards@[i]
                    },
            ),
            final(self).last_snapshot == old(self).last_snapshot,
            final(self).interval_ns == old(self).interval_ns,
            final(self).last_collected == old(self).last_collected,
    {
        let n: usize = self.shards.len();
        let mut i: usize = 0;
        while i < n
            invariant
                n == self.shards@.len() == old(self).shards@.len(),
                i <= n,
                self.last_snapshot == old(self).last_snapshot,
                self.interval_ns == old(self).interval_ns,
                self.last_collected == old(self).last_collected,
                forall|j: int|
                    0 <= j < i ==> #[trigger] self.shards@[j] == if old(self).shards@[j].shard_id
                        == shard_id {
                        ShardHandle { shard_id, metrics }
                    } else {
                        old(self).shards@[j]
                    },
                forall|j: int| i <= j < n ==> #[trigger] self.shards@[j] == old(self).shards@[j],
            decreases n - i,
        {
            if self.shards[i].shard_id == shard_id {
                self.shards[i] = ShardHandle { shard_id, metrics };
            }
            i += 1;
        }
    }

    /// Collects from all shards.
    pub fn collect_now(&mut self, now_ns: u64) -> (snap: &AggregatedSnapshot)
        requires
            collectable(old(self).shards@),
        ensures
            *snap == final(self).last_snapshot,
            final(self).last_snapshot.wf(),
            final(self).last_snapshot.taken_at == Some(now_ns),
            final(self).last_snapshot@ == collected(old(self).shards@),
            final(self).shards == old(self).shards,
            final(self).interval_ns == old(self).interval_ns,
            final(self).last_collected == now_ns,
    {
        self.collect(now_ns);
        &self.last_snapshot
    }

    fn collect(&mut self, now_ns: u64)
        requires
            collectable(old(self).shards@),
        ensures
            final(self).last_snapshot.wf(),
            final(self).last_snapshot.taken_at == Some(now_ns),
            final(self).last_snapshot@ == collected(old(self).shards@),
            final(self).shards == old(self).shards,
            final(self).interval_ns == old(self).interval_ns,
            final(self).last_collected == now_ns,
    {
        let mut snap = AggregatedSnapshot::default();
        snap.taken_at = Some(now_ns);
        let mut i: usize = 0;
        let ghost all = self.shards@;
        assert(all.take(0) =~= Seq::<ShardHandle>::empty());
        assert(snap@ =~= collected(all.take(0)));
        proof {
            assert(all.take(all.len() as int) =~= all);
        }
        while i < self.shards.len()
            invariant
                *self == *old(self),
                all == self.shards@,
                collectable(all),
                i <= all.len(),
                snap.wf(),
                snap.taken_at == Some(now_ns),
                snap@ == collected(all.take(i as int)),
            decreases all.len() - i,
        {
            proof {
                lemma_collectable_prefix(all, i + 1);
                assert(all.take(i + 1).drop_last() =~= all.take(i as int));
                assert(all.take(i + 1).last() == all[i as int]);
            }
            let s = self.shards[i].metrics.snapshot();
            assert(counts_in(s) =~= counts_of(all[i as int].metrics));
            snap.merge(self.shards[i].shard_id, s);
            i += 1;
        }
        assert(all.take(i as int) =~= all);
        self.last_snapshot = snap;
        self.last_collected = now_ns;
    }

    /// Collects if the interval is over since the last time. Otherwise the
    /// last snapshot is given again.
    pub fn maybe_collect(&mut self, now_ns: u64) -> (snap: &AggregatedSnapshot)
        requires
            now_ns - old(self).last_collected >= old(self).interval_ns || old(
                self,
            ).interval_ns == 0 ==> collectable(old(self).shards@),
        ensures
            *snap == final(self).last_snapshot,
            final(self).shards == old(self).shards,
            final(self).interval_ns == old(self).interval_ns,
            !old(self).is_due(now_ns) ==> *final(self) == *old(self),
            old(self).is_due(now_ns) ==> final(self).last_snapshot@ == collected(
                old(self).shards@,
            ),
            now_ns - old(self).last_collected >= old(self).interval_ns || old(
                self,
            ).interval_ns == 0 ==> {
                &&& final(self).last_snapshot.wf()
                &&& final(self).last_snapshot.taken_at == Some(now_ns)
                &&& final(self).last_snapshot@ == collected(old(self).shards@)
                &&& final(self).last_collected == now_ns
            },
            now_ns - old(self).last_collected < old(self).interval_ns && old(self).interval_ns > 0
                ==> *final(self) == *old(self),
    {
        if now_ns.saturating_sub(self.last_collected) >= self.interval_ns {
            self.collect(now_ns);
        }
        &self.last_snapshot
    }

    /// The last snapshot.
    pub fn last_snapshot(&self) -> (snap: &AggregatedSnapshot)
        ensures
            *snap == self.last_snapshot,
    {
        &self.last_snapshot
    }

    /// Starts a new interval on all shards: `own` holds the shards' own
    /// metrics, in the order of their registration. They count from zero
    /// again, and so does what is known of them here. Used where differences
    /// are exported and not running totals.
    pub fn reset_shard_intervals(&mut self, own: &mut Vec<EngineMetrics>)
        requires
            old(own)@.len() == old(self).shards@.len(),
        ensures
            final(self).last_snapshot == old(self).last_snapshot,
            final(self).interval_ns == old(self).interval_ns,
            final(self).last_collected == old(self).last_collected,
            final(self).shards@.len() == old(self).shards@.len(),
            final(own)@.len() == old(own)@.len(),
            forall|i: int|
                0 <= i < old(own)@.len() ==> restarted(old(own)@[i], #[trigger] final(own)@[i]),
            forall|i: int|
                0 <= i < old(self).shards@.len() ==> #[trigger] final(self).shards@[i] == (
                ShardHandle {
                    shard_id: old(self).shards@[i].shard_id,
                    metrics: final(own)@[i],
                }),
    {
        let n: usize = self.shards.len();
        let mut i: usize = 0;
        while i < n
            invariant
                n == self.shards@.len() == old(self).shards@.len(),
                n == own@.len() == old(own)@.len(),
                i <= n,
                self.last_snapshot == old(self).last_snapshot,
                self.interval_ns == old(self).interval_ns,
                self.last_collected == old(self).last_collected,
                forall|j: int| 0 <= j < i ==> restarted(old(own)@[j], #[trigger] own@[j]),
                forall|j: int| i <= j < n ==> #[trigger] own@[j] == old(own)@[j],
                forall|j: int|
                    0 <= j < i ==> #[trigger] self.shards@[j] == (ShardHandle {
                        shard_id: old(self).shards@[j].shard_id,
                        metrics: own@[j],
                    }),
                forall|j: int| i <= j < n ==> #[trigger] self.shards@[j] == old(self).shards@[j],
            decreases n - i,
        {
            let mut metrics = own[i];
            metrics.reset_intervals();
            assert(counts_of(metrics) =~= Counts::zero());
            own[i] = metrics;
            let shard_id: ShardId = self.shards[i].shard_id;
            self.shards[i] = ShardHandle { shard_id, metrics };
            i += 1;
        }
    }
}

/// The metrics `now` of a shard are its metrics `was` at the start of a new
/// interval: nothing is counted yet, only drops and failures go on.
pub open spec fn restarted(was: EngineMetrics, now: EngineMetrics) -> bool {
    &&& counts_of(now) == Counts::zero()
    &&& now.outbound_drops == was.outbound_drops
    &&& now.wal_failures == was.wal_failures
}

/// The shards after all have started a new interval.
pub open spec fn all_restarted(shards: Seq<ShardHandle>) -> bool {
    forall|i: int|
        0 <= i < shards.len() ==> counts_of((#[trigger] shards[i]).metrics) == Counts::zero()
}

/// What is collected right after a new interval has started is nothing, for
/// every shard and in total.
pub proof fn law_new_interval_starts_at_zero(shards: Seq<ShardHandle>)
    requires
        all_restarted(shards),
    ensures
        collectable(shards),
        forall|i: int|
            0 <= i < collected(shards).len() ==> (#[trigger] collected(shards)[i]).1
                == Counts::zero(),
        totals_of(collected(shards)) == Counts::zero(),
    decreases shards.len(),
{
    if shards.len() > 0 {
        let front = shards.drop_last();
        assert forall|i: int| 0 <= i < front.len() implies counts_of(
            (#[trigger] front[i]).metrics,
        ) == Counts::zero() by {
            assert(front[i] == shards[i]);
        }
        law_new_interval_starts_at_zero(front);
        assert(counts_of(shards[shards.len() - 1].metrics) == Counts::zero());
        let before = collected(front);
        lemma_place_found(before, shards.last().shard_id);
        assert forall|i: int| 0 <= i < collected(shards).len() implies (
        #[trigger] collected(shards)[i]).1 == Counts::zero() by {
            if i < before.len() {
                assert(before[i].1 == Counts::zero());
            }
        }
        lemma_zero_totals(collected(shards));
    }
}

/// Nothing adds up to nothing.
proof fn lemma_zero_totals(list: Seq<ShardCounts>)
    requires
        forall|i: int| 0 <= i < list.len() ==> (#[trigger] list[i]).1 == Counts::zero(),
    ensures
        totals_of(list) == Counts::zero(),
        fits(list),
    decreases list.len(),
{
    if list.len() > 0 {
        lemma_zero_totals(list.drop_last());
        assert(list[list.len() - 1].1 == Counts::zero());
        assert(Counts::zero().plus(Counts::zero()) =~= Counts::zero());
    }
}

proof fn lemma_collectable_prefix(shards: Seq<ShardHandle>, j: int)
    requires
        collectable(shards),
        0 <= j <= shards.len(),
    ensures
        collectable(shards.take(j)),
    decreases shards.len() - j,
{
    if j < shards.len() {
        lemma_collectable_prefix(shards, j + 1);
        assert(shards.take(j + 1).drop_last() =~= shards.take(j));
    } else {
        assert(shards.take(j) =~= shards);
    }
}

/// With one more shard every total grows by what the shard counts. Without
/// shards everything is zero.
pub proof fn law_totals_are_sums(list: Seq<ShardCounts>, s: ShardCounts, i: int)
    requires
        fits(list.push(s)),
        0 <= i < 32,
    ensures
        ({
            let a = totals_of(list);
            let b = totals_of(list.push(s));
            &&& b.orders_processed == a.orders_processed + s.1.orders_processed
            &&& b.fills_generated == a.fills_generated + s.1.fills_generated
            &&& b.risk_rejects == a.risk_rejects + s.1.risk_rejects
            &&& b.idle_spins == a.idle_spins + s.1.idle_spins
            &&& b.match_latency.count == a.match_latency.count + s.1.match_latency.count
            &&& b.match_latency.sum_ns == a.match_latency.sum_ns + s.1.match_latency.sum_ns
            &&& b.match_latency.max_ns >= a.match_latency.max_ns
            &&& b.match_latency.max_ns >= s.1.match_latency.max_ns
            &&& b.match_latency.max_ns == a.match_latency.max_ns || b.match_latency.max_ns
                == s.1.match_latency.max_ns
            &&& b.match_latency.buckets[i] == a.match_latency.buckets[i]
                + s.1.match_latency.buckets[i]
            &&& b.risk_check_latency.count == a.risk_check_latency.count
                + s.1.risk_check_latency.count
            &&& b.risk_check_latency.sum_ns == a.risk_check_latency.sum_ns
                + s.1.risk_check_latency.sum_ns
            &&& b.risk_check_latency.max_ns >= a.risk_check_latency.max_ns
            &&& b.risk_check_latency.max_ns >= s.1.risk_check_latency.max_ns
            &&& b.risk_check_latency.max_ns == a.risk_check_latency.max_ns
                || b.risk_check_latency.max_ns == s.1.risk_check_latency.max_ns
            &&& b.risk_check_latency.buckets[i] == a.risk_check_latency.buckets[i]
                + s.1.risk_check_latency.buckets[i]
        }),
        ({
            let z = totals_of(Seq::empty());
            &&& z.orders_processed == 0 && z.fills_generated == 0 && z.risk_rejects == 0
                && z.idle_spins == 0
            &&& z.match_latency.count == 0 && z.match_latency.sum_ns == 0
                && z.match_latency.max_ns == 0 && z.match_latency.buckets[i] == 0
            &&& z.risk_check_latency.count == 0 && z.risk_check_latency.sum_ns == 0
                && z.risk_check_latency.max_ns == 0 && z.risk_check_latency.buckets[i] == 0
        }),
{
    let b = list.push(s);
    assert(b.drop_last() =~= list);
    lemma_totals_buckets(list);
    lemma_totals_buckets(b);
    let a = totals_of(list);
    assert(a.can_add(s.1));
    assert(a.match_latency.buckets[i] + s.1.match_latency.buckets[i] <= u64::MAX);
    assert(a.risk_check_latency.buckets[i] + s.1.risk_check_latency.buckets[i] <= u64::MAX);
}

/// The totals can be taken if no sum is too large to be counted.
pub proof fn law_when_totals_fit(list: Seq<ShardCounts>, s: ShardCounts)
    ensures
        fits(Seq::empty()),
        fits(list.push(s)) <==> fits(list) && ({
            let a = totals_of(list);
            &&& a.orders_processed + s.1.orders_processed <= u64::MAX
            &&& a.fills_generated + s.1.fills_generated <= u64::MAX
            &&& a.risk_rejects + s.1.risk_rejects <= u64::MAX
            &&& a.idle_spins + s.1.idle_spins <= u64::MAX
            &&& a.match_latency.can_add(s.1.match_latency)
            &&& a.risk_check_latency.can_add(s.1.risk_check_latency)
        }),
{
    assert(list.push(s).drop_last() =~= list);
}

/// What an engine has counted is taken as it is, from its metrics and from a
/// snapshot of them.
pub proof fn law_counts_are_those_of_the_engine(m: EngineMetrics, s: EngineMetricsSnapshot)
    ensures
        ({
            let c = counts_of(m);
            &&& c.orders_processed == m.orders_processed
            &&& c.fills_generated == m.fills_generated
            &&& c.risk_rejects == m.risk_rejects
            &&& c.idle_spins == m.idle_spins
            &&& c.match_latency == m.match_latency@
            &&& c.risk_check_latency == m.risk_check_latency@
        }),
        m.shown_by(s) ==> counts_in(s) == counts_of(m),
        means_fit(s) ==> {
            &&& s.match_latency.count > 0 ==> s.match_latency.mean_ns == s.match_latency.sum_ns
                / s.match_latency.count
            &&& s.match_latency.count == 0 ==> s.match_latency.mean_ns == 0
            &&& s.risk_check_latency.count > 0 ==> s.risk_check_latency.mean_ns
                == s.risk_check_latency.sum_ns / s.risk_check_latency.count
            &&& s.risk_check_latency.count == 0 ==> s.risk_check_latency.mean_ns == 0
        },
{
}

/// Setting the counts of a shard changes them and no others. A new shard comes
/// last.
pub proof fn law_one_shard_is_set(list: Seq<ShardCounts>, id: ShardId, counts: Counts)
    requires
        distinct(list),
    ensures
        ({
            let later = with_shard(list, id, counts);
            let known = exists|i: int| 0 <= i < list.len() && (#[trigger] list[i]).0 == id;
            &&& later.len() == list.len() + if known {
                0int
            } else {
                1
            }
            &&& forall|i: int|
                0 <= i < list.len() ==> #[trigger] later[i] == if list[i].0 == id {
                    (id, counts)
                } else {
                    list[i]
                }
            &&& !known ==> later[list.len() as int] == (id, counts)
        }),
{
    lemma_place_found(list, id);
    let p = place_of(list, id);
    let later = with_shard(list, id, counts);
    assert forall|i: int| 0 <= i < list.len() implies #[trigger] later[i] == if list[i].0 == id {
        (id, counts)
    } else {
        list[i]
    } by {
        if list[i].0 == id && i != p {
            assert(list[p].0 == id);
            assert(false);
        }
    }
}

/// A new interval starts with everything at zero, but for what was lost: drops
/// and failures are counted on.
pub proof fn law_new_interval_keeps_the_losses(was: EngineMetrics, now: EngineMetrics, i: int)
    requires
        restarted(was, now),
        0 <= i < 32,
    ensures
        now.orders_processed == 0,
        now.fills_generated == 0,
        now.risk_rejects == 0,
        now.idle_spins == 0,
        now.match_latency@.count == 0 && now.match_latency@.sum_ns == 0
            && now.match_latency@.max_ns == 0 && now.match_latency@.buckets[i] == 0,
        now.risk_check_latency@.count == 0 && now.risk_check_latency@.sum_ns == 0
            && now.risk_check_latency@.max_ns == 0 && now.risk_check_latency@.buckets[i] == 0,
        now.outbound_drops == was.outbound_drops,
        now.wal_failures == was.wal_failures,
{
}

/// A combined view lists what each shard has counted, and its totals are those
/// of the list.
pub proof fn law_combined_view(s: AggregatedSnapshot, i: int)
    requires
        s.wf(),
    ensures
        s@.len() == s.per_shard@.len(),
        0 <= i < s@.len() ==> {
            let one = s.per_shard@[i].1;
            &&& s@[i].0 == s.per_shard@[i].0
            &&& s@[i].1.orders_processed == one.orders_processed
            &&& s@[i].1.fills_generated == one.fills_generated
            &&& s@[i].1.risk_rejects == one.risk_rejects
            &&& s@[i].1.idle_spins == one.idle_spins
            &&& s@[i].1.match_latency == one.match_latency@
            &&& s@[i].1.risk_check_latency == one.risk_check_latency@
            &&& one.match_latency.count > 0 ==> one.match_latency.mean_ns
                == one.match_latency.sum_ns / one.match_latency.count
            &&& one.risk_check_latency.count > 0 ==> one.risk_check_latency.mean_ns
                == one.risk_check_latency.sum_ns / one.risk_check_latency.count
        },
        s.totals.orders_processed == totals_of(s@).orders_processed,
        s.totals.fills_generated == totals_of(s@).fills_generated,
        s.totals.risk_rejects == totals_of(s@).risk_rejects,
        s.totals.idle_spins == totals_of(s@).idle_spins,
        s.totals.match_latency@ == totals_of(s@).match_latency,
        s.totals.risk_check_latency@ == totals_of(s@).risk_check_latency,
        s.totals.match_latency.count > 0 ==> s.totals.match_latency.mean_ns
            == s.totals.match_latency.sum_ns / s.totals.match_latency.count,
        s.totals.risk_check_latency.count > 0 ==> s.totals.risk_check_latency.mean_ns
            == s.totals.risk_check_latency.sum_ns / s.totals.risk_check_latency.count,
{
}

/// Something is collected when the interval has passed since the last time,
/// and always where there is no interval. Right after the metrics were
/// collected they are not due again.
pub proof fn law_collected_once_per_interval(a: MetricsAggregator, now_ns: u64)
    ensures
        a.interval_ns > 0 ==> (a.is_due(now_ns) <==> a.last_collected + a.interval_ns <= now_ns),
        a.interval_ns == 0 ==> a.is_due(now_ns),
        a.interval_ns > 0 ==> !(MetricsAggregator { last_collected: now_ns, ..a }).is_due(now_ns),
{
}

/// Of two shards with the same number the later one counts, in the place of
/// the earlier one. A shard with a number of its own comes last.
pub proof fn law_later_shard_counts(shards: Seq<ShardHandle>, h: ShardHandle)
    ensures
        ({
            let before = collected(shards);
            let later = collected(shards.push(h));
            let known = exists|i: int| 0 <= i < before.len() && (#[trigger] before[i]).0 == h.shard_id;
            &&& later.len() == before.len() + if known {
                0int
            } else {
                1
            }
            &&& forall|i: int|
                0 <= i < before.len() ==> #[trigger] later[i] == if before[i].0 == h.shard_id {
                    (h.shard_id, counts_of(h.metrics))
                } else {
                    before[i]
                }
            &&& !known ==> later.last() == (h.shard_id, counts_of(h.metrics))
        }),
        collected(Seq::empty()).len() == 0,
{
    assert(shards.push(h).drop_last() =~= shards);
    law_no_shard_counts_twice(shards);
    law_one_shard_is_set(collected(shards), h.shard_id, counts_of(h.metrics));
}

} // verus!
