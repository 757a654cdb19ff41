//! The metrics in the text format of Prometheus.
//!
//! One line per value: the name, the labels in braces, and the value. Values
//! are written as floating-point numbers. Up to `EXACT` that is the number in
//! decimal digits; the text of a larger one is made by the caller.

use crate::core_types::text;
use crate::matching_engine::metrics;
use crate::matching_engine::metrics::{EngineMetricsSnapshot, HistogramModel, LatencySnapshot};
use crate::metrics::aggregator;
use crate::metrics::aggregator::{
    AggregatedSnapshot, Counts, MetricsAggregator, ShardCounts, ShardId,
};
use vstd::prelude::*;

verus! {

/// The largest number up to which all integers are floating-point numbers.
pub const EXACT: u64 = 0x20_0000_0000_0000;

/// One value to export.
#[derive(Debug, Clone, PartialEq, Eq)]
pub struct Sample {
    pub name: String,
    pub labels: String,
    pub value: u64,
}

/// A sample as mathematics.
pub struct SampleModel {
    pub name: Seq<char>,
    pub labels: Seq<char>,
    pub value: u64,
}

impl Sample {
    pub open spec fn view(self) -> SampleModel {
        SampleModel { name: self.name@, labels: self.labels@, value: self.value }
    }
}

pub open spec fn views(samples: Seq<Sample>) -> Seq<SampleModel> {
    Seq::new(samples.len(), |i: int| samples[i]@)
}

/// The label of one shard.
pub open spec fn shard_label(id: ShardId) -> Seq<char> {
    "shard=\""@ + text::decimal(id as nat) + "\""@
}

/// The label of the totals.
pub open spec fn total_label() -> Seq<char> {
    "shard=\"_total\""@
}

/// The samples of a latency: mean, largest value and percentiles.
pub open spec fn latency_samples(base: Seq<char>, labels: Seq<char>, h: HistogramModel) -> Seq<
    SampleModel,
> {
    seq![
        SampleModel { name: base + "_mean"@, labels, value: metrics::mean(h.sum_ns, h.count) },
        SampleModel { name: base + "_max"@, labels, value: h.max_ns },
        SampleModel { name: base + "_p50"@, labels, value: h.percentile(50, 100) },
        SampleModel { name: base + "_p90"@, labels, value: h.percentile(90, 100) },
        SampleModel { name: base + "_p99"@, labels, value: h.percentile(99, 100) },
        SampleModel { name: base + "_p999"@, labels, value: h.percentile(999, 1000) },
    ]
}

/// The samples of what is counted everywhere.
pub open spec fn counter_samples(labels: Seq<char>, c: Counts) -> Seq<SampleModel> {
    seq![
        SampleModel { name: "engine_orders_processed_total"@, labels, value: c.orders_processed },
        SampleModel { name: "engine_fills_generated_total"@, labels, value: c.fills_generated },
        SampleModel { name: "engine_risk_rejects_total"@, labels, value: c.risk_rejects },
    ]
}

/// The samples of both latencies.
pub open spec fn both_latencies(labels: Seq<char>, c: Counts) -> Seq<SampleModel> {
    latency_samples("engine_match_latency_ns"@, labels, c.match_latency) + latency_samples(
        "engine_risk_check_latency_ns"@,
        labels,
        c.risk_check_latency,
    )
}

/// The samples of one shard.
pub open spec fn shard_samples(s: ShardCounts) -> Seq<SampleModel> {
    let labels = shard_label(s.0);
    counter_samples(labels, s.1).push(
        SampleModel { name: "engine_idle_spins_total"@, labels, value: s.1.idle_spins },
    ) + both_latencies(labels, s.1)
}

/// The samples of a list of shards.
pub open spec fn all_shard_samples(list: Seq<ShardCounts>) -> Seq<SampleModel>
    decreases list.len(),
{
    if list.len() == 0 {
        Seq::empty()
    } else {
        all_shard_samples(list.drop_last()) + shard_samples(list.last())
    }
}

/// All samples: shard by shard, then the totals.
pub open spec fn samples_of(list: Seq<ShardCounts>) -> Seq<SampleModel> {
    let totals = aggregator::totals_of(list);
    all_shard_samples(list) + (counter_samples(total_label(), totals) + both_latencies(
        total_label(),
        totals,
    ))
}

/// One line of text.
pub open spec fn line(s: SampleModel, value: Seq<char>) -> Seq<char> {
    s.name + "{"@ + s.labels + "} "@ + value + "\n"@
}

/// The values above `EXACT`, in the order of the samples.
pub open spec fn large_values(samples: Seq<SampleModel>) -> Seq<u64>
    decreases samples.len(),
{
    if samples.len() == 0 {
        Seq::empty()
    } else if samples.last().value > EXACT {
        large_values(samples.drop_last()).push(samples.last().value)
    } else {
        large_values(samples.drop_last())
    }
}

/// The lines of the samples, where `large` are the texts of the values above
/// `EXACT`.
pub open spec fn rendered(samples: Seq<SampleModel>, large: Seq<String>) -> Seq<char>
    decreases samples.len(),
{
    if samples.len() == 0 {
        Seq::empty()
    } else {
        let front = samples.drop_last();
        let value = samples.last().value;
        rendered(front, large) + line(
            samples.last(),
            if value > EXACT {
                large[large_values(front).len() as int]@
            } else {
                text::decimal(value as nat)
            },
        )
    }
}

/// Where no value is large, the text depends on the samples alone.
pub proof fn law_small_values_need_no_texts(
    samples: Seq<SampleModel>,
    a: Seq<String>,
    b: Seq<String>,
)
    requires
        forall|i: int| 0 <= i < samples.len() ==> (#[trigger] samples[i]).value <= EXACT,
    ensures
        large_values(samples).len() == 0,
        rendered(samples, a) == rendered(samples, b),
    decreases samples.len(),
{
    if samples.len() > 0 {
        law_small_values_need_no_texts(samples.drop_last(), a, b);
        assert(samples[samples.len() - 1].value <= EXACT);
    }
}

/// A part of the samples has no more large values than all of them.
proof fn lemma_large_prefix(samples: Seq<SampleModel>, j: int)
    requires
        0 <= j <= samples.len(),
    ensures
        large_values(samples.take(j)).len() <= large_values(samples).len(),
    decreases samples.len() - j,
{
    if j < samples.len() {
        lemma_large_prefix(samples, j + 1);
        assert(samples.take(j + 1).drop_last() =~= samples.take(j));
    } else {
        assert(samples.take(j) =~= samples);
    }
}

fn push_sample(out: &mut Vec<Sample>, base: &str, suffix: &str, labels: &String, value: u64)
    ensures
        views(final(out)@) == views(old(out)@).push(
            SampleModel { name: base@ + suffix@, labels: labels@, value },
        ),
{
    let name = String::from_str(base).concat(suffix);
    out.push(Sample { name, labels: labels.clone(), value });
    assert(views(out@) =~= views(old(out)@).push(
        SampleModel { name: base@ + suffix@, labels: labels@, value },
    ));
}

fn push_counter(out: &mut Vec<Sample>, name: &str, labels: &String, value: u64)
    ensures
        views(final(out)@) == views(old(out)@).push(
            SampleModel { name: name@, labels: labels@, value },
        ),
{
    proof {
        reveal_strlit("");
        assert(name@ + ""@ =~= name@);
    }
    push_sample(out, name, "", labels, value);
}

fn push_latency(out: &mut Vec<Sample>, base: &str, labels: &String, s: &LatencySnapshot)
    requires
        s.mean_ns == metrics::mean(s.sum_ns, s.count),
    ensures
        views(final(out)@) == views(old(out)@) + latency_samples(base@, labels@, s@),
{
    push_sample(out, base, "_mean", labels, s.mean_ns);
    push_sample(out, base, "_max", labels, s.max_ns);
    push_sample(out, base, "_p50", labels, s.p50());
    push_sample(out, base, "_p90", labels, s.p90());
    push_sample(out, base, "_p99", labels, s.p99());
    push_sample(out, base, "_p999", labels, s.p999());
    assert(views(out@) =~= views(old(out)@) + latency_samples(base@, labels@, s@));
}

fn push_counters(out: &mut Vec<Sample>, labels: &String, s: &EngineMetricsSnapshot)
    ensures
        views(final(out)@) == views(old(out)@) + counter_samples(
            labels@,
            aggregator::counts_in(*s),
        ),
{
    push_counter(out, "engine_orders_processed_total", labels, s.orders_processed);
    push_counter(out, "engine_fills_generated_total", labels, s.fills_generated);
    push_counter(out, "engine_risk_rejects_total", labels, s.risk_rejects);
    assert(views(out@) =~= views(old(out)@) + counter_samples(
        labels@,
        aggregator::counts_in(*s),
    ));
}

fn push_latencies(out: &mut Vec<Sample>, labels: &String, s: &EngineMetricsSnapshot)
    requires
        aggregator::means_fit(*s),
    ensures
        views(final(out)@) == views(old(out)@) + both_latencies(
            labels@,
            aggregator::counts_in(*s),
        ),
{
    push_latency(out, "engine_match_latency_ns", labels, &s.match_latency);
    push_latency(out, "engine_risk_check_latency_ns", labels, &s.risk_check_latency);
    assert(views(out@) =~= views(old(out)@) + both_latencies(
        labels@,
        aggregator::counts_in(*s),
    ));
}

impl AggregatedSnapshot {
    /// The values to export, in the order of the text.
    pub fn samples(&self) -> (out: Vec<Sample>)
        requires
            self.wf(),
        ensures
            views(out@) == samples_of(self@),
    {
        let mut out: Vec<Sample> = Vec::new();
        let mut i: usize = 0;
        assert(views(out@) =~= all_shard_samples(self@.take(0)));
        while i < self.per_shard.len()
            invariant
                self.wf(),
                i <= self.per_shard@.len(),
                views(out@) == all_shard_samples(self@.take(i as int)),
            decreases self.per_shard@.len() - i,
        {
            let ghost before = views(out@);
            let shard_id: ShardId = self.per_shard[i].0;
            let s = &self.per_shard[i].1;
            let mut labels = String::from_str("shard=\"");
            text::push_decimal(&mut labels, shard_id as u64);
            labels.append("\"");
            push_counters(&mut out, &labels, s);
            push_counter(&mut out, "engine_idle_spins_total", &labels, s.idle_spins);
            push_latencies(&mut out, &labels, s);
            proof {
                let part = self@.take(i + 1);
                assert(part.drop_last() =~= self@.take(i as int));
                assert(part.last() == self@[i as int]);
                assert(labels@ == shard_label(shard_id));
                assert(views(out@) =~= before + shard_samples(self@[i as int]));
            }
            i += 1;
        }
        assert(self@.take(i as int) =~= self@);
        let ghost before = views(out@);
        let labels = String::from_str("shard=\"_total\"");
        push_counters(&mut out, &labels, &self.totals);
        push_latencies(&mut out, &labels, &self.totals);
        assert(views(out@) =~= samples_of(self@));
        out
    }
}

impl MetricsAggregator {
    /// The values of the last snapshot that are too large to be written in
    /// plain digits, in the order of the text.
    pub fn prometheus_large_values(&self) -> (out: Vec<u64>)
        requires
            self.last_snapshot.wf(),
        ensures
            out@ == large_values(samples_of(self.last_snapshot@)),
    {
        let samples = self.last_snapshot.samples();
        let ghost all = views(samples@);
        let mut out: Vec<u64> = Vec::new();
        let mut i: usize = 0;
        assert(out@ =~= large_values(all.take(0)));
        while i < samples.len()
            invariant
                all == views(samples@),
                i <= samples@.len(),
                out@ == large_values(all.take(i as int)),
            decreases samples@.len() - i,
        {
            proof {
                let part = all.take(i + 1);
                assert(part.drop_last() =~= all.take(i as int));
                assert(part.last() == samples@[i as int]@);
            }
            if samples[i].value > EXACT {
                out.push(samples[i].value);
            }
            i += 1;
        }
        assert(all.take(i as int) =~= all);
        out
    }

    /// The last snapshot as text, where `large` are the texts of the values
    /// that `prometheus_large_values` gives.
    pub fn render_prometheus(&self, large: &Vec<String>) -> (out: String)
        requires
            self.last_snapshot.wf(),
            large@.len() == large_values(samples_of(self.last_snapshot@)).len(),
        ensures
            out@ == rendered(samples_of(self.last_snapshot@), large@),
    {
        let samples = self.last_snapshot.samples();
        let ghost all = views(samples@);
        let mut out = String::new();
        let mut next: usize = 0;
        let mut i: usize = 0;
        assert(out@ =~= rendered(all.take(0), large@));
        while i < samples.len()
            invariant
                all == views(samples@),
                large@.len() == large_values(all).len(),
                i <= samples@.len(),
                next == large_values(all.take(i as int)).len(),
                out@ == rendered(all.take(i as int), large@),
            decreases samples@.len() - i,
        {
            let ghost before = out@;
            let ghost part = all.take(i + 1);
            proof {
                lemma_large_prefix(all, i + 1);
                assert(part.drop_last() =~= all.take(i as int));
                assert(part.last() == samples@[i as int]@);
            }
            let s = &samples[i];
            out.append(s.name.as_str());
            out.append("{");
            out.append(s.labels.as_str());
            out.append("} ");
            let ghost head = out@;
            let ghost value = if s.value > EXACT {
                large@[next as int]@
            } else {
                text::decimal(s.value as nat)
            };
            if s.value > EXACT {
                out.append(large[next].as_str());
                assert(next < large.len());
                next += 1;
            } else {
                text::push_decimal(&mut out, s.value);
            }
            assert(out@ =~= head + value);
            out.append("\n");
            assert(out@ =~= before + line(part.last(), value));
            i += 1;
        }
        assert(all.take(i as int) =~= all);
        out
    }
}

/// The name, the labels and the value of a sample.
pub open spec fn is_sample(s: SampleModel, name: Seq<char>, labels: Seq<char>, value: u64) -> bool {
    s.name == name && s.labels == labels && s.value == value
}

/// Six samples in a row show a latency: the mean, the maximum, and how long
/// 50, 90, 99 and 99.9 percent of the samples take at most.
pub open spec fn shows_latency(
    list: Seq<SampleModel>,
    at: int,
    name: Seq<char>,
    labels: Seq<char>,
    h: HistogramModel,
) -> bool {
    &&& list[at].value == if h.count == 0 {
        0
    } else {
        h.sum_ns / h.count
    }
    &&& is_sample(list[at], name + "_mean"@, labels, list[at].value)
    &&& is_sample(list[at + 1], name + "_max"@, labels, h.max_ns)
    &&& is_sample(list[at + 2], name + "_p50"@, labels, h.percentile(50, 100))
    &&& is_sample(list[at + 3], name + "_p90"@, labels, h.percentile(90, 100))
    &&& is_sample(list[at + 4], name + "_p99"@, labels, h.percentile(99, 100))
    &&& is_sample(list[at + 5], name + "_p999"@, labels, h.percentile(999, 1000))
}

/// A shard has sixteen samples, all with its label: its four counters and its
/// two latencies.
pub proof fn law_samples_of_a_shard(s: ShardCounts)
    ensures
        ({
            let l = shard_samples(s);
            let label = shard_label(s.0);
            &&& l.len() == 16
            &&& is_sample(l[0], "engine_orders_processed_total"@, label, s.1.orders_processed)
            &&& is_sample(l[1], "engine_fills_generated_total"@, label, s.1.fills_generated)
            &&& is_sample(l[2], "engine_risk_rejects_total"@, label, s.1.risk_rejects)
            &&& is_sample(l[3], "engine_idle_spins_total"@, label, s.1.idle_spins)
            &&& shows_latency(l, 4, "engine_match_latency_ns"@, label, s.1.match_latency)
            &&& shows_latency(
                l,
                10,
                "engine_risk_check_latency_ns"@,
                label,
                s.1.risk_check_latency,
            )
        }),
{
}

/// The label of a shard is its number, and that of the totals is a word of its
/// own: no shard is labelled like the totals or like another shard.
pub proof fn law_labels_tell_shards_apart(a: ShardId, b: ShardId)
    ensures
        ({
            let l = shard_label(a);
            &&& l.len() == text::decimal(a as nat).len() + 8
            &&& l.take(7) == "shard=\""@
            &&& text::number_in(l.subrange(7, l.len() - 1)) == a
            &&& l.last() == '"'
        }),
        shard_label(a) == shard_label(b) ==> a == b,
        shard_label(a) != total_label(),
        total_label().take(7) == "shard=\""@,
        total_label().skip(7) == "_total\""@,
{
    reveal_strlit("shard=\"");
    reveal_strlit("\"");
    reveal_strlit("shard=\"_total\"");
    reveal_strlit("_total\"");
    let l = shard_label(a);
    let m = shard_label(b);
    text::law_decimal_says_the_number(a as nat);
    text::law_decimal_says_the_number(b as nat);
    assert(l.take(7) =~= "shard=\""@);
    assert(l.subrange(7, l.len() - 1) =~= text::decimal(a as nat));
    assert(m.subrange(7, m.len() - 1) =~= text::decimal(b as nat));
    assert(total_label().take(7) =~= "shard=\""@);
    assert(total_label().skip(7) =~= "_total\""@);
    assert(l[7] == text::decimal(a as nat)[0]);
    assert(total_label()[7] == '_');
}

/// The samples go shard by shard, in the order of the shards.
pub proof fn law_samples_shard_by_shard(a: Seq<ShardCounts>, b: Seq<ShardCounts>)
    ensures
        all_shard_samples(a + b) == all_shard_samples(a) + all_shard_samples(b),
        a.len() == 0 ==> all_shard_samples(a).len() == 0,
        a.len() == 1 ==> all_shard_samples(a) == shard_samples(a[0]),
    decreases b.len(),
{
    if b.len() == 0 {
        assert(a + b =~= a);
        assert(all_shard_samples(a) + all_shard_samples(b) =~= all_shard_samples(a));
    } else {
        law_samples_shard_by_shard(a, b.drop_last());
        assert((a + b).drop_last() =~= a + b.drop_last());
        assert(all_shard_samples(a + b) =~= all_shard_samples(a) + all_shard_samples(b));
    }
    if a.len() == 1 {
        assert(all_shard_samples(a.drop_last()) =~= Seq::<SampleModel>::empty());
        assert(all_shard_samples(a) =~= shard_samples(a[0]));
    }
}

/// The totals come last: fifteen samples, with the sums over all shards. Idle
/// turns are not added up.
pub proof fn law_totals_come_last(list: Seq<ShardCounts>)
    ensures
        ({
            let all = samples_of(list);
            let t = aggregator::totals_of(list);
            let end = all.skip(all.len() - 15);
            let label = total_label();
            &&& all == all_shard_samples(list) + end
            &&& end.len() == 15
            &&& is_sample(end[0], "engine_orders_processed_total"@, label, t.orders_processed)
            &&& is_sample(end[1], "engine_fills_generated_total"@, label, t.fills_generated)
            &&& is_sample(end[2], "engine_risk_rejects_total"@, label, t.risk_rejects)
            &&& shows_latency(end, 3, "engine_match_latency_ns"@, label, t.match_latency)
            &&& shows_latency(end, 9, "engine_risk_check_latency_ns"@, label, t.risk_check_latency)
        }),
{
    let t = aggregator::totals_of(list);
    let end = counter_samples(total_label(), t) + both_latencies(total_label(), t);
    let all = samples_of(list);
    assert(end.len() == 15);
    assert(all == all_shard_samples(list) + end);
    assert(all.skip(all.len() - 15) =~= end);
}

/// The values above two to the power of 53 are those whose text is made
/// elsewhere, in the order of the samples.
pub proof fn law_large_values(a: Seq<SampleModel>, b: Seq<SampleModel>)
    ensures
        large_values(a + b) == large_values(a) + large_values(b),
        a.len() == 0 ==> large_values(a).len() == 0,
        a.len() == 1 && a[0].value > 9007199254740992 ==> large_values(a) == seq![a[0].value],
        a.len() == 1 && a[0].value <= 9007199254740992 ==> large_values(a).len() == 0,
    decreases b.len(),
{
    reveal_with_fuel(large_values, 2);
    if b.len() == 0 {
        assert(a + b =~= a);
        assert(large_values(a) + large_values(b) =~= large_values(a));
    } else {
        law_large_values(a, b.drop_last());
        assert((a + b).drop_last() =~= a + b.drop_last());
        assert(large_values(a + b) =~= large_values(a) + large_values(b));
    }
    if a.len() == 1 && a[0].value > 9007199254740992 {
        assert(large_values(a) =~= seq![a[0].value]);
    }
}

/// The text is that of one sample after the other. A line is the name, the
/// labels in braces, a blank and the value: its digits, or for a large one the
/// text that was made for it.
pub proof fn law_one_line_per_sample(
    a: Seq<SampleModel>,
    b: Seq<SampleModel>,
    for_a: Seq<String>,
    for_b: Seq<String>,
)
    requires
        for_a.len() == large_values(a).len(),
        for_b.len() == large_values(b).len(),
    ensures
        rendered(a + b, for_a + for_b) == rendered(a, for_a) + rendered(b, for_b),
        a.len() == 0 ==> rendered(a, for_a).len() == 0,
        a.len() == 1 ==> rendered(a, for_a) == a[0].name + "{"@ + a[0].labels + "} "@ + (
        if a[0].value > 9007199254740992 {
            for_a[0]@
        } else {
            text::decimal(a[0].value as nat)
        }) + "\n"@,
{
    lemma_lines(a, b, for_a, for_b, 0);
    assert(for_b.take(for_b.len() as int) =~= for_b);
    if a.len() == 1 {
        reveal_with_fuel(rendered, 2);
        reveal_with_fuel(large_values, 2);
        let value = if a[0].value > EXACT {
            for_a[0]@
        } else {
            text::decimal(a[0].value as nat)
        };
        assert(rendered(a, for_a) =~= line(a[0], value));
    }
}

/// The same, with more texts than are needed.
proof fn lemma_lines(
    a: Seq<SampleModel>,
    b: Seq<SampleModel>,
    for_a: Seq<String>,
    for_b: Seq<String>,
    more: nat,
)
    requires
        for_a.len() == large_values(a).len(),
        for_b.len() == large_values(b).len() + more,
    ensures
        rendered(a + b, for_a + for_b) == rendered(a, for_a) + rendered(b, for_b),
    decreases b.len(),
{
    if b.len() == 0 {
        assert(a + b =~= a);
        lemma_more_texts(a, for_a, for_b);
        assert(rendered(a, for_a) + rendered(b, for_b) =~= rendered(a, for_a));
    } else {
        let front = b.drop_last();
        law_large_values(a, front);
        assert((a + b).drop_last() =~= a + front);
        lemma_lines(a, front, for_a, for_b, (for_b.len() - large_values(front).len()) as nat);
        assert(rendered(a + b, for_a + for_b) =~= rendered(a, for_a) + rendered(b, for_b));
    }
}

/// Texts behind those that are needed do not matter.
proof fn lemma_more_texts(a: Seq<SampleModel>, large: Seq<String>, more: Seq<String>)
    requires
        large.len() >= large_values(a).len(),
    ensures
        rendered(a, large + more) == rendered(a, large),
    decreases a.len(),
{
    if a.len() > 0 {
        lemma_more_texts(a.drop_last(), large, more);
    }
}

} // verus!
