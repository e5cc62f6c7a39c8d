//! Metrics scraped from a Prometheus exposition, regrouped by the parser, turned into
//! metric events: counters, gauges, histograms with per-bucket counts, and summaries.
use vstd::prelude::*;
use crate::event::{Bucket, Event, Metric, MetricKind, MetricTags, MetricValue, MetricValueView, MetricView, Quantile};
use crate::time::{chrono_accepts, clock_reads, ClockUnavailable, Timestamp};
use vstd::relations::{sorted_by, total_ordering};

verus! {

/// Whether a time in milliseconds splits into seconds and nanoseconds without the
/// sub-second part overflowing: it is not negative, or it is whole seconds.
pub open spec fn millis_splittable(t: i64) -> bool {
    t >= 0 || t % 1000 == 0
}

/// Seconds and nanoseconds of a time in milliseconds.
pub open spec fn millis_parts(t: i64) -> (i64, u32) {
    ((t / 1000) as i64, ((t % 1000) * 1000000) as u32)
}

/// The time of a sample: its own time in milliseconds where `chrono` accepts it,
/// else `default`.
pub open spec fn sample_time(timestamp: Option<i64>, default: (i64, u32)) -> (i64, u32) {
    match timestamp {
        Some(t) => if chrono_accepts(millis_parts(t).0, millis_parts(t).1) {
            millis_parts(t)
        } else {
            default
        },
        None => default,
    }
}

/// The time of a sample, from its time in milliseconds, else `default`.
pub fn utc_timestamp(timestamp: Option<i64>, default: Timestamp) -> (r: Timestamp)
    requires
        timestamp matches Some(t) ==> millis_splittable(t),
    ensures
        r@ == sample_time(timestamp, default@),
        (timestamp matches Some(t) && -8_000_000_000_000_000 <= t <= 8_000_000_000_000_000) ==> r@ == millis_parts(timestamp->0),
{
    match timestamp {
        Some(t) => {
            let secs = t / 1000;
            let nanos = ((t % 1000) as u32) * 1000000;
            match Timestamp::new(secs, nanos) {
                Some(ts) => ts,
                None => default,
            }
        },
        None => default,
    }
}

/// The labels and the time (in milliseconds) of one sample.
#[derive(Debug)]
pub struct GroupKey {
    pub timestamp: Option<i64>,
    pub labels: MetricTags,
}

/// The value of a counter, gauge or untyped sample (binary64 bits).
#[derive(Clone, Copy, Debug)]
pub struct SimpleMetric {
    pub value: u64,
}

/// A cumulative histogram bucket: upper bound (binary64 bits) and the count of
/// samples at or below it.
#[derive(Clone, Copy, Debug, PartialEq, Eq, Structural)]
pub struct HistogramBucket {
    pub bucket: u64,
    pub count: u32,
}

/// A histogram: its cumulative buckets, sample count and sum (binary64 bits).
#[derive(Debug)]
pub struct HistogramMetric {
    pub buckets: Vec<HistogramBucket>,
    pub count: u32,
    pub sum: u64,
}

/// A summary quantile and its value, both binary64 bits.
#[derive(Clone, Copy, Debug)]
pub struct SummaryQuantile {
    pub quantile: u64,
    pub value: u64,
}

/// A summary: its quantiles, sample count and sum (binary64 bits).
#[derive(Debug)]
pub struct SummaryMetric {
    pub quantiles: Vec<SummaryQuantile>,
    pub count: u32,
    pub sum: u64,
}

/// The samples of a metric group, by the type the exposition declared.
#[derive(Debug)]
pub enum GroupKind {
    Summary(Vec<(GroupKey, SummaryMetric)>),
    Histogram(Vec<(GroupKey, HistogramMetric)>),
    Gauge(Vec<(GroupKey, SimpleMetric)>),
    Counter(Vec<(GroupKey, SimpleMetric)>),
    Untyped(Vec<(GroupKey, SimpleMetric)>),
}

/// A metric family: its name and its samples.
#[derive(Debug)]
pub struct MetricGroup {
    pub name: String,
    pub metrics: GroupKind,
}

/// The bits of positive infinity.
pub open spec fn infinity_bits() -> u64 {
    0x7ff0_0000_0000_0000u64
}

/// A key that orders binary64 bit patterns as the numbers they encode: negative
/// numbers below zero, both zeros together, positive numbers above.
pub open spec fn f64_order_key(bits: u64) -> u64 {
    if bits == 0x8000_0000_0000_0000u64 {
        0x8000_0000_0000_0000u64
    } else if bits >= 0x8000_0000_0000_0000u64 {
        (0xffff_ffff_ffff_ffffu64 - bits) as u64
    } else {
        (bits + 0x8000_0000_0000_0000u64) as u64
    }
}

/// Buckets in order of their bound, then of their count (equal numbers with
/// different encodings, the two zeros, by their bits).
pub open spec fn bucket_le(a: HistogramBucket, b: HistogramBucket) -> bool {
    let ka = f64_order_key(a.bucket);
    let kb = f64_order_key(b.bucket);
    ||| ka < kb
    ||| ka == kb && a.count < b.count
    ||| ka == kb && a.count == b.count && a.bucket <= b.bucket
}

/// The bucket order as a relation.
pub open spec fn bucket_order() -> spec_fn(HistogramBucket, HistogramBucket) -> bool {
    |a: HistogramBucket, b: HistogramBucket| bucket_le(a, b)
}

/// The bucket order is total.
pub proof fn lemma_bucket_order_total()
    ensures
        total_ordering(bucket_order()),
{
    assert forall|a: HistogramBucket, b: HistogramBucket|
        #[trigger] bucket_le(a, b) && #[trigger] bucket_le(b, a) implies a == b by {
        if f64_order_key(a.bucket) == f64_order_key(b.bucket) && a.count == b.count {
            assert(a.bucket == b.bucket);
        }
    }
}

fn order_key(bits: u64) -> (r: u64)
    ensures
        r == f64_order_key(bits),
{
    if bits == 0x8000_0000_0000_0000u64 {
        0x8000_0000_0000_0000u64
    } else if bits >= 0x8000_0000_0000_0000u64 {
        0xffff_ffff_ffff_ffffu64 - bits
    } else {
        bits + 0x8000_0000_0000_0000u64
    }
}

fn bucket_le_exec(a: HistogramBucket, b: HistogramBucket) -> (r: bool)
    ensures
        r == bucket_le(a, b),
{
    let ka = order_key(a.bucket);
    let kb = order_key(b.bucket);
    ka < kb || (ka == kb && a.count < b.count) || (ka == kb && a.count == b.count && a.bucket <= b.bucket)
}

/// The buckets in bucket order.
pub fn sort_buckets(buckets: &Vec<HistogramBucket>) -> (r: Vec<HistogramBucket>)
    ensures
        r@ == buckets@.sort_by(bucket_order()),
{
    let ghost leq = bucket_order();
    proof {
        lemma_bucket_order_total();
    }
    let mut out: Vec<HistogramBucket> = Vec::new();
    let mut i: usize = 0;
    proof {
        assert(buckets@.take(0) =~= out@);
    }
    while i < buckets.len()
        invariant
            leq == bucket_order(),
            total_ordering(leq),
            0 <= i <= buckets@.len(),
            sorted_by(out@, leq),
            out@.to_multiset() == buckets@.take(i as int).to_multiset(),
        decreases buckets.len() - i,
    {
        let x = buckets[i];
        let mut p: usize = 0;
        while p < out.len() && bucket_le_exec(out[p], x)
            invariant
                leq == bucket_order(),
                0 <= p <= out@.len(),
                forall|q: int| 0 <= q < p ==> bucket_le(#[trigger] out@[q], x),
            decreases out.len() - p,
        {
            p = p + 1;
        }
        let ghost before = out@;
        proof {
            if p < before.len() {
                assert(!bucket_le(before[p as int], x));
                assert(leq(x, before[p as int]));
            }
        }
        out.insert(p, x);
        proof {
            assert(out@ == before.insert(p as int, x));
            assert forall|a: int, b: int| 0 <= a < b < out@.len() implies #[trigger] leq(out@[a], out@[b]) by {
                if b < p {
                    assert(out@[a] == before[a] && out@[b] == before[b]);
                } else if b == p {
                    assert(out@[a] == before[a]);
                } else if a == p {
                    assert(out@[b] == before[b - 1]);
                    assert(leq(x, before[p as int]));
                    if b - 1 > p {
                        assert(leq(before[p as int], before[b - 1]));
                    }
                } else if a < p {
                    assert(out@[a] == before[a] && out@[b] == before[b - 1]);
                    assert(leq(before[a], x));
                    assert(leq(x, before[p as int]));
                    if b - 1 > p {
                        assert(leq(before[p as int], before[b - 1]));
                    }
                } else {
                    assert(out@[a] == before[a - 1] && out@[b] == before[b - 1]);
                }
            }
            vstd::seq_lib::to_multiset_insert(before, p as int, x);
            assert(buckets@.take(i + 1) =~= buckets@.take(i as int).push(x));
            vstd::seq_lib::to_multiset_build(buckets@.take(i as int), x);
        }
        i = i + 1;
    }
    proof {
        assert(buckets@.take(buckets@.len() as int) =~= buckets@);
        buckets@.lemma_sort_by_ensures(leq);
        vstd::seq_lib::lemma_sorted_unique(out@, buckets@.sort_by(leq), leq);
    }
    out
}

/// `a - b`, or zero where `b` is larger.
pub open spec fn sat_sub(a: u32, b: u32) -> u32 {
    if a >= b {
        (a - b) as u32
    } else {
        0
    }
}

/// Per-bucket counts from cumulative ones: each bucket keeps its count less the
/// count of the bucket before it (never below zero); the first keeps its count.
pub open spec fn decumulated(b: Seq<HistogramBucket>) -> Seq<HistogramBucket> {
    Seq::new(
        b.len(),
        |i: int|
            if i == 0 {
                b[0]
            } else {
                HistogramBucket { bucket: b[i].bucket, count: sat_sub(b[i].count, b[i - 1].count) }
            },
    )
}

/// The buckets without a last one whose bound is positive infinity.
pub open spec fn without_infinite_last(b: Seq<HistogramBucket>) -> Seq<HistogramBucket> {
    if b.len() > 0 && b.last().bucket == infinity_bits() {
        b.drop_last()
    } else {
        b
    }
}

/// The buckets of a histogram event from the parsed cumulative buckets: ordered by
/// bound, counted per bucket, the infinite bucket dropped.
pub open spec fn histogram_buckets(raw: Seq<HistogramBucket>) -> Seq<Bucket> {
    without_infinite_last(decumulated(raw.sort_by(bucket_order()))).map_values(
        |b: HistogramBucket| Bucket { upper_limit: b.bucket, count: b.count },
    )
}

/// Turns cumulative counts into per-bucket counts, in place.
pub fn decumulate(buckets: &mut Vec<HistogramBucket>)
    ensures
        final(buckets)@ == decumulated(old(buckets)@),
{
    let ghost orig = buckets@;
    let mut i: usize = buckets.len();
    while i > 1
        invariant
            buckets@.len() == orig.len(),
            i <= orig.len(),
            orig.len() == 0 || i >= 1,
            forall|j: int| 0 <= j < i ==> #[trigger] buckets@[j] == orig[j],
            forall|j: int|
                i <= j < orig.len() ==> #[trigger] buckets@[j] == (HistogramBucket {
                    bucket: orig[j].bucket,
                    count: sat_sub(orig[j].count, orig[j - 1].count),
                }),
        decreases i,
    {
        i = i - 1;
        let updated = HistogramBucket {
            bucket: buckets[i].bucket,
            count: buckets[i].count.saturating_sub(buckets[i - 1].count),
        };
        buckets.set(i, updated);
    }
    proof {
        assert(buckets@ =~= decumulated(orig));
    }
}

/// The buckets of a histogram event from the parsed cumulative buckets.
pub fn to_histogram_buckets(raw: &Vec<HistogramBucket>) -> (r: Vec<Bucket>)
    ensures
        r@ == histogram_buckets(raw@),
{
    let mut buckets = sort_buckets(raw);
    decumulate(&mut buckets);
    let ghost d = buckets@;
    let drop_last = buckets.len() > 0 && buckets[buckets.len() - 1].bucket == 0x7ff0_0000_0000_0000u64;
    if drop_last {
        buckets.pop();
    }
    proof {
        assert(buckets@ =~= without_infinite_last(d));
    }
    let mut out: Vec<Bucket> = Vec::new();
    let mut i: usize = 0;
    while i < buckets.len()
        invariant
            0 <= i <= buckets@.len(),
            out@ =~= buckets@.take(i as int).map_values(
                |b: HistogramBucket| Bucket { upper_limit: b.bucket, count: b.count },
            ),
        decreases buckets.len() - i,
    {
        out.push(Bucket { upper_limit: buckets[i].bucket, count: buckets[i].count });
        i = i + 1;
        proof {
            assert(out@ =~= buckets@.take(i as int).map_values(
                |b: HistogramBucket| Bucket { upper_limit: b.bucket, count: b.count },
            ));
        }
    }
    proof {
        assert(buckets@.take(buckets@.len() as int) =~= buckets@);
    }
    out
}

/// Tags from labels: none where there are no labels.
pub open spec fn labels_or_none(labels: MetricTags) -> Option<Map<Seq<char>, Seq<char>>> {
    if labels@.len() == 0 {
        None
    } else {
        Some(labels@)
    }
}

/// The tags, or none where there are none.
pub fn has_values_or_none(tags: MetricTags) -> (r: Option<MetricTags>)
    ensures
        tags@.len() == 0 ==> r is None,
        tags@.len() != 0 ==> (r matches Some(t) && t@ == tags@),
{
    if tags.is_empty() {
        None
    } else {
        Some(tags)
    }
}

/// Whether the time of a sample can be split into seconds and nanoseconds.
pub open spec fn key_time_splittable(k: GroupKey) -> bool {
    k.timestamp matches Some(t) ==> millis_splittable(t)
}

/// Whether the times of all samples of a group can be split.
pub open spec fn group_times_splittable(g: MetricGroup) -> bool {
    match g.metrics {
        GroupKind::Counter(v) => forall|i: int| 0 <= i < v@.len() ==> key_time_splittable(#[trigger] v@[i].0),
        GroupKind::Gauge(v) => forall|i: int| 0 <= i < v@.len() ==> key_time_splittable(#[trigger] v@[i].0),
        GroupKind::Untyped(v) => forall|i: int| 0 <= i < v@.len() ==> key_time_splittable(#[trigger] v@[i].0),
        GroupKind::Histogram(v) => forall|i: int| 0 <= i < v@.len() ==> key_time_splittable(#[trigger] v@[i].0),
        GroupKind::Summary(v) => forall|i: int| 0 <= i < v@.len() ==> key_time_splittable(#[trigger] v@[i].0),
    }
}

/// The metric event of one sample: absolute, named after its family, tagged with
/// its labels, at its own time or `start`.
pub open spec fn sample_view(name: Seq<char>, key: GroupKey, value: MetricValueView, start: (i64, u32)) -> MetricView {
    MetricView {
        name,
        namespace: None,
        tags: labels_or_none(key.labels),
        timestamp: Some(sample_time(key.timestamp, start)),
        kind: MetricKind::Absolute,
        value,
    }
}

/// The quantiles of a summary event.
pub open spec fn summary_quantiles(q: Seq<SummaryQuantile>) -> Seq<Quantile> {
    q.map_values(|x: SummaryQuantile| Quantile { quantile: x.quantile, value: x.value })
}

/// The metric events of a group, one per sample, in order.
pub open spec fn group_metrics(g: MetricGroup, start: (i64, u32)) -> Seq<MetricView> {
    match g.metrics {
        GroupKind::Counter(v) => Seq::new(
            v@.len(),
            |i: int| sample_view(g.name@, v@[i].0, MetricValueView::Counter { value: v@[i].1.value }, start),
        ),
        GroupKind::Gauge(v) => Seq::new(
            v@.len(),
            |i: int| sample_view(g.name@, v@[i].0, MetricValueView::Gauge { value: v@[i].1.value }, start),
        ),
        GroupKind::Untyped(v) => Seq::new(
            v@.len(),
            |i: int| sample_view(g.name@, v@[i].0, MetricValueView::Gauge { value: v@[i].1.value }, start),
        ),
        GroupKind::Histogram(v) => Seq::new(
            v@.len(),
            |i: int|
                sample_view(
                    g.name@,
                    v@[i].0,
                    MetricValueView::AggregatedHistogram {
                        buckets: histogram_buckets(v@[i].1.buckets@),
                        count: v@[i].1.count,
                        sum: v@[i].1.sum,
                    },
                    start,
                ),
        ),
        GroupKind::Summary(v) => Seq::new(
            v@.len(),
            |i: int|
                sample_view(
                    g.name@,
                    v@[i].0,
                    MetricValueView::AggregatedSummary {
                        quantiles: summary_quantiles(v@[i].1.quantiles@),
                        count: v@[i].1.count,
                        sum: v@[i].1.sum,
                    },
                    start,
                ),
        ),
    }
}

/// The metric events of all groups, group after group.
pub open spec fn reparsed(groups: Seq<MetricGroup>, start: (i64, u32)) -> Seq<MetricView>
    decreases groups.len(),
{
    if groups.len() == 0 {
        Seq::empty()
    } else {
        reparsed(groups.drop_last(), start) + group_metrics(groups.last(), start)
    }
}

/// The events are metric events, one for each view, in order.
pub open spec fn events_are_metrics(evs: Seq<Event>, ms: Seq<MetricView>) -> bool {
    &&& evs.len() == ms.len()
    &&& forall|i: int| 0 <= i < evs.len() ==> (#[trigger] evs[i] matches Event::Metric(m) && m@ == ms[i])
}

/// The metric event of one sample.
fn sample_event(name: &String, key: &GroupKey, value: MetricValue, start: Timestamp) -> (r: Event)
    requires
        key_time_splittable(*key),
    ensures
        r matches Event::Metric(m) && m@ == sample_view(name@, *key, value@, start@),
{
    let timestamp = utc_timestamp(key.timestamp, start);
    let tags = has_values_or_none(key.labels.duplicate());
    let metric = Metric::new(name.clone(), MetricKind::Absolute, value).with_timestamp(Some(timestamp)).with_tags(tags);
    Event::Metric(metric)
}

/// The quantiles of a summary event.
fn to_quantiles(q: &Vec<SummaryQuantile>) -> (r: Vec<Quantile>)
    ensures
        r@ == summary_quantiles(q@),
{
    let mut out: Vec<Quantile> = Vec::new();
    let mut i: usize = 0;
    while i < q.len()
        invariant
            0 <= i <= q@.len(),
            out@ =~= summary_quantiles(q@.take(i as int)),
        decreases q.len() - i,
    {
        out.push(Quantile { quantile: q[i].quantile, value: q[i].value });
        i = i + 1;
        proof {
            assert(out@ =~= summary_quantiles(q@.take(i as int)));
        }
    }
    proof {
        assert(q@.take(q@.len() as int) =~= q@);
    }
    out
}

/// The metric events of one group.
fn group_events(g: &MetricGroup, start: Timestamp) -> (r: Vec<Event>)
    requires
        group_times_splittable(*g),
    ensures
        events_are_metrics(r@, group_metrics(*g, start@)),
{
    let mut out: Vec<Event> = Vec::new();
    let ghost target = group_metrics(*g, start@);
    match &g.metrics {
        GroupKind::Counter(v) => {
            let mut i: usize = 0;
            while i < v.len()
                invariant
                    target == group_metrics(*g, start@),
                    g.metrics == GroupKind::Counter(*v),
                    group_times_splittable(*g),
                    0 <= i <= v@.len(),
                    events_are_metrics(out@, target.take(i as int)),
                decreases v.len() - i,
            {
                let e = sample_event(&g.name, &v[i].0, MetricValue::Counter { value: v[i].1.value }, start);
                out.push(e);
                i = i + 1;
                proof {
                    assert(events_are_metrics(out@, target.take(i as int)));
                }
            }
        },
        GroupKind::Gauge(v) => {
            let mut i: usize = 0;
            while i < v.len()
                invariant
                    target == group_metrics(*g, start@),
                    g.metrics == GroupKind::Gauge(*v),
                    group_times_splittable(*g),
                    0 <= i <= v@.len(),
                    events_are_metrics(out@, target.take(i as int)),
                decreases v.len() - i,
            {
                let e = sample_event(&g.name, &v[i].0, MetricValue::Gauge { value: v[i].1.value }, start);
                out.push(e);
                i = i + 1;
                proof {
                    assert(events_are_metrics(out@, target.take(i as int)));
                }
            }
        },
        GroupKind::Untyped(v) => {
            let mut i: usize = 0;
            while i < v.len()
                invariant
                    target == group_metrics(*g, start@),
                    g.metrics == GroupKind::Untyped(*v),
                    group_times_splittable(*g),
                    0 <= i <= v@.len(),
                    events_are_metrics(out@, target.take(i as int)),
                decreases v.len() - i,
            {
                let e = sample_event(&g.name, &v[i].0, MetricValue::Gauge { value: v[i].1.value }, start);
                out.push(e);
                i = i + 1;
                proof {
                    assert(events_are_metrics(out@, target.take(i as int)));
                }
            }
        },
        GroupKind::Histogram(v) => {
            let mut i: usize = 0;
            while i < v.len()
                invariant
                    target == group_metrics(*g, start@),
                    g.metrics == GroupKind::Histogram(*v),
                    group_times_splittable(*g),
                    0 <= i <= v@.len(),
                    events_are_metrics(out@, target.take(i as int)),
                decreases v.len() - i,
            {
                let buckets = to_histogram_buckets(&v[i].1.buckets);
                let value = MetricValue::AggregatedHistogram { buckets, count: v[i].1.count, sum: v[i].1.sum };
                let e = sample_event(&g.name, &v[i].0, value, start);
                out.push(e);
                i = i + 1;
                proof {
                    assert(events_are_metrics(out@, target.take(i as int)));
                }
            }
        },
        GroupKind::Summary(v) => {
            let mut i: usize = 0;
            while i < v.len()
                invariant
                    target == group_metrics(*g, start@),
                    g.metrics == GroupKind::Summary(*v),
                    group_times_splittable(*g),
                    0 <= i <= v@.len(),
                    events_are_metrics(out@, target.take(i as int)),
                decreases v.len() - i,
            {
                let quantiles = to_quantiles(&v[i].1.quantiles);
                let value = MetricValue::AggregatedSummary { quantiles, count: v[i].1.count, sum: v[i].1.sum };
                let e = sample_event(&g.name, &v[i].0, value, start);
                out.push(e);
                i = i + 1;
                proof {
                    assert(events_are_metrics(out@, target.take(i as int)));
                }
            }
        },
    }
    proof {
        assert(target.take(target.len() as int) =~= target);
    }
    out
}

/// The metric events of parsed metric groups, samples without a time of their own
/// taken at `start`.
pub fn reparse_groups_at(groups: &Vec<MetricGroup>, start: Timestamp) -> (r: Vec<Event>)
    requires
        forall|i: int| 0 <= i < groups@.len() ==> group_times_splittable(#[trigger] groups@[i]),
    ensures
        events_are_metrics(r@, reparsed(groups@, start@)),
{
    let mut result: Vec<Event> = Vec::new();
    let mut i: usize = 0;
    proof {
        assert(groups@.take(0) =~= Seq::<MetricGroup>::empty());
    }
    while i < groups.len()
        invariant
            0 <= i <= groups@.len(),
            forall|i: int| 0 <= i < groups@.len() ==> group_times_splittable(#[trigger] groups@[i]),
            events_are_metrics(result@, reparsed(groups@.take(i as int), start@)),
        decreases groups.len() - i,
    {
        let mut events = group_events(&groups[i], start);
        let ghost before = result@;
        let ghost added = events@;
        result.append(&mut events);
        proof {
            let gs = groups@.take(i + 1);
            assert(gs.drop_last() =~= groups@.take(i as int));
            assert(gs.last() == groups@[i as int]);
            let whole = reparsed(gs, start@);
            assert(whole == reparsed(groups@.take(i as int), start@) + group_metrics(groups@[i as int], start@));
            assert(result@ =~= before + added);
            assert forall|j: int| 0 <= j < result@.len() implies (#[trigger] result@[j] matches Event::Metric(m) && m@ == whole[j]) by {
                if j < before.len() {
                    assert(result@[j] == before[j]);
                } else {
                    assert(result@[j] == added[j - before.len()]);
                }
            }
        }
        i = i + 1;
    }
    proof {
        assert(groups@.take(groups@.len() as int) =~= groups@);
    }
    result
}

/// The metric events of parsed metric groups, samples without a time of their own
/// taken at one reading of the clock; where the clock gives no time, that is
/// reported.
pub fn reparse_groups(groups: &Vec<MetricGroup>) -> (r: Result<Vec<Event>, ClockUnavailable>)
    requires
        forall|i: int| 0 <= i < groups@.len() ==> group_times_splittable(#[trigger] groups@[i]),
    ensures
        r matches Ok(events) ==> exists|start: (i64, u32)|
            chrono_accepts(start.0, start.1) && events_are_metrics(events@, reparsed(groups@, start)),
        r matches Ok(events) ==> exists|start: (i64, u32)|
            start.0 >= 0 && #[trigger] clock_reads(start.0 as u64, start.1) && events_are_metrics(events@, reparsed(groups@, start)),
{
    match Timestamp::now() {
        Some(start) => {
            let events = reparse_groups_at(groups, start);
            proof {
                assert(clock_reads(start@.0 as u64, start@.1));
            }
            Ok(events)
        },
        None => Err(ClockUnavailable),
    }
}

/// The sum of the counts of the first `n` buckets.
pub open spec fn count_prefix_sum(b: Seq<HistogramBucket>, n: int) -> int
    decreases n,
{
    if n <= 0 {
        0
    } else {
        count_prefix_sum(b, n - 1) + b[n - 1].count
    }
}

/// Cumulative counts that never decrease are given back by summing the per-bucket
/// counts: no sample is lost or counted twice.
pub proof fn lemma_decumulated_sums_back(b: Seq<HistogramBucket>)
    requires
        forall|i: int| 0 < i < b.len() ==> #[trigger] b[i - 1].count <= b[i].count,
    ensures
        forall|i: int| 0 <= i < b.len() ==> #[trigger] count_prefix_sum(decumulated(b), i + 1) == b[i].count,
{
    let d = decumulated(b);
    assert forall|i: int| 0 <= i < b.len() implies #[trigger] count_prefix_sum(d, i + 1) == b[i].count by {
        lemma_decumulated_prefix(b, i);
    }
}

proof fn lemma_decumulated_prefix(b: Seq<HistogramBucket>, i: int)
    requires
        forall|i: int| 0 < i < b.len() ==> #[trigger] b[i - 1].count <= b[i].count,
        0 <= i < b.len(),
    ensures
        count_prefix_sum(decumulated(b), i + 1) == b[i].count,
    decreases i,
{
    let d = decumulated(b);
    if i > 0 {
        lemma_decumulated_prefix(b, i - 1);
        assert(b[i - 1].count <= b[i].count);
        assert(d[i].count == b[i].count - b[i - 1].count);
        assert(count_prefix_sum(d, i + 1) == count_prefix_sum(d, i) + d[i].count);
    } else {
        assert(d[0] == b[0]);
        assert(count_prefix_sum(d, 1) == count_prefix_sum(d, 0) + d[0].count);
    }
}

/// The buckets of a histogram event come in order of their bounds.
pub proof fn lemma_histogram_bounds_ordered(raw: Seq<HistogramBucket>)
    ensures
        forall|i: int, j: int|
            0 <= i < j < histogram_buckets(raw).len() ==> f64_order_key(#[trigger] histogram_buckets(raw)[i].upper_limit)
                <= f64_order_key(#[trigger] histogram_buckets(raw)[j].upper_limit),
{
    lemma_bucket_order_total();
    raw.lemma_sort_by_ensures(bucket_order());
    let s = raw.sort_by(bucket_order());
    let d = decumulated(s);
    let w = without_infinite_last(d);
    let out = histogram_buckets(raw);
    assert forall|i: int, j: int| 0 <= i < j < out.len() implies f64_order_key(#[trigger] out[i].upper_limit)
        <= f64_order_key(#[trigger] out[j].upper_limit) by {
        assert(out[i].upper_limit == w[i].bucket && out[j].upper_limit == w[j].bucket);
        assert(w[i] == d[i] && w[j] == d[j]);
        assert(d[i].bucket == s[i].bucket && d[j].bucket == s[j].bucket);
        assert(bucket_order()(s[i], s[j]));
    }
}

/// The number of samples in a group.
pub open spec fn group_sample_count(g: MetricGroup) -> nat {
    match g.metrics {
        GroupKind::Counter(v) => v@.len(),
        GroupKind::Gauge(v) => v@.len(),
        GroupKind::Untyped(v) => v@.len(),
        GroupKind::Histogram(v) => v@.len(),
        GroupKind::Summary(v) => v@.len(),
    }
}

/// The number of samples in all groups.
pub open spec fn sample_count(groups: Seq<MetricGroup>) -> nat
    decreases groups.len(),
{
    if groups.len() == 0 {
        0
    } else {
        sample_count(groups.drop_last()) + group_sample_count(groups.last())
    }
}

/// Reparsing gives exactly one metric event per sample.
pub proof fn lemma_one_event_per_sample(groups: Seq<MetricGroup>, start: (i64, u32))
    ensures
        reparsed(groups, start).len() == sample_count(groups),
    decreases groups.len(),
{
    if groups.len() > 0 {
        lemma_one_event_per_sample(groups.drop_last(), start);
    }
}


/// The key of sample `j` of a group.
pub open spec fn group_key(g: MetricGroup, j: int) -> GroupKey {
    match g.metrics {
        GroupKind::Counter(v) => v@[j].0,
        GroupKind::Gauge(v) => v@[j].0,
        GroupKind::Untyped(v) => v@[j].0,
        GroupKind::Histogram(v) => v@[j].0,
        GroupKind::Summary(v) => v@[j].0,
    }
}

/// A group gives one metric event per sample.
proof fn lemma_group_metrics_len(g: MetricGroup, start: (i64, u32))
    ensures
        group_metrics(g, start).len() == group_sample_count(g),
{
}

/// Reparsing keeps the order of the groups and of the samples in each group: sample
/// `j` of group `i` gives the event that follows the samples of the groups before it,
/// an absolute metric named after its group, tagged with its labels (none where it
/// has none) and timed at its own time, or at `start` where it has none.
pub proof fn lemma_sample_event_at(groups: Seq<MetricGroup>, start: (i64, u32), i: int, j: int)
    requires
        0 <= i < groups.len(),
        0 <= j < group_sample_count(groups[i]),
    ensures
        sample_count(groups.take(i)) + j < reparsed(groups, start).len(),
        reparsed(groups, start)[sample_count(groups.take(i)) + j] == group_metrics(groups[i], start)[j],
        reparsed(groups, start)[sample_count(groups.take(i)) + j].name == groups[i].name@,
        reparsed(groups, start)[sample_count(groups.take(i)) + j].namespace is None,
        reparsed(groups, start)[sample_count(groups.take(i)) + j].kind == MetricKind::Absolute,
        reparsed(groups, start)[sample_count(groups.take(i)) + j].tags == labels_or_none(group_key(groups[i], j).labels),
        reparsed(groups, start)[sample_count(groups.take(i)) + j].timestamp == Some(
            sample_time(group_key(groups[i], j).timestamp, start),
        ),
    decreases groups.len(),
{
    let init = groups.drop_last();
    lemma_one_event_per_sample(init, start);
    lemma_one_event_per_sample(groups, start);
    lemma_group_metrics_len(groups[i], start);
    let whole = reparsed(groups, start);
    assert(whole == reparsed(init, start) + group_metrics(groups.last(), start));
    if i == groups.len() - 1 {
        assert(groups.take(i) =~= init);
        assert(whole[sample_count(init) + j] == group_metrics(groups.last(), start)[j]);
    } else {
        assert(init.take(i) =~= groups.take(i));
        assert(init[i] == groups[i]);
        lemma_sample_event_at(init, start, i, j);
        assert(whole[sample_count(groups.take(i)) + j] == reparsed(init, start)[sample_count(groups.take(i)) + j]);
    }
}

/// The buckets of a histogram event: the parsed buckets (the same buckets, now in
/// bucket order), each with its count less the count of the bucket before it (never
/// below zero; the first keeps its count), and without the last one where its bound
/// is positive infinity.
pub proof fn lemma_histogram_shape(raw: Seq<HistogramBucket>)
    ensures
        raw.sort_by(bucket_order()).to_multiset() == raw.to_multiset(),
        sorted_by(raw.sort_by(bucket_order()), bucket_order()),
        histogram_buckets(raw).len() == (if raw.len() > 0 && raw.sort_by(bucket_order()).last().bucket == infinity_bits() {
            raw.len() - 1
        } else {
            raw.len() as int
        }),
        forall|i: int|
            0 <= i < histogram_buckets(raw).len() ==> #[trigger] histogram_buckets(raw)[i] == (Bucket {
                upper_limit: raw.sort_by(bucket_order())[i].bucket,
                count: if i == 0 {
                    raw.sort_by(bucket_order())[0].count
                } else {
                    sat_sub(raw.sort_by(bucket_order())[i].count, raw.sort_by(bucket_order())[i - 1].count)
                },
            }),
{
    lemma_bucket_order_total();
    raw.lemma_sort_by_ensures(bucket_order());
    let s = raw.sort_by(bucket_order());
    s.to_multiset_ensures();
    raw.to_multiset_ensures();
    assert(s.len() == raw.len());
    let d = decumulated(s);
    let w = without_infinite_last(d);
    assert forall|i: int| 0 <= i < histogram_buckets(raw).len() implies #[trigger] histogram_buckets(raw)[i] == (Bucket {
        upper_limit: s[i].bucket,
        count: if i == 0 { s[0].count } else { sat_sub(s[i].count, s[i - 1].count) },
    }) by {
        assert(w[i] == d[i]);
    }
}


/// The value of the event of sample `j` of a group: a counter keeps its value, a
/// gauge and an untyped sample become a gauge, a histogram keeps its count and sum
/// and gets its buckets from `histogram_buckets`, a summary keeps its count, sum and
/// quantiles.
pub open spec fn sample_value(g: MetricGroup, j: int) -> MetricValueView {
    match g.metrics {
        GroupKind::Counter(v) => MetricValueView::Counter { value: v@[j].1.value },
        GroupKind::Gauge(v) => MetricValueView::Gauge { value: v@[j].1.value },
        GroupKind::Untyped(v) => MetricValueView::Gauge { value: v@[j].1.value },
        GroupKind::Histogram(v) => MetricValueView::AggregatedHistogram {
            buckets: histogram_buckets(v@[j].1.buckets@),
            count: v@[j].1.count,
            sum: v@[j].1.sum,
        },
        GroupKind::Summary(v) => MetricValueView::AggregatedSummary {
            quantiles: summary_quantiles(v@[j].1.quantiles@),
            count: v@[j].1.count,
            sum: v@[j].1.sum,
        },
    }
}

/// The whole output of reparsing: one event per sample, group after group and, in
/// each group, sample after sample; the event of sample `j` of group `i` is the
/// absolute metric named after the group, with that sample's labels, time (or
/// `start`) and value.
pub proof fn lemma_reparsed_layout(groups: Seq<MetricGroup>, start: (i64, u32))
    ensures
        reparsed(groups, start).len() == sample_count(groups),
        forall|i: int, j: int|
            0 <= i < groups.len() && 0 <= j < group_sample_count(groups[i]) ==> {
                &&& sample_count(groups.take(i)) + j < reparsed(groups, start).len()
                &&& reparsed(groups, start)[sample_count(groups.take(i)) + j] == #[trigger] sample_view(
                    groups[i].name@,
                    group_key(groups[i], j),
                    sample_value(groups[i], j),
                    start,
                )
            },
{
    lemma_one_event_per_sample(groups, start);
    assert forall|i: int, j: int|
        0 <= i < groups.len() && 0 <= j < group_sample_count(groups[i]) implies {
            &&& sample_count(groups.take(i)) + j < reparsed(groups, start).len()
            &&& reparsed(groups, start)[sample_count(groups.take(i)) + j] == #[trigger] sample_view(
                groups[i].name@,
                group_key(groups[i], j),
                sample_value(groups[i], j),
                start,
            )
        } by {
        lemma_sample_event_at(groups, start, i, j);
    }
}

} // verus!
