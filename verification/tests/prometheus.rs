use chrono::Utc;
use vector_moogsoft::event::{Bucket, Event, Metric, MetricKind, MetricTags, MetricValue, Quantile};
use vector_moogsoft::prometheus::{
    reparse_groups, reparse_groups_at, utc_timestamp, GroupKey, GroupKind, HistogramBucket,
    HistogramMetric, MetricGroup, SimpleMetric, SummaryMetric, SummaryQuantile,
};
use vector_moogsoft::time::Timestamp;

const TS: i64 = 1612411506789;

fn key(timestamp: Option<i64>, labels: &[(&str, &str)]) -> GroupKey {
    let mut tags = MetricTags::new();
    for (k, v) in labels {
        tags.insert((*k).to_owned(), (*v).to_owned());
    }
    GroupKey { timestamp, labels: tags }
}

fn simple(v: f64) -> SimpleMetric {
    SimpleMetric { value: v.to_bits() }
}

fn metrics(events: Vec<Event>) -> Vec<Metric> {
    events
        .into_iter()
        .map(|e| match e {
            Event::Metric(m) => m,
            Event::Log(_) => panic!("only metric events are expected"),
        })
        .collect()
}

fn at_timestamp(m: &Metric) {
    let t = m.timestamp.unwrap();
    assert_eq!(t.secs(), 1612411506);
    assert_eq!(t.nanos(), 789_000_000);
}

fn absolute_named(m: &Metric, name: &str, labels: &[(&str, &str)]) {
    assert_eq!(m.name, name);
    assert!(m.namespace.is_none());
    assert_eq!(m.kind, MetricKind::Absolute);
    match &m.tags {
        None => assert!(labels.is_empty()),
        Some(tags) => {
            assert_eq!(tags.len(), labels.len());
            for (k, v) in labels {
                assert_eq!(tags.get(k).unwrap(), v);
            }
        }
    }
}

fn start() -> Timestamp {
    Timestamp::new(1, 0).unwrap()
}

fn counter_value(m: &Metric) -> f64 {
    match m.value {
        MetricValue::Counter { value } => f64::from_bits(value),
        _ => panic!("a counter is expected"),
    }
}

fn gauge_value(m: &Metric) -> f64 {
    match m.value {
        MetricValue::Gauge { value } => f64::from_bits(value),
        _ => panic!("a gauge is expected"),
    }
}

fn buckets(bs: &[(f64, u32)]) -> Vec<HistogramBucket> {
    bs.iter().map(|(b, c)| HistogramBucket { bucket: b.to_bits(), count: *c }).collect()
}

fn histogram(m: &Metric) -> (Vec<(f64, u32)>, u32, f64) {
    match &m.value {
        MetricValue::AggregatedHistogram { buckets, count, sum } => (
            buckets.iter().map(|b: &Bucket| (f64::from_bits(b.upper_limit), b.count)).collect(),
            *count,
            f64::from_bits(*sum),
        ),
        _ => panic!("a histogram is expected"),
    }
}

#[test]
fn adds_timestamp_if_missing() {
    let now = Utc::now().timestamp();
    let groups = vec![MetricGroup {
        name: "http_requests_total".to_owned(),
        metrics: GroupKind::Counter(vec![(key(None, &[]), simple(1027.0))]),
    }];
    let result = metrics(reparse_groups(&groups).unwrap());
    assert_eq!(result.len(), 1);
    assert!(result[0].timestamp.unwrap().secs() >= now);
}

#[test]
fn test_counter() {
    let groups = vec![MetricGroup {
        name: "uptime".to_owned(),
        metrics: GroupKind::Counter(vec![(key(Some(TS), &[]), simple(123.0))]),
    }];
    let result = metrics(reparse_groups_at(&groups, start()));
    assert_eq!(result.len(), 1);
    assert_eq!(result[0].name, "uptime");
    assert_eq!(result[0].kind, MetricKind::Absolute);
    assert_eq!(counter_value(&result[0]), 123.0);
    assert!(result[0].tags.is_none());
    assert!(result[0].namespace.is_none());
    at_timestamp(&result[0]);
}

#[test]
fn test_counter_empty() {
    let groups = vec![MetricGroup { name: "hidden".to_owned(), metrics: GroupKind::Counter(vec![]) }];
    assert!(reparse_groups_at(&groups, start()).is_empty());
}

#[test]
fn test_counter_nan() {
    let groups = vec![MetricGroup {
        name: "name".to_owned(),
        metrics: GroupKind::Counter(vec![(key(None, &[("labelname", "val1"), ("basename", "basevalue")]), simple(f64::NAN))]),
    }];
    let result = metrics(reparse_groups_at(&groups, start()));
    assert!(counter_value(&result[0]).is_nan());
}

#[test]
fn test_counter_tags_and_timestamp() {
    let groups = vec![MetricGroup {
        name: "http_requests_total".to_owned(),
        metrics: GroupKind::Counter(vec![
            (key(Some(1395066363000), &[("method", "post"), ("code", "200")]), simple(1027.0)),
            (key(Some(1395066363000), &[("method", "post"), ("code", "400")]), simple(3.0)),
        ]),
    }];
    let result = metrics(reparse_groups_at(&groups, start()));
    assert_eq!(result.len(), 2);
    assert_eq!(counter_value(&result[0]), 1027.0);
    assert_eq!(counter_value(&result[1]), 3.0);
    for m in &result {
        assert_eq!(m.timestamp.unwrap().secs(), 1395066363);
        assert_eq!(m.timestamp.unwrap().nanos(), 0);
        assert_eq!(m.tags.as_ref().unwrap().get("method").unwrap(), "post");
    }
    assert_eq!(result[0].tags.as_ref().unwrap().get("code").unwrap(), "200");
    assert_eq!(result[1].tags.as_ref().unwrap().get("code").unwrap(), "400");
}

#[test]
fn test_gauge() {
    let groups = vec![MetricGroup {
        name: "latency".to_owned(),
        metrics: GroupKind::Gauge(vec![(key(Some(TS), &[]), simple(123.0))]),
    }];
    let result = metrics(reparse_groups_at(&groups, start()));
    assert_eq!(result.len(), 1);
    assert_eq!(result[0].name, "latency");
    assert_eq!(gauge_value(&result[0]), 123.0);
    at_timestamp(&result[0]);
}

#[test]
fn test_gauge_weird_timestamp() {
    let groups = vec![MetricGroup {
        name: "something_weird".to_owned(),
        metrics: GroupKind::Untyped(vec![(key(Some(-3982045000), &[("problem", "division by zero")]), simple(f64::INFINITY))]),
    }];
    let result = metrics(reparse_groups_at(&groups, start()));
    assert_eq!(gauge_value(&result[0]), f64::INFINITY);
    assert_eq!(result[0].timestamp.unwrap().secs(), -3982045);
    assert_eq!(result[0].timestamp.unwrap().nanos(), 0);
    assert_eq!(result[0].tags.as_ref().unwrap().get("problem").unwrap(), "division by zero");
}

#[test]
fn test_mixed() {
    let groups = vec![
        MetricGroup { name: "uptime".to_owned(), metrics: GroupKind::Counter(vec![(key(Some(TS), &[]), simple(123.0))]) },
        MetricGroup { name: "temperature".to_owned(), metrics: GroupKind::Gauge(vec![(key(Some(TS), &[]), simple(-1.5))]) },
        MetricGroup { name: "launch_count".to_owned(), metrics: GroupKind::Counter(vec![(key(Some(TS), &[]), simple(10.0))]) },
    ];
    let result = metrics(reparse_groups_at(&groups, start()));
    assert_eq!(result.len(), 3);
    assert_eq!(result[0].name, "uptime");
    assert_eq!(counter_value(&result[0]), 123.0);
    assert_eq!(result[1].name, "temperature");
    assert_eq!(gauge_value(&result[1]), -1.5);
    assert_eq!(result[2].name, "launch_count");
    assert_eq!(counter_value(&result[2]), 10.0);
    for m in &result {
        at_timestamp(m);
    }
}

#[test]
fn test_mixed_and_loosely_typed() {
    let groups = vec![
        MetricGroup { name: "uptime".to_owned(), metrics: GroupKind::Counter(vec![(key(Some(TS), &[]), simple(123.0))]) },
        MetricGroup { name: "last_downtime".to_owned(), metrics: GroupKind::Untyped(vec![(key(Some(TS), &[]), simple(4.0))]) },
        MetricGroup { name: "temperature".to_owned(), metrics: GroupKind::Gauge(vec![(key(Some(TS), &[]), simple(-1.5))]) },
        MetricGroup {
            name: "temperature_7_days_average".to_owned(),
            metrics: GroupKind::Untyped(vec![(key(Some(TS), &[]), simple(0.1))]),
        },
    ];
    let result = metrics(reparse_groups_at(&groups, start()));
    assert_eq!(result.len(), 4);
    assert_eq!(counter_value(&result[0]), 123.0);
    assert_eq!(gauge_value(&result[1]), 4.0);
    assert_eq!(gauge_value(&result[2]), -1.5);
    assert_eq!(gauge_value(&result[3]), 0.1);
}

#[test]
fn test_histogram() {
    let groups = vec![MetricGroup {
        name: "http_request_duration_seconds".to_owned(),
        metrics: GroupKind::Histogram(vec![(
            key(Some(TS), &[]),
            HistogramMetric {
                buckets: buckets(&[(0.05, 24054), (0.1, 33444), (0.2, 100392), (0.5, 129389), (1.0, 133988), (f64::INFINITY, 144320)]),
                count: 144320,
                sum: 53423.0f64.to_bits(),
            },
        )]),
    }];
    let result = metrics(reparse_groups_at(&groups, start()));
    assert_eq!(result.len(), 1);
    let (bs, count, sum) = histogram(&result[0]);
    assert_eq!(bs, vec![(0.05, 24054), (0.1, 9390), (0.2, 66948), (0.5, 28997), (1.0, 4599)]);
    assert_eq!(count, 144320);
    assert_eq!(sum, 53423.0);
    absolute_named(&result[0], "http_request_duration_seconds", &[]);
    at_timestamp(&result[0]);
}

#[test]
fn test_histogram_out_of_order() {
    let groups = vec![MetricGroup {
        name: "duration".to_owned(),
        metrics: GroupKind::Histogram(vec![(
            key(Some(TS), &[]),
            HistogramMetric { buckets: buckets(&[(f64::INFINITY, 144320), (1.0, 133988)]), count: 144320, sum: 53423.0f64.to_bits() },
        )]),
    }];
    let result = metrics(reparse_groups_at(&groups, start()));
    let (bs, count, sum) = histogram(&result[0]);
    assert_eq!(result.len(), 1);
    assert_eq!(bs, vec![(1.0, 133988)]);
    assert_eq!(count, 144320);
    assert_eq!(sum, 53423.0);
    absolute_named(&result[0], "duration", &[]);
    at_timestamp(&result[0]);
}

#[test]
fn test_histogram_backward_values() {
    let groups = vec![MetricGroup {
        name: "duration".to_owned(),
        metrics: GroupKind::Histogram(vec![(
            key(Some(TS), &[]),
            HistogramMetric {
                buckets: buckets(&[(1.0, 2000), (10.0, 1000), (f64::INFINITY, 2000)]),
                count: 2000,
                sum: 2000.0f64.to_bits(),
            },
        )]),
    }];
    let result = metrics(reparse_groups_at(&groups, start()));
    let (bs, count, sum) = histogram(&result[0]);
    assert_eq!(result.len(), 1);
    assert_eq!(bs, vec![(1.0, 2000), (10.0, 0)]);
    assert_eq!(count, 2000);
    assert_eq!(sum, 2000.0);
    absolute_named(&result[0], "duration", &[]);
    at_timestamp(&result[0]);
}

#[test]
fn test_histogram_with_labels() {
    let bounds = [30.0, 60.0, 300.0, 600.0, 1800.0, 3600.0, 7200.0, 10800.0, 18000.0, 36000.0, f64::INFINITY];
    let z = [327, 474, 535, 536, 536, 536, 536, 536, 536, 536, 536];
    let x = [1, 1, 1, 1, 1, 1, 1, 1, 1, 1, 1];
    let y = [285, 1165, 3071, 3151, 3252, 3255, 3255, 3255, 3255, 3255, 3255];
    let make = |counts: [u32; 11]| -> Vec<HistogramBucket> {
        bounds.iter().zip(counts.iter()).map(|(b, c)| HistogramBucket { bucket: b.to_bits(), count: *c }).collect()
    };
    let groups = vec![MetricGroup {
        name: "gitlab_runner_job_duration_seconds".to_owned(),
        metrics: GroupKind::Histogram(vec![
            (key(Some(TS), &[("runner", "z")]), HistogramMetric { buckets: make(z), count: 536, sum: 19690.129384881966f64.to_bits() }),
            (key(Some(TS), &[("runner", "x")]), HistogramMetric { buckets: make(x), count: 1, sum: 28.975436316f64.to_bits() }),
            (key(Some(TS), &[("runner", "y")]), HistogramMetric { buckets: make(y), count: 3255, sum: 381111.7498891335f64.to_bits() }),
        ]),
    }];
    let result = metrics(reparse_groups_at(&groups, start()));
    assert_eq!(result.len(), 3);
    let finite = &bounds[..10];
    let expect = |counts: [u32; 10]| -> Vec<(f64, u32)> { finite.iter().cloned().zip(counts.iter().cloned()).collect() };
    let (bz, cz, sz) = histogram(&result[0]);
    assert_eq!(bz, expect([327, 147, 61, 1, 0, 0, 0, 0, 0, 0]));
    assert_eq!((cz, sz), (536, 19690.129384881966));
    assert_eq!(result[0].tags.as_ref().unwrap().get("runner").unwrap(), "z");
    let (bx, cx, sx) = histogram(&result[1]);
    assert_eq!(bx, expect([1, 0, 0, 0, 0, 0, 0, 0, 0, 0]));
    assert_eq!((cx, sx), (1, 28.975436316));
    let (by, cy, sy) = histogram(&result[2]);
    assert_eq!(by, expect([285, 880, 1906, 80, 101, 3, 0, 0, 0, 0]));
    assert_eq!((cy, sy), (3255, 381111.7498891335));
    for (m, runner) in result.iter().zip(["z", "x", "y"].iter()) {
        absolute_named(m, "gitlab_runner_job_duration_seconds", &[("runner", runner)]);
        at_timestamp(m);
    }
}

#[test]
fn test_summary() {
    let q = |pairs: &[(f64, f64)]| -> Vec<SummaryQuantile> {
        pairs.iter().map(|(a, b)| SummaryQuantile { quantile: a.to_bits(), value: b.to_bits() }).collect()
    };
    let groups = vec![
        MetricGroup {
            name: "rpc_duration_seconds".to_owned(),
            metrics: GroupKind::Summary(vec![(
                key(Some(TS), &[("service", "a")]),
                SummaryMetric {
                    quantiles: q(&[(0.01, 3102.0), (0.05, 3272.0), (0.5, 4773.0), (0.9, 9001.0), (0.99, 76656.0)]),
                    count: 2693,
                    sum: 1.7560473e+07f64.to_bits(),
                },
            )]),
        },
        MetricGroup {
            name: "go_gc_duration_seconds".to_owned(),
            metrics: GroupKind::Summary(vec![(
                key(Some(TS), &[]),
                SummaryMetric {
                    quantiles: q(&[(0.0, 0.009460965), (0.25, 0.009793382), (0.5, 0.009870205), (0.75, 0.01001838), (1.0, 0.018827136)]),
                    count: 602767,
                    sum: 4668.551713715f64.to_bits(),
                },
            )]),
        },
    ];
    let result = metrics(reparse_groups_at(&groups, start()));
    assert_eq!(result.len(), 2);
    match &result[0].value {
        MetricValue::AggregatedSummary { quantiles, count, sum } => {
            let got: Vec<(f64, f64)> = quantiles.iter().map(|x: &Quantile| (f64::from_bits(x.quantile), f64::from_bits(x.value))).collect();
            assert_eq!(got, vec![(0.01, 3102.0), (0.05, 3272.0), (0.5, 4773.0), (0.9, 9001.0), (0.99, 76656.0)]);
            assert_eq!(*count, 2693);
            assert_eq!(f64::from_bits(*sum), 1.7560473e+07);
        }
        _ => panic!("a summary is expected"),
    }
    assert_eq!(result[0].tags.as_ref().unwrap().get("service").unwrap(), "a");
    assert!(result[1].tags.is_none());
    match &result[1].value {
        MetricValue::AggregatedSummary { count, .. } => assert_eq!(*count, 602767),
        _ => panic!("a summary is expected"),
    }
}

#[test]
fn prometheus_out_of_range_time_falls_back() {
    let default = Timestamp::new(5, 6).unwrap();
    let t = utc_timestamp(Some(i64::MAX - 807), default);
    assert_eq!((t.secs(), t.nanos()), (5, 6));
    let t = utc_timestamp(None, default);
    assert_eq!((t.secs(), t.nanos()), (5, 6));
    let t = utc_timestamp(Some(1500), default);
    assert_eq!((t.secs(), t.nanos()), (1, 500_000_000));
}

#[test]
fn prometheus_histogram_negative_and_zero_bounds() {
    let groups = vec![MetricGroup {
        name: "h".to_owned(),
        metrics: GroupKind::Histogram(vec![(
            key(None, &[]),
            HistogramMetric { buckets: buckets(&[(0.0, 5), (-1.0, 2), (f64::INFINITY, 9), (2.0, 7)]), count: 9, sum: 0 },
        )]),
    }];
    let result = metrics(reparse_groups_at(&groups, start()));
    let (bs, _, _) = histogram(&result[0]);
    assert_eq!(bs, vec![(-1.0, 2), (0.0, 3), (2.0, 2)]);
    assert_eq!(result[0].timestamp.unwrap().secs(), 1);
}

#[test]
fn test_gauge_minimalistic() {
    let groups = vec![MetricGroup {
        name: "metric_without_timestamp_and_labels".to_owned(),
        metrics: GroupKind::Untyped(vec![(key(Some(TS), &[]), simple(12.47))]),
    }];
    let result = metrics(reparse_groups_at(&groups, start()));
    assert_eq!(result.len(), 1);
    assert_eq!(result[0].name, "metric_without_timestamp_and_labels");
    assert_eq!(gauge_value(&result[0]), 12.47);
    at_timestamp(&result[0]);
}

#[test]
fn test_gauge_empty_labels() {
    let groups = vec![MetricGroup {
        name: "no_labels".to_owned(),
        metrics: GroupKind::Untyped(vec![(key(Some(TS), &[]), simple(3.0))]),
    }];
    let result = metrics(reparse_groups_at(&groups, start()));
    assert_eq!(result.len(), 1);
    assert_eq!(gauge_value(&result[0]), 3.0);
    assert!(result[0].tags.is_none());
    at_timestamp(&result[0]);
}

#[test]
fn test_gauge_tabs() {
    let groups = vec![MetricGroup {
        name: "latency".to_owned(),
        metrics: GroupKind::Gauge(vec![
            (key(Some(1395066363000), &[("env", "production")]), simple(1.0)),
            (key(Some(1395066363000), &[("env", "testing")]), simple(2.0)),
        ]),
    }];
    let result = metrics(reparse_groups_at(&groups, start()));
    assert_eq!(result.len(), 2);
    assert_eq!(gauge_value(&result[0]), 1.0);
    assert_eq!(gauge_value(&result[1]), 2.0);
    assert_eq!(result[0].tags.as_ref().unwrap().get("env").unwrap(), "production");
    assert_eq!(result[1].tags.as_ref().unwrap().get("env").unwrap(), "testing");
    for m in &result {
        assert_eq!(m.timestamp.unwrap().secs(), 1395066363);
    }
}

#[test]
fn test_nginx() {
    let bytes = [("in", "*", 263719.0), ("in", "_", 255061.0), ("in", "nginx-vts-status", 8658.0), ("out", "*", 944199.0), ("out", "_", 360775.0), ("out", "nginx-vts-status", 583424.0)];
    let statuses = ["bypass", "expired", "hit", "miss", "revalidated", "scarce"];
    let groups = vec![
        MetricGroup {
            name: "nginx_server_bytes".to_owned(),
            metrics: GroupKind::Counter(bytes.iter().map(|(d, h, v)| (key(None, &[("direction", d), ("host", h)]), simple(*v))).collect()),
        },
        MetricGroup {
            name: "nginx_server_cache".to_owned(),
            metrics: GroupKind::Counter(statuses.iter().map(|s| (key(None, &[("host", "*"), ("status", s)]), simple(0.0))).collect()),
        },
    ];
    let now = Utc::now().timestamp();
    let result = metrics(reparse_groups(&groups).unwrap());
    assert_eq!(result.len(), 12);
    for (i, (d, h, v)) in bytes.iter().enumerate() {
        assert_eq!(result[i].name, "nginx_server_bytes");
        assert_eq!(counter_value(&result[i]), *v);
        let tags = result[i].tags.as_ref().unwrap();
        assert_eq!(tags.get("direction").unwrap(), d);
        assert_eq!(tags.get("host").unwrap(), h);
        assert!(result[i].timestamp.expect("Missing timestamp").secs() >= now);
    }
    for (i, s) in statuses.iter().enumerate() {
        let m = &result[6 + i];
        assert_eq!(m.name, "nginx_server_cache");
        assert_eq!(counter_value(m), 0.0);
        assert_eq!(m.tags.as_ref().unwrap().get("status").unwrap(), s);
        assert!(m.timestamp.expect("Missing timestamp").secs() >= now);
    }
}
