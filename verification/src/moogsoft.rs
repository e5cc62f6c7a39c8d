//! The Moogsoft metrics sink: turns log and metric events into Moogsoft metrics and
//! posts them in batches.
use vstd::prelude::*;
use crate::event::{
    distinct_keys, field_pairs, lemma_pairs_map_at, pairs_map, value_text, Event, LogEvent,
    LogSchema, Metric, MetricKind, MetricTags, MetricValue, Value,
};
use crate::internal_events::{LogEventDiscarded, MetricDiscarded, MoogsoftMetricEncoded};
use crate::sink_http::{
    batch_body, batch_defaults, frame_record, header_texts, http_uri_text, json_post, plain_authority, plain_host,
    plain_path, record_bytes, request_defaults, try_uri, BatchSettings, DataType, HttpRequest,
    RequestSettings, UriSerde,
};
use crate::text::{opt_text, text_eq};
use crate::time::{accepted_seconds, chrono_accepts, clock_reads, clock_seconds, ClockUnavailable, Timestamp};

verus! {

/// The path of the Moogsoft metrics endpoint.
pub open spec fn metrics_path() -> Seq<char> {
    "/v1/integrations/metrics"@
}

/// Configuration of the Moogsoft metrics sink.
#[derive(Debug)]
pub struct MoogsoftSinkConfig {
    pub api_key: String,
    pub uri: UriSerde,
}

/// The API key used when none is configured: empty.
pub fn default_api_key() -> (r: String)
    ensures
        r@ == Seq::<char>::empty(),
{
    String::new()
}

/// The metrics endpoint on the host (and port) `authority`, over HTTP, where `http`
/// accepts the authority; a plain host name always is.
pub fn try_uri_for_authority(authority: &str) -> (r: Option<UriSerde>)
    ensures
        r is Some <==> http_uri_text(authority@, metrics_path()) is Some,
        r matches Some(u) ==> Some(u.uri@) == http_uri_text(authority@, metrics_path()),
        plain_authority(authority@) ==> (r matches Some(u) && u.uri@ == "http://"@ + authority@ + metrics_path()),
{
    proof {
        reveal_strlit("/v1/integrations/metrics");
        assert(plain_path(metrics_path()));
    }
    match try_uri(authority, "/v1/integrations/metrics") {
        Some(_) => Some(uri_for_authority(authority)),
        None => None,
    }
}

/// The metrics endpoint on the host (and port) `authority`, over HTTP; `http` must
/// accept the authority.
pub fn uri_for_authority(authority: &str) -> (r: UriSerde)
    requires
        http_uri_text(authority@, metrics_path()) is Some,
    ensures
        Some(r.uri@) == http_uri_text(authority@, metrics_path()),
{
    proof {
        reveal_strlit("/v1/integrations/metrics");
        assert(plain_path(metrics_path()));
    }
    match try_uri(authority, "/v1/integrations/metrics") {
        Some(uri) => uri,
        None => {
            proof {
                assert(false);
            }
            UriSerde { uri: String::new() }
        },
    }
}

/// The metrics endpoint of the Moogsoft cloud.
pub fn default_uri() -> (r: UriSerde)
    ensures
        r.uri@ == "http://"@ + "api.moogsoft.ai"@ + metrics_path(),
{
    proof {
        reveal_strlit("api.moogsoft.ai");
        assert(plain_host("api.moogsoft.ai"@));
    }
    match try_uri_for_authority("api.moogsoft.ai") {
        Some(uri) => uri,
        None => {
            proof {
                assert(false);
            }
            UriSerde { uri: String::new() }
        },
    }
}

impl Default for MoogsoftSinkConfig {
    /// An empty API key and the Moogsoft cloud endpoint.
    fn default() -> (r: MoogsoftSinkConfig)
        ensures
            r.api_key@ == Seq::<char>::empty(),
            r.uri.uri@ == "http://"@ + "api.moogsoft.ai"@ + metrics_path(),
    {
        MoogsoftSinkConfig { api_key: default_api_key(), uri: default_uri() }
    }
}

/// The number that a Moogsoft metric reports: an integer, or a floating-point number
/// as binary64 bits.
#[derive(Clone, Copy, Debug, PartialEq, Eq, Structural)]
pub enum Number {
    Integer(i64),
    Float(u64),
}

/// A metric in the form Moogsoft takes it.
#[derive(Debug)]
pub struct MoogsoftMetric {
    pub metric: String,
    pub key: String,
    pub source: String,
    pub data: Number,
    pub time: i64,
    pub tags: MetricTags,
}

/// A Moogsoft metric as texts, number, time and tag map.
pub struct MoogsoftMetricView {
    pub metric: Seq<char>,
    pub key: Seq<char>,
    pub source: Seq<char>,
    pub data: Number,
    pub time: i64,
    pub tags: Map<Seq<char>, Seq<char>>,
}

impl View for MoogsoftMetric {
    type V = MoogsoftMetricView;

    open spec fn view(&self) -> MoogsoftMetricView {
        MoogsoftMetricView {
            metric: self.metric@,
            key: self.key@,
            source: self.source@,
            data: self.data,
            time: self.time,
            tags: self.tags@,
        }
    }
}

/// Whether `path` is one of the fields that a Moogsoft metric takes from a log event
/// (and so is no tag).
pub open spec fn is_standard_field(path: Seq<char>, schema: LogSchema) -> bool {
    ||| path == "metric"@
    ||| path == "data"@
    ||| path == "key"@
    ||| path == "source"@
    ||| path == "time"@
    ||| path == schema.host_key@
    ||| path == schema.timestamp_key@
}

/// The number in a value, if it holds one.
pub open spec fn number_of(v: Value) -> Option<Number> {
    match v {
        Value::Integer(i) => Some(Number::Integer(i)),
        Value::Float(f) => Some(Number::Float(f.bits)),
        _ => None,
    }
}

/// The seconds since the Unix epoch in a value, if it holds a time.
pub open spec fn seconds_of(v: Value) -> Option<i64> {
    match v {
        Value::Integer(i) => Some(i),
        Value::Timestamp(t) => Some(t@.0),
        _ => None,
    }
}

/// The source of the metric: the `source` field, else the host field, else the
/// host name.
pub open spec fn log_source(
    log: Map<Seq<char>, Value>,
    schema: LogSchema,
    hostname: Option<Seq<char>>,
) -> Option<Seq<char>> {
    if log.contains_key("source"@) {
        Some(value_text(log["source"@]))
    } else if log.contains_key(schema.host_key@) {
        Some(value_text(log[schema.host_key@]))
    } else {
        hostname
    }
}

/// The time of the metric: from the first of the `time` field and the timestamp
/// field that is present, which must hold a time; without either, `now`.
pub open spec fn log_time(log: Map<Seq<char>, Value>, schema: LogSchema, now: i64) -> Option<i64> {
    if log.contains_key("time"@) {
        seconds_of(log["time"@])
    } else if log.contains_key(schema.timestamp_key@) {
        seconds_of(log[schema.timestamp_key@])
    } else {
        Some(now)
    }
}

/// The tags of the metric: every other field, as text.
pub open spec fn log_tags(log: Map<Seq<char>, Value>, schema: LogSchema) -> Map<Seq<char>, Seq<char>> {
    Map::new(
        |k: Seq<char>| log.contains_key(k) && !is_standard_field(k, schema),
        |k: Seq<char>| value_text(log[k]),
    )
}

/// The Moogsoft metric that a log event stands for, if it stands for one: it needs a
/// `metric` field, a numeric `data` field, a source and a valid time.
pub open spec fn metric_from_log(
    log: Map<Seq<char>, Value>,
    schema: LogSchema,
    hostname: Option<Seq<char>>,
    now: i64,
) -> Option<MoogsoftMetricView> {
    if !log.contains_key("metric"@) || !log.contains_key("data"@) {
        None
    } else if number_of(log["data"@]) is None || log_source(log, schema, hostname) is None
        || log_time(log, schema, now) is None {
        None
    } else {
        Some(
            MoogsoftMetricView {
                metric: value_text(log["metric"@]),
                key: if log.contains_key("key"@) {
                    value_text(log["key"@])
                } else {
                    Seq::empty()
                },
                source: log_source(log, schema, hostname)->0,
                data: number_of(log["data"@])->0,
                time: log_time(log, schema, now)->0,
                tags: log_tags(log, schema),
            },
        )
    }
}

/// The source of a metric event: its host tag, else the host name.
pub open spec fn metric_source(m: Metric, schema: LogSchema, hostname: Option<Seq<char>>) -> Option<Seq<char>> {
    if m.tags matches Some(t) && t@.contains_key(schema.host_key@) {
        Some(m.tags->0@[schema.host_key@])
    } else {
        hostname
    }
}

/// The Moogsoft metric that a metric event stands for, if it stands for one: only
/// an absolute gauge with a source does.
pub open spec fn metric_from_metric(
    m: Metric,
    schema: LogSchema,
    hostname: Option<Seq<char>>,
    now: i64,
) -> Option<MoogsoftMetricView> {
    match m.value {
        MetricValue::Gauge { value } => {
            if m.kind == MetricKind::Incremental || metric_source(m, schema, hostname) is None {
                None
            } else {
                Some(
                    MoogsoftMetricView {
                        metric: m.name@,
                        key: match m.namespace {
                            Some(n) => n@,
                            None => Seq::empty(),
                        },
                        source: metric_source(m, schema, hostname)->0,
                        data: Number::Float(value),
                        time: match m.timestamp {
                            Some(t) => t@.0,
                            None => now,
                        },
                        tags: match m.tags {
                            Some(t) => t@,
                            None => Map::empty(),
                        },
                    },
                )
            }
        },
        _ => None,
    }
}

/// Whether `path` is one of the standard fields.
fn is_standard(path: &str, schema: &LogSchema) -> (r: bool)
    ensures
        r == is_standard_field(path@, *schema),
{
    proof {
        reveal_strlit("metric");
        reveal_strlit("data");
        reveal_strlit("key");
        reveal_strlit("source");
        reveal_strlit("time");
    }
    text_eq(path, "metric") || text_eq(path, "data") || text_eq(path, "key") || text_eq(path, "source")
        || text_eq(path, "time") || text_eq(path, schema.host_key.as_str()) || text_eq(
        path,
        schema.timestamp_key.as_str(),
    )
}

/// The tags of the metric that a log event stands for.
fn tags_from_log(log: &LogEvent, schema: &LogSchema) -> (r: MetricTags)
    ensures
        r@ == log_tags(log@, *schema),
{
    let fields = log.all_fields();
    let ghost pairs = field_pairs(fields@);
    let mut tags = MetricTags::new();
    let mut i: usize = 0;
    while i < fields.len()
        invariant
            pairs == field_pairs(fields@),
            distinct_keys(pairs),
            pairs_map(pairs) == log@,
            0 <= i <= fields@.len(),
            forall|k: Seq<char>|
                #[trigger] tags@.contains_key(k) <==> (exists|j: int|
                    0 <= j < i && #[trigger] pairs[j].0 == k) && !is_standard_field(k, *schema),
            forall|k: Seq<char>| #[trigger] tags@.contains_key(k) ==> tags@[k] == value_text(log@[k]),
        decreases fields.len() - i,
    {
        let path = &fields[i].0;
        proof {
            lemma_pairs_map_at(pairs, i as int);
            assert(pairs[i as int].0 == path@);
        }
        if !is_standard(path.as_str(), schema) {
            let text = fields[i].1.to_string_lossy();
            tags.insert(path.clone(), text);
        }
        proof {
            assert forall|k: Seq<char>|
                #[trigger] tags@.contains_key(k) <==> (exists|j: int|
                    0 <= j < i + 1 && #[trigger] pairs[j].0 == k) && !is_standard_field(k, *schema) by {
                if exists|j: int| 0 <= j < i + 1 && #[trigger] pairs[j].0 == k {
                    let j = choose|j: int| 0 <= j < i + 1 && #[trigger] pairs[j].0 == k;
                    if j < i {
                        assert(exists|j: int| 0 <= j < i && #[trigger] pairs[j].0 == k);
                    }
                }
                if (exists|j: int| 0 <= j < i && #[trigger] pairs[j].0 == k) {
                    let j = choose|j: int| 0 <= j < i && #[trigger] pairs[j].0 == k;
                    assert(0 <= j < i + 1 && pairs[j].0 == k);
                }
            }
        }
        i = i + 1;
    }
    proof {
        assert forall|k: Seq<char>| #[trigger] tags@.contains_key(k) == log_tags(log@, *schema).contains_key(k) by {
            if log@.contains_key(k) {
                let j = crate::event::key_index(pairs, k);
                assert(pairs[j].0 == k);
            }
            if exists|j: int| 0 <= j < fields@.len() && #[trigger] pairs[j].0 == k {
                let j = choose|j: int| 0 <= j < fields@.len() && #[trigger] pairs[j].0 == k;
                lemma_pairs_map_at(pairs, j);
            }
        }
        assert(tags@ =~= log_tags(log@, *schema));
    }
    tags
}

/// The number in a value, if it holds one.
fn number_in(v: &Value) -> (r: Option<Number>)
    ensures
        r == number_of(*v),
{
    match v {
        Value::Integer(i) => Some(Number::Integer(*i)),
        Value::Float(f) => Some(Number::Float(f.bits)),
        _ => None,
    }
}

/// The seconds since the Unix epoch in a value, if it holds a time.
fn seconds_in(v: &Value) -> (r: Option<i64>)
    ensures
        r == seconds_of(*v),
{
    match v {
        Value::Integer(i) => Some(*i),
        Value::Timestamp(t) => Some(t.secs()),
        _ => None,
    }
}

impl MoogsoftMetric {
    /// The Moogsoft metric that a log event stands for, given the host name to fall
    /// back on for the source and the time (in seconds) to fall back on.
    pub fn from_log_event(log: &LogEvent, schema: &LogSchema, hostname: Option<String>, now: i64) -> (r: Result<MoogsoftMetric, ()>)
        ensures
            r is Ok <==> metric_from_log(log@, *schema, opt_text(hostname), now) is Some,
            r matches Ok(m) ==> m@ == metric_from_log(log@, *schema, opt_text(hostname), now)->0,
    {
        let ghost hn = opt_text(hostname);
        proof {
            reveal_strlit("metric");
            reveal_strlit("data");
            reveal_strlit("key");
            reveal_strlit("source");
            reveal_strlit("time");
        }
        let metric = match log.get("metric") {
            Some(v) => v.to_string_lossy(),
            None => {
                return Err(());
            },
        };
        let data = match log.get("data") {
            Some(v) => match number_in(v) {
                Some(n) => n,
                None => {
                    return Err(());
                },
            },
            None => {
                return Err(());
            },
        };
        let key = match log.get("key") {
            Some(v) => v.to_string_lossy(),
            None => String::new(),
        };
        let source = match log.get("source") {
            Some(v) => v.to_string_lossy(),
            None => match log.get(schema.host_key.as_str()) {
                Some(v) => v.to_string_lossy(),
                None => match hostname {
                    Some(h) => h,
                    None => {
                        return Err(());
                    },
                },
            },
        };
        let time = match log.get("time") {
            Some(v) => match seconds_in(v) {
                Some(t) => t,
                None => {
                    return Err(());
                },
            },
            None => match log.get(schema.timestamp_key.as_str()) {
                Some(v) => match seconds_in(v) {
                    Some(t) => t,
                    None => {
                        return Err(());
                    },
                },
                None => now,
            },
        };
        let tags = tags_from_log(log, schema);
        let m = MoogsoftMetric { metric, key, source, data, time, tags };
        proof {
            let spec = metric_from_log(log@, *schema, hn, now)->0;
            assert(m@.tags == spec.tags);
            assert(m@ == spec);
        }
        Ok(m)
    }
}


impl MoogsoftMetric {
    /// The Moogsoft metric that a metric event stands for, given the host name to
    /// fall back on for the source and the time (in seconds) to fall back on.
    pub fn from_metric(metric: &Metric, schema: &LogSchema, hostname: Option<String>, now: i64) -> (r: Result<MoogsoftMetric, ()>)
        ensures
            r is Ok <==> metric_from_metric(*metric, *schema, opt_text(hostname), now) is Some,
            r matches Ok(m) ==> m@ == metric_from_metric(*metric, *schema, opt_text(hostname), now)->0,
    {
        match &metric.value {
            MetricValue::Gauge { value } => {
                if metric.kind == MetricKind::Incremental {
                    return Err(());
                }
                let source = match metric.tag_value(schema.host_key.as_str()) {
                    Some(host) => host,
                    None => match hostname {
                        Some(h) => h,
                        None => {
                            return Err(());
                        },
                    },
                };
                let key = match &metric.namespace {
                    Some(n) => n.clone(),
                    None => String::new(),
                };
                let time = match &metric.timestamp {
                    Some(t) => t.secs(),
                    None => now,
                };
                let tags = match &metric.tags {
                    Some(t) => t.duplicate(),
                    None => MetricTags::new(),
                };
                Ok(MoogsoftMetric { metric: metric.name.clone(), key, source, data: Number::Float(*value), time, tags })
            },
            _ => Err(()),
        }
    }
}

/// A Moogsoft metric ready to be encoded, the internal event that reports why there
/// is none, or the report that the clock could not give the time that the metric
/// needed.
#[derive(Debug)]
pub enum Conversion {
    Metric(MoogsoftMetric),
    LogDiscarded(LogEventDiscarded),
    MetricDiscarded(MetricDiscarded),
    ClockUnavailable(ClockUnavailable),
}

/// Whether a log event carries its own time (so the metric needs no clock reading).
pub open spec fn log_has_time(log: Map<Seq<char>, Value>, schema: LogSchema) -> bool {
    log.contains_key("time"@) || log.contains_key(schema.timestamp_key@)
}

/// Whether a log event carries its own time.
fn has_own_time(log: &LogEvent, schema: &LogSchema) -> (r: bool)
    ensures
        r == log_has_time(log@, *schema),
{
    proof {
        reveal_strlit("time");
    }
    log.get("time").is_some() || log.get(schema.timestamp_key.as_str()).is_some()
}

/// A log event as a Moogsoft metric. The clock is read only where the metric needs
/// it (a valid event without a time of its own); where it then gives no time, that
/// is reported. Where the event stands for no metric, the discard is reported.
pub fn encode_log_event(log: &LogEvent, schema: &LogSchema, hostname: Option<String>) -> (r: Conversion)
    ensures
        r is Metric || r is LogDiscarded || r is ClockUnavailable,
        r is LogDiscarded <==> metric_from_log(log@, *schema, opt_text(hostname), 0) is None,
        r is ClockUnavailable ==> !log_has_time(log@, *schema),
        log_has_time(log@, *schema) && metric_from_log(log@, *schema, opt_text(hostname), 0) is Some ==> (r matches Conversion::Metric(m)
            && m@ == metric_from_log(log@, *schema, opt_text(hostname), 0)->0),
        !log_has_time(log@, *schema) ==> (r matches Conversion::Metric(m) ==> exists|now: i64| accepted_seconds(now) && m@ == metric_from_log(log@, *schema, opt_text(hostname), now)->0),
        !log_has_time(log@, *schema) ==> (r matches Conversion::Metric(m) ==> clock_seconds(m.time)
            && m@ == metric_from_log(log@, *schema, opt_text(hostname), m.time)->0),
{
    let ghost hn = opt_text(hostname);
    match MoogsoftMetric::from_log_event(log, schema, hostname, 0) {
        Err(()) => Conversion::LogDiscarded(LogEventDiscarded),
        Ok(m) => {
            if has_own_time(log, schema) {
                Conversion::Metric(m)
            } else {
                match Timestamp::now() {
                    Some(clock) => {
                        let now = clock.secs();
                        let mut m = m;
                        m.time = now;
                        proof {
                            assert(chrono_accepts(clock@.0, clock@.1));
                            assert(accepted_seconds(now));
                            assert(clock_reads(clock@.0 as u64, clock@.1));
                            assert(clock_seconds(now));
                            lemma_log_validity_ignores_now(log@, *schema, hn, 0, now);
                            assert(m@ == metric_from_log(log@, *schema, hn, now)->0);
                        }
                        Conversion::Metric(m)
                    },
                    None => Conversion::ClockUnavailable(ClockUnavailable),
                }
            }
        },
    }
}

/// Whether a log event stands for a metric does not depend on the fallback time.
pub proof fn lemma_log_validity_ignores_now(
    log: Map<Seq<char>, Value>,
    schema: LogSchema,
    hostname: Option<Seq<char>>,
    now1: i64,
    now2: i64,
)
    ensures
        metric_from_log(log, schema, hostname, now1) is Some <==> metric_from_log(log, schema, hostname, now2) is Some,
{
}

/// The metric of a log event that carries its own time does not depend on the
/// fallback time.
pub proof fn lemma_own_time_ignores_now(
    log: Map<Seq<char>, Value>,
    schema: LogSchema,
    hostname: Option<Seq<char>>,
    now1: i64,
    now2: i64,
)
    requires
        log_has_time(log, schema),
    ensures
        metric_from_log(log, schema, hostname, now1) == metric_from_log(log, schema, hostname, now2),
{
}

/// What a log event gives as a Moogsoft metric, field by field. It stands for one
/// exactly when it has a `metric` field, a `data` field holding a number, a source
/// (a `source` field, a host field or a host name) and, where it has a time field
/// (`time` first, then the timestamp field), one holding seconds or a point in time.
/// The metric's name is the `metric` field's text; its data the number; its key the
/// `key` field's text (else empty); its source the `source` field's text wherever
/// there is one, else the host field's, else the host name; its time from the
/// `time` field, else the timestamp field, else `now`.
pub proof fn lemma_log_metric_fields(
    log: Map<Seq<char>, Value>,
    schema: LogSchema,
    hostname: Option<Seq<char>>,
    now: i64,
)
    ensures
        metric_from_log(log, schema, hostname, now) is Some <==> {
            &&& log.contains_key("metric"@)
            &&& log.contains_key("data"@)
            &&& (log["data"@] is Integer || log["data"@] is Float)
            &&& (log.contains_key("source"@) || log.contains_key(schema.host_key@) || hostname is Some)
            &&& log.contains_key("time"@) ==> (log["time"@] is Integer || log["time"@] is Timestamp)
            &&& (!log.contains_key("time"@) && log.contains_key(schema.timestamp_key@)) ==> (
            log[schema.timestamp_key@] is Integer || log[schema.timestamp_key@] is Timestamp)
        },
        metric_from_log(log, schema, hostname, now) matches Some(m) ==> {
            &&& m.metric == value_text(log["metric"@])
            &&& (log["data"@] matches Value::Integer(i) ==> m.data == Number::Integer(i))
            &&& (log["data"@] matches Value::Float(f) ==> m.data == Number::Float(f.bits))
            &&& (log.contains_key("key"@) ==> m.key == value_text(log["key"@]))
            &&& (!log.contains_key("key"@) ==> m.key == Seq::<char>::empty())
            &&& (log.contains_key("source"@) ==> m.source == value_text(log["source"@]))
            &&& (!log.contains_key("source"@) && log.contains_key(schema.host_key@) ==> m.source == value_text(
                log[schema.host_key@],
            ))
            &&& (!log.contains_key("source"@) && !log.contains_key(schema.host_key@) ==> hostname == Some(m.source))
            &&& (log.contains_key("time"@) ==> (log["time"@] matches Value::Integer(i) ==> m.time == i))
            &&& (log.contains_key("time"@) ==> (log["time"@] matches Value::Timestamp(t) ==> m.time == t@.0))
            &&& (!log.contains_key("time"@) && log.contains_key(schema.timestamp_key@) ==> (
            log[schema.timestamp_key@] matches Value::Integer(i) ==> m.time == i))
            &&& (!log.contains_key("time"@) && log.contains_key(schema.timestamp_key@) ==> (
            log[schema.timestamp_key@] matches Value::Timestamp(t) ==> m.time == t@.0))
            &&& (!log.contains_key("time"@) && !log.contains_key(schema.timestamp_key@) ==> m.time == now)
        },
{
}

/// What a metric event gives as a Moogsoft metric, field by field. It stands for one
/// exactly when it is an absolute gauge with a source: a host tag, or else a host
/// name. The metric's name is the event's name; its data the gauge's value; its key
/// the namespace (else empty); its source the host tag wherever there is one, else
/// the host name; its time the event's seconds, else `now`; its tags the event's.
pub proof fn lemma_metric_metric_fields(m: Metric, schema: LogSchema, hostname: Option<Seq<char>>, now: i64)
    ensures
        metric_from_metric(m, schema, hostname, now) is Some <==> {
            &&& m.value is Gauge
            &&& m.kind == MetricKind::Absolute
            &&& ((m.tags matches Some(t) && t@.contains_key(schema.host_key@)) || hostname is Some)
        },
        metric_from_metric(m, schema, hostname, now) matches Some(mm) ==> {
            &&& mm.metric == m.name@
            &&& (m.value matches MetricValue::Gauge { value } ==> mm.data == Number::Float(value))
            &&& (m.namespace matches Some(n) ==> mm.key == n@)
            &&& (m.namespace is None ==> mm.key == Seq::<char>::empty())
            &&& (m.tags matches Some(t) ==> (t@.contains_key(schema.host_key@) ==> mm.source == t@[schema.host_key@]))
            &&& (!(m.tags matches Some(t) && t@.contains_key(schema.host_key@)) ==> hostname == Some(mm.source))
            &&& (m.timestamp matches Some(t) ==> mm.time == t@.0)
            &&& (m.timestamp is None ==> mm.time == now)
            &&& (m.tags matches Some(t) ==> mm.tags == t@)
            &&& (m.tags is None ==> mm.tags == Map::<Seq<char>, Seq<char>>::empty())
        },
{
}

/// The tags of a converted log event are its other fields, by their text: no
/// standard field becomes a tag, and every other field does.
pub proof fn lemma_tags_are_other_fields(
    log: Map<Seq<char>, Value>,
    schema: LogSchema,
    hostname: Option<Seq<char>>,
    now: i64,
)
    requires
        metric_from_log(log, schema, hostname, now) is Some,
    ensures
        forall|k: Seq<char>|
            #[trigger] metric_from_log(log, schema, hostname, now)->0.tags.contains_key(k) <==> (log.contains_key(k)
                && !is_standard_field(k, schema)),
        forall|k: Seq<char>|
            #[trigger] metric_from_log(log, schema, hostname, now)->0.tags.contains_key(k) ==> metric_from_log(
                log,
                schema,
                hostname,
                now,
            )->0.tags[k] == value_text(log[k]),
{
}

/// A metric event as a Moogsoft metric. The clock is read only where the metric
/// needs it (an absolute gauge with a source but no time of its own); where it then
/// gives no time, that is reported. Where the event stands for no metric, the
/// discard is reported.
pub fn encode_metric_event(metric: &Metric, schema: &LogSchema, hostname: Option<String>) -> (r: Conversion)
    ensures
        r is Metric || r is MetricDiscarded || r is ClockUnavailable,
        r is MetricDiscarded <==> metric_from_metric(*metric, *schema, opt_text(hostname), 0) is None,
        r is ClockUnavailable ==> metric.timestamp is None,
        metric.timestamp is Some && metric_from_metric(*metric, *schema, opt_text(hostname), 0) is Some ==> (r matches Conversion::Metric(m)
            && m@ == metric_from_metric(*metric, *schema, opt_text(hostname), 0)->0),
        metric.timestamp is None ==> (r matches Conversion::Metric(m) ==> exists|now: i64| accepted_seconds(now) && m@ == metric_from_metric(*metric, *schema, opt_text(hostname), now)->0),
        metric.timestamp is None ==> (r matches Conversion::Metric(m) ==> clock_seconds(m.time)
            && m@ == metric_from_metric(*metric, *schema, opt_text(hostname), m.time)->0),
{
    let ghost hn = opt_text(hostname);
    match MoogsoftMetric::from_metric(metric, schema, hostname, 0) {
        Err(()) => Conversion::MetricDiscarded(MetricDiscarded),
        Ok(m) => {
            if metric.timestamp.is_some() {
                Conversion::Metric(m)
            } else {
                match Timestamp::now() {
                    Some(clock) => {
                        let now = clock.secs();
                        let mut m = m;
                        m.time = now;
                        proof {
                            assert(chrono_accepts(clock@.0, clock@.1));
                            assert(accepted_seconds(now));
                            assert(clock_reads(clock@.0 as u64, clock@.1));
                            assert(clock_seconds(now));
                            assert(m@ == metric_from_metric(*metric, *schema, hn, now)->0);
                        }
                        Conversion::Metric(m)
                    },
                    None => Conversion::ClockUnavailable(ClockUnavailable),
                }
            }
        },
    }
}

/// The record of an encoded Moogsoft metric (its JSON followed by a comma), and the
/// internal event that counts its bytes.
pub fn encode_moogsoft_metric(json: Vec<u8>) -> (r: (Vec<u8>, MoogsoftMetricEncoded))
    ensures
        r.0@ == record_bytes(json@),
        r.1.byte_size == r.0@.len(),
{
    let record = frame_record(json);
    let size = record.len();
    (record, MoogsoftMetricEncoded { byte_size: size })
}

impl MoogsoftSinkConfig {
    /// Log events and metric events alike.
    pub fn input_type(&self) -> (r: DataType)
        ensures
            r == DataType::Any,
    {
        DataType::Any
    }

    /// The name under which the sink is configured.
    pub fn sink_type(&self) -> (r: &'static str)
        ensures
            r@ == "moogsoft"@,
    {
        "moogsoft"
    }

    /// An event as a Moogsoft metric, or the report of its discard, or the report
    /// that the clock gave no time where the metric needed one.
    pub fn encode_event(&self, event: &Event, schema: &LogSchema, hostname: Option<String>) -> (r: Conversion)
        ensures
            event matches Event::Log(log) ==> (r is Metric || r is LogDiscarded || r is ClockUnavailable),
            event matches Event::Log(log) ==> (r is LogDiscarded <==> metric_from_log(log@, *schema, opt_text(hostname), 0) is None),
            event matches Event::Log(log) ==> (r is ClockUnavailable ==> !log_has_time(log@, *schema)),
            event matches Event::Log(log) ==> (log_has_time(log@, *schema) && metric_from_log(log@, *schema, opt_text(hostname), 0) is Some
                ==> (r matches Conversion::Metric(m) && m@ == metric_from_log(log@, *schema, opt_text(hostname), 0)->0)),
            event matches Event::Log(log) ==> (!log_has_time(log@, *schema) ==> (r matches Conversion::Metric(m) ==> exists|now: i64|
                accepted_seconds(now) && m@ == metric_from_log(log@, *schema, opt_text(hostname), now)->0)),
            event matches Event::Log(log) ==> (!log_has_time(log@, *schema) ==> (r matches Conversion::Metric(m) ==> clock_seconds(m.time)
                && m@ == metric_from_log(log@, *schema, opt_text(hostname), m.time)->0)),
            event matches Event::Metric(metric) ==> (r is Metric || r is MetricDiscarded || r is ClockUnavailable),
            event matches Event::Metric(metric) ==> (r is MetricDiscarded <==> metric_from_metric(*metric, *schema, opt_text(hostname), 0) is None),
            event matches Event::Metric(metric) ==> (r is ClockUnavailable ==> metric.timestamp is None),
            event matches Event::Metric(metric) ==> (metric.timestamp is Some && metric_from_metric(*metric, *schema, opt_text(hostname), 0) is Some
                ==> (r matches Conversion::Metric(m) && m@ == metric_from_metric(*metric, *schema, opt_text(hostname), 0)->0)),
            event matches Event::Metric(metric) ==> (metric.timestamp is None ==> (r matches Conversion::Metric(m) ==> exists|now: i64|
                accepted_seconds(now) && m@ == metric_from_metric(*metric, *schema, opt_text(hostname), now)->0)),
            event matches Event::Metric(metric) ==> (metric.timestamp is None ==> (r matches Conversion::Metric(m) ==> clock_seconds(m.time)
                && m@ == metric_from_metric(*metric, *schema, opt_text(hostname), m.time)->0)),
    {
        match event {
            Event::Log(log) => encode_log_event(log, schema, hostname),
            Event::Metric(metric) => encode_metric_event(metric, schema, hostname),
        }
    }

    /// The request that posts a batch of records to the configured endpoint.
    pub fn build_request(&self, records: Vec<u8>) -> (r: HttpRequest)
        ensures
            r.method@ == "POST"@,
            r.uri@ == self.uri.uri@,
            header_texts(r.headers@) == seq![("Content-Type"@, "application/json"@), ("apikey"@, self.api_key@)],
            r.body@ == batch_body(records@),
    {
        json_post(&self.uri.uri, &self.api_key, records)
    }

    /// How the sink sends its requests.
    pub fn request_settings(&self) -> (r: RequestSettings)
        ensures
            r.concurrency == 10,
            r.timeout_secs == 30,
            r.rate_limit_num == u64::MAX,
    {
        request_defaults()
    }

    /// How the sink batches its records.
    pub fn batch_settings(&self) -> (r: BatchSettings)
        ensures
            r.max_bytes == 10 * 1048576,
            r.timeout_secs == 1,
    {
        batch_defaults()
    }
}

} // verus!
