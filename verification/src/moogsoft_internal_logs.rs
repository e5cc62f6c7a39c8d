//! The Moogsoft internal logs sink: turns the router's own log events into collector
//! logs and posts them in batches.
use vstd::prelude::*;
use crate::event::{value_text, Event, LogEvent, LogSchema, Metric, Value};
use crate::moogsoft::seconds_of;
use crate::sink_http::{
    batch_body, batch_defaults, frame_record, header_texts, http_uri_text, json_post, plain_authority, plain_host,
    plain_path, record_bytes, request_defaults, try_uri, BatchSettings, DataType, HttpRequest,
    RequestSettings, UriSerde,
};
use crate::text::{ascii_lower_seq, eq_ignore_ascii_case, eq_ignore_ascii_case_spec, opt_text};
use crate::time::{accepted_seconds, chrono_accepts, clock_reads, clock_seconds, ClockUnavailable, Timestamp};

verus! {

/// The path of the Moogsoft collector logs endpoint.
pub open spec fn logs_path() -> Seq<char> {
    "/v2/collectors/uuid/logs"@
}

/// Configuration of the Moogsoft internal logs sink.
#[derive(Debug)]
pub struct MoogsoftInternalLogsSinkConfig {
    pub api_key: String,
    pub uri: UriSerde,
}

/// The API key used when none is configured: empty.
pub fn default_api_key() -> (r: String)
    ensures
        r@ == Seq::<char>::empty(),
{
    String::new()
}

/// The collector logs endpoint on the host (and port) `authority`, over HTTP, where `http`
/// accepts the authority; a plain host name always is.
pub fn try_uri_for_authority(authority: &str) -> (r: Option<UriSerde>)
    ensures
        r is Some <==> http_uri_text(authority@, logs_path()) is Some,
        r matches Some(u) ==> Some(u.uri@) == http_uri_text(authority@, logs_path()),
        plain_authority(authority@) ==> (r matches Some(u) && u.uri@ == "http://"@ + authority@ + logs_path()),
{
    proof {
        reveal_strlit("/v2/collectors/uuid/logs");
        assert(plain_path(logs_path()));
    }
    match try_uri(authority, "/v2/collectors/uuid/logs") {
        Some(_) => Some(uri_for_authority(authority)),
        None => None,
    }
}

/// The collector logs endpoint on the host (and port) `authority`, over HTTP; `http` must
/// accept the authority.
pub fn uri_for_authority(authority: &str) -> (r: UriSerde)
    requires
        http_uri_text(authority@, logs_path()) is Some,
    ensures
        Some(r.uri@) == http_uri_text(authority@, logs_path()),
{
    proof {
        reveal_strlit("/v2/collectors/uuid/logs");
        assert(plain_path(logs_path()));
    }
    match try_uri(authority, "/v2/collectors/uuid/logs") {
        Some(uri) => uri,
        None => {
            proof {
                assert(false);
            }
            UriSerde { uri: String::new() }
        },
    }
}

/// The collector logs endpoint of the Moogsoft cloud.
pub fn default_uri() -> (r: UriSerde)
    ensures
        r.uri@ == "http://"@ + "api.moogsoft.ai"@ + logs_path(),
{
    proof {
        reveal_strlit("api.moogsoft.ai");
        assert(plain_host("api.moogsoft.ai"@));
    }
    match try_uri_for_authority("api.moogsoft.ai") {
        Some(uri) => uri,
        None => {
            proof {
                assert(false);
            }
            UriSerde { uri: String::new() }
        },
    }
}

impl Default for MoogsoftInternalLogsSinkConfig {
    /// An empty API key and the Moogsoft cloud endpoint.
    fn default() -> (r: MoogsoftInternalLogsSinkConfig)
        ensures
            r.api_key@ == Seq::<char>::empty(),
            r.uri.uri@ == "http://"@ + "api.moogsoft.ai"@ + logs_path(),
    {
        MoogsoftInternalLogsSinkConfig { api_key: default_api_key(), uri: default_uri() }
    }
}

/// The severity of a log.
#[derive(Clone, Copy, Debug, PartialEq, Eq, Structural)]
pub enum LogLevel {
    Trace,
    Debug,
    Info,
    Warn,
    Error,
}

/// The level that a text names, whatever the case of its ASCII letters.
pub open spec fn level_named(s: Seq<char>) -> Option<LogLevel> {
    let l = ascii_lower_seq(s);
    if l == "trace"@ {
        Some(LogLevel::Trace)
    } else if l == "debug"@ {
        Some(LogLevel::Debug)
    } else if l == "info"@ {
        Some(LogLevel::Info)
    } else if l == "warn"@ {
        Some(LogLevel::Warn)
    } else if l == "error"@ {
        Some(LogLevel::Error)
    } else {
        None
    }
}

/// A lower-case word folds to itself.
proof fn lemma_lower_fixed(w: Seq<char>)
    requires
        forall|i: int| 0 <= i < w.len() ==> 'a' <= #[trigger] w[i] <= 'z',
    ensures
        ascii_lower_seq(w) == w,
{
    assert(ascii_lower_seq(w) =~= w);
}

/// The level a text names does not depend on the case of its ASCII letters.
pub proof fn lemma_level_ignores_case(s: Seq<char>)
    ensures
        level_named(s) == level_named(ascii_lower_seq(s)),
{
    assert(ascii_lower_seq(ascii_lower_seq(s)) =~= ascii_lower_seq(s));
}

impl LogLevel {
    /// The level that `input` names: `trace`, `debug`, `info`, `warn` or `error`,
    /// in any case.
    pub fn from_str(input: &str) -> (r: Result<LogLevel, ()>)
        ensures
            r is Ok <==> level_named(input@) is Some,
            r matches Ok(l) ==> level_named(input@) == Some(l),
    {
        proof {
            reveal_strlit("trace");
            reveal_strlit("debug");
            reveal_strlit("info");
            reveal_strlit("warn");
            reveal_strlit("error");
            lemma_lower_fixed("trace"@);
            lemma_lower_fixed("debug"@);
            lemma_lower_fixed("info"@);
            lemma_lower_fixed("warn"@);
            lemma_lower_fixed("error"@);
        }
        if eq_ignore_ascii_case(input, "trace") {
            Ok(LogLevel::Trace)
        } else if eq_ignore_ascii_case(input, "debug") {
            Ok(LogLevel::Debug)
        } else if eq_ignore_ascii_case(input, "info") {
            Ok(LogLevel::Info)
        } else if eq_ignore_ascii_case(input, "warn") {
            Ok(LogLevel::Warn)
        } else if eq_ignore_ascii_case(input, "error") {
            Ok(LogLevel::Error)
        } else {
            Err(())
        }
    }
}

/// A log of the collector: level, message, the component that logged it, and time.
#[derive(Debug)]
pub struct MoogsoftCollectorLog {
    pub level: LogLevel,
    pub message: String,
    pub component: Option<String>,
    pub timestamp: i64,
}

/// A collector log as level, texts and time.
pub struct MoogsoftCollectorLogView {
    pub level: LogLevel,
    pub message: Seq<char>,
    pub component: Option<Seq<char>>,
    pub timestamp: i64,
}

impl View for MoogsoftCollectorLog {
    type V = MoogsoftCollectorLogView;

    open spec fn view(&self) -> MoogsoftCollectorLogView {
        MoogsoftCollectorLogView {
            level: self.level,
            message: self.message@,
            component: opt_text(self.component),
            timestamp: self.timestamp,
        }
    }
}

impl MoogsoftCollectorLog {
    /// A log at level error, with an empty message, no component, at `timestamp`.
    pub fn new(timestamp: i64) -> (r: MoogsoftCollectorLog)
        ensures
            r@.level == LogLevel::Error,
            r@.message == Seq::<char>::empty(),
            r@.component is None,
            r@.timestamp == timestamp,
    {
        MoogsoftCollectorLog { level: LogLevel::Error, message: String::new(), component: None, timestamp }
    }

    /// Sets the level.
    pub fn with_level(&mut self, level: LogLevel)
        ensures
            final(self)@ == (MoogsoftCollectorLogView { level, ..old(self)@ }),
    {
        self.level = level;
    }

    /// Sets the message.
    pub fn with_message(&mut self, message: String)
        ensures
            final(self)@ == (MoogsoftCollectorLogView { message: message@, ..old(self)@ }),
    {
        self.message = message;
    }

    /// Sets the component.
    pub fn with_component(&mut self, component: Option<String>)
        ensures
            final(self)@ == (MoogsoftCollectorLogView { component: opt_text(component), ..old(self)@ }),
    {
        self.component = component;
    }

    /// Sets the time.
    pub fn with_timestamp(&mut self, timestamp: i64)
        ensures
            final(self)@ == (MoogsoftCollectorLogView { timestamp, ..old(self)@ }),
    {
        self.timestamp = timestamp;
    }
}

/// The collector log that a log event stands for, if it stands for one: its kind, if
/// given, must be `event` (in any case); it needs a valid level and a message; its
/// timestamp, if given, must hold a time, else `now` is taken.
pub open spec fn collector_log_from(log: Map<Seq<char>, Value>, schema: LogSchema, now: i64) -> Option<MoogsoftCollectorLogView> {
    if log.contains_key("metadata.kind"@) && !eq_ignore_ascii_case_spec(value_text(log["metadata.kind"@]), "event"@) {
        None
    } else if !log.contains_key("metadata.level"@) || level_named(value_text(log["metadata.level"@])) is None {
        None
    } else if !log.contains_key(schema.message_key@) {
        None
    } else if log.contains_key(schema.timestamp_key@) && seconds_of(log[schema.timestamp_key@]) is None {
        None
    } else {
        Some(
            MoogsoftCollectorLogView {
                level: level_named(value_text(log["metadata.level"@]))->0,
                message: value_text(log[schema.message_key@]),
                component: if log.contains_key("name"@) {
                    Some(value_text(log["name"@]))
                } else {
                    None
                },
                timestamp: if log.contains_key(schema.timestamp_key@) {
                    seconds_of(log[schema.timestamp_key@])->0
                } else {
                    now
                },
            },
        )
    }
}

impl MoogsoftCollectorLog {
    /// The collector log that a log event stands for, given the time to fall back on.
    pub fn from_log_event(log: &LogEvent, schema: &LogSchema, now: i64) -> (r: Result<MoogsoftCollectorLog, ()>)
        ensures
            r is Ok <==> collector_log_from(log@, *schema, now) is Some,
            r matches Ok(l) ==> l@ == collector_log_from(log@, *schema, now)->0,
    {
        let mut moogsoft_log = MoogsoftCollectorLog::new(now);
        match log.get("metadata.kind") {
            Some(kind) => {
                let text = kind.to_string_lossy();
                if !eq_ignore_ascii_case(text.as_str(), "event") {
                    return Err(());
                }
            },
            None => {},
        }
        match log.get("metadata.level") {
            Some(level) => {
                let text = level.to_string_lossy();
                match LogLevel::from_str(text.as_str()) {
                    Ok(l) => moogsoft_log.with_level(l),
                    Err(()) => {
                        return Err(());
                    },
                }
            },
            None => {
                return Err(());
            },
        }
        match log.get(schema.message_key.as_str()) {
            Some(message) => moogsoft_log.with_message(message.to_string_lossy()),
            None => {
                return Err(());
            },
        }
        match log.get("name") {
            Some(name) => moogsoft_log.with_component(Some(name.to_string_lossy())),
            None => moogsoft_log.with_component(None),
        }
        match log.get(schema.timestamp_key.as_str()) {
            Some(timestamp) => match timestamp {
                Value::Integer(data) => moogsoft_log.with_timestamp(*data),
                Value::Timestamp(data) => moogsoft_log.with_timestamp(data.secs()),
                _ => {
                    return Err(());
                },
            },
            None => {},
        }
        Ok(moogsoft_log)
    }
}

/// Whether a log event stands for a collector log does not depend on the fallback
/// time.
pub proof fn lemma_collector_validity_ignores_now(log: Map<Seq<char>, Value>, schema: LogSchema, now1: i64, now2: i64)
    ensures
        collector_log_from(log, schema, now1) is Some <==> collector_log_from(log, schema, now2) is Some,
{
}

/// What a log event gives as a collector log, field by field. It gives one exactly
/// when its kind, if given, is `event` in any case, it has a level that names one, it
/// has a message and its timestamp field, if given, holds seconds or a point in time.
/// The log's level is that level; its message the message's text; its component the
/// `name` field's text, if any; its timestamp the seconds the timestamp field holds
/// (a point in time's whole seconds), else `now`.
pub proof fn lemma_collector_log_fields(log: Map<Seq<char>, Value>, schema: LogSchema, now: i64)
    ensures
        collector_log_from(log, schema, now) is Some <==> {
            &&& log.contains_key("metadata.kind"@) ==> eq_ignore_ascii_case_spec(value_text(log["metadata.kind"@]), "event"@)
            &&& log.contains_key("metadata.level"@)
            &&& level_named(value_text(log["metadata.level"@])) is Some
            &&& log.contains_key(schema.message_key@)
            &&& log.contains_key(schema.timestamp_key@) ==> (log[schema.timestamp_key@] is Integer
                || log[schema.timestamp_key@] is Timestamp)
        },
        collector_log_from(log, schema, now) matches Some(l) ==> {
            &&& Some(l.level) == level_named(value_text(log["metadata.level"@]))
            &&& l.message == value_text(log[schema.message_key@])
            &&& (log.contains_key("name"@) ==> l.component == Some(value_text(log["name"@])))
            &&& (!log.contains_key("name"@) ==> l.component is None)
            &&& (log.contains_key(schema.timestamp_key@) ==> (log[schema.timestamp_key@] matches Value::Integer(i)
                ==> l.timestamp == i))
            &&& (log.contains_key(schema.timestamp_key@) ==> (log[schema.timestamp_key@] matches Value::Timestamp(t)
                ==> l.timestamp == t@.0))
            &&& (!log.contains_key(schema.timestamp_key@) ==> l.timestamp == now)
        },
{
}

/// A log event as a collector log, timed now where it carries no time of its own.
/// The clock is read only where the log needs it (a valid event without a time);
/// where it then gives no time, that is reported.
pub fn encode_log_event(log: &LogEvent, schema: &LogSchema) -> (r: Result<Option<MoogsoftCollectorLog>, ClockUnavailable>)
    ensures
        r matches Ok(o) ==> (o is Some <==> collector_log_from(log@, *schema, 0) is Some),
        r is Err ==> collector_log_from(log@, *schema, 0) is Some && !log@.contains_key(schema.timestamp_key@),
        log@.contains_key(schema.timestamp_key@) ==> (r matches Ok(o) && (o matches Some(l) ==> l@ == collector_log_from(log@, *schema, 0)->0)),
        !log@.contains_key(schema.timestamp_key@) ==> (r matches Ok(Some(l)) ==> exists|now: i64| accepted_seconds(now) && l@ == collector_log_from(log@, *schema, now)->0),
        !log@.contains_key(schema.timestamp_key@) ==> (r matches Ok(Some(l)) ==> clock_seconds(l.timestamp)
            && l@ == collector_log_from(log@, *schema, l.timestamp)->0),
{
    match MoogsoftCollectorLog::from_log_event(log, schema, 0) {
        Err(()) => Ok(None),
        Ok(l) => {
            if log.get(schema.timestamp_key.as_str()).is_some() {
                Ok(Some(l))
            } else {
                match Timestamp::now() {
                    Some(clock) => {
                        let now = clock.secs();
                        let mut l = l;
                        l.with_timestamp(now);
                        proof {
                            assert(chrono_accepts(clock@.0, clock@.1));
                            assert(accepted_seconds(now));
                            assert(clock_reads(clock@.0 as u64, clock@.1));
                            assert(clock_seconds(now));
                            lemma_collector_validity_ignores_now(log@, *schema, 0, now);
                            assert(l@ == collector_log_from(log@, *schema, now)->0);
                        }
                        Ok(Some(l))
                    },
                    None => Err(ClockUnavailable),
                }
            }
        },
    }
}

/// Metric events give no collector log.
pub fn encode_metric_event(metric: &Metric) -> (r: Option<MoogsoftCollectorLog>)
    ensures
        r is None,
{
    None
}

/// The record of an encoded collector log: its JSON followed by a comma.
pub fn encode_moogsoft_collector_log(json: Vec<u8>) -> (r: Vec<u8>)
    ensures
        r@ == record_bytes(json@),
{
    frame_record(json)
}

impl MoogsoftInternalLogsSinkConfig {
    /// Log events only.
    pub fn input_type(&self) -> (r: DataType)
        ensures
            r == DataType::Log,
    {
        DataType::Log
    }

    /// The name under which the sink is configured.
    pub fn sink_type(&self) -> (r: &'static str)
        ensures
            r@ == "moogsoft_internal_logs"@,
    {
        "moogsoft_internal_logs"
    }

    /// The collector log an event gives, if any, or the report that the clock gave no
    /// time for it.
    pub fn encode_event(&self, event: &Event, schema: &LogSchema) -> (r: Result<Option<MoogsoftCollectorLog>, ClockUnavailable>)
        ensures
            event matches Event::Metric(_) ==> r == Ok::<Option<MoogsoftCollectorLog>, ClockUnavailable>(None),
            event matches Event::Log(log) ==> (r matches Ok(o) ==> (o is Some <==> collector_log_from(log@, *schema, 0) is Some)),
            event matches Event::Log(log) ==> (r is Err ==> collector_log_from(log@, *schema, 0) is Some
                && !log@.contains_key(schema.timestamp_key@)),
            event matches Event::Log(log) ==> (log@.contains_key(schema.timestamp_key@) ==> (r matches Ok(o) && (o matches Some(l)
                ==> l@ == collector_log_from(log@, *schema, 0)->0))),
            event matches Event::Log(log) ==> (!log@.contains_key(schema.timestamp_key@) ==> (r matches Ok(Some(l)) ==> exists|now: i64|
                accepted_seconds(now) && l@ == collector_log_from(log@, *schema, now)->0)),
            event matches Event::Log(log) ==> (!log@.contains_key(schema.timestamp_key@) ==> (r matches Ok(Some(l)) ==> clock_seconds(l.timestamp)
                && l@ == collector_log_from(log@, *schema, l.timestamp)->0)),
    {
        match event {
            Event::Log(log) => encode_log_event(log, schema),
            Event::Metric(metric) => Ok(encode_metric_event(metric)),
        }
    }

    /// The request that posts a batch of records to the configured endpoint.
    pub fn build_request(&self, records: Vec<u8>) -> (r: HttpRequest)
        ensures
            r.method@ == "POST"@,
            r.uri@ == self.uri.uri@,
            header_texts(r.headers@) == seq![("Content-Type"@, "application/json"@), ("apikey"@, self.api_key@)],
            r.body@ == batch_body(records@),
    {
        json_post(&self.uri.uri, &self.api_key, records)
    }

    /// How the sink sends its requests.
    pub fn request_settings(&self) -> (r: RequestSettings)
        ensures
            r.concurrency == 10,
            r.timeout_secs == 30,
            r.rate_limit_num == u64::MAX,
    {
        request_defaults()
    }

    /// How the sink batches its records.
    pub fn batch_settings(&self) -> (r: BatchSettings)
        ensures
            r.max_bytes == 10 * 1048576,
            r.timeout_secs == 1,
    {
        batch_defaults()
    }
}

} // verus!
