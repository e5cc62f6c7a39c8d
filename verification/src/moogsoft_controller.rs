//! The Moogsoft controller sink: turns the router's uptime metric into heartbeats of
//! the collector and posts them in batches.
use vstd::prelude::*;
use crate::event::{Event, LogEvent, Metric, MetricValue};
use crate::sink_http::{
    batch_body, batch_defaults, frame_record, header_texts, http_uri_text, json_post, plain_authority, plain_host,
    plain_path, record_bytes, request_defaults, try_uri, BatchSettings, DataType, HttpRequest,
    RequestSettings, UriSerde,
};
use crate::text::{eq_ignore_ascii_case, eq_ignore_ascii_case_spec};
use crate::time::{accepted_seconds, chrono_accepts, clock_reads, clock_seconds, ClockUnavailable, Timestamp};

verus! {

/// The path of the Moogsoft heartbeat endpoint.
pub open spec fn heartbeats_path() -> Seq<char> {
    "/v2/collectors/uuid/heartbeat"@
}

/// The name of the metric that carries the uptime.
pub open spec fn uptime_metric_name() -> Seq<char> {
    "uptime_seconds"@
}

/// Configuration of the Moogsoft controller sink.
#[derive(Debug)]
pub struct MoogsoftControllerSinkConfig {
    pub api_key: String,
    pub uri: UriSerde,
}

/// The API key used when none is configured: empty.
pub fn default_api_key() -> (r: String)
    ensures
        r@ == Seq::<char>::empty(),
{
    String::new()
}

/// The heartbeat endpoint on the host (and port) `authority`, over HTTP, where `http`
/// accepts the authority; a plain host name always is.
pub fn try_uri_for_authority(authority: &str) -> (r: Option<UriSerde>)
    ensures
        r is Some <==> http_uri_text(authority@, heartbeats_path()) is Some,
        r matches Some(u) ==> Some(u.uri@) == http_uri_text(authority@, heartbeats_path()),
        plain_authority(authority@) ==> (r matches Some(u) && u.uri@ == "http://"@ + authority@ + heartbeats_path()),
{
    proof {
        reveal_strlit("/v2/collectors/uuid/heartbeat");
        assert(plain_path(heartbeats_path()));
    }
    match try_uri(authority, "/v2/collectors/uuid/heartbeat") {
        Some(_) => Some(uri_for_authority(authority)),
        None => None,
    }
}

/// The heartbeat endpoint on the host (and port) `authority`, over HTTP; `http` must
/// accept the authority.
pub fn uri_for_authority(authority: &str) -> (r: UriSerde)
    requires
        http_uri_text(authority@, heartbeats_path()) is Some,
    ensures
        Some(r.uri@) == http_uri_text(authority@, heartbeats_path()),
{
    proof {
        reveal_strlit("/v2/collectors/uuid/heartbeat");
        assert(plain_path(heartbeats_path()));
    }
    match try_uri(authority, "/v2/collectors/uuid/heartbeat") {
        Some(uri) => uri,
        None => {
            proof {
                assert(false);
            }
            UriSerde { uri: String::new() }
        },
    }
}

/// The heartbeat endpoint of the Moogsoft cloud.
pub fn default_uri() -> (r: UriSerde)
    ensures
        r.uri@ == "http://"@ + "api.moogsoft.ai"@ + heartbeats_path(),
{
    proof {
        reveal_strlit("api.moogsoft.ai");
        assert(plain_host("api.moogsoft.ai"@));
    }
    match try_uri_for_authority("api.moogsoft.ai") {
        Some(uri) => uri,
        None => {
            proof {
                assert(false);
            }
            UriSerde { uri: String::new() }
        },
    }
}

impl Default for MoogsoftControllerSinkConfig {
    /// An empty API key and the Moogsoft cloud endpoint.
    fn default() -> (r: MoogsoftControllerSinkConfig)
        ensures
            r.api_key@ == Seq::<char>::empty(),
            r.uri.uri@ == "http://"@ + "api.moogsoft.ai"@ + heartbeats_path(),
    {
        MoogsoftControllerSinkConfig { api_key: default_api_key(), uri: default_uri() }
    }
}

/// A heartbeat of the collector: its uptime in seconds (binary64 bits), its
/// version, its host and the time of the heartbeat.
#[derive(Debug)]
pub struct MoogsoftCollectorHeartbeat {
    pub uptime: u64,
    pub version: String,
    pub host: Option<String>,
    pub timestamp: i64,
}

impl MoogsoftCollectorHeartbeat {
    /// A heartbeat with no uptime yet (zero).
    pub fn new(version: String, host: Option<String>, timestamp: i64) -> (r: MoogsoftCollectorHeartbeat)
        ensures
            r.uptime == 0,
            r.version == version,
            r.host == host,
            r.timestamp == timestamp,
    {
        MoogsoftCollectorHeartbeat { uptime: 0, version, host, timestamp }
    }

    /// Sets the uptime.
    pub fn with_uptime(&mut self, uptime: u64)
        ensures
            final(self).uptime == uptime,
            final(self).version == old(self).version,
            final(self).host == old(self).host,
            final(self).timestamp == old(self).timestamp,
    {
        self.uptime = uptime;
    }
}

/// Whether a metric is the uptime metric, whatever the case of its name.
pub open spec fn is_uptime_metric(m: Metric) -> bool {
    eq_ignore_ascii_case_spec(m.name@, uptime_metric_name())
}

/// The uptime a metric reports: a gauge's value, else zero.
pub open spec fn uptime_of(m: Metric) -> u64 {
    match m.value {
        MetricValue::Gauge { value } => value,
        _ => 0,
    }
}

/// The heartbeat for a metric event, given the version, host and time it carries:
/// only the uptime metric gives one.
pub fn heartbeat_for(metric: &Metric, version: String, host: Option<String>, now: i64) -> (r: Option<MoogsoftCollectorHeartbeat>)
    ensures
        r is Some <==> is_uptime_metric(*metric),
        r matches Some(h) ==> h.uptime == uptime_of(*metric) && h.version == version && h.host == host && h.timestamp == now,
{
    proof {
        reveal_strlit("uptime_seconds");
    }
    if eq_ignore_ascii_case(metric.name.as_str(), "uptime_seconds") {
        let mut heartbeat = MoogsoftCollectorHeartbeat::new(version, host, now);
        match &metric.value {
            MetricValue::Gauge { value } => {
                heartbeat.with_uptime(*value);
            },
            _ => {},
        }
        Some(heartbeat)
    } else {
        None
    }
}

/// The heartbeat for a metric event, timed now: its time is the seconds of a clock
/// reading. The clock is read only for the uptime metric; where it then gives no
/// time, that is reported.
pub fn handle_metric_event(metric: &Metric, version: String, host: Option<String>) -> (r: Result<Option<MoogsoftCollectorHeartbeat>, ClockUnavailable>)
    ensures
        r is Err ==> is_uptime_metric(*metric),
        r matches Ok(o) ==> (o is Some <==> is_uptime_metric(*metric)),
        r matches Ok(Some(h)) ==> h.uptime == uptime_of(*metric) && h.version == version && h.host == host,
        r matches Ok(Some(h)) ==> accepted_seconds(h.timestamp),
        r matches Ok(Some(h)) ==> clock_seconds(h.timestamp),
{
    proof {
        reveal_strlit("uptime_seconds");
    }
    if !eq_ignore_ascii_case(metric.name.as_str(), "uptime_seconds") {
        return Ok(None);
    }
    match Timestamp::now() {
        Some(clock) => {
            let now = clock.secs();
            proof {
                assert(chrono_accepts(clock@.0, clock@.1));
                assert(accepted_seconds(now));
                assert(clock_reads(clock@.0 as u64, clock@.1));
                assert(clock_seconds(now));
            }
            Ok(heartbeat_for(metric, version, host, now))
        },
        None => Err(ClockUnavailable),
    }
}

/// Log events give no heartbeat.
pub fn handle_log_event(log: &LogEvent) -> (r: Option<MoogsoftCollectorHeartbeat>)
    ensures
        r is None,
{
    None
}

/// The record of an encoded heartbeat: its JSON followed by a comma.
pub fn encode_heartbeat(json: Vec<u8>) -> (r: Vec<u8>)
    ensures
        r@ == record_bytes(json@),
{
    frame_record(json)
}

impl MoogsoftControllerSinkConfig {
    /// Metric events only.
    pub fn input_type(&self) -> (r: DataType)
        ensures
            r == DataType::Metric,
    {
        DataType::Metric
    }

    /// The name under which the sink is configured.
    pub fn sink_type(&self) -> (r: &'static str)
        ensures
            r@ == "moogsoft_controller"@,
    {
        "moogsoft_controller"
    }

    /// The heartbeat an event gives, if any, or the report that the clock gave no
    /// time for it.
    pub fn encode_event(&self, event: &Event, version: String, host: Option<String>) -> (r: Result<Option<MoogsoftCollectorHeartbeat>, ClockUnavailable>)
        ensures
            event matches Event::Log(_) ==> r == Ok::<Option<MoogsoftCollectorHeartbeat>, ClockUnavailable>(None),
            event matches Event::Metric(m) ==> (r is Err ==> is_uptime_metric(*m)),
            event matches Event::Metric(m) ==> (r matches Ok(o) ==> (o is Some <==> is_uptime_metric(*m))),
            event matches Event::Metric(m) ==> (r matches Ok(Some(h)) ==> h.uptime == uptime_of(*m) && h.version == version
                && h.host == host && accepted_seconds(h.timestamp) && clock_seconds(h.timestamp)),
    {
        match event {
            Event::Log(log) => Ok(handle_log_event(log)),
            Event::Metric(metric) => handle_metric_event(metric, version, host),
        }
    }

    /// The request that posts a batch of records to the configured endpoint.
    pub fn build_request(&self, records: Vec<u8>) -> (r: HttpRequest)
        ensures
            r.method@ == "POST"@,
            r.uri@ == self.uri.uri@,
            header_texts(r.headers@) == seq![("Content-Type"@, "application/json"@), ("apikey"@, self.api_key@)],
            r.body@ == batch_body(records@),
    {
        json_post(&self.uri.uri, &self.api_key, records)
    }

    /// How the sink sends its requests.
    pub fn request_settings(&self) -> (r: RequestSettings)
        ensures
            r.concurrency == 10,
            r.timeout_secs == 30,
            r.rate_limit_num == u64::MAX,
    {
        request_defaults()
    }

    /// How the sink batches its records.
    pub fn batch_settings(&self) -> (r: BatchSettings)
        ensures
            r.max_bytes == 10 * 1048576,
            r.timeout_secs == 1,
    {
        batch_defaults()
    }
}

} // verus!
