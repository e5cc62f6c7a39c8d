use chrono::Utc;
use vector_moogsoft::event::{
    Event, F64Value, JsonText, LogEvent, LogSchema, Metric, MetricKind, MetricTags, MetricValue, Value,
};
use vector_moogsoft::moogsoft::{
    default_api_key, default_uri, encode_log_event, encode_metric_event, encode_moogsoft_metric,
    try_uri_for_authority, Conversion, MoogsoftMetric, MoogsoftSinkConfig, Number,
};
use vector_moogsoft::sink_http::DataType;
use vector_moogsoft::time::Timestamp;

fn text(s: &str) -> Value {
    Value::from_text(s)
}

fn float(v: f64) -> Value {
    Value::Float(F64Value { bits: v.to_bits(), rendered: v.to_string() })
}

fn number(n: Number) -> f64 {
    match n {
        Number::Integer(i) => i as f64,
        Number::Float(bits) => f64::from_bits(bits),
    }
}

fn timestamp_of(now: chrono::DateTime<Utc>) -> Timestamp {
    Timestamp::new(now.timestamp(), now.timestamp_subsec_nanos()).unwrap()
}

fn now_secs() -> i64 {
    Utc::now().timestamp()
}

#[test]
fn moogsoft_test_generate_config() {
    let config = MoogsoftSinkConfig::default();
    assert_eq!(config.api_key, "");
    assert_eq!(config.uri.uri, "http://api.moogsoft.ai/v1/integrations/metrics");
    assert_eq!(default_api_key(), "");
    assert_eq!(default_uri().uri, config.uri.uri);
    assert_eq!(config.input_type(), DataType::Any);
    assert_eq!(config.sink_type(), "moogsoft");
}

#[test]
fn test_convert_log1_to_moogsoft_metric() {
    let mut log_event = LogEvent::new();
    let timestamp_now = Utc::now().timestamp();
    log_event.insert("metric", text("cpu"));
    log_event.insert("data", float(10.5));
    log_event.insert("key", text("system"));
    log_event.insert("source", text("some.machine"));
    log_event.insert("time", Value::Integer(timestamp_now));

    if let Ok(metric) = MoogsoftMetric::from_log_event(&log_event, &LogSchema::default(), None, now_secs()) {
        assert_eq!(metric.metric, "cpu");
        assert_eq!(number(metric.data), 10.5);
        assert_eq!(metric.key, "system");
        assert_eq!(metric.source, "some.machine");
        assert_eq!(metric.time, timestamp_now);
        assert_eq!(metric.tags.len(), 0);
    } else {
        panic!("A Moogsoft metric should be created")
    }
}

#[test]
fn test_convert_log2_to_moogsoft_metric() {
    let mut log_event = LogEvent::new();
    let timestamp_now = Utc::now();
    log_event.insert("metric", text("cpu"));
    log_event.insert("data", float(11.5));
    log_event.insert("key", text("system"));
    log_event.insert("source", text("some.machine"));
    log_event.insert("time", Value::Timestamp(timestamp_of(timestamp_now)));
    log_event.insert("application", text("chrome"));
    log_event.insert("duration", Value::Integer(10));

    if let Ok(metric) = MoogsoftMetric::from_log_event(&log_event, &LogSchema::default(), None, now_secs()) {
        assert_eq!(metric.metric, "cpu");
        assert_eq!(number(metric.data), 11.5);
        assert_eq!(metric.key, "system");
        assert_eq!(metric.source, "some.machine");
        assert_eq!(metric.time, timestamp_now.timestamp());
        assert_eq!(metric.tags.len(), 2);
        assert_eq!(metric.tags.get("application").unwrap(), "chrome");
        assert_eq!(metric.tags.get("duration").unwrap(), "10");
    } else {
        panic!("A Moogsoft metric should be created")
    }
}

#[test]
fn test_convert_log3_to_moogsoft_metric() {
    let schema = LogSchema::default();
    let mut log_event = LogEvent::new();
    let timestamp_now = Utc::now();
    log_event.insert("metric", text("cpu"));
    log_event.insert("data", float(12.5));
    log_event.insert("key", text("system"));
    log_event.insert(&schema.host_key, text("some.machine"));
    log_event.insert(&schema.timestamp_key, Value::Timestamp(timestamp_of(timestamp_now)));

    if let Ok(metric) = MoogsoftMetric::from_log_event(&log_event, &schema, None, now_secs()) {
        assert_eq!(metric.metric, "cpu");
        assert_eq!(number(metric.data), 12.5);
        assert_eq!(metric.key, "system");
        assert_eq!(metric.source, "some.machine");
        assert_eq!(metric.time, timestamp_now.timestamp());
    } else {
        panic!("A Moogsoft metric should be created")
    }
}

#[test]
fn test_convert_log_missing_metric_to_moogsoft_metric() {
    let mut log_event = LogEvent::new();
    let timestamp_now = Utc::now().timestamp();
    log_event.insert("data", float(10.5));
    log_event.insert("key", text("system"));
    log_event.insert("source", text("some.machine"));
    log_event.insert("time", Value::Integer(timestamp_now));

    if MoogsoftMetric::from_log_event(&log_event, &LogSchema::default(), None, now_secs()).is_ok() {
        panic!("A Moogsoft metric should not be created")
    }
}

#[test]
fn test_convert_log_missing_data_to_moogsoft_metric() {
    let mut log_event = LogEvent::new();
    let timestamp_now = Utc::now().timestamp();
    log_event.insert("metric", text("cpu"));
    log_event.insert("key", text("system"));
    log_event.insert("source", text("some.machine"));
    log_event.insert("time", Value::Integer(timestamp_now));

    if MoogsoftMetric::from_log_event(&log_event, &LogSchema::default(), None, now_secs()).is_ok() {
        panic!("A Moogsoft metric should not be created")
    }
}

#[test]
fn test_convert_log_bad_data_to_moogsoft_metric() {
    let mut log_event = LogEvent::new();
    let timestamp_now = Utc::now().timestamp();
    log_event.insert("metric", text("cpu"));
    log_event.insert("data", text("Not a number"));
    log_event.insert("key", text("system"));
    log_event.insert("source", text("some.machine"));
    log_event.insert("time", Value::Integer(timestamp_now));

    if MoogsoftMetric::from_log_event(&log_event, &LogSchema::default(), None, now_secs()).is_ok() {
        panic!("A Moogsoft metric should not be created")
    }
}

fn host_tags() -> MetricTags {
    let mut tags = MetricTags::new();
    tags.insert(LogSchema::default().host_key, "some.machine".to_owned());
    tags
}

#[test]
fn test_convert_absolute_metric_to_moogsoft_metric() {
    let value = 90.5f64;
    let timestamp_now = Utc::now();
    let metric_event = Metric::new("cpu".to_owned(), MetricKind::Absolute, MetricValue::Gauge { value: value.to_bits() })
        .with_namespace(Some("system".to_owned()))
        .with_tags(Some(host_tags()))
        .with_timestamp(Some(timestamp_of(timestamp_now)));

    if let Ok(metric) = MoogsoftMetric::from_metric(&metric_event, &LogSchema::default(), None, now_secs()) {
        assert_eq!(metric.metric, "cpu");
        assert_eq!(number(metric.data), 90.5);
        assert_eq!(metric.key, "system");
        assert_eq!(metric.source, "some.machine");
        assert_eq!(metric.time, timestamp_now.timestamp());
        assert_eq!(metric.tags.len(), 1);
    } else {
        panic!("A Moogsoft metric should be created")
    }
}

#[test]
fn test_convert_incremental_metric_to_moogsoft_metric() {
    let value = 90.5f64;
    let timestamp_now = Utc::now();
    let metric_event = Metric::new("cpu".to_owned(), MetricKind::Incremental, MetricValue::Gauge { value: value.to_bits() })
        .with_namespace(Some("system".to_owned()))
        .with_tags(Some(host_tags()))
        .with_timestamp(Some(timestamp_of(timestamp_now)));

    if MoogsoftMetric::from_metric(&metric_event, &LogSchema::default(), None, now_secs()).is_ok() {
        panic!("A Moogsoft metric should not be created from an incremental")
    }
}

#[test]
fn moogsoft_log_source_falls_back_to_hostname() {
    let mut log_event = LogEvent::new();
    log_event.insert("metric", text("cpu"));
    log_event.insert("data", Value::Integer(7));
    let schema = LogSchema::default();

    assert!(MoogsoftMetric::from_log_event(&log_event, &schema, None, 5).is_err());
    let metric = MoogsoftMetric::from_log_event(&log_event, &schema, Some("box".to_owned()), 5).unwrap();
    assert_eq!(metric.source, "box");
    assert_eq!(metric.data, Number::Integer(7));
    assert_eq!(metric.key, "");
    assert_eq!(metric.time, 5);
}

#[test]
fn moogsoft_log_invalid_time_field_discards() {
    let mut log_event = LogEvent::new();
    log_event.insert("metric", text("cpu"));
    log_event.insert("data", Value::Integer(7));
    log_event.insert("source", text("a"));
    log_event.insert("time", text("yesterday"));
    log_event.insert("timestamp", Value::Integer(3));
    assert!(MoogsoftMetric::from_log_event(&log_event, &LogSchema::default(), None, 5).is_err());
    match encode_log_event(&log_event, &LogSchema::default(), None) {
        Conversion::LogDiscarded(_) => {}
        _ => panic!("the log event should be discarded"),
    }
}

#[test]
fn moogsoft_counter_is_no_moogsoft_metric() {
    let metric_event = Metric::new("cpu".to_owned(), MetricKind::Absolute, MetricValue::Counter { value: 1.0f64.to_bits() });
    match encode_metric_event(&metric_event, &LogSchema::default(), Some("h".to_owned())) {
        Conversion::MetricDiscarded(_) => {}
        _ => panic!("a counter should be discarded"),
    }
}

#[test]
fn moogsoft_encode_event_stamps_now() {
    let mut log_event = LogEvent::new();
    log_event.insert("metric", text("cpu"));
    log_event.insert("data", float(1.5));
    log_event.insert("source", text("a"));
    let before = Utc::now().timestamp();
    let config = MoogsoftSinkConfig::default();
    match config.encode_event(&Event::Log(log_event), &LogSchema::default(), None) {
        Conversion::Metric(m) => assert!(m.time >= before),
        _ => panic!("a metric should be encoded"),
    }
}

#[test]
fn moogsoft_record_and_request() {
    let (record, encoded) = encode_moogsoft_metric(b"{\"a\":1}".to_vec());
    assert_eq!(record, b"{\"a\":1},".to_vec());
    assert_eq!(encoded.byte_size, 8);

    let config = MoogsoftSinkConfig { api_key: "secret".to_owned(), uri: try_uri_for_authority("127.0.0.1:9000").unwrap() };
    let mut body = record.clone();
    body.extend_from_slice(b"{\"b\":2},");
    let request = config.build_request(body);
    assert_eq!(request.method, "POST");
    assert_eq!(request.uri, "http://127.0.0.1:9000/v1/integrations/metrics");
    assert_eq!(request.body, b"[{\"a\":1},{\"b\":2}]".to_vec());
    assert_eq!(request.headers[0], ("Content-Type".to_owned(), "application/json".to_owned()));
    assert_eq!(request.headers[1], ("apikey".to_owned(), "secret".to_owned()));
    let settings = config.request_settings();
    assert_eq!(settings.concurrency, 10);
    assert_eq!(settings.timeout_secs, 30);
    assert_eq!(settings.rate_limit_num, u64::MAX);
    let batch = config.batch_settings();
    assert_eq!(batch.max_bytes, 10 * 1024 * 1024);
    assert_eq!(batch.timeout_secs, 1);
}

#[test]
fn moogsoft_uri_refused_by_http() {
    assert!(try_uri_for_authority("bad host").is_none());
    assert!(try_uri_for_authority("").is_none());
    assert_eq!(
        try_uri_for_authority("example.com:8080").unwrap().uri,
        "http://example.com:8080/v1/integrations/metrics"
    );
}

#[test]
fn moogsoft_nested_fields_render_as_json() {
    let mut log_event = LogEvent::new();
    log_event.insert("metric", Value::Object(JsonText { text: "{\"a\":1}".to_owned() }));
    log_event.insert("data", Value::Integer(3));
    log_event.insert("source", text("box"));
    log_event.insert("time", Value::Integer(5));
    log_event.insert("list", Value::Array(JsonText { text: "[1,2]".to_owned() }));
    let metric = MoogsoftMetric::from_log_event(&log_event, &LogSchema::default(), None, 0).unwrap();
    assert_eq!(metric.metric, "{\"a\":1}");
    assert_eq!(metric.tags.get("list").unwrap(), "[1,2]");
    log_event.insert("data", Value::Array(JsonText { text: "[3]".to_owned() }));
    assert!(MoogsoftMetric::from_log_event(&log_event, &LogSchema::default(), None, 0).is_err());
}
