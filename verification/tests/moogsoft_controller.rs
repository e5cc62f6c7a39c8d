use vector_moogsoft::event::{Event, LogEvent, Metric, MetricKind, MetricValue};
use vector_moogsoft::moogsoft_controller::{
    encode_heartbeat, handle_log_event, handle_metric_event, heartbeat_for, try_uri_for_authority,
    MoogsoftControllerSinkConfig,
};
use vector_moogsoft::sink_http::DataType;

#[test]
fn moogsoft_controller_test_generate_config() {
    let config = MoogsoftControllerSinkConfig::default();
    assert_eq!(config.api_key, "");
    assert_eq!(config.uri.uri, "http://api.moogsoft.ai/v2/collectors/uuid/heartbeat");
    assert_eq!(config.input_type(), DataType::Metric);
    assert_eq!(config.sink_type(), "moogsoft_controller");
}

#[test]
fn controller_uptime_gives_heartbeat() {
    let metric = Metric::new("UPTIME_seconds".to_owned(), MetricKind::Absolute, MetricValue::Gauge { value: 90.0f64.to_bits() })
        .with_namespace(Some("system".to_owned()));
    let heartbeat = heartbeat_for(&metric, "1.2.3".to_owned(), Some("box".to_owned()), 77).unwrap();
    assert_eq!(f64::from_bits(heartbeat.uptime), 90.0);
    assert_eq!(heartbeat.version, "1.2.3");
    assert_eq!(heartbeat.host, Some("box".to_owned()));
    assert_eq!(heartbeat.timestamp, 77);
}

#[test]
fn controller_uptime_counter_keeps_zero_uptime() {
    let metric = Metric::new("uptime_seconds".to_owned(), MetricKind::Absolute, MetricValue::Counter { value: 5.0f64.to_bits() });
    let heartbeat = handle_metric_event(&metric, "v".to_owned(), None).unwrap().unwrap();
    assert_eq!(heartbeat.uptime, 0);
    assert_eq!(heartbeat.host, None);
}

#[test]
fn controller_ignores_other_events() {
    let metric = Metric::new("uptime".to_owned(), MetricKind::Absolute, MetricValue::Gauge { value: 1 });
    assert!(handle_metric_event(&metric, "v".to_owned(), None).unwrap().is_none());
    assert!(handle_log_event(&LogEvent::new()).is_none());
    let config = MoogsoftControllerSinkConfig { api_key: "secret".to_owned(), uri: try_uri_for_authority("h:1").unwrap() };
    assert!(config.encode_event(&Event::Log(LogEvent::new()), "v".to_owned(), None).unwrap().is_none());
    assert_eq!(config.uri.uri, "http://h:1/v2/collectors/uuid/heartbeat");
    assert_eq!(encode_heartbeat(b"{}".to_vec()), b"{},".to_vec());
    assert_eq!(config.build_request(b"{},".to_vec()).body, b"[{}]".to_vec());
}
