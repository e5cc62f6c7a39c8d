use vector_moogsoft::event::{F64Value, LogEvent, MetricTags, Value};
use vector_moogsoft::sink_http::frame_batch;
use vector_moogsoft::text::eq_ignore_ascii_case;
use vector_moogsoft::time::Timestamp;

#[test]
fn value_texts() {
    assert_eq!(Value::Integer(-10).to_string_lossy(), "-10");
    assert_eq!(Value::Integer(0).to_string_lossy(), "0");
    assert_eq!(Value::Boolean(true).to_string_lossy(), "true");
    assert_eq!(Value::Null.to_string_lossy(), "<null>");
    assert_eq!(Value::Bytes(vec![0x61, 0xff]).to_string_lossy(), "a\u{fffd}");
    assert_eq!(Value::from_text("héllo").to_string_lossy(), "héllo");
    let f = Value::Float(F64Value { bits: 1.5f64.to_bits(), rendered: "1.5".to_owned() });
    assert_eq!(f.to_string_lossy(), "1.5");
    let t = Timestamp::new(1612411506, 789_000_000).unwrap();
    assert_eq!(Value::Timestamp(t).to_string_lossy(), "2021-02-04T04:05:06.789Z");
    assert_eq!(Value::Integer(i64::MIN).to_string_lossy(), "-9223372036854775808");
    assert_eq!(Value::Bytes(b"ok".to_vec()).to_string_lossy(), "ok");
}

#[test]
fn timestamps() {
    assert!(Timestamp::new(0, 2_000_000_000).is_none());
    assert!(Timestamp::new(i64::MAX, 0).is_none());
    let t = Timestamp::new(-1, 5).unwrap();
    assert_eq!((t.secs(), t.nanos()), (-1, 5));
    assert!(Timestamp::now().unwrap().secs() > 1_600_000_000);
}

#[test]
fn log_event_fields() {
    let mut log = LogEvent::new();
    assert!(log.get("a").is_none());
    log.insert("a", Value::Integer(1));
    log.insert("b", Value::Integer(2));
    log.insert("a", Value::Integer(3));
    assert_eq!(log.all_fields().len(), 2);
    match log.get("a") {
        Some(Value::Integer(3)) => {}
        _ => panic!("a should hold 3"),
    }
    let mut tags = MetricTags::new();
    assert!(tags.is_empty());
    tags.insert("x".to_owned(), "1".to_owned());
    tags.insert("x".to_owned(), "2".to_owned());
    assert_eq!(tags.len(), 1);
    assert_eq!(tags.get("x").unwrap(), "2");
    assert_eq!(tags.duplicate().get("x").unwrap(), "2");
}

#[test]
fn text_case_folding() {
    assert!(eq_ignore_ascii_case("Uptime_Seconds", "uptime_seconds"));
    assert!(!eq_ignore_ascii_case("uptime", "uptime_seconds"));
    assert!(!eq_ignore_ascii_case("É", "é"));
}

#[test]
fn batch_framing() {
    assert_eq!(frame_batch(b"1,2,".to_vec()), b"[1,2]".to_vec());
    assert_eq!(frame_batch(Vec::new()), b"]".to_vec());
}
