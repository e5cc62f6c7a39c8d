use vector_moogsoft::driver::{call_status, AckTracker, EventStatus};

#[test]
fn driver_acks_in_send_order() {
    let mut tracker = AckTracker::new();
    let a = tracker.next_seq_no();
    let b = tracker.next_seq_no();
    let c = tracker.next_seq_no();
    assert_eq!((a, b, c), (0, 1, 2));
    assert_eq!(tracker.complete(c, 30), 0);
    assert_eq!(tracker.complete(b, 20), 0);
    assert_eq!(tracker.complete(a, 10), 60);
    let d = tracker.next_seq_no();
    assert_eq!(d, 3);
    assert_eq!(tracker.complete(d, 4), 4);
}

#[test]
fn driver_acks_each_completion_when_in_order() {
    let mut tracker = AckTracker::new();
    let a = tracker.next_seq_no();
    let b = tracker.next_seq_no();
    assert_eq!(tracker.complete(a, 1), 1);
    assert_eq!(tracker.complete(b, 2), 2);
}

#[test]
fn driver_gap_holds_later_acks() {
    let mut tracker = AckTracker::new();
    let a = tracker.next_seq_no();
    let b = tracker.next_seq_no();
    let c = tracker.next_seq_no();
    assert_eq!(tracker.complete(a, 5), 5);
    assert_eq!(tracker.complete(c, 7), 0);
    assert_eq!(tracker.complete(b, 0), 7);
}

#[test]
fn call_status_settles_events() {
    assert_eq!(call_status(Err(())), EventStatus::Failed);
    assert_eq!(call_status(Ok(EventStatus::Delivered)), EventStatus::Delivered);
    assert_eq!(call_status(Ok(EventStatus::Errored)), EventStatus::Errored);
}
