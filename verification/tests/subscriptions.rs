use siro::subscription::{FrameScheduler, IntervalHandle};

#[test]
fn frames_are_delivered_until_cancelled() {
    let mut s = FrameScheduler::new();
    assert!(s.running());
    assert_eq!(s.current_id(), None);
    s.scheduled(4);
    assert_eq!(s.current_id(), Some(4));
    assert!(s.on_frame());
    s.scheduled(5);
    assert_eq!(s.cancel(), Some(5));
    assert!(!s.running());
    assert_eq!(s.current_id(), None);
    assert!(!s.on_frame());
    s.scheduled(6);
    assert!(!s.on_frame());
    assert_eq!(s.cancel(), Some(6));
    assert_eq!(s.cancel(), None);
}

#[test]
fn interval_is_cleared_once() {
    let mut h = IntervalHandle::new(9);
    assert_eq!(h.unsubscribe(), Some(9));
    assert_eq!(h.unsubscribe(), None);
}
