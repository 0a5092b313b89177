use cybion::active_requests::{ActiveRequests, Registration};
use cybion::integrations::request_key;

#[test]
fn a_newer_input_replaces_the_running_request() {
    let mut active = ActiveRequests::new();
    let key = request_key("user", "thread");
    assert_eq!(active.register_input(key.clone(), 5), Registration::Started { replaced: false });
    assert!(active.is_current(&key, 5));
    assert_eq!(active.register_input(key.clone(), 7), Registration::Started { replaced: true });
    assert!(!active.is_current(&key, 5));
    assert!(active.is_current(&key, 7));
    // An older input that arrives late is cancelled at once.
    assert_eq!(active.register_input(key.clone(), 6), Registration::Cancelled);
    assert_eq!(active.current(&key), Some(7));
    assert_eq!(active.register_input(key.clone(), 7), Registration::Cancelled);
}

#[test]
fn controls_always_take_over_and_finished_requests_leave() {
    let mut active = ActiveRequests::new();
    let a = request_key("user", "a");
    let b = request_key("user", "b");
    assert!(!active.register_control(a.clone(), 3));
    assert!(active.register_control(a.clone(), 2));
    assert_eq!(active.current(&a), Some(2));
    active.register_input(b.clone(), 9);
    // A finished request only leaves when it is still the running one.
    active.clear(&a, 3);
    assert_eq!(active.current(&a), Some(2));
    active.clear(&a, 2);
    assert_eq!(active.current(&a), None);
    assert!(active.cancel(&b));
    assert!(!active.cancel(&b));
    assert_eq!(active.current(&b), None);
}
