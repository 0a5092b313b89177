use cybion::traffic::{Direction, Monitor};

#[test]
fn counters_start_at_zero_and_add_up() {
    let mut monitor = Monitor::new();
    assert!(monitor.snapshot("alice").is_none());
    let first = monitor.for_user_at("alice", 100);
    assert_eq!(first.since, 100);
    assert_eq!(first.worker_received_bytes, 0);
    monitor.record("alice", Direction::WorkerReceived, 10, 200);
    monitor.record("alice", Direction::WorkerReceived, 5, 300);
    monitor.record("alice", Direction::UpstreamSent, 7, 300);
    let s = monitor.snapshot("alice").unwrap();
    assert_eq!(s.worker_received_bytes, 15);
    assert_eq!(s.upstream_sent_bytes, 7);
    assert_eq!(s.worker_sent_bytes, 0);
    assert_eq!(s.since, 100);
    monitor.record("bob", Direction::WorkerSent, 1, 400);
    assert_eq!(monitor.snapshot("bob").unwrap().since, 400);
}

#[test]
fn counters_wrap_like_atomics() {
    let mut monitor = Monitor::new();
    monitor.record("a", Direction::UpstreamReceived, u64::MAX, 1);
    monitor.record("a", Direction::UpstreamReceived, 2, 1);
    assert_eq!(monitor.snapshot("a").unwrap().upstream_received_bytes, 1);
}

#[test]
fn persisted_rows_restore_every_user() {
    let mut monitor = Monitor::new();
    monitor.record("a", Direction::WorkerSent, 3, 10);
    monitor.record("b", Direction::UpstreamSent, 4, 20);
    let rows = monitor.persist();
    assert_eq!(rows.len(), 2);
    let restored = Monitor::from_rows(rows);
    let a = restored.snapshot("a").unwrap();
    assert_eq!((a.worker_sent_bytes, a.since), (3, 10));
    let b = restored.snapshot("b").unwrap();
    assert_eq!((b.upstream_sent_bytes, b.since), (4, 20));
    assert!(restored.snapshot("c").is_none());
}
