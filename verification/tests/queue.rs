use pg_tenant_monitor::queue::EventQueue;
use pg_tenant_monitor::schema::QueryEvent;

#[test]
fn new_queue_has_empty_shards() {
    let q = EventQueue::new(3, 5);
    assert_eq!(q.shard_count(), 3);
    assert_eq!(q.shard_capacity(), 5);
    assert_eq!(q.pending(0), 0);
    assert_eq!(q.pending(2), 0);
    assert_eq!(q.pending(3), 0);
}

#[test]
fn push_fills_a_shard_up_to_its_bound() {
    let mut q = EventQueue::new(2, 2);
    let e1 = QueryEvent::new(b"one", 1);
    let e2 = QueryEvent::new(b"two", 2);
    let e3 = QueryEvent::new(b"three", 3);
    assert!(q.push(1, e1));
    assert!(q.push(1, e2));
    assert!(!q.push(1, e3));
    assert!(!q.push(2, e3));
    assert_eq!(q.pending(1), 2);
    assert_eq!(q.pending(0), 0);
    assert_eq!(q.drain(1), vec![e1, e2]);
    assert_eq!(q.pending(1), 0);
    assert!(q.push(1, e3));
    assert_eq!(q.drain(1), vec![e3]);
    assert!(q.drain(7).is_empty());
}
