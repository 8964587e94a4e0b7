use pg_tenant_monitor::aggregate::TenantAggregate;
use pg_tenant_monitor::pipeline::{process_batch, sweep};
use pg_tenant_monitor::schema::{capture_query, QueryEvent};
use pg_tenant_monitor::tenant::ProcessedQueryEvent;
use pg_tenant_monitor::tracker::{exec_simple_query_enter, exec_simple_query_return, CallTracker};

#[test]
fn batch_keeps_order_and_leaves_out_records_without_tenant() {
    let records = vec![
        QueryEvent::new(b"SELECT 1 WHERE tenant_id = 42", 100),
        QueryEvent::new(b"SELECT 1", 7),
        QueryEvent::new(b"SELECT 1 WHERE tenant_id=007", 250),
    ];
    assert_eq!(
        process_batch(&records),
        vec![
            ProcessedQueryEvent { tenant_id: "42".to_string(), duration_micro: 100 },
            ProcessedQueryEvent { tenant_id: "007".to_string(), duration_micro: 250 },
        ]
    );
    assert_eq!(process_batch(&Vec::new()), Vec::new());
}

#[test]
fn sweep_drains_every_shard_into_the_aggregate() {
    let cores = 4;
    let mut tracker = CallTracker::new(100, cores, 16);
    let mut agg = TenantAggregate::new();
    let q42 = capture_query(b"SELECT 1 WHERE tenant_id = 42");
    let q7 = capture_query(b"UPDATE t SET x = 1 WHERE tenant_id=7");
    let none = capture_query(b"SELECT now()");
    for cpu in 0..cores {
        let thread = 1000 + cpu as u64;
        exec_simple_query_enter(&mut tracker, thread, Some(q42), 0);
        exec_simple_query_return(&mut tracker, thread, 100_000, cpu);
        exec_simple_query_enter(&mut tracker, thread, Some(none), 0);
        exec_simple_query_return(&mut tracker, thread, 5_000, cpu);
    }
    exec_simple_query_enter(&mut tracker, 1, Some(q7), 1_000_000);
    exec_simple_query_return(&mut tracker, 1, 1_250_000, 3);
    exec_simple_query_enter(&mut tracker, 2, Some(q7), 0);
    sweep(&mut tracker, &mut agg);
    for cpu in 0..cores {
        assert!(tracker.drain(cpu).is_empty());
    }
    assert_eq!(tracker.in_flight(), 1);
    assert_eq!(agg.get("42"), Some((4, 400)));
    assert_eq!(agg.get("7"), Some((1, 250)));
    let mut rows = agg.snapshot();
    rows.sort();
    assert_eq!(rows, vec![("42".to_string(), 4, 400), ("7".to_string(), 1, 250)]);
    sweep(&mut tracker, &mut agg);
    assert_eq!(agg.get("42"), Some((4, 400)));
}
