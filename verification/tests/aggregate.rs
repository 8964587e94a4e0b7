use pg_tenant_monitor::aggregate::{accumulate, TenantAggregate};
use pg_tenant_monitor::tenant::ProcessedQueryEvent;

fn charge_of(tenant: &str, duration_micro: u64) -> ProcessedQueryEvent {
    ProcessedQueryEvent { tenant_id: tenant.to_string(), duration_micro }
}

#[test]
fn two_calls_of_one_tenant_add_up() {
    let mut agg = TenantAggregate::new();
    agg.record(charge_of("42", 100));
    agg.record(charge_of("42", 250));
    assert_eq!(agg.get("42"), Some((2, 350)));
}

#[test]
fn order_of_calls_does_not_matter() {
    let mut forward = TenantAggregate::new();
    forward.record_all(vec![charge_of("42", 100), charge_of("7", 5), charge_of("42", 250)]);
    let mut backward = TenantAggregate::new();
    backward.record_all(vec![charge_of("42", 250), charge_of("42", 100), charge_of("7", 5)]);
    assert_eq!(forward.get("42"), Some((2, 350)));
    assert_eq!(backward.get("42"), Some((2, 350)));
    assert_eq!(forward.get("7"), Some((1, 5)));
    assert_eq!(backward.get("7"), Some((1, 5)));
}

#[test]
fn first_call_creates_the_entry() {
    let mut agg = TenantAggregate::new();
    assert_eq!(agg.get("42"), None);
    agg.record(charge_of("42", 0));
    assert_eq!(agg.get("42"), Some((1, 0)));
    assert_eq!(agg.get("4"), None);
    assert_eq!(agg.get("042"), None);
}

#[test]
fn tenants_are_told_apart_as_text() {
    let mut agg = TenantAggregate::new();
    agg.record(charge_of("7", 1));
    agg.record(charge_of("007", 2));
    assert_eq!(agg.get("7"), Some((1, 1)));
    assert_eq!(agg.get("007"), Some((1, 2)));
}

#[test]
fn total_stays_at_the_largest_value() {
    let mut agg = TenantAggregate::new();
    agg.record(charge_of("1", u64::MAX - 1));
    agg.record(charge_of("1", 1));
    assert_eq!(agg.get("1"), Some((2, u64::MAX)));
    agg.record(charge_of("1", 10));
    assert_eq!(agg.get("1"), Some((3, u64::MAX)));
}

#[test]
fn accumulate_adds_one_call() {
    assert_eq!(accumulate((1, 100), 250), (2, 350));
    assert_eq!(accumulate((0, 0), 0), (1, 0));
    assert_eq!(accumulate((i32::MAX - 1, 5), 5), (i32::MAX, 10));
    assert_eq!(accumulate((i32::MAX, 5), 5), (i32::MAX, 10));
    assert_eq!(accumulate((3, u64::MAX), 5), (4, u64::MAX));
    assert_eq!(accumulate((3, u64::MAX - 5), 5), (4, u64::MAX));
    assert_eq!(accumulate((3, u64::MAX - 5), 6), (4, u64::MAX));
}

#[test]
fn snapshot_lists_each_tenant_once() {
    let mut agg = TenantAggregate::new();
    assert!(agg.snapshot().is_empty());
    agg.record_all(vec![
        charge_of("42", 100),
        charge_of("7", 5),
        charge_of("42", 250),
        charge_of("9", 1),
    ]);
    let mut rows = agg.snapshot();
    rows.sort();
    assert_eq!(
        rows,
        vec![
            ("42".to_string(), 2, 350),
            ("7".to_string(), 1, 5),
            ("9".to_string(), 1, 1),
        ]
    );
}

#[test]
fn record_all_of_nothing_changes_nothing() {
    let mut agg = TenantAggregate::new();
    agg.record(charge_of("1", 1));
    agg.record_all(Vec::new());
    assert_eq!(agg.snapshot(), vec![("1".to_string(), 1, 1)]);
}

#[test]
fn reader_sees_what_the_writer_recorded() {
    let mut agg = TenantAggregate::new();
    let reader = agg.reader();
    assert!(reader.is_empty());
    agg.record(charge_of("42", 100));
    agg.record(charge_of("42", 250));
    let seen = reader.get("42").map(|entry| *entry.value());
    assert_eq!(seen, Some((2, 350)));
    assert_eq!(reader.len(), 1);
}

#[test]
fn reader_shows_what_the_aggregate_holds_when_handed_out() {
    let mut agg = TenantAggregate::new();
    agg.record(charge_of("42", 100));
    agg.record(charge_of("7", 5));
    let reader = agg.reader();
    let mut seen: Vec<(String, i32, u64)> = reader
        .iter()
        .map(|entry| (entry.key().clone(), entry.value().0, entry.value().1))
        .collect();
    seen.sort();
    let mut rows = agg.snapshot();
    rows.sort();
    assert_eq!(seen, rows);
    assert_eq!(seen, vec![("42".to_string(), 1, 100), ("7".to_string(), 1, 5)]);
}
