use pg_tenant_monitor::schema::QueryEvent;
use pg_tenant_monitor::tenant::{charge, extract_tenant_id, process_event, ProcessedQueryEvent, TENANT_PATTERN};

#[test]
fn tenant_with_spaces_around_the_equals_sign() {
    assert_eq!(extract_tenant_id("SELECT 1 WHERE tenant_id = 42"), Some("42".to_string()));
}

#[test]
fn tenant_keeps_its_leading_zeros() {
    assert_eq!(extract_tenant_id("SELECT 1 WHERE tenant_id=007"), Some("007".to_string()));
}

#[test]
fn query_without_tenant_gives_none() {
    assert_eq!(extract_tenant_id("SELECT 1"), None);
    assert_eq!(extract_tenant_id(""), None);
    assert_eq!(extract_tenant_id("SELECT 1 WHERE tenant_id = "), None);
    assert_eq!(extract_tenant_id("SELECT 1 WHERE tenant_id = abc"), None);
    assert_eq!(extract_tenant_id("SELECT 1 WHERE tenant_id 42"), None);
}

#[test]
fn first_of_several_tenants_wins() {
    assert_eq!(
        extract_tenant_id("SELECT 1 WHERE tenant_id = 5 OR tenant_id = 9"),
        Some("5".to_string())
    );
    assert_eq!(
        extract_tenant_id("tenant_id = x AND tenant_id=12 AND tenant_id=13"),
        Some("12".to_string())
    );
}

#[test]
fn tenant_pattern_is_case_sensitive() {
    assert_eq!(extract_tenant_id("SELECT 1 WHERE TENANT_ID = 42"), None);
    assert_eq!(extract_tenant_id("SELECT 1 WHERE Tenant_id = 42"), None);
}

#[test]
fn tenant_may_be_separated_by_tabs_and_newlines() {
    assert_eq!(extract_tenant_id("WHERE tenant_id\t=\n  31337;"), Some("31337".to_string()));
}

#[test]
fn tenant_digits_stop_at_the_first_other_character() {
    assert_eq!(extract_tenant_id("WHERE tenant_id=12ab34"), Some("12".to_string()));
    assert_eq!(
        extract_tenant_id("WHERE tenant_id=123456789012345678901234567890"),
        Some("123456789012345678901234567890".to_string())
    );
}

#[test]
fn tenant_pattern_text() {
    assert_eq!(TENANT_PATTERN, r"tenant_id\s*=\s*(\d+)");
}

#[test]
fn charge_keeps_tenant_and_duration() {
    assert_eq!(
        charge(Some("42".to_string()), 9),
        Some(ProcessedQueryEvent { tenant_id: "42".to_string(), duration_micro: 9 })
    );
    assert_eq!(charge(None, 9), None);
}

#[test]
fn process_event_charges_the_tenant_of_the_record() {
    let event = QueryEvent::new(b"SELECT 1 WHERE tenant_id = 42", 1500);
    assert_eq!(
        process_event(event),
        Some(ProcessedQueryEvent { tenant_id: "42".to_string(), duration_micro: 1500 })
    );
}

#[test]
fn process_event_drops_a_record_without_tenant() {
    assert_eq!(process_event(QueryEvent::new(b"SELECT 1", 1500)), None);
    assert_eq!(process_event(QueryEvent { query: [0u8; 128], duration_micro: 1 }), None);
}

#[test]
fn process_event_survives_invalid_utf8() {
    let mut text = vec![0xFFu8, 0xFE, b' '];
    text.extend_from_slice(b"tenant_id = 8");
    text.push(0xC3);
    assert_eq!(
        process_event(QueryEvent::new(&text, 3)),
        Some(ProcessedQueryEvent { tenant_id: "8".to_string(), duration_micro: 3 })
    );
}

#[test]
fn process_event_misses_a_tenant_cut_by_truncation() {
    let mut text = vec![b' '; 119];
    text.extend_from_slice(b"tenant_id = 42");
    // Only `tenant_id` fits into the buffer: the digits are cut off.
    assert_eq!(process_event(QueryEvent::new(&text, 3)), None);
    let mut text = vec![b' '; 115];
    text.extend_from_slice(b"tenant_id = 4242");
    // The buffer ends after the first digit.
    assert_eq!(
        process_event(QueryEvent::new(&text, 3)),
        Some(ProcessedQueryEvent { tenant_id: "4".to_string(), duration_micro: 3 })
    );
}

fn buffer_with_text_behind_the_zero_byte() -> [u8; 128] {
    let mut query = [0u8; 128];
    let bytes = b"SELECT 1\0tenant_id=5";
    query[..bytes.len()].copy_from_slice(bytes);
    query
}

#[test]
fn process_event_reads_no_text_behind_the_first_zero_byte() {
    let event = QueryEvent { query: buffer_with_text_behind_the_zero_byte(), duration_micro: 9 };
    assert_eq!(event.text(), b"SELECT 1".to_vec());
    assert_eq!(process_event(event), None);
}

#[test]
fn process_event_reads_the_text_up_to_the_first_zero_byte() {
    let mut query = [0u8; 128];
    let bytes = b"SELECT 1 WHERE tenant_id=5\0tenant_id=6";
    query[..bytes.len()].copy_from_slice(bytes);
    assert_eq!(
        process_event(QueryEvent { query, duration_micro: 9 }),
        Some(ProcessedQueryEvent { tenant_id: "5".to_string(), duration_micro: 9 })
    );
    let mut cut = [0u8; 128];
    let bytes = b"SELECT 1 WHERE tenant_id=\x005";
    cut[..bytes.len()].copy_from_slice(bytes);
    assert_eq!(process_event(QueryEvent { query: cut, duration_micro: 9 }), None);
}

#[test]
fn process_event_reads_a_full_buffer_to_its_end() {
    let mut text = vec![b' '; 116];
    text.extend_from_slice(b"tenant_id=42");
    assert_eq!(text.len(), 128);
    assert_eq!(
        process_event(QueryEvent::new(&text, 1)),
        Some(ProcessedQueryEvent { tenant_id: "42".to_string(), duration_micro: 1 })
    );
}
