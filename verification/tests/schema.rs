use pg_tenant_monitor::schema::{capture_query, text_end, QueryEvent, QUERY_TEXT_LEN, RECORD_LEN};

fn long_query() -> Vec<u8> {
    let mut text = b"SELECT 1 WHERE tenant_id = 42 AND note = '".to_vec();
    while text.len() < 130 {
        let next = b'a' + (text.len() % 26) as u8;
        text.push(next);
    }
    text
}

#[test]
fn record_sizes_are_fixed() {
    assert_eq!(QUERY_TEXT_LEN, 128);
    assert_eq!(RECORD_LEN, 136);
}

#[test]
fn round_trip_of_a_130_character_query_keeps_the_first_128_bytes() {
    let text = long_query();
    assert_eq!(text.len(), 130);
    let event = QueryEvent::new(&text, 77);
    let bytes = event.encode();
    assert_eq!(bytes.len(), RECORD_LEN);
    let back = QueryEvent::decode(&bytes).expect("a whole record decodes");
    assert_eq!(&back.query[..], &text[..128]);
    assert_eq!(back.duration_micro, 77);
    assert_eq!(back, event);
}

#[test]
fn encode_writes_the_query_then_the_duration_little_endian() {
    let event = QueryEvent::new(b"SELECT 1", 0x0102_0304_0506_0708);
    let bytes = event.encode();
    assert_eq!(&bytes[..8], b"SELECT 1");
    assert!(bytes[8..128].iter().all(|b| *b == 0));
    assert_eq!(&bytes[128..], &[8u8, 7, 6, 5, 4, 3, 2, 1]);
}

#[test]
fn decode_refuses_a_short_record() {
    assert_eq!(QueryEvent::decode(&[]), None);
    assert_eq!(QueryEvent::decode(&[0u8; 135]), None);
    assert!(QueryEvent::decode(&[0u8; 136]).is_some());
}

#[test]
fn decode_ignores_what_follows_the_record() {
    let event = QueryEvent::new(b"SELECT 2", 9);
    let mut bytes = event.encode();
    bytes.extend_from_slice(&[0xAA, 0xBB, 0xCC, 0xDD]);
    assert_eq!(QueryEvent::decode(&bytes), Some(event));
}

#[test]
fn decode_reads_the_duration_from_the_last_eight_bytes() {
    let mut bytes = vec![b'x'; 128];
    bytes.extend_from_slice(&[1, 0, 0, 0, 0, 0, 0, 0]);
    let event = QueryEvent::decode(&bytes).unwrap();
    assert_eq!(event.duration_micro, 1);
    assert_eq!(event.query, [b'x'; 128]);
    let mut bytes = vec![b'x'; 128];
    bytes.extend_from_slice(&[0, 0, 0, 0, 0, 0, 0, 0x80]);
    assert_eq!(QueryEvent::decode(&bytes).unwrap().duration_micro, 1u64 << 63);
}

#[test]
fn capture_stops_at_the_first_zero_byte() {
    let buf = capture_query(b"abc\0def");
    assert_eq!(&buf[..3], b"abc");
    assert!(buf[3..].iter().all(|b| *b == 0));
}

#[test]
fn capture_of_an_empty_text_is_all_zeros() {
    assert_eq!(capture_query(b""), [0u8; 128]);
    assert_eq!(capture_query(b"\0SELECT"), [0u8; 128]);
}

#[test]
fn capture_of_exactly_128_bytes_keeps_them_all() {
    let text = vec![b'q'; 128];
    assert_eq!(capture_query(&text), [b'q'; 128]);
    let longer = vec![b'q'; 500];
    assert_eq!(capture_query(&longer), [b'q'; 128]);
}

#[test]
fn text_end_is_the_first_zero_or_the_length() {
    assert_eq!(text_end(b""), 0);
    assert_eq!(text_end(b"abc"), 3);
    assert_eq!(text_end(b"ab\0c\0"), 2);
    assert_eq!(text_end(b"\0"), 0);
}

#[test]
fn text_gives_the_query_without_the_fill() {
    let event = QueryEvent::new(b"SELECT 1\0junk", 1);
    assert_eq!(event.text(), b"SELECT 1".to_vec());
    let full = QueryEvent::new(&[b'z'; 200], 1);
    assert_eq!(full.text(), vec![b'z'; 128]);
}
