use detour::dns::{DnsQuery, DnsResponse, DnsQuestion, DnsRecord};

fn query_bytes(id: u16, labels: &[&[u8]], qtype: u16, qclass: u16) -> Vec<u8> {
    let mut v = Vec::new();
    v.extend_from_slice(&id.to_be_bytes());
    v.extend_from_slice(&[0x01, 0x00, 0x00, 0x01, 0x00, 0x00, 0x00, 0x00, 0x00, 0x00]);
    for l in labels {
        v.push(l.len() as u8);
        v.extend_from_slice(l);
    }
    v.push(0);
    v.extend_from_slice(&qtype.to_be_bytes());
    v.extend_from_slice(&qclass.to_be_bytes());
    v
}

#[test]
fn parse_example_query() {
    let data = [
        0x12, 0x34, 0x01, 0x00, 0x00, 0x01, 0x00, 0x00, 0x00, 0x00, 0x00, 0x00, 0x07, b'e', b'x',
        b'a', b'm', b'p', b'l', b'e', 0x03, b'c', b'o', b'm', 0x00, 0x00, 0x01, 0x00, 0x01,
    ];
    let q = DnsQuery::parse(&data).unwrap();

    assert_eq!(q.id, 0x1234);
    assert_eq!(q.domain, "example.com");
    assert_eq!(q.qtype, 1);
    assert_eq!(q.qclass, 1);
}

#[test]
fn parse_round_trip_folds_case() {
    let data = query_bytes(0xBEEF, &[b"WwW", b"ExAmple", b"ORG"], 28, 3);
    let q = DnsQuery::parse(&data).unwrap();

    assert_eq!(q.id, 0xBEEF);
    assert_eq!(q.domain, "www.example.org");
    assert_eq!(q.qtype, 28);
    assert_eq!(q.qclass, 3);
}

#[test]
fn parse_ignores_bytes_after_the_question() {
    let mut data = query_bytes(7, &[b"a"], 1, 1);
    data.extend_from_slice(&[0xC0, 0x0C, 0x00, 0x01]);
    let q = DnsQuery::parse(&data).unwrap();

    assert_eq!(q.domain, "a");
    assert_eq!(q.qtype, 1);
}

#[test]
fn parse_rejects_short_buffer() {
    assert!(DnsQuery::parse(&[0u8; 12]).is_none());
    assert!(DnsQuery::parse(&[]).is_none());
}

#[test]
fn parse_rejects_label_past_end() {
    let mut data = vec![0u8; 12];
    data.extend_from_slice(&[5, b'a', b'b']);
    assert!(DnsQuery::parse(&data).is_none());
}

#[test]
fn parse_rejects_empty_name() {
    let mut data = vec![0u8; 12];
    data.extend_from_slice(&[0, 0, 1, 0, 1]);
    assert!(DnsQuery::parse(&data).is_none());
}

#[test]
fn parse_rejects_missing_type_and_class() {
    let mut data = query_bytes(1, &[b"example", b"com"], 1, 1);
    data.truncate(data.len() - 1);
    assert!(DnsQuery::parse(&data).is_none());
}

#[test]
fn parse_rejects_missing_terminator() {
    let mut data = vec![0u8; 12];
    data.extend_from_slice(&[3, b'c', b'o', b'm']);
    assert!(DnsQuery::parse(&data).is_none());
}

#[test]
fn parse_checks_utf8() {
    let bad = query_bytes(1, &[&[0xFF, 0xFE], b"com"], 1, 1);
    assert!(DnsQuery::parse(&bad).is_none());

    let good = query_bytes(1, &["Bücher".as_bytes(), b"de"], 1, 1);
    let q = DnsQuery::parse(&good).unwrap();
    assert_eq!(q.domain, "bücher.de");
}

#[test]
fn response_from_cache_rewrites_id() {
    let q = DnsQuery::parse(&query_bytes(0xAABB, &[b"x"], 1, 1)).unwrap();

    assert_eq!(q.response_from_cache(&[1, 2, 3, 4]), Some(vec![0xAA, 0xBB, 3, 4]));
    assert_eq!(q.response_from_cache(&[1]), None);
    assert_eq!(q.response_from_cache(&[9, 9]), Some(vec![0xAA, 0xBB]));
}

#[test]
fn blocked_response_bytes() {
    let q = DnsQuery::parse(&query_bytes(0x1234, &[b"doubleclick", b"com"], 1, 1)).unwrap();
    let r = q.blocked_response();
    assert_eq!(r.id, 0x1234);
    assert_eq!(r.flags, 0x8180);
    assert_eq!(r.questions.len(), 1);
    assert_eq!(r.answers.len(), 1);
    assert_eq!(r.answers[0].ttl, 300);
    assert_eq!(r.answers[0].rdata, vec![0, 0, 0, 0]);

    let bytes = r.to_bytes();
    let mut expected = vec![0x12, 0x34, 0x81, 0x80, 0x00, 0x01, 0x00, 0x01, 0x00, 0x00, 0x00, 0x00];
    expected.push(11);
    expected.extend_from_slice(b"doubleclick");
    expected.push(3);
    expected.extend_from_slice(b"com");
    expected.extend_from_slice(&[0, 0x00, 0x01, 0x00, 0x01]);
    expected.extend_from_slice(&[0xC0, 0x0C, 0x00, 0x01, 0x00, 0x01, 0x00, 0x00, 0x01, 0x2C, 0x00, 0x04, 0, 0, 0, 0]);
    assert_eq!(bytes, expected);
}

#[test]
fn to_bytes_writes_other_names_in_full() {
    let r = DnsResponse {
        id: 1,
        flags: 0x8180,
        questions: vec![DnsQuestion { domain: "a.b".to_string(), qtype: 1, qclass: 1 }],
        answers: vec![DnsRecord {
            name: "c".to_string(),
            rtype: 16,
            class: 1,
            ttl: 0x01020304,
            rdata: vec![7],
        }],
    };
    let expected = vec![
        0, 1, 0x81, 0x80, 0, 1, 0, 1, 0, 0, 0, 0, 1, b'a', 1, b'b', 0, 0, 1, 0, 1, 1, b'c', 0, 0,
        16, 0, 1, 1, 2, 3, 4, 0, 1, 7,
    ];
    assert_eq!(r.to_bytes(), expected);
}

#[test]
fn to_bytes_of_empty_response_is_header_only() {
    let r = DnsResponse { id: 0xFFFF, flags: 0, questions: vec![], answers: vec![] };
    assert_eq!(r.to_bytes(), vec![0xFF, 0xFF, 0, 0, 0, 0, 0, 0, 0, 0, 0, 0]);
}

fn response_with_ttls(ttls: &[u32]) -> Vec<u8> {
    let mut v = query_bytes(0x1234, &[b"example", b"com"], 1, 1);
    v[2] = 0x81;
    v[3] = 0x80;
    v[6..8].copy_from_slice(&(ttls.len() as u16).to_be_bytes());
    for t in ttls {
        v.extend_from_slice(&[0xC0, 0x0C, 0x00, 0x01, 0x00, 0x01]);
        v.extend_from_slice(&t.to_be_bytes());
        v.extend_from_slice(&[0x00, 0x04, 93, 184, 216, 34]);
    }
    v
}

#[test]
fn min_ttl_over_answers() {
    assert_eq!(DnsResponse::parse_min_ttl(&response_with_ttls(&[300, 45, 1000]), 60), 45);
    assert_eq!(DnsResponse::parse_min_ttl(&response_with_ttls(&[7]), 60), 7);
}

#[test]
fn min_ttl_defaults_without_records() {
    assert_eq!(DnsResponse::parse_min_ttl(&response_with_ttls(&[]), 60), 60);
    assert_eq!(DnsResponse::parse_min_ttl(&[0u8; 5], 99), 99);
}

#[test]
fn min_ttl_stops_at_truncated_record() {
    let mut r = response_with_ttls(&[500, 20]);
    r.truncate(r.len() - 10);
    assert_eq!(DnsResponse::parse_min_ttl(&r, 60), 500);
    let mut r2 = response_with_ttls(&[500]);
    r2.truncate(r2.len() - 8);
    assert_eq!(DnsResponse::parse_min_ttl(&r2, 60), 60);
}

#[test]
fn min_ttl_reads_the_largest_ttl_as_found() {
    assert_eq!(DnsResponse::parse_min_ttl(&response_with_ttls(&[u32::MAX]), 60), u32::MAX as u64);
}
