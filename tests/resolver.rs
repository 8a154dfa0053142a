use detour::cache::DnsCache;
use detour::dns::DnsQuery;
use detour::filter::{filter_query, get_domain, Blocklist};
use detour::resolver::{QueryAction, Resolver};

fn query_bytes(id: u16, labels: &[&[u8]], qtype: u16) -> Vec<u8> {
    let mut v = Vec::new();
    v.extend_from_slice(&id.to_be_bytes());
    v.extend_from_slice(&[0x01, 0x00, 0x00, 0x01, 0x00, 0x00, 0x00, 0x00, 0x00, 0x00]);
    for l in labels {
        v.push(l.len() as u8);
        v.extend_from_slice(l);
    }
    v.push(0);
    v.extend_from_slice(&qtype.to_be_bytes());
    v.extend_from_slice(&1u16.to_be_bytes());
    v
}

fn response_bytes(id: u16, labels: &[&[u8]], qtype: u16, ttl: u32) -> Vec<u8> {
    let mut v = query_bytes(id, labels, qtype);
    v[2] = 0x81;
    v[3] = 0x80;
    v[7] = 1;
    v.extend_from_slice(&[0xC0, 0x0C, 0x00, 0x01, 0x00, 0x01]);
    v.extend_from_slice(&ttl.to_be_bytes());
    v.extend_from_slice(&[0x00, 0x04, 93, 184, 216, 34]);
    v
}

#[test]
fn blocked_query_gets_sinkhole_answer() {
    let mut r = Resolver::new(Blocklist::new());
    let q = query_bytes(0x1234, &[b"doubleclick", b"com"], 1);
    match r.process_query_at(&q, 0) {
        QueryAction::Blocked { response, domain } => {
            assert_eq!(domain, "doubleclick.com");
            assert_eq!(&response[..12], &[0x12, 0x34, 0x81, 0x80, 0x00, 0x01, 0x00, 0x01, 0x00, 0x00, 0x00, 0x00]);
            let n = response.len();
            assert_eq!(&response[n - 4..], &[0, 0, 0, 0]);
            assert_eq!(&response[n - 14..n - 10], &[0x00, 0x01, 0x00, 0x01]);
            assert_eq!(&response[n - 10..n - 6], &300u32.to_be_bytes());
        }
        _ => panic!("expected a blocked answer"),
    }
}

#[test]
fn blocked_parent_domain_blocks_subdomain_query() {
    let mut r = Resolver::new(Blocklist::from_text("ads.example\n"));
    let q = query_bytes(9, &[b"Tracker", b"ADS", b"example"], 1);
    assert!(matches!(r.process_query_at(&q, 0), QueryAction::Blocked { .. }));
    let q2 = query_bytes(9, &[b"ads", b"example", b"net"], 1);
    assert!(matches!(r.process_query_at(&q2, 0), QueryAction::Forward { .. }));
}

#[test]
fn invalid_query_is_invalid() {
    let mut r = Resolver::new(Blocklist::empty());
    assert!(matches!(r.process_query_at(&[0u8; 20], 0), QueryAction::Invalid));
    assert!(matches!(r.process_query(&[1, 2, 3]), QueryAction::Invalid));
}

#[test]
fn response_is_cached_until_its_ttl_elapses() {
    let mut r = Resolver::new(Blocklist::empty());
    let q = query_bytes(0x0101, &[b"example", b"com"], 1);
    match r.process_query_at(&q, 1_000) {
        QueryAction::Forward { domain } => assert_eq!(domain, "example.com"),
        _ => panic!("expected forward"),
    }
    let resp = response_bytes(0x0101, &[b"example", b"com"], 1, 120);
    r.process_response_at(&resp, 1_000);
    assert_eq!(r.cache_len(), 1);

    let q2 = query_bytes(0xAABB, &[b"EXAMPLE", b"com"], 1);
    match r.process_query_at(&q2, 1_000 + 119_999) {
        QueryAction::Cached { response, domain } => {
            assert_eq!(domain, "example.com");
            assert_eq!(&response[..2], &[0xAA, 0xBB]);
            assert_eq!(&response[2..], &resp[2..]);
        }
        _ => panic!("expected a cached answer"),
    }
    assert!(matches!(r.process_query_at(&q2, 1_000 + 120_000), QueryAction::Forward { .. }));
    assert_eq!(r.cache_len(), 0);
}

#[test]
fn cache_is_keyed_by_type() {
    let mut r = Resolver::new(Blocklist::empty());
    r.process_response_at(&response_bytes(1, &[b"a", b"com"], 1, 300), 0);
    let aaaa = query_bytes(2, &[b"a", b"com"], 28);
    assert!(matches!(r.process_query_at(&aaaa, 10), QueryAction::Forward { .. }));
    let a = query_bytes(2, &[b"a", b"com"], 1);
    assert!(matches!(r.process_query_at(&a, 10), QueryAction::Cached { .. }));
}

#[test]
fn malformed_response_is_not_cached() {
    let mut r = Resolver::new(Blocklist::empty());
    r.process_response_at(&[0u8; 12], 0);
    r.process_response(&[1, 2, 3]);
    assert_eq!(r.cache_len(), 0);
}

#[test]
fn blocklist_takes_precedence_over_cache() {
    let mut r = Resolver::new(Blocklist::from_text("a.com\n"));
    r.process_response_at(&response_bytes(1, &[b"a", b"com"], 1, 300), 0);
    let q = query_bytes(2, &[b"a", b"com"], 1);
    assert!(matches!(r.process_query_at(&q, 10), QueryAction::Blocked { .. }));
    assert_eq!(r.blocked_count(), 1);
}

#[test]
fn cache_hit_rewrites_id_scenario() {
    let mut c = DnsCache::new();
    let resp = response_bytes(0x1111, &[b"example", b"com"], 1, 30);
    let stored = DnsQuery::parse(&resp).unwrap();
    c.put_at(&stored, &resp, 5_000);
    let q = DnsQuery::parse(&query_bytes(0xAABB, &[b"example", b"com"], 1)).unwrap();
    let hit = c.get_at(&q, 5_000 + 29_000).unwrap();
    assert_eq!(&hit[..2], &[0xAA, 0xBB]);
    assert_eq!(&hit[2..], &resp[2..]);
}

#[test]
fn short_ttl_is_raised_to_sixty_seconds() {
    let mut c = DnsCache::new();
    let resp = response_bytes(1, &[b"example", b"com"], 1, 10);
    let stored = DnsQuery::parse(&resp).unwrap();
    c.put_at(&stored, &resp, 0);
    assert!(c.get_at(&stored, 59_999).is_some());
    assert!(c.get_at(&stored, 60_000).is_none());
    assert_eq!(c.len(), 0);
}

#[test]
fn long_ttl_is_capped_at_one_day() {
    let mut c = DnsCache::new();
    let resp = response_bytes(1, &[b"example", b"com"], 1, 1_000_000);
    let stored = DnsQuery::parse(&resp).unwrap();
    c.put_at(&stored, &resp, 0);
    assert!(c.get_at(&stored, 86_400_000 - 1).is_some());
    assert!(c.get_at(&stored, 86_400_000).is_none());
}

#[test]
fn put_replaces_entry_for_same_key() {
    let mut c = DnsCache::new();
    let first = response_bytes(1, &[b"x", b"org"], 1, 100);
    let second = response_bytes(2, &[b"x", b"org"], 1, 200);
    let q = DnsQuery::parse(&first).unwrap();
    c.put_at(&q, &first, 0);
    c.put_at(&q, &second, 0);
    assert_eq!(c.len(), 1);
    let hit = c.get_at(&q, 150_000).unwrap();
    assert_eq!(&hit[2..], &second[2..]);
}

#[test]
fn cache_with_clock() {
    let mut c = DnsCache::new();
    let resp = response_bytes(1, &[b"x", b"org"], 1, 100);
    let q = DnsQuery::parse(&resp).unwrap();
    assert!(c.get(&q).is_none());
    c.put(&q, &resp);
    assert!(c.get(&q).is_some());
}

#[test]
fn get_domain_keeps_case() {
    let q = query_bytes(1, &[b"WWW", b"Example", b"com"], 1);
    assert_eq!(get_domain(&q), Some("WWW.Example.com".to_string()));
    assert_eq!(get_domain(&[0u8; 12]), None);
}

#[test]
fn filter_query_copies_question_section() {
    let bl = Blocklist::from_text("doubleclick.com\n");
    let q = query_bytes(0x1234, &[b"ads", b"doubleclick", b"com"], 1);
    let resp = filter_query(&bl, &q).unwrap();
    let mut expected = vec![0x12, 0x34, 0x81, 0x80, 0x00, 0x01, 0x00, 0x01, 0x00, 0x00, 0x00, 0x00];
    expected.extend_from_slice(&q[12..]);
    expected.extend_from_slice(&[0xC0, 0x0C, 0x00, 0x01, 0x00, 0x01, 0x00, 0x00, 0x01, 0x2C, 0x00, 0x04, 0, 0, 0, 0]);
    assert_eq!(resp, expected);
    let safe = query_bytes(1, &[b"example", b"com"], 1);
    assert_eq!(filter_query(&bl, &safe), None);
}

#[test]
fn stats_count_and_reset() {
    let mut r = Resolver::new(Blocklist::empty());
    r.record_forwarded(3_000);
    r.record_cached(1_000);
    r.record_blocked(2_000);
    let s = r.stats_snapshot_and_reset();
    assert_eq!(s.requests, 3);
    assert_eq!(s.forwarded, 1);
    assert_eq!(s.cached, 1);
    assert_eq!(s.blocked, 1);
    assert_eq!(s.total_response_us, 6_000);
    assert_eq!(s.avg_response_us(), 2_000);
    let again = r.stats_snapshot_and_reset();
    assert_eq!(again.requests, 0);
    assert_eq!(again.avg_response_us(), 0);
}

#[test]
fn cache_len_tracks_puts_and_expired_lookups() {
    let mut c = DnsCache::new();
    let a = response_bytes(1, &[b"a", b"com"], 1, 100);
    let b = response_bytes(1, &[b"b", b"com"], 1, 100);
    let qa = DnsQuery::parse(&a).unwrap();
    let qb = DnsQuery::parse(&b).unwrap();
    c.put_at(&qa, &a, 0);
    assert_eq!(c.len(), 1);
    c.put_at(&qb, &b, 0);
    assert_eq!(c.len(), 2);
    c.put_at(&qa, &a, 10);
    assert_eq!(c.len(), 2);
    assert!(c.get_at(&qb, 100_000).is_none());
    assert_eq!(c.len(), 1);
    assert!(c.get_at(&qa, 50_000).is_some());
    assert_eq!(c.len(), 1);
}

#[test]
fn query_handling_leaves_counters_alone() {
    let mut r = Resolver::new(Blocklist::new());
    let first = r.stats_snapshot_and_reset();
    assert_eq!(first.requests, 0);
    r.process_query_at(&[0u8; 3], 0);
    r.process_query_at(&query_bytes(1, &[b"doubleclick", b"com"], 1), 0);
    r.process_response_at(&response_bytes(1, &[b"a", b"com"], 1, 100), 0);
    let s = r.stats_snapshot_and_reset();
    assert_eq!((s.requests, s.forwarded, s.cached, s.blocked, s.total_response_us), (0, 0, 0, 0, 0));
}

#[test]
fn entry_is_cached_near_the_end_of_the_clock() {
    let mut r = Resolver::new(Blocklist::empty());
    let t0 = u64::MAX - 1_000;
    r.process_response_at(&response_bytes(1, &[b"late", b"org"], 1, 300), t0);
    let q = query_bytes(2, &[b"late", b"org"], 1);
    assert!(matches!(r.process_query_at(&q, u64::MAX), QueryAction::Cached { .. }));
}

#[test]
fn new_cache_is_empty() {
    let c = DnsCache::new();
    assert_eq!(c.len(), 0);
    let r = Resolver::new(Blocklist::new());
    assert_eq!(r.cache_len(), 0);
}
