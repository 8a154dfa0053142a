use detour::filter::Blocklist;
use detour::resolver::{QueryAction, Resolver};
use detour::stats::Stats;
use detour::transport::tcp::{frame_message, message_complete, tcp_payload};
use detour::transport::udp::UdpSession;
use detour::transport::{civil_from_unix, days_to_ymd, is_leap_year, Protocol, QueryLogger};

fn query_bytes(id: u16, name: &[&[u8]]) -> Vec<u8> {
    let mut v = Vec::new();
    v.extend_from_slice(&id.to_be_bytes());
    v.extend_from_slice(&[0x01, 0x00, 0x00, 0x01, 0x00, 0x00, 0x00, 0x00, 0x00, 0x00]);
    for l in name {
        v.push(l.len() as u8);
        v.extend_from_slice(l);
    }
    v.extend_from_slice(&[0, 0, 1, 0, 1]);
    v
}

#[test]
fn echoed_query_is_delivered_once() {
    let mut r = Resolver::new(Blocklist::empty());
    let mut s: UdpSession<u32> = UdpSession::new();
    let q = query_bytes(0x4242, &[b"example", b"com"]);
    assert!(matches!(s.on_client_datagram(&mut r, &q, 7, 100, 100), QueryAction::Forward { .. }));
    assert_eq!(s.pending_len(), 1);

    let first = s.on_upstream_datagram(&mut r, &q, 150).unwrap();
    assert_eq!(first.client, 7);
    assert_eq!(first.domain, "example.com");
    assert_eq!(first.start_time, 100);
    assert_eq!(s.pending_len(), 0);
    assert!(s.on_upstream_datagram(&mut r, &q, 160).is_none());
}

#[test]
fn late_reply_from_slower_upstream_is_dropped() {
    let mut r = Resolver::new(Blocklist::empty());
    let mut s: UdpSession<&str> = UdpSession::new();
    let q = query_bytes(0x0102, &[b"a", b"org"]);
    s.on_client_datagram(&mut r, &q, "client", 0, 0);
    let mut fast = q.clone();
    fast[2] = 0x81;
    let mut slow = fast.clone();
    slow.push(0);
    assert_eq!(s.on_upstream_datagram(&mut r, &fast, 5).map(|p| p.client), Some("client"));
    assert!(s.on_upstream_datagram(&mut r, &slow, 50).is_none());
    assert_eq!(s.pending_len(), 0);
}

#[test]
fn id_collision_overwrites_pending_entry() {
    let mut r = Resolver::new(Blocklist::empty());
    let mut s: UdpSession<u8> = UdpSession::new();
    let q1 = query_bytes(9, &[b"one", b"com"]);
    let q2 = query_bytes(9, &[b"two", b"com"]);
    s.on_client_datagram(&mut r, &q1, 1, 0, 0);
    s.on_client_datagram(&mut r, &q2, 2, 1, 1);
    assert_eq!(s.pending_len(), 1);
    let winner = s.on_upstream_datagram(&mut r, &q2, 2).unwrap();
    assert_eq!(winner.client, 2);
    assert_eq!(winner.domain, "two.com");
}

#[test]
fn short_datagrams_are_dropped() {
    let mut r = Resolver::new(Blocklist::empty());
    let mut s: UdpSession<u8> = UdpSession::new();
    assert!(matches!(s.on_client_datagram(&mut r, &[0u8; 11], 1, 0, 0), QueryAction::Invalid));
    assert!(s.on_upstream_datagram(&mut r, &[0u8; 11], 0).is_none());
    assert_eq!(s.pending_len(), 0);
}

#[test]
fn blocked_query_is_answered_without_pending_entry() {
    let mut r = Resolver::new(Blocklist::new());
    let mut s: UdpSession<u8> = UdpSession::new();
    let q = query_bytes(3, &[b"doubleclick", b"com"]);
    assert!(matches!(s.on_client_datagram(&mut r, &q, 1, 0, 0), QueryAction::Blocked { .. }));
    assert_eq!(s.pending_len(), 0);
}

#[test]
fn upstream_reply_fills_cache() {
    let mut r = Resolver::new(Blocklist::empty());
    let mut s: UdpSession<u8> = UdpSession::new();
    let q = query_bytes(5, &[b"cached", b"net"]);
    s.on_client_datagram(&mut r, &q, 1, 0, 0);
    s.on_upstream_datagram(&mut r, &q, 0);
    assert_eq!(r.cache_len(), 1);
    let again = query_bytes(6, &[b"cached", b"net"]);
    assert!(matches!(s.on_client_datagram(&mut r, &again, 1, 10, 10), QueryAction::Cached { .. }));
}

#[test]
fn tcp_framing() {
    assert_eq!(frame_message(&[1, 2, 3]), vec![0, 3, 1, 2, 3]);
    assert_eq!(frame_message(&[]), vec![0, 0]);
    assert!(!message_complete(&[0]));
    assert!(!message_complete(&[0, 3, 1, 2]));
    assert!(message_complete(&[0, 3, 1, 2, 3]));
    assert!(message_complete(&[0, 0]));
    assert_eq!(tcp_payload(&[0, 3, 1, 2, 3]), Some(&[1u8, 2, 3][..]));
    assert_eq!(tcp_payload(&[0, 0]), None);
}

#[test]
fn calendar_dates() {
    assert_eq!(days_to_ymd(0), (1970, 1, 1));
    assert_eq!(days_to_ymd(19782), (2024, 2, 29));
    assert_eq!(days_to_ymd(11322), (2000, 12, 31));
    assert_eq!(civil_from_unix(1_700_000_000), (2023, 11, 14, 22, 13, 20));
}

#[test]
fn leap_years() {
    assert!(is_leap_year(2000));
    assert!(is_leap_year(2024));
    assert!(!is_leap_year(1900));
    assert!(!is_leap_year(2023));
}

#[test]
fn protocol_names() {
    assert_eq!(Protocol::Tcp.as_str(), "TCP");
    assert_eq!(Protocol::Udp.as_str(), "UDP");
    assert_eq!(QueryLogger::new(Protocol::Udp).protocol(), Protocol::Udp);
}

#[test]
fn stats_counters_start_at_zero() {
    let mut s = Stats::new();
    s.record_cached(10);
    s.record_cached(20);
    assert_eq!(s.requests, 2);
    assert_eq!(s.cached, 2);
    let snap = s.snapshot_and_reset();
    assert_eq!(snap.avg_response_us(), 15);
    assert_eq!(s.requests, 0);
}

#[test]
fn echoed_queries_with_distinct_ids_are_each_delivered_once() {
    let mut r = Resolver::new(Blocklist::empty());
    let mut s: UdpSession<u32> = UdpSession::new();
    let qs: Vec<Vec<u8>> = (0u16..5)
        .map(|i| query_bytes(100 + i, &[format!("h{}", i).as_bytes(), b"net"]))
        .collect();
    for q in &qs {
        assert!(matches!(s.on_client_datagram(&mut r, q, 9, 0, 0), QueryAction::Forward { .. }));
    }
    for i in [3usize, 0, 4, 1, 2] {
        let d = s.on_upstream_datagram(&mut r, &qs[i], 1).unwrap();
        assert_eq!(d.client, 9);
        assert_eq!(d.domain, format!("h{}.net", i));
        assert_eq!(&qs[i][..2], &(100 + i as u16).to_be_bytes());
    }
    for q in &qs {
        assert!(s.on_upstream_datagram(&mut r, q, 2).is_none());
    }
    assert_eq!(s.pending_len(), 0);
    let snap = r.stats_snapshot_and_reset();
    assert_eq!(snap.requests, 0);
}

#[test]
fn pending_entry_keeps_caller_arrival_time() {
    let mut r = Resolver::new(Blocklist::empty());
    let mut s: UdpSession<u8> = UdpSession::new();
    let q = query_bytes(77, &[b"timing", b"org"]);
    s.on_client_datagram(&mut r, &q, 1, 5, 123_456);
    let d = s.on_upstream_datagram(&mut r, &q, 6).unwrap();
    assert_eq!(d.start_time, 123_456);
    assert_eq!(d.upstream_start, 123_456);
}
