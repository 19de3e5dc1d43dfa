use proxy_bridge::addr::ip_from_octets;
use proxy_bridge::config::{
    ProxyConfig, ProxyType, RuleAction, RuleProtocol, IPPROTO_TCP, IPPROTO_UDP, TCP_MARK, UDP_MARK,
};
use proxy_bridge::connection::ConnectionTracker;
use proxy_bridge::packet::{
    describe_connection, has_foreign_owner, inspect, judge, judge_at, owner_name_source,
    parse_packet, settle_at, Owner, Packet, Verdict,
};
use proxy_bridge::process::NameSource;
use proxy_bridge::rule::{RuleEngine, RuleIds};

const SYN: u8 = 0x02;
const ACK: u8 = 0x10;

fn ip_packet(header_words: u8, protocol: u8, src_port: u16, dest: [u8; 4], dest_port: u16) -> Vec<u8> {
    let mut p = vec![0u8; header_words as usize * 4 + 20];
    p[0] = 0x40 | header_words;
    p[9] = protocol;
    p[12..16].copy_from_slice(&[10, 0, 0, 1]);
    p[16..20].copy_from_slice(&dest);
    let at = header_words as usize * 4;
    p[at..at + 2].copy_from_slice(&src_port.to_be_bytes());
    p[at + 2..at + 4].copy_from_slice(&dest_port.to_be_bytes());
    p
}

fn tcp(src_port: u16, dest: [u8; 4], dest_port: u16, flags: u8) -> Vec<u8> {
    let mut p = ip_packet(5, 6, src_port, dest, dest_port);
    p[33] = flags;
    p
}

fn udp(src_port: u16, dest: [u8; 4], dest_port: u16) -> Vec<u8> {
    ip_packet(5, 17, src_port, dest, dest_port)
}

fn engine(action: RuleAction) -> RuleEngine {
    let mut e = RuleEngine::new();
    e.add_rule(&mut RuleIds::new(), "curl", "*", "*", RuleProtocol::Both, action);
    e
}

const CURL: Owner<'static> = Owner { pid: 42, name: "/usr/bin/curl" };

#[test]
fn protocol_numbers() {
    assert_eq!(IPPROTO_TCP as i32, libc::IPPROTO_TCP);
    assert_eq!(IPPROTO_UDP as i32, libc::IPPROTO_UDP);
}

#[test]
fn packets_are_read() {
    let p = parse_packet(&tcp(40000, [8, 8, 4, 4], 443, SYN)).unwrap();
    assert_eq!(p.src_ip, ip_from_octets(10, 0, 0, 1));
    assert_eq!(p.dest_ip, ip_from_octets(8, 8, 4, 4));
    assert_eq!((p.src_port, p.dest_port, p.is_udp, p.is_syn), (40000, 443, false, true));
    assert!(!parse_packet(&tcp(1, [8, 8, 4, 4], 443, SYN | ACK)).unwrap().is_syn);
    assert!(!parse_packet(&tcp(1, [8, 8, 4, 4], 443, ACK)).unwrap().is_syn);
    assert!(parse_packet(&tcp(1, [8, 8, 4, 4], 443, 0xef)).unwrap().is_syn);
    let p = parse_packet(&udp(1, [8, 8, 4, 4], 53)).unwrap();
    assert!(p.is_udp && !p.is_syn);
    // With options, the ports stand further back.
    let p = parse_packet(&ip_packet(15, 17, 7, [1, 1, 1, 1], 9)).unwrap();
    assert_eq!((p.src_port, p.dest_port), (7, 9));
}

#[test]
fn short_and_other_packets_are_not_read() {
    assert_eq!(parse_packet(&[]), None);
    assert_eq!(parse_packet(&[0x45; 19]), None);
    assert_eq!(parse_packet(&tcp(1, [1, 1, 1, 1], 2, SYN)[..39]), None);
    assert!(parse_packet(&tcp(1, [1, 1, 1, 1], 2, SYN)[..40]).is_some());
    assert_eq!(parse_packet(&udp(1, [1, 1, 1, 1], 2)[..27]), None);
    assert!(parse_packet(&udp(1, [1, 1, 1, 1], 2)[..28]).is_some());
    assert_eq!(parse_packet(&ip_packet(5, 1, 1, [1, 1, 1, 1], 2)), None);
}

#[test]
fn owners_of_new_connections_are_looked_up() {
    let e = engine(RuleAction::Proxy);
    let t = ConnectionTracker::new();
    assert!(inspect(&tcp(1, [8, 8, 8, 8], 443, SYN), &e, &t, true).is_some());
    assert!(inspect(&udp(1, [8, 8, 8, 8], 443), &e, &t, true).is_some());
    assert_eq!(inspect(&tcp(1, [8, 8, 8, 8], 443, ACK), &e, &t, true), None);
    assert_eq!(inspect(&tcp(1, [8, 8, 8, 8], 443, SYN), &RuleEngine::new(), &t, true), None);
    assert_eq!(inspect(&[0; 5], &e, &t, true), None);
}

#[test]
fn packets_of_the_relays_pass() {
    let e = engine(RuleAction::Proxy);
    let t = ConnectionTracker::new();
    assert_eq!(inspect(&tcp(34010, [8, 8, 8, 8], 443, SYN), &e, &t, true), None);
    assert_eq!(inspect(&udp(34011, [8, 8, 8, 8], 443), &e, &t, true), None);
    assert!(inspect(&tcp(34011, [8, 8, 8, 8], 443, SYN), &e, &t, true).is_some());
    assert!(inspect(&udp(34010, [8, 8, 8, 8], 443), &e, &t, true).is_some());
}

#[test]
fn names_are_asked_for_directly_unless_told_otherwise() {
    let e = engine(RuleAction::Proxy);
    let t = ConnectionTracker::new();
    assert_eq!(inspect(&udp(1, [8, 8, 8, 8], 53), &e, &t, false), None);
    assert_eq!(inspect(&tcp(1, [8, 8, 8, 8], 53, SYN), &e, &t, false), None);
    assert!(inspect(&udp(1, [8, 8, 8, 8], 53), &e, &t, true).is_some());
    assert!(inspect(&udp(1, [8, 8, 8, 8], 54), &e, &t, false).is_some());
}

#[test]
fn own_and_unknown_processes_have_no_rules() {
    assert!(!has_foreign_owner(0, 7));
    assert!(!has_foreign_owner(7, 7));
    assert!(has_foreign_owner(8, 7));
    assert!(matches!(owner_name_source(0, 7), NameSource::Nowhere));
    assert!(matches!(owner_name_source(7, 7), NameSource::Nowhere));
    match owner_name_source(8, 7) {
        NameSource::Link(path) => assert_eq!(path, "/proc/8/exe"),
        s => panic!("{s:?}"),
    }
    assert!(matches!(owner_name_source(1, 7), NameSource::Known(_)));
    assert!(matches!(owner_name_source(1, 1), NameSource::Nowhere));
}

#[test]
fn a_proxied_connection_is_tracked_and_marked() {
    let e = engine(RuleAction::Proxy);
    let c = ProxyConfig::default();
    let mut t = ConnectionTracker::new();
    let payload = tcp(40000, [8, 8, 4, 4], 443, SYN);
    let p = inspect(&payload, &e, &t, true).unwrap();
    let (v, line) = judge(&p, Some(CURL), &e, &c, 0, &mut t);
    assert_eq!(v, Verdict::Mark(TCP_MARK));
    assert_eq!(line, None);
    assert_eq!(t.get(40000), Some((ip_from_octets(8, 8, 4, 4), 443)));
    assert_eq!(inspect(&payload, &e, &t, true), None);

    let p = inspect(&udp(40001, [8, 8, 4, 4], 443), &e, &t, true).unwrap();
    assert_eq!(judge(&p, Some(CURL), &e, &c, 0, &mut t).0, Verdict::Mark(UDP_MARK));
    assert!(t.is_tracked(40001));
}

#[test]
fn other_processes_pass_and_blocked_ones_do_not() {
    let c = ProxyConfig::default();
    let mut t = ConnectionTracker::new();
    let p = parse_packet(&tcp(40000, [8, 8, 4, 4], 443, SYN)).unwrap();
    let wget = Owner { pid: 43, name: "/usr/bin/wget" };
    let e = engine(RuleAction::Proxy);
    assert_eq!(judge(&p, Some(wget), &e, &c, 0, &mut t).0, Verdict::Accept);
    assert_eq!(judge(&p, None, &e, &c, 3, &mut t), (Verdict::Accept, None));
    let e = engine(RuleAction::Block);
    assert_eq!(judge(&p, Some(CURL), &e, &c, 0, &mut t).0, Verdict::Drop);
    assert_eq!(judge(&p, Some(wget), &e, &c, 0, &mut t).0, Verdict::Accept);
    assert_eq!(judge(&p, None, &e, &c, 0, &mut t).0, Verdict::Accept);
    assert!(!t.is_tracked(40000));
}

#[test]
fn what_the_proxy_cannot_take_passes() {
    let mut t = ConnectionTracker::new();
    let c = ProxyConfig::default();
    let e = engine(RuleAction::Proxy);
    let verdict = |p: &Packet, c: &ProxyConfig, t: &mut ConnectionTracker| {
        judge_at(p, Some(CURL), &e, c, 0, t, 0).0
    };
    let local = parse_packet(&tcp(1, [127, 0, 0, 1], 80, SYN)).unwrap();
    assert_eq!(verdict(&local, &c, &mut t), Verdict::Accept);
    for port in [67, 68] {
        let dhcp = parse_packet(&udp(1, [8, 8, 4, 4], port)).unwrap();
        assert_eq!(verdict(&dhcp, &c, &mut t), Verdict::Accept);
        let other = parse_packet(&tcp(1, [8, 8, 4, 4], port, SYN)).unwrap();
        assert_eq!(verdict(&other, &c, &mut t), Verdict::Mark(1));
        t.clear();
    }
    let http = ProxyConfig::new(ProxyType::Http, "h".to_string(), 80);
    let datagram = parse_packet(&udp(1, [8, 8, 4, 4], 443)).unwrap();
    assert_eq!(verdict(&datagram, &http, &mut t), Verdict::Accept);
    assert_eq!(verdict(&datagram, &c, &mut t), Verdict::Mark(2));
    t.clear();
    let syn = parse_packet(&tcp(1, [8, 8, 4, 4], 443, SYN)).unwrap();
    assert_eq!(verdict(&syn, &http, &mut t), Verdict::Mark(1));
    t.clear();
    let nameless = ProxyConfig::new(ProxyType::Socks5, String::new(), 80);
    assert_eq!(verdict(&syn, &nameless, &mut t), Verdict::Accept);
    let portless = ProxyConfig::new(ProxyType::Socks5, "h".to_string(), 0);
    assert_eq!(verdict(&syn, &portless, &mut t), Verdict::Accept);
    assert!(!t.is_tracked(1));
    // A block holds for all of them.
    assert_eq!(settle_at(&local, RuleAction::Block, &c, &mut t, 0), Verdict::Drop);
}

#[test]
fn connections_are_reported() {
    let mut t = ConnectionTracker::new();
    let c = ProxyConfig::default();
    let p = parse_packet(&udp(1, [8, 8, 4, 4], 443)).unwrap();
    let e = engine(RuleAction::Proxy);
    assert_eq!(judge(&p, Some(CURL), &e, &c, 1, &mut t).1, None);
    assert_eq!(
        judge(&p, Some(CURL), &e, &c, 2, &mut t).1.as_deref(),
        Some("[CONN] curl (PID:42) -> 8.8.4.4:443 via proxy socks5://127.0.0.1:4444 udp")
    );
    let p = parse_packet(&tcp(1, [8, 8, 4, 4], 443, SYN)).unwrap();
    let http = ProxyConfig::new(ProxyType::Http, "h".to_string(), 80);
    let line = |action| describe_connection("x", 1, &p, action, &http);
    assert_eq!(line(RuleAction::Proxy), "[CONN] x (PID:1) -> 8.8.4.4:443 via proxy http://h:80 tcp");
    assert_eq!(line(RuleAction::Direct), "[CONN] x (PID:1) -> 8.8.4.4:443 via direct tcp");
    assert_eq!(line(RuleAction::Block), "[CONN] x (PID:1) -> 8.8.4.4:443 via blocked tcp");
}
