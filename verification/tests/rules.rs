use proxy_bridge::config::{RuleAction, RuleProtocol};
use proxy_bridge::rule::{
    format_ip, match_ip_list, match_ip_pattern, match_port_list, match_port_pattern,
    match_process_list, match_process_pattern, parse_rule_str, RuleEngine, RuleIds,
};
use proxy_bridge::rule_text::{
    action_from_word, protocol_from_word, rule_from_fields, RuleParseError,
};

const DNS: u32 = 0x08080808;

#[test]
fn test_match_process_pattern() {
    assert!(match_process_pattern("*", "/usr/bin/curl"));
    assert!(match_process_pattern("curl", "/usr/bin/curl"));
    assert!(match_process_pattern("curl", "curl"));
    assert!(match_process_pattern("cur*", "/usr/bin/curl"));
    assert!(match_process_pattern("*rl", "/usr/bin/curl"));
    assert!(!match_process_pattern("wget", "/usr/bin/curl"));
    assert!(match_process_pattern("fire*", "/usr/bin/firefox"));
    assert!(match_process_pattern("*fox", "/usr/bin/firefox"));
}

#[test]
fn test_match_process_list() {
    assert!(match_process_list("curl;wget", "/usr/bin/curl"));
    assert!(match_process_list("curl;wget", "/usr/bin/wget"));
    assert!(!match_process_list("curl;wget", "/usr/bin/firefox"));
    assert!(match_process_list("*", "/usr/bin/anything"));
}

#[test]
fn test_match_ip_pattern() {
    // 192.168.1.100 in network byte order
    let ip = 192 | (168 << 8) | (1 << 16) | (100 << 24);
    assert!(match_ip_pattern("*", ip));
    assert!(match_ip_pattern("192.168.1.100", ip));
    assert!(match_ip_pattern("192.168.*.*", ip));
    assert!(match_ip_pattern("192.168.1.50-200", ip));
    assert!(!match_ip_pattern("10.0.0.1", ip));
}

#[test]
fn test_match_port_pattern() {
    assert!(match_port_pattern("*", 443));
    assert!(match_port_pattern("443", 443));
    assert!(match_port_pattern("80-8080", 443));
    assert!(!match_port_pattern("80", 443));
    assert!(!match_port_pattern("1-80", 443));
}

#[test]
fn test_match_port_list() {
    assert!(match_port_list("80;443", 443));
    assert!(match_port_list("80,443", 443));
    assert!(match_port_list("80-8080", 443));
    assert!(!match_port_list("80;8080", 443));
}

#[test]
fn test_parse_rule_str() {
    let (proc, hosts, ports, proto, action) =
        parse_rule_str("curl:*:*:TCP:PROXY").unwrap();
    assert_eq!(proc, "curl");
    assert_eq!(hosts, "*");
    assert_eq!(ports, "*");
    assert_eq!(proto, RuleProtocol::Tcp);
    assert_eq!(action, RuleAction::Proxy);
}

#[test]
fn test_rule_engine() {
    let mut engine = RuleEngine::new();
    let mut ids = RuleIds::new();
    let id = engine.add_rule(&mut ids, "curl", "*", "*", RuleProtocol::Tcp, RuleAction::Proxy);
    assert!(id > 0);
    assert!(engine.has_active_rules());

    // Match: curl TCP should proxy
    let action = engine.match_rule("/usr/bin/curl", 0x08080808, 443, false);
    assert_eq!(action, RuleAction::Proxy);

    // No match: wget should be direct
    let action = engine.match_rule("/usr/bin/wget", 0x08080808, 443, false);
    assert_eq!(action, RuleAction::Direct);

    // Disable rule
    engine.disable_rule(id);
    assert!(!engine.has_active_rules());
}

#[test]
fn process_names_are_compared_without_case() {
    assert!(match_process_pattern("CURL", "/usr/bin/curl"));
    assert!(match_process_pattern("curl", "/usr/bin/CuRL"));
    assert!(match_process_pattern("FIRE*", "/opt/Firefox"));
    assert!(match_process_list("WGET;Curl", "/usr/bin/cURL"));
    assert!(!match_process_pattern("ÜBER", "über"));
}

#[test]
fn patterns_with_a_slash_are_for_the_whole_path() {
    assert!(match_process_pattern("/usr/bin/curl", "/usr/bin/curl"));
    assert!(!match_process_pattern("/usr/bin/curl", "/opt/bin/curl"));
    assert!(match_process_pattern("/usr/*", "/usr/bin/curl"));
    assert!(match_process_pattern("*/curl", "/usr/bin/curl"));
    assert!(!match_process_pattern("*bin/curl", "/usr/sbin/wget"));
    assert!(!match_process_pattern("usr*", "/usr/bin/curl"));
}

#[test]
fn odd_process_patterns() {
    assert!(!match_process_pattern("", "/usr/bin/curl"));
    assert!(match_process_pattern("", "/usr/bin/"));
    assert!(match_process_pattern("**", "*x"));
    assert!(!match_process_pattern("**", "x"));
    assert!(match_process_pattern("ü*", "/bin/über"));
    assert!(!match_process_pattern("abcdef*", "abc"));
    assert!(!match_process_pattern("*abcdef", "def"));
    assert!(match_process_list(" curl ; wget ", "/usr/bin/wget"));
    assert!(!match_process_list("", "/usr/bin/wget"));
}

#[test]
fn a_list_of_processes_covers_what_its_parts_cover() {
    for path in ["/bin/a", "/bin/b", "/bin/c", "/bin/d"] {
        let whole = match_process_list("a;b;c", path);
        let parts = match_process_list("a", path) || match_process_list("b;c", path);
        assert_eq!(whole, parts);
    }
}

#[test]
fn address_patterns() {
    let ip = 10 | (20 << 8) | (30 << 16) | (40 << 24);
    assert!(match_ip_pattern(&format_ip(ip), ip));
    assert!(!match_ip_pattern(&format_ip(ip), ip + 1));
    assert!(match_ip_pattern("10.20.30.1-255", ip));
    assert!(!match_ip_pattern("10.20.30.41-255", ip));
    assert!(!match_ip_pattern("10.20.30", ip));
    assert!(!match_ip_pattern("10.20.30.40.50", ip));
    assert!(!match_ip_pattern("", ip));
    // What is no number counts as 255, and as 0 in a range.
    assert!(match_ip_pattern("10.20.30.x", 10 | (20 << 8) | (30 << 16) | (255 << 24)));
    assert!(match_ip_pattern("10.20.30.x-50", ip));
    assert!(!match_ip_pattern("10.20.30.30-x", ip));
}

#[test]
fn address_lists() {
    let ip = 10 | (20 << 8) | (30 << 16) | (40 << 24);
    assert!(match_ip_list("", ip));
    assert!(match_ip_list("*", ip));
    assert!(match_ip_list("1.2.3.4; 10.*.*.*", ip));
    assert!(!match_ip_list("1.2.3.4;5.6.7.8", ip));
    assert!(!match_ip_list(";", ip));
}

#[test]
fn port_patterns_and_lists() {
    assert!(match_port_pattern("1024-65535", 1024));
    assert!(match_port_pattern("1024-65535", 65535));
    assert!(!match_port_pattern("1024-65535", 1023));
    // What is no number counts as 0.
    assert!(match_port_pattern("http", 0));
    assert!(!match_port_pattern("http", 80));
    assert!(match_port_pattern("-80", 80));
    assert!(!match_port_pattern("80-", 80));
    assert!(match_port_list("", 443));
    assert!(match_port_list("*", 443));
    assert!(match_port_list("22; 80 , 443", 443));
    assert!(match_port_list(";", 0));
    assert!(!match_port_list(";", 1));
    for port in [0u16, 79, 80, 443, 444] {
        assert_eq!(match_port_pattern("443", port), port == 443);
        let parts = match_port_list("80", port) || match_port_list("443", port);
        assert_eq!(match_port_list("80,443", port), parts);
        assert_eq!(match_port_list("80;443", port), parts);
    }
}

#[test]
fn a_star_covers_everything() {
    for port in [0u16, 53, 65535] {
        assert!(match_port_list("*", port));
    }
    for ip in [0u32, DNS, u32::MAX] {
        assert!(match_ip_list("*", ip));
    }
    for path in ["", "/", "/usr/bin/x"] {
        assert!(match_process_list("*", path));
    }
}

#[test]
fn rules_are_read_in_either_case() {
    let (process, hosts, ports, protocol, action) =
        parse_rule_str("curl;wget:10.0.0.1-255:80,443:both:Block").unwrap();
    assert_eq!(process, "curl;wget");
    assert_eq!(hosts, "10.0.0.1-255");
    assert_eq!(ports, "80,443");
    assert_eq!(protocol, RuleProtocol::Both);
    assert_eq!(action, RuleAction::Block);
    let (_, _, _, protocol, action) = parse_rule_str("a:b:c:uDp:direct").unwrap();
    assert_eq!(protocol, RuleProtocol::Udp);
    assert_eq!(action, RuleAction::Direct);
}

#[test]
fn empty_fields_stand_for_all() {
    let (process, hosts, ports, _, _) = parse_rule_str(":::tcp:proxy").unwrap();
    assert_eq!((process.as_str(), hosts.as_str(), ports.as_str()), ("*", "*", "*"));
}

#[test]
fn what_is_no_rule_is_refused() {
    match parse_rule_str("curl:*:*:TCP") {
        Err(e @ RuleParseError::Format(_)) => assert_eq!(
            e.message(),
            "Invalid rule format 'curl:*:*:TCP'. Expected: process:hosts:ports:protocol:action"
        ),
        r => panic!("{r:?}"),
    }
    assert!(matches!(parse_rule_str(""), Err(RuleParseError::Format(_))));
    assert!(matches!(parse_rule_str("a:b:c:d:e:f"), Err(RuleParseError::Format(_))));
    match parse_rule_str("curl:*:*:icmp:nope") {
        Err(e @ RuleParseError::Protocol(_)) => {
            assert_eq!(e.message(), "Invalid protocol 'ICMP'. Use TCP, UDP, or BOTH")
        }
        r => panic!("{r:?}"),
    }
    match parse_rule_str("curl:*:*:tcp:nope") {
        Err(e @ RuleParseError::Action(_)) => {
            assert_eq!(e.message(), "Invalid action 'NOPE'. Use PROXY, DIRECT, or BLOCK")
        }
        r => panic!("{r:?}"),
    }
    // Upper case beyond ASCII
    match parse_rule_str("curl:*:*:straße:proxy") {
        Err(RuleParseError::Protocol(s)) => assert_eq!(s, "STRASSE"),
        r => panic!("{r:?}"),
    }
}

#[test]
fn words_and_fields() {
    assert_eq!(protocol_from_word("BOTH"), Some(RuleProtocol::Both));
    assert_eq!(protocol_from_word("tcp"), None);
    assert_eq!(action_from_word("DIRECT"), Some(RuleAction::Direct));
    assert_eq!(action_from_word("direct"), None);
    let parts = rule_from_fields("", "h", "", "UDP".to_string(), "BLOCK".to_string()).unwrap();
    assert_eq!(
        parts,
        (
            "*".to_string(),
            "h".to_string(),
            "*".to_string(),
            RuleProtocol::Udp,
            RuleAction::Block
        )
    );
}

#[test]
fn the_first_matching_rule_decides() {
    let mut engine = RuleEngine::new();
    let mut ids = RuleIds::new();
    engine.add_rule(&mut ids, "curl", "*", "443", RuleProtocol::Both, RuleAction::Block);
    engine.add_rule(&mut ids, "curl", "*", "*", RuleProtocol::Both, RuleAction::Proxy);
    assert_eq!(engine.match_rule("/usr/bin/curl", DNS, 443, false), RuleAction::Block);
    assert_eq!(engine.match_rule("/usr/bin/CURL", DNS, 443, false), RuleAction::Block);
    assert_eq!(engine.match_rule("/usr/bin/curl", DNS, 80, false), RuleAction::Proxy);
}

#[test]
fn a_rule_for_everything_decides_in_its_place() {
    let mut engine = RuleEngine::new();
    let mut ids = RuleIds::new();
    engine.add_rule(&mut ids, "*", "*", "*", RuleProtocol::Both, RuleAction::Block);
    engine.add_rule(&mut ids, "curl", "*", "*", RuleProtocol::Both, RuleAction::Proxy);
    assert_eq!(engine.match_rule("/usr/bin/curl", 0x08080808, 443, false), RuleAction::Block);

    let mut engine = RuleEngine::new();
    engine.add_rule(&mut ids, "ssh", "*", "*", RuleProtocol::Both, RuleAction::Direct);
    engine.add_rule(&mut ids, "ANY", "*", "*", RuleProtocol::Tcp, RuleAction::Proxy);
    engine.add_rule(&mut ids, "*", "*", "*", RuleProtocol::Both, RuleAction::Block);
    assert_eq!(engine.match_rule("/usr/bin/ssh", DNS, 22, false), RuleAction::Direct);
    assert_eq!(engine.match_rule("/usr/bin/curl", DNS, 22, false), RuleAction::Proxy);
    assert_eq!(engine.match_rule("/usr/bin/curl", DNS, 22, true), RuleAction::Block);
}

#[test]
fn rules_for_any_process() {
    let mut engine = RuleEngine::new();
    let mut ids = RuleIds::new();
    engine.add_rule(&mut ids, "any", "8.8.8.8", "", RuleProtocol::Udp, RuleAction::Block);
    assert_eq!(engine.match_rule("/bin/x", DNS, 53, true), RuleAction::Block);
    assert_eq!(engine.match_rule("/bin/x", DNS, 53, false), RuleAction::Direct);
    assert_eq!(engine.match_rule("/bin/x", 1, 53, true), RuleAction::Direct);
}

#[test]
fn a_rule_without_a_process_is_refused() {
    let mut engine = RuleEngine::default();
    let mut ids = RuleIds::new();
    assert_eq!(engine.add_rule(&mut ids, "", "*", "*", RuleProtocol::Both, RuleAction::Block), 0);
    assert!(!engine.has_active_rules());
    assert_eq!(engine.add_rule(&mut ids, "a", "*", "*", RuleProtocol::Both, RuleAction::Block), 1);
    assert_eq!(engine.add_rule(&mut ids, "b", "*", "*", RuleProtocol::Both, RuleAction::Block), 2);
}

#[test]
fn a_disabled_rule_is_as_good_as_deleted() {
    let mut engine = RuleEngine::new();
    let mut ids = RuleIds::new();
    let a = engine.add_rule(&mut ids, "curl", "*", "*", RuleProtocol::Both, RuleAction::Proxy);
    let b = engine.add_rule(&mut ids, "curl", "*", "*", RuleProtocol::Both, RuleAction::Block);
    assert!(engine.disable_rule(a));
    assert_eq!(engine.match_rule("curl", DNS, 80, true), RuleAction::Block);
    assert!(engine.enable_rule(a));
    assert_eq!(engine.match_rule("curl", DNS, 80, true), RuleAction::Proxy);
    assert!(engine.delete_rule(a));
    assert_eq!(engine.match_rule("curl", DNS, 80, true), RuleAction::Block);
    assert!(!engine.delete_rule(a));
    assert!(!engine.enable_rule(a));
    assert!(!engine.disable_rule(77));
    assert!(engine.delete_rule(b));
    assert!(!engine.has_active_rules());
    assert_eq!(engine.match_rule("curl", DNS, 80, true), RuleAction::Direct);
}

#[test]
fn no_two_rules_of_a_program_have_the_same_id() {
    let mut ids = RuleIds::new();
    let mut a = RuleEngine::new();
    let mut b = RuleEngine::new();
    let mut last = 0;
    for i in 0..6 {
        let engine = if i % 2 == 0 { &mut a } else { &mut b };
        let id = engine.add_rule(&mut ids, "curl", "*", "*", RuleProtocol::Both, RuleAction::Block);
        assert!(id > last);
        last = id;
        if i == 2 {
            // An id is not given again once its rule is deleted.
            assert!(engine.delete_rule(id));
        }
        let refused = engine.add_rule(&mut ids, "", "*", "*", RuleProtocol::Both, RuleAction::Block);
        assert_eq!(refused, 0);
    }
    assert_eq!(last, 6);
    assert!(!a.delete_rule(2));
    assert!(b.delete_rule(2));
    assert_eq!(ids.take(), 7);
}
