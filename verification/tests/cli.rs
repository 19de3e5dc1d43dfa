use proxy_bridge::cli::{
    auth_line, dns_line, host_and_port, load_rule, log_filter, parse_proxy_url, proxy_config,
    proxy_from_parts, proxy_line, proxy_type_from_word, CliArgs, ProxyUrlError, CONNECTION_LOG,
    VERSION,
};
use proxy_bridge::config::{ProxyConfig, ProxyType, RuleAction};
use proxy_bridge::rule::{RuleEngine, RuleIds};

#[test]
fn test_parse_proxy_url_socks5() {
    let parsed = parse_proxy_url("socks5://127.0.0.1:1080").unwrap();
    assert_eq!(parsed.proxy_type, ProxyType::Socks5);
    assert_eq!(parsed.host, "127.0.0.1");
    assert_eq!(parsed.port, 1080);
    assert!(parsed.username.is_none());
}

#[test]
fn test_parse_proxy_url_http_with_auth() {
    let parsed = parse_proxy_url("http://proxy.com:8080:user:pass").unwrap();
    assert_eq!(parsed.proxy_type, ProxyType::Http);
    assert_eq!(parsed.host, "proxy.com");
    assert_eq!(parsed.port, 8080);
    assert_eq!(parsed.username.as_deref(), Some("user"));
    assert_eq!(parsed.password.as_deref(), Some("pass"));
}

#[test]
fn test_parse_proxy_url_invalid() {
    assert!(parse_proxy_url("invalid").is_err());
    assert!(parse_proxy_url("ftp://host:80").is_err());
}

fn message(url: &str) -> String {
    match parse_proxy_url(url) {
        Ok(p) => panic!("{p:?}"),
        Err(e) => e.message(),
    }
}

#[test]
fn each_fault_of_a_url_has_its_message() {
    assert_eq!(message(""), "Invalid proxy URL format. Expected type://host:port");
    assert_eq!(message("socks5:/a"), "Invalid proxy URL format. Expected type://host:port");
    assert_eq!(message("ftp://h:1"), "Invalid proxy type 'FTP'. Use 'socks5' or 'http'");
    assert_eq!(message("straße://h:1"), "Invalid proxy type 'STRASSE'. Use 'socks5' or 'http'");
    assert_eq!(message("://h:1"), "Invalid proxy type ''. Use 'socks5' or 'http'");
    assert_eq!(message("http://host"), "Invalid proxy URL. Missing host or port");
    assert_eq!(message("http://host:0"), "Invalid proxy port '0'");
    assert_eq!(message("http://host:00"), "Invalid proxy port '0'");
    assert_eq!(message("http://host:65536"), "Invalid proxy port '65536'");
    assert_eq!(message("http://host:"), "Invalid proxy port ''");
}

#[test]
fn a_url_is_read_back() {
    for (scheme, kind) in [("SOCKS5", ProxyType::Socks5), ("hTtP", ProxyType::Http)] {
        let p = parse_proxy_url(&format!("{scheme}://example.org:65535")).unwrap();
        assert_eq!((p.proxy_type, p.host.as_str(), p.port), (kind, "example.org", 65535));
        assert_eq!((p.username, p.password), (None, None));
        let p = parse_proxy_url(&format!("{scheme}://h:1:me:")).unwrap();
        assert_eq!((p.username.as_deref(), p.password.as_deref()), (Some("me"), Some("")));
    }
    // Three parts give no credentials; a fifth is left out.
    let p = parse_proxy_url("http://h:1:me").unwrap();
    assert_eq!((p.username, p.password), (None, None));
    let p = parse_proxy_url("http://h:1:me:pw:more").unwrap();
    assert_eq!(p.password.as_deref(), Some("pw"));
    let p = parse_proxy_url("http://:1").unwrap();
    assert_eq!(p.host, "");
}

#[test]
fn scheme_words_and_rests() {
    assert_eq!(proxy_type_from_word("HTTP"), Some(ProxyType::Http));
    assert_eq!(proxy_type_from_word("http"), None);
    assert_eq!(proxy_from_parts("HTTP".to_string(), "h:8").unwrap().port, 8);
    match proxy_from_parts("Http".to_string(), "h:8") {
        Err(ProxyUrlError::UnknownType(s)) => assert_eq!(s, "Http"),
        r => panic!("{r:?}"),
    }
}

#[test]
fn default_configuration() {
    let c = ProxyConfig::default();
    assert_eq!((c.proxy_type, c.host.as_str(), c.port), (ProxyType::Socks5, "127.0.0.1", 4444));
    assert!(!c.has_auth());
    assert_eq!(c.resolved_ip, None);
}

#[test]
fn start_up_lines() {
    assert_eq!(VERSION, "0.1.0");
    let parsed = parse_proxy_url("http://proxy.com:8080:user:pass").unwrap();
    let c = proxy_config(parsed, Some(7));
    assert!(c.has_auth());
    assert_eq!(c.resolved_ip, Some(7));
    assert_eq!(proxy_line(&c), "Proxy: http://proxy.com:8080");
    assert_eq!(auth_line(&c).as_deref(), Some("Proxy Auth: user:***"));
    assert_eq!(auth_line(&ProxyConfig::default()), None);
    assert_eq!(proxy_line(&ProxyConfig::default()), "Proxy: socks5://127.0.0.1:4444");
    assert_eq!(dns_line(true), "DNS via Proxy: Enabled");
    assert_eq!(dns_line(false), "DNS via Proxy: Disabled");
    assert_eq!(host_and_port("h", 80), "h:80");
}

#[test]
fn verbosity_sets_the_log_filter() {
    assert_eq!(log_filter(0), "off");
    assert_eq!(log_filter(1), "info");
    assert_eq!(log_filter(2), format!("off,{CONNECTION_LOG}=info"));
    assert_eq!(log_filter(3), "debug");
    assert_eq!(log_filter(255), "debug");
}

#[test]
fn rules_of_the_command_line_are_loaded() {
    let args = CliArgs {
        proxy: "socks5://127.0.0.1:4444".to_string(),
        rule: vec!["curl:*:*:tcp:proxy".to_string(), "wget::80::".to_string()],
        dns_via_proxy: true,
        verbose: 0,
        cleanup: false,
    };
    let mut engine = RuleEngine::new();
    let mut ids = RuleIds::new();
    let line = load_rule(&args.rule[0], &mut engine, &mut ids).unwrap();
    assert_eq!(line.as_deref(), Some("  [1] curl:*:*:TCP -> PROXY"));
    assert!(load_rule(&args.rule[1], &mut engine, &mut ids).is_err());
    let line = load_rule("a:b::both:block", &mut engine, &mut ids).unwrap();
    assert_eq!(line.as_deref(), Some("  [2] a:b:*:BOTH -> BLOCK"));
    assert_eq!(engine.match_rule("/usr/bin/curl", 1, 2, false), RuleAction::Proxy);
}
