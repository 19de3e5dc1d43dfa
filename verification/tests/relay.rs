use proxy_bridge::config::{ProxyConfig, ProxyType};
use proxy_bridge::connection::ConnectionTracker;
use proxy_bridge::proxy::http::build_connect_request;
use proxy_bridge::proxy::socks5::{build_socks5_udp_packet, Step};
use proxy_bridge::relay::{
    open_association, open_connection, proxy_endpoint, relays_udp, Opening, RelayError, UdpAction,
    UdpEvent, UdpRelay,
};

fn config(kind: ProxyType, credentials: bool) -> ProxyConfig {
    let mut c = ProxyConfig::new(kind, "proxy".to_string(), 1080);
    if credentials {
        c.username = Some("me".to_string());
        c.password = Some("pw".to_string());
    }
    c
}

#[test]
fn the_proxy_must_be_resolved() {
    let mut c = config(ProxyType::Socks5, false);
    let e = proxy_endpoint(&c).unwrap_err();
    assert_eq!(e, RelayError::Unresolved);
    assert_eq!(e.message(), "Proxy IP not resolved");
    c.resolved_ip = Some(7);
    assert_eq!(proxy_endpoint(&c), Ok((7, 1080)));
}

#[test]
fn connections_are_opened_as_the_proxy_asks() {
    match open_connection(&config(ProxyType::Http, true), 1, 2) {
        Opening::Http(text) => {
            assert_eq!(text, build_connect_request(1, 2, Some("me"), Some("pw")))
        }
        o => panic!("{o:?}"),
    }
    match open_connection(&config(ProxyType::Socks5, true), 0x04030201, 2) {
        Opening::Socks5(h, hello) => {
            assert_eq!(hello, [5, 2, 0, 2]);
            match h.reply(&[5, 0]) {
                Ok(Step::Send(_, request)) => {
                    assert_eq!(request, [5, 1, 0, 1, 1, 2, 3, 4, 0, 2])
                }
                r => panic!("{r:?}"),
            }
        }
        o => panic!("{o:?}"),
    }
    let (h, hello) = open_association(&config(ProxyType::Socks5, false));
    assert_eq!(hello, [5, 1, 0]);
    match h.reply(&[5, 0]) {
        Ok(Step::Send(_, request)) => assert_eq!(request, [5, 3, 0, 1, 0, 0, 0, 0, 0, 0]),
        r => panic!("{r:?}"),
    }
}

#[test]
fn only_socks5_takes_datagrams() {
    assert!(relays_udp(&config(ProxyType::Socks5, false)));
    assert!(!relays_udp(&config(ProxyType::Http, false)));
}

const QUIET: UdpEvent<'static> = UdpEvent::NothingFromClient;

#[test]
fn an_association_is_made_and_lost() {
    let t = ConnectionTracker::new();
    let mut r = UdpRelay::new();
    assert!(matches!(r.step(&t, UdpEvent::Begin), UdpAction::Associate));
    assert!(matches!(r.step(&t, UdpEvent::NotAssociated), UdpAction::Pause));
    assert!(matches!(r.step(&t, QUIET), UdpAction::EndRound));
    assert!(matches!(r.step(&t, UdpEvent::Begin), UdpAction::Associate));
    let made = UdpEvent::Associated { proxy_ip: 7, relay_ip: 9, relay_port: 80 };
    assert!(matches!(r.step(&t, made), UdpAction::HearClient));
    assert!(matches!(r.step(&t, QUIET), UdpAction::HearProxy));
    assert!(matches!(r.step(&t, UdpEvent::NothingFromProxy), UdpAction::EndRound));
    assert!(matches!(r.step(&t, UdpEvent::Begin), UdpAction::HearClient));
    assert!(matches!(r.step(&t, UdpEvent::Sent { ok: true }), UdpAction::HearProxy));
    assert!(matches!(r.step(&t, UdpEvent::Begin), UdpAction::HearClient));
    assert!(matches!(r.step(&t, UdpEvent::Sent { ok: false }), UdpAction::HearProxy));
    assert!(matches!(r.step(&t, UdpEvent::Begin), UdpAction::Associate));
}

#[test]
fn datagrams_travel_both_ways() {
    let mut t = ConnectionTracker::new();
    t.add(5000, 1, 0x08080808, 53);
    let mut r = UdpRelay::new();
    let query = UdpEvent::FromClient { port: 5000, data: b"q" };
    assert!(matches!(r.step(&t, query), UdpAction::EndRound));
    r.step(&t, UdpEvent::Associated { proxy_ip: 7, relay_ip: 9, relay_port: 80 });
    match r.step(&t, query) {
        UdpAction::Send { packet, ip, port } => {
            assert_eq!((ip, port), (9, 80));
            assert_eq!(packet, build_socks5_udp_packet(0x08080808, 53, b"q"));
        }
        a => panic!("{a:?}"),
    }
    let stranger = UdpEvent::FromClient { port: 5001, data: b"q" };
    assert!(matches!(r.step(&t, stranger), UdpAction::HearProxy));

    let answer = build_socks5_udp_packet(0x08080808, 53, b"answer");
    match r.step(&t, UdpEvent::FromProxy { data: &answer }) {
        UdpAction::Deliver { client_port, from } => {
            assert_eq!(client_port, 5000);
            assert_eq!(&answer[from..], b"answer");
        }
        a => panic!("{a:?}"),
    }
    let other = build_socks5_udp_packet(0x08080808, 54, b"x");
    assert!(matches!(r.step(&t, UdpEvent::FromProxy { data: &other }), UdpAction::EndRound));
    let short = UdpEvent::FromProxy { data: &answer[..9] };
    assert!(matches!(r.step(&t, short), UdpAction::EndRound));
}

#[test]
fn a_server_that_names_no_address_is_at_that_of_the_proxy() {
    let mut t = ConnectionTracker::new();
    t.add(5000, 1, 2, 3);
    let mut r = UdpRelay::new();
    r.step(&t, UdpEvent::Associated { proxy_ip: 7, relay_ip: 0, relay_port: 81 });
    match r.step(&t, UdpEvent::FromClient { port: 5000, data: b"" }) {
        UdpAction::Send { ip, port, .. } => assert_eq!((ip, port), (7, 81)),
        a => panic!("{a:?}"),
    }
}
