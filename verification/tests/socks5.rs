use proxy_bridge::proxy::socks5::{
    build_socks5_udp_packet, parse_socks5_udp_packet, Established, Handshake, Socks5Error,
    Socks5Request, Step,
};

const CONNECT: Socks5Request = Socks5Request::Connect { dest_ip: 0x04030201, dest_port: 0x1f90 };
const ASSOCIATE: Socks5Request = Socks5Request::UdpAssociate;

fn start(request: Socks5Request, with_password: bool) -> (Handshake, Vec<u8>) {
    if with_password {
        Handshake::start(request, Some("me"), Some("pässword"))
    } else {
        Handshake::start(request, None, None)
    }
}

fn sends(step: Result<Step, Socks5Error>) -> (Handshake, Vec<u8>) {
    match step {
        Ok(Step::Send(next, bytes)) => (next, bytes),
        r => panic!("{r:?}"),
    }
}

fn waits(step: Result<Step, Socks5Error>) -> Handshake {
    match step {
        Ok(Step::Await(next)) => next,
        r => panic!("{r:?}"),
    }
}

fn ends(step: Result<Step, Socks5Error>) -> Established {
    match step {
        Ok(Step::Done(e)) => e,
        r => panic!("{r:?}"),
    }
}

fn fails(step: Result<Step, Socks5Error>) -> Socks5Error {
    match step {
        Err(e) => e,
        r => panic!("{r:?}"),
    }
}

#[test]
fn a_connection_without_credentials() {
    let (h, hello) = start(CONNECT, false);
    assert_eq!(hello, [5, 1, 0]);
    assert_eq!(h.awaited(), 2);
    let (h, request) = sends(h.reply(&[5, 0]));
    assert_eq!(request, [5, 1, 0, 1, 1, 2, 3, 4, 0x1f, 0x90]);
    assert_eq!(h.awaited(), 4);
    let h = waits(h.reply(&[5, 0, 0, 1]));
    assert_eq!(h.awaited(), 6);
    assert_eq!(ends(h.reply(&[1, 1, 1, 1, 1, 1])), Established::Connected);
}

#[test]
fn a_connection_with_credentials() {
    let (h, hello) = start(CONNECT, true);
    assert_eq!(hello, [5, 2, 0, 2]);
    let (h, auth) = sends(h.reply(&[5, 2]));
    let mut want = vec![1, 2];
    want.extend_from_slice(b"me");
    want.push(9);
    want.extend_from_slice("pässword".as_bytes());
    assert_eq!(auth, want);
    assert_eq!(h.awaited(), 2);
    let (h, request) = sends(h.reply(&[1, 0]));
    assert_eq!(request.len(), 10);
    let h = waits(h.reply(&[5, 0, 0, 1]));
    assert_eq!(ends(h.reply(&[0, 0, 0, 0, 0, 0])), Established::Connected);
}

/// Carries a handshake through with a server that sends the given bytes: how it ends, and
/// how many of them it takes.
fn run(h: Handshake, stream: &[u8]) -> (Result<Established, Socks5Error>, usize) {
    let mut h = h;
    let mut taken = 0;
    loop {
        let n = h.awaited();
        let reply = &stream[taken..taken + n];
        taken += n;
        h = match h.reply(reply) {
            Ok(Step::Send(next, _)) => next,
            Ok(Step::Await(next)) => next,
            Ok(Step::Done(e)) => return (Ok(e), taken),
            Err(e) => return (Err(e), taken),
        };
    }
}

#[test]
fn the_whole_answer_is_taken_whatever_address_is_in_it() {
    let v4: &[u8] = &[1, 10, 0, 0, 1, 0, 80];
    let v6: &[u8] = &[4, 0, 1, 2, 3, 4, 5, 6, 7, 8, 9, 10, 11, 12, 13, 14, 15, 0, 80];
    let name: &[u8] = &[3, 5, b'p', b'r', b'o', b'x', b'y', 0, 80];
    let nameless: &[u8] = &[3, 0, 0, 80];
    let other: &[u8] = &[9, 10, 0, 0, 1, 0, 80];
    for address in [v4, v6, name, nameless, other] {
        let stream = [&[5, 0, 5, 0, 0][..], address, b"data"].concat();
        let (h, _) = start(CONNECT, true);
        let (end, taken) = run(h, &stream);
        assert_eq!(end, Ok(Established::Connected));
        assert_eq!(&stream[taken..], b"data");
    }
    let mut long = vec![5, 2, 1, 0, 5, 0, 0, 3, 255];
    long.resize(long.len() + 257, b'x');
    let n = long.len();
    long.extend_from_slice(b"data");
    let (h, _) = start(CONNECT, true);
    assert_eq!(run(h, &long), (Ok(Established::Connected), n));
}

#[test]
fn credentials_are_not_shown_unasked() {
    let (h, _) = start(CONNECT, true);
    let (_, request) = sends(h.reply(&[5, 0]));
    assert_eq!(request[..4], [5, 1, 0, 1]);
}

#[test]
fn half_credentials_are_none() {
    let (h, hello) = Handshake::start(CONNECT, Some("me"), None);
    assert_eq!(hello, [5, 1, 0]);
    assert_eq!(fails(h.reply(&[5, 2])), Socks5Error::Method(2));
    let (_, hello) = Handshake::start(CONNECT, None, Some("pw"));
    assert_eq!(hello, [5, 1, 0]);
}

#[test]
fn long_credentials_have_their_length_cut_to_a_byte() {
    let long = "x".repeat(258);
    let (h, _) = Handshake::start(CONNECT, Some(&long), Some(""));
    let (_, auth) = sends(h.reply(&[5, 2]));
    assert_eq!(auth[..2], [1, 2]);
    assert_eq!(auth.len(), 2 + 258 + 1);
    assert_eq!(auth[260], 0);
}

#[test]
fn an_association() {
    let (h, _) = start(ASSOCIATE, false);
    let (h, request) = sends(h.reply(&[5, 0]));
    assert_eq!(request, [5, 3, 0, 1, 0, 0, 0, 0, 0, 0]);
    let h = waits(h.reply(&[5, 0, 0, 1]));
    let e = ends(h.reply(&[10, 20, 30, 40, 0x12, 0x34]));
    assert_eq!(e, Established::Associated { relay_ip: 0x281e140a, relay_port: 0x1234 });
}

fn message(e: Socks5Error, request: Socks5Request) -> String {
    e.message(&request)
}

#[test]
fn a_connection_fails_in_each_way() {
    let (h, _) = start(CONNECT, false);
    let e = fails(h.reply(&[4, 0]));
    assert_eq!(e, Socks5Error::MethodVersion(4));
    assert_eq!(message(e, CONNECT), "socks5: invalid version in auth response: 4");

    let (h, _) = start(CONNECT, true);
    let e = fails(h.reply(&[5, 255]));
    assert_eq!(e, Socks5Error::Method(255));
    assert_eq!(message(e, CONNECT), "socks5: unsupported auth method: 255");

    for reply in [[1, 1], [5, 0]] {
        let (h, _) = start(CONNECT, true);
        let (h, _) = sends(h.reply(&[5, 2]));
        let e = fails(h.reply(&reply));
        assert_eq!(e, Socks5Error::Refused);
        assert_eq!(message(e, CONNECT), "socks5: authentication failed");
    }

    let (h, _) = start(CONNECT, false);
    let (h, _) = sends(h.reply(&[5, 0]));
    let e = fails(h.reply(&[4, 1, 0, 1]));
    assert_eq!(e, Socks5Error::ReplyVersion);
    assert_eq!(message(e, CONNECT), "socks5: invalid version in connect response");

    let (h, _) = start(CONNECT, false);
    let (h, _) = sends(h.reply(&[5, 0]));
    let e = fails(h.reply(&[5, 7, 0, 1]));
    assert_eq!(e, Socks5Error::Status(7));
    assert_eq!(message(e, CONNECT), "socks5: connect failed with status 7");
}

#[test]
fn an_association_fails_in_each_way() {
    let (h, _) = start(ASSOCIATE, false);
    assert_eq!(message(fails(h.reply(&[4, 0])), ASSOCIATE), "socks5 udp: invalid version");

    let (h, _) = start(ASSOCIATE, false);
    let e = fails(h.reply(&[5, 1]));
    assert_eq!(message(e, ASSOCIATE), "socks5 udp: unsupported auth method");

    let (h, _) = start(ASSOCIATE, true);
    let (h, _) = sends(h.reply(&[5, 2]));
    let e = fails(h.reply(&[0, 0]));
    assert_eq!(message(e, ASSOCIATE), "socks5 udp: authentication failed");

    for (reply, status) in [([5, 3], 3), ([4, 0], 0)] {
        let (h, _) = start(ASSOCIATE, false);
        let (h, _) = sends(h.reply(&[5, 0]));
        let e = fails(h.reply(&[reply[0], reply[1], 0, 1]));
        assert_eq!(e, Socks5Error::Status(status));
        let want = format!("socks5 udp: associate failed with status {status}");
        assert_eq!(message(e, ASSOCIATE), want);
    }

    for kind in [0, 3, 4] {
        let (h, _) = start(ASSOCIATE, false);
        let (h, _) = sends(h.reply(&[5, 0]));
        let e = fails(h.reply(&[5, 0, 0, kind]));
        assert_eq!(e, Socks5Error::AddressType);
        assert_eq!(
            message(e, ASSOCIATE),
            "socks5 udp: unsupported address type in associate response"
        );
    }
}

#[test]
fn datagrams_are_read_back() {
    let packet = build_socks5_udp_packet(0x04030201, 0x3500, b"query");
    assert_eq!(packet, [&[0, 0, 0, 1, 1, 2, 3, 4, 0x35, 0][..], &b"query"[..]].concat());
    assert_eq!(parse_socks5_udp_packet(&packet), Some((0x04030201, 0x3500, 10)));
    assert_eq!(&packet[10..], b"query");
    let empty = build_socks5_udp_packet(u32::MAX, 0, b"");
    assert_eq!(parse_socks5_udp_packet(&empty), Some((u32::MAX, 0, 10)));
}

#[test]
fn unreadable_datagrams() {
    assert_eq!(parse_socks5_udp_packet(&[]), None);
    assert_eq!(parse_socks5_udp_packet(&[0, 0, 0, 1, 1, 2, 3, 4, 5]), None);
    assert_eq!(parse_socks5_udp_packet(&[0, 0, 1, 1, 1, 2, 3, 4, 5, 6]), None);
    assert_eq!(parse_socks5_udp_packet(&[0, 0, 0, 3, 1, 2, 3, 4, 5, 6]), None);
    // The reserved bytes are not looked at.
    let (ip, port, at) = parse_socks5_udp_packet(&[9, 9, 0, 1, 1, 2, 3, 4, 0, 6, 7]).unwrap();
    assert_eq!((ip, port, at), (0x04030201, 6, 10));
}

#[test]
fn trouble_with_the_connection_is_named() {
    let (h, _) = start(CONNECT, true);
    assert_eq!(h.request(), CONNECT);
    assert_eq!(h.trouble(true), Some("socks5: failed to send auth methods"));
    assert_eq!(h.trouble(false), Some("socks5: failed to read auth response"));
    let (h, _) = sends(h.reply(&[5, 2]));
    assert_eq!(h.trouble(true), Some("socks5: failed to send credentials"));
    assert_eq!(h.trouble(false), Some("socks5: failed to read auth result"));
    let (h, _) = sends(h.reply(&[1, 0]));
    assert_eq!(h.trouble(true), Some("socks5: failed to send connect request"));
    assert_eq!(h.trouble(false), Some("socks5: failed to read connect response"));
    let h = waits(h.reply(&[5, 0, 0, 3]));
    assert_eq!(h.trouble(false), Some("socks5: failed to read connect response"));
    let (h, _) = start(ASSOCIATE, true);
    assert_eq!(h.trouble(true), None);
}
