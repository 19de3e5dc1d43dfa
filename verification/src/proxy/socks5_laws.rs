//! What holds of SOCKS5, said in terms of the bytes that go to and fro.

use vstd::prelude::*;

use crate::addr::{be16, law_ip_of_round_trip, octets};
use crate::proxy::socks5::{
    conversation, credentials_message, established, failure_text, greeting, request_message,
    udp_packet, udp_source, Established, HandshakeView, Socks5Error, Socks5Request, Stage,
};
use crate::text::decimal;

verus! {

/// The bytes of the messages. A client offers to do without credentials, and to show them
/// only where it has them; a request for a connection carries the destination, and one for
/// a relay carries none.
pub proof fn law_message_bytes(dest_ip: u32, dest_port: u16)
    ensures
        greeting(true) == seq![5u8, 2, 0, 2],
        greeting(false) == seq![5u8, 1, 0],
        ({
            let m = request_message(Socks5Request::Connect { dest_ip, dest_port });
            &&& m.len() == 10
            &&& m.take(4) == seq![5u8, 1, 0, 1]
            &&& m.subrange(4, 8) == octets(dest_ip)
            &&& m[8] * 256 + m[9] == dest_port
        }),
        request_message(Socks5Request::UdpAssociate) == seq![5u8, 3, 0, 1, 0, 0, 0, 0, 0, 0],
{
    let m = request_message(Socks5Request::Connect { dest_ip, dest_port });
    assert(m.take(4) == seq![5u8, 1, 0, 1]);
    assert(m.subrange(4, 8) == octets(dest_ip));
    assert(m[8] == be16(dest_port)[0] && m[9] == be16(dest_port)[1]);
}

/// The bytes of the credentials: the version 1, the username behind its length, and the
/// password behind its length, each length cut to a byte.
pub proof fn law_credentials_bytes(user: Seq<u8>, pass: Seq<u8>)
    ensures
        ({
            let m = credentials_message(user, pass);
            let at = 2 + user.len() as int;
            &&& m.len() == 3 + user.len() + pass.len()
            &&& m[0] == 1
            &&& m[1] == user.len() % 256
            &&& m.subrange(2, at) == user
            &&& m[at] == pass.len() % 256
            &&& m.skip(at + 1) == pass
        }),
{
    let m = credentials_message(user, pass);
    let at = 2 + user.len() as int;
    assert(m.subrange(2, at) == user);
    assert(m.skip(at + 1) == pass);
}

/// The bytes of a datagram to the proxy: two reserved ones, no fragment, the type 1, the
/// octets of the destination, its port with the high byte first, and the data.
pub proof fn law_datagram_bytes(ip: u32, port: u16, data: Seq<u8>)
    ensures
        ({
            let p = udp_packet(ip, port, data);
            &&& p.len() == 10 + data.len()
            &&& p.take(4) == seq![0u8, 0, 0, 1]
            &&& p.subrange(4, 8) == octets(ip)
            &&& p[8] * 256 + p[9] == port
            &&& p.skip(10) == data
        }),
{
    let p = udp_packet(ip, port, data);
    assert(p.take(4) == seq![0u8, 0, 0, 1]);
    assert(p.subrange(4, 8) == octets(ip));
    assert(p[8] == be16(port)[0] && p[9] == be16(port)[1]);
    assert(p.skip(10) == data);
}

/// A datagram from the proxy is read exactly if it has ten bytes, is no fragment and has the
/// address type 1; what is read of it stands in it.
pub proof fn law_which_datagrams_are_read(p: Seq<u8>)
    ensures
        udp_source(p) is Some <==> p.len() >= 10 && p[2] == 0 && p[3] == 1,
        udp_source(p) is Some ==> {
            let (ip, port, from) = udp_source(p)->Some_0;
            &&& octets(ip) == p.subrange(4, 8)
            &&& port == p[8] * 256 + p[9]
            &&& from == 10
        },
{
    if udp_source(p) is Some {
        let (ip, port, from) = udp_source(p)->Some_0;
        law_ip_of_round_trip(p[4], p[5], p[6], p[7]);
        assert(octets(ip) == p.subrange(4, 8));
    }
}

/// What stands at the end of an answer: for a relay its address, octet by octet, and its
/// port with the high byte first; for a connection nothing that counts.
pub proof fn law_what_is_established(endpoint: Seq<u8>, dest_ip: u32, dest_port: u16)
    requires
        endpoint.len() == 6,
    ensures
        established(Socks5Request::Connect { dest_ip, dest_port }, endpoint)
            == Established::Connected,
        established(Socks5Request::UdpAssociate, endpoint) matches Established::Associated {
            relay_ip,
            relay_port,
        } && octets(relay_ip) == endpoint.take(4) && relay_port == endpoint[4] * 256 + endpoint[5],
{
    law_ip_of_round_trip(endpoint[0], endpoint[1], endpoint[2], endpoint[3]);
    let e = established(Socks5Request::UdpAssociate, endpoint);
    if let Established::Associated { relay_ip, relay_port } = e {
        assert(octets(relay_ip) == endpoint.take(4));
    }
}

/// How a handshake fails before the request: by the version of the server's choice of a
/// method, by a method that was not offered, or by the server's refusal of the credentials.
pub proof fn law_failures_before_request(h: HandshakeView, stream: Seq<u8>)
    requires
        h.stage == Stage::Method,
        stream.len() >= 4,
    ensures
        ({
            let end = conversation(h, stream).end;
            let shows = stream[1] == 2 && h.credentials is Some;
            &&& stream[0] != 5 ==> end == Some(
                Err::<Established, _>(Socks5Error::MethodVersion(stream[0])),
            )
            &&& stream[0] == 5 && stream[1] != 0 && !shows ==> end == Some(
                Err::<Established, _>(Socks5Error::Method(stream[1])),
            )
            &&& stream[0] == 5 && shows && !(stream[2] == 1 && stream[3] == 0) ==> end == Some(
                Err::<Established, _>(Socks5Error::Refused),
            )
        }),
{
    let first = stream.take(2);
    let rest = stream.skip(2);
    assert(first[0] == stream[0] && first[1] == stream[1]);
    assert(rest.take(2)[0] == stream[2] && rest.take(2)[1] == stream[3]);
    reveal_with_fuel(conversation, 3);
}

/// How a request fails: by the version of the answer, by its status, and for a relay by the
/// type of its address.
pub proof fn law_failures_of_request(h: HandshakeView, stream: Seq<u8>)
    requires
        h.stage == Stage::Answer,
        stream.len() >= 4,
    ensures
        ({
            let end = conversation(h, stream).end;
            let connect = h.request is Connect;
            &&& connect && stream[0] != 5 ==> end == Some(
                Err::<Established, _>(Socks5Error::ReplyVersion),
            )
            &&& connect && stream[0] == 5 && stream[1] != 0 ==> end == Some(
                Err::<Established, _>(Socks5Error::Status(stream[1])),
            )
            &&& !connect && (stream[0] != 5 || stream[1] != 0) ==> end == Some(
                Err::<Established, _>(Socks5Error::Status(stream[1])),
            )
            &&& !connect && stream[0] == 5 && stream[1] == 0 && stream[3] != 1 ==> end == Some(
                Err::<Established, _>(Socks5Error::AddressType),
            )
        }),
{
    let start = stream.take(4);
    assert(start[0] == stream[0] && start[1] == stream[1] && start[3] == stream[3]);
}

/// The texts of failures, which name the number that the server sent.
pub proof fn law_failure_texts(n: u8, dest_ip: u32, dest_port: u16)
    ensures
        ({
            let c = Socks5Request::Connect { dest_ip, dest_port };
            let number = decimal(n as nat);
            &&& failure_text(Socks5Error::MethodVersion(n), c)
                == "socks5: invalid version in auth response: "@ + number
            &&& failure_text(Socks5Error::Method(n), c) == "socks5: unsupported auth method: "@
                + number
            &&& failure_text(Socks5Error::Refused, c) == "socks5: authentication failed"@
            &&& failure_text(Socks5Error::ReplyVersion, c)
                == "socks5: invalid version in connect response"@
            &&& failure_text(Socks5Error::Status(n), c) == "socks5: connect failed with status "@
                + number
        }),
        ({
            let u = Socks5Request::UdpAssociate;
            &&& failure_text(Socks5Error::MethodVersion(n), u) == "socks5 udp: invalid version"@
            &&& failure_text(Socks5Error::Method(n), u) == "socks5 udp: unsupported auth method"@
            &&& failure_text(Socks5Error::Refused, u) == "socks5 udp: authentication failed"@
            &&& failure_text(Socks5Error::Status(n), u)
                == "socks5 udp: associate failed with status "@ + decimal(n as nat)
            &&& failure_text(Socks5Error::AddressType, u)
                == "socks5 udp: unsupported address type in associate response"@
        }),
{
}

} // verus!
