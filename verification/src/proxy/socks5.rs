//! SOCKS5: the handshake as a state machine over the server's replies, and the
//! datagram format.

use vstd::prelude::*;
use vstd::utf8::encode_utf8;

use crate::addr::{
    be16, from_be16, ip_from_octets, ip_of, law_be16_round_trip, law_from_be16_round_trip,
    law_ip_of_round_trip, law_octets_round_trip, octets, octets_of, u16_from_be,
};
use crate::config::{
    SOCKS5_ATYP_DOMAIN, SOCKS5_ATYP_IPV4, SOCKS5_ATYP_IPV6, SOCKS5_AUTH_NONE,
    SOCKS5_AUTH_PASSWORD, SOCKS5_CMD_CONNECT, SOCKS5_CMD_UDP_ASSOCIATE, SOCKS5_VERSION,
};
use crate::text::{decimal, push_decimal};

verus! {

/// What the client wants from the server.
#[derive(Debug, Clone, Copy, PartialEq, Eq, Structural)]
pub enum Socks5Request {
    /// A TCP connection to a destination.
    Connect { dest_ip: u32, dest_port: u16 },
    /// A relay for datagrams.
    UdpAssociate,
}

/// Which reply of the server the client is waiting for.
#[derive(Debug, Clone, Copy, PartialEq, Eq, Structural)]
pub enum Stage {
    /// The choice of an authentication method.
    Method,
    /// The verdict on the credentials.
    Credentials,
    /// The start of the answer to the request, up to the type of the address in it.
    Answer,
    /// The length of the domain name in the answer.
    NameLength,
    /// The IPv4 address and the port in the answer.
    Endpoint,
    /// The last bytes of the answer, whose number is known and which are of no use.
    Discard(u16),
}

/// What a successful handshake gives.
#[derive(Debug, Clone, Copy, PartialEq, Eq, Structural)]
pub enum Established {
    /// The connection to the destination stands.
    Connected,
    /// The server relays datagrams at this address.
    Associated { relay_ip: u32, relay_port: u16 },
}

/// Why a handshake failed.
#[derive(Debug, Clone, Copy, PartialEq, Eq, Structural)]
pub enum Socks5Error {
    /// The method choice has this version instead of 5.
    MethodVersion(u8),
    /// The server chose this method, which was not offered.
    Method(u8),
    /// The server refused the credentials.
    Refused,
    /// The answer to a CONNECT request has another version than 5.
    ReplyVersion,
    /// The request failed with this status.
    Status(u8),
    /// The relay address is no IPv4 address.
    AddressType,
}

/// The methods that a client offers.
pub open spec fn greeting(with_password: bool) -> Seq<u8> {
    if with_password {
        seq![SOCKS5_VERSION, 2, SOCKS5_AUTH_NONE, SOCKS5_AUTH_PASSWORD]
    } else {
        seq![SOCKS5_VERSION, 1, SOCKS5_AUTH_NONE]
    }
}

/// The message that carries the credentials, each behind its length modulo 256.
pub open spec fn credentials_message(user: Seq<u8>, pass: Seq<u8>) -> Seq<u8> {
    seq![1u8, (user.len() % 256) as u8] + user + seq![(pass.len() % 256) as u8] + pass
}

/// The message that carries the request.
pub open spec fn request_message(request: Socks5Request) -> Seq<u8> {
    match request {
        Socks5Request::Connect { dest_ip, dest_port } => seq![
            SOCKS5_VERSION,
            SOCKS5_CMD_CONNECT,
            0u8,
            SOCKS5_ATYP_IPV4,
        ] + octets(dest_ip) + be16(dest_port),
        Socks5Request::UdpAssociate => seq![
            SOCKS5_VERSION,
            SOCKS5_CMD_UDP_ASSOCIATE,
            0u8,
            SOCKS5_ATYP_IPV4,
            0,
            0,
            0,
            0,
            0,
            0,
        ],
    }
}

/// The state of a handshake.
pub struct HandshakeView {
    pub request: Socks5Request,
    /// Username and password, where both are known.
    pub credentials: Option<(Seq<u8>, Seq<u8>)>,
    pub stage: Stage,
}

/// What follows a reply.
pub enum StepView {
    /// The bytes to send, and the state that waits for the next reply.
    Send(HandshakeView, Seq<u8>),
    /// The state that waits for the next reply, with nothing to send.
    Await(HandshakeView),
    Done(Established),
}

/// How many bytes the awaited reply has.
pub open spec fn reply_len(stage: Stage) -> nat {
    match stage {
        Stage::Method => 2,
        Stage::Credentials => 2,
        Stage::Answer => 4,
        Stage::NameLength => 1,
        Stage::Endpoint => 6,
        Stage::Discard(n) => n as nat,
    }
}

/// The text for trouble with the connection while a reply is awaited, or while the message
/// before it is sent.
pub open spec fn trouble_text(stage: Stage, sending: bool) -> Seq<char> {
    match (stage, sending) {
        (Stage::Method, true) => "socks5: failed to send auth methods"@,
        (Stage::Method, false) => "socks5: failed to read auth response"@,
        (Stage::Credentials, true) => "socks5: failed to send credentials"@,
        (Stage::Credentials, false) => "socks5: failed to read auth result"@,
        (_, true) => "socks5: failed to send connect request"@,
        (_, false) => "socks5: failed to read connect response"@,
    }
}

/// The step that sends the request.
pub open spec fn send_request(h: HandshakeView) -> StepView {
    StepView::Send(HandshakeView { stage: Stage::Answer, ..h }, request_message(h.request))
}

/// What is awaited behind the start of an answer, by the type of the address in it. A type
/// that is not known is taken for that of an IPv4 address.
pub open spec fn address_stage(kind: u8) -> Stage {
    if kind == SOCKS5_ATYP_DOMAIN {
        Stage::NameLength
    } else if kind == SOCKS5_ATYP_IPV6 {
        Stage::Discard(18)
    } else {
        Stage::Endpoint
    }
}

/// What the start of the server's answer to the request leads to: the failure that it
/// tells of, or the stage for the rest of it.
pub open spec fn answer(request: Socks5Request, start: Seq<u8>) -> Result<Stage, Socks5Error> {
    match request {
        Socks5Request::Connect { .. } => if start[0] != SOCKS5_VERSION {
            Err(Socks5Error::ReplyVersion)
        } else if start[1] != 0 {
            Err(Socks5Error::Status(start[1]))
        } else {
            Ok(address_stage(start[3]))
        },
        Socks5Request::UdpAssociate => if start[0] != SOCKS5_VERSION || start[1] != 0 {
            Err(Socks5Error::Status(start[1]))
        } else if start[3] != SOCKS5_ATYP_IPV4 {
            Err(Socks5Error::AddressType)
        } else {
            Ok(Stage::Endpoint)
        },
    }
}

/// What is established once the address and the port of an answer are read.
pub open spec fn established(request: Socks5Request, endpoint: Seq<u8>) -> Established {
    match request {
        Socks5Request::Connect { .. } => Established::Connected,
        Socks5Request::UdpAssociate => Established::Associated {
            relay_ip: ip_of(endpoint[0], endpoint[1], endpoint[2], endpoint[3]),
            relay_port: from_be16(endpoint[4], endpoint[5]),
        },
    }
}

/// What follows the server's reply.
pub open spec fn advance(h: HandshakeView, reply: Seq<u8>) -> Result<StepView, Socks5Error> {
    match h.stage {
        Stage::Method => if reply[0] != SOCKS5_VERSION {
            Err(Socks5Error::MethodVersion(reply[0]))
        } else if reply[1] == SOCKS5_AUTH_PASSWORD && h.credentials is Some {
            let (user, pass) = h.credentials->Some_0;
            Ok(
                StepView::Send(
                    HandshakeView { stage: Stage::Credentials, ..h },
                    credentials_message(user, pass),
                ),
            )
        } else if reply[1] == SOCKS5_AUTH_NONE {
            Ok(send_request(h))
        } else {
            Err(Socks5Error::Method(reply[1]))
        },
        Stage::Credentials => if reply[0] == 1 && reply[1] == 0 {
            Ok(send_request(h))
        } else {
            Err(Socks5Error::Refused)
        },
        Stage::Answer => match answer(h.request, reply) {
            Ok(stage) => Ok(StepView::Await(HandshakeView { stage, ..h })),
            Err(e) => Err(e),
        },
        Stage::Endpoint => Ok(StepView::Done(established(h.request, reply))),
        // A relay for datagrams has an IPv4 address.
        Stage::NameLength => if h.request is UdpAssociate {
            Err(Socks5Error::AddressType)
        } else {
            Ok(
                StepView::Await(
                    HandshakeView { stage: Stage::Discard((reply[0] + 2) as u16), ..h },
                ),
            )
        },
        Stage::Discard(_) => if h.request is UdpAssociate {
            Err(Socks5Error::AddressType)
        } else {
            Ok(StepView::Done(Established::Connected))
        },
    }
}

/// A handshake with a SOCKS5 server.
#[derive(Debug)]
pub struct Handshake {
    request: Socks5Request,
    credentials: Option<(Vec<u8>, Vec<u8>)>,
    stage: Stage,
}

impl View for Handshake {
    type V = HandshakeView;

    closed spec fn view(&self) -> HandshakeView {
        HandshakeView {
            request: self.request,
            credentials: match self.credentials {
                Some((user, pass)) => Some((user@, pass@)),
                None => None,
            },
            stage: self.stage,
        }
    }
}

/// What follows a reply.
#[derive(Debug)]
pub enum Step {
    /// Send these bytes, then wait for the next reply.
    Send(Handshake, Vec<u8>),
    /// Wait for the next reply.
    Await(Handshake),
    /// The handshake is over.
    Done(Established),
}

impl View for Step {
    type V = StepView;

    open spec fn view(&self) -> StepView {
        match self {
            Step::Send(next, bytes) => StepView::Send(next@, bytes@),
            Step::Await(next) => StepView::Await(next@),
            Step::Done(e) => StepView::Done(*e),
        }
    }
}

/// Appends bytes.
pub(crate) fn push_bytes(out: &mut Vec<u8>, bytes: &[u8])
    ensures
        final(out)@ == old(out)@ + bytes@,
{
    let mut i: usize = 0;
    assert(out@ + bytes@.take(0) == out@);
    while i < bytes.len()
        invariant
            i <= bytes@.len(),
            out@ == old(out)@ + bytes@.take(i as int),
        decreases bytes@.len() - i,
    {
        out.push(bytes[i]);
        i = i + 1;
        assert(bytes@.take(i as int) == bytes@.take(i - 1).push(bytes@[i - 1]));
    }
    assert(bytes@.take(bytes@.len() as int) == bytes@);
}

/// Appends an address and a port as they stand in SOCKS5 messages.
fn push_endpoint(out: &mut Vec<u8>, ip: u32, port: u16)
    ensures
        final(out)@ == old(out)@ + octets(ip) + be16(port),
{
    let o: [u8; 4] = octets_of(ip);
    out.push(o[0]);
    out.push(o[1]);
    out.push(o[2]);
    out.push(o[3]);
    out.push((port / 256) as u8);
    out.push((port % 256) as u8);
    assert(out@ == old(out)@ + octets(ip) + be16(port));
}

/// Builds the message that carries the credentials.
fn build_credentials(user: &Vec<u8>, pass: &Vec<u8>) -> (r: Vec<u8>)
    ensures
        r@ == credentials_message(user@, pass@),
{
    let mut out: Vec<u8> = Vec::new();
    out.push(1);
    out.push((user.len() % 256) as u8);
    push_bytes(&mut out, user.as_slice());
    out.push((pass.len() % 256) as u8);
    push_bytes(&mut out, pass.as_slice());
    assert(out@ == credentials_message(user@, pass@));
    out
}

/// Builds the message that carries the request.
fn build_request(request: Socks5Request) -> (r: Vec<u8>)
    ensures
        r@ == request_message(request),
{
    let mut out: Vec<u8> = Vec::new();
    out.push(SOCKS5_VERSION);
    match request {
        Socks5Request::Connect { dest_ip, dest_port } => {
            out.push(SOCKS5_CMD_CONNECT);
            out.push(0);
            out.push(SOCKS5_ATYP_IPV4);
            push_endpoint(&mut out, dest_ip, dest_port);
        },
        Socks5Request::UdpAssociate => {
            out.push(SOCKS5_CMD_UDP_ASSOCIATE);
            out.push(0);
            out.push(SOCKS5_ATYP_IPV4);
            push_endpoint(&mut out, 0, 0);
        },
    }
    assert(out@ == request_message(request));
    out
}

impl Handshake {
    /// Starts a handshake: the state, and the bytes to send first. Credentials
    /// count only where both a username and a password are given.
    pub fn start(
        request: Socks5Request,
        username: Option<&str>,
        password: Option<&str>,
    ) -> (r: (Self, Vec<u8>))
        ensures
            r.0@.request == request,
            r.0@.stage == Stage::Method,
            r.0@.credentials == match (username, password) {
                (Some(user), Some(pass)) => Some((encode_utf8(user@), encode_utf8(pass@))),
                _ => None,
            },
            r.1@ == greeting(username is Some && password is Some),
    {
        let mut hello: Vec<u8> = Vec::new();
        hello.push(SOCKS5_VERSION);
        match (username, password) {
            (Some(user), Some(pass)) => {
                hello.push(2);
                hello.push(SOCKS5_AUTH_NONE);
                hello.push(SOCKS5_AUTH_PASSWORD);
                assert(hello@ == greeting(true));
                let credentials = Some((user.as_bytes_vec(), pass.as_bytes_vec()));
                (Handshake { request, credentials, stage: Stage::Method }, hello)
            },
            _ => {
                hello.push(1);
                hello.push(SOCKS5_AUTH_NONE);
                assert(hello@ == greeting(false));
                (Handshake { request, credentials: None, stage: Stage::Method }, hello)
            },
        }
    }

    /// What is asked for.
    pub fn request(&self) -> (r: Socks5Request)
        ensures
            r == self@.request,
    {
        self.request
    }

    /// The text for the log where the last message could not be sent, or the awaited reply
    /// could not be read. An association has none beside the error itself.
    pub fn trouble(&self, sending: bool) -> (r: Option<&'static str>)
        ensures
            match r {
                Some(text) => self@.request is Connect && text@ == trouble_text(
                    self@.stage,
                    sending,
                ),
                None => self@.request is UdpAssociate,
            },
    {
        match self.request {
            Socks5Request::Connect { .. } => Some(
                match (self.stage, sending) {
                    (Stage::Method, true) => "socks5: failed to send auth methods",
                    (Stage::Method, false) => "socks5: failed to read auth response",
                    (Stage::Credentials, true) => "socks5: failed to send credentials",
                    (Stage::Credentials, false) => "socks5: failed to read auth result",
                    (_, true) => "socks5: failed to send connect request",
                    (_, false) => "socks5: failed to read connect response",
                },
            ),
            Socks5Request::UdpAssociate => None,
        }
    }

    /// How many bytes the awaited reply has.
    pub fn awaited(&self) -> (n: usize)
        ensures
            n == reply_len(self@.stage),
    {
        match self.stage {
            Stage::Method => 2,
            Stage::Credentials => 2,
            Stage::Answer => 4,
            Stage::NameLength => 1,
            Stage::Endpoint => 6,
            Stage::Discard(n) => n as usize,
        }
    }

    /// Takes the awaited reply of the server and says what follows.
    pub fn reply(self, reply: &[u8]) -> (r: Result<Step, Socks5Error>)
        requires
            reply@.len() == reply_len(self@.stage),
        ensures
            match r {
                Ok(step) => advance(self@, reply@) == Ok::<_, Socks5Error>(step@),
                Err(e) => advance(self@, reply@) == Err::<StepView, _>(e),
            },
    {
        match self.stage {
            Stage::Method => {
                if reply[0] != SOCKS5_VERSION {
                    return Err(Socks5Error::MethodVersion(reply[0]));
                }
                if reply[1] == SOCKS5_AUTH_PASSWORD {
                    if let Some((user, pass)) = &self.credentials {
                        let message: Vec<u8> = build_credentials(user, pass);
                        let next = Handshake { stage: Stage::Credentials, ..self };
                        return Ok(Step::Send(next, message));
                    }
                }
                if reply[1] != SOCKS5_AUTH_NONE {
                    return Err(Socks5Error::Method(reply[1]));
                }
            },
            Stage::Credentials => {
                if reply[0] != 1 || reply[1] != 0 {
                    return Err(Socks5Error::Refused);
                }
            },
            Stage::Answer => {
                return match read_answer(self.request, reply) {
                    Ok(stage) => Ok(Step::Await(Handshake { stage, ..self })),
                    Err(e) => Err(e),
                };
            },
            Stage::Endpoint => {
                return Ok(
                    Step::Done(
                        match self.request {
                            Socks5Request::Connect { .. } => Established::Connected,
                            Socks5Request::UdpAssociate => Established::Associated {
                                relay_ip: ip_from_octets(reply[0], reply[1], reply[2], reply[3]),
                                relay_port: u16_from_be(reply[4], reply[5]),
                            },
                        },
                    ),
                );
            },
            Stage::NameLength => {
                return match self.request {
                    Socks5Request::Connect { .. } => {
                        let stage = Stage::Discard(reply[0] as u16 + 2);
                        Ok(Step::Await(Handshake { stage, ..self }))
                    },
                    Socks5Request::UdpAssociate => Err(Socks5Error::AddressType),
                };
            },
            Stage::Discard(_) => {
                return match self.request {
                    Socks5Request::Connect { .. } => Ok(Step::Done(Established::Connected)),
                    Socks5Request::UdpAssociate => Err(Socks5Error::AddressType),
                };
            },
        }
        let message: Vec<u8> = build_request(self.request);
        Ok(Step::Send(Handshake { stage: Stage::Answer, ..self }, message))
    }
}

/// Reads the start of the server's answer to the request.
fn read_answer(request: Socks5Request, start: &[u8]) -> (r: Result<Stage, Socks5Error>)
    requires
        start@.len() == 4,
    ensures
        r == answer(request, start@),
{
    match request {
        Socks5Request::Connect { .. } => {
            if start[0] != SOCKS5_VERSION {
                return Err(Socks5Error::ReplyVersion);
            }
            if start[1] != 0 {
                return Err(Socks5Error::Status(start[1]));
            }
            if start[3] == SOCKS5_ATYP_DOMAIN {
                Ok(Stage::NameLength)
            } else if start[3] == SOCKS5_ATYP_IPV6 {
                Ok(Stage::Discard(18))
            } else {
                Ok(Stage::Endpoint)
            }
        },
        Socks5Request::UdpAssociate => {
            if start[0] != SOCKS5_VERSION || start[1] != 0 {
                return Err(Socks5Error::Status(start[1]));
            }
            if start[3] != SOCKS5_ATYP_IPV4 {
                return Err(Socks5Error::AddressType);
            }
            Ok(Stage::Endpoint)
        },
    }
}

/// The text of a failure, by what was asked for.
pub open spec fn failure_text(e: Socks5Error, request: Socks5Request) -> Seq<char> {
    let connect = request is Connect;
    match e {
        Socks5Error::MethodVersion(v) => if connect {
            "socks5: invalid version in auth response: "@ + decimal(v as nat)
        } else {
            "socks5 udp: invalid version"@
        },
        Socks5Error::Method(m) => if connect {
            "socks5: unsupported auth method: "@ + decimal(m as nat)
        } else {
            "socks5 udp: unsupported auth method"@
        },
        Socks5Error::Refused => if connect {
            "socks5: authentication failed"@
        } else {
            "socks5 udp: authentication failed"@
        },
        Socks5Error::ReplyVersion => "socks5: invalid version in connect response"@,
        Socks5Error::Status(s) => if connect {
            "socks5: connect failed with status "@ + decimal(s as nat)
        } else {
            "socks5 udp: associate failed with status "@ + decimal(s as nat)
        },
        Socks5Error::AddressType => "socks5 udp: unsupported address type in associate response"@,
    }
}

impl Socks5Error {
    /// The message for the log, by what was asked for.
    pub fn message(&self, request: &Socks5Request) -> (r: String)
        ensures
            r@ == failure_text(*self, *request),
    {
        let connect: bool = match request {
            Socks5Request::Connect { .. } => true,
            Socks5Request::UdpAssociate => false,
        };
        let (text, n): (&str, Option<u8>) = match *self {
            Socks5Error::MethodVersion(v) => if connect {
                ("socks5: invalid version in auth response: ", Some(v))
            } else {
                ("socks5 udp: invalid version", None)
            },
            Socks5Error::Method(m) => if connect {
                ("socks5: unsupported auth method: ", Some(m))
            } else {
                ("socks5 udp: unsupported auth method", None)
            },
            Socks5Error::Refused => if connect {
                ("socks5: authentication failed", None)
            } else {
                ("socks5 udp: authentication failed", None)
            },
            Socks5Error::ReplyVersion => ("socks5: invalid version in connect response", None),
            Socks5Error::Status(s) => if connect {
                ("socks5: connect failed with status ", Some(s))
            } else {
                ("socks5 udp: associate failed with status ", Some(s))
            },
            Socks5Error::AddressType => (
                "socks5 udp: unsupported address type in associate response",
                None,
            ),
        };
        let mut s: String = text.to_owned();
        if let Some(n) = n {
            push_decimal(&mut s, n as u64);
        }
        s
    }
}

/// A datagram behind the header that names its destination.
pub open spec fn udp_packet(ip: u32, port: u16, data: Seq<u8>) -> Seq<u8> {
    seq![0u8, 0, 0, SOCKS5_ATYP_IPV4] + octets(ip) + be16(port) + data
}

/// Puts the header that names the destination in front of a datagram.
pub fn build_socks5_udp_packet(dest_ip: u32, dest_port: u16, data: &[u8]) -> (r: Vec<u8>)
    ensures
        r@ == udp_packet(dest_ip, dest_port, data@),
{
    let mut packet: Vec<u8> = Vec::new();
    packet.push(0);
    packet.push(0);
    packet.push(0);
    packet.push(SOCKS5_ATYP_IPV4);
    assert(packet@ == seq![0u8, 0, 0, SOCKS5_ATYP_IPV4]);
    push_endpoint(&mut packet, dest_ip, dest_port);
    push_bytes(&mut packet, data);
    packet
}

/// The source address, source port and start of the data of a datagram from the
/// server; `None` for one that is too short, is a fragment or names no IPv4 address.
pub open spec fn udp_source(packet: Seq<u8>) -> Option<(u32, u16, usize)> {
    if packet.len() >= 10 && packet[2] == 0 && packet[3] == SOCKS5_ATYP_IPV4 {
        Some(
            (
                ip_of(packet[4], packet[5], packet[6], packet[7]),
                from_be16(packet[8], packet[9]),
                10,
            ),
        )
    } else {
        None
    }
}

/// Reads the header of a datagram from the server: source address, source port and
/// the offset of the data.
pub fn parse_socks5_udp_packet(packet: &[u8]) -> (r: Option<(u32, u16, usize)>)
    ensures
        r == udp_source(packet@),
{
    if packet.len() < 10 {
        return None;
    }
    // Fragments are not supported.
    if packet[2] != 0 {
        return None;
    }
    if packet[3] != SOCKS5_ATYP_IPV4 {
        return None;
    }
    let ip: u32 = ip_from_octets(packet[4], packet[5], packet[6], packet[7]);
    Some((ip, u16_from_be(packet[8], packet[9]), 10))
}

/// A datagram that was given a header is read back: its address, its port, and its
/// data behind the offset.
pub proof fn law_udp_packet_is_read_back(ip: u32, port: u16, data: Seq<u8>)
    ensures
        udp_source(udp_packet(ip, port, data)) == Some((ip, port, 10usize)),
        udp_packet(ip, port, data).skip(10) == data,
{
    let p = udp_packet(ip, port, data);
    assert(p.skip(10) == data);
    assert(p.subrange(4, 8) == octets(ip));
    assert(p.subrange(8, 10) == be16(port));
    assert(p[4] == octets(ip)[0] && p[5] == octets(ip)[1]);
    assert(p[6] == octets(ip)[2] && p[7] == octets(ip)[3]);
    assert(p[8] == be16(port)[0] && p[9] == be16(port)[1]);
    law_octets_round_trip(ip);
    law_be16_round_trip(port);
}

/// A datagram that is read, and has its reserved bytes zero, is the one that is built
/// from what was read.
pub proof fn law_read_packet_is_rebuilt(packet: Seq<u8>)
    requires
        udp_source(packet) is Some,
        packet[0] == 0,
        packet[1] == 0,
    ensures
        ({
            let (ip, port, from) = udp_source(packet)->Some_0;
            udp_packet(ip, port, packet.skip(from as int)) == packet
        }),
{
    let (ip, port, from) = udp_source(packet)->Some_0;
    law_ip_of_round_trip(packet[4], packet[5], packet[6], packet[7]);
    law_from_be16_round_trip(packet[8], packet[9]);
    assert(udp_packet(ip, port, packet.skip(10)) =~= packet);
}

/// A request for a connection names the destination where a server looks for it.
pub proof fn law_request_names_destination(dest_ip: u32, dest_port: u16)
    ensures
        ({
            let m = request_message(Socks5Request::Connect { dest_ip, dest_port });
            &&& m.len() == 10
            &&& ip_of(m[4], m[5], m[6], m[7]) == dest_ip
            &&& from_be16(m[8], m[9]) == dest_port
        }),
{
    let m = request_message(Socks5Request::Connect { dest_ip, dest_port });
    assert(m[4] == octets(dest_ip)[0] && m[5] == octets(dest_ip)[1]);
    assert(m[6] == octets(dest_ip)[2] && m[7] == octets(dest_ip)[3]);
    assert(m[8] == be16(dest_port)[0] && m[9] == be16(dest_port)[1]);
    law_octets_round_trip(dest_ip);
    law_be16_round_trip(dest_port);
}

/// Credentials of at most 255 bytes each are found by a server that goes by the lengths
/// in front of them, and nothing follows them.
pub proof fn law_credentials_are_read_back(user: Seq<u8>, pass: Seq<u8>)
    requires
        user.len() <= 255,
        pass.len() <= 255,
    ensures
        ({
            let m = credentials_message(user, pass);
            let at = 2 + m[1] as int;
            &&& m.subrange(2, at) == user
            &&& m.len() == at + 1 + m[at]
            &&& m.skip(at + 1) == pass
        }),
{
    let m = credentials_message(user, pass);
    let at = 2 + user.len() as int;
    assert(m[1] as int == user.len());
    assert(m.subrange(2, at) == user);
    assert(m[at] as int == pass.len());
    assert(m.skip(at + 1) == pass);
}

/// A handshake so far: what the client has sent after the greeting, how many bytes of the
/// server it has taken, and how it has ended (`None` while a reply is awaited).
pub struct Conversation {
    pub sent: Seq<Seq<u8>>,
    pub taken: nat,
    pub end: Option<Result<Established, Socks5Error>>,
}

/// The handshake with a server that sends the given bytes, in whatever pieces they come.
pub open spec fn conversation(h: HandshakeView, stream: Seq<u8>) -> Conversation
    decreases stream.len(),
{
    let n = reply_len(h.stage);
    if n == 0 || stream.len() < n {
        Conversation { sent: seq![], taken: 0, end: None }
    } else {
        match advance(h, stream.take(n as int)) {
            Err(e) => Conversation { sent: seq![], taken: n, end: Some(Err(e)) },
            Ok(StepView::Done(e)) => Conversation { sent: seq![], taken: n, end: Some(Ok(e)) },
            Ok(StepView::Send(next, bytes)) => {
                let rest = conversation(next, stream.skip(n as int));
                Conversation { sent: seq![bytes] + rest.sent, taken: n + rest.taken, ..rest }
            },
            Ok(StepView::Await(next)) => {
                let rest = conversation(next, stream.skip(n as int));
                Conversation { taken: n + rest.taken, ..rest }
            },
        }
    }
}

/// The server chose to be shown the credentials, which the client has.
pub open spec fn asked_for_password(h: HandshakeView, stream: Seq<u8>) -> bool {
    stream.len() >= 2 && stream[0] == SOCKS5_VERSION && stream[1] == SOCKS5_AUTH_PASSWORD
        && h.credentials is Some
}

/// The server chose to do without credentials.
pub open spec fn asked_for_nothing(stream: Seq<u8>) -> bool {
    stream.len() >= 2 && stream[0] == SOCKS5_VERSION && stream[1] == SOCKS5_AUTH_NONE
}

/// The server took the credentials.
pub open spec fn took_password(h: HandshakeView, stream: Seq<u8>) -> bool {
    asked_for_password(h, stream) && stream.len() >= 4 && stream[2] == 1 && stream[3] == 0
}

/// The server let the client in, with or without credentials.
pub open spec fn let_in(h: HandshakeView, stream: Seq<u8>) -> bool {
    asked_for_nothing(stream) || took_password(h, stream)
}

/// Where the answer to the request starts, once the client is let in.
pub open spec fn answer_start(stream: Seq<u8>) -> int {
    if asked_for_nothing(stream) {
        2
    } else {
        4
    }
}

/// How long an answer is: four bytes, an address by its type (a domain name has a byte for
/// its length in front), and a port of two bytes.
pub open spec fn answer_len(answer: Seq<u8>) -> int {
    if answer[3] == SOCKS5_ATYP_DOMAIN {
        7 + answer[4]
    } else if answer[3] == SOCKS5_ATYP_IPV6 {
        22
    } else {
        10
    }
}

/// The answer is complete and grants the request.
pub open spec fn granted(request: Socks5Request, answer: Seq<u8>) -> bool {
    &&& answer.len() >= 4
    &&& answer[0] == SOCKS5_VERSION
    &&& answer[1] == 0
    &&& request is UdpAssociate ==> answer[3] == SOCKS5_ATYP_IPV4
    &&& answer[3] == SOCKS5_ATYP_DOMAIN ==> answer.len() >= 5
    &&& answer.len() >= answer_len(answer)
}

proof fn lemma_answer(h: HandshakeView, stream: Seq<u8>)
    requires
        h.stage == Stage::Answer,
    ensures
        ({
            let c = conversation(h, stream);
            &&& c.sent == Seq::<Seq<u8>>::empty()
            &&& c.end is Some && c.end->Some_0 is Ok <==> granted(h.request, stream)
            &&& granted(h.request, stream) ==> c.taken == answer_len(stream)
                && c.end->Some_0->Ok_0 == established(h.request, stream.subrange(4, 10))
        }),
{
    if stream.len() >= 4 {
        let start = stream.take(4);
        let rest = stream.skip(4);
        assert(start[0] == stream[0] && start[1] == stream[1] && start[3] == stream[3]);
        if let Ok(stage) = answer(h.request, start) {
            let next = HandshakeView { stage, ..h };
            reveal_with_fuel(conversation, 3);
            match stage {
                Stage::NameLength => {
                    if rest.len() >= 1 {
                        assert(rest.take(1)[0] == stream[4]);
                        assert(rest.skip(1).len() == stream.len() - 5);
                    }
                },
                Stage::Endpoint => {
                    if rest.len() >= 6 {
                        assert(rest.take(6) == stream.subrange(4, 10));
                    }
                },
                _ => {},
            }
        }
    }
}

proof fn lemma_after_method(h: HandshakeView, stream: Seq<u8>)
    requires
        h.stage == Stage::Method,
    ensures
        ({
            let c = conversation(h, stream);
            let at_answer = HandshakeView { stage: Stage::Answer, ..h };
            let rest = conversation(at_answer, stream.skip(answer_start(stream)));
            let request = seq![request_message(h.request)];
            if asked_for_nothing(stream) {
                c.sent == request + rest.sent && c.taken == 2 + rest.taken && c.end == rest.end
            } else if asked_for_password(h, stream) {
                let (user, pass) = h.credentials->Some_0;
                let shown = seq![credentials_message(user, pass)];
                if took_password(h, stream) {
                    c.sent == shown + (request + rest.sent) && c.taken == 4 + rest.taken && c.end
                        == rest.end
                } else {
                    c.sent == shown && (c.end is None || c.end->Some_0 is Err)
                }
            } else {
                c.sent == Seq::<Seq<u8>>::empty() && (c.end is None || c.end->Some_0 is Err)
            }
        }),
{
    if stream.len() >= 2 {
        let first = stream.take(2);
        let rest = stream.skip(2);
        assert(first[0] == stream[0] && first[1] == stream[1]);
        if !asked_for_nothing(stream) && asked_for_password(h, stream) {
            let (user, pass) = h.credentials->Some_0;
            let next = HandshakeView { stage: Stage::Credentials, ..h };
            let shown = seq![credentials_message(user, pass)];
            if rest.len() >= 2 {
                let second = rest.take(2);
                assert(second[0] == stream[2] && second[1] == stream[3]);
                assert(rest.skip(2) == stream.skip(4));
            }
            assert(conversation(h, stream).sent == shown + conversation(next, rest).sent);
            assert(shown + Seq::<Seq<u8>>::empty() == shown);
        }
    }
}

/// The client shows its credentials only to a server that asks for them, and states
/// its request only once the server has let it in.
pub proof fn law_what_is_sent(h: HandshakeView, stream: Seq<u8>)
    requires
        h.stage == Stage::Method,
    ensures
        conversation(h, stream).sent == if asked_for_nothing(stream) {
            seq![request_message(h.request)]
        } else if took_password(h, stream) {
            let (user, pass) = h.credentials->Some_0;
            seq![credentials_message(user, pass), request_message(h.request)]
        } else if asked_for_password(h, stream) {
            let (user, pass) = h.credentials->Some_0;
            seq![credentials_message(user, pass)]
        } else {
            seq![]
        },
{
    let at_answer = HandshakeView { stage: Stage::Answer, ..h };
    let request = seq![request_message(h.request)];
    lemma_after_method(h, stream);
    if let_in(h, stream) {
        lemma_answer(at_answer, stream.skip(answer_start(stream)));
        assert(request + Seq::<Seq<u8>>::empty() == request);
        if took_password(h, stream) {
            let (user, pass) = h.credentials->Some_0;
            assert(seq![credentials_message(user, pass)] + request == seq![
                credentials_message(user, pass),
                request_message(h.request),
            ]);
        }
    }
}

/// A handshake succeeds exactly where the server lets the client in, with or without
/// credentials, and then grants the request. It has then taken the whole of the answer,
/// whatever address stands in it, and nothing behind it: the next byte is the first of the
/// connection's own data.
pub proof fn law_success(h: HandshakeView, stream: Seq<u8>)
    requires
        h.stage == Stage::Method,
    ensures
        ({
            let c = conversation(h, stream);
            let at = answer_start(stream);
            let succeeds = let_in(h, stream) && granted(h.request, stream.skip(at));
            &&& c.end is Some && c.end->Some_0 is Ok <==> succeeds
            &&& succeeds ==> c.taken == at + answer_len(stream.skip(at))
            &&& succeeds ==> c.end->Some_0->Ok_0 == established(
                h.request,
                stream.skip(at).subrange(4, 10),
            )
        }),
{
    lemma_after_method(h, stream);
    if let_in(h, stream) {
        let at_answer = HandshakeView { stage: Stage::Answer, ..h };
        lemma_answer(at_answer, stream.skip(answer_start(stream)));
    }
}

/// A CONNECT handshake never ends in a relay address, and an ASSOCIATE handshake
/// always does when it succeeds.
pub proof fn law_end_fits_request(h: HandshakeView, stream: Seq<u8>)
    ensures
        ({
            let c = conversation(h, stream);
            c.end is Some && c.end->Some_0 is Ok ==> (c.end->Some_0->Ok_0 is Associated
                <==> h.request is UdpAssociate)
        }),
    decreases stream.len(),
{
    let n = reply_len(h.stage);
    if n > 0 && stream.len() >= n {
        match advance(h, stream.take(n as int)) {
            Ok(StepView::Send(next, _)) => law_end_fits_request(next, stream.skip(n as int)),
            Ok(StepView::Await(next)) => law_end_fits_request(next, stream.skip(n as int)),
            _ => {},
        }
    }
}

} // verus!
