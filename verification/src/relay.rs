//! The relays: how a redirected connection is opened through the proxy, and how
//! datagrams travel to and from it.

use vstd::prelude::*;
use vstd::utf8::encode_utf8;

use crate::config::{ProxyConfig, ProxyType};
use crate::connection::{went_to, ConnectionInfo, ConnectionTracker};
use crate::proxy::http::{basic_credentials, build_connect_request, framed, request_lines};
use crate::proxy::socks5::{
    build_socks5_udp_packet, greeting, law_udp_packet_is_read_back, parse_socks5_udp_packet,
    udp_packet, udp_source, Handshake, Socks5Request, Stage,
};

verus! {

/// Why a relay cannot reach the proxy.
#[derive(Debug, Clone, Copy, PartialEq, Eq, Structural)]
pub enum RelayError {
    /// The address of the proxy is not known.
    Unresolved,
}

impl RelayError {
    /// The message for the log.
    pub fn message(&self) -> (r: String)
        ensures
            r@ == "Proxy IP not resolved"@,
    {
        "Proxy IP not resolved".to_owned()
    }
}

/// The address and port of the proxy.
pub fn proxy_endpoint(config: &ProxyConfig) -> (r: Result<(u32, u16), RelayError>)
    ensures
        r == match config.resolved_ip {
            Some(ip) => Ok((ip, config.port)),
            None => Err(RelayError::Unresolved),
        },
{
    match config.resolved_ip {
        Some(ip) => Ok((ip, config.port)),
        None => Err(RelayError::Unresolved),
    }
}

/// Whether the proxy takes datagrams, so that the UDP relay is of use.
pub fn relays_udp(config: &ProxyConfig) -> (r: bool)
    ensures
        r == (config.proxy_type == ProxyType::Socks5),
{
    config.proxy_type == ProxyType::Socks5
}

/// The characters of a text, where there is one.
pub open spec fn text_view(s: Option<String>) -> Option<Seq<char>> {
    match s {
        Some(s) => Some(s@),
        None => None,
    }
}

fn borrowed(s: &Option<String>) -> (r: Option<&str>)
    ensures
        s is None ==> r is None,
        s is Some ==> r is Some && r->Some_0@ == s->Some_0@,
{
    match s {
        Some(s) => Some(s.as_str()),
        None => None,
    }
}

/// The username and the password of a configuration that has both.
pub open spec fn credentials(config: ProxyConfig) -> Option<(Seq<char>, Seq<char>)> {
    match (text_view(config.username), text_view(config.password)) {
        (Some(user), Some(pass)) => Some((user, pass)),
        _ => None,
    }
}

/// How a connection through the proxy starts.
#[derive(Debug)]
pub enum Opening {
    /// A SOCKS5 handshake, and the bytes to send first.
    Socks5(Handshake, Vec<u8>),
    /// An HTTP request to send.
    Http(String),
}

/// Starts a connection to a destination in the way that the kind of the proxy asks for.
pub fn open_connection(config: &ProxyConfig, dest_ip: u32, dest_port: u16) -> (r: Opening)
    requires
        config.proxy_type == ProxyType::Http ==> match credentials(*config) {
            Some((user, pass)) => (encode_utf8(basic_credentials(user, pass)).len() + 2) / 3 * 4
                <= isize::MAX,
            None => true,
        },
    ensures
        match r {
            Opening::Socks5(handshake, first) => {
                &&& config.proxy_type == ProxyType::Socks5
                &&& handshake@.request == (Socks5Request::Connect { dest_ip, dest_port })
                &&& handshake@.stage == Stage::Method
                &&& handshake@.credentials == match credentials(*config) {
                    Some((user, pass)) => Some((encode_utf8(user), encode_utf8(pass))),
                    None => None,
                }
                &&& first@ == greeting(credentials(*config) is Some)
            },
            Opening::Http(request) => {
                &&& config.proxy_type == ProxyType::Http
                &&& request@ == framed(request_lines(dest_ip, dest_port, credentials(*config)))
            },
        },
{
    let username: Option<&str> = borrowed(&config.username);
    let password: Option<&str> = borrowed(&config.password);
    match config.proxy_type {
        ProxyType::Socks5 => {
            let request = Socks5Request::Connect { dest_ip, dest_port };
            let (handshake, first) = Handshake::start(request, username, password);
            Opening::Socks5(handshake, first)
        },
        ProxyType::Http => Opening::Http(
            build_connect_request(dest_ip, dest_port, username, password),
        ),
    }
}

/// Starts the association for datagrams: the handshake, and the bytes to send first.
pub fn open_association(config: &ProxyConfig) -> (r: (Handshake, Vec<u8>))
    ensures
        r.0@.request == Socks5Request::UdpAssociate,
        r.0@.stage == Stage::Method,
        r.0@.credentials == match credentials(*config) {
            Some((user, pass)) => Some((encode_utf8(user), encode_utf8(pass))),
            None => None,
        },
        r.1@ == greeting(credentials(*config) is Some),
{
    Handshake::start(
        Socks5Request::UdpAssociate,
        borrowed(&config.username),
        borrowed(&config.password),
    )
}

/// Where the proxy takes datagrams: the address that it named, or its own where it named
/// none.
pub open spec fn relay_address(proxy_ip: u32, relay_ip: u32, relay_port: u16) -> (u32, u16) {
    if relay_ip == 0 {
        (proxy_ip, relay_port)
    } else {
        (relay_ip, relay_port)
    }
}

/// The state of the UDP relay.
#[derive(Debug)]
pub struct UdpRelay {
    /// Where the proxy takes datagrams; `None` until an association is made, and after
    /// one has failed.
    relay: Option<(u32, u16)>,
    /// Whether there is a socket for datagrams to and from the proxy.
    has_socket: bool,
}

/// The state of the UDP relay.
pub struct UdpRelayView {
    pub relay: Option<(u32, u16)>,
    pub has_socket: bool,
}

impl View for UdpRelay {
    type V = UdpRelayView;

    closed spec fn view(&self) -> UdpRelayView {
        UdpRelayView { relay: self.relay, has_socket: self.has_socket }
    }
}

/// What has happened to the UDP relay.
#[derive(Debug, Clone, Copy)]
pub enum UdpEvent<'a> {
    /// A new round begins.
    Begin,
    /// The proxy at the given address has made an association, and said where it takes
    /// datagrams. There is a socket for them.
    Associated { proxy_ip: u32, relay_ip: u32, relay_port: u16 },
    /// There is no association to be had.
    NotAssociated,
    /// A client has sent a datagram.
    FromClient { port: u16, data: &'a [u8] },
    /// No client has sent anything.
    NothingFromClient,
    /// A datagram went out to the proxy, or it could not be sent.
    Sent { ok: bool },
    /// The proxy has sent a datagram.
    FromProxy { data: &'a [u8] },
    /// The proxy has sent nothing.
    NothingFromProxy,
}

/// What the UDP relay does next.
#[derive(Debug)]
pub enum UdpAction {
    /// Make an association.
    Associate,
    /// Wait for a while, then end the round.
    Pause,
    /// Wait for a datagram from a client.
    HearClient,
    /// Send a datagram to the proxy.
    Send { packet: Vec<u8>, ip: u32, port: u16 },
    /// Wait for a datagram from the proxy.
    HearProxy,
    /// Send what stands in the last datagram from an offset on to a client, then end the
    /// round.
    Deliver { client_port: u16, from: usize },
    /// End the round.
    EndRound,
}

/// What the relay does once it is through with the clients.
pub open spec fn turns_to_proxy(state: UdpRelayView, action: UdpAction) -> bool {
    if state.has_socket {
        action is HearProxy
    } else {
        action is EndRound
    }
}

/// The state and the action that an event leads to, given the redirected connections.
pub open spec fn udp_step(
    before: UdpRelayView,
    known: Map<u16, ConnectionInfo>,
    event: UdpEvent,
    after: UdpRelayView,
    action: UdpAction,
) -> bool {
    match event {
        UdpEvent::Begin => {
            &&& after == before
            &&& if before.relay is None {
                action is Associate
            } else {
                action is HearClient
            }
        },
        UdpEvent::Associated { proxy_ip, relay_ip, relay_port } => {
            &&& after.relay == Some(relay_address(proxy_ip, relay_ip, relay_port))
            &&& after.has_socket
            &&& action is HearClient
        },
        UdpEvent::NotAssociated => after == before && action is Pause,
        UdpEvent::FromClient { port, data } => {
            &&& after == before
            &&& match before.relay {
                Some((relay_ip, relay_port)) if known.contains_key(port) => {
                    &&& action is Send
                    &&& action->packet@ == udp_packet(
                        known[port].orig_dest_ip,
                        known[port].orig_dest_port,
                        data@,
                    )
                    &&& action->Send_ip == relay_ip
                    &&& action->Send_port == relay_port
                },
                _ => turns_to_proxy(before, action),
            }
        },
        UdpEvent::NothingFromClient => after == before && turns_to_proxy(before, action),
        UdpEvent::Sent { ok } => {
            &&& after.relay == if ok {
                before.relay
            } else {
                None
            }
            &&& after.has_socket == before.has_socket
            &&& turns_to_proxy(before, action)
        },
        UdpEvent::FromProxy { data } => {
            &&& after == before
            &&& match udp_source(data@) {
                Some((ip, port, from)) => match action {
                    UdpAction::Deliver { client_port, from: at } => at == from && at
                        <= data@.len() && sent_to(known, client_port, ip, port),
                    UdpAction::EndRound => forall|client_port: u16|
                        !#[trigger] sent_to(known, client_port, ip, port),
                    _ => false,
                },
                None => action is EndRound,
            }
        },
        UdpEvent::NothingFromProxy => after == before && action is EndRound,
    }
}

impl UdpRelay {
    /// An association comes with a socket.
    pub open spec fn wf(&self) -> bool {
        self@.relay is Some ==> self@.has_socket
    }

    /// A relay without an association.
    pub fn new() -> (r: Self)
        ensures
            r@.relay is None,
            !r@.has_socket,
            r.wf(),
    {
        Self { relay: None, has_socket: false }
    }

    fn turn_to_proxy(&self) -> (action: UdpAction)
        ensures
            turns_to_proxy(self@, action),
    {
        if self.has_socket {
            UdpAction::HearProxy
        } else {
            UdpAction::EndRound
        }
    }

    /// Says what an event leads to. A round goes from the association, where there is none,
    /// to the clients and on to the proxy. A datagram that cannot be sent ends the
    /// association; its socket stays, for what is still to come from the proxy. An answer
    /// goes to a client that sent something to where it comes from; among several, the
    /// choice is open.
    pub fn step(&mut self, tracker: &ConnectionTracker, event: UdpEvent) -> (action: UdpAction)
        ensures
            udp_step(old(self)@, tracker@, event, final(self)@, action),
            old(self).wf() ==> final(self).wf(),
    {
        match event {
            UdpEvent::Begin => if self.relay.is_none() {
                UdpAction::Associate
            } else {
                UdpAction::HearClient
            },
            UdpEvent::Associated { proxy_ip, relay_ip, relay_port } => {
                let ip: u32 = if relay_ip == 0 {
                    proxy_ip
                } else {
                    relay_ip
                };
                self.relay = Some((ip, relay_port));
                self.has_socket = true;
                UdpAction::HearClient
            },
            UdpEvent::NotAssociated => UdpAction::Pause,
            UdpEvent::FromClient { port, data } => match (tracker.get(port), self.relay) {
                (Some((dest_ip, dest_port)), Some((relay_ip, relay_port))) => UdpAction::Send {
                    packet: build_socks5_udp_packet(dest_ip, dest_port, data),
                    ip: relay_ip,
                    port: relay_port,
                },
                _ => self.turn_to_proxy(),
            },
            UdpEvent::NothingFromClient => self.turn_to_proxy(),
            UdpEvent::Sent { ok } => {
                if !ok {
                    self.relay = None;
                }
                self.turn_to_proxy()
            },
            UdpEvent::FromProxy { data } => match parse_socks5_udp_packet(data) {
                Some((src_ip, src_port, from)) => match tracker.find_by_dest(src_ip, src_port) {
                    Some(client_port) => UdpAction::Deliver { client_port, from },
                    None => UdpAction::EndRound,
                },
                None => UdpAction::EndRound,
            },
            UdpEvent::NothingFromProxy => UdpAction::EndRound,
        }
    }
}

/// Whether a client with the given port sent something to a destination.
pub open spec fn sent_to(
    known: Map<u16, ConnectionInfo>,
    client_port: u16,
    dest_ip: u32,
    dest_port: u16,
) -> bool {
    exists|port: u16| #[trigger]
        known.contains_key(port) && went_to(known[port], dest_ip, dest_port)
            && known[port].src_port == client_port
}

/// Without an association nothing is sent to the proxy.
pub proof fn law_nothing_is_sent_without_association(
    before: UdpRelayView,
    known: Map<u16, ConnectionInfo>,
    event: UdpEvent,
    after: UdpRelayView,
    action: UdpAction,
)
    requires
        before.relay is None,
        udp_step(before, known, event, after, action),
    ensures
        !(action is Send),
{
}

/// After a datagram could not be sent, the next round starts with a new association, and
/// the old socket is still heard until then.
pub proof fn law_failed_send_calls_for_association(
    before: UdpRelayView,
    known: Map<u16, ConnectionInfo>,
    failed: UdpRelayView,
    first: UdpAction,
    after: UdpRelayView,
    second: UdpAction,
)
    requires
        before.has_socket,
        udp_step(before, known, UdpEvent::Sent { ok: false }, failed, first),
        udp_step(failed, known, UdpEvent::Begin, after, second),
    ensures
        first is HearProxy,
        second is Associate,
{
}

/// What a redirected client sends is labelled with its original destination, and an
/// answer from there finds a client: at least the one that sent it.
pub proof fn law_answer_finds_client(
    known: Map<u16, ConnectionInfo>,
    client_port: u16,
    answer: Seq<u8>,
)
    requires
        known.contains_key(client_port),
    ensures
        ({
            let info = known[client_port];
            let datagram = udp_packet(info.orig_dest_ip, info.orig_dest_port, answer);
            match udp_source(datagram) {
                Some((ip, port, from)) => sent_to(known, info.src_port, ip, port)
                    && datagram.skip(from as int) == answer,
                None => false,
            }
        }),
{
    let info = known[client_port];
    law_udp_packet_is_read_back(info.orig_dest_ip, info.orig_dest_port, answer);
}

/// A datagram of a redirected client goes to where the proxy takes datagrams, labelled with
/// the client's original destination and with its data unchanged.
pub proof fn law_client_datagram_is_forwarded(
    before: UdpRelayView,
    known: Map<u16, ConnectionInfo>,
    port: u16,
    data: &[u8],
    after: UdpRelayView,
    action: UdpAction,
)
    requires
        udp_step(before, known, UdpEvent::FromClient { port, data }, after, action),
        before.relay is Some,
        known.contains_key(port),
    ensures
        after == before,
        action matches UdpAction::Send { packet, ip, port: to } && {
            &&& Some((ip, to)) == before.relay
            &&& udp_source(packet@) == Some(
                (known[port].orig_dest_ip, known[port].orig_dest_port, 10usize),
            )
            &&& packet@.skip(10) == data@
        },
{
    let info = known[port];
    law_udp_packet_is_read_back(info.orig_dest_ip, info.orig_dest_port, data@);
}

/// A datagram of anyone else, or one that comes while there is no association, goes nowhere.
pub proof fn law_other_datagrams_are_not_forwarded(
    before: UdpRelayView,
    known: Map<u16, ConnectionInfo>,
    port: u16,
    data: &[u8],
    after: UdpRelayView,
    action: UdpAction,
)
    requires
        udp_step(before, known, UdpEvent::FromClient { port, data }, after, action),
        before.relay is None || !known.contains_key(port),
    ensures
        after == before,
        action is HearProxy <==> before.has_socket,
        action is EndRound <==> !before.has_socket,
{
}

/// An answer goes back to the client that sent to where it comes from, where there is just
/// one, with the data behind the header; and one that nobody waits for goes nowhere.
pub proof fn law_answer_goes_back(
    before: UdpRelayView,
    known: Map<u16, ConnectionInfo>,
    client_port: u16,
    data: &[u8],
    ip: u32,
    port: u16,
    answer: Seq<u8>,
    after: UdpRelayView,
    action: UdpAction,
)
    requires
        data@ == udp_packet(ip, port, answer),
        udp_step(before, known, UdpEvent::FromProxy { data }, after, action),
        forall|p: u16| #[trigger]
            known.contains_key(p) ==> known[p].src_port == p && (p == client_port || !(
            known[p].orig_dest_ip == ip && known[p].orig_dest_port == port)),
    ensures
        after == before,
        known.contains_key(client_port) && known[client_port].orig_dest_ip == ip
            && known[client_port].orig_dest_port == port ==> {
            &&& action matches UdpAction::Deliver { client_port: to, from } && to == client_port
                && data@.skip(from as int) == answer
        },
        !(known.contains_key(client_port) && known[client_port].orig_dest_ip == ip
            && known[client_port].orig_dest_port == port) ==> action is EndRound,
{
    law_udp_packet_is_read_back(ip, port, answer);
    if known.contains_key(client_port) && known[client_port].orig_dest_ip == ip
        && known[client_port].orig_dest_port == port {
        assert(went_to(known[client_port], ip, port));
        assert(sent_to(known, client_port, ip, port));
        assert(udp_source(data@) == Some((ip, port, 10usize)));
        if action is EndRound {
            assert(match udp_source(data@) {
                Some((i, p, _)) => i == ip && p == port,
                None => false,
            });
            assert(match udp_source(data@) {
                Some((i, p, _)) => forall|c: u16| !sent_to(known, c, i, p),
                None => true,
            });
            let (i, p, f) = udp_source(data@)->Some_0;
            assert(forall|c: u16| !sent_to(known, c, i, p));
            assert(!sent_to(known, client_port, ip, port));
        }
    }
    if let UdpAction::Deliver { client_port: to, from } = action {
        assert(sent_to(known, to, ip, port));
        let p = choose|p: u16| #[trigger]
            known.contains_key(p) && went_to(known[p], ip, port) && known[p].src_port == to;
        assert(known.contains_key(p));
        assert(p == client_port);
    }
}

/// A round starts with the association where there is none, a new one is used at once, and
/// after a failed one the relay pauses. The proxy is at its own address where it names none.
pub proof fn law_rounds_and_associations(
    before: UdpRelayView,
    known: Map<u16, ConnectionInfo>,
    proxy_ip: u32,
    relay_ip: u32,
    relay_port: u16,
    after: UdpRelayView,
    action: UdpAction,
)
    ensures
        udp_step(before, known, UdpEvent::Begin, after, action) ==> {
            &&& after == before
            &&& action is Associate <==> before.relay is None
            &&& action is HearClient <==> before.relay is Some
        },
        udp_step(
            before,
            known,
            UdpEvent::Associated { proxy_ip, relay_ip, relay_port },
            after,
            action,
        ) ==> {
            &&& after.has_socket && action is HearClient
            &&& relay_ip != 0 ==> after.relay == Some((relay_ip, relay_port))
            &&& relay_ip == 0 ==> after.relay == Some((proxy_ip, relay_port))
        },
        udp_step(before, known, UdpEvent::NotAssociated, after, action) ==> after == before
            && action is Pause,
        udp_step(before, known, UdpEvent::Sent { ok: true }, after, action) ==> after == before,
        udp_step(before, known, UdpEvent::Sent { ok: false }, after, action) ==> after.relay is None
            && after.has_socket == before.has_socket,
        udp_step(before, known, UdpEvent::NothingFromClient, after, action) ==> after == before,
        before.has_socket && (udp_step(before, known, UdpEvent::NothingFromClient, after, action)
            || udp_step(before, known, UdpEvent::Sent { ok: true }, after, action) || udp_step(
            before,
            known,
            UdpEvent::Sent { ok: false },
            after,
            action,
        )) ==> action is HearProxy,
        !before.has_socket && udp_step(before, known, UdpEvent::NothingFromClient, after, action)
            ==> action is EndRound,
        udp_step(before, known, UdpEvent::NothingFromProxy, after, action) ==> after == before
            && action is EndRound,
{
}

/// Credentials are used where both a username and a password are set, and are those two.
pub proof fn law_credentials(config: ProxyConfig)
    ensures
        config.username is None || config.password is None ==> credentials(config) is None,
        config.username is Some && config.password is Some ==> credentials(config) == Some(
            (config.username->0@, config.password->0@),
        ),
{
}

} // verus!
