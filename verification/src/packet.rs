//! The judgement of outgoing packets: what a packet is, whether its owner must be
//! known, and what becomes of it.

use vstd::prelude::*;

use crate::addr::{
    dotted, format_ip, from_be16, ip_from_octets, ip_of, is_broadcast_or_multicast,
    is_local_or_group, u16_from_be,
};
use crate::config::{
    ProxyConfig, ProxyType, RuleAction, IPPROTO_TCP, IPPROTO_UDP, LOCAL_PROXY_PORT,
    LOCAL_UDP_RELAY_PORT, NFQUEUE_NUM, TCP_MARK, UDP_MARK,
};
use crate::connection::{ConnectionInfo, ConnectionTracker};
use crate::netfilter::{first_effect, law_table_leads_packets, table, Effect};
use crate::process::{extract_filename, process_name_source, NameSource};
use crate::rule::{decision, Flow, RuleEngine, RuleView};
use crate::text::{after_last, decimal, push_decimal};

verus! {

/// Port of DNS.
pub const DNS_PORT: u16 = 53;

/// Port of DHCP servers.
pub const DHCP_SERVER_PORT: u16 = 67;

/// Port of DHCP clients.
pub const DHCP_CLIENT_PORT: u16 = 68;

/// A TCP or UDP packet.
#[derive(Debug, Clone, Copy, PartialEq, Eq, Structural)]
pub struct Packet {
    pub src_ip: u32,
    pub src_port: u16,
    pub dest_ip: u32,
    pub dest_port: u16,
    pub is_udp: bool,
    /// Whether it opens a TCP connection: SYN without ACK.
    pub is_syn: bool,
}

/// The length of the IP header, which the lower half of the first byte gives in words.
pub open spec fn header_len(payload: Seq<u8>) -> int {
    payload[0] % 16 * 4
}

/// The TCP flags of a packet that opens a connection: SYN (the second bit) is set, and
/// ACK (the fifth) is not.
pub open spec fn opens(flags: u8) -> bool {
    flags / 2 % 2 == 1 && flags / 16 % 2 == 0
}

/// What an IPv4 packet is; `None` where it is neither TCP nor UDP, or is cut short.
pub open spec fn packet_of(payload: Seq<u8>) -> Option<Packet> {
    let at = header_len(payload);
    let is_udp = payload[9] == IPPROTO_UDP;
    let rest: int = if is_udp {
        8
    } else {
        20
    };
    if payload.len() < 20 || payload.len() < at + rest {
        None
    } else if payload[9] != IPPROTO_TCP && payload[9] != IPPROTO_UDP {
        None
    } else {
        Some(
            Packet {
                src_ip: ip_of(payload[12], payload[13], payload[14], payload[15]),
                src_port: from_be16(payload[at], payload[at + 1]),
                dest_ip: ip_of(payload[16], payload[17], payload[18], payload[19]),
                dest_port: from_be16(payload[at + 2], payload[at + 3]),
                is_udp,
                is_syn: !is_udp && opens(payload[at + 13]),
            },
        )
    }
}

/// Reads an IPv4 packet; `None` where it is neither TCP nor UDP, or is cut short.
pub fn parse_packet(payload: &[u8]) -> (r: Option<Packet>)
    ensures
        r == packet_of(payload@),
{
    if payload.len() < 20 {
        return None;
    }
    let first: u8 = payload[0];
    let at: usize = (first & 0x0F) as usize * 4;
    assert(first & 0x0F == first % 16) by (bit_vector);
    let is_udp: bool = payload[9] == IPPROTO_UDP;
    if !is_udp && payload[9] != IPPROTO_TCP {
        return None;
    }
    let rest: usize = if is_udp {
        8
    } else {
        20
    };
    if payload.len() < at + rest {
        return None;
    }
    let is_syn: bool = if is_udp {
        false
    } else {
        let flags: u8 = payload[at + 13];
        assert((flags & 0x02 != 0) == (flags / 2 % 2 == 1)) by (bit_vector);
        assert((flags & 0x10 == 0) == (flags / 16 % 2 == 0)) by (bit_vector);
        flags & 0x02 != 0 && flags & 0x10 == 0
    };
    Some(
        Packet {
            src_ip: ip_from_octets(payload[12], payload[13], payload[14], payload[15]),
            src_port: u16_from_be(payload[at], payload[at + 1]),
            dest_ip: ip_from_octets(payload[16], payload[17], payload[18], payload[19]),
            dest_port: u16_from_be(payload[at + 2], payload[at + 3]),
            is_udp,
            is_syn,
        },
    )
}

/// Whether some rule is enabled.
pub open spec fn any_enabled(rules: Seq<RuleView>) -> bool {
    exists|i: int| 0 <= i < rules.len() && (#[trigger] rules[i]).enabled
}

/// Whether the local relays sent a packet.
pub open spec fn from_relay(p: Packet) -> bool {
    p.src_port == if p.is_udp {
        LOCAL_UDP_RELAY_PORT
    } else {
        LOCAL_PROXY_PORT
    }
}

/// Whether the owner of a packet decides what becomes of it. Where it does not, the
/// packet passes: no rule is in force, a relay sent it, its connection is tracked or
/// stands already, or it asks for a name and such packets are not for the proxy.
pub open spec fn owner_matters(
    p: Packet,
    rules: Seq<RuleView>,
    known: Map<u16, ConnectionInfo>,
    dns_via_proxy: bool,
) -> bool {
    &&& any_enabled(rules)
    &&& !from_relay(p)
    &&& !known.contains_key(p.src_port)
    &&& p.is_udp || p.is_syn
    &&& p.dest_port != DNS_PORT || dns_via_proxy
}

/// Takes a first look at a packet: `None` where it passes, and otherwise what it is,
/// for its owner to be looked up.
pub fn inspect(
    payload: &[u8],
    engine: &RuleEngine,
    tracker: &ConnectionTracker,
    dns_via_proxy: bool,
) -> (r: Option<Packet>)
    ensures
        r == match packet_of(payload@) {
            Some(p) => if owner_matters(p, engine@, tracker@, dns_via_proxy) {
                Some(p)
            } else {
                None
            },
            None => None,
        },
{
    if !engine.has_active_rules() {
        return None;
    }
    match parse_packet(payload) {
        Some(p) => {
            // The relays' own packets
            if !p.is_udp && p.src_port == LOCAL_PROXY_PORT {
                return None;
            }
            if p.is_udp && p.src_port == LOCAL_UDP_RELAY_PORT {
                return None;
            }
            if tracker.is_tracked(p.src_port) {
                return None;
            }
            // Of TCP only new connections
            if !p.is_udp && !p.is_syn {
                return None;
            }
            if p.dest_port == DNS_PORT && !dns_via_proxy {
                return None;
            }
            Some(p)
        },
        None => None,
    }
}

/// Whether the name of an owner matters: there is one, and it is not this program.
pub fn has_foreign_owner(pid: u32, current_pid: u32) -> (r: bool)
    ensures
        r == (pid != 0 && pid != current_pid),
{
    pid != 0 && pid != current_pid
}

/// Says where the name of a packet's owner comes from. There is none to look for where the
/// owner is not known, or is this program.
pub fn owner_name_source(pid: u32, current_pid: u32) -> (r: NameSource)
    ensures
        match r {
            NameSource::Nowhere => pid == 0 || pid == current_pid,
            NameSource::Known(name) => pid == 1 && pid != current_pid && name@ == "systemd"@,
            NameSource::Link(path) => pid > 1 && pid != current_pid && path@ == "/proc/"@ + decimal(
                pid as nat,
            ) + "/exe"@,
        },
{
    if has_foreign_owner(pid, current_pid) {
        process_name_source(pid)
    } else {
        NameSource::Nowhere
    }
}

/// What becomes of a packet.
#[derive(Debug, Clone, Copy, PartialEq, Eq, Structural)]
pub enum Verdict {
    /// It passes.
    Accept,
    /// It is dropped.
    Drop,
    /// It passes with this mark, which leads it to a relay.
    Mark(u32),
}

/// Whether a packet cannot go through the proxy: it is for the local network or a
/// group, it is DHCP, the proxy does not take UDP, or no proxy is set up.
pub open spec fn cannot_be_proxied(p: Packet, config: ProxyConfig) -> bool {
    ||| is_local_or_group(p.dest_ip)
    ||| p.is_udp && (p.dest_port == DHCP_SERVER_PORT || p.dest_port == DHCP_CLIENT_PORT)
    ||| p.is_udp && config.proxy_type != ProxyType::Socks5
    ||| config.host@.len() == 0
    ||| config.port == 0
}

/// What the rules say of a packet whose owner has the given name, if any.
pub open spec fn rules_say(
    rules: Seq<RuleView>,
    p: Packet,
    owner: Option<Seq<char>>,
) -> RuleAction {
    match owner {
        Some(process) => decision(
            rules,
            Flow { process, dest_ip: p.dest_ip, dest_port: p.dest_port, is_udp: p.is_udp },
        ),
        None => RuleAction::Direct,
    }
}

/// What becomes of a packet, given what the rules say.
pub open spec fn outcome(action: RuleAction, p: Packet, config: ProxyConfig) -> Verdict {
    match action {
        RuleAction::Direct => Verdict::Accept,
        RuleAction::Block => Verdict::Drop,
        RuleAction::Proxy => if cannot_be_proxied(p, config) {
            Verdict::Accept
        } else if p.is_udp {
            Verdict::Mark(UDP_MARK)
        } else {
            Verdict::Mark(TCP_MARK)
        },
    }
}

/// The tracked connections after a packet was judged: that of a marked packet is added.
pub open spec fn noted(
    known: Map<u16, ConnectionInfo>,
    p: Packet,
    verdict: Verdict,
    now: u128,
) -> Map<u16, ConnectionInfo> {
    if verdict is Mark {
        known.insert(
            p.src_port,
            ConnectionInfo {
                src_ip: p.src_ip,
                src_port: p.src_port,
                orig_dest_ip: p.dest_ip,
                orig_dest_port: p.dest_port,
                last_activity: now,
            },
        )
    } else {
        known
    }
}

/// Judges a packet by what the rules say of it, as of the given time.
pub fn settle_at(
    p: &Packet,
    action: RuleAction,
    config: &ProxyConfig,
    tracker: &mut ConnectionTracker,
    now: u128,
) -> (verdict: Verdict)
    ensures
        verdict == outcome(action, *p, *config),
        final(tracker)@ == noted(old(tracker)@, *p, verdict, now),
        old(tracker).wf() ==> final(tracker).wf(),
        final(tracker).started() == old(tracker).started(),
{
    let mut action: RuleAction = action;
    if action == RuleAction::Proxy && is_broadcast_or_multicast(p.dest_ip) {
        action = RuleAction::Direct;
    }
    if action == RuleAction::Proxy && p.is_udp && (p.dest_port == DHCP_SERVER_PORT || p.dest_port
        == DHCP_CLIENT_PORT) {
        action = RuleAction::Direct;
    }
    // An HTTP proxy does not take UDP.
    if action == RuleAction::Proxy && p.is_udp && config.proxy_type != ProxyType::Socks5 {
        action = RuleAction::Direct;
    }
    if action == RuleAction::Proxy && (config.host.as_str().is_empty() || config.port == 0) {
        action = RuleAction::Direct;
    }
    match action {
        RuleAction::Direct => Verdict::Accept,
        RuleAction::Block => Verdict::Drop,
        RuleAction::Proxy => {
            tracker.add_at(p.src_port, p.src_ip, p.dest_ip, p.dest_port, now);
            if p.is_udp {
                Verdict::Mark(UDP_MARK)
            } else {
                Verdict::Mark(TCP_MARK)
            }
        },
    }
}

/// How a connection is treated, in words.
pub open spec fn way_text(p: Packet, action: RuleAction, config: ProxyConfig) -> Seq<char> {
    let protocol = if p.is_udp {
        "udp"@
    } else {
        "tcp"@
    };
    let scheme = if config.proxy_type == ProxyType::Http {
        "http"@
    } else {
        "socks5"@
    };
    match action {
        RuleAction::Proxy => "proxy "@ + scheme + "://"@ + config.host@ + ":"@ + decimal(
            config.port as nat,
        ) + " "@ + protocol,
        RuleAction::Direct => "direct "@ + protocol,
        RuleAction::Block => "blocked "@ + protocol,
    }
}

/// The line that reports a connection.
pub open spec fn connection_line(
    name: Seq<char>,
    pid: u32,
    p: Packet,
    action: RuleAction,
    config: ProxyConfig,
) -> Seq<char> {
    "[CONN] "@ + after_last(name, '/') + " (PID:"@ + decimal(pid as nat) + ") -> "@ + dotted(
        p.dest_ip,
    ) + ":"@ + decimal(p.dest_port as nat) + " via "@ + way_text(p, action, config)
}

/// Writes how a connection is treated.
fn describe_way(p: &Packet, action: RuleAction, config: &ProxyConfig) -> (r: String)
    ensures
        r@ == way_text(*p, action, *config),
{
    let protocol: &str = if p.is_udp {
        "udp"
    } else {
        "tcp"
    };
    match action {
        RuleAction::Proxy => {
            let scheme: &str = if config.proxy_type == ProxyType::Http {
                "http"
            } else {
                "socks5"
            };
            let mut s: String = "proxy ".to_owned().concat(scheme).concat("://").concat(
                config.host.as_str(),
            ).concat(":");
            push_decimal(&mut s, config.port as u64);
            s.concat(" ").concat(protocol)
        },
        RuleAction::Direct => "direct ".to_owned().concat(protocol),
        RuleAction::Block => "blocked ".to_owned().concat(protocol),
    }
}

/// Writes the line that reports a connection.
pub fn describe_connection(
    name: &str,
    pid: u32,
    p: &Packet,
    action: RuleAction,
    config: &ProxyConfig,
) -> (r: String)
    ensures
        r@ == connection_line(name@, pid, *p, action, *config),
{
    let mut s: String = "[CONN] ".to_owned().concat(extract_filename(name)).concat(" (PID:");
    push_decimal(&mut s, pid as u64);
    let mut s: String = s.concat(") -> ").concat(format_ip(p.dest_ip).as_str()).concat(":");
    push_decimal(&mut s, p.dest_port as u64);
    s.concat(" via ").concat(describe_way(p, action, config).as_str())
}

/// The owner of a packet, where it is known.
#[derive(Debug, Clone, Copy)]
pub struct Owner<'a> {
    pub pid: u32,
    pub name: &'a str,
}

/// The name of an owner.
pub open spec fn owner_name(owner: Option<Owner>) -> Option<Seq<char>> {
    match owner {
        Some(o) => Some(o.name@),
        None => None,
    }
}

/// Judges a packet, as of the given time, and writes the line that reports it where the
/// verbosity asks for one.
pub fn judge_at(
    p: &Packet,
    owner: Option<Owner>,
    engine: &RuleEngine,
    config: &ProxyConfig,
    verbose: u8,
    tracker: &mut ConnectionTracker,
    now: u128,
) -> (r: (Verdict, Option<String>))
    ensures
        r.0 == outcome(rules_say(engine@, *p, owner_name(owner)), *p, *config),
        final(tracker)@ == noted(old(tracker)@, *p, r.0, now),
        old(tracker).wf() ==> final(tracker).wf(),
        final(tracker).started() == old(tracker).started(),
        match r.1 {
            Some(line) => verbose >= 2 && owner is Some && line@ == connection_line(
                owner->Some_0.name@,
                owner->Some_0.pid,
                *p,
                rules_say(engine@, *p, owner_name(owner)),
                *config,
            ),
            None => verbose < 2 || owner is None,
        },
{
    match owner {
        Some(o) => {
            let action: RuleAction = engine.match_rule(o.name, p.dest_ip, p.dest_port, p.is_udp);
            let line: Option<String> = if verbose >= 2 {
                Some(describe_connection(o.name, o.pid, p, action, config))
            } else {
                None
            };
            (settle_at(p, action, config, tracker, now), line)
        },
        None => (settle_at(p, RuleAction::Direct, config, tracker, now), None),
    }
}

/// Judges a packet, and writes the line that reports it where the verbosity asks for
/// one. Not stated is the time at which a connection is noted, which the clock gives.
pub fn judge(
    p: &Packet,
    owner: Option<Owner>,
    engine: &RuleEngine,
    config: &ProxyConfig,
    verbose: u8,
    tracker: &mut ConnectionTracker,
) -> (r: (Verdict, Option<String>))
    ensures
        r.0 == outcome(rules_say(engine@, *p, owner_name(owner)), *p, *config),
        exists|now: u128| final(tracker)@ == #[trigger] noted(old(tracker)@, *p, r.0, now),
        old(tracker).wf() ==> final(tracker).wf(),
        final(tracker).started() == old(tracker).started(),
        match r.1 {
            Some(line) => verbose >= 2 && owner is Some && line@ == connection_line(
                owner->Some_0.name@,
                owner->Some_0.pid,
                *p,
                rules_say(engine@, *p, owner_name(owner)),
                *config,
            ),
            None => verbose < 2 || owner is None,
        },
{
    let now: u128 = tracker.now();
    judge_at(p, owner, engine, config, verbose, tracker, now)
}

/// A packet is led to a relay only if the rules say so, it is not for the local network
/// or a group, it is not DHCP, and the proxy is set up and takes its protocol.
pub proof fn law_what_is_proxied(
    rules: Seq<RuleView>,
    p: Packet,
    owner: Option<Seq<char>>,
    config: ProxyConfig,
)
    ensures
        outcome(rules_say(rules, p, owner), p, config) is Mark <==> {
            &&& owner is Some
            &&& rules_say(rules, p, owner) == RuleAction::Proxy
            &&& !is_local_or_group(p.dest_ip)
            &&& p.is_udp ==> config.proxy_type == ProxyType::Socks5
            &&& p.is_udp ==> p.dest_port != DHCP_SERVER_PORT && p.dest_port != DHCP_CLIENT_PORT
            &&& config.host@.len() > 0
            &&& config.port != 0
        },
{
}

/// The mark of a packet tells its protocol.
pub proof fn law_mark_tells_protocol(action: RuleAction, p: Packet, config: ProxyConfig)
    ensures
        outcome(action, p, config) is Mark ==> (outcome(action, p, config) == Verdict::Mark(
            UDP_MARK,
        ) <==> p.is_udp) && (outcome(action, p, config) == Verdict::Mark(TCP_MARK) <==> !p.is_udp),
{
}

/// A packet is dropped exactly where the rules block its owner.
pub proof fn law_what_is_dropped(
    rules: Seq<RuleView>,
    p: Packet,
    owner: Option<Seq<char>>,
    config: ProxyConfig,
)
    ensures
        outcome(rules_say(rules, p, owner), p, config) == Verdict::Drop <==> owner is Some
            && rules_say(rules, p, owner) == RuleAction::Block,
{
}

/// Once a packet was led to a relay, the original destination is known under its source
/// port, the other connections are what they were, and the next packets from that port
/// pass at once.
pub proof fn law_proxied_connection_is_tracked(
    p: Packet,
    next: Packet,
    verdict: Verdict,
    rules: Seq<RuleView>,
    known: Map<u16, ConnectionInfo>,
    dns_via_proxy: bool,
    now: u128,
)
    requires
        verdict is Mark,
        next.src_port == p.src_port,
    ensures
        ({
            let after = noted(known, p, verdict, now);
            &&& after.contains_key(p.src_port)
            &&& after[p.src_port].orig_dest_ip == p.dest_ip
            &&& after[p.src_port].orig_dest_port == p.dest_port
            &&& forall|port: u16|
                port != p.src_port ==> after.contains_key(port) == #[trigger] known.contains_key(
                    port,
                ) && after[port] == known[port]
            &&& !owner_matters(next, rules, after, dns_via_proxy)
        }),
{
}

/// With the packet filter set up for the local relays, a marked packet is redirected to
/// the relay for its protocol, and one that only passes is not redirected: it has no mark.
pub proof fn law_marked_packet_reaches_relay(action: RuleAction, p: Packet, config: ProxyConfig)
    ensures
        ({
            let items = table(LOCAL_PROXY_PORT, LOCAL_UDP_RELAY_PORT, NFQUEUE_NUM);
            let protocol = if p.is_udp {
                IPPROTO_UDP
            } else {
                IPPROTO_TCP
            };
            match outcome(action, p, config) {
                Verdict::Mark(mark) => first_effect(items[5], items[6], protocol, mark) == Some(
                    Effect::Redirect(
                        if p.is_udp {
                            LOCAL_UDP_RELAY_PORT
                        } else {
                            LOCAL_PROXY_PORT
                        },
                    ),
                ),
                _ => first_effect(items[5], items[6], protocol, 0) is None,
            }
        }),
{
    let protocol = if p.is_udp {
        IPPROTO_UDP
    } else {
        IPPROTO_TCP
    };
    let mark = match outcome(action, p, config) {
        Verdict::Mark(mark) => mark,
        _ => 0,
    };
    law_table_leads_packets(
        LOCAL_PROXY_PORT,
        LOCAL_UDP_RELAY_PORT,
        NFQUEUE_NUM,
        protocol,
        mark,
    );
}

} // verus!
