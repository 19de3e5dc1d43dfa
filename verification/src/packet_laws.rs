//! What holds of the reading and the judgement of packets, said in terms of their bytes and
//! fields.

use vstd::prelude::*;

use crate::addr::{
    be16, dotted, law_be16_round_trip, law_from_be16_round_trip, law_ip_of_round_trip,
    law_octets_round_trip, octets,
};
use crate::config::{ProxyConfig, ProxyType, RuleAction};
use crate::connection::ConnectionInfo;
use crate::packet::{
    connection_line, noted, outcome, owner_matters, owner_name, packet_of, rules_say, Owner,
    Packet, Verdict,
};
use crate::rule::{decision, Flow, RuleView};
use crate::text::decimal;
use crate::text_laws::law_after_last_of_path;

verus! {

/// What is read from a packet stands in it: the addresses as their octets at the places 12
/// and 16, the ports in network byte order behind the IP header, whose length in words is
/// the lower half of the first byte, and the protocol at the place 9.
pub proof fn law_fields_stand_in_packet(payload: Seq<u8>, p: Packet)
    requires
        packet_of(payload) == Some(p),
    ensures
        ({
            let at = (payload[0] % 16) * 4;
            &&& octets(p.src_ip) == payload.subrange(12, 16)
            &&& octets(p.dest_ip) == payload.subrange(16, 20)
            &&& be16(p.src_port) == payload.subrange(at, at + 2)
            &&& be16(p.dest_port) == payload.subrange(at + 2, at + 4)
            &&& payload[9] == if p.is_udp {
                17u8
            } else {
                6
            }
            &&& p.is_syn <==> payload[9] == 6 && payload[at + 13] & 0x02 == 0x02 && payload[at + 13]
                & 0x10 == 0
        }),
{
    let at = (payload[0] % 16) * 4;
    law_ip_of_round_trip(payload[12], payload[13], payload[14], payload[15]);
    law_ip_of_round_trip(payload[16], payload[17], payload[18], payload[19]);
    law_from_be16_round_trip(payload[at], payload[at + 1]);
    law_from_be16_round_trip(payload[at + 2], payload[at + 3]);
    assert(payload.subrange(12, 16) == octets(p.src_ip));
    assert(payload.subrange(16, 20) == octets(p.dest_ip));
    assert(payload.subrange(at, at + 2) == be16(p.src_port));
    assert(payload.subrange(at + 2, at + 4) == be16(p.dest_port));
    let flags = payload[at + 13];
    assert((flags & 0x02 == 0x02) == (flags / 2 % 2 == 1)) by (bit_vector);
    assert((flags & 0x10 == 0) == (flags / 16 % 2 == 0)) by (bit_vector);
}

/// A packet is read exactly if it has an IP header of 20 bytes and, behind the header's own
/// length, 20 more for TCP or 8 more for UDP.
pub proof fn law_which_packets_are_read(payload: Seq<u8>)
    ensures
        packet_of(payload) is Some <==> {
            let at = (payload[0] % 16) * 4;
            ||| payload.len() >= 20 && payload[9] == 6 && payload.len() >= at + 20
            ||| payload.len() >= 20 && payload[9] == 17 && payload.len() >= at + 8
        },
{
}

/// A packet that is written down from its fields is read back: an IP header of the given
/// number of words, with the addresses in it, and the ports and the flags behind it,
/// whatever else the packet holds.
pub proof fn law_packet_is_read_back(payload: Seq<u8>, words: u8, p: Packet, flags: u8)
    requires
        words < 16,
        p.is_syn <==> !p.is_udp && flags & 0x12 == 0x02,
        payload.len() >= 20,
        payload.len() >= words * 4 + if p.is_udp {
            8int
        } else {
            20
        },
        payload[0] & 0x0f == words,
        payload[9] == if p.is_udp {
            17u8
        } else {
            6
        },
        payload.subrange(12, 16) == octets(p.src_ip),
        payload.subrange(16, 20) == octets(p.dest_ip),
        payload.subrange(words * 4, words * 4 + 2) == be16(p.src_port),
        payload.subrange(words * 4 + 2, words * 4 + 4) == be16(p.dest_port),
        !p.is_udp ==> payload[words * 4 + 13] == flags,
    ensures
        packet_of(payload) == Some(p),
{
    let first = payload[0];
    let at = words * 4;
    assert(first & 0x0f == first % 16) by (bit_vector);
    let (src, dest) = (payload.subrange(12, 16), payload.subrange(16, 20));
    assert(src[0] == payload[12] && src[1] == payload[13] && src[2] == payload[14] && src[3]
        == payload[15]);
    assert(dest[0] == payload[16] && dest[1] == payload[17] && dest[2] == payload[18] && dest[3]
        == payload[19]);
    law_octets_round_trip(p.src_ip);
    law_octets_round_trip(p.dest_ip);
    let (a, b) = (payload.subrange(at, at + 2), payload.subrange(at + 2, at + 4));
    assert(a[0] == payload[at] && a[1] == payload[at + 1]);
    assert(b[0] == payload[at + 2] && b[1] == payload[at + 3]);
    law_be16_round_trip(p.src_port);
    law_be16_round_trip(p.dest_port);
    assert((flags & 0x12 == 0x02) == (flags / 2 % 2 == 1 && flags / 16 % 2 == 0)) by (bit_vector);
}

/// The owner of a packet is looked up exactly if some rule is enabled, no relay sent it (TCP
/// from port 34010, UDP from port 34011), nothing is known under its source port, it opens a
/// TCP connection or is UDP, and it is not for port 53 unless DNS goes through the proxy.
pub proof fn law_whose_owner_is_looked_up(
    p: Packet,
    rules: Seq<RuleView>,
    known: Map<u16, ConnectionInfo>,
    dns_via_proxy: bool,
)
    ensures
        owner_matters(p, rules, known, dns_via_proxy) <==> {
            &&& exists|i: int| 0 <= i < rules.len() && (#[trigger] rules[i]).enabled
            &&& p.is_udp && p.src_port != 34011 || !p.is_udp && p.src_port != 34010 && p.is_syn
            &&& !known.contains_key(p.src_port)
            &&& p.dest_port == 53 ==> dns_via_proxy
        },
{
}

/// What becomes of a packet that the rules send to the proxy. To the relay for UDP it goes
/// only over a SOCKS5 proxy and not for DHCP, and to a relay at all only if a proxy is set
/// up and the destination is neither on this machine, nor in its own network, nor a group.
pub proof fn law_verdict_on_proxied_packet(p: Packet, config: ProxyConfig)
    ensures
        ({
            let o = octets(p.dest_ip);
            let set_up = config.host@.len() > 0 && config.port > 0;
            let far = o[0] != 127 && o[3] != 255 && (o[0] < 224 || o[0] > 239) && !(o[0] == 169
                && o[1] == 254);
            let v = outcome(RuleAction::Proxy, p, config);
            if !set_up || !far {
                v == Verdict::Accept
            } else if !p.is_udp {
                v == Verdict::Mark(1)
            } else if config.proxy_type == ProxyType::Socks5 && p.dest_port != 67 && p.dest_port
                != 68 {
                v == Verdict::Mark(2)
            } else {
                v == Verdict::Accept
            }
        }),
{
}

/// What the rules let through passes without a mark, and what they block is dropped,
/// whatever the packet and the proxy are.
pub proof fn law_verdict_on_other_packets(p: Packet, config: ProxyConfig)
    ensures
        outcome(RuleAction::Direct, p, config) == Verdict::Accept,
        outcome(RuleAction::Block, p, config) == Verdict::Drop,
{
}

/// Only a marked packet is noted, under its source port and with its own addresses, ports
/// and time.
pub proof fn law_what_is_noted(
    known: Map<u16, ConnectionInfo>,
    p: Packet,
    mark: u32,
    now: u128,
)
    ensures
        noted(known, p, Verdict::Accept, now) == known,
        noted(known, p, Verdict::Drop, now) == known,
        ({
            let after = noted(known, p, Verdict::Mark(mark), now);
            &&& after.dom() == known.dom().insert(p.src_port)
            &&& after.remove(p.src_port) == known.remove(p.src_port)
            &&& after[p.src_port].src_ip == p.src_ip
            &&& after[p.src_port].src_port == p.src_port
            &&& after[p.src_port].orig_dest_ip == p.dest_ip
            &&& after[p.src_port].orig_dest_port == p.dest_port
            &&& after[p.src_port].last_activity == now
        }),
{
    let after = noted(known, p, Verdict::Mark(mark), now);
    assert(after.dom() =~= known.dom().insert(p.src_port));
    assert(after.remove(p.src_port) =~= known.remove(p.src_port));
}

/// The rules are asked for the owner's name and the packet's own destination and protocol;
/// a packet without a known owner goes its own way.
pub proof fn law_what_the_rules_are_asked(rules: Seq<RuleView>, p: Packet, o: Owner, flow: Flow)
    requires
        flow.process == o.name@,
        flow.dest_ip == p.dest_ip,
        flow.dest_port == p.dest_port,
        flow.is_udp == p.is_udp,
    ensures
        rules_say(rules, p, owner_name(Some(o))) == decision(rules, flow),
        rules_say(rules, p, owner_name(None)) == RuleAction::Direct,
{
}

/// What the line that reports a connection says: the file name of the program, its process
/// id, the destination, and what the rules say, with the protocol at the end.
pub proof fn law_connection_line(
    dir: Seq<char>,
    name: Seq<char>,
    pid: u32,
    p: Packet,
    config: ProxyConfig,
)
    requires
        dir.len() == 0 || dir.last() == '/',
        !name.contains('/'),
    ensures
        ({
            let start = "[CONN] "@ + name + " (PID:"@ + decimal(pid as nat) + ") -> "@ + dotted(
                p.dest_ip,
            ) + ":"@ + decimal(p.dest_port as nat) + " via "@;
            let protocol = if p.is_udp {
                "udp"@
            } else {
                "tcp"@
            };
            let proxy = config.host@ + ":"@ + decimal(config.port as nat) + " "@ + protocol;
            let line = |action: RuleAction|
                connection_line(dir + name, pid, p, action, config);
            &&& line(RuleAction::Direct) == start + ("direct "@ + protocol)
            &&& line(RuleAction::Block) == start + ("blocked "@ + protocol)
            &&& config.proxy_type == ProxyType::Http ==> line(RuleAction::Proxy) == start
                + "proxy "@ + "http"@ + "://"@ + proxy
            &&& config.proxy_type == ProxyType::Socks5 ==> line(RuleAction::Proxy) == start
                + "proxy "@ + "socks5"@ + "://"@ + proxy
        }),
{
    law_after_last_of_path(dir, name, '/');
    let start = "[CONN] "@ + name + " (PID:"@ + decimal(pid as nat) + ") -> "@ + dotted(p.dest_ip)
        + ":"@ + decimal(p.dest_port as nat) + " via "@;
    let protocol = if p.is_udp {
        "udp"@
    } else {
        "tcp"@
    };
    let proxy = config.host@ + ":"@ + decimal(config.port as nat) + " "@ + protocol;
    let all = connection_line(dir + name, pid, p, RuleAction::Proxy, config);
    assert(config.proxy_type == ProxyType::Http ==> all == start + "proxy "@ + "http"@ + "://"@
        + proxy);
    assert(config.proxy_type == ProxyType::Socks5 ==> all == start + "proxy "@ + "socks5"@
        + "://"@ + proxy);
}

} // verus!
