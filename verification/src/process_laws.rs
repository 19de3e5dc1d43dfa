//! What holds of the search for the owner of a connection, said in terms of what is read and
//! what is known.

use vstd::prelude::*;

use crate::addr::{be16, octets};
use crate::connection::{PidCacheEntry, SocketKey};
use crate::process::{
    entry_step, first_socket, having_inode, holds_socket, links_step, next_step, remembered,
    socket_in_line, LookupEvent, LookupStep, OwnerStep,
};
use crate::sock_diag::{
    bytes16, bytes32, dump_request, is_socket, read16, read32, ByteOrder, FoundSocket,
};
use crate::text::{
    decimal, law_decimal_round_trip, number, split_once, words,
};
use crate::text_laws::{all_space, law_cut_at_first, law_words, no_space};

verus! {

/// The search asks the cache first, the socket diagnostics only where the cache has nothing,
/// and the list of UDP sockets only for UDP, and only where the diagnostics found nothing.
/// What is found is the end of it, and nothing found at the last place is 0.
pub proof fn law_order_of_the_search(cached: Option<u32>, is_udp: bool, pid: u32)
    ensures
        next_step(Some(pid), is_udp, LookupEvent::Begin) == LookupStep::Known(pid),
        next_step(None, is_udp, LookupEvent::Begin) == LookupStep::AskNetlink,
        next_step(cached, is_udp, LookupEvent::Netlink(Some(pid))) == LookupStep::Known(pid),
        next_step(cached, true, LookupEvent::Netlink(None)) == LookupStep::AskProcNet,
        next_step(cached, false, LookupEvent::Netlink(None)) == LookupStep::Known(0),
        next_step(cached, is_udp, LookupEvent::ProcNet(Some(pid))) == LookupStep::Known(pid),
        next_step(cached, is_udp, LookupEvent::ProcNet(None)) == LookupStep::Known(0),
{
}

/// Only a process id that was looked up, and is not 0, goes into the cache, under the socket
/// that was looked for and with the time; everything else in it stays.
pub proof fn law_what_is_remembered(
    cache: Map<SocketKey, PidCacheEntry>,
    key: SocketKey,
    event: LookupEvent,
    pid: u32,
    now: u128,
)
    ensures
        remembered(cache, key, LookupEvent::Begin, LookupStep::Known(pid), now) == cache,
        remembered(cache, key, event, LookupStep::Known(0), now) == cache,
        remembered(cache, key, event, LookupStep::AskNetlink, now) == cache,
        remembered(cache, key, event, LookupStep::AskProcNet, now) == cache,
        !(event is Begin) && pid != 0 ==> {
            let after = remembered(cache, key, event, LookupStep::Known(pid), now);
            &&& after.contains_key(key)
            &&& after[key].pid == pid
            &&& after[key].timestamp == now
            &&& after.remove(key) == cache.remove(key)
        },
{
    if !(event is Begin) && pid != 0 {
        let after = remembered(cache, key, event, LookupStep::Known(pid), now);
        assert(after.remove(key) =~= cache.remove(key));
    }
}

/// An entry of `/proc` is looked into exactly if its name begins with a digit and no other
/// user is known to own it than the one of the socket.
pub proof fn law_which_entries_are_looked_into(
    socket: FoundSocket,
    name: Seq<char>,
    owner: Option<u32>,
)
    ensures
        entry_step(socket, name, owner) == OwnerStep::ReadLinks || entry_step(socket, name, owner)
            == OwnerStep::NextEntry,
        entry_step(socket, name, owner) == OwnerStep::ReadLinks <==> {
            &&& name.len() > 0 && '0' <= name[0] <= '9'
            &&& !(owner is Some && socket.uid != 0xffff_ffff && owner->0 != socket.uid)
        },
{
}

/// The search ends exactly at an entry that links to `socket:[inode]`, with the number that
/// the entry is named after.
pub proof fn law_where_the_search_ends(
    socket: FoundSocket,
    name: Seq<char>,
    links: Seq<String>,
    pid: u32,
)
    ensures
        ({
            let link = "socket:["@ + decimal(socket.inode as nat) + "]"@;
            let held = exists|i: int| 0 <= i < links.len() && (#[trigger] links[i])@ == link;
            &&& !held ==> links_step(socket, name, links) == OwnerStep::NextEntry
            &&& held && number(name, 10, 0xffff_ffff) is None ==> links_step(socket, name, links)
                == OwnerStep::End(None)
            &&& held && name == decimal(pid as nat) ==> links_step(socket, name, links)
                == OwnerStep::End(Some(pid))
        }),
{
    law_decimal_round_trip(pid as nat, 0xffff_ffff);
    let link = "socket:["@ + decimal(socket.inode as nat) + "]"@;
    if exists|i: int| 0 <= i < links.len() && (#[trigger] links[i])@ == link {
        assert(holds_socket(links, socket.inode));
    }
}

/// A socket counts exactly if it has an inode that is not 0.
pub proof fn law_sockets_with_inode(socket: FoundSocket)
    ensures
        having_inode(None) is None,
        socket.inode == 0 ==> having_inode(Some(socket)) is None,
        socket.inode != 0 ==> having_inode(Some(socket)) == Some(socket),
{
}

/// Words with one space before each.
pub open spec fn spaced(list: Seq<Seq<char>>) -> Seq<char>
    decreases list.len(),
{
    if list.len() == 0 {
        seq![]
    } else {
        seq![' '] + list[0] + spaced(list.drop_first())
    }
}

proof fn lemma_words_of_spaced(list: Seq<Seq<char>>)
    requires
        forall|i: int| 0 <= i < list.len() ==> (#[trigger] list[i]).len() > 0 && no_space(list[i]),
    ensures
        words(spaced(list)) == list,
    decreases list.len(),
{
    if list.len() > 0 {
        let rest = list.drop_first();
        assert(list[0].len() > 0 && no_space(list[0]));
        assert forall|i: int| 0 <= i < rest.len() implies (#[trigger] rest[i]).len() > 0 && no_space(
            rest[i],
        ) by {
            assert(rest[i] == list[i + 1]);
        }
        lemma_words_of_spaced(rest);
        let tail = spaced(rest);
        assert(tail.len() == 0 || tail[0] == ' ') by {
            if rest.len() > 0 {
                assert(tail[0] == ' ');
            }
        }
        assert(all_space(seq![' ']));
        law_words(seq![' '], list[0], tail);
        assert(seq![list[0]] + rest == list);
    } else {
        law_words(Seq::empty(), seq!['x'], Seq::empty());
    }
}

/// A line of the list of UDP sockets is read back. Of its words, with white space between
/// them, the second holds an address and behind a colon the port in hexadecimal, the eighth
/// the owner, and the tenth the inode: the line tells of the socket with that port, and of
/// no other, unless its inode is 0.
pub proof fn law_udp_line_is_read_back(
    fields: Seq<Seq<char>>,
    address: Seq<char>,
    hex: Seq<char>,
    port: u16,
    uid: u32,
    inode: u64,
    src_port: u16,
)
    requires
        fields.len() >= 10,
        forall|i: int|
            0 <= i < fields.len() ==> (#[trigger] fields[i]).len() > 0 && no_space(fields[i]),
        !address.contains(':'),
        fields[1] == address.push(':') + hex,
        number(hex, 16, 65535) == Some(port as nat),
        fields[7] == decimal(uid as nat),
        fields[9] == decimal(inode as nat),
    ensures
        socket_in_line(spaced(fields), src_port) == if src_port == port && inode != 0 {
            Some(FoundSocket { inode, uid })
        } else {
            None
        },
{
    lemma_words_of_spaced(fields);
    law_cut_at_first(address, ':', hex);
    law_decimal_round_trip(uid as nat, u32::MAX as nat);
    law_decimal_round_trip(inode as nat, u64::MAX as nat);
}

/// Lines that tell of no socket: those with fewer than ten words, without a colon in the
/// second, or without a number for an inode. Without a number for an owner, the owner is not
/// known, and without one for a port, the port is 0.
pub proof fn law_other_udp_lines(line: Seq<char>, src_port: u16)
    ensures
        words(line).len() < 10 ==> socket_in_line(line, src_port) is None,
        words(line).len() >= 10 && !words(line)[1].contains(':') ==> socket_in_line(
            line,
            src_port,
        ) is None,
        words(line).len() >= 10 && number(words(line)[9], 10, 0xffff_ffff_ffff_ffff) is None
            ==> socket_in_line(line, src_port) is None,
        socket_in_line(line, src_port) is Some && number(words(line)[7], 10, 0xffff_ffff) is None
            ==> socket_in_line(line, src_port)->0.uid == 0xffff_ffff,
        socket_in_line(line, src_port) is Some && src_port != 0 ==> {
            split_once(words(line)[1], ':') matches Some((_, hex)) && number(hex, 16, 65535)
                == Some(src_port as nat)
        },
{
    if words(line).len() >= 10 && !words(line)[1].contains(':') {
        law_cut_at_first(words(line)[1], ':', Seq::empty());
    }
}

/// The first line that tells of the socket decides.
pub proof fn law_first_line_decides(lines: Seq<String>, line: String, src_port: u16)
    ensures
        first_socket(Seq::empty(), src_port) is None,
        first_socket(seq![line] + lines, src_port) == if socket_in_line(
            line@,
            src_port,
        ) is Some {
            socket_in_line(line@, src_port)
        } else {
            first_socket(lines, src_port)
        },
{
    let all = seq![line] + lines;
    assert(all.drop_first() == lines);
    assert(all[0] == line);
}

/// Numbers in a byte order: the lowest byte first, or the highest.
pub proof fn law_byte_orders(b: Seq<u8>, at: int, n: u16, m: u32)
    ensures
        read16(ByteOrder::Little, b, at) == b[at] + 256 * b[at + 1],
        read16(ByteOrder::Big, b, at) == 256 * b[at] + b[at + 1],
        read32(ByteOrder::Little, b, at) == b[at] + 256 * (b[at + 1] + 256 * (b[at + 2] + 256 * b[at
            + 3])),
        read32(ByteOrder::Big, b, at) == b[at + 3] + 256 * (b[at + 2] + 256 * (b[at + 1] + 256
            * b[at])),
        read16(ByteOrder::Little, bytes16(ByteOrder::Little, n), 0) == n,
        read16(ByteOrder::Big, bytes16(ByteOrder::Big, n), 0) == n,
        read32(ByteOrder::Little, bytes32(ByteOrder::Little, m), 0) == m,
        read32(ByteOrder::Big, bytes32(ByteOrder::Big, m), 0) == m,
        bytes16(ByteOrder::Little, n).len() == 2 && bytes16(ByteOrder::Big, n).len() == 2,
        bytes32(ByteOrder::Little, m).len() == 4 && bytes32(ByteOrder::Big, m).len() == 4,
{
}

/// What the request for a dump says: 72 bytes of the type 20, with the flags of a dump; IPv4
/// sockets of one protocol, of TCP those in the states 2 and 3 and of UDP all; and nothing
/// else.
pub proof fn law_dump_request_fields(is_udp: bool, order: ByteOrder, i: int)
    ensures
        ({
            let r = dump_request(is_udp, order);
            &&& r.len() == 72
            &&& read32(order, r, 0) == 72
            &&& read16(order, r, 4) == 20
            &&& read16(order, r, 6) == 0x301
            &&& read32(order, r, 8) == 0
            &&& read32(order, r, 12) == 0
            &&& r[16] == 2
            &&& is_udp ==> r[17] == 17 && read32(order, r, 20) == 0xffff_ffff
            &&& !is_udp ==> r[17] == 6 && read32(order, r, 20) == 12
            &&& r[18] == 0 && r[19] == 0
            &&& 24 <= i < 72 ==> r[i] == 0
        }),
{
}

/// A socket's message is that of a source exactly if it holds the octets of the address and
/// the port, with its high byte first, at their places.
pub proof fn law_socket_by_source(buf: Seq<u8>, at: int, src_ip: u32, src_port: u16)
    requires
        0 <= at,
    ensures
        is_socket(buf, at, src_ip, src_port) <==> {
            &&& at + 88 <= buf.len()
            &&& buf[at + 24] == src_ip % 256
            &&& buf[at + 25] == src_ip / 256 % 256
            &&& buf[at + 26] == src_ip / 65536 % 256
            &&& buf[at + 27] == src_ip / 16777216
            &&& buf[at + 20] == src_port / 256
            &&& buf[at + 21] == src_port % 256
        },
{
    if at + 88 <= buf.len() {
        let ip = buf.subrange(at + 24, at + 28);
        let port = buf.subrange(at + 20, at + 22);
        assert(ip[0] == buf[at + 24] && ip[1] == buf[at + 25] && ip[2] == buf[at + 26] && ip[3]
            == buf[at + 27]);
        assert(port[0] == buf[at + 20] && port[1] == buf[at + 21]);
        if buf[at + 24] == src_ip % 256 && buf[at + 25] == src_ip / 256 % 256 && buf[at + 26]
            == src_ip / 65536 % 256 && buf[at + 27] == src_ip / 16777216 && buf[at + 20] == src_port
            / 256 && buf[at + 21] == src_port % 256 {
            assert(ip == octets(src_ip));
            assert(port == be16(src_port));
        }
    }
}

} // verus!
