//! Which process owns a connection, and what it is called: the decisions between the
//! reads of `/proc` and the kernel's socket diagnostics.

use vstd::prelude::*;

use crate::config::PID_CACHE_TTL_MS;
use crate::connection::{
    age_ms, cached_pid, law_pid_is_read_back, PidCache, PidCacheEntry, SocketKey,
};
use crate::sock_diag::{
    all_messages, dump_of, law_dump_over_datagrams, made_of, told, ByteOrder, DumpPart, FoundSocket,
    Received,
};
use crate::text::{
    after_last, chars_of, cut, decimal, is_word, number, parse_number, push_decimal, split_once,
    start_after_last, views, words, words_of,
};

verus! {

/// What the search for the owner of a connection has learned last.
#[derive(Debug, Clone, Copy, PartialEq, Eq, Structural)]
pub enum LookupEvent {
    /// Nothing yet.
    Begin,
    /// What the socket diagnostics led to.
    Netlink(Option<u32>),
    /// What the kernel's list of UDP sockets led to.
    ProcNet(Option<u32>),
}

/// What the search does next.
#[derive(Debug, Clone, Copy, PartialEq, Eq, Structural)]
pub enum LookupStep {
    /// It ends with this process id; 0 where there is none.
    Known(u32),
    /// It asks the socket diagnostics.
    AskNetlink,
    /// It reads the kernel's list of UDP sockets.
    AskProcNet,
}

/// What the search does next, given what the cache holds for the connection. Only UDP
/// sockets have a list to fall back on.
pub open spec fn next_step(cached: Option<u32>, is_udp: bool, event: LookupEvent) -> LookupStep {
    match event {
        LookupEvent::Begin => match cached {
            Some(pid) => LookupStep::Known(pid),
            None => LookupStep::AskNetlink,
        },
        LookupEvent::Netlink(Some(pid)) => LookupStep::Known(pid),
        LookupEvent::Netlink(None) => if is_udp {
            LookupStep::AskProcNet
        } else {
            LookupStep::Known(0)
        },
        LookupEvent::ProcNet(Some(pid)) => LookupStep::Known(pid),
        LookupEvent::ProcNet(None) => LookupStep::Known(0),
    }
}

/// The cache after a step: a process id that was looked up, and not 0, is stored.
pub open spec fn remembered(
    cache: Map<SocketKey, PidCacheEntry>,
    key: SocketKey,
    event: LookupEvent,
    step: LookupStep,
    now: u128,
) -> Map<SocketKey, PidCacheEntry> {
    match step {
        LookupStep::Known(pid) => if event is Begin || pid == 0 {
            cache
        } else {
            cache.insert(key, PidCacheEntry { pid, timestamp: now })
        },
        _ => cache,
    }
}

/// Takes the search for the owner of a connection one step further, as of the given
/// time.
pub fn get_pid_from_connection_at(
    src_ip: u32,
    src_port: u16,
    is_udp: bool,
    pid_cache: &mut PidCache,
    event: LookupEvent,
    now: u128,
) -> (step: LookupStep)
    ensures
        ({
            let key = SocketKey { src_ip, src_port, is_udp };
            &&& step == next_step(cached_pid(old(pid_cache)@, key, now), is_udp, event)
            &&& final(pid_cache)@ == remembered(old(pid_cache)@, key, event, step, now)
        }),
        final(pid_cache).started() == old(pid_cache).started(),
{
    let pid: u32 = match event {
        LookupEvent::Begin => {
            return match pid_cache.get_at(src_ip, src_port, is_udp, now) {
                Some(pid) => LookupStep::Known(pid),
                None => LookupStep::AskNetlink,
            };
        },
        LookupEvent::Netlink(Some(pid)) => pid,
        LookupEvent::Netlink(None) => {
            if is_udp {
                return LookupStep::AskProcNet;
            }
            0
        },
        LookupEvent::ProcNet(Some(pid)) => pid,
        LookupEvent::ProcNet(None) => 0,
    };
    if pid != 0 {
        pid_cache.put_at(src_ip, src_port, pid, is_udp, now);
    }
    LookupStep::Known(pid)
}

/// Takes the search for the owner of a connection one step further. The cache comes
/// first, then the socket diagnostics, then for UDP the kernel's list of sockets. Not stated is the
/// time, which the clock gives.
pub fn get_pid_from_connection(
    src_ip: u32,
    src_port: u16,
    is_udp: bool,
    pid_cache: &mut PidCache,
    event: LookupEvent,
) -> (step: LookupStep)
    ensures
        ({
            let key = SocketKey { src_ip, src_port, is_udp };
            exists|now: u128|
                step == next_step(#[trigger] cached_pid(old(pid_cache)@, key, now), is_udp, event)
                    && final(pid_cache)@ == remembered(old(pid_cache)@, key, event, step, now)
        }),
        final(pid_cache).started() == old(pid_cache).started(),
{
    let now: u128 = pid_cache.now();
    get_pid_from_connection_at(src_ip, src_port, is_udp, pid_cache, event, now)
}

/// The socket, unless it has no inode.
pub open spec fn having_inode(found: Option<FoundSocket>) -> Option<FoundSocket> {
    match found {
        Some(socket) => if socket.inode != 0 {
            Some(socket)
        } else {
            None
        },
        None => None,
    }
}

/// A socket without an inode has no owner to look for.
pub fn with_inode(found: Option<FoundSocket>) -> (r: Option<FoundSocket>)
    ensures
        r == having_inode(found),
{
    match found {
        Some(socket) => if socket.inode != 0 {
            Some(socket)
        } else {
            None
        },
        None => None,
    }
}

/// What a dump of sockets leads to is the first record of the socket before its end, and
/// nothing where that record has no inode, whatever may come behind it.
pub proof fn law_dump_leads_to_socket(
    order: ByteOrder,
    datagrams: Seq<Received>,
    parts: Seq<Seq<Seq<u8>>>,
    src_ip: u32,
    src_port: u16,
)
    requires
        made_of(order, datagrams, parts),
    ensures
        having_inode(dump_of(order, datagrams, src_ip, src_port)) == match told(
            order,
            all_messages(parts),
            src_ip,
            src_port,
        ) {
            DumpPart::Found(socket) if socket.inode != 0 => Some(socket),
            _ => None,
        },
{
    law_dump_over_datagrams(order, datagrams, parts, src_ip, src_port);
}

/// What an open descriptor of a socket links to.
pub open spec fn socket_link(inode: u64) -> Seq<char> {
    "socket:["@ + decimal(inode as nat) + "]"@
}

/// Writes what an open descriptor of a socket links to.
pub fn socket_link_text(inode: u64) -> (r: String)
    ensures
        r@ == socket_link(inode),
{
    let mut s: String = "socket:[".to_owned();
    push_decimal(&mut s, inode);
    s.concat("]")
}

/// Whether an entry of `/proc` can be the process that owns a socket: its name starts
/// with a digit, and its owner, as far as both are known, is that of the socket.
pub open spec fn can_own(name: Seq<char>, owner: Option<u32>, socket_uid: u32) -> bool {
    &&& name.len() > 0 && '0' <= name[0] <= '9'
    &&& socket_uid == u32::MAX || owner is None || owner == Some(socket_uid)
}

/// Whether an entry of `/proc` can be the process that owns a socket.
pub fn may_own_socket(name: &str, owner: Option<u32>, socket_uid: u32) -> (r: bool)
    ensures
        r == can_own(name@, owner, socket_uid),
{
    let chars: Vec<char> = chars_of(name);
    if chars.len() == 0 || chars[0] < '0' || chars[0] > '9' {
        return false;
    }
    if socket_uid == u32::MAX {
        return true;
    }
    match owner {
        Some(uid) => uid == socket_uid,
        None => true,
    }
}

/// Whether one of a process's descriptors links to a socket.
pub open spec fn holds_socket(links: Seq<String>, inode: u64) -> bool {
    exists|i: int| 0 <= i < links.len() && (#[trigger] links[i])@ == socket_link(inode)
}

/// Whether one of a process's descriptors links to a socket.
pub fn links_to_socket(links: &[String], inode: u64) -> (r: bool)
    ensures
        r == holds_socket(links@, inode),
{
    let expected: String = socket_link_text(inode);
    let mut i: usize = 0;
    while i < links.len()
        invariant
            i <= links@.len(),
            expected@ == socket_link(inode),
            forall|j: int| 0 <= j < i ==> (#[trigger] links@[j])@ != socket_link(inode),
        decreases links@.len() - i,
    {
        if is_word(links[i].as_str(), expected.as_str()) {
            return true;
        }
        i = i + 1;
    }
    false
}

/// Reads the process id that an entry of `/proc` is named after.
pub fn pid_from_name(name: &str) -> (r: Option<u32>)
    ensures
        r == named_pid(name@),
{
    let chars: Vec<char> = chars_of(name);
    match parse_number(chars.as_slice(), 10, u32::MAX as u64) {
        Some(n) => Some(n as u32),
        None => None,
    }
}

/// What the search of `/proc` for the owner of a socket has come upon.
#[derive(Debug, Clone, Copy)]
pub enum OwnerEvent<'a> {
    /// An entry with its name and, where that can be told, its owner.
    Entry { name: &'a str, owner: Option<u32> },
    /// What the open descriptors of the process with this name link to.
    Links { name: &'a str, links: &'a [String] },
}

/// What the search of `/proc` does next.
#[derive(Debug, Clone, Copy, PartialEq, Eq, Structural)]
pub enum OwnerStep {
    /// It goes on to the next entry.
    NextEntry,
    /// It reads the links of the entry.
    ReadLinks,
    /// It ends, with the process id that the entry is named after.
    End(Option<u32>),
}

/// The step for an entry.
pub open spec fn entry_step(socket: FoundSocket, name: Seq<char>, owner: Option<u32>) -> OwnerStep {
    if can_own(name, owner, socket.uid) {
        OwnerStep::ReadLinks
    } else {
        OwnerStep::NextEntry
    }
}

/// The process id that a name is.
pub open spec fn named_pid(name: Seq<char>) -> Option<u32> {
    match number(name, 10, u32::MAX as nat) {
        Some(n) => Some(n as u32),
        None => None,
    }
}

/// The step for the links of an entry.
pub open spec fn links_step(socket: FoundSocket, name: Seq<char>, links: Seq<String>) -> OwnerStep {
    if holds_socket(links, socket.inode) {
        OwnerStep::End(named_pid(name))
    } else {
        OwnerStep::NextEntry
    }
}

/// Takes the search of `/proc` for the owner of a socket one step further.
pub fn find_pid_from_inode(socket: &FoundSocket, event: OwnerEvent) -> (step: OwnerStep)
    ensures
        step == match event {
            OwnerEvent::Entry { name, owner } => entry_step(*socket, name@, owner),
            OwnerEvent::Links { name, links } => links_step(*socket, name@, links@),
        },
{
    match event {
        OwnerEvent::Entry { name, owner } => if may_own_socket(name, owner, socket.uid) {
            OwnerStep::ReadLinks
        } else {
            OwnerStep::NextEntry
        },
        OwnerEvent::Links { name, links } => if links_to_socket(links, socket.inode) {
            OwnerStep::End(pid_from_name(name))
        } else {
            OwnerStep::NextEntry
        },
    }
}

/// An entry of `/proc`: its name, its owner as far as that can be told, and what its open
/// descriptors link to, where they can be read.
pub struct ProcEntry {
    pub name: Seq<char>,
    pub owner: Option<u32>,
    pub links: Option<Seq<String>>,
}

/// What the search gives, entry by entry. One whose links cannot be read is passed over.
pub open spec fn search(socket: FoundSocket, entries: Seq<ProcEntry>) -> Option<u32>
    decreases entries.len(),
{
    if entries.len() == 0 {
        None
    } else {
        let e = entries[0];
        let rest = entries.drop_first();
        match (entry_step(socket, e.name, e.owner), e.links) {
            (OwnerStep::ReadLinks, Some(links)) => match links_step(socket, e.name, links) {
                OwnerStep::End(pid) => pid,
                _ => search(socket, rest),
            },
            _ => search(socket, rest),
        }
    }
}

/// Whether an entry can own a socket and links to it.
pub open spec fn owns(e: ProcEntry, socket: FoundSocket) -> bool {
    &&& can_own(e.name, e.owner, socket.uid)
    &&& e.links is Some
    &&& holds_socket(e.links->Some_0, socket.inode)
}

/// The first entry that can own the socket and links to it gives the process id, whatever
/// comes after it; where there is none, there is no owner.
pub proof fn law_first_owner_is_found(socket: FoundSocket, entries: Seq<ProcEntry>, i: int)
    requires
        0 <= i <= entries.len(),
        forall|j: int| 0 <= j < i ==> !owns(#[trigger] entries[j], socket),
        i < entries.len() ==> owns(entries[i], socket),
    ensures
        search(socket, entries) == if i < entries.len() {
            named_pid(entries[i].name)
        } else {
            None
        },
    decreases i,
{
    if i > 0 {
        let rest = entries.drop_first();
        assert(!owns(entries[0], socket));
        assert forall|j: int| 0 <= j < i - 1 implies !owns(#[trigger] rest[j], socket) by {
            assert(rest[j] == entries[j + 1]);
        }
        law_first_owner_is_found(socket, rest, i - 1);
    }
}

/// The number, or another one where the text holds none.
pub open spec fn number_or(s: Seq<char>, base: nat, max: nat, other: nat) -> nat {
    match number(s, base, max) {
        Some(n) => n,
        None => other,
    }
}

/// The socket with the given local port, where a line of the kernel's list of UDP
/// sockets tells of it: the port stands in hexadecimal behind the first colon of the
/// second word, the owner in the eighth, and the inode, which is not 0, in the tenth.
pub open spec fn socket_in_line(line: Seq<char>, src_port: u16) -> Option<FoundSocket> {
    let fields = words(line);
    let inode = number_or(fields[9], 10, u64::MAX as nat, 0);
    match split_once(fields[1], ':') {
        Some((_, port)) => if fields.len() >= 10 && number_or(port, 16, 65535, 0) == src_port
            && inode != 0 {
            Some(
                FoundSocket {
                    inode: inode as u64,
                    uid: number_or(fields[7], 10, u32::MAX as nat, u32::MAX as nat) as u32,
                },
            )
        } else {
            None
        },
        None => None,
    }
}

/// The first line that tells of the socket.
pub open spec fn first_socket(lines: Seq<String>, src_port: u16) -> Option<FoundSocket>
    decreases lines.len(),
{
    if lines.len() == 0 {
        None
    } else {
        match socket_in_line(lines[0]@, src_port) {
            Some(socket) => Some(socket),
            None => first_socket(lines.drop_first(), src_port),
        }
    }
}

fn parse_or(s: &[char], base: u64, max: u64, other: u64) -> (r: u64)
    requires
        2 <= base <= 36,
    ensures
        r == number_or(s@, base as nat, max as nat, other as nat),
{
    match parse_number(s, base, max) {
        Some(n) => n,
        None => other,
    }
}

/// The kernel's lists of UDP sockets, in the order in which they are read; `None` behind the
/// last one.
pub fn udp_list(i: usize) -> (r: Option<&'static str>)
    ensures
        match r {
            Some(path) => i < 2 && path@ == if i == 0 {
                "/proc/net/udp"@
            } else {
                "/proc/net/udp6"@
            },
            None => i >= 2,
        },
{
    if i == 0 {
        Some("/proc/net/udp")
    } else if i == 1 {
        Some("/proc/net/udp6")
    } else {
        None
    }
}

/// Reads a line of the kernel's list of UDP sockets.
pub fn read_udp_line(line: &str, src_port: u16) -> (r: Option<FoundSocket>)
    ensures
        r == socket_in_line(line@, src_port),
{
    let chars: Vec<char> = chars_of(line);
    let fields: Vec<&[char]> = words_of(chars.as_slice());
    assert(views(fields@).len() == fields@.len());
    if fields.len() < 10 {
        return None;
    }
    assert(views(fields@)[1] == fields@[1]@);
    assert(views(fields@)[7] == fields@[7]@);
    assert(views(fields@)[9] == fields@[9]@);
    match cut(fields[1], ':') {
        Some((_, port)) => {
            if parse_or(port, 16, 65535, 0) != src_port as u64 {
                return None;
            }
            let inode: u64 = parse_or(fields[9], 10, u64::MAX, 0);
            if inode == 0 {
                return None;
            }
            let uid: u64 = parse_or(fields[7], 10, u32::MAX as u64, u32::MAX as u64);
            Some(FoundSocket { inode, uid: uid as u32 })
        },
        None => None,
    }
}

/// Searches the kernel's list of UDP sockets, whose first line is a heading, for the
/// socket with the given local port.
pub fn find_udp_socket(lines: &[String], src_port: u16) -> (r: Option<FoundSocket>)
    ensures
        r == if lines@.len() > 0 {
            first_socket(lines@.skip(1), src_port)
        } else {
            None
        },
{
    let ghost all = lines@.skip(1);
    if lines.len() == 0 {
        return None;
    }
    let mut i: usize = 1;
    assert(all.skip(0) == all);
    while i < lines.len()
        invariant
            1 <= i <= lines@.len(),
            all == lines@.skip(1),
            first_socket(all, src_port) == first_socket(all.skip(i - 1), src_port),
        decreases lines@.len() - i,
    {
        proof {
            assert(all.skip(i - 1)[0] == lines@[i as int]);
            assert(all.skip(i - 1).drop_first() == all.skip(i as int));
        }
        if let Some(socket) = read_udp_line(lines[i].as_str(), src_port) {
            return Some(socket);
        }
        i = i + 1;
    }
    None
}

/// Where the name of a process comes from.
#[derive(Debug)]
pub enum NameSource {
    /// There is no such process.
    Nowhere,
    /// It is known.
    Known(String),
    /// The link at this path leads to it.
    Link(String),
}

/// Says where the name of a process comes from: the first process is the service
/// manager, and the others have a link to their program.
pub fn process_name_source(pid: u32) -> (r: NameSource)
    ensures
        match r {
            NameSource::Nowhere => pid == 0,
            NameSource::Known(name) => pid == 1 && name@ == "systemd"@,
            NameSource::Link(path) => pid > 1 && path@ == "/proc/"@ + decimal(pid as nat)
                + "/exe"@,
        },
{
    if pid == 0 {
        return NameSource::Nowhere;
    }
    if pid == 1 {
        return NameSource::Known("systemd".to_owned());
    }
    let mut path: String = "/proc/".to_owned();
    push_decimal(&mut path, pid as u64);
    NameSource::Link(path.concat("/exe"))
}

/// The part of a path behind its last `/`.
pub fn extract_filename(path: &str) -> (r: &str)
    ensures
        r@ == after_last(path@, '/'),
{
    let chars: Vec<char> = chars_of(path);
    let from: usize = start_after_last(chars.as_slice(), '/');
    let r: &str = path.substring_char(from, chars.len());
    assert(r@ == path@.skip(from as int));
    r
}

/// An owner that was looked up is known at once to the next search for it, until the entry
/// expires; that no owner was found is not remembered.
pub proof fn law_owner_is_remembered(
    cache: Map<SocketKey, PidCacheEntry>,
    key: SocketKey,
    event: LookupEvent,
    cached: Option<u32>,
    stamp: u128,
    now: u128,
)
    requires
        !(event is Begin),
        next_step(cached, key.is_udp, event) is Known,
    ensures
        ({
            let step = next_step(cached, key.is_udp, event);
            let after = remembered(cache, key, event, step, stamp);
            let pid = step->Known_0;
            &&& pid == 0 ==> after == cache
            &&& pid != 0 && age_ms(stamp, now) < PID_CACHE_TTL_MS ==> next_step(
                cached_pid(after, key, now),
                key.is_udp,
                LookupEvent::Begin,
            ) == LookupStep::Known(pid)
        }),
{
    let step = next_step(cached, key.is_udp, event);
    law_pid_is_read_back(cache, key, step->Known_0, stamp, key, now);
}

} // verus!
