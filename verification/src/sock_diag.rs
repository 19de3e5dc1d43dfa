//! The kernel's socket diagnostics: the request for a dump of the IPv4 sockets, and
//! the search for a socket in the datagrams that answer it.

use vstd::prelude::*;

use crate::addr::{be16, octets, octets_of};
use crate::config::{IPPROTO_TCP, IPPROTO_UDP};

verus! {

/// Message type of a socket dump and of each socket in it.
pub const SOCK_DIAG_BY_FAMILY: u16 = 20;

/// Message type that reports an error.
pub const NLMSG_ERROR: u16 = 2;

/// Message type that ends a dump.
pub const NLMSG_DONE: u16 = 3;

/// Flags of a request for a dump: `NLM_F_REQUEST | NLM_F_ROOT | NLM_F_MATCH`.
pub const DUMP_FLAGS: u16 = 0x301;

/// Address family of IPv4.
pub const AF_INET: u8 = 2;

/// The TCP states asked for: the bits 2 and 3.
pub const TCP_STATES: u32 = 12;

/// Length of a message header.
pub const HEADER_LEN: usize = 16;

/// Length of a socket's message with its header.
pub const SOCKET_LEN: usize = 88;

/// The order in which a machine keeps the bytes of a number.
#[derive(Debug, Clone, Copy, PartialEq, Eq, Structural)]
pub enum ByteOrder {
    /// The lowest byte first.
    Little,
    /// The highest byte first.
    Big,
}

/// A 16-bit number in the given byte order.
pub open spec fn bytes16(order: ByteOrder, n: u16) -> Seq<u8> {
    match order {
        ByteOrder::Little => seq![(n % 256) as u8, (n / 256) as u8],
        ByteOrder::Big => seq![(n / 256) as u8, (n % 256) as u8],
    }
}

/// A 32-bit number in the given byte order.
pub open spec fn bytes32(order: ByteOrder, n: u32) -> Seq<u8> {
    match order {
        ByteOrder::Little => seq![
            (n % 256) as u8,
            (n / 256 % 256) as u8,
            (n / 65536 % 256) as u8,
            (n / 16777216) as u8,
        ],
        ByteOrder::Big => seq![
            (n / 16777216) as u8,
            (n / 65536 % 256) as u8,
            (n / 256 % 256) as u8,
            (n % 256) as u8,
        ],
    }
}

/// The 16-bit number at a place.
pub open spec fn read16(order: ByteOrder, b: Seq<u8>, at: int) -> u16 {
    match order {
        ByteOrder::Little => (b[at] + b[at + 1] * 256) as u16,
        ByteOrder::Big => (b[at] * 256 + b[at + 1]) as u16,
    }
}

/// The 32-bit number at a place.
pub open spec fn read32(order: ByteOrder, b: Seq<u8>, at: int) -> u32 {
    match order {
        ByteOrder::Little => (b[at] + b[at + 1] * 256 + b[at + 2] * 65536 + b[at + 3]
            * 16777216) as u32,
        ByteOrder::Big => (b[at] * 16777216 + b[at + 1] * 65536 + b[at + 2] * 256 + b[at
            + 3]) as u32,
    }
}

/// A number that was written is read back, wherever it stands.
pub proof fn law_numbers_are_read_back(
    order: ByteOrder,
    before: Seq<u8>,
    n: u16,
    m: u32,
    after: Seq<u8>,
)
    ensures
        read16(order, before + bytes16(order, n) + after, before.len() as int) == n,
        read32(order, before + bytes32(order, m) + after, before.len() as int) == m,
{
}

fn push16(out: &mut Vec<u8>, order: ByteOrder, n: u16)
    ensures
        final(out)@ == old(out)@ + bytes16(order, n),
{
    match order {
        ByteOrder::Little => {
            out.push((n % 256) as u8);
            out.push((n / 256) as u8);
        },
        ByteOrder::Big => {
            out.push((n / 256) as u8);
            out.push((n % 256) as u8);
        },
    }
    assert(out@ == old(out)@ + bytes16(order, n));
}

fn push32(out: &mut Vec<u8>, order: ByteOrder, n: u32)
    ensures
        final(out)@ == old(out)@ + bytes32(order, n),
{
    match order {
        ByteOrder::Little => {
            out.push((n % 256) as u8);
            out.push((n / 256 % 256) as u8);
            out.push((n / 65536 % 256) as u8);
            out.push((n / 16777216) as u8);
        },
        ByteOrder::Big => {
            out.push((n / 16777216) as u8);
            out.push((n / 65536 % 256) as u8);
            out.push((n / 256 % 256) as u8);
            out.push((n % 256) as u8);
        },
    }
    assert(out@ == old(out)@ + bytes32(order, n));
}

fn u16_at(order: ByteOrder, b: &[u8], at: usize) -> (r: u16)
    requires
        at + 2 <= b@.len(),
    ensures
        r == read16(order, b@, at as int),
{
    match order {
        ByteOrder::Little => b[at] as u16 + b[at + 1] as u16 * 256,
        ByteOrder::Big => b[at] as u16 * 256 + b[at + 1] as u16,
    }
}

fn u32_at(order: ByteOrder, b: &[u8], at: usize) -> (r: u32)
    requires
        at + 4 <= b@.len(),
    ensures
        r == read32(order, b@, at as int),
{
    match order {
        ByteOrder::Little => b[at] as u32 + b[at + 1] as u32 * 256 + b[at + 2] as u32 * 65536 + b[at
            + 3] as u32 * 16777216,
        ByteOrder::Big => b[at] as u32 * 16777216 + b[at + 1] as u32 * 65536 + b[at + 2] as u32
            * 256 + b[at + 3] as u32,
    }
}

/// The request for a dump of the TCP or UDP sockets: a message header, then what is
/// asked for, with an empty socket address.
pub open spec fn dump_request(is_udp: bool, order: ByteOrder) -> Seq<u8> {
    bytes32(order, 72) + bytes16(order, SOCK_DIAG_BY_FAMILY) + bytes16(order, DUMP_FLAGS) + bytes32(
        order,
        0,
    ) + bytes32(order, 0) + seq![
        AF_INET,
        if is_udp {
            IPPROTO_UDP
        } else {
            IPPROTO_TCP
        },
        0,
        0,
    ] + bytes32(
        order,
        if is_udp {
            u32::MAX
        } else {
            TCP_STATES
        },
    ) + Seq::new(48, |i: int| 0u8)
}

/// The request states its own length.
pub proof fn law_dump_request_length(is_udp: bool, order: ByteOrder)
    ensures
        dump_request(is_udp, order).len() == 72,
        read32(order, dump_request(is_udp, order), 0) == 72,
{
}

/// Builds the request for a dump of the TCP or UDP sockets.
pub fn build_dump_request(is_udp: bool, order: ByteOrder) -> (r: Vec<u8>)
    ensures
        r@ == dump_request(is_udp, order),
{
    let mut out: Vec<u8> = Vec::new();
    push32(&mut out, order, 72);
    push16(&mut out, order, SOCK_DIAG_BY_FAMILY);
    push16(&mut out, order, DUMP_FLAGS);
    push32(&mut out, order, 0);
    push32(&mut out, order, 0);
    let ghost header = out@;
    out.push(AF_INET);
    out.push(
        if is_udp {
            IPPROTO_UDP
        } else {
            IPPROTO_TCP
        },
    );
    out.push(0);
    out.push(0);
    assert(out@ == header + seq![
        AF_INET,
        if is_udp {
            IPPROTO_UDP
        } else {
            IPPROTO_TCP
        },
        0,
        0,
    ]);
    push32(
        &mut out,
        order,
        if is_udp {
            u32::MAX
        } else {
            TCP_STATES
        },
    );
    let ghost start = out@;
    let mut i: usize = 0;
    while i < 48
        invariant
            i <= 48,
            out@ == start + Seq::new(i as nat, |j: int| 0u8),
        decreases 48 - i,
    {
        out.push(0);
        i = i + 1;
        assert(out@ == start + Seq::new(i as nat, |j: int| 0u8));
    }
    out
}

/// The length that a message takes up: the next multiple of four.
pub open spec fn aligned(len: nat) -> nat {
    (len + 3) / 4 * 4
}

/// A message takes up its length and at most three bytes more, to a multiple of four.
pub proof fn law_aligned(len: nat)
    ensures
        aligned(len) % 4 == 0,
        len <= aligned(len) < len + 4,
        aligned(aligned(len)) == aligned(len),
{
}

/// The length that a message takes up: the next multiple of four.
pub fn nlmsg_align(len: usize) -> (r: usize)
    requires
        len + 3 <= usize::MAX,
    ensures
        r == aligned(len as nat),
{
    (len + 3) / 4 * 4
}

/// The socket that was searched for.
#[derive(Debug, Clone, Copy, PartialEq, Eq, Structural)]
pub struct FoundSocket {
    pub inode: u64,
    /// Its owner; `u32::MAX` where that is not known.
    pub uid: u32,
}

/// What a datagram of a dump tells.
#[derive(Debug, Clone, Copy, PartialEq, Eq, Structural)]
pub enum DumpPart {
    /// It holds the socket.
    Found(FoundSocket),
    /// It ends the dump, or reports an error.
    Over,
    /// More datagrams may follow.
    More,
}

/// The socket whose message stands at a place has the given source.
pub open spec fn is_socket(buf: Seq<u8>, at: int, src_ip: u32, src_port: u16) -> bool {
    &&& at + SOCKET_LEN <= buf.len()
    &&& buf.subrange(at + 24, at + 28) == octets(src_ip)
    &&& buf.subrange(at + 20, at + 22) == be16(src_port)
}

/// What the messages from a place on tell of a socket. A message that has no length,
/// or no room for its header, is taken for the end of the datagram.
pub open spec fn dump_from(
    order: ByteOrder,
    buf: Seq<u8>,
    len: nat,
    at: nat,
    src_ip: u32,
    src_port: u16,
) -> DumpPart
    decreases len - at,
{
    let kind = read16(order, buf, (at + 4) as int);
    let step = aligned(read32(order, buf, at as int) as nat);
    if at >= len || at + HEADER_LEN > buf.len() {
        DumpPart::More
    } else if kind == NLMSG_DONE || kind == NLMSG_ERROR {
        DumpPart::Over
    } else if kind == SOCK_DIAG_BY_FAMILY && is_socket(buf, at as int, src_ip, src_port) {
        DumpPart::Found(
            FoundSocket {
                inode: read32(order, buf, (at + 84) as int) as u64,
                uid: read32(order, buf, (at + 80) as int),
            },
        )
    } else if step == 0 || at + step >= len {
        DumpPart::More
    } else {
        dump_from(order, buf, len, at + step, src_ip, src_port)
    }
}

/// A socket that is found stands in the datagram, with the given source, and what is
/// told of it is what its message holds.
pub proof fn law_found_socket_is_in_dump(
    order: ByteOrder,
    buf: Seq<u8>,
    len: nat,
    at: nat,
    src_ip: u32,
    src_port: u16,
)
    requires
        dump_from(order, buf, len, at, src_ip, src_port) is Found,
    ensures
        exists|i: int|
            at <= i < len && #[trigger] is_socket(buf, i, src_ip, src_port) && dump_from(
                order,
                buf,
                len,
                at,
                src_ip,
                src_port,
            ) == DumpPart::Found(
                FoundSocket {
                    inode: read32(order, buf, i + 84) as u64,
                    uid: read32(order, buf, i + 80),
                },
            ),
    decreases len - at,
{
    let kind = read16(order, buf, (at + 4) as int);
    let step = aligned(read32(order, buf, at as int) as nat);
    if kind == SOCK_DIAG_BY_FAMILY && is_socket(buf, at as int, src_ip, src_port) {
        assert(is_socket(buf, at as int, src_ip, src_port));
    } else {
        law_found_socket_is_in_dump(order, buf, len, at + step, src_ip, src_port);
    }
}

fn socket_at(buf: &[u8], at: usize, src_ip: u32, src_port: u16) -> (r: bool)
    requires
        at + HEADER_LEN <= buf@.len(),
    ensures
        r == is_socket(buf@, at as int, src_ip, src_port),
{
    if buf.len() - at < SOCKET_LEN {
        return false;
    }
    let o: [u8; 4] = octets_of(src_ip);
    let r: bool = buf[at + 24] == o[0] && buf[at + 25] == o[1] && buf[at + 26] == o[2] && buf[at
        + 27] == o[3] && buf[at + 20] == (src_port / 256) as u8 && buf[at + 21] == (src_port
        % 256) as u8;
    proof {
        let ip = buf@.subrange(at + 24, at + 28);
        let port = buf@.subrange(at + 20, at + 22);
        if r {
            assert(ip == octets(src_ip));
            assert(port == be16(src_port));
        }
        assert(ip[0] == buf@[at + 24] && ip[1] == buf@[at + 25] && ip[2] == buf@[at + 26] && ip[3]
            == buf@[at + 27]);
        assert(port[0] == buf@[at + 20] && port[1] == buf@[at + 21]);
    }
    r
}

/// Searches a datagram of a dump, which takes up the first `len` bytes of a buffer,
/// for the socket with the given source.
pub fn scan_dump(
    order: ByteOrder,
    buf: &[u8],
    len: usize,
    src_ip: u32,
    src_port: u16,
) -> (r: DumpPart)
    requires
        len <= buf@.len(),
    ensures
        r == dump_from(order, buf@, len as nat, 0, src_ip, src_port),
{
    let mut at: usize = 0;
    while at < len
        invariant
            at <= len <= buf@.len(),
            dump_from(order, buf@, len as nat, 0, src_ip, src_port) == dump_from(
                order,
                buf@,
                len as nat,
                at as nat,
                src_ip,
                src_port,
            ),
        decreases len - at,
    {
        if buf.len() - at < HEADER_LEN {
            return DumpPart::More;
        }
        let kind: u16 = u16_at(order, buf, at + 4);
        if kind == NLMSG_DONE || kind == NLMSG_ERROR {
            return DumpPart::Over;
        }
        if kind == SOCK_DIAG_BY_FAMILY && socket_at(buf, at, src_ip, src_port) {
            let inode: u32 = u32_at(order, buf, at + 84);
            let uid: u32 = u32_at(order, buf, at + 80);
            return DumpPart::Found(FoundSocket { inode: inode as u64, uid });
        }
        let message_len: usize = u32_at(order, buf, at) as usize;
        proof {
            law_aligned(message_len as nat);
        }
        if message_len == 0 || message_len >= len - at || message_len > usize::MAX - 3 {
            return DumpPart::More;
        }
        let step: usize = nlmsg_align(message_len);
        if step >= len - at {
            return DumpPart::More;
        }
        at = at + step;
    }
    DumpPart::More
}

/// A message as the kernel sends it: it states its own length, which is a multiple of
/// four, and a socket's message is complete.
pub open spec fn is_message(order: ByteOrder, m: Seq<u8>) -> bool {
    &&& m.len() >= HEADER_LEN
    &&& m.len() % 4 == 0
    &&& read32(order, m, 0) == m.len()
    &&& read16(order, m, 4) == SOCK_DIAG_BY_FAMILY ==> m.len() >= SOCKET_LEN
}

/// Messages one after the other.
pub open spec fn joined(messages: Seq<Seq<u8>>) -> Seq<u8>
    decreases messages.len(),
{
    if messages.len() == 0 {
        seq![]
    } else {
        messages[0] + joined(messages.drop_first())
    }
}

/// What a list of messages tells of a socket: the first one decides that is its own, or
/// ends the dump.
pub open spec fn told(
    order: ByteOrder,
    messages: Seq<Seq<u8>>,
    src_ip: u32,
    src_port: u16,
) -> DumpPart
    decreases messages.len(),
{
    if messages.len() == 0 {
        DumpPart::More
    } else {
        let m = messages[0];
        let kind = read16(order, m, 4);
        if kind == NLMSG_DONE || kind == NLMSG_ERROR {
            DumpPart::Over
        } else if kind == SOCK_DIAG_BY_FAMILY && is_socket(m, 0, src_ip, src_port) {
            DumpPart::Found(
                FoundSocket { inode: read32(order, m, 84) as u64, uid: read32(order, m, 80) },
            )
        } else {
            told(order, messages.drop_first(), src_ip, src_port)
        }
    }
}

proof fn lemma_dump_of_messages(
    order: ByteOrder,
    before: Seq<u8>,
    messages: Seq<Seq<u8>>,
    after: Seq<u8>,
    src_ip: u32,
    src_port: u16,
)
    requires
        forall|i: int| 0 <= i < messages.len() ==> is_message(order, #[trigger] messages[i]),
    ensures
        dump_from(
            order,
            before + joined(messages) + after,
            (before + joined(messages)).len(),
            before.len(),
            src_ip,
            src_port,
        ) == told(order, messages, src_ip, src_port),
    decreases messages.len(),
{
    let buf = before + joined(messages) + after;
    let at = before.len() as int;
    if messages.len() > 0 {
        let m = messages[0];
        let rest = messages.drop_first();
        assert(is_message(order, m));
        assert(before + joined(messages) == before + m + joined(rest));
        assert forall|i: int| 0 <= i < m.len() implies #[trigger] buf[at + i] == m[i] by {}
        assert(read16(order, buf, at + 4) == read16(order, m, 4)) by {
            assert(buf[at + 4] == m[4] && buf[at + 5] == m[5]);
        }
        assert(read32(order, buf, at) == read32(order, m, 0)) by {
            assert(buf[at + 0] == m[0] && buf[at + 1] == m[1]);
            assert(buf[at + 2] == m[2] && buf[at + 3] == m[3]);
        }
        if read16(order, m, 4) == SOCK_DIAG_BY_FAMILY {
            assert(buf.subrange(at + 24, at + 28) == m.subrange(24, 28));
            assert(buf.subrange(at + 20, at + 22) == m.subrange(20, 22));
            assert(read32(order, buf, at + 84) == read32(order, m, 84)) by {
                assert(buf[at + 84] == m[84] && buf[at + 85] == m[85]);
                assert(buf[at + 86] == m[86] && buf[at + 87] == m[87]);
            }
            assert(read32(order, buf, at + 80) == read32(order, m, 80)) by {
                assert(buf[at + 80] == m[80] && buf[at + 81] == m[81]);
                assert(buf[at + 82] == m[82] && buf[at + 83] == m[83]);
            }
        }
        assert(aligned(m.len()) == m.len());
        assert forall|i: int| 0 <= i < rest.len() implies is_message(order, #[trigger] rest[i]) by {
            assert(rest[i] == messages[i + 1]);
        }
        lemma_dump_of_messages(order, before + m, rest, after, src_ip, src_port);
        if rest.len() == 0 {
            assert((before + joined(messages)).len() == before.len() + m.len());
        } else {
            assert(is_message(order, rest[0]));
            assert(joined(rest).len() >= rest[0].len());
        }
    }
}

/// A datagram that is made of the kernel's messages tells what they tell one by one,
/// whatever an earlier one has left behind it in the buffer: the socket is found exactly
/// where its message comes before any that ends the dump.
pub proof fn law_dump_is_what_its_messages_tell(
    order: ByteOrder,
    messages: Seq<Seq<u8>>,
    left_over: Seq<u8>,
    src_ip: u32,
    src_port: u16,
)
    requires
        forall|i: int| 0 <= i < messages.len() ==> is_message(order, #[trigger] messages[i]),
    ensures
        dump_from(
            order,
            joined(messages) + left_over,
            joined(messages).len(),
            0,
            src_ip,
            src_port,
        ) == told(order, messages, src_ip, src_port),
{
    assert(Seq::<u8>::empty() + joined(messages) == joined(messages));
    lemma_dump_of_messages(order, Seq::empty(), messages, left_over, src_ip, src_port);
}

/// A datagram as it was received: the buffer, and how many bytes of it were filled.
pub struct Received {
    pub buf: Seq<u8>,
    pub len: nat,
}

/// What the datagrams of a dump tell of a socket, up to the first receive that fails: the
/// first one decides that holds the socket, or ends the dump.
pub open spec fn dump_of(
    order: ByteOrder,
    datagrams: Seq<Received>,
    src_ip: u32,
    src_port: u16,
) -> Option<FoundSocket>
    decreases datagrams.len(),
{
    if datagrams.len() == 0 {
        None
    } else {
        match dump_from(order, datagrams[0].buf, datagrams[0].len, 0, src_ip, src_port) {
            DumpPart::Found(socket) => Some(socket),
            DumpPart::Over => None,
            DumpPart::More => dump_of(order, datagrams.drop_first(), src_ip, src_port),
        }
    }
}

/// The datagrams are made of the given messages, each of its own.
pub open spec fn made_of(
    order: ByteOrder,
    datagrams: Seq<Received>,
    parts: Seq<Seq<Seq<u8>>>,
) -> bool {
    &&& datagrams.len() == parts.len()
    &&& forall|k: int, i: int|
        0 <= k < parts.len() && 0 <= i < parts[k].len() ==> is_message(
            order,
            #[trigger] parts[k][i],
        )
    &&& forall|k: int|
        0 <= k < datagrams.len() ==> {
            &&& (#[trigger] datagrams[k]).len == joined(parts[k]).len()
            &&& datagrams[k].len <= datagrams[k].buf.len()
            &&& datagrams[k].buf.take(datagrams[k].len as int) == joined(parts[k])
        }
}

/// The messages of all datagrams, in order.
pub open spec fn all_messages(parts: Seq<Seq<Seq<u8>>>) -> Seq<Seq<u8>>
    decreases parts.len(),
{
    if parts.len() == 0 {
        seq![]
    } else {
        parts[0] + all_messages(parts.drop_first())
    }
}

proof fn lemma_told_of_two(
    order: ByteOrder,
    first: Seq<Seq<u8>>,
    second: Seq<Seq<u8>>,
    src_ip: u32,
    src_port: u16,
)
    ensures
        told(order, first + second, src_ip, src_port) == match told(
            order,
            first,
            src_ip,
            src_port,
        ) {
            DumpPart::More => told(order, second, src_ip, src_port),
            part => part,
        },
    decreases first.len(),
{
    if first.len() == 0 {
        assert(first + second == second);
    } else {
        assert((first + second).drop_first() == first.drop_first() + second);
        lemma_told_of_two(order, first.drop_first(), second, src_ip, src_port);
    }
}

/// A dump tells the same in however many datagrams it comes: the first message decides that
/// is the socket's own, or that ends the dump. A dump that breaks off before that tells of
/// no socket.
pub proof fn law_dump_over_datagrams(
    order: ByteOrder,
    datagrams: Seq<Received>,
    parts: Seq<Seq<Seq<u8>>>,
    src_ip: u32,
    src_port: u16,
)
    requires
        made_of(order, datagrams, parts),
    ensures
        dump_of(order, datagrams, src_ip, src_port) == match told(
            order,
            all_messages(parts),
            src_ip,
            src_port,
        ) {
            DumpPart::Found(socket) => Some(socket),
            _ => None,
        },
    decreases parts.len(),
{
    if parts.len() > 0 {
        let d = datagrams[0];
        let (more, rest) = (datagrams.drop_first(), parts.drop_first());
        assert(d.len == joined(parts[0]).len());
        let left_over = d.buf.skip(d.len as int);
        assert(d.buf == joined(parts[0]) + left_over);
        assert forall|i: int| 0 <= i < parts[0].len() implies is_message(
            order,
            #[trigger] parts[0][i],
        ) by {}
        law_dump_is_what_its_messages_tell(order, parts[0], left_over, src_ip, src_port);
        assert forall|k: int, i: int| 0 <= k < rest.len() && 0 <= i < rest[k].len() implies is_message(
            order,
            #[trigger] rest[k][i],
        ) by {
            assert(rest[k][i] == parts[k + 1][i]);
        }
        assert forall|k: int| 0 <= k < more.len() implies {
            &&& (#[trigger] more[k]).len == joined(rest[k]).len()
            &&& more[k].len <= more[k].buf.len()
            &&& more[k].buf.take(more[k].len as int) == joined(rest[k])
        } by {
            assert(more[k] == datagrams[k + 1]);
        }
        law_dump_over_datagrams(order, more, rest, src_ip, src_port);
        lemma_told_of_two(order, parts[0], all_messages(rest), src_ip, src_port);
    }
}

/// How a datagram is gone through: it is over where its bytes are, where a message has no
/// room for its header, and at a message without a length. A message that is neither the
/// socket's nor an end is passed over, with the bytes that fill it up to a multiple of four.
pub proof fn law_how_a_dump_goes_on(
    order: ByteOrder,
    buf: Seq<u8>,
    len: nat,
    at: nat,
    src_ip: u32,
    src_port: u16,
)
    ensures
        at >= len || at + 16 > buf.len() ==> dump_from(order, buf, len, at, src_ip, src_port)
            == DumpPart::More,
        at < len && at + 16 <= buf.len() ==> {
            let kind = read16(order, buf, (at + 4) as int);
            let size = read32(order, buf, at as int) as int;
            let step = (if size % 4 == 0 {
                size
            } else {
                size + 4 - size % 4
            }) as nat;
            let part = dump_from(order, buf, len, at, src_ip, src_port);
            &&& kind == 3 || kind == 2 ==> part == DumpPart::Over
            &&& kind == 20 && is_socket(buf, at as int, src_ip, src_port) ==> part is Found
            &&& !(kind == 3 || kind == 2 || kind == 20 && is_socket(
                buf,
                at as int,
                src_ip,
                src_port,
            )) ==> part == if size == 0 {
                DumpPart::More
            } else {
                dump_from(order, buf, len, at + step, src_ip, src_port)
            }
        },
{
    if at < len && at + 16 <= buf.len() {
        let size = read32(order, buf, at as int) as int;
        let step = (if size % 4 == 0 {
            size
        } else {
            size + 4 - size % 4
        }) as nat;
        lemma_step(size as nat, step);
        if step > 0 && at + step >= len {
            lemma_dump_is_over(order, buf, len, at + step, src_ip, src_port);
        }
    } else {
        lemma_dump_is_over(order, buf, len, at, src_ip, src_port);
    }
}

proof fn lemma_step(size: nat, step: nat)
    requires
        step == if size % 4 == 0 {
            size as int
        } else {
            size + 4 - size % 4
        },
    ensures
        aligned(size) == step,
        step == 0 <==> size == 0,
{
}

proof fn lemma_dump_is_over(
    order: ByteOrder,
    buf: Seq<u8>,
    len: nat,
    at: nat,
    src_ip: u32,
    src_port: u16,
)
    requires
        at >= len || at + 16 > buf.len(),
    ensures
        dump_from(order, buf, len, at, src_ip, src_port) == DumpPart::More,
{
}

} // verus!
