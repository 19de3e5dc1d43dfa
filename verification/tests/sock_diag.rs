use proxy_bridge::sock_diag::{
    build_dump_request, nlmsg_align, scan_dump, ByteOrder, DumpPart, FoundSocket, AF_INET,
    DUMP_FLAGS, NLMSG_DONE, NLMSG_ERROR, SOCK_DIAG_BY_FAMILY,
};

const LITTLE: ByteOrder = ByteOrder::Little;
const BIG: ByteOrder = ByteOrder::Big;

fn put32(order: ByteOrder, b: &mut [u8], n: u32) {
    b[..4].copy_from_slice(&match order {
        ByteOrder::Little => n.to_le_bytes(),
        ByteOrder::Big => n.to_be_bytes(),
    });
}

fn put16(order: ByteOrder, b: &mut [u8], n: u16) {
    b[..2].copy_from_slice(&match order {
        ByteOrder::Little => n.to_le_bytes(),
        ByteOrder::Big => n.to_be_bytes(),
    });
}

fn header(order: ByteOrder, len: u32, kind: u16) -> Vec<u8> {
    let mut m = vec![0u8; 16];
    put32(order, &mut m[0..], len);
    put16(order, &mut m[4..], kind);
    m
}

fn socket(order: ByteOrder, ip: [u8; 4], port: u16, uid: u32, inode: u32) -> Vec<u8> {
    let mut m = header(order, 88, 20);
    m.resize(88, 0);
    m[20..22].copy_from_slice(&port.to_be_bytes());
    m[24..28].copy_from_slice(&ip);
    put32(order, &mut m[80..], uid);
    put32(order, &mut m[84..], inode);
    m
}

const IP: u32 = 10 | (1 << 24);

fn scan(order: ByteOrder, parts: &[Vec<u8>]) -> DumpPart {
    let buf = parts.concat();
    scan_dump(order, &buf, buf.len(), IP, 4000)
}

#[test]
fn numbers_of_the_kernel() {
    assert_eq!(NLMSG_DONE as i32, libc::NLMSG_DONE);
    assert_eq!(NLMSG_ERROR as i32, libc::NLMSG_ERROR);
    assert_eq!(DUMP_FLAGS as i32, libc::NLM_F_REQUEST | libc::NLM_F_DUMP);
    assert_eq!(AF_INET as i32, libc::AF_INET);
    assert_eq!(SOCK_DIAG_BY_FAMILY, 20);
}

#[test]
fn requests_for_a_dump() {
    let r = build_dump_request(false, LITTLE);
    assert_eq!(r.len(), 72);
    assert_eq!(r[..24], [72, 0, 0, 0, 20, 0, 1, 3, 0, 0, 0, 0, 0, 0, 0, 0, 2, 6, 0, 0, 12, 0, 0, 0]);
    assert!(r[24..].iter().all(|b| *b == 0));
    let r = build_dump_request(true, BIG);
    assert_eq!(r.len(), 72);
    assert_eq!(
        r[..24],
        [0, 0, 0, 72, 0, 20, 3, 1, 0, 0, 0, 0, 0, 0, 0, 0, 2, 17, 0, 0, 255, 255, 255, 255]
    );
    assert!(r[24..].iter().all(|b| *b == 0));
}

#[test]
fn lengths_are_rounded_up() {
    for (n, want) in [(0, 0), (1, 4), (3, 4), (4, 4), (5, 8), (88, 88), (89, 92)] {
        assert_eq!(nlmsg_align(n), want);
    }
}

#[test]
fn a_socket_is_found() {
    for order in [LITTLE, BIG] {
        let other = socket(order, [10, 0, 0, 2], 4000, 1, 1);
        let near = socket(order, [10, 0, 0, 1], 4001, 2, 2);
        let own = socket(order, [10, 0, 0, 1], 4000, 1000, 0x01020304);
        let found = DumpPart::Found(FoundSocket { inode: 0x01020304, uid: 1000 });
        assert_eq!(scan(order, &[other.clone(), near.clone(), own.clone()]), found);
        assert_eq!(scan(order, &[other.clone(), near.clone()]), DumpPart::More);
        assert_eq!(scan(order, &[other, header(order, 20, 3), own]), DumpPart::Over);
    }
}

#[test]
fn a_dump_ends() {
    assert_eq!(scan(LITTLE, &[header(LITTLE, 20, 3)]), DumpPart::Over);
    assert_eq!(scan(LITTLE, &[header(LITTLE, 20, 2)]), DumpPart::Over);
    assert_eq!(scan(LITTLE, &[]), DumpPart::More);
}

#[test]
fn messages_of_odd_length() {
    let own = socket(LITTLE, [10, 0, 0, 1], 4000, 1, 7);
    let found = DumpPart::Found(FoundSocket { inode: 7, uid: 1 });
    // The next message starts at a multiple of four.
    let mut odd = header(LITTLE, 17, 9);
    odd.resize(20, 0);
    assert_eq!(scan(LITTLE, &[odd, own.clone()]), found);
    // Without a length there is no next message, nor behind the end.
    assert_eq!(scan(LITTLE, &[header(LITTLE, 0, 9), own.clone()]), DumpPart::More);
    assert_eq!(scan(LITTLE, &[header(LITTLE, u32::MAX, 9), own.clone()]), DumpPart::More);
    // Messages that are cut off
    assert_eq!(scan(LITTLE, &[own[..87].to_vec()]), DumpPart::More);
    assert_eq!(scan(LITTLE, &[own[..15].to_vec()]), DumpPart::More);
    // What lies behind the received bytes is not searched.
    let mut buf = header(LITTLE, 16, 9);
    buf.extend_from_slice(&own);
    assert_eq!(scan_dump(LITTLE, &buf, 16, IP, 4000), DumpPart::More);
    assert_eq!(scan_dump(LITTLE, &buf, 17, IP, 4000), found);
}

#[test]
fn a_dump_in_several_datagrams() {
    // The buffer is used again, so that old bytes lie behind the new ones.
    let other = socket(LITTLE, [10, 0, 0, 2], 4000, 1, 1);
    let own = socket(LITTLE, [10, 0, 0, 1], 4000, 5, 7);
    let mut buf = [0u8; 400];
    let first = [other.clone(), other.clone(), own.clone()].concat();
    buf[..first.len()].copy_from_slice(&first);
    let n = other.len();
    assert_eq!(scan_dump(LITTLE, &buf, n, IP, 4000), DumpPart::More);
    let found = DumpPart::Found(FoundSocket { inode: 7, uid: 5 });
    buf[..n].copy_from_slice(&own);
    assert_eq!(scan_dump(LITTLE, &buf, n, IP, 4000), found);
    buf[..16].copy_from_slice(&header(LITTLE, 16, 3));
    assert_eq!(scan_dump(LITTLE, &buf, 16, IP, 4000), DumpPart::Over);
}
