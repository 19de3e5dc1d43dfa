use proxy_bridge::connection::PidCache;
use proxy_bridge::process::{
    extract_filename, find_pid_from_inode, find_udp_socket, get_pid_from_connection, get_pid_from_connection_at,
    links_to_socket, may_own_socket, pid_from_name, process_name_source, read_udp_line,
    socket_link_text, udp_list, with_inode, LookupEvent, LookupStep, NameSource,
    OwnerEvent, OwnerStep,
};
use proxy_bridge::sock_diag::FoundSocket;

#[test]
fn the_search_goes_from_cache_to_netlink_to_list() {
    let mut c = PidCache::new();
    let step = get_pid_from_connection(1, 2, true, &mut c, LookupEvent::Begin);
    assert_eq!(step, LookupStep::AskNetlink);
    let step = get_pid_from_connection(1, 2, true, &mut c, LookupEvent::Netlink(None));
    assert_eq!(step, LookupStep::AskProcNet);
    let step = get_pid_from_connection(1, 2, true, &mut c, LookupEvent::ProcNet(Some(9)));
    assert_eq!(step, LookupStep::Known(9));
    let step = get_pid_from_connection(1, 2, true, &mut c, LookupEvent::Begin);
    assert_eq!(step, LookupStep::Known(9));
}

#[test]
fn tcp_has_no_list_to_fall_back_on() {
    let mut c = PidCache::new();
    let step = get_pid_from_connection(1, 2, false, &mut c, LookupEvent::Netlink(None));
    assert_eq!(step, LookupStep::Known(0));
    let step = get_pid_from_connection(1, 2, false, &mut c, LookupEvent::Begin);
    assert_eq!(step, LookupStep::AskNetlink);
}

#[test]
fn owners_are_remembered_for_a_while() {
    let mut c = PidCache::new();
    let found = LookupEvent::Netlink(Some(5));
    let step = get_pid_from_connection_at(1, 2, false, &mut c, found, 0);
    assert_eq!(step, LookupStep::Known(5));
    let step = get_pid_from_connection_at(1, 2, false, &mut c, LookupEvent::Begin, 9_999_999_999);
    assert_eq!(step, LookupStep::Known(5));
    let step = get_pid_from_connection_at(1, 2, false, &mut c, LookupEvent::Begin, 10_000_000_000);
    assert_eq!(step, LookupStep::AskNetlink);
    // That nothing was found is not remembered.
    let step = get_pid_from_connection_at(7, 2, true, &mut c, LookupEvent::ProcNet(None), 0);
    assert_eq!(step, LookupStep::Known(0));
    let step = get_pid_from_connection_at(7, 2, true, &mut c, LookupEvent::Begin, 0);
    assert_eq!(step, LookupStep::AskNetlink);
}

#[test]
fn sockets_need_an_inode() {
    let socket = FoundSocket { inode: 5, uid: 0 };
    assert_eq!(with_inode(Some(socket)), Some(socket));
    assert_eq!(with_inode(Some(FoundSocket { inode: 0, uid: 0 })), None);
    assert_eq!(with_inode(None), None);
}

#[test]
fn processes_that_may_own_a_socket() {
    assert!(may_own_socket("123", Some(1000), 1000));
    assert!(!may_own_socket("123", Some(1001), 1000));
    assert!(may_own_socket("123", Some(1001), u32::MAX));
    assert!(may_own_socket("123", None, 1000));
    assert!(!may_own_socket("self", Some(1000), 1000));
    assert!(!may_own_socket("", None, u32::MAX));
    assert!(!may_own_socket("٣", None, u32::MAX));
    assert_eq!(pid_from_name("123"), Some(123));
    assert_eq!(pid_from_name("12x"), None);
    assert_eq!(pid_from_name("4294967296"), None);
}

#[test]
fn descriptors_link_to_sockets() {
    assert_eq!(socket_link_text(4711), "socket:[4711]");
    let links = vec!["/dev/null".to_string(), "socket:[4711]".to_string()];
    assert!(links_to_socket(&links, 4711));
    assert!(!links_to_socket(&links, 471));
    assert!(!links_to_socket(&[], 4711));
}

#[test]
fn the_search_for_an_owner() {
    let socket = FoundSocket { inode: 4711, uid: 1000 };
    let links = lines(&["/dev/null", "socket:[4711]"]);
    let step = |event| find_pid_from_inode(&socket, event);
    let own = OwnerEvent::Entry { name: "77", owner: Some(1000) };
    assert_eq!(step(own), OwnerStep::ReadLinks);
    let foreign = OwnerEvent::Entry { name: "77", owner: Some(0) };
    assert_eq!(step(foreign), OwnerStep::NextEntry);
    let found = OwnerEvent::Links { name: "77", links: &links };
    assert_eq!(step(found), OwnerStep::End(Some(77)));
    let odd = OwnerEvent::Links { name: "7x", links: &links };
    assert_eq!(step(odd), OwnerStep::End(None));
    let other = OwnerEvent::Links { name: "77", links: &links[..1] };
    assert_eq!(step(other), OwnerStep::NextEntry);
}

#[test]
fn the_first_owner_is_found() {
    let socket = FoundSocket { inode: 9, uid: 1000 };
    let entries = [
        ("self", Some(1000), &["socket:[9]"][..]),
        ("10", Some(0), &["socket:[9]"][..]),
        ("11", Some(1000), &["socket:[8]"][..]),
        ("12", None, &["/dev/null", "socket:[9]"][..]),
        ("13", Some(1000), &["socket:[9]"][..]),
    ];
    let mut found = None;
    for (name, owner, links) in entries {
        let links = lines(links);
        let entry = OwnerEvent::Entry { name, owner };
        if find_pid_from_inode(&socket, entry) != OwnerStep::ReadLinks {
            continue;
        }
        let event = OwnerEvent::Links { name, links: &links };
        if let OwnerStep::End(pid) = find_pid_from_inode(&socket, event) {
            found = pid;
            break;
        }
    }
    assert_eq!(found, Some(12));
}

#[test]
fn lists_of_sockets() {
    assert_eq!(udp_list(0), Some("/proc/net/udp"));
    assert_eq!(udp_list(1), Some("/proc/net/udp6"));
    assert_eq!(udp_list(2), None);
}

const HEADING: &str =
    "   sl  local_address rem_address   st tx_queue rx_queue tr tm->when retrnsmt   uid  timeout inode ref pointer drops";
const DNS: &str =
    "  100: 3500007F:0035 00000000:0000 07 00000000:00000000 00:00000000 00000000   101        0 20304 2 0000000000000000 0";
const NTP: &str =
    "  200: 00000000:007B 00000000:0000 07 00000000:00000000 00:00000000 00000000     x        0 30405 2 0000000000000000 0";

fn lines(texts: &[&str]) -> Vec<String> {
    texts.iter().map(|s| s.to_string()).collect()
}

#[test]
fn sockets_are_found_in_the_list() {
    let all = lines(&[HEADING, DNS, NTP]);
    assert_eq!(find_udp_socket(&all, 53), Some(FoundSocket { inode: 20304, uid: 101 }));
    assert_eq!(find_udp_socket(&all, 123), Some(FoundSocket { inode: 30405, uid: u32::MAX }));
    assert_eq!(find_udp_socket(&all, 124), None);
    assert_eq!(find_udp_socket(&lines(&[DNS]), 53), None);
    assert_eq!(find_udp_socket(&[], 53), None);
}

#[test]
fn lines_that_tell_of_no_socket() {
    assert_eq!(read_udp_line("", 53), None);
    assert_eq!(read_udp_line("0 a:35 2 3 4 5 6 7 8", 53), None);
    let found = Some(FoundSocket { inode: 9, uid: 7 });
    assert_eq!(read_udp_line("0 a:35 2 3 4 5 6 7 8 9", 53), found);
    assert_eq!(read_udp_line("0 a35 2 3 4 5 6 7 8 9", 53), None);
    assert_eq!(read_udp_line("0 a:35 2 3 4 5 6 7 8 0", 53), None);
    assert_eq!(read_udp_line("0 a:35 2 3 4 5 6 7 8 x", 53), None);
    assert_eq!(read_udp_line("0 a:zz 2 3 4 5 6 7 8 9", 0), found);
    assert_eq!(read_udp_line("0 a:35:36 2 3 4 5 6 7 8 9", 53), None);
}

#[test]
fn names_of_processes() {
    assert!(matches!(process_name_source(0), NameSource::Nowhere));
    match process_name_source(1) {
        NameSource::Known(name) => assert_eq!(name, "systemd"),
        s => panic!("{s:?}"),
    }
    match process_name_source(4242) {
        NameSource::Link(path) => assert_eq!(path, "/proc/4242/exe"),
        s => panic!("{s:?}"),
    }
}

#[test]
fn file_names_of_paths() {
    assert_eq!(extract_filename("/usr/bin/curl"), "curl");
    assert_eq!(extract_filename("curl"), "curl");
    assert_eq!(extract_filename("/usr/bin/"), "");
    assert_eq!(extract_filename(""), "");
    assert_eq!(extract_filename("/ü/ß"), "ß");
}
