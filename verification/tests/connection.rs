use proxy_bridge::config::{CONNECTION_TIMEOUT_MS, PID_CACHE_TTL_MS};
use proxy_bridge::connection::{is_younger, ConnectionTracker, PidCache};

const MS: u128 = 1_000_000;

#[test]
fn what_was_added_is_read_back() {
    let mut t = ConnectionTracker::new();
    assert!(!t.is_tracked(1000));
    assert_eq!(t.get(1000), None);
    t.add(1000, 1, 2, 3);
    t.add(1001, 1, 4, 5);
    assert!(t.is_tracked(1000));
    assert_eq!(t.get(1000), Some((2, 3)));
    t.add(1000, 1, 6, 7);
    assert_eq!(t.get(1000), Some((6, 7)));
    assert_eq!(t.get(1001), Some((4, 5)));
    t.clear();
    assert_eq!(t.get(1001), None);
}

#[test]
fn connections_are_found_by_destination() {
    let mut t = ConnectionTracker::default();
    t.add(1000, 1, 2, 3);
    t.add(1001, 1, 4, 5);
    t.add(1002, 1, 4, 6);
    assert_eq!(t.find_by_dest(4, 5), Some(1001));
    assert_eq!(t.find_by_dest(4, 6), Some(1002));
    assert_eq!(t.find_by_dest(4, 7), None);
    assert_eq!(t.find_by_dest(5, 5), None);
    t.add(1003, 1, 4, 6);
    let port = t.find_by_dest(4, 6);
    assert!(port == Some(1002) || port == Some(1003));
}

#[test]
fn stale_connections_are_removed() {
    let timeout = CONNECTION_TIMEOUT_MS as u128 * MS;
    let mut t = ConnectionTracker::new();
    t.add_at(1, 1, 1, 1, 0);
    t.add_at(2, 1, 1, 1, 10 * MS);
    t.add_at(3, 1, 1, 1, 10 * MS + timeout);
    t.cleanup_stale_at(timeout - 1);
    assert!(t.is_tracked(1) && t.is_tracked(2) && t.is_tracked(3));
    t.cleanup_stale_at(timeout);
    assert!(!t.is_tracked(1) && t.is_tracked(2) && t.is_tracked(3));
    t.cleanup_stale_at(timeout + 10 * MS);
    assert!(!t.is_tracked(2) && t.is_tracked(3));
    assert_eq!(t.get(3), Some((1, 1)));
}

#[test]
fn fresh_connections_stay() {
    let mut t = ConnectionTracker::new();
    t.add(1, 1, 8, 9);
    t.cleanup_stale();
    assert_eq!(t.get(1), Some((8, 9)));
}

#[test]
fn process_ids_are_read_back_until_they_expire() {
    let ttl = PID_CACHE_TTL_MS as u128 * MS;
    let mut c = PidCache::new();
    c.put_at(1, 2, 77, false, 5);
    assert_eq!(c.get_at(1, 2, false, 5), Some(77));
    assert_eq!(c.get_at(1, 2, false, 5 + ttl - 1), Some(77));
    assert_eq!(c.get_at(1, 2, false, 5 + ttl), None);
    assert_eq!(c.get_at(1, 2, false, 0), Some(77));
    // The protocol, the address and the port all count.
    assert_eq!(c.get_at(1, 2, true, 5), None);
    assert_eq!(c.get_at(2, 2, false, 5), None);
    assert_eq!(c.get_at(1, 3, false, 5), None);
}

#[test]
fn a_cleanup_of_the_cache_is_not_noticed() {
    let ttl = PID_CACHE_TTL_MS as u128 * MS;
    let mut c = PidCache::default();
    c.put_at(1, 1, 10, true, 0);
    c.put_at(2, 2, 20, true, ttl / 2);
    c.cleanup_at(ttl);
    assert_eq!(c.get_at(1, 1, true, ttl), None);
    assert_eq!(c.get_at(2, 2, true, ttl), Some(20));
    // The entry is gone, and not only expired.
    assert_eq!(c.get_at(1, 1, true, 0), None);
}

#[test]
fn the_clock_serves_the_cache() {
    let mut c = PidCache::new();
    c.put(1, 2, 3, true);
    assert_eq!(c.get(1, 2, true), Some(3));
    c.cleanup();
    assert_eq!(c.get(1, 2, true), Some(3));
    c.put(1, 2, 4, true);
    assert_eq!(c.get(1, 2, true), Some(4));
    c.clear();
    assert_eq!(c.get(1, 2, true), None);
}

#[test]
fn ages_are_whole_milliseconds() {
    assert!(is_younger(0, MS - 1, 1));
    assert!(!is_younger(0, MS, 1));
    assert!(is_younger(5, 0, 1));
    assert!(!is_younger(5, 0, 0));
    assert!(is_younger(0, u128::MAX, u64::MAX) == (u128::MAX / MS < u64::MAX as u128));
}
