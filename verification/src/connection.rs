//! What is remembered between packets: the original destinations of redirected
//! connections, and the processes that own sockets.

use std::collections::HashMap;
use std::time::{Duration, Instant};

use vstd::prelude::*;

use crate::config::{CONNECTION_TIMEOUT_MS, PID_CACHE_TTL_MS};

verus! {

broadcast use vstd::std_specs::hash::group_hash_axioms;

/// `std::time::Instant`, a reading of the monotonic clock.
#[verifier::external_type_specification]
#[verifier::external_body]
pub struct ExInstant(Instant);

/// `Instant::now` reads the clock; nothing is claimed of the reading.
pub assume_specification[ Instant::now ]() -> Instant
;

/// `Instant::elapsed` gives the time since a reading; nothing is claimed of it.
pub assume_specification[ Instant::elapsed ](start: &Instant) -> Duration
;

/// `Duration::as_nanos` gives a span in nanoseconds; nothing is claimed of it.
pub assume_specification[ Duration::as_nanos ](span: &Duration) -> u128
;

/// A clock that counts the nanoseconds since it was made.
#[derive(Debug)]
pub(crate) struct Clock {
    start: Instant,
}

impl Clock {
    /// A clock that starts now. Nothing is stated of when that is.
    fn new() -> Self {
        Clock { start: Instant::now() }
    }

    /// The nanoseconds since the clock was made. Nothing is stated of the number: it rests
    /// on when it is read, and whoever takes it works for every value of it.
    fn now(&self) -> u128 {
        self.start.elapsed().as_nanos()
    }
}

/// The whole milliseconds from `stamp` to `now`; zero where `now` is earlier.
pub open spec fn age_ms(stamp: u128, now: u128) -> int {
    if now >= stamp {
        (now - stamp) / 1_000_000
    } else {
        0
    }
}

/// Whether less than `limit_ms` milliseconds have passed from `stamp` to `now`.
pub fn is_younger(stamp: u128, now: u128, limit_ms: u64) -> (r: bool)
    ensures
        r == (age_ms(stamp, now) < limit_ms),
{
    let age: u128 = if now >= stamp {
        (now - stamp) / 1_000_000
    } else {
        0
    };
    age < limit_ms as u128
}

/// What a sequence contains after a push.
proof fn lemma_contains_push<T>(s: Seq<T>, x: T)
    ensures
        forall|y: T| #[trigger] s.push(x).contains(y) <==> s.contains(y) || y == x,
{
    assert forall|y: T| #[trigger] s.push(x).contains(y) <==> s.contains(y) || y == x by {
        if s.contains(y) {
            let j = choose|j: int| 0 <= j < s.len() && s[j] == y;
            assert(s.push(x)[j] == y);
        }
        assert(s.push(x)[s.len() as int] == x);
        if s.push(x).contains(y) && y != x {
            let j = choose|j: int| 0 <= j < s.push(x).len() && s.push(x)[j] == y;
            assert(s[j] == y);
        }
    }
}

/// A tracked connection: where it went before it was redirected.
#[derive(Debug, Clone, Copy)]
pub struct ConnectionInfo {
    pub src_ip: u32,
    pub src_port: u16,
    pub orig_dest_ip: u32,
    pub orig_dest_port: u16,
    /// When the entry was written, in nanoseconds on the tracker's clock.
    pub last_activity: u128,
}

/// The connections that have not timed out.
pub open spec fn live_connections(m: Map<u16, ConnectionInfo>, now: u128) -> Map<
    u16,
    ConnectionInfo,
> {
    Map::new(
        |port: u16|
            m.contains_key(port) && age_ms(m[port].last_activity, now) < CONNECTION_TIMEOUT_MS,
        |port: u16| m[port],
    )
}

/// Whether a connection went to the given destination.
pub open spec fn went_to(info: ConnectionInfo, dest_ip: u32, dest_port: u16) -> bool {
    info.orig_dest_ip == dest_ip && info.orig_dest_port == dest_port
}

/// Redirected connections by source port.
#[derive(Debug)]
pub struct ConnectionTracker {
    connections: HashMap<u16, ConnectionInfo>,
    clock: Clock,
}

impl View for ConnectionTracker {
    type V = Map<u16, ConnectionInfo>;

    closed spec fn view(&self) -> Map<u16, ConnectionInfo> {
        self.connections@
    }
}

impl ConnectionTracker {
    /// When the clock of the tracker started: the times of all its entries count from then.
    pub closed spec fn started(&self) -> Instant {
        self.clock.start
    }

    /// Every entry is filed under its own source port.
    pub open spec fn wf(&self) -> bool {
        forall|port: u16| #[trigger] self@.contains_key(port) ==> self@[port].src_port == port
    }

    /// A tracker without connections.
    pub fn new() -> (r: Self)
        ensures
            r@ == Map::<u16, ConnectionInfo>::empty(),
            r.wf(),
    {
        Self { connections: HashMap::new(), clock: Clock::new() }
    }

    /// The time by the clock of the tracker. Nothing is stated of it, as of any reading.
    pub(crate) fn now(&self) -> u128 {
        self.clock.now()
    }

    /// Adds or replaces the connection with a source port, as of now.
    pub fn add(&mut self, src_port: u16, src_ip: u32, dest_ip: u32, dest_port: u16)
        ensures
            exists|now: u128|
                final(self)@ == old(self)@.insert(
                    src_port,
                    ConnectionInfo {
                        src_ip,
                        src_port,
                        orig_dest_ip: dest_ip,
                        orig_dest_port: dest_port,
                        last_activity: now,
                    },
                ),
            old(self).wf() ==> final(self).wf(),
            final(self).started() == old(self).started(),
    {
        let now: u128 = self.clock.now();
        self.add_at(src_port, src_ip, dest_ip, dest_port, now);
    }

    /// Adds or replaces the connection with a source port, as of the given time.
    pub fn add_at(
        &mut self,
        src_port: u16,
        src_ip: u32,
        dest_ip: u32,
        dest_port: u16,
        now: u128,
    )
        ensures
            final(self)@ == old(self)@.insert(
                src_port,
                ConnectionInfo {
                    src_ip,
                    src_port,
                    orig_dest_ip: dest_ip,
                    orig_dest_port: dest_port,
                    last_activity: now,
                },
            ),
            old(self).wf() ==> final(self).wf(),
            final(self).started() == old(self).started(),
    {
        let info = ConnectionInfo {
            src_ip,
            src_port,
            orig_dest_ip: dest_ip,
            orig_dest_port: dest_port,
            last_activity: now,
        };
        let _ = self.connections.insert(src_port, info);
        assert forall|port: u16| old(self).wf() && #[trigger] self@.contains_key(
            port,
        ) implies self@[port].src_port == port by {
            assert(port == src_port || old(self)@.contains_key(port));
        }
    }

    /// The original destination of the connection with a source port.
    pub fn get(&self, src_port: u16) -> (r: Option<(u32, u16)>)
        ensures
            r == if self@.contains_key(src_port) {
                Some((self@[src_port].orig_dest_ip, self@[src_port].orig_dest_port))
            } else {
                None
            },
    {
        match self.connections.get(&src_port) {
            Some(info) => Some((info.orig_dest_ip, info.orig_dest_port)),
            None => None,
        }
    }

    /// Whether a connection with the source port is tracked.
    pub fn is_tracked(&self, src_port: u16) -> (r: bool)
        ensures
            r == self@.contains_key(src_port),
    {
        self.connections.contains_key(&src_port)
    }

    /// Removes the connections that have timed out by now.
    pub fn cleanup_stale(&mut self)
        ensures
            exists|now: u128| final(self)@ == #[trigger] live_connections(old(self)@, now),
            old(self).wf() ==> final(self).wf(),
            final(self).started() == old(self).started(),
    {
        let now: u128 = self.clock.now();
        self.cleanup_stale_at(now);
    }

    /// Removes the connections that have timed out by the given time.
    pub fn cleanup_stale_at(&mut self, now: u128)
        ensures
            final(self)@ == live_connections(old(self)@, now),
            old(self).wf() ==> final(self).wf(),
            final(self).started() == old(self).started(),
    {
        let ghost before = self.connections@;
        let mut stale: Vec<u16> = Vec::new();
        for entry in it: self.connections.iter()
            invariant
                before == self.connections@,
                self.clock == old(self).clock,
                forall|j: int|
                    0 <= j < it.seq().len() ==> before.contains_key(*(#[trigger] it.seq()[j]).0)
                        && before[*it.seq()[j].0] == *it.seq()[j].1,
                forall|k: u16| #[trigger]
                    before.contains_key(k) ==> it.seq().contains((&k, &before[k])),
                forall|j: int|
                    0 <= j < stale@.len() ==> before.contains_key(#[trigger] stale@[j])
                        && age_ms(before[stale@[j]].last_activity, now) >= CONNECTION_TIMEOUT_MS,
                forall|j: int|
                    0 <= j < it.index() ==> age_ms((#[trigger] it.seq()[j]).1.last_activity, now)
                        < CONNECTION_TIMEOUT_MS || stale@.contains(*it.seq()[j].0),
        {
            let ghost known = stale@;
            if !is_younger(entry.1.last_activity, now, CONNECTION_TIMEOUT_MS) {
                stale.push(*entry.0);
                proof {
                    lemma_contains_push(known, *entry.0);
                }
            }
        }
        assert forall|k: u16| #[trigger] before.contains_key(k) implies age_ms(
            before[k].last_activity,
            now,
        ) < CONNECTION_TIMEOUT_MS || stale@.contains(k) by {
        }
        let mut i: usize = 0;
        while i < stale.len()
            invariant
                i <= stale@.len(),
                self.clock == old(self).clock,
                forall|k: u16| #[trigger]
                    self.connections@.contains_key(k) <==> before.contains_key(k)
                        && !stale@.take(i as int).contains(k),
                forall|k: u16|
                    self.connections@.contains_key(k) ==> #[trigger] self.connections@[k]
                        == before[k],
            decreases stale@.len() - i,
        {
            let ghost gone = stale@.take(i as int);
            let _ = self.connections.remove(&stale[i]);
            i = i + 1;
            proof {
                assert(stale@.take(i as int) == gone.push(stale@[i - 1]));
                lemma_contains_push(gone, stale@[i - 1]);
            }
        }
        assert(stale@.take(i as int) == stale@);
        assert(self.connections@ == live_connections(before, now));
        assert forall|port: u16| old(self).wf() && #[trigger] self@.contains_key(
            port,
        ) implies self@[port].src_port == port by {
            assert(old(self)@.contains_key(port));
        }
    }

    /// Removes all connections.
    pub fn clear(&mut self)
        ensures
            final(self)@ == Map::<u16, ConnectionInfo>::empty(),
            final(self).wf(),
            final(self).started() == old(self).started(),
    {
        self.connections.clear();
    }

    /// The source port of a connection that went to the given destination. Where
    /// several did, any of them may be returned.
    pub fn find_by_dest(&self, dest_ip: u32, dest_port: u16) -> (r: Option<u16>)
        ensures
            match r {
                Some(src_port) => exists|port: u16| #[trigger]
                    self@.contains_key(port) && went_to(self@[port], dest_ip, dest_port)
                        && self@[port].src_port == src_port,
                None => forall|port: u16| #[trigger]
                    self@.contains_key(port) ==> !went_to(self@[port], dest_ip, dest_port),
            },
            self.wf() && r is Some ==> self@.contains_key(r->0) && went_to(
                self@[r->0],
                dest_ip,
                dest_port,
            ),
    {
        let ghost all = self.connections@;
        for entry in it: self.connections.iter()
            invariant
                all == self@,
                all == self.connections@,
                forall|j: int|
                    0 <= j < it.seq().len() ==> all.contains_key(*(#[trigger] it.seq()[j]).0)
                        && all[*it.seq()[j].0] == *it.seq()[j].1,
                forall|k: u16| #[trigger]
                    all.contains_key(k) ==> it.seq().contains((&k, &all[k])),
                forall|j: int|
                    0 <= j < it.index() ==> !went_to(
                        *(#[trigger] it.seq()[j]).1,
                        dest_ip,
                        dest_port,
                    ),
        {
            if entry.1.orig_dest_ip == dest_ip && entry.1.orig_dest_port == dest_port {
                assert(self@.contains_key(*entry.0));
                return Some(entry.1.src_port);
            }
        }
        None
    }
}

impl Default for ConnectionTracker {
    /// A tracker without connections.
    fn default() -> (r: Self)
        ensures
            r@ == Map::<u16, ConnectionInfo>::empty(),
            r.wf(),
    {
        Self::new()
    }
}

/// What a process lookup is asked for.
pub struct SocketKey {
    pub src_ip: u32,
    pub src_port: u16,
    pub is_udp: bool,
}

/// A cached process id.
#[derive(Debug, Clone, Copy)]
pub struct PidCacheEntry {
    pub pid: u32,
    /// When the entry was written, in nanoseconds on the cache's clock.
    pub timestamp: u128,
}

/// The number under which a socket is filed.
pub open spec fn file_number(key: SocketKey) -> u64 {
    (key.src_ip * 131072 + key.src_port * 2 + if key.is_udp {
        1int
    } else {
        0
    }) as u64
}

/// Different sockets are filed under different numbers.
proof fn lemma_file_number(a: SocketKey, b: SocketKey)
    ensures
        file_number(a) == file_number(b) ==> a == b,
{
}

/// The entries that have not expired.
pub open spec fn live_pids(m: Map<SocketKey, PidCacheEntry>, now: u128) -> Map<
    SocketKey,
    PidCacheEntry,
> {
    Map::new(
        |key: SocketKey| m.contains_key(key) && age_ms(m[key].timestamp, now) < PID_CACHE_TTL_MS,
        |key: SocketKey| m[key],
    )
}

/// What the cache answers at a given time: the process id, unless it has expired.
pub open spec fn cached_pid(m: Map<SocketKey, PidCacheEntry>, key: SocketKey, now: u128) -> Option<
    u32,
> {
    if m.contains_key(key) && age_ms(m[key].timestamp, now) < PID_CACHE_TTL_MS {
        Some(m[key].pid)
    } else {
        None
    }
}

/// The owners of sockets, remembered for a limited time.
#[derive(Debug)]
pub struct PidCache {
    cache: HashMap<u64, PidCacheEntry>,
    clock: Clock,
}

impl View for PidCache {
    type V = Map<SocketKey, PidCacheEntry>;

    closed spec fn view(&self) -> Map<SocketKey, PidCacheEntry> {
        Map::new(
            |key: SocketKey| self.cache@.contains_key(file_number(key)),
            |key: SocketKey| self.cache@[file_number(key)],
        )
    }
}

/// Computes the number under which a socket is filed.
fn number_of(src_ip: u32, src_port: u16, is_udp: bool) -> (r: u64)
    ensures
        r == file_number(SocketKey { src_ip, src_port, is_udp }),
{
    let udp: u64 = if is_udp {
        1
    } else {
        0
    };
    src_ip as u64 * 131072 + src_port as u64 * 2 + udp
}

impl PidCache {
    /// When the clock of the cache started: the times of all its entries count from then.
    pub closed spec fn started(&self) -> Instant {
        self.clock.start
    }

    /// A cache without entries.
    pub fn new() -> (r: Self)
        ensures
            r@ == Map::<SocketKey, PidCacheEntry>::empty(),
    {
        let r = Self { cache: HashMap::new(), clock: Clock::new() };
        assert(r@ == Map::<SocketKey, PidCacheEntry>::empty());
        r
    }

    /// The time by the clock of the cache. Nothing is stated of it, as of any reading.
    pub(crate) fn now(&self) -> u128 {
        self.clock.now()
    }

    /// The cached process id, unless it has expired by now.
    pub fn get(&self, src_ip: u32, src_port: u16, is_udp: bool) -> (r: Option<u32>)
        ensures
            exists|now: u128|
                r == #[trigger] cached_pid(
                    self@,
                    SocketKey { src_ip, src_port, is_udp },
                    now,
                ),
    {
        let now: u128 = self.clock.now();
        self.get_at(src_ip, src_port, is_udp, now)
    }

    /// The cached process id, unless it has expired by the given time.
    pub fn get_at(&self, src_ip: u32, src_port: u16, is_udp: bool, now: u128) -> (r: Option<u32>)
        ensures
            r == cached_pid(self@, SocketKey { src_ip, src_port, is_udp }, now),
    {
        let number: u64 = number_of(src_ip, src_port, is_udp);
        match self.cache.get(&number) {
            Some(entry) => {
                if is_younger(entry.timestamp, now, PID_CACHE_TTL_MS) {
                    Some(entry.pid)
                } else {
                    None
                }
            },
            None => None,
        }
    }

    /// Stores a process id, as of now.
    pub fn put(&mut self, src_ip: u32, src_port: u16, pid: u32, is_udp: bool)
        ensures
            exists|now: u128|
                final(self)@ == old(self)@.insert(
                    SocketKey { src_ip, src_port, is_udp },
                    PidCacheEntry { pid, timestamp: now },
                ),
            final(self).started() == old(self).started(),
    {
        let now: u128 = self.clock.now();
        self.put_at(src_ip, src_port, pid, is_udp, now);
    }

    /// Stores a process id, as of the given time.
    pub fn put_at(&mut self, src_ip: u32, src_port: u16, pid: u32, is_udp: bool, now: u128)
        ensures
            final(self)@ == old(self)@.insert(
                SocketKey { src_ip, src_port, is_udp },
                PidCacheEntry { pid, timestamp: now },
            ),
            final(self).started() == old(self).started(),
    {
        let number: u64 = number_of(src_ip, src_port, is_udp);
        let _ = self.cache.insert(number, PidCacheEntry { pid, timestamp: now });
        proof {
            let key = SocketKey { src_ip, src_port, is_udp };
            let after = old(self)@.insert(key, PidCacheEntry { pid, timestamp: now });
            assert forall|k: SocketKey|
                #![trigger self@.contains_key(k)]
                #![trigger after.contains_key(k)]
                self@.contains_key(k) == after.contains_key(k) && (self@.contains_key(k)
                    ==> self@[k] == after[k]) by {
                lemma_file_number(k, key);
            }
            assert(self@ == after);
        }
    }

    /// Removes the entries that have expired by now.
    pub fn cleanup(&mut self)
        ensures
            exists|now: u128| final(self)@ == #[trigger] live_pids(old(self)@, now),
            final(self).started() == old(self).started(),
    {
        let now: u128 = self.clock.now();
        self.cleanup_at(now);
    }

    /// Removes the entries that have expired by the given time.
    pub fn cleanup_at(&mut self, now: u128)
        ensures
            final(self)@ == live_pids(old(self)@, now),
            final(self).started() == old(self).started(),
    {
        let ghost before = self.cache@;
        let mut stale: Vec<u64> = Vec::new();
        for entry in it: self.cache.iter()
            invariant
                before == self.cache@,
                self.clock == old(self).clock,
                forall|j: int|
                    0 <= j < it.seq().len() ==> before.contains_key(*(#[trigger] it.seq()[j]).0)
                        && before[*it.seq()[j].0] == *it.seq()[j].1,
                forall|k: u64| #[trigger]
                    before.contains_key(k) ==> it.seq().contains((&k, &before[k])),
                forall|j: int|
                    0 <= j < stale@.len() ==> before.contains_key(#[trigger] stale@[j]) && age_ms(
                        before[stale@[j]].timestamp,
                        now,
                    ) >= PID_CACHE_TTL_MS,
                forall|j: int|
                    0 <= j < it.index() ==> age_ms((#[trigger] it.seq()[j]).1.timestamp, now)
                        < PID_CACHE_TTL_MS || stale@.contains(*it.seq()[j].0),
        {
            let ghost known = stale@;
            if !is_younger(entry.1.timestamp, now, PID_CACHE_TTL_MS) {
                stale.push(*entry.0);
                proof {
                    lemma_contains_push(known, *entry.0);
                }
            }
        }
        assert forall|k: u64| #[trigger] before.contains_key(k) implies age_ms(
            before[k].timestamp,
            now,
        ) < PID_CACHE_TTL_MS || stale@.contains(k) by {
        }
        let mut i: usize = 0;
        while i < stale.len()
            invariant
                i <= stale@.len(),
                self.clock == old(self).clock,
                forall|k: u64| #[trigger]
                    self.cache@.contains_key(k) <==> before.contains_key(k) && !stale@.take(
                        i as int,
                    ).contains(k),
                forall|k: u64|
                    self.cache@.contains_key(k) ==> #[trigger] self.cache@[k] == before[k],
            decreases stale@.len() - i,
        {
            let ghost gone = stale@.take(i as int);
            let _ = self.cache.remove(&stale[i]);
            i = i + 1;
            proof {
                assert(stale@.take(i as int) == gone.push(stale@[i - 1]));
                lemma_contains_push(gone, stale@[i - 1]);
            }
        }
        assert(stale@.take(i as int) == stale@);
        assert(self@ == live_pids(old(self)@, now));
    }

    /// Removes all entries.
    pub fn clear(&mut self)
        ensures
            final(self)@ == Map::<SocketKey, PidCacheEntry>::empty(),
            final(self).started() == old(self).started(),
    {
        self.cache.clear();
        assert(self@ == Map::<SocketKey, PidCacheEntry>::empty());
    }
}

impl Default for PidCache {
    /// A cache without entries.
    fn default() -> (r: Self)
        ensures
            r@ == Map::<SocketKey, PidCacheEntry>::empty(),
    {
        Self::new()
    }
}

/// The connections after one was added.
pub open spec fn with_connection(m: Map<u16, ConnectionInfo>, info: ConnectionInfo) -> Map<
    u16,
    ConnectionInfo,
> {
    m.insert(info.src_port, info)
}

/// What was added last under a port is what is read there; other ports are not touched.
pub proof fn law_connection_is_read_back(
    m: Map<u16, ConnectionInfo>,
    info: ConnectionInfo,
    port: u16,
)
    ensures
        with_connection(m, info).contains_key(info.src_port),
        with_connection(m, info)[info.src_port] == info,
        port != info.src_port ==> with_connection(m, info).contains_key(port) == m.contains_key(
            port,
        ) && with_connection(m, info)[port] == m[port],
{
}

/// A cleanup keeps the connections that have not timed out, as they are; a second one at
/// the same time changes nothing, and a later one keeps no more.
pub proof fn law_cleanup_of_connections(
    m: Map<u16, ConnectionInfo>,
    now: u128,
    later: u128,
    port: u16,
)
    requires
        now <= later,
    ensures
        live_connections(m, now).contains_key(port) <==> m.contains_key(port) && age_ms(
            m[port].last_activity,
            now,
        ) < CONNECTION_TIMEOUT_MS,
        live_connections(m, now).contains_key(port) ==> live_connections(m, now)[port] == m[port],
        live_connections(live_connections(m, now), now) == live_connections(m, now),
        live_connections(live_connections(m, now), later) == live_connections(m, later),
{
    assert(live_connections(live_connections(m, now), now) == live_connections(m, now));
    assert forall|p: u16| #[trigger] m.contains_key(p) implies age_ms(m[p].last_activity, now)
        <= age_ms(m[p].last_activity, later) by {
        lemma_age_grows(m[p].last_activity, now, later);
    }
    assert(live_connections(live_connections(m, now), later) == live_connections(m, later));
}

/// Time passes.
proof fn lemma_age_grows(stamp: u128, now: u128, later: u128)
    requires
        now <= later,
    ensures
        age_ms(stamp, now) <= age_ms(stamp, later),
{
}

/// A process id is read back until its time is over, and other sockets are not touched.
pub proof fn law_pid_is_read_back(
    m: Map<SocketKey, PidCacheEntry>,
    key: SocketKey,
    pid: u32,
    stamp: u128,
    other: SocketKey,
    now: u128,
)
    ensures
        cached_pid(m.insert(key, PidCacheEntry { pid, timestamp: stamp }), key, now) == if age_ms(
            stamp,
            now,
        ) < PID_CACHE_TTL_MS {
            Some(pid)
        } else {
            None
        },
        other != key ==> cached_pid(
            m.insert(key, PidCacheEntry { pid, timestamp: stamp }),
            other,
            now,
        ) == cached_pid(m, other, now),
{
}

/// A cleanup of the cache is not noticed: from then on the cache answers as it would have
/// without one.
pub proof fn law_cleanup_of_pids_is_not_noticed(
    m: Map<SocketKey, PidCacheEntry>,
    cleanup: u128,
    key: SocketKey,
    now: u128,
)
    requires
        cleanup <= now,
    ensures
        cached_pid(live_pids(m, cleanup), key, now) == cached_pid(m, key, now),
{
    if m.contains_key(key) {
        lemma_age_grows(m[key].timestamp, cleanup, now);
    }
}

/// An entry lasts for a time: a connection is kept for less than 60 seconds after it was
/// noted, and a process id is known for less than 10 seconds after it was stored.
pub proof fn law_how_long_entries_last(
    connections: Map<u16, ConnectionInfo>,
    port: u16,
    pids: Map<SocketKey, PidCacheEntry>,
    key: SocketKey,
    now: u128,
)
    ensures
        live_connections(connections, now).contains_key(port) <==> connections.contains_key(port)
            && now < connections[port].last_activity + 60_000_000_000,
        live_pids(pids, now).contains_key(key) <==> pids.contains_key(key) && now
            < pids[key].timestamp + 10_000_000_000,
        live_pids(pids, now).contains_key(key) ==> live_pids(pids, now)[key] == pids[key],
        cached_pid(pids, key, now) == if pids.contains_key(key) && now < pids[key].timestamp
            + 10_000_000_000 {
            Some(pids[key].pid)
        } else {
            None
        },
{
}

/// A connection went to a destination where both the address and the port are those.
pub proof fn law_destination(info: ConnectionInfo, dest_ip: u32, dest_port: u16)
    ensures
        went_to(info, dest_ip, dest_port) <==> (info.orig_dest_ip, info.orig_dest_port) == (
            dest_ip,
            dest_port,
        ),
{
}

} // verus!
