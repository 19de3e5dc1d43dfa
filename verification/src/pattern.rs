//! The patterns that rules are written with: process names, addresses and ports.

use vstd::prelude::*;

use crate::addr::{octets, octets_of};
use crate::text::{
    after_last, chars_of, cut, ends_with_ignore_case, eq_ignore_case, has_char, is_star, number,
    parse_number, pieces_between, same_ignoring_case, split, split_either, split_once, star,
    start_after_last, starts_with_ignore_case, trim, trimmed, views,
};

verus! {

/// Whether a single process pattern covers a process. A pattern with a `/` is
/// held against the whole path, any other against the file name. A `*` at the
/// end or else at the start stands for any text; ASCII case is ignored.
pub open spec fn process_pattern_covers(pattern: Seq<char>, path: Seq<char>) -> bool {
    let target = if pattern.contains('/') {
        path
    } else {
        after_last(path, '/')
    };
    if pattern == star() {
        true
    } else if pattern.len() > 0 && pattern.last() == '*' {
        starts_with_ignore_case(target, pattern.drop_last())
    } else if pattern.len() > 0 && pattern[0] == '*' {
        ends_with_ignore_case(target, pattern.drop_first())
    } else {
        eq_ignore_case(target, pattern)
    }
}

/// Whether some pattern of a `;`-separated list covers a process.
pub open spec fn process_list_covers(list: Seq<char>, path: Seq<char>) -> bool {
    exists|i: int|
        0 <= i < split(list, ';').len() && #[trigger] process_pattern_covers(
            trim(split(list, ';')[i]),
            path,
        )
}

/// The bounds of a range `first-last`, a bound that is no number counting as zero.
pub open spec fn range_covers(first: Seq<char>, last: Seq<char>, max: nat, n: nat) -> bool {
    let lo = match number(first, 10, max) {
        Some(v) => v,
        None => 0,
    };
    let hi = match number(last, 10, max) {
        Some(v) => v,
        None => 0,
    };
    lo <= n <= hi
}

/// Whether one part of an address pattern covers an octet: `*`, a range, or a
/// single number (anything else counts as 255).
pub open spec fn octet_covers(part: Seq<char>, octet: u8) -> bool {
    if part == star() {
        true
    } else {
        match split_once(part, '-') {
            Some((first, last)) => range_covers(first, last, 255, octet as nat),
            None => octet as nat == match number(part, 10, 255) {
                Some(v) => v,
                None => 255,
            },
        }
    }
}

/// Whether a single address pattern covers an address: `*`, or four parts that
/// each cover their octet.
pub open spec fn ip_pattern_covers(pattern: Seq<char>, ip: u32) -> bool {
    let parts = split(pattern, '.');
    ||| pattern == star()
    ||| {
        &&& parts.len() == 4
        &&& octet_covers(parts[0], octets(ip)[0])
        &&& octet_covers(parts[1], octets(ip)[1])
        &&& octet_covers(parts[2], octets(ip)[2])
        &&& octet_covers(parts[3], octets(ip)[3])
    }
}

/// Whether an empty list, or some pattern of a `;`-separated list, covers an address.
pub open spec fn ip_list_covers(list: Seq<char>, ip: u32) -> bool {
    ||| list.len() == 0
    ||| exists|i: int|
        0 <= i < split(list, ';').len() && #[trigger] ip_pattern_covers(
            trim(split(list, ';')[i]),
            ip,
        )
}

/// Whether a single port pattern covers a port: `*`, a range, or a single
/// number (anything else counts as zero).
pub open spec fn port_pattern_covers(pattern: Seq<char>, port: u16) -> bool {
    if pattern == star() {
        true
    } else {
        match split_once(pattern, '-') {
            Some((first, last)) => range_covers(first, last, 65535, port as nat),
            None => port as nat == match number(pattern, 10, 65535) {
                Some(v) => v,
                None => 0,
            },
        }
    }
}

/// Whether an empty list, or some pattern of a list separated by `,` or `;`,
/// covers a port.
pub open spec fn port_list_covers(list: Seq<char>, port: u16) -> bool {
    ||| list.len() == 0
    ||| exists|i: int|
        0 <= i < split_either(list, ',', ';').len() && #[trigger] port_pattern_covers(
            trim(split_either(list, ',', ';')[i]),
            port,
        )
}

/// A list that is just `*` has the one pattern `*`.
proof fn lemma_split_star(a: char, b: char)
    requires
        a != '*',
        b != '*',
    ensures
        split_either(star(), a, b) == seq![star()],
        trim(star()) == star(),
{
    assert(star().drop_first() == Seq::<char>::empty());
    reveal_with_fuel(crate::text::index_of_either, 2);
}

fn process_chars_match(pattern: &[char], path: &[char]) -> (r: bool)
    ensures
        r == process_pattern_covers(pattern@, path@),
{
    if is_star(pattern) {
        return true;
    }
    let target: &[char] = if has_char(pattern, '/') {
        path
    } else {
        let from: usize = start_after_last(path, '/');
        assert(path@.subrange(from as int, path@.len() as int) == path@.skip(from as int));
        &path[from..path.len()]
    };
    let n: usize = pattern.len();
    if n > 0 && pattern[n - 1] == '*' {
        let prefix: &[char] = &pattern[0..n - 1];
        assert(prefix@ == pattern@.drop_last());
        if prefix.len() > target.len() {
            return false;
        }
        assert(target@.subrange(0, prefix@.len() as int) == target@.take(prefix@.len() as int));
        return same_ignoring_case(&target[0..prefix.len()], prefix);
    }
    if n > 0 && pattern[0] == '*' {
        let suffix: &[char] = &pattern[1..n];
        assert(suffix@ == pattern@.drop_first());
        if suffix.len() > target.len() {
            return false;
        }
        let from: usize = target.len() - suffix.len();
        assert(target@.subrange(from as int, target@.len() as int) == target@.skip(from as int));
        return same_ignoring_case(&target[from..target.len()], suffix);
    }
    same_ignoring_case(target, pattern)
}

/// Matches a process against one pattern, with `*` as a prefix or suffix wildcard.
pub fn match_process_pattern(pattern: &str, process_full_path: &str) -> (r: bool)
    ensures
        r == process_pattern_covers(pattern@, process_full_path@),
{
    let pattern_chars: Vec<char> = chars_of(pattern);
    let path_chars: Vec<char> = chars_of(process_full_path);
    process_chars_match(pattern_chars.as_slice(), path_chars.as_slice())
}

/// Matches a process against a semicolon-separated list of patterns.
pub fn match_process_list(process_list: &str, process_name: &str) -> (r: bool)
    ensures
        r == process_list_covers(process_list@, process_name@),
{
    let list: Vec<char> = chars_of(process_list);
    let path: Vec<char> = chars_of(process_name);
    if is_star(list.as_slice()) {
        proof {
            lemma_split_star(';', ';');
            assert(process_pattern_covers(trim(split(list@, ';')[0]), path@));
        }
        return true;
    }
    let patterns: Vec<&[char]> = pieces_between(list.as_slice(), ';', ';');
    let mut i: usize = 0;
    while i < patterns.len()
        invariant
            i <= patterns@.len(),
            list@ == process_list@,
            path@ == process_name@,
            views(patterns@) == split(list@, ';'),
            forall|j: int|
                0 <= j < i ==> !#[trigger] process_pattern_covers(
                    trim(split(list@, ';')[j]),
                    path@,
                ),
        decreases patterns@.len() - i,
    {
        assert(split(list@, ';')[i as int] == patterns@[i as int]@);
        if process_chars_match(trimmed(patterns[i]), path.as_slice()) {
            return true;
        }
        i = i + 1;
    }
    assert(split(list@, ';').len() == patterns@.len());
    false
}

/// Whether a number lies in a textual range, a bad bound counting as zero.
fn in_range(first: &[char], last: &[char], max: u64, n: u64) -> (r: bool)
    ensures
        r == range_covers(first@, last@, max as nat, n as nat),
{
    let lo: u64 = match parse_number(first, 10, max) {
        Some(v) => v,
        None => 0,
    };
    let hi: u64 = match parse_number(last, 10, max) {
        Some(v) => v,
        None => 0,
    };
    lo <= n && n <= hi
}

fn octet_matches(part: &[char], octet: u8) -> (r: bool)
    ensures
        r == octet_covers(part@, octet),
{
    if is_star(part) {
        return true;
    }
    match cut(part, '-') {
        Some((first, last)) => in_range(first, last, 255, octet as u64),
        None => {
            let value: u64 = match parse_number(part, 10, 255) {
                Some(v) => v,
                None => 255,
            };
            octet as u64 == value
        },
    }
}

fn ip_chars_match(pattern: &[char], ip: u32) -> (r: bool)
    ensures
        r == ip_pattern_covers(pattern@, ip),
{
    if is_star(pattern) {
        return true;
    }
    let o: [u8; 4] = octets_of(ip);
    let parts: Vec<&[char]> = pieces_between(pattern, '.', '.');
    assert(views(parts@).len() == parts@.len());
    if parts.len() != 4 {
        return false;
    }
    assert(views(parts@)[0] == parts@[0]@);
    assert(views(parts@)[1] == parts@[1]@);
    assert(views(parts@)[2] == parts@[2]@);
    assert(views(parts@)[3] == parts@[3]@);
    octet_matches(parts[0], o[0]) && octet_matches(parts[1], o[1]) && octet_matches(parts[2], o[2])
        && octet_matches(parts[3], o[3])
}

/// Matches an address against one pattern like `192.168.*.*` or `10.0.0.1-255`.
pub fn match_ip_pattern(pattern: &str, ip: u32) -> (r: bool)
    ensures
        r == ip_pattern_covers(pattern@, ip),
{
    let pattern_chars: Vec<char> = chars_of(pattern);
    ip_chars_match(pattern_chars.as_slice(), ip)
}

/// Matches an address against a semicolon-separated list of patterns.
pub fn match_ip_list(ip_list: &str, ip: u32) -> (r: bool)
    ensures
        r == ip_list_covers(ip_list@, ip),
{
    let list: Vec<char> = chars_of(ip_list);
    if list.len() == 0 {
        return true;
    }
    if is_star(list.as_slice()) {
        proof {
            lemma_split_star(';', ';');
            assert(ip_pattern_covers(trim(split(list@, ';')[0]), ip));
        }
        return true;
    }
    let patterns: Vec<&[char]> = pieces_between(list.as_slice(), ';', ';');
    let mut i: usize = 0;
    while i < patterns.len()
        invariant
            i <= patterns@.len(),
            list@ == ip_list@,
            views(patterns@) == split(list@, ';'),
            forall|j: int|
                0 <= j < i ==> !#[trigger] ip_pattern_covers(trim(split(list@, ';')[j]), ip),
        decreases patterns@.len() - i,
    {
        assert(split(list@, ';')[i as int] == patterns@[i as int]@);
        if ip_chars_match(trimmed(patterns[i]), ip) {
            return true;
        }
        i = i + 1;
    }
    assert(split(list@, ';').len() == patterns@.len());
    false
}

fn port_chars_match(pattern: &[char], port: u16) -> (r: bool)
    ensures
        r == port_pattern_covers(pattern@, port),
{
    if is_star(pattern) {
        return true;
    }
    match cut(pattern, '-') {
        Some((first, last)) => in_range(first, last, 65535, port as u64),
        None => {
            let value: u64 = match parse_number(pattern, 10, 65535) {
                Some(v) => v,
                None => 0,
            };
            port as u64 == value
        },
    }
}

/// Matches a port against one pattern like `80` or `80-8080`.
pub fn match_port_pattern(pattern: &str, port: u16) -> (r: bool)
    ensures
        r == port_pattern_covers(pattern@, port),
{
    let pattern_chars: Vec<char> = chars_of(pattern);
    port_chars_match(pattern_chars.as_slice(), port)
}

/// Matches a port against a comma- or semicolon-separated list of patterns.
pub fn match_port_list(port_list: &str, port: u16) -> (r: bool)
    ensures
        r == port_list_covers(port_list@, port),
{
    let list: Vec<char> = chars_of(port_list);
    if list.len() == 0 {
        return true;
    }
    if is_star(list.as_slice()) {
        proof {
            lemma_split_star(',', ';');
            assert(port_pattern_covers(trim(split_either(list@, ',', ';')[0]), port));
        }
        return true;
    }
    let patterns: Vec<&[char]> = pieces_between(list.as_slice(), ',', ';');
    let mut i: usize = 0;
    while i < patterns.len()
        invariant
            i <= patterns@.len(),
            list@ == port_list@,
            views(patterns@) == split_either(list@, ',', ';'),
            forall|j: int|
                0 <= j < i ==> !#[trigger] port_pattern_covers(
                    trim(split_either(list@, ',', ';')[j]),
                    port,
                ),
        decreases patterns@.len() - i,
    {
        assert(split_either(list@, ',', ';')[i as int] == patterns@[i as int]@);
        if port_chars_match(trimmed(patterns[i]), port) {
            return true;
        }
        i = i + 1;
    }
    assert(split_either(list@, ',', ';').len() == patterns@.len());
    false
}

} // verus!
