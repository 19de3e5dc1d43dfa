//! What holds of patterns and lists of patterns as a whole.

use vstd::prelude::*;

use crate::addr::{dotted, is_local_or_group, law_octets_round_trip, octets};
use crate::pattern::{
    ip_list_covers, ip_pattern_covers, octet_covers, port_list_covers, port_pattern_covers,
    process_list_covers, process_pattern_covers,
};
use crate::text::{
    after_last, ascii_lower, decimal, eq_ignore_case, index_of_either, is_space,
    law_decimal_round_trip, law_split_of_one, law_split_of_two, lemma_decimal_digits,
    lemma_index_of_either_skips, number, split, split_either, split_once, star, trim, trim_end, trim_start,
};
use crate::text_laws::{
    all_space, law_after_last_of_path, law_cut_at_first, law_equality_up_to_case,
    law_prefix_and_suffix, law_trim, law_what_is_no_number, same_letter, same_text,
};

verus! {

/// A list of processes covers what its parts cover.
pub proof fn law_process_list_of_two(a: Seq<char>, b: Seq<char>, path: Seq<char>)
    ensures
        process_list_covers(a.push(';') + b, path) <==> process_list_covers(a, path)
            || process_list_covers(b, path),
{
    let list = a.push(';') + b;
    let (left, right) = (split(a, ';'), split(b, ';'));
    law_split_of_two(a, ';', b, ';', ';');
    assert(split(list, ';') == left + right);
    if process_list_covers(a, path) {
        let i = choose|i: int|
            0 <= i < left.len() && #[trigger] process_pattern_covers(trim(left[i]), path);
        assert(process_pattern_covers(trim(split(list, ';')[i]), path));
    }
    if process_list_covers(b, path) {
        let i = choose|i: int|
            0 <= i < right.len() && #[trigger] process_pattern_covers(trim(right[i]), path);
        assert(split(list, ';')[left.len() + i] == right[i]);
        assert(process_pattern_covers(trim(split(list, ';')[left.len() + i]), path));
    }
    if process_list_covers(list, path) {
        let i = choose|i: int|
            0 <= i < split(list, ';').len() && #[trigger] process_pattern_covers(
                trim(split(list, ';')[i]),
                path,
            );
        if i < left.len() {
            assert(process_pattern_covers(trim(left[i]), path));
        } else {
            assert(process_pattern_covers(trim(right[i - left.len()]), path));
        }
    }
}

/// A list of addresses covers what its parts cover, where none of them is empty.
pub proof fn law_ip_list_of_two(a: Seq<char>, b: Seq<char>, ip: u32)
    requires
        a.len() > 0,
        b.len() > 0,
    ensures
        ip_list_covers(a.push(';') + b, ip) <==> ip_list_covers(a, ip) || ip_list_covers(b, ip),
{
    let list = a.push(';') + b;
    let (left, right) = (split(a, ';'), split(b, ';'));
    law_split_of_two(a, ';', b, ';', ';');
    assert(split(list, ';') == left + right);
    if ip_list_covers(a, ip) {
        let i = choose|i: int|
            0 <= i < left.len() && #[trigger] ip_pattern_covers(trim(left[i]), ip);
        assert(ip_pattern_covers(trim(split(list, ';')[i]), ip));
    }
    if ip_list_covers(b, ip) {
        let i = choose|i: int|
            0 <= i < right.len() && #[trigger] ip_pattern_covers(trim(right[i]), ip);
        assert(split(list, ';')[left.len() + i] == right[i]);
        assert(ip_pattern_covers(trim(split(list, ';')[left.len() + i]), ip));
    }
    if ip_list_covers(list, ip) {
        let i = choose|i: int|
            0 <= i < split(list, ';').len() && #[trigger] ip_pattern_covers(
                trim(split(list, ';')[i]),
                ip,
            );
        if i < left.len() {
            assert(ip_pattern_covers(trim(left[i]), ip));
        } else {
            assert(ip_pattern_covers(trim(right[i - left.len()]), ip));
        }
    }
}

/// A list of ports covers what its parts cover, where none of them is empty, whichever
/// separator stands between them.
pub proof fn law_port_list_of_two(a: Seq<char>, sep: char, b: Seq<char>, port: u16)
    requires
        a.len() > 0,
        b.len() > 0,
        sep == ',' || sep == ';',
    ensures
        port_list_covers(a.push(sep) + b, port) <==> port_list_covers(a, port) || port_list_covers(
            b,
            port,
        ),
{
    let list = a.push(sep) + b;
    let all = split_either(list, ',', ';');
    let (left, right) = (split_either(a, ',', ';'), split_either(b, ',', ';'));
    law_split_of_two(a, sep, b, ',', ';');
    assert(all == left + right);
    if port_list_covers(a, port) {
        let i = choose|i: int|
            0 <= i < left.len() && #[trigger] port_pattern_covers(trim(left[i]), port);
        assert(port_pattern_covers(trim(all[i]), port));
    }
    if port_list_covers(b, port) {
        let i = choose|i: int|
            0 <= i < right.len() && #[trigger] port_pattern_covers(trim(right[i]), port);
        assert(all[left.len() + i] == right[i]);
        assert(port_pattern_covers(trim(all[left.len() + i]), port));
    }
    if port_list_covers(list, port) {
        let i = choose|i: int|
            0 <= i < all.len() && #[trigger] port_pattern_covers(trim(all[i]), port);
        if i < left.len() {
            assert(port_pattern_covers(trim(left[i]), port));
        } else {
            assert(port_pattern_covers(trim(right[i - left.len()]), port));
        }
    }
}

/// A decimal text is no wildcard, and holds neither of the characters that part patterns.
proof fn lemma_decimal_is_plain(n: nat)
    ensures
        !decimal(n).contains('.'),
        !decimal(n).contains('-'),
        decimal(n) != star(),
        split_once(decimal(n), '-') is None,
{
    lemma_decimal_digits(n);
    let s = decimal(n);
    if s.contains('.') {
        let i = choose|i: int| 0 <= i < s.len() && s[i] == '.';
        assert('0' <= s[i]);
    }
    if s.contains('-') {
        let i = choose|i: int| 0 <= i < s.len() && s[i] == '-';
        assert('0' <= s[i]);
    }
    assert('0' <= s[0] <= '9');
    assert(star()[0] == '*');
    assert(s + Seq::<char>::empty() == s);
    lemma_index_of_either_skips(s, Seq::empty(), '-', '-');
}

/// What is on the two sides of the dash of a range between two numbers.
proof fn lemma_range_parts(first: nat, last: nat)
    ensures
        split_once(decimal(first).push('-') + decimal(last), '-') == Some(
            (decimal(first), decimal(last)),
        ),
        decimal(first).push('-') + decimal(last) != star(),
{
    let (a, b) = (decimal(first), decimal(last));
    let s = a.push('-') + b;
    lemma_decimal_is_plain(first);
    lemma_decimal_digits(first);
    assert(s == a + (seq!['-'] + b));
    lemma_index_of_either_skips(a, seq!['-'] + b, '-', '-');
    assert((seq!['-'] + b)[0] == '-');
    assert(index_of_either(s, '-', '-') == a.len());
    assert(s.take(a.len() as int) == a);
    assert(s.skip((a.len() + 1) as int) == b);
    assert(s.len() >= 2);
}

/// A number, as a part of an address pattern, covers that octet and no other; a range
/// covers the octets from its first to its last number.
pub proof fn law_octet_patterns(n: u8, first: u8, last: u8, octet: u8)
    ensures
        octet_covers(decimal(n as nat), octet) <==> octet == n,
        octet_covers(decimal(first as nat).push('-') + decimal(last as nat), octet) <==> first
            <= octet <= last,
{
    lemma_decimal_is_plain(n as nat);
    law_decimal_round_trip(n as nat, 255);
    lemma_range_parts(first as nat, last as nat);
    law_decimal_round_trip(first as nat, 255);
    law_decimal_round_trip(last as nat, 255);
}

/// A number, as a port pattern, covers that port and no other; a range covers the ports
/// from its first to its last number.
pub proof fn law_port_patterns(n: u16, first: u16, last: u16, port: u16)
    ensures
        port_pattern_covers(decimal(n as nat), port) <==> port == n,
        port_pattern_covers(decimal(first as nat).push('-') + decimal(last as nat), port) <==> first
            <= port <= last,
{
    lemma_decimal_is_plain(n as nat);
    law_decimal_round_trip(n as nat, 65535);
    lemma_range_parts(first as nat, last as nat);
    law_decimal_round_trip(first as nat, 65535);
    law_decimal_round_trip(last as nat, 65535);
}

/// An address in dotted form, as a pattern, covers that address and no other.
pub proof fn law_dotted_pattern(a: u32, b: u32)
    ensures
        ip_pattern_covers(dotted(a), b) <==> a == b,
{
    let o = octets(a);
    let d0 = decimal(o[0] as nat);
    let d1 = decimal(o[1] as nat);
    let d2 = decimal(o[2] as nat);
    let d3 = decimal(o[3] as nat);
    lemma_decimal_is_plain(o[0] as nat);
    lemma_decimal_is_plain(o[1] as nat);
    lemma_decimal_is_plain(o[2] as nat);
    lemma_decimal_is_plain(o[3] as nat);
    lemma_decimal_digits(o[0] as nat);
    let two = d0.push('.') + d1;
    let three = two.push('.') + d2;
    let four = three.push('.') + d3;
    assert(four == dotted(a));
    law_split_of_one(d0, '.', '.');
    law_split_of_one(d1, '.', '.');
    law_split_of_one(d2, '.', '.');
    law_split_of_one(d3, '.', '.');
    law_split_of_two(d0, '.', d1, '.', '.');
    law_split_of_two(two, '.', d2, '.', '.');
    law_split_of_two(three, '.', d3, '.', '.');
    assert(split(dotted(a), '.') == seq![d0, d1, d2, d3]);
    assert(dotted(a).len() > 1);
    assert(dotted(a) != star());
    law_octet_patterns(o[0], 0, 0, octets(b)[0]);
    law_octet_patterns(o[1], 0, 0, octets(b)[1]);
    law_octet_patterns(o[2], 0, 0, octets(b)[2]);
    law_octet_patterns(o[3], 0, 0, octets(b)[3]);
    law_octets_round_trip(a);
    law_octets_round_trip(b);
}

/// A star covers every process, address and port.
pub proof fn law_star_covers_all(path: Seq<char>, ip: u32, port: u16)
    ensures
        process_list_covers(star(), path),
        ip_list_covers(star(), ip),
        port_list_covers(star(), port),
{
    assert(!star().contains(';') && !star().contains(','));
    law_split_of_one(star(), ';', ';');
    law_split_of_one(star(), ',', ';');
    assert(trim(star()) == star());
    assert(process_pattern_covers(trim(split(star(), ';')[0]), path));
    assert(ip_pattern_covers(trim(split(star(), ';')[0]), ip));
    assert(port_pattern_covers(trim(split_either(star(), ',', ';')[0]), port));
}

/// A character that is no letter is only itself in either case.
proof fn lemma_fixed_char(c: char, d: char)
    requires
        ascii_lower(c) == ascii_lower(d),
        !('A' <= d <= 'Z'),
        !('a' <= d <= 'z'),
    ensures
        c == d,
{
    if 'A' <= c <= 'Z' {
        assert(c as u32 + 32 == d as u32);
    }
}

proof fn lemma_spaces_ignore_case(c: char, d: char)
    requires
        ascii_lower(c) == ascii_lower(d),
    ensures
        is_space(c) == is_space(d),
{
    if is_space(c) {
        lemma_fixed_char(d, c);
    }
    if is_space(d) {
        lemma_fixed_char(c, d);
    }
}

proof fn lemma_after_last_ignores_case(a: Seq<char>, b: Seq<char>)
    requires
        eq_ignore_case(a, b),
    ensures
        eq_ignore_case(after_last(a, '/'), after_last(b, '/')),
    decreases a.len(),
{
    if a.len() > 0 {
        assert(ascii_lower(a[a.len() - 1]) == ascii_lower(b[b.len() - 1]));
        if a.last() == '/' {
            lemma_fixed_char(b.last(), '/');
        } else if b.last() == '/' {
            lemma_fixed_char(a.last(), '/');
        } else {
            lemma_after_last_ignores_case(a.drop_last(), b.drop_last());
        }
    }
}

proof fn lemma_contains_ignores_case(a: Seq<char>, b: Seq<char>, c: char)
    requires
        eq_ignore_case(a, b),
        !('A' <= c <= 'Z'),
        !('a' <= c <= 'z'),
        a.contains(c),
    ensures
        b.contains(c),
{
    let i = choose|i: int| 0 <= i < a.len() && a[i] == c;
    lemma_fixed_char(b[i], c);
}

/// A pattern covers a process whatever the case of the letters on either side.
pub proof fn law_process_pattern_ignores_case(
    pattern: Seq<char>,
    other_pattern: Seq<char>,
    path: Seq<char>,
    other_path: Seq<char>,
)
    requires
        eq_ignore_case(pattern, other_pattern),
        eq_ignore_case(path, other_path),
    ensures
        process_pattern_covers(pattern, path) == process_pattern_covers(other_pattern, other_path),
{
    lemma_after_last_ignores_case(path, other_path);
    if pattern.contains('/') {
        lemma_contains_ignores_case(pattern, other_pattern, '/');
    }
    if other_pattern.contains('/') {
        lemma_contains_ignores_case(other_pattern, pattern, '/');
    }
    if pattern.len() > 0 {
        let n = pattern.len();
        assert(ascii_lower(pattern[0]) == ascii_lower(other_pattern[0]));
        assert(ascii_lower(pattern[n - 1]) == ascii_lower(other_pattern[n - 1]));
        if pattern[0] == '*' {
            lemma_fixed_char(other_pattern[0], '*');
        }
        if other_pattern[0] == '*' {
            lemma_fixed_char(pattern[0], '*');
        }
        if pattern[n - 1] == '*' {
            lemma_fixed_char(other_pattern[n - 1], '*');
        }
        if other_pattern[n - 1] == '*' {
            lemma_fixed_char(pattern[n - 1], '*');
        }
        assert(pattern =~= star() <==> n == 1 && pattern[0] == '*');
        assert(other_pattern =~= star() <==> n == 1 && other_pattern[0] == '*');
        assert(eq_ignore_case(pattern.drop_first(), other_pattern.drop_first()));
        assert(eq_ignore_case(pattern.drop_last(), other_pattern.drop_last()));
    }
    let (t, u) = if pattern.contains('/') {
        (path, other_path)
    } else {
        (after_last(path, '/'), after_last(other_path, '/'))
    };
    assert forall|k: int| 0 <= k <= t.len() implies #[trigger] eq_ignore_case(
        t.take(k),
        u.take(k),
    ) by {}
    assert forall|k: int| 0 <= k <= t.len() implies #[trigger] eq_ignore_case(
        t.skip(k),
        u.skip(k),
    ) by {
        assert forall|i: int| 0 <= i < t.skip(k).len() implies ascii_lower(#[trigger] t.skip(k)[i])
            == ascii_lower(u.skip(k)[i]) by {
            assert(ascii_lower(t[k + i]) == ascii_lower(u[k + i]));
        }
    }
    lemma_eq_ignore_case_congruent(pattern, other_pattern, t, u);
    if pattern.len() > 0 {
        let (p, q) = (pattern.drop_last(), other_pattern.drop_last());
        if p.len() <= t.len() {
            lemma_eq_ignore_case_congruent(p, q, t.take(p.len() as int), u.take(q.len() as int));
        }
        let (p, q) = (pattern.drop_first(), other_pattern.drop_first());
        if p.len() <= t.len() {
            let from = t.len() - p.len();
            lemma_eq_ignore_case_congruent(p, q, t.skip(from), u.skip(from));
        }
    }
}

/// Equality up to case does not depend on the case of either side.
proof fn lemma_eq_ignore_case_congruent(a: Seq<char>, b: Seq<char>, t: Seq<char>, u: Seq<char>)
    requires
        eq_ignore_case(a, b),
        eq_ignore_case(t, u),
    ensures
        eq_ignore_case(t, a) == eq_ignore_case(u, b),
{
    if eq_ignore_case(t, a) {
        assert forall|i: int| 0 <= i < u.len() implies ascii_lower(#[trigger] u[i]) == ascii_lower(
            b[i],
        ) by {
            assert(ascii_lower(t[i]) == ascii_lower(u[i]));
            assert(ascii_lower(a[i]) == ascii_lower(b[i]));
        }
    }
    if eq_ignore_case(u, b) {
        assert forall|i: int| 0 <= i < t.len() implies ascii_lower(#[trigger] t[i]) == ascii_lower(
            a[i],
        ) by {
            assert(ascii_lower(u[i]) == ascii_lower(b[i]));
            assert(ascii_lower(a[i]) == ascii_lower(b[i]));
        }
    }
}

proof fn lemma_trim_ignores_case(a: Seq<char>, b: Seq<char>)
    requires
        eq_ignore_case(a, b),
    ensures
        eq_ignore_case(trim(a), trim(b)),
{
    lemma_trim_start_ignores_case(a, b);
    lemma_trim_end_ignores_case(trim_start(a), trim_start(b));
}

proof fn lemma_trim_start_ignores_case(a: Seq<char>, b: Seq<char>)
    requires
        eq_ignore_case(a, b),
    ensures
        eq_ignore_case(trim_start(a), trim_start(b)),
    decreases a.len(),
{
    if a.len() > 0 {
        lemma_spaces_ignore_case(a[0], b[0]);
        if is_space(a[0]) {
            lemma_trim_start_ignores_case(a.drop_first(), b.drop_first());
        }
    }
}

proof fn lemma_trim_end_ignores_case(a: Seq<char>, b: Seq<char>)
    requires
        eq_ignore_case(a, b),
    ensures
        eq_ignore_case(trim_end(a), trim_end(b)),
    decreases a.len(),
{
    if a.len() > 0 {
        assert(ascii_lower(a[a.len() - 1]) == ascii_lower(b[b.len() - 1]));
        lemma_spaces_ignore_case(a.last(), b.last());
        if is_space(a.last()) {
            lemma_trim_end_ignores_case(a.drop_last(), b.drop_last());
        }
    }
}

proof fn lemma_index_ignores_case(a: Seq<char>, b: Seq<char>)
    requires
        eq_ignore_case(a, b),
    ensures
        index_of_either(a, ';', ';') == index_of_either(b, ';', ';'),
        index_of_either(a, ';', ';') <= a.len(),
    decreases a.len(),
{
    if a.len() > 0 {
        assert(ascii_lower(a[0]) == ascii_lower(b[0]));
        if a[0] == ';' {
            lemma_fixed_char(b[0], ';');
        } else if b[0] == ';' {
            lemma_fixed_char(a[0], ';');
        } else {
            lemma_index_ignores_case(a.drop_first(), b.drop_first());
        }
    }
}

proof fn lemma_split_ignores_case(a: Seq<char>, b: Seq<char>)
    requires
        eq_ignore_case(a, b),
    ensures
        split(a, ';').len() == split(b, ';').len(),
        forall|i: int|
            0 <= i < split(a, ';').len() ==> eq_ignore_case(
                #[trigger] split(a, ';')[i],
                split(b, ';')[i],
            ),
    decreases a.len(),
{
    lemma_index_ignores_case(a, b);
    let i = index_of_either(a, ';', ';') as int;
    if i < a.len() {
        let (x, y) = (a.skip(i + 1), b.skip(i + 1));
        assert forall|j: int| 0 <= j < x.len() implies ascii_lower(#[trigger] x[j]) == ascii_lower(
            y[j],
        ) by {
            assert(ascii_lower(a[i + 1 + j]) == ascii_lower(b[i + 1 + j]));
        }
        assert(eq_ignore_case(a.take(i), b.take(i)));
        lemma_split_ignores_case(x, y);
        assert forall|j: int| 0 <= j < split(a, ';').len() implies eq_ignore_case(
            #[trigger] split(a, ';')[j],
            split(b, ';')[j],
        ) by {
            if j > 0 {
                assert(split(a, ';')[j] == split(x, ';')[j - 1]);
                assert(split(b, ';')[j] == split(y, ';')[j - 1]);
            }
        }
    }
}

/// A list covers a process whatever the case of the letters on either side.
pub proof fn law_process_list_ignores_case(
    list: Seq<char>,
    other_list: Seq<char>,
    path: Seq<char>,
    other_path: Seq<char>,
)
    requires
        eq_ignore_case(list, other_list),
        eq_ignore_case(path, other_path),
    ensures
        process_list_covers(list, path) == process_list_covers(other_list, other_path),
{
    let (all, other) = (split(list, ';'), split(other_list, ';'));
    lemma_split_ignores_case(list, other_list);
    assert forall|i: int| 0 <= i < all.len() implies #[trigger] process_pattern_covers(
        trim(all[i]),
        path,
    ) == process_pattern_covers(trim(other[i]), other_path) by {
        lemma_trim_ignores_case(all[i], other[i]);
        law_process_pattern_ignores_case(trim(all[i]), trim(other[i]), path, other_path);
    }
    if process_list_covers(list, path) {
        let i = choose|i: int|
            0 <= i < all.len() && #[trigger] process_pattern_covers(trim(all[i]), path);
        assert(process_pattern_covers(trim(other[i]), other_path));
    }
    if process_list_covers(other_list, other_path) {
        let i = choose|i: int|
            0 <= i < other.len() && #[trigger] process_pattern_covers(trim(other[i]), other_path);
        assert(process_pattern_covers(trim(all[i]), path));
    }
}

/// A pattern without a star covers exactly the process of that name: without a `/` it is
/// held against the file name, the part of the path behind its last `/`, and with one
/// against the whole path. It covers no longer and no shorter names.
pub proof fn law_plain_process_pattern(
    pattern: Seq<char>,
    dir: Seq<char>,
    name: Seq<char>,
    path: Seq<char>,
)
    requires
        !pattern.contains('*'),
        dir.len() == 0 || dir.last() == '/',
        !name.contains('/'),
    ensures
        !pattern.contains('/') ==> (process_pattern_covers(pattern, dir + name) <==> same_text(
            name,
            pattern,
        )),
        pattern.contains('/') ==> (process_pattern_covers(pattern, path) <==> same_text(
            path,
            pattern,
        )),
{
    law_after_last_of_path(dir, name, '/');
    law_equality_up_to_case(name, pattern);
    law_equality_up_to_case(path, pattern);
    if pattern.len() > 0 {
        assert(pattern.contains(pattern[0]));
        assert(pattern.contains(pattern[pattern.len() - 1]));
    }
    assert(star()[0] == '*');
}

/// A pattern with a star at its end covers exactly the names that begin with what stands
/// before the star, whatever follows.
pub proof fn law_process_prefix_pattern(
    start: Seq<char>,
    dir: Seq<char>,
    name: Seq<char>,
    path: Seq<char>,
)
    requires
        dir.len() == 0 || dir.last() == '/',
        !name.contains('/'),
    ensures
        !start.contains('/') ==> (process_pattern_covers(start.push('*'), dir + name)
            <==> start.len() <= name.len() && forall|i: int|
            0 <= i < start.len() ==> same_letter(name[i], #[trigger] start[i])),
        start.contains('/') ==> (process_pattern_covers(start.push('*'), path) <==> start.len()
            <= path.len() && forall|i: int|
            0 <= i < start.len() ==> same_letter(path[i], #[trigger] start[i])),
{
    let pattern = start.push('*');
    assert(pattern.drop_last() == start);
    if start.contains('/') {
        let i = choose|i: int| 0 <= i < start.len() && start[i] == '/';
        assert(pattern[i] == '/');
    }
    if pattern.contains('/') {
        let i = choose|i: int| 0 <= i < pattern.len() && pattern[i] == '/';
        assert(start[i] == '/');
    }
    law_after_last_of_path(dir, name, '/');
    law_prefix_and_suffix(name, start);
    law_prefix_and_suffix(path, start);
    if pattern == star() {
        assert(start.len() == 0);
    }
}

/// A pattern with a star at its start, and none at its end, covers exactly the names that
/// end with what stands behind the star, whatever comes before.
pub proof fn law_process_suffix_pattern(
    end: Seq<char>,
    dir: Seq<char>,
    name: Seq<char>,
    path: Seq<char>,
)
    requires
        end.len() > 0,
        end.last() != '*',
        dir.len() == 0 || dir.last() == '/',
        !name.contains('/'),
    ensures
        !end.contains('/') ==> (process_pattern_covers(seq!['*'] + end, dir + name) <==> end.len()
            <= name.len() && forall|i: int|
            0 <= i < end.len() ==> same_letter(name[name.len() - end.len() + i], #[trigger] end[i])),
        end.contains('/') ==> (process_pattern_covers(seq!['*'] + end, path) <==> end.len()
            <= path.len() && forall|i: int|
            0 <= i < end.len() ==> same_letter(path[path.len() - end.len() + i], #[trigger] end[i])),
{
    let pattern = seq!['*'] + end;
    assert(pattern.drop_first() == end);
    assert(pattern.last() == end.last());
    if end.contains('/') {
        let i = choose|i: int| 0 <= i < end.len() && end[i] == '/';
        assert(pattern[i + 1] == '/');
    }
    if pattern.contains('/') {
        let i = choose|i: int| 0 <= i < pattern.len() && pattern[i] == '/';
        assert(end[i - 1] == '/');
    }
    law_after_last_of_path(dir, name, '/');
    law_prefix_and_suffix(name, end);
    law_prefix_and_suffix(path, end);
    assert(pattern.len() > 1);
}

/// A list of one pattern covers what the pattern covers; white space around it does not
/// count. An empty list is for every address and every port.
pub proof fn law_list_of_one(
    before: Seq<char>,
    pattern: Seq<char>,
    after: Seq<char>,
    path: Seq<char>,
    ip: u32,
    port: u16,
)
    requires
        all_space(before),
        all_space(after),
        pattern.len() > 0,
        !is_space(pattern[0]),
        !is_space(pattern.last()),
        !pattern.contains(';'),
        !pattern.contains(','),
    ensures
        ({
            let list = before + pattern + after;
            &&& process_list_covers(list, path) <==> process_pattern_covers(pattern, path)
            &&& ip_list_covers(list, ip) <==> ip_pattern_covers(pattern, ip)
            &&& port_list_covers(list, port) <==> port_pattern_covers(pattern, port)
        }),
        ip_list_covers(Seq::empty(), ip),
        port_list_covers(Seq::empty(), port),
{
    let list = before + pattern + after;
    law_trim(before, pattern, after);
    assert forall|c: char| c == ';' || c == ',' implies !list.contains(c) by {
        if list.contains(c) {
            let i = choose|i: int| 0 <= i < list.len() && list[i] == c;
            if i < before.len() {
                assert(is_space(before[i]));
            } else if i < before.len() + pattern.len() {
                assert(pattern[i - before.len()] == c);
            } else {
                assert(is_space(after[i - before.len() - pattern.len()]));
            }
        }
    }
    law_split_of_one(list, ';', ';');
    law_split_of_one(list, ',', ';');
    if process_pattern_covers(pattern, path) {
        assert(process_pattern_covers(trim(split(list, ';')[0]), path));
    }
    if ip_pattern_covers(pattern, ip) {
        assert(ip_pattern_covers(trim(split(list, ';')[0]), ip));
    }
    if port_pattern_covers(pattern, port) {
        assert(port_pattern_covers(trim(split_either(list, ',', ';')[0]), port));
    }
}

/// A star in place of an octet, or of a port, goes for every one.
pub proof fn law_star_parts(octet: u8, port: u16)
    ensures
        octet_covers(seq!['*'], octet),
        port_pattern_covers(seq!['*'], port),
{
}

/// An address pattern of four parts covers an address exactly if each part is a star or
/// covers its octet, the first part the first octet and so on.
pub proof fn law_four_parts(a: Seq<char>, b: Seq<char>, c: Seq<char>, d: Seq<char>, ip: u32)
    requires
        !a.contains('.'),
        !b.contains('.'),
        !c.contains('.'),
        !d.contains('.'),
    ensures
        ip_pattern_covers(
            ((a.push('.') + b).push('.') + c).push('.') + d,
            ip,
        ) <==> {
            &&& a == seq!['*'] || octet_covers(a, (ip % 256) as u8)
            &&& b == seq!['*'] || octet_covers(b, (ip / 256 % 256) as u8)
            &&& c == seq!['*'] || octet_covers(c, (ip / 65536 % 256) as u8)
            &&& d == seq!['*'] || octet_covers(d, (ip / 16777216) as u8)
        },
{
    let two = a.push('.') + b;
    let three = two.push('.') + c;
    let four = three.push('.') + d;
    law_split_of_one(a, '.', '.');
    law_split_of_one(b, '.', '.');
    law_split_of_one(c, '.', '.');
    law_split_of_one(d, '.', '.');
    law_split_of_two(a, '.', b, '.', '.');
    law_split_of_two(two, '.', c, '.', '.');
    law_split_of_two(three, '.', d, '.', '.');
    assert(split(four, '.') == seq![a, b, c, d]);
    assert(four.len() >= 3);
    law_star_parts(octets(ip)[0], 0);
    law_star_parts(octets(ip)[1], 0);
    law_star_parts(octets(ip)[2], 0);
    law_star_parts(octets(ip)[3], 0);
}

/// An address pattern that is no star and does not have four parts covers nothing.
pub proof fn law_other_parts(pattern: Seq<char>, ip: u32)
    requires
        pattern != seq!['*'],
        split(pattern, '.').len() != 4,
    ensures
        !ip_pattern_covers(pattern, ip),
{
}

/// The value of a text, or another one where it holds none.
pub open spec fn value_or(s: Seq<char>, max: nat, other: nat) -> nat {
    if number(s, 10, max) is Some {
        number(s, 10, max)->0
    } else {
        other
    }
}

/// What parts of patterns cover in all cases: behind a dash in it, a part is a range between
/// the numbers on its two sides, where what is no number counts as 0; without a dash it is
/// one number, where what is none counts as 255 for an octet and as 0 for a port.
pub proof fn law_parts_by_value(
    first: Seq<char>,
    last: Seq<char>,
    plain: Seq<char>,
    octet: u8,
    port: u16,
)
    requires
        !first.contains('-'),
        !plain.contains('-'),
        plain != seq!['*'],
    ensures
        octet_covers(first.push('-') + last, octet) <==> value_or(first, 255, 0) <= octet
            <= value_or(last, 255, 0),
        port_pattern_covers(first.push('-') + last, port) <==> value_or(first, 65535, 0) <= port
            <= value_or(last, 65535, 0),
        octet_covers(plain, octet) <==> octet == value_or(plain, 255, 255),
        port_pattern_covers(plain, port) <==> port == value_or(plain, 65535, 0),
{
    let range = first.push('-') + last;
    law_cut_at_first(first, '-', last);
    law_cut_at_first(plain, '-', last);
    if range == star() {
        assert(range[first.len() as int] == '-');
        assert(star()[first.len() as int] == '-');
    }
}

/// The local and group addresses are those of the patterns `127.*.*.*`, `169.254.*.*`,
/// `*.*.*.255` and `224-239.*.*.*`.
pub proof fn law_local_and_group_addresses(ip: u32)
    ensures
        is_local_or_group(ip) <==> {
            let any = seq!['*'];
            ||| ip_pattern_covers(
                ((decimal(127).push('.') + any).push('.') + any).push('.') + any,
                ip,
            )
            ||| ip_pattern_covers(
                ((decimal(169).push('.') + decimal(254)).push('.') + any).push('.') + any,
                ip,
            )
            ||| ip_pattern_covers(
                ((any.push('.') + any).push('.') + any).push('.') + decimal(255),
                ip,
            )
            ||| ip_pattern_covers(
                (((decimal(224).push('-') + decimal(239)).push('.') + any).push('.') + any).push(
                    '.',
                ) + any,
                ip,
            )
        },
{
    let any = seq!['*'];
    let range = decimal(224).push('-') + decimal(239);
    assert(!any.contains('.'));
    lemma_decimal_is_plain(127);
    lemma_decimal_is_plain(169);
    lemma_decimal_is_plain(254);
    lemma_decimal_is_plain(255);
    lemma_decimal_is_plain(224);
    lemma_decimal_is_plain(239);
    if range.contains('.') {
        let i = choose|i: int| 0 <= i < range.len() && range[i] == '.';
        if i < decimal(224).len() {
            assert(decimal(224)[i] == '.');
        } else if i > decimal(224).len() {
            assert(decimal(239)[i - decimal(224).len() - 1] == '.');
        }
    }
    law_four_parts(decimal(127), any, any, any, ip);
    law_four_parts(decimal(169), decimal(254), any, any, ip);
    law_four_parts(any, any, any, decimal(255), ip);
    law_four_parts(range, any, any, any, ip);
    let o = octets(ip);
    law_octet_patterns(127, 224, 239, o[0]);
    law_octet_patterns(169, 0, 0, o[0]);
    law_octet_patterns(254, 0, 0, o[1]);
    law_octet_patterns(255, 0, 0, o[3]);
    lemma_range_parts(224, 239);
}

/// In a list of addresses an empty part covers nothing, and in a list of ports it covers the
/// port 0 alone; the other parts cover what they cover.
pub proof fn law_lists_with_empty_parts(
    a: Seq<char>,
    sep: char,
    b: Seq<char>,
    ip: u32,
    port: u16,
)
    requires
        sep == ',' || sep == ';',
    ensures
        ip_list_covers(a.push(';') + b, ip) <==> (a.len() > 0 && ip_list_covers(a, ip)) || (b.len()
            > 0 && ip_list_covers(b, ip)),
        port_list_covers(a.push(sep) + b, port) <==> {
            let left = if a.len() > 0 {
                port_list_covers(a, port)
            } else {
                port == 0
            };
            let right = if b.len() > 0 {
                port_list_covers(b, port)
            } else {
                port == 0
            };
            left || right
        },
{
    let none = Seq::<char>::empty();
    law_trim(none, none, none);
    assert(none + none + none == none);
    assert(trim(none) == none);
    law_split_of_one(none, ';', ';');
    law_split_of_one(none, ',', ';');
    law_split_of_one(none, '.', '.');
    law_other_parts(none, ip);
    law_what_is_no_number(none, 10, 65535, 0);
    law_parts_by_value(none, none, none, 0, port);
    if a.len() == 0 {
        assert(a == none);
    }
    if b.len() == 0 {
        assert(b == none);
    }
    let (left, right) = (split(a, ';'), split(b, ';'));
    let all = split(a.push(';') + b, ';');
    law_split_of_two(a, ';', b, ';', ';');
    assert(all == left + right);
    assert forall|i: int| 0 <= i < all.len() implies #[trigger] all[i] == if i < left.len() {
        left[i]
    } else {
        right[i - left.len()]
    } by {}
    if exists|i: int| 0 <= i < left.len() && #[trigger] ip_pattern_covers(trim(left[i]), ip) {
        let i = choose|i: int|
            0 <= i < left.len() && #[trigger] ip_pattern_covers(trim(left[i]), ip);
        assert(ip_pattern_covers(trim(all[i]), ip));
    }
    if exists|i: int| 0 <= i < right.len() && #[trigger] ip_pattern_covers(trim(right[i]), ip) {
        let i = choose|i: int|
            0 <= i < right.len() && #[trigger] ip_pattern_covers(trim(right[i]), ip);
        assert(all[left.len() + i] == right[i]);
        assert(ip_pattern_covers(trim(all[left.len() + i]), ip));
    }
    if exists|i: int| 0 <= i < all.len() && #[trigger] ip_pattern_covers(trim(all[i]), ip) {
        let i = choose|i: int|
            0 <= i < all.len() && #[trigger] ip_pattern_covers(trim(all[i]), ip);
        if i < left.len() {
            assert(ip_pattern_covers(trim(left[i]), ip));
        } else {
            assert(ip_pattern_covers(trim(right[i - left.len()]), ip));
        }
    }
    let (first, second) = (split_either(a, ',', ';'), split_either(b, ',', ';'));
    let both = split_either(a.push(sep) + b, ',', ';');
    law_split_of_two(a, sep, b, ',', ';');
    assert(both == first + second);
    if exists|i: int| 0 <= i < first.len() && #[trigger] port_pattern_covers(trim(first[i]), port) {
        let i = choose|i: int|
            0 <= i < first.len() && #[trigger] port_pattern_covers(trim(first[i]), port);
        assert(both[i] == first[i]);
        assert(port_pattern_covers(trim(both[i]), port));
    }
    if exists|i: int|
        0 <= i < second.len() && #[trigger] port_pattern_covers(trim(second[i]), port) {
        let i = choose|i: int|
            0 <= i < second.len() && #[trigger] port_pattern_covers(trim(second[i]), port);
        assert(both[first.len() + i] == second[i]);
        assert(port_pattern_covers(trim(both[first.len() + i]), port));
    }
    if exists|i: int| 0 <= i < both.len() && #[trigger] port_pattern_covers(trim(both[i]), port) {
        let i = choose|i: int|
            0 <= i < both.len() && #[trigger] port_pattern_covers(trim(both[i]), port);
        if i < first.len() {
            assert(port_pattern_covers(trim(first[i]), port));
        } else {
            assert(port_pattern_covers(trim(second[i - first.len()]), port));
        }
    }
    if a.len() == 0 {
        assert(first[0] == none);
        assert(port == 0 ==> port_pattern_covers(trim(first[0]), port));
    }
    if b.len() == 0 {
        assert(second[0] == none);
        assert(port == 0 ==> port_pattern_covers(trim(second[0]), port));
    }
}

} // verus!
