//! Text primitives over character sequences: splitting, trimming, ASCII case
//! folding, and the reading and writing of unsigned numbers.

use vstd::prelude::*;
use vstd::utf8::is_ascii_chars;

verus! {

/// Appends one character: `String::push` leaves the text that was there,
/// followed by the character.
pub assume_specification[ String::push ](s: &mut String, c: char)
    ensures
        final(s)@ == old(s)@.push(c),
;

/// The result of `str::to_uppercase` for a text with characters beyond ASCII: the
/// upper case by the mappings of the Unicode database.
pub uninterp spec fn uppercase(s: Seq<char>) -> Seq<char>;

/// `str::to_uppercase` maps a text to its upper case by the Unicode database, so
/// its result depends on the text alone. Of an ASCII text it changes the letters
/// `a` to `z` into `A` to `Z` and nothing else.
pub assume_specification[ str::to_uppercase ](s: &str) -> (r: String)
    ensures
        r@ == if is_ascii_chars(s@) {
            upper_letters(s@)
        } else {
            uppercase(s@)
        },
;

/// The text in upper case.
pub open spec fn upper(s: Seq<char>) -> Seq<char> {
    if is_ascii_chars(s) {
        upper_letters(s)
    } else {
        uppercase(s)
    }
}

/// The text with every ASCII letter in upper case.
pub open spec fn upper_letters(s: Seq<char>) -> Seq<char> {
    Seq::new(s.len(), |i: int| ascii_upper(s[i]))
}

/// The text `*`, which stands for "anything" in every pattern.
pub open spec fn star() -> Seq<char> {
    seq!['*']
}

/// The Unicode `White_Space` property.
pub open spec fn is_space(c: char) -> bool {
    ||| '\u{9}' <= c <= '\u{d}'
    ||| c == '\u{20}'
    ||| c == '\u{85}'
    ||| c == '\u{a0}'
    ||| c == '\u{1680}'
    ||| '\u{2000}' <= c <= '\u{200a}'
    ||| c == '\u{2028}'
    ||| c == '\u{2029}'
    ||| c == '\u{202f}'
    ||| c == '\u{205f}'
    ||| c == '\u{3000}'
}

/// The characters from the first one that is not white space.
pub open spec fn trim_start(s: Seq<char>) -> Seq<char>
    decreases s.len(),
{
    if s.len() > 0 && is_space(s[0]) {
        trim_start(s.drop_first())
    } else {
        s
    }
}

/// The characters up to the last one that is not white space.
pub open spec fn trim_end(s: Seq<char>) -> Seq<char>
    decreases s.len(),
{
    if s.len() > 0 && is_space(s.last()) {
        trim_end(s.drop_last())
    } else {
        s
    }
}

/// The text without white space at either end.
pub open spec fn trim(s: Seq<char>) -> Seq<char> {
    trim_end(trim_start(s))
}

/// The position of the first `a` or `b`; the length where there is none.
pub open spec fn index_of_either(s: Seq<char>, a: char, b: char) -> nat
    decreases s.len(),
{
    if s.len() == 0 || s[0] == a || s[0] == b {
        0
    } else {
        1 + index_of_either(s.drop_first(), a, b)
    }
}

/// The pieces between the separators `a` and `b`: one more piece than there are
/// separators, and a piece may be empty.
pub open spec fn split_either(s: Seq<char>, a: char, b: char) -> Seq<Seq<char>>
    decreases s.len(),
{
    let i = index_of_either(s, a, b);
    if i >= s.len() {
        seq![s]
    } else {
        seq![s.take(i as int)] + split_either(s.skip((i + 1) as int), a, b)
    }
}

/// The pieces between the separators `sep`.
pub open spec fn split(s: Seq<char>, sep: char) -> Seq<Seq<char>> {
    split_either(s, sep, sep)
}

/// The texts on the two sides of the first `sep`.
pub open spec fn split_once(s: Seq<char>, sep: char) -> Option<(Seq<char>, Seq<char>)> {
    let i = index_of_either(s, sep, sep);
    if i < s.len() {
        Some((s.take(i as int), s.skip((i + 1) as int)))
    } else {
        None
    }
}

/// What follows the last `sep`; all of the text where there is none.
pub open spec fn after_last(s: Seq<char>, sep: char) -> Seq<char>
    decreases s.len(),
{
    if s.len() == 0 || s.last() == sep {
        Seq::empty()
    } else {
        after_last(s.drop_last(), sep).push(s.last())
    }
}

/// The lower-case form of an ASCII letter; any other character as it is.
pub open spec fn ascii_lower(c: char) -> char {
    if 'A' <= c <= 'Z' {
        ((c as u32 + 32) as u32) as char
    } else {
        c
    }
}

/// The upper-case form of an ASCII letter; any other character as it is.
pub open spec fn ascii_upper(c: char) -> char {
    if 'a' <= c <= 'z' {
        ((c as u32 - 32) as u32) as char
    } else {
        c
    }
}

/// Equality up to the case of ASCII letters.
pub open spec fn eq_ignore_case(a: Seq<char>, b: Seq<char>) -> bool {
    &&& a.len() == b.len()
    &&& forall|i: int| 0 <= i < a.len() ==> ascii_lower(#[trigger] a[i]) == ascii_lower(b[i])
}

/// Whether `s` begins with `prefix`, up to the case of ASCII letters.
pub open spec fn starts_with_ignore_case(s: Seq<char>, prefix: Seq<char>) -> bool {
    prefix.len() <= s.len() && eq_ignore_case(s.take(prefix.len() as int), prefix)
}

/// Whether `s` ends with `suffix`, up to the case of ASCII letters.
pub open spec fn ends_with_ignore_case(s: Seq<char>, suffix: Seq<char>) -> bool {
    suffix.len() <= s.len() && eq_ignore_case(s.skip(s.len() - suffix.len()), suffix)
}

/// The value of a digit in the given base; ASCII letters follow the ten digits.
pub open spec fn digit_value(c: char, base: nat) -> Option<nat> {
    let d = if '0' <= c <= '9' {
        c as nat - '0' as nat
    } else if 'a' <= c <= 'z' {
        c as nat - 'a' as nat + 10
    } else if 'A' <= c <= 'Z' {
        c as nat - 'A' as nat + 10
    } else {
        base as int
    };
    if d < base {
        Some(d as nat)
    } else {
        None
    }
}

/// Whether every character is a digit of the base.
pub open spec fn all_digits(s: Seq<char>, base: nat) -> bool {
    forall|i: int| 0 <= i < s.len() ==> (#[trigger] digit_value(s[i], base)) is Some
}

/// The number that a sequence of digits denotes, most significant digit first.
pub open spec fn digits_value(s: Seq<char>, base: nat) -> nat
    decreases s.len(),
{
    if s.len() == 0 {
        0
    } else {
        digits_value(s.drop_last(), base) * base + digit_value(s.last(), base)->0
    }
}

/// The unsigned number that a text denotes, if it is one and at most `max`: an
/// optional `+`, then at least one digit and nothing else.
pub open spec fn number(s: Seq<char>, base: nat, max: nat) -> Option<nat> {
    let digits = if s.len() > 0 && s[0] == '+' {
        s.drop_first()
    } else {
        s
    };
    if digits.len() > 0 && all_digits(digits, base) && digits_value(digits, base) <= max {
        Some(digits_value(digits, base))
    } else {
        None
    }
}

/// The decimal digit of a number below ten.
pub open spec fn digit_char(d: nat) -> char {
    ((d + '0' as nat) as u32) as char
}

/// The decimal text of a number, without leading zeros.
pub open spec fn decimal(n: nat) -> Seq<char>
    decreases n,
{
    if n < 10 {
        seq![digit_char(n)]
    } else {
        decimal(n / 10).push(digit_char(n % 10))
    }
}

/// The character sequences that a sequence of slices holds.
pub open spec fn views(pieces: Seq<&[char]>) -> Seq<Seq<char>> {
    Seq::new(pieces.len(), |i: int| pieces[i]@)
}

/// The characters of a text.
pub fn chars_of(s: &str) -> (chars: Vec<char>)
    ensures
        chars@ == s@,
{
    let mut chars: Vec<char> = Vec::new();
    for c in it: s.chars()
        invariant
            it.seq() == s@,
            chars@ == s@.take(it.index() as int),
    {
        assert(s@.take(it.index() + 1) == s@.take(it.index() as int).push(c));
        chars.push(c);
    }
    assert(s@.take(s@.len() as int) == s@);
    chars
}

/// The text that a slice of characters spells.
pub fn text_of(chars: &[char]) -> (s: String)
    ensures
        s@ == chars@,
{
    let mut s = String::new();
    let mut i: usize = 0;
    while i < chars.len()
        invariant
            i <= chars@.len(),
            s@ == chars@.take(i as int),
        decreases chars@.len() - i,
    {
        s.push(chars[i]);
        i = i + 1;
        assert(chars@.take(i as int) == chars@.take(i - 1).push(chars@[i - 1]));
    }
    assert(chars@.take(chars@.len() as int) == chars@);
    s
}

/// Whether a character is white space.
pub fn space(c: char) -> (r: bool)
    ensures
        r == is_space(c),
{
    ('\u{9}' <= c && c <= '\u{d}') || c == '\u{20}' || c == '\u{85}' || c == '\u{a0}' || c
        == '\u{1680}' || ('\u{2000}' <= c && c <= '\u{200a}') || c == '\u{2028}' || c == '\u{2029}'
        || c == '\u{202f}' || c == '\u{205f}' || c == '\u{3000}'
}

/// Trimming at the front removes a prefix of white space.
proof fn lemma_trim_start(s: Seq<char>, from: int)
    requires
        0 <= from <= s.len(),
        forall|i: int| 0 <= i < from ==> is_space(#[trigger] s[i]),
        from < s.len() ==> !is_space(s[from]),
    ensures
        trim_start(s) == s.skip(from),
    decreases from,
{
    if from == 0 {
        assert(s.skip(0) == s);
    } else {
        assert forall|i: int| 0 <= i < from - 1 implies is_space(#[trigger] s.drop_first()[i]) by {
            assert(s.drop_first()[i] == s[i + 1]);
        }
        lemma_trim_start(s.drop_first(), from - 1);
        assert(s.drop_first().skip(from - 1) == s.skip(from));
    }
}

/// Trimming at the back removes a suffix of white space.
proof fn lemma_trim_end(s: Seq<char>, to: int)
    requires
        0 <= to <= s.len(),
        forall|i: int| to <= i < s.len() ==> is_space(#[trigger] s[i]),
        0 < to ==> !is_space(s[to - 1]),
    ensures
        trim_end(s) == s.take(to),
    decreases s.len() - to,
{
    if to == s.len() {
        assert(s.take(to) == s);
    } else {
        assert(is_space(s.last()));
        lemma_trim_end(s.drop_last(), to);
        assert(s.drop_last().take(to) == s.take(to));
    }
}

/// Drops white space at either end.
pub fn trimmed(s: &[char]) -> (r: &[char])
    ensures
        r@ == trim(s@),
{
    let n: usize = s.len();
    let mut from: usize = 0;
    while from < n && space(s[from])
        invariant
            from <= n == s@.len(),
            forall|i: int| 0 <= i < from ==> is_space(#[trigger] s@[i]),
        decreases n - from,
    {
        from = from + 1;
    }
    proof {
        lemma_trim_start(s@, from as int);
    }
    let mut to: usize = n;
    while to > from && space(s[to - 1])
        invariant
            from <= to <= n == s@.len(),
            forall|i: int| to <= i < n ==> is_space(#[trigger] s@[i]),
        decreases to,
    {
        to = to - 1;
    }
    proof {
        let rest = s@.skip(from as int);
        assert forall|i: int| to - from <= i < rest.len() implies is_space(#[trigger] rest[i]) by {
            assert(rest[i] == s@[i + from]);
        }
        lemma_trim_end(rest, to - from);
        assert(rest.take(to - from) == s@.subrange(from as int, to as int));
    }
    &s[from..to]
}

/// The first separator is at the first position that holds one.
proof fn lemma_index_of_either(s: Seq<char>, a: char, b: char, i: int)
    requires
        0 <= i <= s.len(),
        forall|j: int| 0 <= j < i ==> #[trigger] s[j] != a && s[j] != b,
        i < s.len() ==> s[i] == a || s[i] == b,
    ensures
        index_of_either(s, a, b) == i,
    decreases i,
{
    if i > 0 {
        assert forall|j: int| 0 <= j < i - 1 implies #[trigger] s.drop_first()[j] != a
            && s.drop_first()[j] != b by {
            assert(s.drop_first()[j] == s[j + 1]);
        }
        lemma_index_of_either(s.drop_first(), a, b, i - 1);
    }
}

/// What [`index_of_either`] points at.
pub proof fn lemma_index_of_either_found(s: Seq<char>, a: char, b: char)
    ensures
        index_of_either(s, a, b) <= s.len(),
        forall|j: int|
            0 <= j < index_of_either(s, a, b) ==> #[trigger] s[j] != a && s[j] != b,
        index_of_either(s, a, b) < s.len() ==> s[index_of_either(s, a, b) as int] == a
            || s[index_of_either(s, a, b) as int] == b,
    decreases s.len(),
{
    if s.len() > 0 && s[0] != a && s[0] != b {
        lemma_index_of_either_found(s.drop_first(), a, b);
        assert forall|j: int| 0 <= j < index_of_either(s, a, b) implies #[trigger] s[j] != a
            && s[j] != b by {
            if j > 0 {
                assert(s.drop_first()[j - 1] == s[j]);
            }
        }
    }
}

/// The position of the first `a` or `b` at or after `from`.
fn find_either(s: &[char], from: usize, a: char, b: char) -> (r: usize)
    requires
        from <= s@.len(),
    ensures
        from <= r <= s@.len(),
        r - from == index_of_either(s@.skip(from as int), a, b),
{
    let mut i: usize = from;
    while i < s.len() && s[i] != a && s[i] != b
        invariant
            from <= i <= s@.len(),
            forall|j: int| from <= j < i ==> #[trigger] s@[j] != a && s@[j] != b,
        decreases s@.len() - i,
    {
        i = i + 1;
    }
    proof {
        lemma_index_of_either(s@.skip(from as int), a, b, i - from);
    }
    i
}

/// Splits at every `a` and `b`.
pub fn pieces_between(s: &[char], a: char, b: char) -> (r: Vec<&[char]>)
    ensures
        views(r@) == split_either(s@, a, b),
{
    let mut pieces: Vec<&[char]> = Vec::new();
    let mut from: usize = 0;
    assert(s@.skip(0) == s@);
    assert(views(pieces@) + split_either(s@, a, b) == split_either(s@, a, b));
    loop
        invariant_except_break
            from <= s@.len(),
            split_either(s@, a, b) == views(pieces@) + split_either(s@.skip(from as int), a, b),
        ensures
            views(pieces@) == split_either(s@, a, b),
        decreases s@.len() - from,
    {
        let to: usize = find_either(s, from, a, b);
        let ghost rest = s@.skip(from as int);
        let ghost before = pieces@;
        pieces.push(&s[from..to]);
        assert(s@.subrange(from as int, to as int) == rest.take(to - from));
        assert(views(pieces@) == views(before).push(rest.take(to - from)));
        if to == s.len() {
            assert(rest.take(to - from) == rest);
            assert(views(before) + seq![rest] == views(pieces@));
            break;
        }
        from = to + 1;
        proof {
            let k = index_of_either(rest, a, b);
            assert(rest.skip((k + 1) as int) == s@.skip(from as int));
            assert(views(before) + (seq![rest.take(k as int)] + split_either(
                s@.skip(from as int),
                a,
                b,
            )) == views(pieces@) + split_either(s@.skip(from as int), a, b));
        }
    }
    pieces
}

/// Cuts at the first `sep`.
pub fn cut(s: &[char], sep: char) -> (r: Option<(&[char], &[char])>)
    ensures
        match r {
            Some((left, right)) => split_once(s@, sep) == Some((left@, right@)),
            None => split_once(s@, sep) is None,
        },
{
    let i: usize = find_either(s, 0, sep, sep);
    assert(s@.skip(0) == s@);
    if i < s.len() {
        assert(s@.subrange(0, i as int) == s@.take(i as int));
        assert(s@.subrange(i + 1, s@.len() as int) == s@.skip(i + 1));
        Some((&s[0..i], &s[i + 1..s.len()]))
    } else {
        None
    }
}

/// The part after the last separator starts behind it.
proof fn lemma_after_last(s: Seq<char>, sep: char, from: int)
    requires
        0 <= from <= s.len(),
        forall|i: int| from <= i < s.len() ==> #[trigger] s[i] != sep,
        from > 0 ==> s[from - 1] == sep,
    ensures
        after_last(s, sep) == s.skip(from),
    decreases s.len() - from,
{
    if from == s.len() {
        assert(s.skip(from) == Seq::<char>::empty());
    } else {
        lemma_after_last(s.drop_last(), sep, from);
        assert(s.drop_last().skip(from).push(s.last()) == s.skip(from));
    }
}

/// Where the part behind the last `sep` starts.
pub fn start_after_last(s: &[char], sep: char) -> (from: usize)
    ensures
        from <= s@.len(),
        s@.skip(from as int) == after_last(s@, sep),
{
    let mut from: usize = s.len();
    while from > 0 && s[from - 1] != sep
        invariant
            from <= s@.len(),
            forall|i: int| from <= i < s@.len() ==> #[trigger] s@[i] != sep,
        decreases from,
    {
        from = from - 1;
    }
    proof {
        lemma_after_last(s@, sep, from as int);
    }
    from
}

/// Whether a character occurs in a text.
pub fn has_char(s: &[char], c: char) -> (r: bool)
    ensures
        r == s@.contains(c),
{
    let mut i: usize = 0;
    while i < s.len()
        invariant
            i <= s@.len(),
            forall|j: int| 0 <= j < i ==> s@[j] != c,
        decreases s@.len() - i,
    {
        if s[i] == c {
            return true;
        }
        i = i + 1;
    }
    false
}

/// The lower-case form of an ASCII letter.
pub fn lower(c: char) -> (r: char)
    ensures
        r == ascii_lower(c),
{
    if 'A' <= c && c <= 'Z' {
        ((c as u8) + 32) as char
    } else {
        c
    }
}

/// Whether two texts are equal up to the case of ASCII letters.
pub fn same_ignoring_case(a: &[char], b: &[char]) -> (r: bool)
    ensures
        r == eq_ignore_case(a@, b@),
{
    if a.len() != b.len() {
        return false;
    }
    let mut i: usize = 0;
    while i < a.len()
        invariant
            i <= a@.len() == b@.len(),
            forall|j: int| 0 <= j < i ==> ascii_lower(#[trigger] a@[j]) == ascii_lower(b@[j]),
        decreases a@.len() - i,
    {
        if lower(a[i]) != lower(b[i]) {
            return false;
        }
        i = i + 1;
    }
    true
}

/// Whether two texts are equal.
pub fn same(a: &[char], b: &[char]) -> (r: bool)
    ensures
        r == (a@ == b@),
{
    if a.len() != b.len() {
        return false;
    }
    let mut i: usize = 0;
    while i < a.len()
        invariant
            i <= a@.len() == b@.len(),
            forall|j: int| 0 <= j < i ==> a@[j] == b@[j],
        decreases a@.len() - i,
    {
        if a[i] != b[i] {
            return false;
        }
        i = i + 1;
    }
    assert(a@ == b@);
    true
}

/// Whether a text is `*`.
pub fn is_star(s: &[char]) -> (r: bool)
    ensures
        r == (s@ == star()),
{
    let r = s.len() == 1 && s[0] == '*';
    assert(r ==> s@ == star());
    r
}

/// The number of characters before the first white space.
pub open spec fn word_len(s: Seq<char>) -> nat
    decreases s.len(),
{
    if s.len() == 0 || is_space(s[0]) {
        0
    } else {
        1 + word_len(s.drop_first())
    }
}

/// The words of a text: its longest parts without white space.
pub open spec fn words(s: Seq<char>) -> Seq<Seq<char>>
    decreases s.len(),
{
    if s.len() == 0 {
        Seq::empty()
    } else if is_space(s[0]) {
        words(s.drop_first())
    } else {
        proof {
            lemma_word_len_bounds(s);
        }
        seq![s.take(word_len(s) as int)] + words(s.skip(word_len(s) as int))
    }
}

/// A word is at least one character long and ends within the text.
pub proof fn lemma_word_len_bounds(s: Seq<char>)
    ensures
        word_len(s) <= s.len(),
        s.len() > 0 && !is_space(s[0]) ==> word_len(s) >= 1,
    decreases s.len(),
{
    if s.len() > 0 && !is_space(s[0]) {
        lemma_word_len_bounds(s.drop_first());
    }
}

proof fn lemma_word_len(s: Seq<char>, n: int)
    requires
        0 <= n <= s.len(),
        forall|i: int| 0 <= i < n ==> !is_space(#[trigger] s[i]),
        n < s.len() ==> is_space(s[n]),
    ensures
        word_len(s) == n,
    decreases n,
{
    if n > 0 {
        assert forall|i: int| 0 <= i < n - 1 implies !is_space(#[trigger] s.drop_first()[i]) by {
            assert(s.drop_first()[i] == s[i + 1]);
        }
        lemma_word_len(s.drop_first(), n - 1);
    }
}

/// Splits into words.
pub fn words_of(s: &[char]) -> (r: Vec<&[char]>)
    ensures
        views(r@) == words(s@),
{
    let mut out: Vec<&[char]> = Vec::new();
    let mut from: usize = 0;
    assert(s@.skip(0) == s@);
    assert(views(out@) + words(s@) == words(s@));
    while from < s.len()
        invariant
            from <= s@.len(),
            words(s@) == views(out@) + words(s@.skip(from as int)),
        decreases s@.len() - from,
    {
        let ghost rest = s@.skip(from as int);
        if space(s[from]) {
            from = from + 1;
            assert(rest.drop_first() == s@.skip(from as int));
        } else {
            let mut to: usize = from;
            while to < s.len() && !space(s[to])
                invariant
                    from <= to <= s@.len(),
                    forall|i: int| from <= i < to ==> !is_space(#[trigger] s@[i]),
                decreases s@.len() - to,
            {
                to = to + 1;
            }
            let ghost before = out@;
            out.push(&s[from..to]);
            proof {
                let n = to - from;
                assert forall|i: int| 0 <= i < n implies !is_space(#[trigger] rest[i]) by {
                    assert(rest[i] == s@[from + i]);
                }
                lemma_word_len(rest, n);
                assert(!is_space(rest[0]));
                assert(n >= 1) by {
                    if n == 0 {
                        assert(is_space(s@[to as int]));
                    }
                }
                assert(s@.subrange(from as int, to as int) == rest.take(n));
                assert(rest.skip(n) == s@.skip(to as int));
                assert(views(out@) == views(before).push(rest.take(n)));
                assert(views(before) + (seq![rest.take(n)] + words(s@.skip(to as int))) == views(
                    out@,
                ) + words(s@.skip(to as int)));
            }
            from = to;
        }
    }
    assert(words(s@.skip(from as int)) == Seq::<Seq<char>>::empty());
    assert(views(out@) + Seq::<Seq<char>>::empty() == views(out@));
    out
}

/// The value of a digit, if the character is one in that base.
fn digit(c: char, base: u64) -> (r: Option<u64>)
    requires
        base <= 36,
    ensures
        match r {
            Some(d) => digit_value(c, base as nat) == Some(d as nat),
            None => digit_value(c, base as nat) is None,
        },
{
    let d: u64 = if '0' <= c && c <= '9' {
        (c as u64) - ('0' as u64)
    } else if 'a' <= c && c <= 'z' {
        (c as u64) - ('a' as u64) + 10
    } else if 'A' <= c && c <= 'Z' {
        (c as u64) - ('A' as u64) + 10
    } else {
        base
    };
    if d < base {
        Some(d)
    } else {
        None
    }
}

/// More digits never denote a smaller number.
proof fn lemma_digits_value_grows(s: Seq<char>, base: nat, k: int)
    requires
        1 <= base,
        0 <= k <= s.len(),
    ensures
        digits_value(s.take(k), base) <= digits_value(s, base),
    decreases s.len() - k,
{
    if k == s.len() {
        assert(s.take(k) == s);
    } else {
        lemma_digits_value_grows(s.drop_last(), base, k);
        assert(s.drop_last().take(k) == s.take(k));
        let v = digits_value(s.drop_last(), base);
        assert(v <= v * base) by (nonlinear_arith)
            requires
                1 <= base,
        ;
    }
}

/// Reads an unsigned number in the given base, refusing any above `max`.
pub fn parse_number(s: &[char], base: u64, max: u64) -> (r: Option<u64>)
    requires
        2 <= base <= 36,
    ensures
        match r {
            Some(v) => number(s@, base as nat, max as nat) == Some(v as nat),
            None => number(s@, base as nat, max as nat) is None,
        },
{
    let start: usize = if s.len() > 0 && s[0] == '+' {
        1
    } else {
        0
    };
    let ghost digits = s@.skip(start as int);
    assert(digits == if s@.len() > 0 && s@[0] == '+' {
        s@.drop_first()
    } else {
        s@
    });
    if start == s.len() {
        return None;
    }
    let mut value: u64 = 0;
    let mut i: usize = start;
    assert(digits.take(0) == Seq::<char>::empty());
    while i < s.len()
        invariant
            start <= i <= s@.len(),
            2 <= base <= 36,
            digits == s@.skip(start as int),
            digits == if s@.len() > 0 && s@[0] == '+' {
                s@.drop_first()
            } else {
                s@
            },
            value <= max,
            value == digits_value(digits.take(i - start), base as nat),
            forall|j: int|
                0 <= j < i - start ==> (#[trigger] digit_value(digits[j], base as nat)) is Some,
        decreases s@.len() - i,
    {
        let ghost k = i - start;
        assert(digits[k] == s@[i as int]);
        let d: u64 = match digit(s[i], base) {
            Some(d) => d,
            None => {
                return None;
            },
        };
        proof {
            assert(digits.take(k + 1).drop_last() == digits.take(k));
            assert(digits.take(k + 1).last() == digits[k]);
        }
        assert((value as u128) * (base as u128) <= 0xffff_ffff_ffff_ffff * 36) by (nonlinear_arith)
            requires
                value <= 0xffff_ffff_ffff_ffff,
                base <= 36,
        ;
        let next: u128 = (value as u128) * (base as u128) + (d as u128);
        if next > max as u128 {
            proof {
                lemma_digits_value_grows(digits, base as nat, k + 1);
            }
            return None;
        }
        value = next as u64;
        i = i + 1;
    }
    assert(digits.take(digits.len() as int) == digits);
    Some(value)
}

/// Writes a number in decimal.
pub fn decimal_chars(n: u64) -> (r: Vec<char>)
    ensures
        r@ == decimal(n as nat),
    decreases n,
{
    if n < 10 {
        let mut v: Vec<char> = Vec::new();
        v.push(((n as u8) + 48) as char);
        assert(v@ == seq![digit_char(n as nat)]);
        v
    } else {
        let mut v: Vec<char> = decimal_chars(n / 10);
        v.push((((n % 10) as u8) + 48) as char);
        v
    }
}

/// Appends a number in decimal.
pub fn push_decimal(s: &mut String, n: u64)
    ensures
        final(s)@ == old(s)@ + decimal(n as nat),
{
    let digits: Vec<char> = decimal_chars(n);
    push_chars(s, digits.as_slice());
}

/// Appends a slice of characters.
pub fn push_chars(s: &mut String, chars: &[char])
    ensures
        final(s)@ == old(s)@ + chars@,
{
    let mut i: usize = 0;
    assert(s@ + chars@.take(0) == s@);
    while i < chars.len()
        invariant
            i <= chars@.len(),
            s@ == old(s)@ + chars@.take(i as int),
        decreases chars@.len() - i,
    {
        s.push(chars[i]);
        i = i + 1;
        assert(chars@.take(i as int) == chars@.take(i - 1).push(chars@[i - 1]));
    }
    assert(chars@.take(chars@.len() as int) == chars@);
}

/// A decimal text is made of digits and never empty.
pub proof fn lemma_decimal_digits(n: nat)
    ensures
        decimal(n).len() > 0,
        forall|i: int| 0 <= i < decimal(n).len() ==> '0' <= #[trigger] decimal(n)[i] <= '9',
        all_digits(decimal(n), 10),
        digits_value(decimal(n), 10) == n,
    decreases n,
{
    if n < 10 {
        assert(decimal(n).drop_last() == Seq::<char>::empty());
        assert(digits_value(decimal(n).drop_last(), 10) == 0);
    } else {
        lemma_decimal_digits(n / 10);
        assert(decimal(n).drop_last() == decimal(n / 10));
        assert(decimal(n).last() == digit_char(n % 10));
        assert forall|i: int| 0 <= i < decimal(n).len() implies '0' <= #[trigger] decimal(n)[i]
            <= '9' by {
            if i < decimal(n / 10).len() {
                assert(decimal(n)[i] == decimal(n / 10)[i]);
            }
        }
    }
}

/// Reading back the decimal text of a number gives the number.
pub proof fn law_decimal_round_trip(n: nat, max: nat)
    ensures
        number(decimal(n), 10, max) == if n <= max {
            Some(n)
        } else {
            None
        },
{
    lemma_decimal_digits(n);
}

/// A text without separators is skipped in the search for one.
pub proof fn lemma_index_of_either_skips(s: Seq<char>, t: Seq<char>, a: char, b: char)
    requires
        !s.contains(a),
        !s.contains(b),
    ensures
        index_of_either(s + t, a, b) == s.len() + index_of_either(t, a, b),
    decreases s.len(),
{
    if s.len() == 0 {
        assert(s + t == t);
    } else {
        assert(s[0] != a && s[0] != b);
        assert((s + t).drop_first() == s.drop_first() + t);
        assert forall|c: char| s.drop_first().contains(c) implies s.contains(c) by {
            let i = choose|i: int| 0 <= i < s.drop_first().len() && s.drop_first()[i] == c;
            assert(s[i + 1] == c);
        }
        lemma_index_of_either_skips(s.drop_first(), t, a, b);
    }
}

/// A text without separators is its only piece.
pub proof fn law_split_of_one(s: Seq<char>, a: char, b: char)
    requires
        !s.contains(a),
        !s.contains(b),
    ensures
        split_either(s, a, b) == seq![s],
{
    assert(s + Seq::<char>::empty() == s);
    lemma_index_of_either_skips(s, Seq::empty(), a, b);
}

/// The pieces of two texts with a separator between them are those of the first,
/// followed by those of the second.
pub proof fn law_split_of_two(s: Seq<char>, sep: char, t: Seq<char>, a: char, b: char)
    requires
        sep == a || sep == b,
    ensures
        split_either(s.push(sep) + t, a, b) == split_either(s, a, b) + split_either(t, a, b),
    decreases s.len(),
{
    let whole = s.push(sep) + t;
    let i = index_of_either(s, a, b) as int;
    lemma_index_of_either_found(s, a, b);
    let head = s.take(i);
    assert(!head.contains(a) && !head.contains(b));
    if i >= s.len() {
        assert(head == s);
        assert(whole == s + seq![sep] + t);
        assert(s + (seq![sep] + t) == whole);
        lemma_index_of_either_skips(s, seq![sep] + t, a, b);
        assert((seq![sep] + t)[0] == sep);
        assert(index_of_either(whole, a, b) == s.len());
        assert(whole.take(s.len() as int) == s);
        assert(whole.skip((s.len() + 1) as int) == t);
    } else {
        let rest = s.skip(i + 1);
        assert(whole == head + (seq![s[i]] + (rest.push(sep) + t)));
        lemma_index_of_either_skips(head, seq![s[i]] + (rest.push(sep) + t), a, b);
        assert((seq![s[i]] + (rest.push(sep) + t))[0] == s[i]);
        assert(index_of_either(whole, a, b) == i);
        assert(whole.take(i) == head);
        assert(whole.skip(i + 1) == rest.push(sep) + t);
        law_split_of_two(rest, sep, t, a, b);
        assert(seq![head] + (split_either(rest, a, b) + split_either(t, a, b)) == seq![head]
            + split_either(rest, a, b) + split_either(t, a, b));
    }
}

/// A word in capitals, written in any case, has that word as its upper case.
pub proof fn law_upper_of_word(s: Seq<char>, word: Seq<char>)
    requires
        eq_ignore_case(s, word),
        is_ascii_chars(word),
        forall|i: int| 0 <= i < word.len() ==> !('a' <= #[trigger] word[i] <= 'z'),
    ensures
        upper(s) == word,
{
    assert forall|i: int| 0 <= i < s.len() implies (#[trigger] s[i]) as nat <= 127 && ascii_upper(
        s[i],
    ) == word[i] by {
        let (c, d) = (s[i], word[i]);
        assert(ascii_lower(c) == ascii_lower(d));
        assert(d as nat <= 127);
        if 'A' <= d <= 'Z' {
            if 'A' <= c <= 'Z' {
                assert(c as u32 == d as u32);
                assert(c == d);
            } else {
                assert(c as u32 == d as u32 + 32);
                assert(ascii_upper(c) as u32 == d as u32);
            }
        } else {
            if 'A' <= c <= 'Z' {
                assert(c as u32 + 32 == d as u32);
            }
            assert(c == d);
        }
    }
    assert(is_ascii_chars(s));
    assert(upper_letters(s) == word);
}

/// What follows the last separator holds none, and the text ends with it.
pub proof fn law_after_last(s: Seq<char>, sep: char)
    ensures
        !after_last(s, sep).contains(sep),
        after_last(s, sep).len() <= s.len(),
        s.skip(s.len() - after_last(s, sep).len()) == after_last(s, sep),
        after_last(s, sep).len() < s.len() ==> s[s.len() - after_last(s, sep).len() - 1] == sep,
    decreases s.len(),
{
    if s.len() == 0 || s.last() == sep {
        assert(s.skip(s.len() as int) == Seq::<char>::empty());
    } else {
        let rest = s.drop_last();
        law_after_last(rest, sep);
        let tail = after_last(rest, sep);
        assert(s.skip(s.len() - tail.len() - 1) == rest.skip(rest.len() - tail.len()).push(
            s.last(),
        ));
        assert forall|i: int| 0 <= i < tail.push(s.last()).len() implies tail.push(s.last())[i]
            != sep by {
            if i < tail.len() {
                assert(tail.contains(tail[i]));
            }
        }
    }
}

/// Whether a text is the given word.
pub fn is_word(s: &str, word: &str) -> (r: bool)
    ensures
        r == (s@ == word@),
{
    let a: Vec<char> = chars_of(s);
    let b: Vec<char> = chars_of(word);
    same(a.as_slice(), b.as_slice())
}

} // verus!
