//! What holds of the text primitives, said in terms of single characters.

use vstd::prelude::*;
use vstd::utf8::is_ascii_chars;

use crate::text::{
    after_last, all_digits, ascii_lower, decimal, digit_value, digits_value,
    ends_with_ignore_case, eq_ignore_case, index_of_either, is_space, lemma_decimal_digits,
    lemma_index_of_either_skips, number, split_once, starts_with_ignore_case, trim, trim_end,
    trim_start, upper, word_len, words,
};

verus! {

/// The same character, or the same ASCII letter in the other case.
pub open spec fn same_letter(a: char, b: char) -> bool {
    ||| a == b
    ||| 'A' <= a <= 'Z' && b as u32 == a as u32 + 32
    ||| 'a' <= a <= 'z' && a as u32 == b as u32 + 32
}

/// The same text, up to the case of ASCII letters.
pub open spec fn same_text(a: Seq<char>, b: Seq<char>) -> bool {
    a.len() == b.len() && forall|i: int| 0 <= i < a.len() ==> same_letter(#[trigger] a[i], b[i])
}

proof fn lemma_same_letter(a: char, b: char)
    ensures
        ascii_lower(a) == ascii_lower(b) <==> same_letter(a, b),
{
    if 'A' <= a <= 'Z' {
        assert(ascii_lower(a) as u32 == a as u32 + 32);
    }
    if 'A' <= b <= 'Z' {
        assert(ascii_lower(b) as u32 == b as u32 + 32);
    }
}

/// Two texts are equal up to case where they have the same letters in the same places.
pub proof fn law_equality_up_to_case(a: Seq<char>, b: Seq<char>)
    ensures
        eq_ignore_case(a, b) <==> same_text(a, b),
{
    assert forall|i: int| 0 <= i < a.len() && i < b.len() implies (ascii_lower(#[trigger] a[i])
        == ascii_lower(b[i]) <==> same_letter(a[i], b[i])) by {
        lemma_same_letter(a[i], b[i]);
    }
    if eq_ignore_case(a, b) {
        assert forall|i: int| 0 <= i < a.len() implies same_letter(#[trigger] a[i], b[i]) by {
            assert(ascii_lower(a[i]) == ascii_lower(b[i]));
        }
    }
    if same_text(a, b) {
        assert forall|i: int| 0 <= i < a.len() implies ascii_lower(#[trigger] a[i]) == ascii_lower(
            b[i],
        ) by {
            assert(same_letter(a[i], b[i]));
        }
    }
}

/// A text begins with a prefix where the prefix is a part of it that stands in front, and
/// ends with a suffix where the suffix stands at its end, both up to case.
pub proof fn law_prefix_and_suffix(s: Seq<char>, part: Seq<char>)
    ensures
        starts_with_ignore_case(s, part) <==> part.len() <= s.len() && forall|i: int|
            0 <= i < part.len() ==> same_letter(s[i], #[trigger] part[i]),
        ends_with_ignore_case(s, part) <==> part.len() <= s.len() && forall|i: int|
            0 <= i < part.len() ==> same_letter(s[s.len() - part.len() + i], #[trigger] part[i]),
{
    if part.len() <= s.len() {
        let n = part.len() as int;
        let (front, back) = (s.take(n), s.skip(s.len() - n));
        law_equality_up_to_case(front, part);
        law_equality_up_to_case(back, part);
        assert(forall|i: int| 0 <= i < n ==> #[trigger] front[i] == s[i]);
        assert(forall|i: int| 0 <= i < n ==> #[trigger] back[i] == s[s.len() - n + i]);
        if same_text(front, part) {
            assert forall|i: int| 0 <= i < n implies same_letter(s[i], #[trigger] part[i]) by {
                assert(same_letter(front[i], part[i]));
            }
        }
        if same_text(back, part) {
            assert forall|i: int| 0 <= i < n implies same_letter(
                s[s.len() - n + i],
                #[trigger] part[i],
            ) by {
                assert(same_letter(back[i], part[i]));
            }
        }
        if forall|i: int| 0 <= i < n ==> same_letter(s[i], #[trigger] part[i]) {
            assert forall|i: int| 0 <= i < n implies same_letter(#[trigger] front[i], part[i]) by {
                assert(same_letter(s[i], part[i]));
            }
        }
        if forall|i: int|
            0 <= i < n ==> same_letter(s[s.len() - n + i], #[trigger] part[i]) {
            assert forall|i: int| 0 <= i < n implies same_letter(#[trigger] back[i], part[i]) by {
                assert(same_letter(s[s.len() - n + i], part[i]));
            }
        }
    }
}

/// The part of a path behind its last separator: where a name without separators stands at
/// the end, behind nothing or behind a separator, it is that name.
pub proof fn law_after_last_of_path(dir: Seq<char>, name: Seq<char>, sep: char)
    requires
        dir.len() == 0 || dir.last() == sep,
        !name.contains(sep),
    ensures
        after_last(dir + name, sep) == name,
    decreases name.len(),
{
    let path = dir + name;
    if name.len() == 0 {
        assert(path == dir);
    } else {
        let shorter = name.drop_last();
        assert(path.drop_last() == dir + shorter);
        assert(path.last() == name.last());
        assert(name.contains(name[name.len() - 1]));
        assert forall|c: char| shorter.contains(c) implies name.contains(c) by {
            let i = choose|i: int| 0 <= i < shorter.len() && shorter[i] == c;
            assert(name[i] == c);
        }
        law_after_last_of_path(dir, shorter, sep);
        assert(shorter.push(name.last()) == name);
    }
}

/// A text is cut at its first separator.
pub proof fn law_cut_at_first(a: Seq<char>, sep: char, b: Seq<char>)
    requires
        !a.contains(sep),
    ensures
        split_once(a.push(sep) + b, sep) == Some((a, b)),
        split_once(a, sep) is None,
{
    let s = a.push(sep) + b;
    assert(s == a + (seq![sep] + b));
    lemma_index_of_either_skips(a, seq![sep] + b, sep, sep);
    assert((seq![sep] + b)[0] == sep);
    assert(index_of_either(s, sep, sep) == a.len());
    assert(s.take(a.len() as int) == a);
    assert(s.skip((a.len() + 1) as int) == b);
    assert(a + Seq::<char>::empty() == a);
    lemma_index_of_either_skips(a, Seq::empty(), sep, sep);
}

/// All characters are white space.
pub open spec fn all_space(s: Seq<char>) -> bool {
    forall|i: int| 0 <= i < s.len() ==> is_space(#[trigger] s[i])
}

/// No character is white space.
pub open spec fn no_space(s: Seq<char>) -> bool {
    forall|i: int| 0 <= i < s.len() ==> !is_space(#[trigger] s[i])
}

/// White space, by code point.
pub proof fn law_white_space(c: char)
    ensures
        is_space(c) <==> {
            let n = c as u32;
            ||| 9 <= n <= 13
            ||| n == 32
            ||| n == 133
            ||| n == 160
            ||| n == 5760
            ||| 8192 <= n <= 8202
            ||| n == 8232
            ||| n == 8233
            ||| n == 8239
            ||| n == 8287
            ||| n == 12288
        },
{
}

proof fn lemma_trim_start(before: Seq<char>, s: Seq<char>)
    requires
        all_space(before),
    ensures
        trim_start(before + s) == trim_start(s),
    decreases before.len(),
{
    if before.len() == 0 {
        assert(before + s == s);
    } else {
        assert(is_space(before[0]));
        assert((before + s)[0] == before[0]);
        assert((before + s).drop_first() == before.drop_first() + s);
        lemma_trim_start(before.drop_first(), s);
    }
}

proof fn lemma_trim_end(s: Seq<char>, after: Seq<char>)
    requires
        all_space(after),
    ensures
        trim_end(s + after) == trim_end(s),
    decreases after.len(),
{
    if after.len() == 0 {
        assert(s + after == s);
    } else {
        assert(is_space(after[after.len() - 1]));
        assert((s + after).last() == after.last());
        assert((s + after).drop_last() == s + after.drop_last());
        lemma_trim_end(s, after.drop_last());
    }
}

/// Trimming takes the white space at both ends away and nothing else.
pub proof fn law_trim(before: Seq<char>, s: Seq<char>, after: Seq<char>)
    requires
        all_space(before),
        all_space(after),
        s.len() > 0 ==> !is_space(s[0]) && !is_space(s.last()),
    ensures
        trim(before + s + after) == s,
{
    if s.len() == 0 {
        let all = before + after;
        assert(before + s + after == all);
        assert(all_space(all));
        assert(all + Seq::<char>::empty() == all);
        lemma_trim_start(all, Seq::empty());
    } else {
        assert(before + s + after == before + (s + after));
        lemma_trim_start(before, s + after);
        assert((s + after)[0] == s[0]);
        lemma_trim_end(s, after);
    }
}

proof fn lemma_words_skip_space(before: Seq<char>, s: Seq<char>)
    requires
        all_space(before),
    ensures
        words(before + s) == words(s),
    decreases before.len(),
{
    if before.len() == 0 {
        assert(before + s == s);
    } else {
        assert(is_space(before[0]));
        assert((before + s)[0] == before[0]);
        assert((before + s).drop_first() == before.drop_first() + s);
        lemma_words_skip_space(before.drop_first(), s);
    }
}

proof fn lemma_word_len_is(word: Seq<char>, rest: Seq<char>)
    requires
        no_space(word),
        rest.len() == 0 || is_space(rest[0]),
    ensures
        word_len(word + rest) == word.len(),
    decreases word.len(),
{
    if word.len() == 0 {
        assert(word + rest == rest);
    } else {
        assert(!is_space(word[0]));
        assert((word + rest)[0] == word[0]);
        assert((word + rest).drop_first() == word.drop_first() + rest);
        lemma_word_len_is(word.drop_first(), rest);
    }
}

/// The words of a text: white space in front is passed over, then a run of other characters
/// up to the next white space is a word, and the words of what follows come after it.
pub proof fn law_words(before: Seq<char>, word: Seq<char>, rest: Seq<char>)
    requires
        all_space(before),
        word.len() > 0,
        no_space(word),
        rest.len() == 0 || is_space(rest[0]),
    ensures
        words(before) == Seq::<Seq<char>>::empty(),
        words(before + word + rest) == seq![word] + words(rest),
{
    assert(before + Seq::<char>::empty() == before);
    lemma_words_skip_space(before, Seq::empty());
    assert(before + word + rest == before + (word + rest));
    lemma_words_skip_space(before, word + rest);
    let s = word + rest;
    assert(!is_space(word[0]));
    assert(s[0] == word[0]);
    lemma_word_len_is(word, rest);
    assert(s.take(word.len() as int) == word);
    assert(s.skip(word.len() as int) == rest);
}

/// The digits of a base: `0` to `9`, and then the letters in either case.
pub proof fn law_digits(c: char, base: nat)
    requires
        2 <= base <= 36,
    ensures
        digit_value(c, base) == ({
            let n = c as int;
            let d = if 48 <= n <= 57 {
                n - 48
            } else if 65 <= n <= 90 {
                n - 55
            } else if 97 <= n <= 122 {
                n - 87
            } else {
                36
            };
            if d < base {
                Some(d as nat)
            } else {
                None
            }
        }),
{
}

/// How a number is read: one digit is its value, a further digit behind a number counts that
/// number the base times, and a number above the limit is none.
pub proof fn law_number_digit_by_digit(s: Seq<char>, c: char, base: nat, max: nat)
    requires
        2 <= base <= 36,
        digit_value(c, base) is Some,
    ensures
        number(seq![c], base, max) == if digit_value(c, base)->0 <= max {
            Some(digit_value(c, base)->0)
        } else {
            None
        },
        number(s, base, max) is Some ==> number(s.push(c), base, max) == ({
            let n = number(s, base, max)->0 * base + digit_value(c, base)->0;
            if n <= max {
                Some(n)
            } else {
                None
            }
        }),
{
    let one = seq![c];
    assert(one.drop_last() == Seq::<char>::empty());
    assert(digits_value(one.drop_last(), base) == 0);
    assert(0 * base == 0) by (nonlinear_arith);
    assert(digits_value(one, base) == digit_value(c, base)->0);
    assert(all_digits(one, base));
    assert(one[0] != '+');
    if number(s, base, max) is Some {
        let signed = s[0] == '+';
        let digits = if signed {
            s.drop_first()
        } else {
            s
        };
        let more = if signed {
            s.push(c).drop_first()
        } else {
            s.push(c)
        };
        assert(more == digits.push(c));
        assert(more.drop_last() == digits);
        assert forall|i: int| 0 <= i < more.len() implies (#[trigger] digit_value(
            more[i],
            base,
        )) is Some by {
            if i < digits.len() {
                assert(more[i] == digits[i]);
                assert(digit_value(digits[i], base) is Some);
            }
        }
    }
}

/// What is no number: an empty text, a sign alone or a second one, and a text with a
/// character that is no digit, but for one sign in front. The sign changes nothing else.
pub proof fn law_what_is_no_number(s: Seq<char>, base: nat, max: nat, i: int)
    requires
        2 <= base <= 36,
    ensures
        number(Seq::empty(), base, max) is None,
        0 <= i < s.len() && digit_value(s[i], base) is None && (i > 0 || s[i] != '+') ==> number(
            s,
            base,
            max,
        ) is None,
        number(seq!['+'] + s, base, max) == if s.len() > 0 && s[0] == '+' {
            None
        } else {
            number(s, base, max)
        },
{
    let signed = seq!['+'] + s;
    assert(signed.drop_first() == s);
    assert(digit_value('+', base) is None);
    if 0 <= i < s.len() && digit_value(s[i], base) is None && (i > 0 || s[i] != '+') {
        if s[0] == '+' {
            assert(s.drop_first()[i - 1] == s[i]);
            assert(digit_value(s.drop_first()[i - 1], base) is None);
        }
    }
    if s.len() > 0 && s[0] == '+' {
        assert(digit_value(s[0], base) is None);
    }
}

/// A decimal text has no leading zero.
pub proof fn law_decimal_has_no_leading_zero(n: nat)
    ensures
        n < 10 ==> decimal(n) == seq![((n + 48) as u32) as char],
        n >= 10 ==> decimal(n) == decimal(n / 10) + decimal(n % 10),
        n > 0 ==> decimal(n)[0] != '0',
    decreases n,
{
    lemma_decimal_digits(n);
    if n >= 10 {
        law_decimal_has_no_leading_zero(n / 10);
        lemma_decimal_digits(n / 10);
        assert(decimal(n) == decimal(n / 10) + decimal(n % 10));
    }
}

/// The upper case of an ASCII text has its small letters changed and nothing else.
pub proof fn law_upper_of_ascii(s: Seq<char>, i: int)
    requires
        is_ascii_chars(s),
        0 <= i < s.len(),
    ensures
        upper(s).len() == s.len(),
        upper(s)[i] as u32 == if 97 <= s[i] as u32 <= 122 {
            s[i] as u32 - 32
        } else {
            s[i] as int
        },
{
    assert('\0' <= s[i] <= '\u{7f}');
}

} // verus!
