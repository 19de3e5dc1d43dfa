//! What holds of HTTP CONNECT, said in terms of the bytes of requests and responses.

use vstd::prelude::*;
use vstd::utf8::{
    decode_utf8, decode_utf8_encode_utf8, encode_utf8, encode_utf8_decode_utf8,
    encode_utf8_valid_utf8, is_ascii_chars, is_ascii_chars_encode_utf8, valid_utf8,
};

use crate::addr::dotted;
use crate::proxy::http::{
    base64, base64_char, ended, ends_head, framed, request_lines, taken_head, verdict,
    HttpConnectError,
};
use crate::text::{
    all_digits, decimal, digit_value, digits_value, is_space, number, trim, trim_end, trim_start,
};
use crate::text_laws::{law_number_digit_by_digit, law_trim, law_what_is_no_number};

verus! {

/// The characters that ASCII bytes stand for.
pub open spec fn ascii_text(bytes: Seq<u8>) -> Seq<char> {
    Seq::new(bytes.len(), |i: int| bytes[i] as char)
}

/// All bytes are ASCII.
pub open spec fn is_ascii(bytes: Seq<u8>) -> bool {
    forall|i: int| 0 <= i < bytes.len() ==> #[trigger] bytes[i] < 128
}

proof fn lemma_ascii(bytes: Seq<u8>)
    requires
        is_ascii(bytes),
    ensures
        valid_utf8(bytes),
        decode_utf8(bytes) == ascii_text(bytes),
{
    let chars = ascii_text(bytes);
    assert forall|i: int| 0 <= i < chars.len() implies '\0' <= #[trigger] chars[i]
        <= '\u{7f}' by {
        assert(bytes[i] < 128);
    }
    assert(is_ascii_chars(chars));
    is_ascii_chars_encode_utf8(chars);
    assert forall|i: int| 0 <= i < chars.len() implies encode_utf8(chars)[i] == bytes[i] by {
        assert(bytes[i] < 128);
        assert(chars[i] as u8 == bytes[i]);
    }
    assert(encode_utf8(chars) == bytes);
    encode_utf8_valid_utf8(chars);
    encode_utf8_decode_utf8(chars);
}

/// A response that begins with `HTTP/1.`, has two more ASCII characters, and then the given
/// three, whatever follows.
pub open spec fn response_with(x: u8, y: u8, a: u8, b: u8, c: u8, tail: Seq<u8>) -> Seq<u8> {
    seq![72u8, 84, 84, 80, 47, 49, 46, x, y, a, b, c] + tail
}

/// The status of a response is the number that its three characters are, white space at their
/// ends aside, and 0 where they are none; only 200 opens the connection.
pub proof fn law_status_is_number(x: u8, y: u8, a: u8, b: u8, c: u8, tail: Seq<u8>)
    requires
        x < 128,
        y < 128,
        a < 128,
        b < 128,
        c < 128,
    ensures
        ({
            let r = response_with(x, y, a, b, c, tail);
            let n = number(trim(seq![a as char, b as char, c as char]), 10, 65535);
            let status = if n is Some {
                n->0
            } else {
                0
            };
            verdict(r) == if status == 200 {
                Ok::<(), HttpConnectError>(())
            } else {
                Err(HttpConnectError::Status(status as u16))
            }
        }),
{
    let r = response_with(x, y, a, b, c, tail);
    assert(r.take(7) == seq![72u8, 84, 84, 80, 47, 49, 46]);
    let middle = r.subrange(7, 9);
    let digits = r.subrange(9, 12);
    assert(middle == seq![x, y]);
    assert(digits == seq![a, b, c]);
    lemma_ascii(middle);
    lemma_ascii(digits);
    assert(ascii_text(digits) == seq![a as char, b as char, c as char]);
}

/// For every status from 100 to 999, and whatever follows it, a response opens the connection
/// exactly if the status is 200, and is otherwise a failure with that status.
pub proof fn law_status_decides(x: u8, y: u8, n: u16, tail: Seq<u8>)
    requires
        x < 128,
        y < 128,
        100 <= n <= 999,
    ensures
        verdict(
            response_with(
                x,
                y,
                (48 + n / 100) as u8,
                (48 + n / 10 % 10) as u8,
                (48 + n % 10) as u8,
                tail,
            ),
        ) == if n == 200 {
            Ok::<(), HttpConnectError>(())
        } else {
            Err(HttpConnectError::Status(n))
        },
{
    let (a, b, c) = ((48 + n / 100) as u8, (48 + n / 10 % 10) as u8, (48 + n % 10) as u8);
    law_status_is_number(x, y, a, b, c, tail);
    let s = seq![a as char, b as char, c as char];
    assert(Seq::<char>::empty() + s + Seq::<char>::empty() == s);
    law_trim(Seq::empty(), s, Seq::empty());
    let one = seq![a as char];
    let two = one.push(b as char);
    assert(two.push(c as char) == s);
    assert(digit_value(a as char, 10) == Some((n / 100) as nat));
    assert(digit_value(b as char, 10) == Some((n / 10 % 10) as nat));
    assert(digit_value(c as char, 10) == Some((n % 10) as nat));
    law_number_digit_by_digit(one, a as char, 10, 65535);
    law_number_digit_by_digit(one, b as char, 10, 65535);
    law_number_digit_by_digit(two, c as char, 10, 65535);
    assert((n / 100) * 100 + (n / 10 % 10) * 10 + n % 10 == n);
}

proof fn lemma_trim_shortens(s: Seq<char>)
    ensures
        trim(s).len() <= s.len(),
        trim(s).len() == s.len() ==> trim(s) == s,
{
    lemma_trim_start_shortens(s);
    lemma_trim_end_shortens(trim_start(s));
}

proof fn lemma_trim_start_shortens(s: Seq<char>)
    ensures
        trim_start(s).len() <= s.len(),
        trim_start(s).len() == s.len() ==> trim_start(s) == s,
    decreases s.len(),
{
    if s.len() > 0 && is_space(s[0]) {
        lemma_trim_start_shortens(s.drop_first());
    }
}

proof fn lemma_trim_end_shortens(s: Seq<char>)
    ensures
        trim_end(s).len() <= s.len(),
        trim_end(s).len() == s.len() ==> trim_end(s) == s,
    decreases s.len(),
{
    if s.len() > 0 && is_space(s.last()) {
        lemma_trim_end_shortens(s.drop_last());
    }
}

proof fn lemma_short_digits_are_small(s: Seq<char>)
    requires
        all_digits(s, 10),
        s.len() <= 2,
    ensures
        digits_value(s, 10) < 100,
{
    reveal_with_fuel(digits_value, 4);
    if s.len() > 0 {
        assert(digit_value(s[s.len() - 1], 10) is Some);
        if s.len() > 1 {
            assert(s.drop_last()[0] == s[0]);
            assert(digit_value(s[0], 10) is Some);
        }
    }
}

/// Among all responses with ASCII text in place of the status, only those with the status
/// `200` open the connection.
pub proof fn law_only_200_opens(x: u8, y: u8, a: u8, b: u8, c: u8, tail: Seq<u8>)
    requires
        x < 128,
        y < 128,
        a < 128,
        b < 128,
        c < 128,
    ensures
        verdict(response_with(x, y, a, b, c, tail)) is Ok <==> a == 50 && b == 48 && c == 48,
{
    law_status_is_number(x, y, a, b, c, tail);
    if a == 50 && b == 48 && c == 48 {
        law_status_decides(x, y, 200, tail);
    }
    let s = seq![a as char, b as char, c as char];
    let t = trim(s);
    lemma_trim_shortens(s);
    if number(t, 10, 65535) == Some(200nat) {
        let digits = if t[0] == '+' {
            t.drop_first()
        } else {
            t
        };
        if digits.len() <= 2 {
            lemma_short_digits_are_small(digits);
        }
        assert(digits.len() == 3);
        assert(digits == s);
        reveal_with_fuel(digits_value, 4);
        assert(s.drop_last() == seq![a as char, b as char]);
        assert(s.drop_last().drop_last() == seq![a as char]);
        assert(s.drop_last().drop_last().drop_last() == Seq::<char>::empty());
        assert(digit_value(s[0], 10) is Some);
        assert(digit_value(s[1], 10) is Some);
        assert(digit_value(s[2], 10) is Some);
        let (p, q, r) = (a as int - 48, b as int - 48, c as int - 48);
        assert(p * 100 + q * 10 + r == 200);
    }
}

proof fn lemma_encoding_is_no_shorter(chars: Seq<char>)
    ensures
        encode_utf8(chars).len() >= chars.len(),
    decreases chars.len(),
{
    if chars.len() > 0 {
        lemma_encoding_is_no_shorter(chars.drop_first());
    }
}

/// Whatever the bytes of a response are, it opens the connection only if it begins with
/// `HTTP/1.` and has the three digits `200` at the places 9 to 11.
pub proof fn law_opening_response(response: Seq<u8>)
    requires
        verdict(response) is Ok,
    ensures
        response.len() >= 12,
        response.take(7) == seq![72u8, 84, 84, 80, 47, 49, 46],
        response.subrange(9, 12) == seq![50u8, 48, 48],
{
    let bytes = response.subrange(9, 12);
    let s = decode_utf8(bytes);
    decode_utf8_encode_utf8(bytes);
    assert(encode_utf8(s) == bytes);
    lemma_encoding_is_no_shorter(s);
    let t = trim(s);
    lemma_trim_shortens(s);
    assert(number(t, 10, 65535) == Some(200nat));
    let digits = if t[0] == '+' {
        t.drop_first()
    } else {
        t
    };
    if digits.len() <= 2 {
        lemma_short_digits_are_small(digits);
    }
    assert(digits == s);
    assert(s.len() == 3);
    assert(digit_value(s[0], 10) is Some);
    assert(digit_value(s[1], 10) is Some);
    assert(digit_value(s[2], 10) is Some);
    assert(is_ascii_chars(s));
    is_ascii_chars_encode_utf8(s);
    reveal_with_fuel(digits_value, 4);
    assert(s.drop_last()[1] == s[1] && s.drop_last().drop_last()[0] == s[0]);
    let (p, q, r) = (s[0] as int - 48, s[1] as int - 48, s[2] as int - 48);
    assert(s.drop_last().drop_last().drop_last().len() == 0);
    assert(p * 100 + q * 10 + r == 200);
    assert(s[0] as u8 == bytes[0] && s[1] as u8 == bytes[1] && s[2] as u8 == bytes[2]);
    assert(bytes == seq![50u8, 48, 48]);
}

/// A status with a character in it that is no digit, no white space and no sign counts as 0.
pub proof fn law_no_status_is_zero(x: u8, y: u8, a: u8, b: u8, c: u8, tail: Seq<u8>)
    requires
        x < 128,
        y < 128,
        33 <= a < 128 && a != 43 && !(48 <= a <= 57),
        33 <= b < 128,
        33 <= c < 128,
    ensures
        verdict(response_with(x, y, a, b, c, tail)) == Err::<(), HttpConnectError>(
            HttpConnectError::Status(0),
        ),
{
    law_status_is_number(x, y, a, b, c, tail);
    let s = seq![a as char, b as char, c as char];
    assert(Seq::<char>::empty() + s + Seq::<char>::empty() == s);
    law_trim(Seq::empty(), s, Seq::empty());
    law_what_is_no_number(s, 10, 65535, 0);
}

/// A response whose bytes around the status are no text has the status 0.
pub proof fn law_no_text_is_no_status(response: Seq<u8>)
    requires
        response.len() >= 12,
        response.take(7) == seq![72u8, 84, 84, 80, 47, 49, 46],
        !valid_utf8(response.subrange(7, 9)) || !valid_utf8(response.subrange(9, 12)),
    ensures
        verdict(response) == Err::<(), HttpConnectError>(HttpConnectError::Status(0)),
{
}

/// A response of less than twelve bytes is too short, and a longer one that does not begin
/// with `HTTP/1.` is invalid; no others are.
pub proof fn law_short_and_invalid_responses(response: Seq<u8>)
    ensures
        verdict(response) == Err::<(), HttpConnectError>(
            HttpConnectError::TooShort(response.len() as usize),
        ) <==> response.len() < 12,
        verdict(response) == Err::<(), HttpConnectError>(HttpConnectError::Invalid)
            <==> response.len() >= 12 && !(response[0] == 72 && response[1] == 84 && response[2]
            == 84 && response[3] == 80 && response[4] == 47 && response[5] == 49 && response[6]
            == 46),
{
    if response.len() >= 12 {
        let start = response.take(7);
        assert(start[0] == response[0] && start[1] == response[1] && start[2] == response[2]
            && start[3] == response[3] && start[4] == response[4] && start[5] == response[5]
            && start[6] == response[6]);
        let want = seq![72u8, 84, 84, 80, 47, 49, 46];
        if response[0] == 72 && response[1] == 84 && response[2] == 84 && response[3] == 80
            && response[4] == 47 && response[5] == 49 && response[6] == 46 {
            assert(start == want);
        }
    }
}

/// A head ends at a line feed that follows another one, with nothing or a carriage return
/// between them, and nowhere else.
pub proof fn law_where_a_head_ends(bytes: Seq<u8>)
    ensures
        ends_head(bytes) <==> {
            let n = bytes.len() as int;
            &&& n >= 2
            &&& bytes[n - 1] == 10
            &&& bytes[n - 2] == 10 || n >= 3 && bytes[n - 2] == 13 && bytes[n - 3] == 10
        },
{
    let n = bytes.len() as int;
    if n >= 2 {
        let two = bytes.skip(n - 2);
        assert(two[0] == bytes[n - 2] && two[1] == bytes[n - 1]);
        assert(bytes[n - 2] == 10 && bytes[n - 1] == 10 ==> two == seq![10u8, 10]);
    }
    if n >= 3 {
        let three = bytes.skip(n - 3);
        assert(three[0] == bytes[n - 3] && three[1] == bytes[n - 2] && three[2] == bytes[n - 1]);
        assert(bytes[n - 3] == 10 && bytes[n - 2] == 13 && bytes[n - 1] == 10 ==> three == seq![
            10u8,
            13,
            10,
        ]);
    }
}

/// A response that does not open the connection is given up after its first twelve bytes,
/// where its head has not ended before.
pub proof fn law_refusal_is_told_at_once(stream: Seq<u8>)
    requires
        stream.len() >= 12,
        verdict(stream.take(12)) is Err,
        forall|k: int| 0 <= k < 12 ==> !ends_head(#[trigger] stream.take(k)),
    ensures
        taken_head(stream, 0) == Some((12nat, verdict(stream.take(12)))),
{
    lemma_refusal_from(stream, 0);
}

proof fn lemma_refusal_from(stream: Seq<u8>, taken: nat)
    requires
        taken < 12,
        stream.len() >= 12,
        verdict(stream.take(12)) is Err,
        forall|k: int| 0 <= k < 12 ==> !ends_head(#[trigger] stream.take(k)),
    ensures
        taken_head(stream, taken) == Some((12nat, verdict(stream.take(12)))),
    decreases 12 - taken,
{
    if taken < 11 {
        assert(!ends_head(stream.take((taken + 1) as int)));
        lemma_refusal_from(stream, taken + 1);
    }
}

/// The whole text of a request.
pub proof fn law_request_text(ip: u32, port: u16, user: Seq<char>, pass: Seq<char>)
    ensures
        ({
            let to = dotted(ip) + seq![':'] + decimal(port as nat);
            let head = "CONNECT "@ + to + " HTTP/1.1"@ + "\r\n"@ + "Host: "@ + to + "\r\n"@
                + "Proxy-Connection: Keep-Alive"@ + "\r\n"@;
            let encoded = base64(encode_utf8(user + seq![':'] + pass));
            &&& framed(request_lines(ip, port, None)) == head + "\r\n"@
            &&& framed(request_lines(ip, port, Some((user, pass)))) == head
                + "Proxy-Authorization: Basic "@ + encoded + "\r\n"@ + "\r\n"@
        }),
{
    let plain = request_lines(ip, port, None);
    let full = request_lines(ip, port, Some((user, pass)));
    assert(full.drop_last() == plain);
    let two = plain.drop_last();
    let one = two.drop_last();
    assert(one.drop_last() == Seq::<Seq<char>>::empty());
    assert(ended(one.drop_last()) == Seq::<char>::empty());
    let to = dotted(ip) + seq![':'] + decimal(port as nat);
    let first = "CONNECT "@ + to + " HTTP/1.1"@ + "\r\n"@;
    assert(ended(one) == first);
    assert(ended(two) == first + "Host: "@ + to + "\r\n"@) by {
        assert(two.last() == "Host: "@ + to);
        assert(first + ("Host: "@ + to) + "\r\n"@ == first + "Host: "@ + to + "\r\n"@);
    }
    assert(ended(plain) == ended(two) + "Proxy-Connection: Keep-Alive"@ + "\r\n"@);
    let encoded = base64(encode_utf8(user + seq![':'] + pass));
    assert(full.last() == "Proxy-Authorization: Basic "@ + encoded);
    assert(ended(plain) + ("Proxy-Authorization: Basic "@ + encoded) + "\r\n"@ == ended(plain)
        + "Proxy-Authorization: Basic "@ + encoded + "\r\n"@);
}

/// The index of a character of the base64 alphabet.
pub open spec fn base64_index(c: char) -> int {
    let n = c as int;
    if 65 <= n <= 90 {
        n - 65
    } else if 97 <= n <= 122 {
        n - 71
    } else if 48 <= n <= 57 {
        n + 4
    } else if n == 43 {
        62
    } else if n == 47 {
        63
    } else {
        -1
    }
}

proof fn lemma_base64_index(n: int)
    requires
        0 <= n < 64,
    ensures
        base64_index(base64_char(n)) == n,
{
}

/// Base64 is read back group by group: four characters hold the bits of three bytes, the
/// first ones highest, and one or two bytes at the end are filled up with `=`.
pub proof fn law_base64_is_read_back(a: u8, b: u8, c: u8, rest: Seq<u8>)
    ensures
        base64(Seq::empty()) == Seq::<char>::empty(),
        ({
            let s = base64(seq![a, b, c] + rest);
            &&& s.len() >= 4
            &&& base64_index(s[0]) * 262144 + base64_index(s[1]) * 4096 + base64_index(s[2]) * 64
                + base64_index(s[3]) == a * 65536 + b * 256 + c
            &&& s.skip(4) == base64(rest)
        }),
        ({
            let s = base64(seq![a, b]);
            &&& s.len() == 4
            &&& s[3] == '='
            &&& base64_index(s[0]) * 4096 + base64_index(s[1]) * 64 + base64_index(s[2]) == (a * 256
                + b) * 4
        }),
        ({
            let s = base64(seq![a]);
            &&& s.len() == 4
            &&& s[2] == '=' && s[3] == '='
            &&& base64_index(s[0]) * 64 + base64_index(s[1]) == a * 16
        }),
{
    let data = seq![a, b, c] + rest;
    assert(data.skip(3) == rest);
    let s = base64(data);
    assert(s.skip(4) == base64(rest));
    lemma_base64_index((a / 4) as int);
    lemma_base64_index(a % 4 * 16 + b / 16);
    lemma_base64_index(b % 16 * 4 + c / 64);
    lemma_base64_index((c % 64) as int);
    lemma_base64_index(b % 16 * 4);
    lemma_base64_index(a % 4 * 16);
}

/// A head that ends before it has twelve bytes is too short, and nothing behind it is taken.
pub proof fn law_short_head(head: Seq<u8>, data: Seq<u8>)
    requires
        head.len() < 12,
        ends_head(head),
        forall|n: int| 0 <= n < head.len() ==> !ends_head(#[trigger] head.take(n)),
    ensures
        taken_head(head + data, 0) == Some(
            (
                head.len(),
                Err::<(), HttpConnectError>(HttpConnectError::TooShort(head.len() as usize)),
            ),
        ),
{
    lemma_short_head_from(head, data, 0);
}

proof fn lemma_short_head_from(head: Seq<u8>, data: Seq<u8>, taken: nat)
    requires
        taken < head.len() < 12,
        ends_head(head),
        forall|n: int| 0 <= n < head.len() ==> !ends_head(#[trigger] head.take(n)),
    ensures
        taken_head(head + data, taken) == Some(
            (
                head.len(),
                Err::<(), HttpConnectError>(HttpConnectError::TooShort(head.len() as usize)),
            ),
        ),
    decreases head.len() - taken,
{
    let n = taken + 1;
    assert((head + data).take(n as int) == head.take(n as int));
    if n == head.len() {
        assert(head.take(n as int) == head);
    } else {
        lemma_short_head_from(head, data, n);
    }
}

} // verus!
