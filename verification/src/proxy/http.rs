//! HTTP CONNECT: the request, and the reading of the response.

use base64::Engine;
use vstd::prelude::*;
use vstd::utf8::{decode_utf8, encode_utf8, valid_utf8};

use crate::addr::{dotted, format_ip, octets};
use crate::text::{
    chars_of, decimal, lemma_decimal_digits, number, parse_number, push_decimal, trim, trimmed,
};

verus! {

/// The character of the standard base64 alphabet with the given index.
pub open spec fn base64_char(n: int) -> char {
    if n < 26 {
        ('A' as u32 + n) as char
    } else if n < 52 {
        ('a' as u32 + n - 26) as char
    } else if n < 62 {
        ('0' as u32 + n - 52) as char
    } else if n == 62 {
        '+'
    } else {
        '/'
    }
}

/// Base64 with the standard alphabet and padding: three bytes are four characters of
/// six bits, and a last group of one or two bytes is filled up with `=`.
pub open spec fn base64(data: Seq<u8>) -> Seq<char>
    decreases data.len(),
{
    if data.len() == 0 {
        seq![]
    } else if data.len() == 1 {
        seq![base64_char((data[0] / 4) as int), base64_char(data[0] % 4 * 16), '=', '=']
    } else if data.len() == 2 {
        seq![
            base64_char((data[0] / 4) as int),
            base64_char(data[0] % 4 * 16 + data[1] / 16),
            base64_char(data[1] % 16 * 4),
            '=',
        ]
    } else {
        seq![
            base64_char((data[0] / 4) as int),
            base64_char(data[0] % 4 * 16 + data[1] / 16),
            base64_char(data[1] % 16 * 4 + data[2] / 64),
            base64_char((data[2] % 64) as int),
        ] + base64(data.skip(3))
    }
}

/// `Engine::encode` of the base64 crate's `STANDARD` engine: the standard alphabet,
/// with padding. The encoded length must fit into an allocation.
#[verifier::external_body]
fn encode_base64(text: &str) -> (r: String)
    requires
        (encode_utf8(text@).len() + 2) / 3 * 4 <= isize::MAX,
    ensures
        r@ == base64(encode_utf8(text@)),
{
    base64::engine::general_purpose::STANDARD.encode(text)
}

/// `std::str::Utf8Error`, which says where a text is not valid; nothing is claimed of it.
#[verifier::external_type_specification]
#[verifier::external_body]
pub struct ExUtf8Error(std::str::Utf8Error);

/// `std::str::from_utf8`: succeeds exactly on valid UTF-8, and gives its characters.
pub assume_specification[ std::str::from_utf8 ](v: &[u8]) -> (r: Result<
    &str,
    std::str::Utf8Error,
>)
    ensures
        r is Ok <==> valid_utf8(v@),
        r is Ok ==> r->Ok_0@ == decode_utf8(v@),
;

/// Username and password as the request carries them.
pub open spec fn basic_credentials(user: Seq<char>, pass: Seq<char>) -> Seq<char> {
    user + seq![':'] + pass
}

/// Where the connection is to lead.
pub open spec fn target(ip: u32, port: u16) -> Seq<char> {
    dotted(ip) + seq![':'] + decimal(port as nat)
}

/// The lines of a request.
pub open spec fn request_lines(
    ip: u32,
    port: u16,
    credentials: Option<(Seq<char>, Seq<char>)>,
) -> Seq<Seq<char>> {
    let lines = seq![
        "CONNECT "@ + target(ip, port) + " HTTP/1.1"@,
        "Host: "@ + target(ip, port),
        "Proxy-Connection: Keep-Alive"@,
    ];
    match credentials {
        Some((user, pass)) => lines.push(
            "Proxy-Authorization: Basic "@ + base64(encode_utf8(basic_credentials(user, pass))),
        ),
        None => lines,
    }
}

/// Lines, each with its end.
pub open spec fn ended(lines: Seq<Seq<char>>) -> Seq<char>
    decreases lines.len(),
{
    if lines.len() == 0 {
        seq![]
    } else {
        ended(lines.drop_last()) + lines.last() + "\r\n"@
    }
}

/// Lines as they are sent: an empty one ends the request.
pub open spec fn framed(lines: Seq<Seq<char>>) -> Seq<char> {
    ended(lines) + "\r\n"@
}

/// Adds a line to those that were written.
fn with_line(text: String, line: &str, lines: Ghost<Seq<Seq<char>>>) -> (r: String)
    requires
        text@ == ended(lines@),
    ensures
        r@ == ended(lines@.push(line@)),
{
    assert(lines@.push(line@).drop_last() =~= lines@);
    text.concat(line).concat("\r\n")
}

/// Writes the request for a connection to the given destination. It carries
/// credentials where both a username and a password are given.
pub fn build_connect_request(
    dest_ip: u32,
    dest_port: u16,
    username: Option<&str>,
    password: Option<&str>,
) -> (r: String)
    requires
        username is Some && password is Some ==> (encode_utf8(
            basic_credentials(username->Some_0@, password->Some_0@),
        ).len() + 2) / 3 * 4 <= isize::MAX,
    ensures
        r@ == framed(
            request_lines(
                dest_ip,
                dest_port,
                match (username, password) {
                    (Some(user), Some(pass)) => Some((user@, pass@)),
                    _ => None,
                },
            ),
        ),
{
    let mut to: String = format_ip(dest_ip);
    to.push(':');
    push_decimal(&mut to, dest_port as u64);
    assert(to@ == target(dest_ip, dest_port));
    let first: String = "CONNECT ".to_owned().concat(to.as_str()).concat(" HTTP/1.1");
    let second: String = "Host: ".to_owned().concat(to.as_str());
    let third: &str = "Proxy-Connection: Keep-Alive";
    let request: String = String::new();
    let ghost none = Seq::<Seq<char>>::empty();
    let request: String = with_line(request, first.as_str(), Ghost(none));
    let request: String = with_line(request, second.as_str(), Ghost(none.push(first@)));
    let ghost two = none.push(first@).push(second@);
    let request: String = with_line(request, third, Ghost(two));
    let ghost lines = request_lines(dest_ip, dest_port, None);
    assert(two.push(third@) == lines);
    match (username, password) {
        (Some(user), Some(pass)) => {
            proof {
                reveal_strlit(":");
                assert(":"@ == seq![':']);
            }
            let credentials: String = user.to_owned().concat(":").concat(pass);
            assert(credentials@ == basic_credentials(user@, pass@));
            let encoded: String = encode_base64(credentials.as_str());
            let fourth: String = "Proxy-Authorization: Basic ".to_owned().concat(encoded.as_str());
            with_line(request, fourth.as_str(), Ghost(lines)).concat("\r\n")
        },
        _ => request.concat("\r\n"),
    }
}

/// A text without line breaks.
pub open spec fn unbroken(s: Seq<char>) -> bool {
    forall|i: int| 0 <= i < s.len() ==> #[trigger] s[i] != '\r' && s[i] != '\n'
}

proof fn lemma_base64_unbroken(data: Seq<u8>)
    ensures
        unbroken(base64(data)),
    decreases data.len(),
{
    if data.len() >= 3 {
        lemma_base64_unbroken(data.skip(3));
    }
}

/// No line of a request is empty or holds a line break, whatever the credentials are:
/// what is sent is one request with these header lines.
pub proof fn law_request_lines_are_lines(
    ip: u32,
    port: u16,
    credentials: Option<(Seq<char>, Seq<char>)>,
)
    ensures
        forall|i: int|
            0 <= i < request_lines(ip, port, credentials).len() ==> {
                &&& (#[trigger] request_lines(ip, port, credentials)[i]).len() > 0
                &&& unbroken(request_lines(ip, port, credentials)[i])
            },
        request_lines(ip, port, credentials).len() == if credentials is Some {
            4nat
        } else {
            3
        },
{
    reveal_strlit("CONNECT ");
    reveal_strlit(" HTTP/1.1");
    reveal_strlit("Host: ");
    reveal_strlit("Proxy-Connection: Keep-Alive");
    reveal_strlit("Proxy-Authorization: Basic ");
    lemma_decimal_digits(port as nat);
    lemma_decimal_digits(octets(ip)[0] as nat);
    lemma_decimal_digits(octets(ip)[1] as nat);
    lemma_decimal_digits(octets(ip)[2] as nat);
    lemma_decimal_digits(octets(ip)[3] as nat);
    assert(unbroken(dotted(ip)));
    assert(unbroken(target(ip, port)));
    assert(unbroken("CONNECT "@ + target(ip, port) + " HTTP/1.1"@));
    assert(unbroken("Host: "@ + target(ip, port)));
    assert(unbroken("Proxy-Connection: Keep-Alive"@));
    if let Some((user, pass)) = credentials {
        let encoded = base64(encode_utf8(basic_credentials(user, pass)));
        lemma_base64_unbroken(encode_utf8(basic_credentials(user, pass)));
        assert(unbroken("Proxy-Authorization: Basic "@ + encoded));
    }
}

/// Why a proxy did not open the connection.
#[derive(Debug, Clone, Copy, PartialEq, Eq, Structural)]
pub enum HttpConnectError {
    /// The response has only this many bytes.
    TooShort(usize),
    /// The response is no HTTP/1 response.
    Invalid,
    /// The response has this status; 0 where it has none.
    Status(u16),
}

/// The status code that a response carries in its tenth to twelfth byte, as a number
/// that may have white space around it; 0 where there is none. Bytes that are no text,
/// and characters that reach over these borders, leave no status code.
pub open spec fn status_code(response: Seq<u8>) -> nat {
    if valid_utf8(response.subrange(7, 9)) && valid_utf8(response.subrange(9, 12)) {
        match number(trim(decode_utf8(response.subrange(9, 12))), 10, 65535) {
            Some(n) => n,
            None => 0,
        }
    } else {
        0
    }
}

/// What a response starts with.
pub open spec fn http_prefix() -> Seq<u8> {
    seq![0x48u8, 0x54, 0x54, 0x50, 0x2f, 0x31, 0x2e]
}

/// What a response amounts to.
pub open spec fn verdict(response: Seq<u8>) -> Result<(), HttpConnectError> {
    if response.len() < 12 {
        Err(HttpConnectError::TooShort(response.len() as usize))
    } else if response.take(7) != http_prefix() {
        Err(HttpConnectError::Invalid)
    } else if status_code(response) != 200 {
        Err(HttpConnectError::Status(status_code(response) as u16))
    } else {
        Ok(())
    }
}

/// Reads the status code of a response.
fn read_status(response: &[u8]) -> (r: u16)
    requires
        response@.len() >= 12,
    ensures
        r == status_code(response@),
{
    if std::str::from_utf8(&response[7..9]).is_err() {
        return 0;
    }
    match std::str::from_utf8(&response[9..12]) {
        Ok(s) => {
            let chars: Vec<char> = chars_of(s);
            match parse_number(trimmed(chars.as_slice()), 10, 65535) {
                Some(n) => n as u16,
                None => 0,
            }
        },
        Err(_) => 0,
    }
}

/// Checks the first bytes of the proxy's response.
pub fn check_connect_response(response: &[u8]) -> (r: Result<(), HttpConnectError>)
    ensures
        r == verdict(response@),
{
    if response.len() < 12 {
        return Err(HttpConnectError::TooShort(response.len()));
    }
    let named: bool = response[0] == 0x48 && response[1] == 0x54 && response[2] == 0x54
        && response[3] == 0x50 && response[4] == 0x2f && response[5] == 0x31 && response[6] == 0x2e;
    assert(named ==> response@.take(7) =~= http_prefix());
    assert(response@.take(7) == http_prefix() ==> named) by {
        assert forall|i: int| 0 <= i < 7 implies response@[i] == response@.take(7)[i] by {}
    }
    if !named {
        return Err(HttpConnectError::Invalid);
    }
    let status: u16 = read_status(response);
    if status != 200 {
        return Err(HttpConnectError::Status(status));
    }
    Ok(())
}

/// Whether bytes end with the given ones.
pub open spec fn ends_with(bytes: Seq<u8>, end: Seq<u8>) -> bool {
    bytes.len() >= end.len() && bytes.skip(bytes.len() - end.len()) == end
}

/// Whether a response head is complete: its last line is an empty one. A line ends with LF,
/// which may have a CR before it.
pub open spec fn ends_head(bytes: Seq<u8>) -> bool {
    ends_with(bytes, seq![0x0au8, 0x0a]) || ends_with(bytes, seq![0x0au8, 0x0d, 0x0a])
}

/// A head whose lines end with CR LF is complete at CR LF CR LF.
pub proof fn law_head_ends_with_empty_line(bytes: Seq<u8>)
    requires
        ends_with(bytes, seq![0x0du8, 0x0a, 0x0d, 0x0a]),
    ensures
        ends_head(bytes),
{
    let n = bytes.len();
    let last = bytes.skip(n - 4);
    assert(last[1] == bytes[n - 3] && last[2] == bytes[n - 2] && last[3] == bytes[n - 1]);
    assert(bytes.skip(n - 3) == seq![0x0au8, 0x0d, 0x0a]);
}

/// Whether no more bytes of a response are needed: its head is complete, or its status,
/// which stands in its first bytes, already shows that the connection is not opened.
pub open spec fn is_decided(bytes: Seq<u8>) -> bool {
    ends_head(bytes) || bytes.len() >= 12 && verdict(bytes) is Err
}

/// What follows a byte of a response head.
#[derive(Debug, Clone, Copy, PartialEq, Eq)]
pub enum HeadStep {
    /// Read the next byte.
    More,
    /// Read no further: this is what the response amounts to.
    Done(Result<(), HttpConnectError>),
}

/// Takes the next byte of a response, after those that were taken before; `None` where the
/// stream has ended, so that those are all there is. What follows a head belongs to the
/// connection that it opens, so bytes are read one by one.
pub fn take_head_byte(head: &mut Vec<u8>, byte: Option<u8>) -> (step: HeadStep)
    ensures
        final(head)@ == match byte {
            Some(b) => old(head)@.push(b),
            None => old(head)@,
        },
        step == if byte is None || is_decided(final(head)@) {
            HeadStep::Done(verdict(final(head)@))
        } else {
            HeadStep::More
        },
{
    if let Some(b) = byte {
        head.push(b);
    }
    let n: usize = head.len();
    let bare: bool = n >= 2 && head[n - 2] == 0x0a && head[n - 1] == 0x0a;
    let full: bool = n >= 3 && head[n - 3] == 0x0a && head[n - 2] == 0x0d && head[n - 1] == 0x0a;
    proof {
        if n >= 2 {
            let tail = head@.skip(n - 2);
            assert(tail[0] == head@[n - 2] && tail[1] == head@[n - 1]);
            assert(bare ==> tail == seq![0x0au8, 0x0a]);
        }
        if n >= 3 {
            let tail = head@.skip(n - 3);
            assert(tail[0] == head@[n - 3] && tail[1] == head@[n - 2] && tail[2] == head@[n - 1]);
            assert(full ==> tail == seq![0x0au8, 0x0d, 0x0a]);
        }
        assert((bare || full) == ends_head(head@));
    }
    let verdict: Result<(), HttpConnectError> = check_connect_response(head.as_slice());
    if byte.is_none() || bare || full || n >= 12 && verdict.is_err() {
        HeadStep::Done(verdict)
    } else {
        HeadStep::More
    }
}

/// How many bytes of a stream are taken, and what they amount to, where the first `taken`
/// were not enough; `None` while more are needed.
pub open spec fn taken_head(stream: Seq<u8>, taken: nat) -> Option<
    (nat, Result<(), HttpConnectError>),
>
    decreases stream.len() - taken,
{
    if taken >= stream.len() {
        None
    } else {
        let bytes = stream.take((taken + 1) as int);
        if is_decided(bytes) {
            Some((taken + 1, verdict(bytes)))
        } else {
            taken_head(stream, taken + 1)
        }
    }
}

/// What a response amounts to rests on its first twelve bytes.
pub proof fn law_verdict_rests_on_twelve_bytes(response: Seq<u8>, n: int)
    requires
        12 <= n <= response.len(),
    ensures
        verdict(response.take(n)) == verdict(response),
{
    let start = response.take(n);
    assert(start.take(7) == response.take(7));
    assert(start.subrange(7, 9) == response.subrange(7, 9));
    assert(start.subrange(9, 12) == response.subrange(9, 12));
}

/// Where a proxy opens the connection, exactly the head of its response is taken, through
/// the empty line, in whatever pieces it comes: the next byte is the first of the
/// connection's own data.
pub proof fn law_head_is_taken_whole(head: Seq<u8>, data: Seq<u8>)
    requires
        ends_head(head),
        forall|n: int| 0 <= n < head.len() ==> !ends_head(#[trigger] head.take(n)),
        verdict(head) is Ok,
    ensures
        taken_head(head + data, 0) == Some((head.len(), Ok::<(), HttpConnectError>(()))),
{
    lemma_head_is_taken_from(head, data, 0);
}

proof fn lemma_head_is_taken_from(head: Seq<u8>, data: Seq<u8>, taken: nat)
    requires
        taken < head.len(),
        ends_head(head),
        forall|n: int| 0 <= n < head.len() ==> !ends_head(#[trigger] head.take(n)),
        verdict(head) is Ok,
    ensures
        taken_head(head + data, taken) == Some((head.len(), Ok::<(), HttpConnectError>(()))),
    decreases head.len() - taken,
{
    let n = taken + 1;
    assert((head + data).take(n as int) == head.take(n as int));
    if n == head.len() {
        assert(head.take(n as int) == head);
    } else {
        if n >= 12 {
            law_verdict_rests_on_twelve_bytes(head, n as int);
        }
        lemma_head_is_taken_from(head, data, n);
    }
}

impl HttpConnectError {
    /// The message for the log.
    pub fn message(&self) -> (r: String)
        ensures
            r@ == match self {
                HttpConnectError::TooShort(n) => "http connect: response too short ("@ + decimal(
                    *n as nat,
                ) + " bytes)"@,
                HttpConnectError::Invalid => "http connect: invalid response"@,
                HttpConnectError::Status(s) => "http connect: failed with status "@ + decimal(
                    *s as nat,
                ),
            },
    {
        match self {
            HttpConnectError::TooShort(n) => {
                let mut s: String = "http connect: response too short (".to_owned();
                push_decimal(&mut s, *n as u64);
                s.concat(" bytes)")
            },
            HttpConnectError::Invalid => "http connect: invalid response".to_owned(),
            HttpConnectError::Status(n) => {
                let mut s: String = "http connect: failed with status ".to_owned();
                push_decimal(&mut s, *n as u64);
                s
            },
        }
    }
}

} // verus!
