//! The command line: its options, the proxy URL, and the lines shown at start.

use vstd::prelude::*;

use crate::config::{ProxyConfig, ProxyType, RuleAction, RuleProtocol};
use crate::rule::{or_star, RuleEngine, RuleIds, RuleView};
use crate::rule_text::{
    action_named, action_word, parse_rule_str, protocol_named, protocol_word, rule_reads_as,
    RuleParseError,
};
use crate::text::{
    ascii_lower, chars_of, decimal, eq_ignore_case, is_word, law_decimal_round_trip,
    law_split_of_one, law_split_of_two, law_upper_of_word, lemma_decimal_digits, number,
    parse_number, pieces_between, push_decimal, split, text_of, upper, views,
};

verus! {

/// The options of the command line.
#[derive(Debug)]
pub struct CliArgs {
    /// Proxy server URL: type://ip:port or type://ip:port:username:password.
    pub proxy: String,
    /// Traffic routing rules, each as process:hosts:ports:protocol:action.
    pub rule: Vec<String>,
    /// Whether DNS queries go through the proxy.
    pub dns_via_proxy: bool,
    /// Logging verbosity: 0=none, 1=logs, 2=connections, 3=both.
    pub verbose: u8,
    /// Whether to clean up what a crashed instance has left, and end.
    pub cleanup: bool,
}

/// Version shown in the banner.
pub const VERSION: &'static str = "0.1.0";

/// The proxy kind that an upper-case word names.
pub open spec fn proxy_type_named(word: Seq<char>) -> Option<ProxyType> {
    if word == "SOCKS5"@ {
        Some(ProxyType::Socks5)
    } else if word == "HTTP"@ {
        Some(ProxyType::Http)
    } else {
        None
    }
}

/// The position of the first `://`; the length where there is none.
pub open spec fn scheme_len(url: Seq<char>) -> nat
    decreases url.len(),
{
    if url.len() == 0 {
        0
    } else if url.len() >= 3 && url[0] == ':' && url[1] == '/' && url[2] == '/' {
        0
    } else {
        1 + scheme_len(url.drop_first())
    }
}

/// Parsed proxy URL components.
#[derive(Debug)]
pub struct ParsedProxy {
    pub proxy_type: ProxyType,
    pub host: String,
    pub port: u16,
    pub username: Option<String>,
    pub password: Option<String>,
}

/// Why a text is not a proxy URL.
#[derive(Debug)]
pub enum ProxyUrlError {
    /// There is no `://`.
    MissingScheme,
    /// The scheme in upper case, which names no proxy kind.
    UnknownType(String),
    /// There is no `:` behind the host.
    MissingPort,
    /// The port, which is zero or no number.
    InvalidPort(String),
}

impl ProxyUrlError {
    /// The message for the user.
    pub fn message(&self) -> (r: String)
        ensures
            r@ == match self {
                ProxyUrlError::MissingScheme =>
                    "Invalid proxy URL format. Expected type://host:port"@,
                ProxyUrlError::UnknownType(s) => "Invalid proxy type '"@ + s@
                    + "'. Use 'socks5' or 'http'"@,
                ProxyUrlError::MissingPort => "Invalid proxy URL. Missing host or port"@,
                ProxyUrlError::InvalidPort(s) => "Invalid proxy port '"@ + s@ + "'"@,
            },
    {
        match self {
            ProxyUrlError::MissingScheme =>
                "Invalid proxy URL format. Expected type://host:port".to_owned(),
            ProxyUrlError::UnknownType(s) => "Invalid proxy type '".to_owned().concat(
                s.as_str(),
            ).concat("'. Use 'socks5' or 'http'"),
            ProxyUrlError::MissingPort => "Invalid proxy URL. Missing host or port".to_owned(),
            ProxyUrlError::InvalidPort(s) => "Invalid proxy port '".to_owned().concat(
                s.as_str(),
            ).concat("'"),
        }
    }
}

/// Reads a proxy kind from an upper-case word.
pub fn proxy_type_from_word(word: &str) -> (r: Option<ProxyType>)
    ensures
        r == proxy_type_named(word@),
{
    if is_word(word, "SOCKS5") {
        Some(ProxyType::Socks5)
    } else if is_word(word, "HTTP") {
        Some(ProxyType::Http)
    } else {
        None
    }
}

/// Where the first `://` stands.
pub proof fn lemma_scheme_len(url: Seq<char>, i: int)
    requires
        0 <= i <= url.len(),
        forall|j: int|
            0 <= j < i ==> !(j + 2 < url.len() && #[trigger] url[j] == ':' && url[j + 1] == '/'
                && url[j + 2] == '/'),
        i == url.len() || (i + 2 < url.len() && url[i] == ':' && url[i + 1] == '/' && url[i + 2]
            == '/'),
    ensures
        scheme_len(url) == i,
    decreases i,
{
    if i > 0 {
        let rest = url.drop_first();
        assert forall|j: int| 0 <= j < i - 1 implies !(j + 2 < rest.len() && #[trigger] rest[j]
            == ':' && rest[j + 1] == '/' && rest[j + 2] == '/') by {
            assert(rest[j] == url[j + 1]);
        }
        lemma_scheme_len(rest, i - 1);
    }
}

/// The position of the first `://`; the length where there is none.
fn find_scheme_end(url: &[char]) -> (r: usize)
    ensures
        r == scheme_len(url@),
        r <= url@.len(),
        r < url@.len() ==> r + 3 <= url@.len(),
{
    let n: usize = url.len();
    let mut i: usize = 0;
    while i < n
        invariant
            i <= n == url@.len(),
            forall|j: int|
                0 <= j < i ==> !(j + 2 < url@.len() && #[trigger] url@[j] == ':' && url@[j + 1]
                    == '/' && url@[j + 2] == '/'),
        decreases n - i,
    {
        if n - i >= 3 && url[i] == ':' && url[i + 1] == '/' && url[i + 2] == '/' {
            proof {
                lemma_scheme_len(url@, i as int);
            }
            return i;
        }
        i = i + 1;
    }
    proof {
        lemma_scheme_len(url@, n as int);
    }
    n
}

/// What is read from a scheme in upper case and what follows it: `host:port`, or
/// `host:port:username:password`, whatever may come behind that.
pub open spec fn reads_as(
    scheme: Seq<char>,
    rest: Seq<char>,
    r: Result<ParsedProxy, ProxyUrlError>,
) -> bool {
    let kind = proxy_type_named(scheme);
    let parts = split(rest, ':');
    let port = number(parts[1], 10, 65535);
    match r {
        Ok(p) => {
            &&& kind == Some(p.proxy_type)
            &&& parts.len() >= 2
            &&& p.host@ == parts[0]
            &&& port == Some(p.port as nat)
            &&& p.port > 0
            &&& p.username is Some <==> parts.len() >= 4
            &&& p.password is Some <==> parts.len() >= 4
            &&& parts.len() >= 4 ==> p.username->0@ == parts[2] && p.password->0@ == parts[3]
        },
        Err(ProxyUrlError::MissingScheme) => false,
        Err(ProxyUrlError::UnknownType(s)) => s@ == scheme && kind is None,
        Err(ProxyUrlError::MissingPort) => kind is Some && parts.len() < 2,
        Err(ProxyUrlError::InvalidPort(s)) => {
            &&& kind is Some
            &&& parts.len() >= 2
            &&& match port {
                Some(n) => n == 0 && s@ == "0"@,
                None => s@ == parts[1],
            }
        },
    }
}

/// Reads what follows the scheme of a proxy URL, the scheme given in upper case.
pub fn proxy_from_parts(scheme: String, rest: &str) -> (r: Result<ParsedProxy, ProxyUrlError>)
    ensures
        reads_as(scheme@, rest@, r),
{
    let proxy_type: ProxyType = match proxy_type_from_word(scheme.as_str()) {
        Some(t) => t,
        None => {
            return Err(ProxyUrlError::UnknownType(scheme));
        },
    };
    let chars: Vec<char> = chars_of(rest);
    let parts: Vec<&[char]> = pieces_between(chars.as_slice(), ':', ':');
    assert(views(parts@).len() == parts@.len());
    if parts.len() < 2 {
        return Err(ProxyUrlError::MissingPort);
    }
    assert(views(parts@)[0] == parts@[0]@);
    assert(views(parts@)[1] == parts@[1]@);
    let port: u64 = match parse_number(parts[1], 10, 65535) {
        Some(n) => n,
        None => {
            return Err(ProxyUrlError::InvalidPort(text_of(parts[1])));
        },
    };
    if port == 0 {
        return Err(ProxyUrlError::InvalidPort("0".to_owned()));
    }
    let host: String = text_of(parts[0]);
    if parts.len() >= 4 {
        assert(views(parts@)[2] == parts@[2]@);
        assert(views(parts@)[3] == parts@[3]@);
        Ok(
            ParsedProxy {
                proxy_type,
                host,
                port: port as u16,
                username: Some(text_of(parts[2])),
                password: Some(text_of(parts[3])),
            },
        )
    } else {
        Ok(ParsedProxy { proxy_type, host, port: port as u16, username: None, password: None })
    }
}

/// What is read from a proxy URL.
pub open spec fn url_reads_as(url: Seq<char>, r: Result<ParsedProxy, ProxyUrlError>) -> bool {
    let n = scheme_len(url);
    if n < url.len() {
        reads_as(upper(url.take(n as int)), url.skip((n + 3) as int), r)
    } else {
        r matches Err(ProxyUrlError::MissingScheme)
    }
}

/// Reads a proxy URL like `socks5://127.0.0.1:1080` or `http://host:port:user:pass`.
/// The scheme is read in either case.
pub fn parse_proxy_url(url: &str) -> (r: Result<ParsedProxy, ProxyUrlError>)
    ensures
        url_reads_as(url@, r),
{
    let chars: Vec<char> = chars_of(url);
    let n: usize = find_scheme_end(chars.as_slice());
    if n == chars.len() {
        return Err(ProxyUrlError::MissingScheme);
    }
    let scheme: &str = url.substring_char(0, n);
    let rest: &str = url.substring_char(n + 3, chars.len());
    assert(scheme@ == url@.take(n as int));
    assert(rest@ == url@.skip(n + 3));
    proxy_from_parts(scheme.to_uppercase(), rest)
}

/// The word for a proxy kind.
pub open spec fn proxy_type_word(kind: ProxyType) -> Seq<char> {
    match kind {
        ProxyType::Socks5 => "SOCKS5"@,
        ProxyType::Http => "HTTP"@,
    }
}

/// The URL of a proxy, with the credentials where there are any.
pub open spec fn proxy_url(
    scheme: Seq<char>,
    host: Seq<char>,
    port: u16,
    credentials: Option<(Seq<char>, Seq<char>)>,
) -> Seq<char> {
    let address = host.push(':') + decimal(port as nat);
    scheme + seq![':', '/', '/'] + match credentials {
        Some((user, pass)) => (address.push(':') + user).push(':') + pass,
        None => address,
    }
}

/// What holds of a scheme that is the word for a kind, in any case.
pub proof fn lemma_scheme_word(scheme: Seq<char>, kind: ProxyType)
    requires
        eq_ignore_case(scheme, proxy_type_word(kind)),
    ensures
        upper(scheme) == proxy_type_word(kind),
        proxy_type_named(proxy_type_word(kind)) == Some(kind),
        forall|i: int| 0 <= i < scheme.len() ==> #[trigger] scheme[i] != ':',
{
    reveal_strlit("SOCKS5");
    reveal_strlit("HTTP");
    let word = proxy_type_word(kind);
    assert("SOCKS5"@[0] == 'S' && "HTTP"@[0] == 'H');
    law_upper_of_word(scheme, word);
    assert forall|i: int| 0 <= i < scheme.len() implies #[trigger] scheme[i] != ':' by {
        assert(ascii_lower(scheme[i]) == ascii_lower(word[i]));
        assert('A' <= word[i] <= 'Z' || word[i] == '5');
        if 'A' <= word[i] <= 'Z' {
            assert(ascii_lower(word[i]) as u32 == word[i] as u32 + 32);
        }
    }
}

/// A proxy URL that is written down is read back: the scheme in any case, a host without
/// colons, a port that is not 0, and credentials, where there are any, without colons.
pub proof fn law_proxy_url_is_read_back(
    kind: ProxyType,
    scheme: Seq<char>,
    host: Seq<char>,
    port: u16,
    credentials: Option<(Seq<char>, Seq<char>)>,
    r: Result<ParsedProxy, ProxyUrlError>,
)
    requires
        eq_ignore_case(scheme, proxy_type_word(kind)),
        !host.contains(':'),
        port > 0,
        match credentials {
            Some((user, pass)) => !user.contains(':') && !pass.contains(':'),
            None => true,
        },
        url_reads_as(proxy_url(scheme, host, port, credentials), r),
    ensures
        r is Ok,
        ({
            let p = r->Ok_0;
            &&& p.proxy_type == kind
            &&& p.host@ == host
            &&& p.port == port
            &&& match credentials {
                Some((user, pass)) => p.username is Some && p.username->0@ == user
                    && p.password is Some && p.password->0@ == pass,
                None => p.username is None && p.password is None,
            }
        }),
{
    let digits = decimal(port as nat);
    let address = host.push(':') + digits;
    let rest = match credentials {
        Some((user, pass)) => (address.push(':') + user).push(':') + pass,
        None => address,
    };
    let url = proxy_url(scheme, host, port, credentials);
    lemma_scheme_word(scheme, kind);
    let n = scheme.len() as int;
    assert(url[n] == ':' && url[n + 1] == '/' && url[n + 2] == '/');
    assert forall|j: int| 0 <= j < n implies #[trigger] url[j] != ':' by {
        assert(url[j] == scheme[j]);
    }
    lemma_scheme_len(url, n);
    assert(url.take(n) == scheme);
    assert(url.skip(n + 3) == rest);
    lemma_decimal_digits(port as nat);
    if digits.contains(':') {
        let i = choose|i: int| 0 <= i < digits.len() && digits[i] == ':';
        assert(digits[i] <= '9');
    }
    law_decimal_round_trip(port as nat, 65535);
    law_split_of_one(host, ':', ':');
    law_split_of_one(digits, ':', ':');
    law_split_of_two(host, ':', digits, ':', ':');
    assert(split(address, ':') == seq![host, digits]);
    if let Some((user, pass)) = credentials {
        law_split_of_one(user, ':', ':');
        law_split_of_one(pass, ':', ':');
        law_split_of_two(address, ':', user, ':', ':');
        law_split_of_two(address.push(':') + user, ':', pass, ':', ':');
        assert(split(rest, ':') == seq![host, digits, user, pass]);
    }
}

/// The name under which the lines that report connections are logged.
pub const CONNECTION_LOG: &'static str = "connections";

/// The default log filter for a verbosity: at 0 nothing is logged, at 1 what the program
/// does, at 2 the connections and nothing else, and from 3 on both, in detail.
pub fn log_filter(verbose: u8) -> (r: &'static str)
    ensures
        r@ == match verbose {
            0 => "off"@,
            1 => "info"@,
            2 => "off,connections=info"@,
            _ => "debug"@,
        },
{
    match verbose {
        0 => "off",
        1 => "info",
        2 => "off,connections=info",
        _ => "debug",
    }
}

/// The configuration for a parsed proxy URL, whose host has the given address.
pub fn proxy_config(parsed: ParsedProxy, resolved_ip: Option<u32>) -> (r: ProxyConfig)
    ensures
        r.proxy_type == parsed.proxy_type,
        r.host == parsed.host,
        r.port == parsed.port,
        r.username == parsed.username,
        r.password == parsed.password,
        r.resolved_ip == resolved_ip,
{
    let mut config = ProxyConfig::new(parsed.proxy_type, parsed.host, parsed.port);
    config.username = parsed.username;
    config.password = parsed.password;
    config.resolved_ip = resolved_ip;
    config
}

/// The text under which the address of a host and port is looked up.
pub fn host_and_port(host: &str, port: u16) -> (r: String)
    ensures
        r@ == host@ + ":"@ + decimal(port as nat),
{
    let mut s: String = host.to_owned().concat(":");
    push_decimal(&mut s, port as u64);
    s
}

/// The line that shows the proxy.
pub fn proxy_line(config: &ProxyConfig) -> (r: String)
    ensures
        r@ == "Proxy: "@ + (if config.proxy_type == ProxyType::Http {
            "http"@
        } else {
            "socks5"@
        }) + "://"@ + (config.host@ + ":"@ + decimal(config.port as nat)),
{
    let scheme: &str = if config.proxy_type == ProxyType::Http {
        "http"
    } else {
        "socks5"
    };
    "Proxy: ".to_owned().concat(scheme).concat("://").concat(
        host_and_port(config.host.as_str(), config.port).as_str(),
    )
}

/// The line that shows the username, where there are credentials. It does not show the
/// password.
pub fn auth_line(config: &ProxyConfig) -> (r: Option<String>)
    ensures
        match r {
            Some(line) => config.username is Some && config.password is Some && line@
                == "Proxy Auth: "@ + config.username->0@ + ":***"@,
            None => config.username is None || config.password is None,
        },
{
    if !config.has_auth() {
        return None;
    }
    match &config.username {
        Some(user) => Some("Proxy Auth: ".to_owned().concat(user.as_str()).concat(":***")),
        None => None,
    }
}

/// The line that shows whether DNS queries go through the proxy.
pub fn dns_line(dns_via_proxy: bool) -> (r: &'static str)
    ensures
        r@ == if dns_via_proxy {
            "DNS via Proxy: Enabled"@
        } else {
            "DNS via Proxy: Disabled"@
        },
{
    if dns_via_proxy {
        "DNS via Proxy: Enabled"
    } else {
        "DNS via Proxy: Disabled"
    }
}

/// The line that shows a rule.
pub open spec fn rule_line(
    id: u32,
    process: Seq<char>,
    hosts: Seq<char>,
    ports: Seq<char>,
    protocol: RuleProtocol,
    action: RuleAction,
) -> Seq<char> {
    "  ["@ + decimal(id as nat) + "] "@ + process + ":"@ + hosts + ":"@ + ports + ":"@
        + protocol_word(protocol) + " -> "@ + action_word(action)
}

fn describe_rule(
    id: u32,
    process: &str,
    hosts: &str,
    ports: &str,
    protocol: RuleProtocol,
    action: RuleAction,
) -> (r: String)
    ensures
        r@ == rule_line(id, process@, hosts@, ports@, protocol, action),
{
    let mut s: String = "  [".to_owned();
    push_decimal(&mut s, id as u64);
    let protocol_word: &str = match protocol {
        RuleProtocol::Tcp => "TCP",
        RuleProtocol::Udp => "UDP",
        RuleProtocol::Both => "BOTH",
    };
    let action_word: &str = match action {
        RuleAction::Proxy => "PROXY",
        RuleAction::Direct => "DIRECT",
        RuleAction::Block => "BLOCK",
    };
    s.concat("] ").concat(process).concat(":").concat(hosts).concat(":").concat(ports).concat(
        ":",
    ).concat(protocol_word).concat(" -> ").concat(action_word)
}

/// The rule that a text with the given fields describes, with the given id.
pub open spec fn rule_of_fields(
    fields: Seq<Seq<char>>,
    id: u32,
    protocol: RuleProtocol,
    action: RuleAction,
) -> RuleView {
    RuleView {
        id,
        process_name: or_star(fields[0]),
        target_hosts: or_star(fields[1]),
        target_ports: or_star(fields[2]),
        protocol,
        action,
        enabled: true,
    }
}

/// Reads a rule from its textual form and adds it to the engine, with an id drawn from the
/// source. Returns the line that shows it; there is none for the id 0.
pub fn load_rule(text: &str, engine: &mut RuleEngine, ids: &mut RuleIds) -> (r: Result<
    Option<String>,
    RuleParseError,
>)
    ensures
        match r {
            Ok(line) => {
                let fields = split(text@, ':');
                let id = old(ids)@;
                let protocol = protocol_named(upper(fields[3]));
                let action = action_named(upper(fields[4]));
                &&& fields.len() == 5
                &&& protocol is Some
                &&& action is Some
                &&& final(engine)@ == old(engine)@.push(
                    rule_of_fields(fields, id, protocol->Some_0, action->Some_0),
                )
                &&& final(ids)@ == id.wrapping_add(1)
                &&& match line {
                    Some(line) => id > 0 && line@ == rule_line(
                        id,
                        or_star(fields[0]),
                        or_star(fields[1]),
                        or_star(fields[2]),
                        protocol->Some_0,
                        action->Some_0,
                    ),
                    None => id == 0,
                }
            },
            Err(e) => {
                &&& rule_reads_as(text@, Err(e))
                &&& final(engine)@ == old(engine)@
                &&& final(ids)@ == old(ids)@
            },
        },
{
    match parse_rule_str(text) {
        Ok((process, hosts, ports, protocol, action)) => {
            let id: u32 = engine.add_rule(
                ids,
                process.as_str(),
                hosts.as_str(),
                ports.as_str(),
                protocol,
                action,
            );
            if id > 0 {
                Ok(
                    Some(
                        describe_rule(
                            id,
                            process.as_str(),
                            hosts.as_str(),
                            ports.as_str(),
                            protocol,
                            action,
                        ),
                    ),
                )
            } else {
                Ok(None)
            }
        },
        Err(e) => Err(e),
    }
}

} // verus!
