//! What holds of the texts that a user writes: which rules and proxy URLs are refused, and
//! with what.

use vstd::prelude::*;
use vstd::utf8::is_ascii_chars;

use crate::cli::{
    lemma_scheme_len, lemma_scheme_word, proxy_type_word, rule_line, rule_of_fields, scheme_len,
    url_reads_as, ParsedProxy, ProxyUrlError,
};
use crate::config::{ProxyType, RuleAction, RuleProtocol};
use crate::rule_text::{
    action_word, lemma_words, protocol_word, rule_reads_as, RuleParseError, RuleParts,
};
use crate::text::{
    ascii_lower, ascii_upper, decimal, eq_ignore_case, law_split_of_one, law_split_of_two,
    law_upper_of_word, number, split, upper,
};
use crate::text_laws::{law_equality_up_to_case, same_text};

verus! {

/// A text whose upper case is a word is that word in some case.
proof fn lemma_word_of_upper(s: Seq<char>, word: Seq<char>)
    requires
        is_ascii_chars(s),
        upper(s) == word,
    ensures
        same_text(s, word),
{
    assert(s.len() == word.len());
    assert forall|i: int| 0 <= i < s.len() implies ascii_lower(#[trigger] s[i]) == ascii_lower(
        word[i],
    ) by {
        assert(word[i] == ascii_upper(s[i]));
    }
    assert(eq_ignore_case(s, word));
    law_equality_up_to_case(s, word);
}

/// A rule with another number of fields than five is refused for its format, and one with
/// five for its protocol or its action, where that is none of the words in any case.
pub proof fn law_which_rules_are_refused(text: Seq<char>, r: Result<RuleParts, RuleParseError>)
    requires
        rule_reads_as(text, r),
    ensures
        split(text, ':').len() != 5 <==> (r matches Err(RuleParseError::Format(_))),
        r matches Err(RuleParseError::Format(s)) ==> s@ == text,
        split(text, ':').len() == 5 && is_ascii_chars(split(text, ':')[3]) ==> ((r matches Err(
            RuleParseError::Protocol(_),
        )) <==> {
            let word = split(text, ':')[3];
            !same_text(word, "TCP"@) && !same_text(word, "UDP"@) && !same_text(word, "BOTH"@)
        }),
        r matches Err(RuleParseError::Protocol(s)) ==> s@ == upper(split(text, ':')[3]),
        split(text, ':').len() == 5 && is_ascii_chars(split(text, ':')[4]) && !(r matches Err(
            RuleParseError::Protocol(_),
        )) ==> ((r matches Err(RuleParseError::Action(_))) <==> {
            let word = split(text, ':')[4];
            !same_text(word, "PROXY"@) && !same_text(word, "DIRECT"@) && !same_text(
                word,
                "BLOCK"@,
            )
        }),
        r matches Err(RuleParseError::Action(s)) ==> s@ == upper(split(text, ':')[4]),
{
    lemma_words();
    let fields = split(text, ':');
    if fields.len() == 5 {
        let (p, a) = (fields[3], fields[4]);
        if is_ascii_chars(p) {
            lemma_protocol_words(p);
        }
        if is_ascii_chars(a) {
            lemma_action_words(a);
        }
    }
}

proof fn lemma_protocol_words(p: Seq<char>)
    requires
        is_ascii_chars(p),
    ensures
        upper(p) == "TCP"@ <==> same_text(p, "TCP"@),
        upper(p) == "UDP"@ <==> same_text(p, "UDP"@),
        upper(p) == "BOTH"@ <==> same_text(p, "BOTH"@),
{
    reveal_strlit("TCP");
    reveal_strlit("UDP");
    reveal_strlit("BOTH");
    lemma_upper_is_word(p, "TCP"@);
    lemma_upper_is_word(p, "UDP"@);
    lemma_upper_is_word(p, "BOTH"@);
}

proof fn lemma_action_words(a: Seq<char>)
    requires
        is_ascii_chars(a),
    ensures
        upper(a) == "PROXY"@ <==> same_text(a, "PROXY"@),
        upper(a) == "DIRECT"@ <==> same_text(a, "DIRECT"@),
        upper(a) == "BLOCK"@ <==> same_text(a, "BLOCK"@),
{
    reveal_strlit("PROXY");
    reveal_strlit("DIRECT");
    reveal_strlit("BLOCK");
    lemma_upper_is_word(a, "PROXY"@);
    lemma_upper_is_word(a, "DIRECT"@);
    lemma_upper_is_word(a, "BLOCK"@);
}

proof fn lemma_upper_is_word(s: Seq<char>, word: Seq<char>)
    requires
        is_ascii_chars(s),
        is_ascii_chars(word),
        forall|i: int| 0 <= i < word.len() ==> !('a' <= #[trigger] word[i] <= 'z'),
    ensures
        upper(s) == word <==> same_text(s, word),
{
    law_equality_up_to_case(s, word);
    if same_text(s, word) {
        law_upper_of_word(s, word);
    }
    if upper(s) == word {
        lemma_word_of_upper(s, word);
    }
}

/// The words that rules are shown with.
pub proof fn law_words_of_rules()
    ensures
        protocol_word(RuleProtocol::Tcp) == "TCP"@,
        protocol_word(RuleProtocol::Udp) == "UDP"@,
        protocol_word(RuleProtocol::Both) == "BOTH"@,
        action_word(RuleAction::Proxy) == "PROXY"@,
        action_word(RuleAction::Direct) == "DIRECT"@,
        action_word(RuleAction::Block) == "BLOCK"@,
{
}

/// A text without `://` in it is refused for that.
pub proof fn law_url_without_scheme(url: Seq<char>, r: Result<ParsedProxy, ProxyUrlError>)
    requires
        url_reads_as(url, r),
        forall|i: int|
            0 <= i < url.len() - 2 ==> !(#[trigger] url[i] == ':' && url[i + 1] == '/' && url[i + 2]
                == '/'),
    ensures
        r matches Err(ProxyUrlError::MissingScheme),
{
    lemma_scheme_len(url, url.len() as int);
}

proof fn lemma_url_parts(scheme: Seq<char>, rest: Seq<char>)
    requires
        !scheme.contains(':'),
    ensures
        ({
            let url = scheme + seq![':', '/', '/'] + rest;
            &&& scheme_len(url) == scheme.len()
            &&& scheme.len() < url.len()
            &&& url.take(scheme.len() as int) == scheme
            &&& url.skip((scheme.len() + 3) as int) == rest
        }),
{
    let url = scheme + seq![':', '/', '/'] + rest;
    let n = scheme.len() as int;
    assert(url[n] == ':' && url[n + 1] == '/' && url[n + 2] == '/');
    assert forall|j: int| 0 <= j < n implies #[trigger] url[j] != ':' by {
        assert(url[j] == scheme[j]);
        assert(scheme.contains(scheme[j]));
    }
    lemma_scheme_len(url, n);
    assert(url.take(n) == scheme);
    assert(url.skip(n + 3) == rest);
}

/// A proxy URL whose scheme is neither `socks5` nor `http`, in any case, is refused for it,
/// whatever follows.
pub proof fn law_url_with_other_scheme(
    scheme: Seq<char>,
    rest: Seq<char>,
    r: Result<ParsedProxy, ProxyUrlError>,
)
    requires
        !scheme.contains(':'),
        is_ascii_chars(scheme),
        !same_text(scheme, "SOCKS5"@),
        !same_text(scheme, "HTTP"@),
        url_reads_as(scheme + seq![':', '/', '/'] + rest, r),
    ensures
        r matches Err(ProxyUrlError::UnknownType(s)) && s@ == upper(scheme),
{
    lemma_url_parts(scheme, rest);
    reveal_strlit("SOCKS5");
    reveal_strlit("HTTP");
    lemma_upper_is_word(scheme, "SOCKS5"@);
    lemma_upper_is_word(scheme, "HTTP"@);
}

/// A proxy URL of a known kind is refused without a colon behind the scheme for its missing
/// port, and else for a port that is 0 or no number up to 65535, which the refusal names.
/// All others are taken.
pub proof fn law_url_with_bad_port(
    kind: ProxyType,
    scheme: Seq<char>,
    host: Seq<char>,
    port: Seq<char>,
    more: Seq<char>,
    short: Result<ParsedProxy, ProxyUrlError>,
    plain: Result<ParsedProxy, ProxyUrlError>,
    long: Result<ParsedProxy, ProxyUrlError>,
)
    requires
        eq_ignore_case(scheme, proxy_type_word(kind)),
        !host.contains(':'),
        !port.contains(':'),
        url_reads_as(scheme + seq![':', '/', '/'] + host, short),
        url_reads_as(scheme + seq![':', '/', '/'] + (host.push(':') + port), plain),
        url_reads_as(
            scheme + seq![':', '/', '/'] + ((host.push(':') + port).push(':') + more),
            long,
        ),
    ensures
        short matches Err(ProxyUrlError::MissingPort),
        number(port, 10, 65535) is None ==> {
            &&& plain matches Err(ProxyUrlError::InvalidPort(s)) && s@ == port
            &&& long matches Err(ProxyUrlError::InvalidPort(s)) && s@ == port
        },
        number(port, 10, 65535) == Some(0nat) ==> {
            &&& plain matches Err(ProxyUrlError::InvalidPort(s)) && s@ == "0"@
            &&& long matches Err(ProxyUrlError::InvalidPort(s)) && s@ == "0"@
        },
        number(port, 10, 65535) is Some && number(port, 10, 65535)->0 > 0 ==> {
            &&& plain is Ok && plain->Ok_0.username is None && plain->Ok_0.password is None
            &&& long is Ok && long->Ok_0.proxy_type == kind && long->Ok_0.host@ == host
                && long->Ok_0.port == number(port, 10, 65535)->0
            &&& !more.contains(':') ==> long->Ok_0.username is None
                && long->Ok_0.password is None
        },
{
    lemma_scheme_word(scheme, kind);
    assert(!scheme.contains(':'));
    let address = host.push(':') + port;
    let all = address.push(':') + more;
    lemma_url_parts(scheme, host);
    lemma_url_parts(scheme, address);
    lemma_url_parts(scheme, all);
    law_split_of_one(host, ':', ':');
    law_split_of_one(port, ':', ':');
    law_split_of_two(host, ':', port, ':', ':');
    assert(split(address, ':') == seq![host, port]);
    law_split_of_two(address, ':', more, ':', ':');
    assert(split(all, ':')[0] == host && split(all, ':')[1] == port);
    if !more.contains(':') {
        law_split_of_one(more, ':', ':');
        assert(split(all, ':').len() == 3);
    }
    assert(split(all, ':').len() >= 2);
}

/// The username and the password are the third and the fourth part of a proxy URL, and what
/// comes behind them is left out.
pub proof fn law_url_with_more_parts(
    kind: ProxyType,
    scheme: Seq<char>,
    host: Seq<char>,
    port: Seq<char>,
    user: Seq<char>,
    pass: Seq<char>,
    more: Seq<char>,
    r: Result<ParsedProxy, ProxyUrlError>,
)
    requires
        eq_ignore_case(scheme, proxy_type_word(kind)),
        !host.contains(':'),
        !port.contains(':'),
        !user.contains(':'),
        !pass.contains(':'),
        number(port, 10, 65535) is Some,
        number(port, 10, 65535)->0 > 0,
        url_reads_as(
            scheme + seq![':', '/', '/'] + ((((host.push(':') + port).push(':') + user).push(':')
                + pass).push(':') + more),
            r,
        ),
    ensures
        r is Ok,
        r->Ok_0.username is Some && r->Ok_0.username->0@ == user,
        r->Ok_0.password is Some && r->Ok_0.password->0@ == pass,
{
    lemma_scheme_word(scheme, kind);
    assert(!scheme.contains(':'));
    let two = host.push(':') + port;
    let three = two.push(':') + user;
    let four = three.push(':') + pass;
    let all = four.push(':') + more;
    lemma_url_parts(scheme, all);
    law_split_of_one(host, ':', ':');
    law_split_of_one(port, ':', ':');
    law_split_of_one(user, ':', ':');
    law_split_of_one(pass, ':', ':');
    law_split_of_two(host, ':', port, ':', ':');
    law_split_of_two(two, ':', user, ':', ':');
    law_split_of_two(three, ':', pass, ':', ':');
    law_split_of_two(four, ':', more, ':', ':');
    assert(split(four, ':') == seq![host, port, user, pass]);
    let parts = split(all, ':');
    assert(parts[0] == host && parts[1] == port && parts[2] == user && parts[3] == pass);
}

/// How a rule is shown: its id in brackets, its fields with colons between them, and an
/// arrow before what it says.
pub proof fn law_rule_line(
    id: u32,
    process: Seq<char>,
    hosts: Seq<char>,
    ports: Seq<char>,
    protocol: RuleProtocol,
    action: RuleAction,
)
    ensures
        rule_line(id, process, hosts, ports, protocol, action) == "  ["@ + decimal(id as nat)
            + "] "@ + process + ":"@ + hosts + ":"@ + ports + ":"@ + (match protocol {
            RuleProtocol::Tcp => "TCP"@,
            RuleProtocol::Udp => "UDP"@,
            RuleProtocol::Both => "BOTH"@,
        }) + " -> "@ + (match action {
            RuleAction::Proxy => "PROXY"@,
            RuleAction::Direct => "DIRECT"@,
            RuleAction::Block => "BLOCK"@,
        }),
{
}

/// A rule that is loaded has the fields that were written, `*` for those that are empty, and
/// is enabled.
pub proof fn law_loaded_rule(
    process: Seq<char>,
    hosts: Seq<char>,
    ports: Seq<char>,
    rest: Seq<Seq<char>>,
    id: u32,
    protocol: RuleProtocol,
    action: RuleAction,
)
    ensures
        ({
            let rule = rule_of_fields(seq![process, hosts, ports] + rest, id, protocol, action);
            &&& rule.enabled
            &&& rule.id == id && rule.protocol == protocol && rule.action == action
            &&& process.len() > 0 ==> rule.process_name == process
            &&& hosts.len() > 0 ==> rule.target_hosts == hosts
            &&& ports.len() > 0 ==> rule.target_ports == ports
            &&& process.len() == 0 ==> rule.process_name == seq!['*']
            &&& hosts.len() == 0 ==> rule.target_hosts == seq!['*']
            &&& ports.len() == 0 ==> rule.target_ports == seq!['*']
        }),
{
    let fields = seq![process, hosts, ports] + rest;
    assert(fields[0] == process && fields[1] == hosts && fields[2] == ports);
}

} // verus!
