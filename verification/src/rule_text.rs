//! The textual form of a rule: `process:hosts:ports:protocol:action`.

use vstd::prelude::*;
use vstd::utf8::is_ascii_chars;

use crate::config::{RuleAction, RuleProtocol};
use crate::rule::or_star;
use crate::text::{
    ascii_lower, chars_of, eq_ignore_case, is_word, law_split_of_one, law_split_of_two,
    law_upper_of_word, pieces_between, split, text_of, upper, views,
};

verus! {

/// The protocol that an upper-case word names.
pub open spec fn protocol_named(word: Seq<char>) -> Option<RuleProtocol> {
    if word == "TCP"@ {
        Some(RuleProtocol::Tcp)
    } else if word == "UDP"@ {
        Some(RuleProtocol::Udp)
    } else if word == "BOTH"@ {
        Some(RuleProtocol::Both)
    } else {
        None
    }
}

/// The action that an upper-case word names.
pub open spec fn action_named(word: Seq<char>) -> Option<RuleAction> {
    if word == "PROXY"@ {
        Some(RuleAction::Proxy)
    } else if word == "DIRECT"@ {
        Some(RuleAction::Direct)
    } else if word == "BLOCK"@ {
        Some(RuleAction::Block)
    } else {
        None
    }
}

/// Why a text is not a rule.
#[derive(Debug)]
pub enum RuleParseError {
    /// The text, which does not have five fields.
    Format(String),
    /// The protocol field in upper case, which names no protocol.
    Protocol(String),
    /// The action field in upper case, which names no action.
    Action(String),
}

impl RuleParseError {
    /// The message for the user.
    pub fn message(&self) -> (r: String)
        ensures
            r@ == match self {
                RuleParseError::Format(s) => "Invalid rule format '"@ + s@
                    + "'. Expected: process:hosts:ports:protocol:action"@,
                RuleParseError::Protocol(s) => "Invalid protocol '"@ + s@
                    + "'. Use TCP, UDP, or BOTH"@,
                RuleParseError::Action(s) => "Invalid action '"@ + s@
                    + "'. Use PROXY, DIRECT, or BLOCK"@,
            },
    {
        match self {
            RuleParseError::Format(s) => "Invalid rule format '".to_owned().concat(
                s.as_str(),
            ).concat("'. Expected: process:hosts:ports:protocol:action"),
            RuleParseError::Protocol(s) => "Invalid protocol '".to_owned().concat(
                s.as_str(),
            ).concat("'. Use TCP, UDP, or BOTH"),
            RuleParseError::Action(s) => "Invalid action '".to_owned().concat(s.as_str()).concat(
                "'. Use PROXY, DIRECT, or BLOCK",
            ),
        }
    }
}

/// Reads a protocol from an upper-case word.
pub fn protocol_from_word(word: &str) -> (r: Option<RuleProtocol>)
    ensures
        r == protocol_named(word@),
{
    if is_word(word, "TCP") {
        Some(RuleProtocol::Tcp)
    } else if is_word(word, "UDP") {
        Some(RuleProtocol::Udp)
    } else if is_word(word, "BOTH") {
        Some(RuleProtocol::Both)
    } else {
        None
    }
}

/// Reads an action from an upper-case word.
pub fn action_from_word(word: &str) -> (r: Option<RuleAction>)
    ensures
        r == action_named(word@),
{
    if is_word(word, "PROXY") {
        Some(RuleAction::Proxy)
    } else if is_word(word, "DIRECT") {
        Some(RuleAction::Direct)
    } else if is_word(word, "BLOCK") {
        Some(RuleAction::Block)
    } else {
        None
    }
}

/// The parsed parts of a rule: process, hosts, ports, protocol and action.
pub type RuleParts = (String, String, String, RuleProtocol, RuleAction);

/// Reads a rule from its five fields, the last two given in upper case.
pub fn rule_from_fields(
    process: &str,
    hosts: &str,
    ports: &str,
    protocol: String,
    action: String,
) -> (r: Result<RuleParts, RuleParseError>)
    ensures
        match r {
            Ok(parts) => {
                &&& parts.0@ == or_star(process@)
                &&& parts.1@ == or_star(hosts@)
                &&& parts.2@ == or_star(ports@)
                &&& protocol_named(protocol@) == Some(parts.3)
                &&& action_named(action@) == Some(parts.4)
            },
            Err(RuleParseError::Format(_)) => false,
            Err(RuleParseError::Protocol(s)) => s == protocol && protocol_named(protocol@) is None,
            Err(RuleParseError::Action(s)) => s == action && protocol_named(protocol@) is Some
                && action_named(action@) is None,
        },
{
    let named_protocol: RuleProtocol = match protocol_from_word(protocol.as_str()) {
        Some(p) => p,
        None => {
            return Err(RuleParseError::Protocol(protocol));
        },
    };
    let named_action: RuleAction = match action_from_word(action.as_str()) {
        Some(a) => a,
        None => {
            return Err(RuleParseError::Action(action));
        },
    };
    Ok(
        (
            crate::rule::text_or_star(process),
            crate::rule::text_or_star(hosts),
            crate::rule::text_or_star(ports),
            named_protocol,
            named_action,
        ),
    )
}

/// What is read from the textual form of a rule.
pub open spec fn rule_reads_as(text: Seq<char>, r: Result<RuleParts, RuleParseError>) -> bool {
    let fields = split(text, ':');
    let protocol = upper(fields[3]);
    let action = upper(fields[4]);
    match r {
        Ok(parts) => {
            &&& fields.len() == 5
            &&& parts.0@ == or_star(fields[0])
            &&& parts.1@ == or_star(fields[1])
            &&& parts.2@ == or_star(fields[2])
            &&& protocol_named(protocol) == Some(parts.3)
            &&& action_named(action) == Some(parts.4)
        },
        Err(RuleParseError::Format(s)) => fields.len() != 5 && s@ == text,
        Err(RuleParseError::Protocol(s)) => {
            &&& fields.len() == 5
            &&& s@ == protocol
            &&& protocol_named(protocol) is None
        },
        Err(RuleParseError::Action(s)) => {
            &&& fields.len() == 5
            &&& s@ == action
            &&& protocol_named(protocol) is Some
            &&& action_named(action) is None
        },
    }
}

/// Reads a rule from its textual form. Protocol and action are read in either
/// case; an empty process, host or port field stands for all.
pub fn parse_rule_str(rule_str: &str) -> (r: Result<RuleParts, RuleParseError>)
    ensures
        rule_reads_as(rule_str@, r),
{
    let chars: Vec<char> = chars_of(rule_str);
    let fields: Vec<&[char]> = pieces_between(chars.as_slice(), ':', ':');
    assert(views(fields@).len() == fields@.len());
    if fields.len() != 5 {
        return Err(RuleParseError::Format(rule_str.to_owned()));
    }
    proof {
        assert(views(fields@)[0] == fields@[0]@);
        assert(views(fields@)[1] == fields@[1]@);
        assert(views(fields@)[2] == fields@[2]@);
        assert(views(fields@)[3] == fields@[3]@);
        assert(views(fields@)[4] == fields@[4]@);
    }
    let process: String = text_of(fields[0]);
    let hosts: String = text_of(fields[1]);
    let ports: String = text_of(fields[2]);
    let protocol: String = text_of(fields[3]);
    let action: String = text_of(fields[4]);
    rule_from_fields(
        process.as_str(),
        hosts.as_str(),
        ports.as_str(),
        protocol.as_str().to_uppercase(),
        action.as_str().to_uppercase(),
    )
}

/// The word for a protocol.
pub open spec fn protocol_word(protocol: RuleProtocol) -> Seq<char> {
    match protocol {
        RuleProtocol::Tcp => "TCP"@,
        RuleProtocol::Udp => "UDP"@,
        RuleProtocol::Both => "BOTH"@,
    }
}

/// The word for an action.
pub open spec fn action_word(action: RuleAction) -> Seq<char> {
    match action {
        RuleAction::Proxy => "PROXY"@,
        RuleAction::Direct => "DIRECT"@,
        RuleAction::Block => "BLOCK"@,
    }
}

/// Five fields with colons between them.
pub open spec fn rule_text(
    process: Seq<char>,
    hosts: Seq<char>,
    ports: Seq<char>,
    protocol: Seq<char>,
    action: Seq<char>,
) -> Seq<char> {
    (((process.push(':') + hosts).push(':') + ports).push(':') + protocol).push(':') + action
}

/// The words name what they are the words for.
pub proof fn lemma_words()
    ensures
        forall|p: RuleProtocol| #[trigger]
            is_capitals(protocol_word(p)) && protocol_named(protocol_word(p)) == Some(p),
        forall|a: RuleAction| #[trigger]
            is_capitals(action_word(a)) && action_named(action_word(a)) == Some(a),
{
    reveal_strlit("TCP");
    reveal_strlit("UDP");
    reveal_strlit("BOTH");
    reveal_strlit("PROXY");
    reveal_strlit("DIRECT");
    reveal_strlit("BLOCK");
    assert("TCP"@[0] == 'T' && "UDP"@[0] == 'U' && "BOTH"@[0] == 'B');
    assert("PROXY"@[0] == 'P' && "DIRECT"@[0] == 'D' && "BLOCK"@[0] == 'B');
    assert forall|p: RuleProtocol| #[trigger]
        is_capitals(protocol_word(p)) && protocol_named(protocol_word(p)) == Some(p) by {}
    assert forall|a: RuleAction| #[trigger]
        is_capitals(action_word(a)) && action_named(action_word(a)) == Some(a) by {}
}

/// A word of capital letters.
pub open spec fn is_capitals(word: Seq<char>) -> bool {
    forall|i: int| 0 <= i < word.len() ==> 'A' <= #[trigger] word[i] <= 'Z'
}

proof fn lemma_word_has_no_colon(s: Seq<char>, word: Seq<char>)
    requires
        eq_ignore_case(s, word),
        is_capitals(word),
    ensures
        !s.contains(':'),
{
    if s.contains(':') {
        let i = choose|i: int| 0 <= i < s.len() && s[i] == ':';
        assert(ascii_lower(s[i]) == ascii_lower(word[i]));
        assert(ascii_lower(word[i]) as u32 == word[i] as u32 + 32);
    }
}

/// A rule that is written down is read back: its five fields with colons between them,
/// the protocol and the action in any case, give the rule that they say.
pub proof fn law_rule_is_read_back(
    process: Seq<char>,
    hosts: Seq<char>,
    ports: Seq<char>,
    protocol: RuleProtocol,
    action: RuleAction,
    protocol_field: Seq<char>,
    action_field: Seq<char>,
    r: Result<RuleParts, RuleParseError>,
)
    requires
        !process.contains(':'),
        !hosts.contains(':'),
        !ports.contains(':'),
        eq_ignore_case(protocol_field, protocol_word(protocol)),
        eq_ignore_case(action_field, action_word(action)),
        rule_reads_as(rule_text(process, hosts, ports, protocol_field, action_field), r),
    ensures
        r is Ok,
        ({
            let parts = r->Ok_0;
            &&& parts.0@ == or_star(process)
            &&& parts.1@ == or_star(hosts)
            &&& parts.2@ == or_star(ports)
            &&& parts.3 == protocol
            &&& parts.4 == action
        }),
{
    lemma_words();
    assert(is_capitals(protocol_word(protocol)) && is_capitals(action_word(action)));
    lemma_word_has_no_colon(protocol_field, protocol_word(protocol));
    lemma_word_has_no_colon(action_field, action_word(action));
    assert(is_ascii_chars(protocol_word(protocol)));
    assert(is_ascii_chars(action_word(action)));
    law_upper_of_word(protocol_field, protocol_word(protocol));
    law_upper_of_word(action_field, action_word(action));
    let two = process.push(':') + hosts;
    let three = two.push(':') + ports;
    let four = three.push(':') + protocol_field;
    law_split_of_one(process, ':', ':');
    law_split_of_one(hosts, ':', ':');
    law_split_of_one(ports, ':', ':');
    law_split_of_one(protocol_field, ':', ':');
    law_split_of_one(action_field, ':', ':');
    law_split_of_two(process, ':', hosts, ':', ':');
    law_split_of_two(two, ':', ports, ':', ':');
    law_split_of_two(three, ':', protocol_field, ':', ':');
    law_split_of_two(four, ':', action_field, ':', ':');
    let text = rule_text(process, hosts, ports, protocol_field, action_field);
    assert(split(text, ':') == seq![process, hosts, ports, protocol_field, action_field]);
}

} // verus!
