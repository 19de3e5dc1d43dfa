//! The rule engine: an ordered list of routing rules and the decision that they
//! make for a connection.

use vstd::prelude::*;

pub use crate::addr::{format_ip, is_broadcast_or_multicast};
pub use crate::rule_text::parse_rule_str;
pub use crate::pattern::{
    match_ip_list, match_ip_pattern, match_port_list, match_port_pattern, match_process_list,
    match_process_pattern,
};

use crate::config::{RuleAction, RuleProtocol};
use crate::pattern::{ip_list_covers, port_list_covers, process_list_covers};
use crate::text::{chars_of, eq_ignore_case, is_star, same_ignoring_case, star};

verus! {

/// A traffic routing rule.
#[derive(Debug, Clone)]
pub struct Rule {
    pub id: u32,
    pub process_name: String,
    pub target_hosts: String,
    pub target_ports: String,
    pub protocol: RuleProtocol,
    pub action: RuleAction,
    pub enabled: bool,
}

/// What a rule says.
#[verifier::ext_equal]
pub struct RuleView {
    pub id: u32,
    pub process_name: Seq<char>,
    pub target_hosts: Seq<char>,
    pub target_ports: Seq<char>,
    pub protocol: RuleProtocol,
    pub action: RuleAction,
    pub enabled: bool,
}

impl View for Rule {
    type V = RuleView;

    open spec fn view(&self) -> RuleView {
        RuleView {
            id: self.id,
            process_name: self.process_name@,
            target_hosts: self.target_hosts@,
            target_ports: self.target_ports@,
            protocol: self.protocol,
            action: self.action,
            enabled: self.enabled,
        }
    }
}

/// A connection that a decision is asked for.
pub struct Flow {
    pub process: Seq<char>,
    pub dest_ip: u32,
    pub dest_port: u16,
    pub is_udp: bool,
}

/// Whether a rule's protocol filter lets a transport protocol through.
pub open spec fn covers_protocol(protocol: RuleProtocol, is_udp: bool) -> bool {
    match protocol {
        RuleProtocol::Tcp => !is_udp,
        RuleProtocol::Udp => is_udp,
        RuleProtocol::Both => true,
    }
}

/// Whether a rule is written for every process: `*`, or `ANY` in either case.
pub open spec fn any_process(name: Seq<char>) -> bool {
    name == star() || eq_ignore_case(name, seq!['A', 'N', 'Y'])
}

/// Whether a rule is in force for a transport protocol.
pub open spec fn in_force(rule: RuleView, is_udp: bool) -> bool {
    rule.enabled && covers_protocol(rule.protocol, is_udp)
}

/// Whether a rule matches a connection.
pub open spec fn selects(rule: RuleView, flow: Flow) -> bool {
    &&& in_force(rule, flow.is_udp)
    &&& any_process(rule.process_name) || process_list_covers(rule.process_name, flow.process)
    &&& ip_list_covers(rule.target_hosts, flow.dest_ip)
    &&& port_list_covers(rule.target_ports, flow.dest_port)
}

/// The first rule that matches a connection.
pub open spec fn first_selecting(rules: Seq<RuleView>, flow: Flow) -> Option<RuleView>
    decreases rules.len(),
{
    if rules.len() == 0 {
        None
    } else if selects(rules[0], flow) {
        Some(rules[0])
    } else {
        first_selecting(rules.drop_first(), flow)
    }
}

/// The decision for a connection: that of the first rule that matches it, else to
/// let it through.
pub open spec fn decision(rules: Seq<RuleView>, flow: Flow) -> RuleAction {
    match first_selecting(rules, flow) {
        Some(rule) => rule.action,
        None => RuleAction::Direct,
    }
}

/// The position of the first rule with an id; the length where there is none.
pub open spec fn position(rules: Seq<RuleView>, id: u32) -> nat
    decreases rules.len(),
{
    if rules.len() == 0 || rules[0].id == id {
        0
    } else {
        1 + position(rules.drop_first(), id)
    }
}

/// The rules with the first one of the given id switched on or off.
pub open spec fn switched(rules: Seq<RuleView>, id: u32, on: bool) -> Seq<RuleView> {
    let i = position(rules, id) as int;
    if i < rules.len() {
        rules.update(i, RuleView { enabled: on, ..rules[i] })
    } else {
        rules
    }
}

/// Whether some rule has the id.
pub open spec fn has_id(rules: Seq<RuleView>, id: u32) -> bool {
    exists|i: int| 0 <= i < rules.len() && #[trigger] rules[i].id == id
}

/// The rules that do not have the id.
pub open spec fn without(rules: Seq<RuleView>, id: u32) -> Seq<RuleView> {
    rules.filter(|rule: RuleView| rule.id != id)
}

/// The text, or `*` where it is empty.
pub open spec fn or_star(s: Seq<char>) -> Seq<char> {
    if s.len() == 0 {
        star()
    } else {
        s
    }
}

proof fn lemma_position(rules: Seq<RuleView>, id: u32, i: int)
    requires
        0 <= i <= rules.len(),
        forall|j: int| 0 <= j < i ==> (#[trigger] rules[j]).id != id,
        i < rules.len() ==> rules[i].id == id,
    ensures
        position(rules, id) == i,
    decreases i,
{
    if i > 0 {
        assert forall|j: int| 0 <= j < i - 1 implies (#[trigger] rules.drop_first()[j]).id
            != id by {
            assert(rules.drop_first()[j] == rules[j + 1]);
        }
        lemma_position(rules.drop_first(), id, i - 1);
    }
}

/// The source of rule ids. A program has one, which all its engines draw from, so that no
/// two rules have the same id.
#[derive(Debug)]
pub struct RuleIds {
    next: u32,
}

impl View for RuleIds {
    type V = u32;

    /// The id that the next rule gets.
    closed spec fn view(&self) -> u32 {
        self.next
    }
}

impl RuleIds {
    /// A source that starts with the id 1.
    pub fn new() -> (r: Self)
        ensures
            r@ == 1,
    {
        Self { next: 1 }
    }

    /// Draws the next id. After the greatest one, ids start anew.
    pub fn take(&mut self) -> (id: u32)
        ensures
            id == old(self)@,
            final(self)@ == old(self)@.wrapping_add(1),
    {
        let id: u32 = self.next;
        self.next = self.next.wrapping_add(1);
        id
    }
}

/// The views of a sequence of rules.
pub open spec fn rule_views(rules: Seq<Rule>) -> Seq<RuleView> {
    Seq::new(rules.len(), |i: int| rules[i]@)
}

/// The ordered list of routing rules.
#[derive(Debug)]
pub struct RuleEngine {
    rules: Vec<Rule>,
}

impl View for RuleEngine {
    type V = Seq<RuleView>;

    closed spec fn view(&self) -> Seq<RuleView> {
        rule_views(self.rules@)
    }
}

impl RuleEngine {
    /// An engine without rules.
    pub fn new() -> (r: Self)
        ensures
            r@ == Seq::<RuleView>::empty(),
    {
        let r = Self { rules: Vec::new() };
        assert(r@ == Seq::<RuleView>::empty());
        r
    }

    /// Adds a rule at the end of the list, with an id drawn from the source, and returns
    /// the id; a rule without a process name is refused with 0. Empty hosts or ports stand
    /// for all.
    pub fn add_rule(
        &mut self,
        ids: &mut RuleIds,
        process_name: &str,
        target_hosts: &str,
        target_ports: &str,
        protocol: RuleProtocol,
        action: RuleAction,
    ) -> (id: u32)
        ensures
            process_name@.len() == 0 ==> {
                &&& id == 0
                &&& final(self)@ == old(self)@
                &&& final(ids)@ == old(ids)@
            },
            process_name@.len() > 0 ==> {
                &&& id == old(ids)@
                &&& final(ids)@ == old(ids)@.wrapping_add(1)
                &&& final(self)@ == old(self)@.push(
                    RuleView {
                        id,
                        process_name: process_name@,
                        target_hosts: or_star(target_hosts@),
                        target_ports: or_star(target_ports@),
                        protocol,
                        action,
                        enabled: true,
                    },
                )
            },
    {
        if process_name.is_empty() {
            return 0;
        }
        let id: u32 = ids.take();
        let rule = Rule {
            id,
            process_name: process_name.to_owned(),
            target_hosts: text_or_star(target_hosts),
            target_ports: text_or_star(target_ports),
            protocol,
            action,
            enabled: true,
        };
        let ghost view = rule@;
        let ghost before = self.rules@;
        self.rules.push(rule);
        assert(rule_views(self.rules@) == rule_views(before).push(view));
        id
    }

    /// The position of the first rule with an id.
    fn find(&self, rule_id: u32) -> (r: Option<usize>)
        ensures
            match r {
                Some(i) => i < self.rules@.len() && position(rule_views(self.rules@), rule_id) == i
                    && has_id(rule_views(self.rules@), rule_id),
                None => position(rule_views(self.rules@), rule_id) == self.rules@.len() && !has_id(
                    rule_views(self.rules@),
                    rule_id,
                ),
            },
    {
        let mut i: usize = 0;
        let ghost views = rule_views(self.rules@);
        while i < self.rules.len()
            invariant
                i <= self.rules@.len() == views.len(),
                views == rule_views(self.rules@),
                forall|j: int| 0 <= j < i ==> (#[trigger] views[j]).id != rule_id,
            decreases self.rules@.len() - i,
        {
            assert(views[i as int] == self.rules@[i as int]@);
            if self.rules[i].id == rule_id {
                proof {
                    lemma_position(views, rule_id, i as int);
                }
                return Some(i);
            }
            i = i + 1;
        }
        proof {
            lemma_position(views, rule_id, i as int);
        }
        None
    }

    /// Switches the first rule with the id on or off.
    fn switch(&mut self, rule_id: u32, on: bool) -> (r: bool)
        ensures
            r == has_id(old(self)@, rule_id),
            final(self)@ == switched(old(self)@, rule_id, on),
    {
        match self.find(rule_id) {
            Some(i) => {
                let ghost before = self.rules@;
                self.rules[i].enabled = on;
                assert(rule_views(self.rules@) == switched(rule_views(before), rule_id, on));
                true
            },
            None => false,
        }
    }

    /// Enables a rule; `false` where no rule has the id.
    pub fn enable_rule(&mut self, rule_id: u32) -> (r: bool)
        ensures
            r == has_id(old(self)@, rule_id),
            final(self)@ == switched(old(self)@, rule_id, true),
    {
        self.switch(rule_id, true)
    }

    /// Disables a rule; `false` where no rule has the id.
    pub fn disable_rule(&mut self, rule_id: u32) -> (r: bool)
        ensures
            r == has_id(old(self)@, rule_id),
            final(self)@ == switched(old(self)@, rule_id, false),
    {
        self.switch(rule_id, false)
    }

    /// Deletes every rule with the id; `false` where no rule has it.
    pub fn delete_rule(&mut self, rule_id: u32) -> (r: bool)
        ensures
            r == has_id(old(self)@, rule_id),
            final(self)@ == without(old(self)@, rule_id),
    {
        let ghost all = rule_views(self.rules@);
        let ghost keep = |rule: RuleView| rule.id != rule_id;
        let ghost mut done: int = 0;
        let mut i: usize = 0;
        let mut found = false;
        assert(all.take(0).filter(keep) == Seq::<RuleView>::empty()) by {
            reveal(Seq::filter);
        }
        assert(Seq::<RuleView>::empty() + all.skip(0) == all);
        while i < self.rules.len()
            invariant
                0 <= i <= self.rules@.len(),
                0 <= done <= all.len(),
                keep == (|rule: RuleView| rule.id != rule_id),
                all == old(self)@,
                i == all.take(done).filter(keep).len(),
                rule_views(self.rules@) == all.take(done).filter(keep) + all.skip(done),
                found == has_id(all.take(done), rule_id),
            decreases self.rules@.len() - i,
        {
            let ghost before = self.rules@;
            let ghost kept = all.take(done).filter(keep);
            proof {
                assert(rule_views(before).len() == kept.len() + (all.len() - done));
                assert(rule_views(before)[i as int] == all.skip(done)[0]);
                assert(before[i as int]@ == all[done]);
                assert(all.take(done + 1).drop_last() == all.take(done));
                assert(all.take(done + 1).last() == all[done]);
                reveal(Seq::filter);
            }
            if self.rules[i].id == rule_id {
                let _ = self.rules.remove(i);
                found = true;
                proof {
                    assert(all.take(done + 1)[done].id == rule_id);
                    assert(all.take(done + 1).filter(keep) == kept);
                    assert(rule_views(self.rules@) == rule_views(before).remove(i as int));
                    assert((kept + all.skip(done)).remove(i as int) == kept + all.skip(done + 1));
                    done = done + 1;
                }
            } else {
                i = i + 1;
                proof {
                    assert(all.take(done + 1).filter(keep) == kept.push(all[done]));
                    assert(kept + all.skip(done) == kept.push(all[done]) + all.skip(done + 1));
                    assert(found == has_id(all.take(done + 1), rule_id)) by {
                        if has_id(all.take(done), rule_id) {
                            let j = choose|j: int|
                                0 <= j < all.take(done).len() && (#[trigger] all.take(done)[j]).id
                                    == rule_id;
                            assert(all.take(done + 1)[j].id == rule_id);
                        }
                        if has_id(all.take(done + 1), rule_id) {
                            let j = choose|j: int|
                                0 <= j < all.take(done + 1).len() && (#[trigger] all.take(
                                    done + 1,
                                )[j]).id == rule_id;
                            assert(all.take(done)[j].id == rule_id);
                        }
                    }
                    done = done + 1;
                }
            }
        }
        proof {
            assert(rule_views(self.rules@).len() == i);
            assert(all.skip(done).len() == 0);
            assert(all.take(done) == all);
            assert(all.take(done).filter(keep) + all.skip(done) == all.filter(keep));
        }
        found
    }

    /// Whether any rule is enabled.
    pub fn has_active_rules(&self) -> (r: bool)
        ensures
            r == exists|i: int| 0 <= i < self@.len() && (#[trigger] self@[i]).enabled,
    {
        let mut i: usize = 0;
        while i < self.rules.len()
            invariant
                i <= self.rules@.len(),
                forall|j: int| 0 <= j < i ==> !(#[trigger] self@[j]).enabled,
            decreases self.rules@.len() - i,
        {
            assert(self@[i as int] == self.rules@[i as int]@);
            if self.rules[i].enabled {
                return true;
            }
            i = i + 1;
        }
        false
    }

    /// The action for a connection: that of the first rule that matches it, or to let
    /// it through where none does.
    pub fn match_rule(
        &self,
        process_name: &str,
        dest_ip: u32,
        dest_port: u16,
        is_udp: bool,
    ) -> (action: RuleAction)
        ensures
            action == decision(
                self@,
                Flow { process: process_name@, dest_ip, dest_port, is_udp },
            ),
    {
        let ghost flow = Flow { process: process_name@, dest_ip, dest_port, is_udp };
        let ghost all = self@;
        let mut i: usize = 0;
        assert(all.skip(0) == all);
        while i < self.rules.len()
            invariant
                i <= self.rules@.len() == all.len(),
                all == self@,
                flow == (Flow { process: process_name@, dest_ip, dest_port, is_udp }),
                first_selecting(all, flow) == first_selecting(all.skip(i as int), flow),
            decreases self.rules@.len() - i,
        {
            let rule: &Rule = &self.rules[i];
            proof {
                assert(all[i as int] == rule@);
                assert(all.skip(i as int)[0] == rule@);
                assert(all.skip(i as int).drop_first() == all.skip(i + 1));
            }
            i = i + 1;
            if !rule.enabled {
                continue;
            }
            match rule.protocol {
                RuleProtocol::Tcp => {
                    if is_udp {
                        continue;
                    }
                },
                RuleProtocol::Udp => {
                    if !is_udp {
                        continue;
                    }
                },
                RuleProtocol::Both => {},
            }
            if !is_any_process(rule.process_name.as_str()) && !match_process_list(
                rule.process_name.as_str(),
                process_name,
            ) {
                continue;
            }
            if match_ip_list(rule.target_hosts.as_str(), dest_ip) && match_port_list(
                rule.target_ports.as_str(),
                dest_port,
            ) {
                return rule.action;
            }
        }
        assert(all.skip(i as int).len() == 0);
        RuleAction::Direct
    }
}

impl Default for RuleEngine {
    /// An engine without rules.
    fn default() -> (r: Self)
        ensures
            r@ == Seq::<RuleView>::empty(),
    {
        Self::new()
    }
}

/// The text, or `*` where it is empty.
pub fn text_or_star(s: &str) -> (r: String)
    ensures
        r@ == or_star(s@),
{
    if s.is_empty() {
        let mut r = String::new();
        r.push('*');
        assert(r@ == star());
        r
    } else {
        s.to_owned()
    }
}

/// Whether a rule's process name stands for every process.
fn is_any_process(name: &str) -> (r: bool)
    ensures
        r == any_process(name@),
{
    let chars: Vec<char> = chars_of(name);
    let any: [char; 3] = ['A', 'N', 'Y'];
    assert(any@ == seq!['A', 'N', 'Y']);
    is_star(chars.as_slice()) || same_ignoring_case(chars.as_slice(), &any)
}

} // verus!
