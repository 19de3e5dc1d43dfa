//! What holds of the rule engine as a whole.

use vstd::prelude::*;

use crate::config::{RuleAction, RuleProtocol};
use crate::pattern::{ip_list_covers, port_list_covers, process_list_covers};
use crate::pattern_laws::{law_process_list_ignores_case, law_star_covers_all};
use crate::rule::{
    any_process, decision, first_selecting, has_id, in_force, or_star, position, selects, switched,
    without, Flow, RuleView,
};
use crate::text::{eq_ignore_case, star};
use crate::text_laws::{law_equality_up_to_case, same_text};

verus! {

/// The first rule that matches a connection decides it, whatever comes after.
pub proof fn law_first_matching_rule_decides(rules: Seq<RuleView>, flow: Flow, i: int)
    requires
        0 <= i < rules.len(),
        selects(rules[i], flow),
        forall|j: int| 0 <= j < i ==> !selects(#[trigger] rules[j], flow),
    ensures
        decision(rules, flow) == rules[i].action,
{
    lemma_first_selecting(rules, flow, i);
}

proof fn lemma_first_selecting(rules: Seq<RuleView>, flow: Flow, i: int)
    requires
        0 <= i <= rules.len(),
        i < rules.len() ==> selects(rules[i], flow),
        forall|j: int| 0 <= j < i ==> !selects(#[trigger] rules[j], flow),
    ensures
        first_selecting(rules, flow) == if i < rules.len() {
            Some(rules[i])
        } else {
            None
        },
    decreases i,
{
    if i > 0 {
        let rest = rules.drop_first();
        assert forall|j: int| 0 <= j < i - 1 implies !selects(#[trigger] rest[j], flow) by {
            assert(rest[j] == rules[j + 1]);
        }
        lemma_first_selecting(rest, flow, i - 1);
    }
}

/// A rule for every process, host and port matches all connections of its protocol: in
/// its place it decides them, before every rule behind it.
pub proof fn law_rule_for_everything_matches(rule: RuleView, flow: Flow)
    requires
        in_force(rule, flow.is_udp),
        any_process(rule.process_name),
        rule.target_hosts == star(),
        rule.target_ports == star(),
    ensures
        selects(rule, flow),
{
    law_star_covers_all(flow.process, flow.dest_ip, flow.dest_port);
}

/// A connection that no rule is for goes its own way.
pub proof fn law_no_rule_is_direct(rules: Seq<RuleView>, flow: Flow)
    requires
        forall|j: int| 0 <= j < rules.len() ==> !selects(#[trigger] rules[j], flow),
    ensures
        decision(rules, flow) == RuleAction::Direct,
{
    lemma_first_selecting(rules, flow, rules.len() as int);
}

proof fn lemma_idle_rule(rules: Seq<RuleView>, flow: Flow, i: int)
    requires
        0 <= i < rules.len(),
        !in_force(rules[i], flow.is_udp),
    ensures
        first_selecting(rules.remove(i), flow) == first_selecting(rules, flow),
    decreases i,
{
    if i == 0 {
        assert(rules.remove(0) == rules.drop_first());
    } else {
        lemma_idle_rule(rules.drop_first(), flow, i - 1);
        assert(rules.remove(i).drop_first() == rules.drop_first().remove(i - 1));
        assert(rules.remove(i)[0] == rules[0]);
    }
}

/// A rule that is disabled, or is for the other protocol, counts for nothing.
pub proof fn law_idle_rule_does_not_count(rules: Seq<RuleView>, flow: Flow, i: int)
    requires
        0 <= i < rules.len(),
        !in_force(rules[i], flow.is_udp),
    ensures
        decision(rules.remove(i), flow) == decision(rules, flow),
{
    lemma_idle_rule(rules, flow, i);
}

/// The case of the letters in a process name does not change the decision.
pub proof fn law_decision_ignores_case(rules: Seq<RuleView>, flow: Flow, process: Seq<char>)
    requires
        eq_ignore_case(flow.process, process),
    ensures
        decision(rules, Flow { process, ..flow }) == decision(rules, flow),
{
    let other = Flow { process, ..flow };
    lemma_first_selecting_ignores_case(rules, flow, other);
}

proof fn lemma_first_selecting_ignores_case(rules: Seq<RuleView>, flow: Flow, other: Flow)
    requires
        eq_ignore_case(flow.process, other.process),
        other == (Flow { process: other.process, ..flow }),
    ensures
        first_selecting(rules, other) == first_selecting(rules, flow),
    decreases rules.len(),
{
    if rules.len() > 0 {
        let name = rules[0].process_name;
        law_process_list_ignores_case(name, name, flow.process, other.process);
        lemma_first_selecting_ignores_case(rules.drop_first(), flow, other);
    }
}

/// The ids of an engine ascend from rule to rule.
pub open spec fn ids_ascend(rules: Seq<RuleView>) -> bool {
    forall|i: int, j: int|
        0 <= i < j < rules.len() ==> (#[trigger] rules[i]).id < (#[trigger] rules[j]).id
}

/// A source of ids with the engines that draw from it: what each holds, all the ids that
/// were ever given, and the next one.
pub struct Registry {
    pub engines: Seq<Seq<RuleView>>,
    pub given: Seq<u32>,
    pub next: u32,
}

/// The ids that were given are positive, ascend, and lie below the next one; the rules of
/// each engine have some of them, ascending from rule to rule.
pub open spec fn in_order(r: Registry) -> bool {
    &&& r.next > 0
    &&& forall|i: int| 0 <= i < r.given.len() ==> 0 < #[trigger] r.given[i] < r.next
    &&& forall|i: int, j: int|
        0 <= i < j < r.given.len() ==> (#[trigger] r.given[i]) < (#[trigger] r.given[j])
    &&& forall|k: int| 0 <= k < r.engines.len() ==> #[trigger] ids_ascend(r.engines[k])
    &&& forall|k: int, i: int|
        0 <= k < r.engines.len() && 0 <= i < r.engines[k].len() ==> r.given.contains(
            (#[trigger] r.engines[k][i]).id,
        )
}

/// A new source, with no engine yet.
pub open spec fn fresh() -> Registry {
    Registry { engines: Seq::empty(), given: Seq::empty(), next: 1 }
}

/// After a new engine was made.
pub open spec fn with_engine(r: Registry) -> Registry {
    Registry { engines: r.engines.push(Seq::empty()), ..r }
}

/// After a rule was added to an engine, with the id drawn from the source.
pub open spec fn with_rule(r: Registry, k: int, rule: RuleView) -> Registry {
    Registry {
        engines: r.engines.update(k, r.engines[k].push(rule)),
        given: r.given.push(rule.id),
        next: r.next.wrapping_add(1),
    }
}

/// After an engine's rules were replaced.
pub open spec fn with_rules(r: Registry, k: int, rules: Seq<RuleView>) -> Registry {
    Registry { engines: r.engines.update(k, rules), ..r }
}

/// As long as the ids have not run out, a rule gets an id that is greater than every one
/// given before, to this engine or another, to rules that were deleted since included; so
/// no two rules of any engines have the same id.
pub proof fn law_new_id_is_greatest(r: Registry, k: int, rule: RuleView)
    requires
        in_order(r),
        0 <= k < r.engines.len(),
        rule.id == r.next,
    ensures
        rule.id > 0,
        forall|i: int| 0 <= i < r.given.len() ==> #[trigger] r.given[i] < rule.id,
        forall|e: int, i: int|
            0 <= e < r.engines.len() && 0 <= i < r.engines[e].len() ==> (
            #[trigger] r.engines[e][i]).id < rule.id,
        r.next < u32::MAX ==> in_order(with_rule(r, k, rule)),
{
    let after = with_rule(r, k, rule);
    assert forall|e: int, i: int|
        0 <= e < r.engines.len() && 0 <= i < r.engines[e].len() implies (
    #[trigger] r.engines[e][i]).id < rule.id by {
        assert(r.given.contains(r.engines[e][i].id));
        let n = choose|n: int| 0 <= n < r.given.len() && r.given[n] == r.engines[e][i].id;
        assert(r.given[n] < r.next);
    }
    assert(after.given[r.given.len() as int] == rule.id);
    assert forall|e: int, i: int|
        0 <= e < after.engines.len() && 0 <= i < after.engines[e].len() implies after.given.contains(
        (#[trigger] after.engines[e][i]).id,
    ) by {
        if e != k || i < r.engines[k].len() {
            assert(after.engines[e][i] == r.engines[e][i]);
            let n = choose|n: int| 0 <= n < r.given.len() && r.given[n] == r.engines[e][i].id;
            assert(after.given[n] == r.engines[e][i].id);
        }
    }
    assert forall|e: int| 0 <= e < after.engines.len() implies #[trigger] ids_ascend(
        after.engines[e],
    ) by {
        assert(ids_ascend(r.engines[e]));
        if e == k {
            let (rules, more) = (r.engines[k], after.engines[k]);
            assert forall|i: int, j: int| 0 <= i < j < more.len() implies (#[trigger] more[i]).id < (
            #[trigger] more[j]).id by {
                assert(more[i] == rules[i]);
                if j < rules.len() {
                    assert(more[j] == rules[j]);
                } else {
                    assert(r.engines[k][i].id < rule.id);
                }
            }
        }
    }
}

/// A new source is in order, and new engines, switching and deleting keep it so.
pub proof fn law_ids_stay_in_order(r: Registry, k: int, id: u32, on: bool)
    requires
        in_order(r),
        0 <= k < r.engines.len(),
    ensures
        in_order(fresh()),
        in_order(with_engine(r)),
        in_order(with_rules(r, k, switched(r.engines[k], id, on))),
        in_order(with_rules(r, k, without(r.engines[k], id))),
{
    let rules = r.engines[k];
    assert(ids_ascend(rules));
    let turned = switched(rules, id, on);
    assert forall|i: int| 0 <= i < rules.len() implies (#[trigger] turned[i]).id
        == rules[i].id by {}
    lemma_same_ids(r, k, turned);
    lemma_without(rules, id);
    lemma_without_ascends(rules, id);
    lemma_fewer_ids(r, k, without(rules, id));
    let more = with_engine(r);
    assert forall|e: int| 0 <= e < more.engines.len() implies #[trigger] ids_ascend(
        more.engines[e],
    ) by {
        if e < r.engines.len() {
            assert(ids_ascend(r.engines[e]));
        }
    }
    assert forall|e: int, i: int|
        0 <= e < more.engines.len() && 0 <= i < more.engines[e].len() implies more.given.contains(
        (#[trigger] more.engines[e][i]).id,
    ) by {
        assert(more.engines[e][i] == r.engines[e][i]);
    }
}

proof fn lemma_same_ids(r: Registry, k: int, rules: Seq<RuleView>)
    requires
        in_order(r),
        0 <= k < r.engines.len(),
        rules.len() == r.engines[k].len(),
        forall|i: int| 0 <= i < rules.len() ==> (#[trigger] rules[i]).id == r.engines[k][i].id,
    ensures
        in_order(with_rules(r, k, rules)),
{
    let after = with_rules(r, k, rules);
    assert forall|e: int| 0 <= e < after.engines.len() implies #[trigger] ids_ascend(
        after.engines[e],
    ) by {
        assert(ids_ascend(r.engines[e]));
        if e == k {
            assert forall|i: int, j: int| 0 <= i < j < rules.len() implies (#[trigger] rules[i]).id
                < (#[trigger] rules[j]).id by {
                assert(r.engines[k][i].id < r.engines[k][j].id);
            }
        }
    }
    assert forall|e: int, i: int|
        0 <= e < after.engines.len() && 0 <= i < after.engines[e].len() implies after.given.contains(
        (#[trigger] after.engines[e][i]).id,
    ) by {
        assert(after.given.contains(r.engines[e][i].id));
    }
}

proof fn lemma_fewer_ids(r: Registry, k: int, rules: Seq<RuleView>)
    requires
        in_order(r),
        0 <= k < r.engines.len(),
        ids_ascend(rules),
        forall|i: int| 0 <= i < rules.len() ==> r.engines[k].contains(#[trigger] rules[i]),
    ensures
        in_order(with_rules(r, k, rules)),
{
    let after = with_rules(r, k, rules);
    assert forall|e: int| 0 <= e < after.engines.len() implies #[trigger] ids_ascend(
        after.engines[e],
    ) by {
        assert(ids_ascend(r.engines[e]));
    }
    assert forall|e: int, i: int|
        0 <= e < after.engines.len() && 0 <= i < after.engines[e].len() implies after.given.contains(
        (#[trigger] after.engines[e][i]).id,
    ) by {
        if e == k {
            assert(r.engines[k].contains(rules[i]));
            let n = choose|n: int| 0 <= n < r.engines[k].len() && r.engines[k][n] == rules[i];
            assert(after.given.contains(r.engines[k][n].id));
        } else {
            assert(after.given.contains(r.engines[e][i].id));
        }
    }
}

proof fn lemma_without(rules: Seq<RuleView>, id: u32)
    ensures
        !has_id(without(rules, id), id),
        forall|i: int|
            0 <= i < without(rules, id).len() ==> rules.contains(#[trigger] without(rules, id)[i]),
        without(rules, id).len() <= rules.len(),
        !has_id(rules, id) ==> without(rules, id) == rules,
    decreases rules.len(),
{
    reveal(Seq::filter);
    if rules.len() > 0 {
        let rest = rules.drop_last();
        lemma_without(rest, id);
        let kept = without(rest, id);
        let all = without(rules, id);
        assert forall|i: int| 0 <= i < all.len() implies rules.contains(#[trigger] all[i])
            && all[i].id != id by {
            if i < kept.len() {
                assert(all[i] == kept[i]);
                assert(kept[i].id != id);
                assert(rest.contains(kept[i]));
                let k = choose|k: int| 0 <= k < rest.len() && rest[k] == kept[i];
                assert(rules[k] == kept[i]);
            } else {
                assert(rules[rules.len() - 1] == all[i]);
            }
        }
        if !has_id(rules, id) {
            assert(rules[rules.len() - 1].id != id);
            assert forall|i: int| 0 <= i < rest.len() implies (#[trigger] rest[i]).id != id by {
                assert(rules[i].id != id);
            }
            assert(rest.push(rules.last()) == rules);
        }
    }
}

proof fn lemma_without_ascends(rules: Seq<RuleView>, id: u32)
    requires
        forall|i: int, j: int|
            0 <= i < j < rules.len() ==> (#[trigger] rules[i]).id < (#[trigger] rules[j]).id,
    ensures
        forall|i: int, j: int|
            0 <= i < j < without(rules, id).len() ==> (#[trigger] without(rules, id)[i]).id < (
            #[trigger] without(rules, id)[j]).id,
    decreases rules.len(),
{
    reveal(Seq::filter);
    if rules.len() > 0 {
        let rest = rules.drop_last();
        lemma_without_ascends(rest, id);
        lemma_without(rest, id);
        let kept = without(rest, id);
        let all = without(rules, id);
        assert forall|i: int, j: int| 0 <= i < j < all.len() implies (#[trigger] all[i]).id < (
        #[trigger] all[j]).id by {
            if j < kept.len() {
                assert(all[i] == kept[i] && all[j] == kept[j]);
            } else {
                assert(rest.contains(kept[i]));
                let k = choose|k: int| 0 <= k < rest.len() && rest[k] == kept[i];
                assert(rules[k].id < rules[rules.len() - 1].id);
            }
        }
    }
}

/// Deleting an id leaves no rule with it; deleting the rule that was added last, with an id
/// that no rule had, gives the rules from before.
pub proof fn law_delete_undoes_add(rules: Seq<RuleView>, rule: RuleView)
    requires
        !has_id(rules, rule.id),
    ensures
        !has_id(without(rules.push(rule), rule.id), rule.id),
        without(rules.push(rule), rule.id) == rules,
{
    reveal(Seq::filter);
    let all = rules.push(rule);
    assert(all.drop_last() == rules);
    lemma_without(rules, rule.id);
    lemma_without(all, rule.id);
}

proof fn lemma_switched(rules: Seq<RuleView>, id: u32, on: bool)
    ensures
        position(switched(rules, id, on), id) == position(rules, id),
        position(rules, id) <= rules.len(),
        position(rules, id) < rules.len() ==> rules[position(rules, id) as int].id == id,
        forall|j: int| 0 <= j < position(rules, id) ==> (#[trigger] rules[j]).id != id,
    decreases rules.len(),
{
    if rules.len() > 0 && rules[0].id != id {
        let rest = rules.drop_first();
        lemma_switched(rest, id, on);
        let i = position(rest, id) as int;
        assert forall|j: int| 0 <= j < position(rules, id) implies (#[trigger] rules[j]).id
            != id by {
            if j > 0 {
                assert(rest[j - 1] == rules[j]);
            }
        }
        if i < rest.len() {
            assert(switched(rules, id, on).drop_first() == switched(rest, id, on));
        }
    }
}

/// Enabling undoes disabling: switching a rule off and on again gives the rules with it
/// on, and it is the last switch that counts.
pub proof fn law_last_switch_counts(rules: Seq<RuleView>, id: u32, first: bool, last: bool)
    ensures
        switched(switched(rules, id, first), id, last) == switched(rules, id, last),
        position(rules, id) < rules.len() && rules[position(rules, id) as int].enabled == last
            ==> switched(switched(rules, id, first), id, last) == rules,
{
    lemma_switched(rules, id, first);
    assert(switched(switched(rules, id, first), id, last) == switched(rules, id, last));
    let i = position(rules, id) as int;
    if i < rules.len() && rules[i].enabled == last {
        assert(switched(rules, id, last) == rules);
    }
}

/// While ids are unique, a disabled rule is as good as deleted: no decision tells the two
/// apart.
pub proof fn law_disabled_is_as_good_as_deleted(rules: Seq<RuleView>, id: u32, flow: Flow)
    requires
        ids_ascend(rules),
    ensures
        decision(switched(rules, id, false), flow) == decision(without(rules, id), flow),
{
    lemma_switched(rules, id, false);
    let i = position(rules, id) as int;
    if i < rules.len() {
        let off = switched(rules, id, false);
        law_idle_rule_does_not_count(off, flow, i);
        assert(off.remove(i) == rules.remove(i));
        assert forall|j: int| 0 <= j < rules.len() && j != i implies (#[trigger] rules[j]).id
            != id by {
            if j < i {
                assert(rules[j].id < rules[i].id);
            } else {
                assert(rules[i].id < rules[j].id);
            }
        }
        lemma_without_one(rules, id, i);
    } else {
        lemma_without(rules, id);
    }
}

proof fn lemma_without_one(rules: Seq<RuleView>, id: u32, i: int)
    requires
        0 <= i < rules.len(),
        rules[i].id == id,
        forall|j: int| 0 <= j < rules.len() && j != i ==> (#[trigger] rules[j]).id != id,
    ensures
        without(rules, id) == rules.remove(i),
    decreases rules.len(),
{
    reveal(Seq::filter);
    let rest = rules.drop_last();
    if i == rules.len() - 1 {
        assert forall|j: int| 0 <= j < rest.len() implies (#[trigger] rest[j]).id != id by {
            assert(rules[j].id != id);
        }
        lemma_without(rest, id);
        assert(rules.remove(i) == rest);
    } else {
        assert forall|j: int| 0 <= j < rest.len() && j != i implies (#[trigger] rest[j]).id
            != id by {
            assert(rules[j].id != id);
        }
        lemma_without_one(rest, id, i);
        assert(rules[rules.len() - 1].id != id);
        assert(rules.remove(i) == rest.remove(i).push(rules.last()));
    }
}

/// A rule decides a connection only if it is enabled and its protocol, its process, its host
/// list and its port list each cover the connection. Where one of them does not, removing
/// the rule leaves the decision as it is.
pub proof fn law_every_part_of_a_rule_must_cover(rules: Seq<RuleView>, flow: Flow, i: int)
    requires
        0 <= i < rules.len(),
        ({
            let rule = rules[i];
            ||| !rule.enabled
            ||| rule.protocol == RuleProtocol::Tcp && flow.is_udp
            ||| rule.protocol == RuleProtocol::Udp && !flow.is_udp
            ||| rule.process_name != seq!['*'] && !same_text(rule.process_name, seq!['A', 'N', 'Y'])
                && !process_list_covers(rule.process_name, flow.process)
            ||| !ip_list_covers(rule.target_hosts, flow.dest_ip)
            ||| !port_list_covers(rule.target_ports, flow.dest_port)
        }),
    ensures
        decision(rules.remove(i), flow) == decision(rules, flow),
{
    law_equality_up_to_case(rules[i].process_name, seq!['A', 'N', 'Y']);
    assert(!selects(rules[i], flow));
    lemma_unmatched_rule(rules, flow, i);
}

proof fn lemma_unmatched_rule(rules: Seq<RuleView>, flow: Flow, i: int)
    requires
        0 <= i < rules.len(),
        !selects(rules[i], flow),
    ensures
        first_selecting(rules.remove(i), flow) == first_selecting(rules, flow),
    decreases i,
{
    if i == 0 {
        assert(rules.remove(0) == rules.drop_first());
    } else {
        lemma_unmatched_rule(rules.drop_first(), flow, i - 1);
        assert(rules.remove(i).drop_first() == rules.drop_first().remove(i - 1));
        assert(rules.remove(i)[0] == rules[0]);
    }
}

/// A rule in front that is enabled and covers the connection in every part decides it: for
/// every process where its name is `*` or `ANY`, else for those that its list covers.
pub proof fn law_covering_rule_in_front_decides(rule: RuleView, rest: Seq<RuleView>, flow: Flow)
    requires
        rule.enabled,
        rule.protocol == RuleProtocol::Both || (rule.protocol == RuleProtocol::Udp
            <==> flow.is_udp),
        rule.process_name == seq!['*'] || same_text(rule.process_name, seq!['A', 'N', 'Y'])
            || process_list_covers(rule.process_name, flow.process),
        ip_list_covers(rule.target_hosts, flow.dest_ip),
        port_list_covers(rule.target_ports, flow.dest_port),
    ensures
        decision(seq![rule] + rest, flow) == rule.action,
{
    law_equality_up_to_case(rule.process_name, seq!['A', 'N', 'Y']);
    let rules = seq![rule] + rest;
    assert(rules[0] == rule);
    assert(selects(rule, flow));
}

/// What is not let through by default is decided by some rule, and without rules every
/// connection goes its own way.
pub proof fn law_only_rules_decide(rules: Seq<RuleView>, flow: Flow)
    ensures
        decision(Seq::empty(), flow) == RuleAction::Direct,
        decision(rules, flow) != RuleAction::Direct ==> exists|i: int|
            0 <= i < rules.len() && (#[trigger] rules[i]).action == decision(rules, flow)
                && rules[i].enabled && ip_list_covers(rules[i].target_hosts, flow.dest_ip)
                && port_list_covers(rules[i].target_ports, flow.dest_port),
    decreases rules.len(),
{
    if rules.len() > 0 {
        if selects(rules[0], flow) {
            assert(rules[0].action == decision(rules, flow));
        } else {
            let rest = rules.drop_first();
            law_only_rules_decide(rest, flow);
            if decision(rules, flow) != RuleAction::Direct {
                let i = choose|i: int|
                    0 <= i < rest.len() && (#[trigger] rest[i]).action == decision(rest, flow)
                        && rest[i].enabled && ip_list_covers(rest[i].target_hosts, flow.dest_ip)
                        && port_list_covers(rest[i].target_ports, flow.dest_port);
                assert(rules[i + 1] == rest[i]);
            }
        }
    }
}

/// A switch turns the first rule with the id on or off, and leaves everything else in every
/// rule as it is; without such a rule it changes nothing.
pub proof fn law_what_a_switch_changes(rules: Seq<RuleView>, id: u32, on: bool, i: int)
    requires
        0 <= i < rules.len(),
        forall|j: int| 0 <= j < i ==> (#[trigger] rules[j]).id != id,
    ensures
        has_id(rules, id) <==> exists|j: int| 0 <= j < rules.len() && (#[trigger] rules[j]).id
            == id,
        rules[i].id == id ==> switched(rules, id, on) == rules.update(
            i,
            RuleView { enabled: on, ..rules[i] },
        ),
        i == rules.len() - 1 && rules[i].id != id ==> switched(rules, id, on) == rules,
{
    lemma_switched(rules, id, on);
    let p = position(rules, id) as int;
    if rules[i].id == id {
        assert(p <= i) by {
            if p > i {
                assert(rules[i].id != id);
            }
        }
        assert(p == i) by {
            if p < i {
                assert(rules[p].id == id);
            }
        }
    } else if i == rules.len() - 1 {
        if p < rules.len() {
            assert(rules[p].id == id);
        }
    }
}

/// A deletion keeps, in order, exactly the rules with another id: rule by rule, one with the
/// id is left out and any other stays.
pub proof fn law_what_a_deletion_keeps(rules: Seq<RuleView>, rule: RuleView, id: u32)
    ensures
        without(Seq::empty(), id) == Seq::<RuleView>::empty(),
        without(rules.push(rule), id) == if rule.id == id {
            without(rules, id)
        } else {
            without(rules, id).push(rule)
        },
        has_id(rules, id) <==> without(rules, id).len() < rules.len(),
{
    reveal(Seq::filter);
    assert(rules.push(rule).drop_last() == rules);
    lemma_without(rules, id);
    lemma_without_shrinks(rules, id);
}

proof fn lemma_without_shrinks(rules: Seq<RuleView>, id: u32)
    ensures
        without(rules, id).len() <= rules.len(),
        has_id(rules, id) ==> without(rules, id).len() < rules.len(),
    decreases rules.len(),
{
    reveal(Seq::filter);
    if rules.len() > 0 {
        let rest = rules.drop_last();
        lemma_without_shrinks(rest, id);
        if has_id(rules, id) && rules.last().id != id {
            let i = choose|i: int| 0 <= i < rules.len() && #[trigger] rules[i].id == id;
            assert(rest[i].id == id);
        }
    }
}

/// An empty host or port list is kept as `*`, and any other as it is.
pub proof fn law_empty_list_is_star(s: Seq<char>)
    ensures
        or_star(Seq::empty()) == seq!['*'],
        s.len() > 0 ==> or_star(s) == s,
{
}

} // verus!
