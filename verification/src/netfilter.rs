//! The packet filter rules that lead packets to the queue, and marked packets to the
//! relays.

use vstd::prelude::*;

use crate::addr::{be16, from_be16, law_be16_round_trip};
use crate::config::{IPPROTO_TCP, IPPROTO_UDP, TCP_MARK, UDP_MARK};

verus! {

/// The table that holds all chains and rules.
pub const TABLE_NAME: &'static str = "proxybridge";

/// The chain that leads packets to the queue.
pub const MANGLE_CHAIN: &'static str = "mangle_output";

/// The chain that redirects marked packets.
pub const NAT_CHAIN: &'static str = "nat_output";

/// Priority of the chain that leads packets to the queue.
pub const MANGLE_PRIORITY: i32 = -150;

/// Priority of the chain that redirects marked packets.
pub const NAT_PRIORITY: i32 = -100;

/// The first general register.
pub const REG_1: u32 = 1;

/// The error number for what does not exist.
pub const ENOENT: i32 = 2;

/// Hands a packet to a queue.
#[derive(Debug, Clone, Copy, PartialEq, Eq, Structural)]
pub struct Queue {
    pub num: u16,
}

impl Queue {
    /// The expression for the queue with the given number.
    pub fn new(num: u16) -> (r: Self)
        ensures
            r.num == num,
    {
        Self { num }
    }
}

/// Redirects a packet to this machine, to the port in a register.
#[derive(Debug, Clone, Copy, PartialEq, Eq, Structural)]
pub struct Redir {
    pub proto_register: Option<u32>,
}

impl Redir {
    /// The expression for the port in the given register.
    pub fn new(proto_register: Option<u32>) -> (r: Self)
        ensures
            r.proto_register == proto_register,
    {
        Self { proto_register }
    }
}

/// A part of a rule. The parts are gone through in order, and a rule ends at the first
/// comparison that fails.
#[derive(Debug, Clone, Copy, PartialEq, Eq, Structural)]
pub enum Expr {
    /// Loads the transport protocol.
    LoadProtocol,
    /// Goes on where the loaded protocol is this one.
    ProtocolIs(u8),
    /// Loads the packet's mark.
    LoadMark,
    /// Goes on where the loaded mark is this one.
    MarkIs(u32),
    /// Puts a port, given by its two bytes in network byte order, into a register.
    LoadPort { first: u8, second: u8, register: u32 },
    /// Ends with the packet in a queue.
    Queue(Queue),
    /// Ends with the packet redirected.
    Redir(Redir),
}

/// Which packets a table is for.
#[derive(Debug, Clone, Copy, PartialEq, Eq, Structural)]
pub enum Family {
    /// IPv4 and IPv6 packets.
    Inet,
    Ipv4,
    Ipv6,
}

/// Where a chain sees packets.
#[derive(Debug, Clone, Copy, PartialEq, Eq, Structural)]
pub enum Hook {
    PreRouting,
    In,
    Forward,
    /// Packets that this machine sends.
    Out,
    PostRouting,
}

/// What a chain is for.
#[derive(Debug, Clone, Copy, PartialEq, Eq, Structural)]
pub enum ChainKind {
    Filter,
    Nat,
}

/// What becomes of packets that the rules of a chain leave alone.
#[derive(Debug, Clone, Copy, PartialEq, Eq, Structural)]
pub enum Policy {
    Accept,
    Drop,
}

/// A part of the packet filter. A chain belongs to the table before it, and a rule to the
/// chain before it.
#[derive(Debug)]
pub enum Item {
    Table { family: Family, name: &'static str },
    Chain { name: &'static str, hook: Hook, priority: i32, kind: ChainKind, policy: Policy },
    Rule(Vec<Expr>),
}

/// What an item says.
pub enum ItemView {
    Table(Family, Seq<char>),
    Chain(Seq<char>, Hook, i32, ChainKind, Policy),
    Rule(Seq<Expr>),
}

impl View for Item {
    type V = ItemView;

    open spec fn view(&self) -> ItemView {
        match self {
            Item::Table { family, name } => ItemView::Table(*family, name@),
            Item::Chain { name, hook, priority, kind, policy } => ItemView::Chain(
                name@,
                *hook,
                *priority,
                *kind,
                *policy,
            ),
            Item::Rule(exprs) => ItemView::Rule(exprs@),
        }
    }
}

/// What a batch does with its items.
#[derive(Debug, Clone, Copy, PartialEq, Eq, Structural)]
pub enum Change {
    Add,
    /// A table goes with all that it holds.
    Delete,
}

/// Items that the kernel takes all at once or not at all.
#[derive(Debug)]
pub struct Batch {
    pub change: Change,
    pub items: Vec<Item>,
}

/// What a batch says.
pub struct BatchView {
    pub change: Change,
    pub items: Seq<ItemView>,
}

impl View for Batch {
    type V = BatchView;

    open spec fn view(&self) -> BatchView {
        BatchView { change: self.change, items: item_views(self.items@) }
    }
}

impl Batch {
    /// Whether a failure of this batch ends the setup. A deletion is only tried.
    pub fn must_succeed(&self) -> (r: bool)
        ensures
            r == (self.change == Change::Add),
    {
        self.change == Change::Add
    }
}

/// What a sequence of batches says.
pub open spec fn batch_views(batches: Seq<Batch>) -> Seq<BatchView> {
    Seq::new(batches.len(), |i: int| batches[i]@)
}

/// What a sequence of items says.
pub open spec fn item_views(items: Seq<Item>) -> Seq<ItemView> {
    Seq::new(items.len(), |i: int| items[i]@)
}

/// The rule that leads packets of a protocol to a queue.
pub open spec fn queue_rule(protocol: u8, queue_num: u16) -> Seq<Expr> {
    seq![Expr::LoadProtocol, Expr::ProtocolIs(protocol), Expr::Queue(Queue { num: queue_num })]
}

/// The rule that redirects marked packets of a protocol to a port.
pub open spec fn redirect_rule(protocol: u8, mark: u32, port: u16) -> Seq<Expr> {
    seq![
        Expr::LoadProtocol,
        Expr::ProtocolIs(protocol),
        Expr::LoadMark,
        Expr::MarkIs(mark),
        Expr::LoadPort { first: be16(port)[0], second: be16(port)[1], register: REG_1 },
        Expr::Redir(Redir { proto_register: Some(REG_1) }),
    ]
}

/// The whole table: all TCP and UDP packets go to the queue, and then the marked ones to
/// the relay for their protocol.
pub open spec fn table(tcp_relay_port: u16, udp_relay_port: u16, queue_num: u16) -> Seq<ItemView> {
    seq![
        ItemView::Table(Family::Inet, TABLE_NAME@),
        ItemView::Chain(
            MANGLE_CHAIN@,
            Hook::Out,
            MANGLE_PRIORITY,
            ChainKind::Filter,
            Policy::Accept,
        ),
        ItemView::Rule(queue_rule(IPPROTO_TCP, queue_num)),
        ItemView::Rule(queue_rule(IPPROTO_UDP, queue_num)),
        ItemView::Chain(NAT_CHAIN@, Hook::Out, NAT_PRIORITY, ChainKind::Nat, Policy::Accept),
        ItemView::Rule(redirect_rule(IPPROTO_TCP, TCP_MARK, tcp_relay_port)),
        ItemView::Rule(redirect_rule(IPPROTO_UDP, UDP_MARK, udp_relay_port)),
    ]
}

/// The deletion of the table.
pub open spec fn removal() -> BatchView {
    BatchView { change: Change::Delete, items: seq![ItemView::Table(Family::Inet, TABLE_NAME@)] }
}

/// How the table is set up: what an earlier run has left is deleted, and then the whole
/// table is added in one batch.
pub open spec fn plan(
    tcp_relay_port: u16,
    udp_relay_port: u16,
    queue_num: u16,
) -> Seq<BatchView> {
    seq![
        removal(),
        BatchView {
            change: Change::Add,
            items: table(tcp_relay_port, udp_relay_port, queue_num),
        },
    ]
}

fn build_queue_rule(protocol: u8, queue_num: u16) -> (r: Vec<Expr>)
    ensures
        r@ == queue_rule(protocol, queue_num),
{
    let mut rule: Vec<Expr> = Vec::new();
    rule.push(Expr::LoadProtocol);
    rule.push(Expr::ProtocolIs(protocol));
    rule.push(Expr::Queue(Queue::new(queue_num)));
    assert(rule@ == queue_rule(protocol, queue_num));
    rule
}

fn build_redirect_rule(protocol: u8, mark: u32, port: u16) -> (r: Vec<Expr>)
    ensures
        r@ == redirect_rule(protocol, mark, port),
{
    let mut rule: Vec<Expr> = Vec::new();
    rule.push(Expr::LoadProtocol);
    rule.push(Expr::ProtocolIs(protocol));
    rule.push(Expr::LoadMark);
    rule.push(Expr::MarkIs(mark));
    rule.push(
        Expr::LoadPort {
            first: (port / 256) as u8,
            second: (port % 256) as u8,
            register: REG_1,
        },
    );
    rule.push(Expr::Redir(Redir::new(Some(REG_1))));
    assert(rule@ == redirect_rule(protocol, mark, port));
    rule
}

/// The table with its chains and rules.
pub struct NetfilterManager;

impl NetfilterManager {
    /// What is to be sent to the packet filter to set the table up, batch by batch.
    pub fn setup(tcp_relay_port: u16, udp_relay_port: u16, queue_num: u16) -> (r: Vec<Batch>)
        ensures
            batch_views(r@) == plan(tcp_relay_port, udp_relay_port, queue_num),
    {
        let mut items: Vec<Item> = Vec::new();
        items.push(Item::Table { family: Family::Inet, name: TABLE_NAME });
        items.push(
            Item::Chain {
                name: MANGLE_CHAIN,
                hook: Hook::Out,
                priority: MANGLE_PRIORITY,
                kind: ChainKind::Filter,
                policy: Policy::Accept,
            },
        );
        items.push(Item::Rule(build_queue_rule(IPPROTO_TCP, queue_num)));
        items.push(Item::Rule(build_queue_rule(IPPROTO_UDP, queue_num)));
        items.push(
            Item::Chain {
                name: NAT_CHAIN,
                hook: Hook::Out,
                priority: NAT_PRIORITY,
                kind: ChainKind::Nat,
                policy: Policy::Accept,
            },
        );
        items.push(Item::Rule(build_redirect_rule(IPPROTO_TCP, TCP_MARK, tcp_relay_port)));
        items.push(Item::Rule(build_redirect_rule(IPPROTO_UDP, UDP_MARK, udp_relay_port)));
        assert(item_views(items@) == table(tcp_relay_port, udp_relay_port, queue_num));
        let mut batches: Vec<Batch> = Vec::new();
        batches.push(Self::cleanup());
        batches.push(Batch { change: Change::Add, items });
        assert(batch_views(batches@) == plan(tcp_relay_port, udp_relay_port, queue_num));
        batches
    }

    /// What is to be sent to the packet filter to delete the table, and all that it holds.
    pub fn cleanup() -> (r: Batch)
        ensures
            r@ == removal(),
    {
        let mut items: Vec<Item> = Vec::new();
        items.push(Item::Table { family: Family::Inet, name: TABLE_NAME });
        assert(item_views(items@) == removal().items);
        Batch { change: Change::Delete, items }
    }
}

/// What the kernel's acknowledgement of a batch amounts to.
#[derive(Debug, Clone, Copy, PartialEq, Eq, Structural)]
pub enum Ack {
    /// Nothing came.
    Nothing,
    /// A part of the batch was taken.
    Taken,
    /// The batch is through.
    Stop,
    /// It failed, with the system's error number where there is one.
    Failed(Option<i32>),
}

/// What follows an acknowledgement.
#[derive(Debug, Clone, Copy, PartialEq, Eq, Structural)]
pub enum AckStep {
    /// Wait for the next one.
    Wait,
    /// The batch is done.
    Done,
    /// The batch failed.
    Fail,
}

/// What follows an acknowledgement.
pub open spec fn ack_step(ack: Ack) -> AckStep {
    match ack {
        Ack::Taken => AckStep::Wait,
        Ack::Nothing => AckStep::Done,
        Ack::Stop => AckStep::Done,
        Ack::Failed(e) => if e == Some(ENOENT) {
            AckStep::Done
        } else {
            AckStep::Fail
        },
    }
}

/// Says what follows an acknowledgement. That something does not exist is no failure: it
/// is what the deletion of a missing table is answered.
pub fn acknowledge(ack: Ack) -> (r: AckStep)
    ensures
        r == ack_step(ack),
{
    match ack {
        Ack::Taken => AckStep::Wait,
        Ack::Nothing => AckStep::Done,
        Ack::Stop => AckStep::Done,
        Ack::Failed(Some(n)) => if n == ENOENT {
            AckStep::Done
        } else {
            AckStep::Fail
        },
        Ack::Failed(None) => AckStep::Fail,
    }
}

/// What a rule does to a packet.
pub enum Effect {
    Queue(u16),
    Redirect(u16),
}

/// What the first register holds, which loads write and comparisons read.
pub enum Held {
    Nothing,
    Protocol,
    Mark,
    Port(u16),
}

/// What the rest of a rule does to a packet of a protocol with a mark.
pub open spec fn effect_from(
    rule: Seq<Expr>,
    at: int,
    held: Held,
    protocol: u8,
    mark: u32,
) -> Option<Effect>
    decreases rule.len() - at,
{
    if at < 0 || at >= rule.len() {
        None
    } else {
        match rule[at] {
            Expr::LoadProtocol => effect_from(rule, at + 1, Held::Protocol, protocol, mark),
            Expr::ProtocolIs(p) => if held is Protocol && p == protocol {
                effect_from(rule, at + 1, held, protocol, mark)
            } else {
                None
            },
            Expr::LoadMark => effect_from(rule, at + 1, Held::Mark, protocol, mark),
            Expr::MarkIs(m) => if held is Mark && m == mark {
                effect_from(rule, at + 1, held, protocol, mark)
            } else {
                None
            },
            Expr::LoadPort { first, second, register } => effect_from(
                rule,
                at + 1,
                if register == REG_1 {
                    Held::Port(from_be16(first, second))
                } else {
                    held
                },
                protocol,
                mark,
            ),
            Expr::Queue(q) => Some(Effect::Queue(q.num)),
            Expr::Redir(r) => match (r.proto_register, held) {
                (Some(register), Held::Port(port)) => if register == REG_1 {
                    Some(Effect::Redirect(port))
                } else {
                    None
                },
                _ => None,
            },
        }
    }
}

/// What a rule does to a packet of a protocol with a mark.
pub open spec fn effect(rule: Seq<Expr>, protocol: u8, mark: u32) -> Option<Effect> {
    effect_from(rule, 0, Held::Nothing, protocol, mark)
}

/// What a chain, given by its two rules, does to a packet: the first rule that does
/// anything decides.
pub open spec fn first_effect(
    first: ItemView,
    second: ItemView,
    protocol: u8,
    mark: u32,
) -> Option<Effect> {
    match (first, second) {
        (ItemView::Rule(a), ItemView::Rule(b)) => match effect(a, protocol, mark) {
            Some(e) => Some(e),
            None => effect(b, protocol, mark),
        },
        _ => None,
    }
}

proof fn lemma_queue_rule_effect(own: u8, queue_num: u16, protocol: u8, mark: u32)
    ensures
        effect(queue_rule(own, queue_num), protocol, mark) == if protocol == own {
            Some(Effect::Queue(queue_num))
        } else {
            None
        },
{
    reveal_with_fuel(effect_from, 4);
}

proof fn lemma_redirect_rule_effect(own: u8, own_mark: u32, port: u16, protocol: u8, mark: u32)
    ensures
        effect(redirect_rule(own, own_mark, port), protocol, mark) == if protocol == own && mark
            == own_mark {
            Some(Effect::Redirect(port))
        } else {
            None
        },
{
    let rule = redirect_rule(own, own_mark, port);
    law_be16_round_trip(port);
    assert(effect(rule, protocol, mark) == effect_from(rule, 1, Held::Protocol, protocol, mark));
    if protocol == own {
        assert(effect_from(rule, 1, Held::Protocol, protocol, mark) == effect_from(
            rule,
            2,
            Held::Protocol,
            protocol,
            mark,
        ));
        assert(effect_from(rule, 2, Held::Protocol, protocol, mark) == effect_from(
            rule,
            3,
            Held::Mark,
            protocol,
            mark,
        ));
        if mark == own_mark {
            assert(effect_from(rule, 3, Held::Mark, protocol, mark) == effect_from(
                rule,
                4,
                Held::Mark,
                protocol,
                mark,
            ));
            assert(effect_from(rule, 4, Held::Mark, protocol, mark) == effect_from(
                rule,
                5,
                Held::Port(port),
                protocol,
                mark,
            ));
        }
    }
}

/// Under the table, TCP and UDP packets go to the queue and no others do; then a TCP
/// packet with the TCP mark goes to the TCP relay, a UDP packet with the UDP mark to the
/// UDP relay, and no other packet is redirected.
pub proof fn law_table_leads_packets(
    tcp_relay_port: u16,
    udp_relay_port: u16,
    queue_num: u16,
    protocol: u8,
    mark: u32,
)
    ensures
        first_effect(
            table(tcp_relay_port, udp_relay_port, queue_num)[2],
            table(tcp_relay_port, udp_relay_port, queue_num)[3],
            protocol,
            mark,
        ) == if protocol == IPPROTO_TCP || protocol
            == IPPROTO_UDP {
            Some(Effect::Queue(queue_num))
        } else {
            None
        },
        first_effect(
            table(tcp_relay_port, udp_relay_port, queue_num)[5],
            table(tcp_relay_port, udp_relay_port, queue_num)[6],
            protocol,
            mark,
        ) == if protocol == IPPROTO_TCP && mark
            == TCP_MARK {
            Some(Effect::Redirect(tcp_relay_port))
        } else if protocol == IPPROTO_UDP && mark == UDP_MARK {
            Some(Effect::Redirect(udp_relay_port))
        } else {
            None
        },
{
    lemma_queue_rule_effect(IPPROTO_TCP, queue_num, protocol, mark);
    lemma_queue_rule_effect(IPPROTO_UDP, queue_num, protocol, mark);
    lemma_redirect_rule_effect(IPPROTO_TCP, TCP_MARK, tcp_relay_port, protocol, mark);
    lemma_redirect_rule_effect(IPPROTO_UDP, UDP_MARK, udp_relay_port, protocol, mark);
}

/// What the packet filter holds: the chains and rules of each table, in order.
pub type Ruleset = Map<(Family, Seq<char>), Seq<ItemView>>;

/// The packet filter after a batch for one table, which the batch names first: a deletion
/// takes the table away, where there is one, and an addition appends to what it holds.
pub open spec fn applied(rules: Ruleset, batch: BatchView) -> Ruleset {
    match batch.items[0] {
        ItemView::Table(family, name) => match batch.change {
            Change::Delete => rules.remove((family, name)),
            Change::Add => rules.insert(
                (family, name),
                if rules.contains_key((family, name)) {
                    rules[(family, name)] + batch.items.drop_first()
                } else {
                    batch.items.drop_first()
                },
            ),
        },
        _ => rules,
    }
}

/// The packet filter after two batches.
pub open spec fn applied_both(rules: Ruleset, batches: Seq<BatchView>) -> Ruleset {
    applied(applied(rules, batches[0]), batches[1])
}

/// Whatever the packet filter held, after the setup the table holds just its own chains and
/// rules, and the other tables hold what they held. A second setup changes nothing, and a
/// removal takes the table away.
pub proof fn law_setup_leaves_just_the_table(
    rules: Ruleset,
    tcp_relay_port: u16,
    udp_relay_port: u16,
    queue_num: u16,
)
    ensures
        ({
            let batches = plan(tcp_relay_port, udp_relay_port, queue_num);
            let key = (Family::Inet, TABLE_NAME@);
            let after = applied_both(rules, batches);
            &&& after == rules.insert(
                key,
                table(tcp_relay_port, udp_relay_port, queue_num).drop_first(),
            )
            &&& applied_both(after, batches) == after
            &&& applied(after, removal()) == rules.remove(key)
        }),
{
    let batches = plan(tcp_relay_port, udp_relay_port, queue_num);
    let key = (Family::Inet, TABLE_NAME@);
    let own = table(tcp_relay_port, udp_relay_port, queue_num).drop_first();
    let after = applied_both(rules, batches);
    assert(applied(rules, batches[0]) == rules.remove(key));
    assert(after =~= rules.insert(key, own));
    assert(applied(after, batches[0]) == after.remove(key));
    assert(applied_both(after, batches) =~= after);
    assert(applied(after, removal()) =~= rules.remove(key));
}

/// A batch fails exactly with an acknowledgement that is a failure, with any error number but
/// 2 or without one; it goes on only while parts of it are taken.
pub proof fn law_which_batches_fail(ack: Ack, n: i32)
    ensures
        ack_step(Ack::Failed(None)) == AckStep::Fail,
        n != 2 ==> ack_step(Ack::Failed(Some(n))) == AckStep::Fail,
        ack_step(Ack::Failed(Some(2))) == AckStep::Done,
        ack_step(ack) == AckStep::Wait <==> ack == Ack::Taken,
        ack_step(ack) == AckStep::Fail ==> ack is Failed,
{
}

} // verus!
