use proxy_bridge::config::{LOCAL_PROXY_PORT, LOCAL_UDP_RELAY_PORT, NFQUEUE_NUM};
use proxy_bridge::netfilter::{
    acknowledge, Ack, AckStep, ChainKind, Change, Expr, Family, Hook, Item, NetfilterManager,
    Policy, Queue, Redir, ENOENT, TABLE_NAME,
};

#[test]
fn the_table_is_set_up() {
    let plan = NetfilterManager::setup(LOCAL_PROXY_PORT, LOCAL_UDP_RELAY_PORT, NFQUEUE_NUM);
    assert_eq!(plan.len(), 2);
    // What is left over goes first.
    assert_eq!(plan[0].change, Change::Delete);
    assert!(!plan[0].must_succeed());
    assert!(plan[1].must_succeed());
    assert_eq!(plan[0].items.len(), 1);
    assert!(matches!(plan[0].items[0], Item::Table { family: Family::Inet, name: "proxybridge" }));
    assert_eq!(plan[1].change, Change::Add);
    let items = &plan[1].items;
    assert_eq!(items.len(), 7);
    assert!(matches!(items[0], Item::Table { family: Family::Inet, name: "proxybridge" }));
    assert!(matches!(
        items[1],
        Item::Chain {
            name: "mangle_output",
            hook: Hook::Out,
            priority: -150,
            kind: ChainKind::Filter,
            policy: Policy::Accept,
        }
    ));
    assert!(matches!(
        items[4],
        Item::Chain {
            name: "nat_output",
            hook: Hook::Out,
            priority: -100,
            kind: ChainKind::Nat,
            policy: Policy::Accept,
        }
    ));
    for (i, protocol) in [(2, 6), (3, 17)] {
        match &items[i] {
            Item::Rule(r) => assert_eq!(
                r[..],
                [Expr::LoadProtocol, Expr::ProtocolIs(protocol), Expr::Queue(Queue::new(0))]
            ),
            item => panic!("{item:?}"),
        }
    }
    for (i, protocol, mark, port) in [(5, 6, 1, 34010u16), (6, 17, 2, 34011)] {
        let b = port.to_be_bytes();
        match &items[i] {
            Item::Rule(r) => assert_eq!(
                r[..],
                [
                    Expr::LoadProtocol,
                    Expr::ProtocolIs(protocol),
                    Expr::LoadMark,
                    Expr::MarkIs(mark),
                    Expr::LoadPort { first: b[0], second: b[1], register: 1 },
                    Expr::Redir(Redir::new(Some(1))),
                ]
            ),
            item => panic!("{item:?}"),
        }
    }
}

#[test]
fn the_table_is_removed_as_a_whole() {
    let batch = NetfilterManager::cleanup();
    assert_eq!(batch.change, Change::Delete);
    assert_eq!(batch.items.len(), 1);
    assert!(matches!(batch.items[0], Item::Table { family: Family::Inet, name: "proxybridge" }));
    assert_eq!(TABLE_NAME, "proxybridge");
}

#[test]
fn acknowledgements() {
    assert_eq!(ENOENT, libc::ENOENT);
    assert_eq!(acknowledge(Ack::Taken), AckStep::Wait);
    assert_eq!(acknowledge(Ack::Stop), AckStep::Done);
    assert_eq!(acknowledge(Ack::Nothing), AckStep::Done);
    assert_eq!(acknowledge(Ack::Failed(Some(libc::ENOENT))), AckStep::Done);
    assert_eq!(acknowledge(Ack::Failed(Some(libc::EPERM))), AckStep::Fail);
    assert_eq!(acknowledge(Ack::Failed(None)), AckStep::Fail);
}
