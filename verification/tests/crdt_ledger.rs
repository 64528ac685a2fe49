use icn_economics::crdt::{CRDTManaLedger, CRDTManaLedgerConfig, PNCounter};
use icn_economics::did::Did;
use icn_economics::mana_ledger::ManaLedger;

fn alice_did() -> Did {
    Did::from_str("did:key:alice").unwrap()
}

fn bob_did() -> Did {
    Did::from_str("did:key:bob").unwrap()
}

#[test]
fn test_crdt_mana_ledger_creation() {
    let ledger = CRDTManaLedger::with_node_id("test_node".to_string());
    assert_eq!(ledger.node_id().as_str(), "test_node");
    assert_eq!(ledger.get_balance(&alice_did()), 0);
}

#[test]
fn test_crdt_mana_ledger_initial_balances() {
    let initial_balances = vec![("did:key:alice".to_string(), 100u64), ("did:key:bob".to_string(), 50u64)];
    let config = CRDTManaLedgerConfig {
        node_id: "test_node".to_string(),
        initial_balances,
        enable_event_store: false,
    };
    let ledger = CRDTManaLedger::new(config);
    assert_eq!(ledger.get_balance(&alice_did()), 100);
    assert_eq!(ledger.get_balance(&bob_did()), 50);
}

#[test]
fn test_crdt_mana_ledger_credit_spend() {
    let mut ledger = CRDTManaLedger::with_node_id("test_node".to_string());
    ledger.credit(&alice_did(), 100).unwrap();
    assert_eq!(ledger.get_balance(&alice_did()), 100);
    ledger.spend(&alice_did(), 30).unwrap();
    assert_eq!(ledger.get_balance(&alice_did()), 70);
    let result = ledger.spend(&alice_did(), 100);
    assert!(result.is_err());
    assert_eq!(ledger.get_balance(&alice_did()), 70);
}

#[test]
fn test_crdt_mana_ledger_set_balance() {
    let mut ledger = CRDTManaLedger::with_node_id("test_node".to_string());
    ledger.set_balance(&alice_did(), 100).unwrap();
    assert_eq!(ledger.get_balance(&alice_did()), 100);
    ledger.set_balance(&alice_did(), 150).unwrap();
    assert_eq!(ledger.get_balance(&alice_did()), 150);
    ledger.set_balance(&alice_did(), 75).unwrap();
    assert_eq!(ledger.get_balance(&alice_did()), 75);
}

#[test]
fn test_crdt_mana_ledger_merge() {
    let mut ledger1 = CRDTManaLedger::with_node_id("node1".to_string());
    let mut ledger2 = CRDTManaLedger::with_node_id("node2".to_string());
    ledger1.credit(&alice_did(), 50).unwrap();
    ledger2.credit(&alice_did(), 30).unwrap();
    ledger2.credit(&bob_did(), 20).unwrap();
    assert_eq!(ledger1.get_balance(&alice_did()), 50);
    assert_eq!(ledger1.get_balance(&bob_did()), 0);
    assert_eq!(ledger2.get_balance(&alice_did()), 30);
    assert_eq!(ledger2.get_balance(&bob_did()), 20);
    ledger1.merge(&ledger2).unwrap();
    assert_eq!(ledger1.get_balance(&alice_did()), 80);
    assert_eq!(ledger1.get_balance(&bob_did()), 20);
}

#[test]
fn test_crdt_mana_ledger_credit_all() {
    let mut ledger = CRDTManaLedger::with_node_id("test_node".to_string());
    ledger.set_balance(&alice_did(), 10).unwrap();
    ledger.set_balance(&bob_did(), 20).unwrap();
    ledger.credit_all(5).unwrap();
    assert_eq!(ledger.get_balance(&alice_did()), 15);
    assert_eq!(ledger.get_balance(&bob_did()), 25);
}

#[test]
fn test_crdt_mana_ledger_all_accounts() {
    let mut ledger = CRDTManaLedger::with_node_id("test_node".to_string());
    assert_eq!(ledger.all_accounts().len(), 0);
    ledger.credit(&alice_did(), 10).unwrap();
    ledger.credit(&bob_did(), 20).unwrap();
    let accounts = ledger.all_accounts();
    assert_eq!(accounts.len(), 2);
    assert!(accounts.contains(&alice_did()));
    assert!(accounts.contains(&bob_did()));
}

#[test]
fn test_crdt_mana_ledger_stats() {
    let mut ledger = CRDTManaLedger::with_node_id("test_node".to_string());
    ledger.credit(&alice_did(), 100).unwrap();
    ledger.credit(&bob_did(), 200).unwrap();
    let stats = ledger.get_stats().unwrap();
    assert_eq!(stats.account_count, 2);
    assert_eq!(stats.total_mana, 300);
    assert_eq!(stats.average_balance, 150);
    assert_eq!(stats.max_balance, 200);
    assert_eq!(stats.min_balance, 100);
    assert_eq!(stats.node_id.as_str(), "test_node");
}

#[test]
fn test_crdt_mana_ledger_concurrent_operations() {
    let mut ledger1 = CRDTManaLedger::with_node_id("node1".to_string());
    let mut ledger2 = CRDTManaLedger::with_node_id("node2".to_string());
    ledger1.credit(&alice_did(), 50).unwrap();
    ledger1.spend(&alice_did(), 10).unwrap();
    ledger2.credit(&alice_did(), 30).unwrap();
    ledger2.spend(&alice_did(), 5).unwrap();
    assert_eq!(ledger1.get_balance(&alice_did()), 40);
    assert_eq!(ledger2.get_balance(&alice_did()), 25);
    ledger1.merge(&ledger2).unwrap();
    assert_eq!(ledger1.get_balance(&alice_did()), 65);
}

#[test]
fn merge_is_commutative_on_values() {
    let mut a = PNCounter::new();
    let mut b = PNCounter::new();
    a.increment(&"n1".to_string(), 10).unwrap();
    a.decrement(&"n1".to_string(), 3).unwrap();
    b.increment(&"n2".to_string(), 4).unwrap();
    let mut ab = a.duplicate();
    ab.merge(&b);
    let mut ba = b.duplicate();
    ba.merge(&a);
    assert_eq!(ab.value(), 11);
    assert_eq!(ba.value(), 11);
}

#[test]
fn merge_is_idempotent() {
    let mut a = PNCounter::new();
    a.increment(&"n1".to_string(), 7).unwrap();
    let copy = a.duplicate();
    a.merge(&copy);
    a.merge(&copy);
    assert_eq!(a.value(), 7);
    assert_eq!(a.counts_for(&"n1".to_string()), (7, 0));
}

#[test]
fn merge_keeps_the_larger_count_per_node() {
    let mut a = PNCounter::new();
    let mut b = PNCounter::new();
    a.increment(&"n1".to_string(), 5).unwrap();
    b.increment(&"n1".to_string(), 9).unwrap();
    a.merge(&b);
    assert_eq!(a.counts_for(&"n1".to_string()), (9, 0));
    assert_eq!(a.value(), 9);
}

#[test]
fn counter_value_floors_at_zero() {
    let mut a = PNCounter::new();
    a.increment(&"n1".to_string(), 2).unwrap();
    a.decrement(&"n2".to_string(), 5).unwrap();
    assert_eq!(a.value(), 0);
    assert_eq!(a.totals(), (2, 5));
}

#[test]
fn counter_increment_overflow_is_refused() {
    let mut a = PNCounter::new();
    a.increment(&"n1".to_string(), u64::MAX).unwrap();
    assert!(a.increment(&"n1".to_string(), 1).is_err());
    assert_eq!(a.counts_for(&"n1".to_string()), (u64::MAX, 0));
}
