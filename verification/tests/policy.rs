use icn_economics::did::Did;
use icn_economics::error::CommonError;
use icn_economics::mana_ledger::{FileManaLedger, ManaLedger};
use icn_economics::policy::{
    credit_by_reputation, price_by_reputation, ManaRepositoryAdapter, ResourcePolicyEnforcer, MAX_SPEND_LIMIT,
};
use icn_economics::reputation::InMemoryReputationStore;

#[test]
fn test_resource_policy_enforcer_spend_success() {
    let mut ledger = FileManaLedger::new("mana.json");
    let did = Did::from_str("did:example:alice").unwrap();
    ledger.set_balance(&did, 150).unwrap();

    let adapter = ManaRepositoryAdapter::new(ledger);
    let mut enforcer = ResourcePolicyEnforcer::new(adapter);
    let result = enforcer.spend_mana(&did, 100);
    assert!(result.is_ok());

    let stored = enforcer.adapter().ledger().records();
    let ledger_check = FileManaLedger::load("mana.json", stored);
    assert_eq!(ledger_check.get_balance(&did), 50);
}

#[test]
fn test_resource_policy_enforcer_insufficient_balance() {
    let mut ledger = FileManaLedger::new("mana.json");
    let did = Did::from_str("did:example:bob").unwrap();
    ledger.set_balance(&did, 20).unwrap();

    let adapter = ManaRepositoryAdapter::new(ledger);
    let mut enforcer = ResourcePolicyEnforcer::new(adapter);
    let result = enforcer.spend_mana(&did, 30);
    assert!(matches!(result, Err(CommonError::PolicyDenied(_))));
}

#[test]
fn test_resource_policy_enforcer_exceeds_limit() {
    let mut ledger = FileManaLedger::new("mana.json");
    let did = Did::from_str("did:example:carol").unwrap();
    ledger.set_balance(&did, 5000).unwrap();

    let adapter = ManaRepositoryAdapter::new(ledger);
    let mut enforcer = ResourcePolicyEnforcer::new(adapter);
    let over_limit = MAX_SPEND_LIMIT + 1;
    let result = enforcer.spend_mana(&did, over_limit);
    assert!(matches!(result, Err(CommonError::PolicyDenied(_))));
}

#[test]
fn test_credit_by_reputation_basic() {
    let mut ledger = FileManaLedger::new("memory");
    let mut rep_store = InMemoryReputationStore::new();

    let alice = Did::from_str("did:example:alice").unwrap();
    let bob = Did::from_str("did:example:bob").unwrap();

    ledger.set_balance(&alice, 0).unwrap();
    ledger.set_balance(&bob, 0).unwrap();

    rep_store.set_score(alice.clone(), 3);
    rep_store.set_score(bob.clone(), 0);

    credit_by_reputation(&mut ledger, &rep_store, 10).unwrap();

    assert_eq!(ledger.get_balance(&alice), 30);
    assert_eq!(ledger.get_balance(&bob), 0);
}

#[test]
fn test_credit_by_reputation_overflow() {
    let mut ledger = FileManaLedger::new("memory");
    let mut rep_store = InMemoryReputationStore::new();

    let over = Did::from_str("did:example:overflow").unwrap();
    ledger.set_balance(&over, 0).unwrap();
    rep_store.set_score(over.clone(), 2);

    credit_by_reputation(&mut ledger, &rep_store, u64::MAX).unwrap();

    assert_eq!(ledger.get_balance(&over), u64::MAX);
}

#[test]
fn test_inmemory_ledger_credit_all() {
    let mut ledger = FileManaLedger::new("memory");
    let alice = Did::from_str("did:example:alice").unwrap();
    let bob = Did::from_str("did:example:bob").unwrap();
    ledger.set_balance(&alice, 1).unwrap();
    ledger.set_balance(&bob, 2).unwrap();
    ledger.credit_all(5).unwrap();
    assert_eq!(ledger.get_balance(&alice), 6);
    assert_eq!(ledger.get_balance(&bob), 7);
}

#[test]
fn test_price_by_reputation_reduces_cost() {
    // base price 100 with reputation 0 stays 100
    assert_eq!(price_by_reputation(100, 0), 100);

    // reputation should lower the price but never below zero
    assert!(price_by_reputation(100, 50) < 100);
    assert!(price_by_reputation(100, 200) < price_by_reputation(100, 50));

    // very high reputation approaches zero but never exceeds base
    assert!(price_by_reputation(100, 1000) < 100);
}

#[test]
fn price_by_reputation_exact_values() {
    assert_eq!(price_by_reputation(100, 50), 66);
    assert_eq!(price_by_reputation(100, 200), 33);
    assert_eq!(price_by_reputation(100, 1000), 9);
    assert_eq!(price_by_reputation(u64::MAX, 0), u64::MAX);
    assert_eq!(price_by_reputation(0, 7), 0);
}

#[test]
fn spend_rejects_unknown_account_balance() {
    let mut ledger = FileManaLedger::new("memory");
    let did = Did::from_str("did:example:nobody").unwrap();
    assert!(matches!(ledger.spend(&did, 1), Err(CommonError::DatabaseError(_))));
    assert_eq!(ledger.get_balance(&did), 0);
}

#[test]
fn credit_saturates_at_max() {
    let mut ledger = FileManaLedger::new("memory");
    let did = Did::from_str("did:example:rich").unwrap();
    ledger.set_balance(&did, u64::MAX - 1).unwrap();
    ledger.credit(&did, 10).unwrap();
    assert_eq!(ledger.get_balance(&did), u64::MAX);
}

#[test]
fn invalid_did_is_refused() {
    assert!(Did::from_str("not-a-did").is_err());
    assert!(Did::from_str("did:key:ok").is_ok());
}
