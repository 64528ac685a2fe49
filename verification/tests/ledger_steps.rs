use icn_economics::did::Did;
use icn_economics::error::CommonError;
use icn_economics::mana_ledger::{balance_after_credit, balance_after_spend};
use icn_economics::resource_ledger::{
    class_allows_transfer, may_update_class, token_balance_after_burn, TokenClass, TransferabilityRule,
};

fn did(s: &str) -> Did {
    Did::from_str(s).unwrap()
}

#[test]
fn spending_needs_the_balance() {
    let a = did("did:key:alice");
    assert_eq!(balance_after_spend(&a, 100, 40).unwrap(), 60);
    assert_eq!(balance_after_spend(&a, 40, 40).unwrap(), 0);
    match balance_after_spend(&a, 10, 11) {
        Err(CommonError::PolicyDenied(m)) => assert_eq!(m, "Insufficient mana for DID did:key:alice"),
        other => panic!("unexpected {:?}", other),
    }
}

#[test]
fn credits_are_capped() {
    assert_eq!(balance_after_credit(5, 7), 12);
    assert_eq!(balance_after_credit(u64::MAX - 1, 7), u64::MAX);
}

#[test]
fn burning_needs_the_balance() {
    assert_eq!(token_balance_after_burn(9, 9).unwrap(), 0);
    match token_balance_after_burn(1, 2) {
        Err(CommonError::PolicyDenied(m)) => assert_eq!(m, "Insufficient balance"),
        other => panic!("unexpected {:?}", other),
    }
}

#[test]
fn class_rules_decide_transfers_and_updates() {
    let issuer = did("did:key:issuer");
    let bob = did("did:key:bob");
    let mut class = TokenClass::new_fungible(
        "Coin".to_string(),
        "A coin".to_string(),
        "C".to_string(),
        2,
        issuer.clone(),
    );
    assert!(class_allows_transfer(&class, &bob));
    class.transferability = TransferabilityRule::IssuerOnly;
    assert!(!class_allows_transfer(&class, &bob));
    assert!(class_allows_transfer(&class, &issuer));
    class.transferability = TransferabilityRule::RestrictedTransfer { authorized_recipients: vec![bob.clone()] };
    assert!(class_allows_transfer(&class, &bob));
    assert!(!class_allows_transfer(&class, &issuer));
    class.transferability = TransferabilityRule::NonTransferable;
    assert!(!class_allows_transfer(&class, &bob));
    let same_issuer = TokenClass::new_fungible("Coin2".to_string(), "".to_string(), "D".to_string(), 0, issuer.clone());
    let other_issuer = TokenClass::new_fungible("Coin3".to_string(), "".to_string(), "E".to_string(), 0, bob.clone());
    assert!(may_update_class(&class, &same_issuer));
    assert!(!may_update_class(&class, &other_issuer));
}
