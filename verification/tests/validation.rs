use icn_economics::did::Did;
use icn_economics::mana_ledger::{FileManaLedger, ManaLedger};
use icn_economics::policy::{validate_mana_spend, ValidationContext, MAX_SPEND_LIMIT};
use icn_economics::reputation::InMemoryReputationStore;
use icn_economics::resource_ledger::{FileResourceLedger, ResourceLedger, TokenClass};
use icn_economics::validation::{
    validate_cross_cooperative_allocation, validate_marketplace_transaction, validate_token_transfer,
    validate_token_transfer_at, ResourcePriority, ResourceSpec,
};
use icn_economics::marketplace::{MarketplaceBid, MarketplaceOffer};

fn did(s: &str) -> Did {
    Did::from_str(s).unwrap()
}

fn context(account: &Did, amount: u64, cross: bool) -> ValidationContext {
    ValidationContext {
        operation_type: "test".to_string(),
        amount,
        account: account.clone(),
        resource_type: None,
        cross_cooperative: cross,
        reputation_required: false,
    }
}

#[test]
fn mana_spend_checks_stop_at_the_first_failure() {
    let alice = did("did:key:alice");
    let mut ledger = FileManaLedger::new("m");
    ledger.set_balance(&alice, 100).unwrap();
    let zero = validate_mana_spend(&ledger, &alice, 0, &context(&alice, 0, false));
    assert!(!zero.is_valid);
    assert_eq!(zero.checks_performed.len(), 1);
    let short = validate_mana_spend(&ledger, &alice, 101, &context(&alice, 101, false));
    assert!(!short.is_valid);
    assert_eq!(short.checks_performed.len(), 2);
    let cross = validate_mana_spend(&ledger, &alice, 95, &context(&alice, 95, true));
    assert!(!cross.is_valid);
    let ok = validate_mana_spend(&ledger, &alice, 90, &context(&alice, 90, true));
    assert!(ok.is_valid);
    assert!(ok.error_message.is_none());
}

#[test]
fn mana_spend_over_the_limit_is_invalid() {
    let rich = did("did:key:rich");
    let mut ledger = FileManaLedger::new("m");
    ledger.set_balance(&rich, 1_000_000).unwrap();
    let r = validate_mana_spend(&ledger, &rich, MAX_SPEND_LIMIT + 1, &context(&rich, MAX_SPEND_LIMIT + 1, false));
    assert!(!r.is_valid);
    assert_eq!(r.checks_performed.len(), 3);
}

#[test]
fn token_transfer_validation() {
    let issuer = did("did:key:issuer");
    let a = did("did:key:a");
    let b = did("did:key:b");
    let mut ledger = FileResourceLedger::new("r");
    let class = TokenClass::new_fungible("C".to_string(), "d".to_string(), "C".to_string(), 0, issuer.clone());
    ledger.create_class(&"c".to_string(), class).unwrap();
    ledger.mint(&"c".to_string(), &a, 10).unwrap();
    let ctx = context(&a, 5, false);
    assert!(validate_token_transfer_at(&ledger, "c", &a, &b, 5, &ctx, 1).is_valid);
    assert!(!validate_token_transfer_at(&ledger, "c", &a, &a, 5, &ctx, 1).is_valid);
    assert!(!validate_token_transfer_at(&ledger, "missing", &a, &b, 5, &ctx, 1).is_valid);
    let too_much = validate_token_transfer_at(&ledger, "c", &a, &b, 11, &ctx, 1);
    assert!(!too_much.is_valid);
    assert_eq!(too_much.checks_performed.len(), 4);
}

#[test]
fn cross_cooperative_allocation_checks() {
    let requester = did("did:key:req");
    let mut reputation = InMemoryReputationStore::new();
    reputation.set_score(requester.clone(), 50);
    let available = vec![("gpu".to_string(), 10u64), ("cpu".to_string(), 20u64)];
    let spec = |amount: u64, priority: ResourcePriority| ResourceSpec {
        resource_type: "cpu".to_string(),
        amount,
        duration: None,
        priority,
        requirements: Vec::new(),
    };
    assert!(validate_cross_cooperative_allocation(&requester, &spec(15, ResourcePriority::Normal), &available, &reputation).is_valid);
    assert!(!validate_cross_cooperative_allocation(&requester, &spec(25, ResourcePriority::Normal), &available, &reputation).is_valid);
    assert!(!validate_cross_cooperative_allocation(&requester, &spec(5, ResourcePriority::Critical), &available, &reputation).is_valid);
    let warned = validate_cross_cooperative_allocation(&requester, &spec(15, ResourcePriority::High), &available, &reputation);
    assert!(warned.is_valid);
    assert_eq!(warned.warnings.len(), 2);
}

#[test]
fn mana_spend_messages_and_warnings() {
    let alice = did("did:key:alice");
    let mut ledger = FileManaLedger::new("m");
    ledger.set_balance(&alice, 150).unwrap();
    let zero = validate_mana_spend(&ledger, &alice, 0, &context(&alice, 0, false));
    assert_eq!(zero.error_message.unwrap(), "Amount must be greater than zero");
    assert_eq!(zero.checks_performed, vec!["amount_validation".to_string()]);
    let short = validate_mana_spend(&ledger, &alice, 140, &context(&alice, 140, true));
    assert_eq!(short.error_message.unwrap(), "Insufficient mana: available=150, required=154 (including fees)");
    let ok = validate_mana_spend(&ledger, &alice, 100, &context(&alice, 100, false));
    assert!(ok.is_valid);
    assert_eq!(
        ok.warnings,
        vec![
            "Low balance warning: 50 mana remaining after operation".to_string(),
            "Large spend detected: spending more than 50% of balance".to_string(),
        ]
    );
    assert_eq!(ok.checks_performed.len(), 5);
    assert_eq!(ok.checks_performed[4], "large_spend_warning");
    let mut rich = FileManaLedger::new("m");
    rich.set_balance(&alice, 1_000_000).unwrap();
    let over = validate_mana_spend(&rich, &alice, 1001, &context(&alice, 1001, false));
    assert_eq!(over.error_message.unwrap(), "Amount 1001 exceeds maximum spend limit 1000");
}

#[test]
fn token_transfer_messages_and_warnings() {
    let issuer = did("did:key:issuer");
    let a = did("did:key:a");
    let b = did("did:key:b");
    let mut ledger = FileResourceLedger::new("r");
    let class = TokenClass::new_fungible("C".to_string(), "d".to_string(), "C".to_string(), 0, issuer.clone());
    ledger.create_class(&"c".to_string(), class).unwrap();
    ledger.mint(&"c".to_string(), &a, 10).unwrap();
    let ctx = context(&a, 5, true);
    let msg = |r: icn_economics::policy::ValidationResult| r.error_message.unwrap();
    assert_eq!(msg(validate_token_transfer_at(&ledger, "c", &a, &b, 0, &ctx, 1)), "Transfer amount must be greater than zero");
    assert_eq!(msg(validate_token_transfer_at(&ledger, "c", &a, &a, 5, &ctx, 1)), "Cannot transfer to self");
    assert_eq!(msg(validate_token_transfer_at(&ledger, "x", &a, &b, 5, &ctx, 1)), "Token class 'x' not found");
    assert_eq!(
        msg(validate_token_transfer(&ledger, "c", &a, &b, 11, &ctx)),
        "Insufficient token balance: available=10, required=11"
    );
    let ok = validate_token_transfer(&ledger, "c", &a, &b, 6, &ctx);
    assert!(ok.is_valid);
    assert_eq!(
        ok.warnings,
        vec![
            "Large transfer: more than 50% of sender's balance".to_string(),
            "Cross-cooperative transfer detected".to_string(),
        ]
    );
    assert_eq!(ok.checks_performed.len(), 8);
    assert_eq!(ok.checks_performed[7], "cross_cooperative_check");
}

#[test]
fn settlement_messages_and_warnings() {
    let seller = did("did:key:seller");
    let buyer = did("did:key:buyer");
    let mut tokens = FileResourceLedger::new("r");
    let class = TokenClass::new_fungible("P".to_string(), "d".to_string(), "P".to_string(), 0, seller.clone());
    tokens.create_class(&"pay".to_string(), class).unwrap();
    tokens.mint(&"pay".to_string(), &buyer, 50_000).unwrap();
    let mut mana = FileManaLedger::new("m");
    let offer = MarketplaceOffer::new_physical_good(
        "o1".to_string(), seller.clone(), "d".to_string(), "c".to_string(), "new".to_string(), 10, 1000, "pay".to_string(),
    );
    let bid = MarketplaceBid::new_bid("b1".to_string(), buyer.clone(), "o1".to_string(), 10, 1250, "pay".to_string(), 24);
    let no_mana = validate_marketplace_transaction(&offer, &bid, &tokens, &mana);
    assert_eq!(
        no_mana.error_message.unwrap(),
        "Buyer has insufficient mana for transaction fee: available=0, required=1"
    );
    mana.set_balance(&buyer, 10).unwrap();
    let ok = validate_marketplace_transaction(&offer, &bid, &tokens, &mana);
    assert!(ok.is_valid);
    assert_eq!(
        ok.warnings,
        vec![
            "Bid price is 25.0% above asking price".to_string(),
            "Large transaction detected: 12500 tokens".to_string(),
        ]
    );
    let other = MarketplaceBid::new_bid("b2".to_string(), buyer.clone(), "o2".to_string(), 1, 1000, "pay".to_string(), 24);
    assert_eq!(validate_marketplace_transaction(&offer, &other, &tokens, &mana).error_message.unwrap(), "Bid does not match offer");
    let big = MarketplaceBid::new_bid("b3".to_string(), buyer.clone(), "o1".to_string(), 11, 1000, "pay".to_string(), 24);
    assert_eq!(
        validate_marketplace_transaction(&offer, &big, &tokens, &mana).error_message.unwrap(),
        "Bid quantity exceeds available quantity"
    );
}

#[test]
fn allocation_messages_and_warnings() {
    let requester = did("did:key:req");
    let mut reputation = InMemoryReputationStore::new();
    reputation.set_score(requester.clone(), 50);
    let available = vec![("cpu".to_string(), 20u64)];
    let spec = |amount: u64, priority: ResourcePriority, duration: Option<u64>| ResourceSpec {
        resource_type: "cpu".to_string(),
        amount,
        duration,
        priority,
        requirements: Vec::new(),
    };
    let short = validate_cross_cooperative_allocation(&requester, &spec(25, ResourcePriority::Normal, None), &available, &reputation);
    assert_eq!(short.error_message.unwrap(), "Insufficient resources: available=20, requested=25");
    let critical = validate_cross_cooperative_allocation(&requester, &spec(5, ResourcePriority::Critical, None), &available, &reputation);
    assert_eq!(critical.error_message.unwrap(), "Insufficient reputation for critical priority: required=80, actual=50");
    let warned = validate_cross_cooperative_allocation(&requester, &spec(15, ResourcePriority::High, Some(90_000)), &available, &reputation);
    assert_eq!(
        warned.warnings,
        vec![
            "Low reputation for high priority request: 50".to_string(),
            "Long duration allocation requested (>24 hours)".to_string(),
            "High resource utilization: 75.0% of available resources".to_string(),
        ]
    );
    assert_eq!(warned.checks_performed[3], "utilization_efficiency");
}
