use icn_economics::automation::{
    begin_allocation_execution, confiscate_tokens, enforce_balance_bound, execute_bounded_allocation,
    execute_plan_allocations, reputation_penalty_failures, AllocationStatus, AllocationTally, BalanceBound,
    BoundedAllocation,
    EconomicAutomationEngine, EconomicPenalty, PenaltyType,
};
use icn_economics::did::Did;
use icn_economics::error::CommonError;
use icn_economics::mana_ledger::{FileManaLedger, ManaLedger};
use icn_economics::reputation::{InMemoryReputationStore, ReputationStore};
use icn_economics::resource_ledger::{FileResourceLedger, ResourceLedger, TokenClass};

fn did(s: &str) -> Did {
    Did::from_str(s).unwrap()
}

fn penalty(kind: PenaltyType, severity_permille: u32, amount: Option<u64>, restrictions: Vec<String>) -> EconomicPenalty {
    EconomicPenalty { penalty_type: kind, severity_permille, duration_secs: Some(3600), amount, restrictions }
}

fn engine() -> EconomicAutomationEngine<FileManaLedger, FileResourceLedger, InMemoryReputationStore> {
    EconomicAutomationEngine::new(FileManaLedger::new("m"), FileResourceLedger::new("r"), InMemoryReputationStore::new())
}

#[test]
fn mana_penalty_spends_the_amount() {
    let mut e = engine();
    let v = did("did:key:v");
    let mut mana = FileManaLedger::new("m");
    mana.set_balance(&v, 500).unwrap();
    let mut e2 = EconomicAutomationEngine::new(mana, FileResourceLedger::new("r"), InMemoryReputationStore::new());
    e2.apply_economic_penalty_at(&v, &penalty(PenaltyType::ManaPenalty, 500, Some(100), Vec::new()), 10).unwrap();
    assert_eq!(e2.mana_ledger().get_balance(&v), 400);
    assert!(e.apply_economic_penalty_at(&v, &penalty(PenaltyType::ManaPenalty, 500, Some(100), Vec::new()), 10).is_err());
}

#[test]
fn restriction_penalty_restricts_general_resources_by_severity() {
    let mut e = engine();
    let v = did("did:key:v");
    e.apply_economic_penalty_at(&v, &penalty(PenaltyType::ResourceRestriction, 600, None, Vec::new()), 10).unwrap();
    let t = e.resource_restrictions();
    assert!(t.is_restricted(&v, &"compute".to_string()));
    assert!(t.is_restricted(&v, &"storage".to_string()));
    assert!(!t.is_restricted(&v, &"network".to_string()));
}

#[test]
fn restriction_penalty_uses_named_resources() {
    let mut e = engine();
    let v = did("did:key:v");
    let p = penalty(PenaltyType::ResourceRestriction, 900, None, vec!["market_participation".to_string()]);
    e.apply_economic_penalty_at(&v, &p, 10).unwrap();
    assert!(e.resource_restrictions().is_restricted(&v, &"market_participation".to_string()));
    assert!(!e.resource_restrictions().is_restricted(&v, &"compute".to_string()));
}

#[test]
fn warning_changes_nothing() {
    let mut e = engine();
    let v = did("did:key:v");
    e.apply_economic_penalty_at(&v, &penalty(PenaltyType::Warning, 100, None, Vec::new()), 10).unwrap();
    assert!(!e.resource_restrictions().is_restricted(&v, &"compute".to_string()));
}

#[test]
fn reputation_penalty_failure_counts() {
    assert_eq!(reputation_penalty_failures(&penalty(PenaltyType::ReputationPenalty, 0, Some(50), Vec::new()), 100), 5);
    assert_eq!(reputation_penalty_failures(&penalty(PenaltyType::ReputationPenalty, 0, Some(50), Vec::new()), 20), 2);
    assert_eq!(reputation_penalty_failures(&penalty(PenaltyType::ReputationPenalty, 0, Some(5), Vec::new()), 20), 1);
    assert_eq!(reputation_penalty_failures(&penalty(PenaltyType::ReputationPenalty, 750, None, Vec::new()), 20), 7);
    assert_eq!(reputation_penalty_failures(&penalty(PenaltyType::ReputationPenalty, 5000, None, Vec::new()), 20), 10);
}

#[test]
fn reputation_penalty_lowers_the_score() {
    let v = did("did:key:v");
    let mut rep = InMemoryReputationStore::new();
    rep.set_score(v.clone(), 10);
    let mut e = EconomicAutomationEngine::new(FileManaLedger::new("m"), FileResourceLedger::new("r"), rep);
    e.apply_economic_penalty_at(&v, &penalty(PenaltyType::ReputationPenalty, 0, Some(30), Vec::new()), 10).unwrap();
    assert_eq!(e.reputation_store().get_reputation(&v), 9);
}

#[test]
fn confiscation_takes_class_by_class() {
    let issuer = did("did:key:issuer");
    let v = did("did:key:v");
    let treasury = did("did:icn:treasury");
    let mut ledger = FileResourceLedger::new("r");
    for id in ["a", "b"] {
        let class = TokenClass::new_fungible(id.to_string(), "d".to_string(), id.to_string(), 0, issuer.clone());
        ledger.create_class(&id.to_string(), class).unwrap();
    }
    ledger.mint(&"a".to_string(), &v, 30).unwrap();
    ledger.mint(&"b".to_string(), &v, 30).unwrap();
    let classes = ledger.list_classes();
    let taken = confiscate_tokens(&mut ledger, &classes, &v, &treasury, 45).unwrap();
    assert_eq!(taken, 45);
    assert_eq!(ledger.get_balance(&"a".to_string(), &v) + ledger.get_balance(&"b".to_string(), &v), 15);
    assert_eq!(ledger.get_balance(&"a".to_string(), &treasury) + ledger.get_balance(&"b".to_string(), &treasury), 45);
}

#[test]
fn allocation_execution_needs_a_ready_plan() {
    let mut s = AllocationStatus::Ready;
    begin_allocation_execution("p1", &mut s).unwrap();
    assert!(matches!(s, AllocationStatus::Executing));
    let mut done = AllocationStatus::Completed;
    let r = begin_allocation_execution("p2", &mut done);
    assert!(matches!(r, Err(CommonError::InvalidInputError(_))));
    assert!(matches!(done, AllocationStatus::Completed));
}

#[test]
fn tally_reports_the_final_status() {
    let mut t = AllocationTally::new();
    t.record_success(10);
    t.record_failure(&did("did:key:x"), "no funds".to_string());
    assert!(matches!(t.final_status(), AllocationStatus::PartiallyCompleted { successful: 1, failed: 1 }));
    let r = t.finish("plan", std::time::Duration::from_secs(2));
    assert_eq!(r.total_allocated, 10);
    assert_eq!(r.successful_allocations, 1);
    assert_eq!(r.failed_allocations, 1);
    let mut only_failures = AllocationTally::new();
    only_failures.record_failure(&did("did:key:x"), "e".to_string());
    assert!(matches!(only_failures.final_status(), AllocationStatus::Failed { .. }));
    assert!(matches!(AllocationTally::new().final_status(), AllocationStatus::Completed));
}

#[test]
fn failed_plan_lists_its_failures() {
    let mut t = AllocationTally::new();
    t.record_failure(&did("did:key:x"), "no funds".to_string());
    t.record_failure(&did("did:key:y"), "refused".to_string());
    match t.final_status() {
        AllocationStatus::Failed { reason } => assert_eq!(
            reason,
            "All allocations failed: [(did:key:x, \"no funds\"), (did:key:y, \"refused\")]"
        ),
        _ => panic!("expected a failed plan"),
    }
}

#[test]
fn bounded_allocation_is_clamped_validated_and_credited() {
    let r = did("did:key:r");
    let mut mana = FileManaLedger::new("m");
    mana.set_balance(&r, 500).unwrap();
    assert_eq!(execute_bounded_allocation(&mut mana, &r, 5, 20, 100).unwrap(), 20);
    assert_eq!(mana.get_balance(&r), 520);
    assert_eq!(execute_bounded_allocation(&mut mana, &r, 400, 20, 100).unwrap(), 100);
    assert_eq!(mana.get_balance(&r), 620);
    let poor = did("did:key:poor");
    let refused = execute_bounded_allocation(&mut mana, &poor, 50, 0, 100);
    assert!(matches!(refused, Err(CommonError::PolicyDenied(_))));
    assert_eq!(mana.get_balance(&poor), 0);
}

#[test]
fn test_economic_penalty() {
    let penalty = EconomicPenalty {
        penalty_type: PenaltyType::ManaPenalty,
        severity_permille: 500,
        duration_secs: Some(3600),
        amount: Some(100),
        restrictions: vec!["market_participation".to_string()],
    };
    assert!(matches!(penalty.penalty_type, PenaltyType::ManaPenalty));
    assert_eq!(penalty.severity_permille as f64 / 1000.0, 0.5);
    assert_eq!(penalty.amount, Some(100));
}

#[test]
fn reputation_penalty_records_a_fixed_count_of_failures() {
    let v = did("did:key:v");
    let mut rep = InMemoryReputationStore::new();
    rep.set_score(v.clone(), 50);
    let mut e = EconomicAutomationEngine::new(FileManaLedger::new("m"), FileResourceLedger::new("r"), rep);
    e.apply_economic_penalty(&v, &penalty(PenaltyType::ReputationPenalty, 0, Some(25), Vec::new())).unwrap();
    assert_eq!(e.reputation_store().get_reputation(&v), 48);
    e.apply_economic_penalty(&v, &penalty(PenaltyType::ReputationPenalty, 0, Some(5), Vec::new())).unwrap();
    assert_eq!(e.reputation_store().get_reputation(&v), 47);
    e.apply_economic_penalty(&v, &penalty(PenaltyType::ReputationPenalty, 300, None, Vec::new())).unwrap();
    assert_eq!(e.reputation_store().get_reputation(&v), 44);
}

fn two_class_ledger(v: &Did) -> FileResourceLedger {
    let issuer = did("did:key:issuer");
    let mut ledger = FileResourceLedger::new("r");
    for id in ["a", "b"] {
        let class = TokenClass::new_fungible(id.to_string(), "d".to_string(), id.to_string(), 0, issuer.clone());
        ledger.create_class(&id.to_string(), class).unwrap();
    }
    ledger.mint(&"a".to_string(), v, 30).unwrap();
    ledger.mint(&"b".to_string(), v, 30).unwrap();
    ledger
}

#[test]
fn confiscation_penalty_follows_the_class_listing() {
    let v = did("did:icn:violator");
    let treasury = did("did:icn:treasury");
    let mut e = EconomicAutomationEngine::new(FileManaLedger::new("m"), two_class_ledger(&v), InMemoryReputationStore::new());
    e.apply_economic_penalty(&v, &penalty(PenaltyType::TokenConfiscation, 500, Some(40), Vec::new())).unwrap();
    let rl = e.resource_ledger();
    assert_eq!(rl.get_balance(&"a".to_string(), &v), 0);
    assert_eq!(rl.get_balance(&"b".to_string(), &v), 20);
    assert_eq!(rl.get_balance(&"a".to_string(), &treasury), 30);
    assert_eq!(rl.get_balance(&"b".to_string(), &treasury), 10);
}

#[test]
fn confiscation_against_the_treasury_is_refused() {
    let treasury = did("did:icn:treasury");
    let mut e = EconomicAutomationEngine::new(FileManaLedger::new("m"), two_class_ledger(&treasury), InMemoryReputationStore::new());
    let r = e.apply_economic_penalty(&treasury, &penalty(PenaltyType::TokenConfiscation, 500, Some(40), Vec::new()));
    assert!(matches!(r, Err(CommonError::InternalError(_))));
    assert_eq!(e.resource_ledger().get_balance(&"a".to_string(), &treasury), 30);
    assert_eq!(e.resource_ledger().get_balance(&"b".to_string(), &treasury), 30);
}

#[test]
fn market_ban_and_mana_penalty_by_the_clock() {
    let v = did("did:key:v");
    let mut mana = FileManaLedger::new("m");
    mana.set_balance(&v, 500).unwrap();
    let mut e = EconomicAutomationEngine::new(mana, FileResourceLedger::new("r"), InMemoryReputationStore::new());
    e.apply_economic_penalty(&v, &penalty(PenaltyType::MarketBan, 900, None, Vec::new())).unwrap();
    assert_eq!(e.mana_ledger().get_balance(&v), 500);
    e.apply_economic_penalty(&v, &penalty(PenaltyType::ManaPenalty, 500, Some(120), Vec::new())).unwrap();
    assert_eq!(e.mana_ledger().get_balance(&v), 380);
}

#[test]
fn plan_allocations_run_in_order_and_are_tallied() {
    let a = did("did:key:a");
    let b = did("did:key:b");
    let mut mana = FileManaLedger::new("m");
    mana.set_balance(&a, 500).unwrap();
    let allocations = vec![
        BoundedAllocation { recipient: a.clone(), proposed: 5, min_allocation: 20, max_allocation: 100 },
        BoundedAllocation { recipient: b.clone(), proposed: 50, min_allocation: 0, max_allocation: 100 },
        BoundedAllocation { recipient: a.clone(), proposed: 400, min_allocation: 20, max_allocation: 100 },
    ];
    let mut tally = AllocationTally::new();
    let outcomes = execute_plan_allocations(&mut mana, &allocations, &mut tally);
    assert_eq!(outcomes, vec![Some(20), None, Some(100)]);
    assert_eq!(mana.get_balance(&a), 620);
    assert_eq!(mana.get_balance(&b), 0);
    assert!(matches!(tally.final_status(), AllocationStatus::PartiallyCompleted { successful: 2, failed: 1 }));
    let r = tally.finish("plan", std::time::Duration::from_secs(1));
    assert_eq!(r.total_allocated, 120);
}

#[test]
fn balance_bounds_top_up_and_cut_down() {
    let a = did("did:key:a");
    let b = did("did:key:b");
    let mut mana = FileManaLedger::new("m");
    mana.set_balance(&a, 10).unwrap();
    mana.set_balance(&b, 500).unwrap();
    enforce_balance_bound(&mut mana, BalanceBound::Minimum(100)).unwrap();
    assert_eq!(mana.get_balance(&a), 100);
    assert_eq!(mana.get_balance(&b), 500);
    enforce_balance_bound(&mut mana, BalanceBound::Maximum(200)).unwrap();
    assert_eq!(mana.get_balance(&a), 100);
    assert_eq!(mana.get_balance(&b), 200);
    let unknown = did("did:key:unknown");
    assert_eq!(mana.get_balance(&unknown), 0);
}
