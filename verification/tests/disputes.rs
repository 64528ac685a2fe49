use icn_economics::did::Did;
use icn_economics::disputes::{
    BalanceAdjustment, Compensation, CompensationType, DisputeSeverity, EconomicDispute, EconomicDisputeConfig,
    EconomicDisputeResolver, EconomicDisputeType, EconomicEvidence, EconomicResolution, EconomicResolutionStatus,
    ManaTransaction, TransactionType,
};
use icn_economics::error::CommonError;
use icn_economics::mana_ledger::{FileManaLedger, ManaLedger};
use icn_economics::resource_ledger::FileResourceLedger;

fn default_did() -> Did {
    Did::from_str("did:key:default").unwrap()
}

fn tx(id: &str, did: &Did, amount: i64, timestamp: u64) -> ManaTransaction {
    ManaTransaction {
        transaction_id: id.to_string(),
        did: did.clone(),
        amount,
        transaction_type: TransactionType::ManaTransfer,
        timestamp,
        context: Vec::new(),
    }
}

fn mana_dispute(id: &str, amount: u64) -> EconomicDispute {
    EconomicDispute {
        dispute_id: id.to_string(),
        dispute_type: EconomicDisputeType::ManaDispute,
        parties: vec![default_did()],
        disputed_amount: Some(amount),
        disputed_asset: "mana".to_string(),
        filed_at: 1000,
        resolution_status: EconomicResolutionStatus::Filed,
        evidence: vec![EconomicEvidence::BalanceDiscrepancy {
            account: default_did(),
            expected_balance: 100,
            actual_balance: 50,
            asset_type: "mana".to_string(),
        }],
        description: "Test dispute".to_string(),
        severity: DisputeSeverity::Medium,
        scope: None,
    }
}

#[test]
fn test_economic_dispute_resolver_creation() {
    let config = EconomicDisputeConfig::default();
    let resolver = EconomicDisputeResolver::new(config);
    assert_eq!(resolver.get_active_disputes().len(), 0);
    assert_eq!(resolver.get_resolution_history().len(), 0);
}

#[test]
fn test_file_dispute() {
    let mut resolver = EconomicDisputeResolver::new(EconomicDisputeConfig::default());
    let dispute = mana_dispute("test_dispute", 100);
    let result = resolver.file_dispute(dispute).unwrap();
    assert_eq!(result, "test_dispute");
    assert_eq!(resolver.get_active_disputes().len(), 1);
}

#[test]
fn test_auto_resolution() {
    let mut resolver = EconomicDisputeResolver::new(EconomicDisputeConfig::default());
    let dispute = EconomicDispute {
        dispute_id: "auto_resolve_test".to_string(),
        dispute_type: EconomicDisputeType::TokenTransferDispute,
        parties: vec![default_did()],
        disputed_amount: Some(5),
        disputed_asset: "test_token".to_string(),
        filed_at: 1000,
        resolution_status: EconomicResolutionStatus::Filed,
        evidence: vec![EconomicEvidence::TransactionRecords { transactions: vec!["tx1".to_string()] }],
        description: "Small dispute".to_string(),
        severity: DisputeSeverity::Low,
        scope: None,
    };
    let result = resolver.file_dispute(dispute).unwrap();
    assert_eq!(result, "auto_resolve_test");
    assert_eq!(resolver.get_active_disputes().len(), 0);
    assert_eq!(resolver.get_resolution_history().len(), 1);
}

#[test]
fn test_double_spending_detection() {
    let resolver = EconomicDisputeResolver::new(EconomicDisputeConfig::default());
    let ledger = FileManaLedger::new("memory");
    let transactions = vec![tx("tx1", &default_did(), -100, 1000), tx("tx2", &default_did(), -100, 1000)];
    let disputes = resolver.detect_double_spending(&ledger, &transactions).unwrap();
    assert_eq!(disputes.len(), 1);
    assert_eq!(disputes[0].dispute_type, EconomicDisputeType::DoubleSpending);
}

#[test]
fn test_balance_discrepancy_detection() {
    let resolver = EconomicDisputeResolver::new(EconomicDisputeConfig::default());
    let mut ledger = FileManaLedger::new("memory");
    let test_did = default_did();

    ledger.set_balance(&test_did, 50).unwrap();
    let transactions = vec![tx("tx1", &test_did, -200, 1000)];
    let disputes = resolver.detect_balance_discrepancies(&ledger, &transactions).unwrap();
    assert_eq!(disputes.len(), 1);
    assert_eq!(disputes[0].dispute_type, EconomicDisputeType::ManaDispute);
    assert!(disputes[0].description.contains("excessive debits"));

    let zero_balance_did = default_did();
    ledger.set_balance(&zero_balance_did, 0).unwrap();
    let transactions2 = vec![tx("tx2", &zero_balance_did, 100, 1000)];
    let disputes2 = resolver.detect_balance_discrepancies(&ledger, &transactions2).unwrap();
    assert_eq!(disputes2.len(), 1);
    assert!(disputes2[0].description.contains("zero balance but recent transactions"));

    let high_balance_did = default_did();
    ledger.set_balance(&high_balance_did, 100).unwrap();
    let transactions3 = vec![tx("tx3", &high_balance_did, -300, 1000)];
    let disputes3 = resolver.detect_balance_discrepancies(&ledger, &transactions3).unwrap();
    assert_eq!(disputes3.len(), 1);
    assert!(disputes3[0].description.contains("Excessive negative transaction flow"));
}

#[test]
fn balance_discrepancy_patterns() {
    let resolver = EconomicDisputeResolver::new(EconomicDisputeConfig::default());
    let mut ledger = FileManaLedger::new("memory");
    let test_did = default_did();

    ledger.set_balance(&test_did, 50).unwrap();
    let transactions = vec![tx("tx1", &test_did, -200, 1000)];
    let disputes = resolver.detect_balance_discrepancies_at(&ledger, &transactions, 5).unwrap();
    assert_eq!(disputes.len(), 1);
    assert_eq!(disputes[0].dispute_type, EconomicDisputeType::ManaDispute);
    assert_eq!(disputes[0].dispute_id, "excessive_debits_did:key:default_5");
    assert_eq!(
        disputes[0].description,
        "Suspicious transaction pattern (excessive debits): total debits (200) exceed reasonable balance limit for account with balance 50"
    );
    assert_eq!(disputes[0].disputed_amount, Some(150));
    assert_eq!(disputes[0].severity, DisputeSeverity::High);

    ledger.set_balance(&test_did, 0).unwrap();
    let transactions2 = vec![tx("tx2", &test_did, 100, 1000)];
    let disputes2 = resolver.detect_balance_discrepancies_at(&ledger, &transactions2, 6).unwrap();
    assert_eq!(disputes2.len(), 1);
    assert!(disputes2[0].description.contains("zero balance but recent transactions"));
    assert_eq!(disputes2[0].severity, DisputeSeverity::Medium);

    ledger.set_balance(&test_did, 50).unwrap();
    let transactions3 = vec![tx("tx3", &test_did, -120, 1000)];
    let disputes3 = resolver.detect_balance_discrepancies_at(&ledger, &transactions3, 7).unwrap();
    assert_eq!(disputes3.len(), 1);
    assert_eq!(
        disputes3[0].description,
        "Excessive negative transaction flow: 120 debits for account with balance 50"
    );
    assert_eq!(disputes3[0].disputed_amount, Some(120));

    let quiet = vec![tx("tx4", &test_did, -20, 1000), tx("tx5", &test_did, 30, 1001)];
    assert!(resolver.detect_balance_discrepancies_at(&ledger, &quiet, 8).unwrap().is_empty());
}

#[test]
fn clock_dated_detection_uses_the_current_time() {
    let resolver = EconomicDisputeResolver::new(EconomicDisputeConfig::default());
    let ledger = FileManaLedger::new("memory");
    let transactions = vec![tx("tx1", &default_did(), -100, 1000), tx("tx2", &default_did(), -100, 1000)];
    let disputes = resolver.detect_double_spending(&ledger, &transactions).unwrap();
    assert!(disputes[0].filed_at > 1_600_000_000);
    assert_eq!(disputes[0].description, "Potential double spending detected");
}

#[test]
fn test_dispute_resolution() {
    let mut resolver = EconomicDisputeResolver::new(EconomicDisputeConfig::default());
    let authority = default_did();
    resolver.add_economic_authority(authority.clone());
    resolver.file_dispute(mana_dispute("resolve_test", 100)).unwrap();
    let result = resolver.resolve_dispute("resolve_test", &authority).unwrap();
    assert!(matches!(result, EconomicResolutionStatus::Resolved { .. }));
    assert_eq!(resolver.get_active_disputes().len(), 0);
    assert_eq!(resolver.get_resolution_history().len(), 1);
}

#[test]
fn filing_errors_follow_the_validation_order() {
    let mut resolver = EconomicDisputeResolver::new(EconomicDisputeConfig::default());
    let small = mana_dispute("small", 3);
    assert!(matches!(resolver.file_dispute(small), Err(CommonError::PolicyDenied(_))));
    let mut no_parties = mana_dispute("np", 100);
    no_parties.parties = Vec::new();
    assert!(matches!(resolver.file_dispute(no_parties), Err(CommonError::InvalidInputError(_))));
    let mut no_evidence = mana_dispute("ne", 100);
    no_evidence.evidence = Vec::new();
    assert!(matches!(resolver.file_dispute(no_evidence), Err(CommonError::InvalidInputError(_))));
    assert_eq!(resolver.get_active_disputes().len(), 0);
}

#[test]
fn too_many_disputes_for_an_account_are_refused() {
    let mut resolver = EconomicDisputeResolver::new(EconomicDisputeConfig::default());
    for i in 0..5 {
        resolver.file_dispute(mana_dispute(&format!("d{}", i), 100)).unwrap();
    }
    assert!(matches!(resolver.file_dispute(mana_dispute("d5", 100)), Err(CommonError::PolicyDenied(_))));
    assert_eq!(resolver.get_active_disputes().len(), 5);
}

#[test]
fn unauthorized_resolver_is_refused() {
    let mut resolver = EconomicDisputeResolver::new(EconomicDisputeConfig::default());
    resolver.file_dispute(mana_dispute("x", 100)).unwrap();
    let stranger = Did::from_str("did:key:stranger").unwrap();
    assert!(matches!(resolver.resolve_dispute("x", &stranger), Err(CommonError::PolicyDenied(_))));
    assert_eq!(resolver.get_active_disputes().len(), 1);
}

#[test]
fn resolving_an_unknown_dispute_is_not_found() {
    let mut resolver = EconomicDisputeResolver::new(EconomicDisputeConfig::default());
    let authority = default_did();
    resolver.add_economic_authority(authority.clone());
    assert!(matches!(resolver.resolve_dispute("missing", &authority), Err(CommonError::ResourceNotFound(_))));
}

#[test]
fn apply_adjustments_moves_mana_in_order() {
    let resolver = EconomicDisputeResolver::new(EconomicDisputeConfig::default());
    let mut ledger = FileManaLedger::new("memory");
    let resources = FileResourceLedger::new("resources");
    let a = Did::from_str("did:key:a").unwrap();
    let b = Did::from_str("did:key:b").unwrap();
    ledger.set_balance(&a, 100).unwrap();
    ledger.set_balance(&b, 0).unwrap();
    let resolution = EconomicResolution::AdjustBalances {
        adjustments: vec![
            BalanceAdjustment {
                account: a.clone(),
                asset_type: "mana".to_string(),
                adjustment_amount: -40,
                reason: "correction".to_string(),
            },
            BalanceAdjustment {
                account: b.clone(),
                asset_type: "mana".to_string(),
                adjustment_amount: 25,
                reason: "correction".to_string(),
            },
        ],
    };
    resolver.apply_resolution(&resolution, &mut ledger, &resources).unwrap();
    assert_eq!(ledger.get_balance(&a), 60);
    assert_eq!(ledger.get_balance(&b), 25);
}

#[test]
fn apply_adjustment_stops_at_refused_debit() {
    let resolver = EconomicDisputeResolver::new(EconomicDisputeConfig::default());
    let mut ledger = FileManaLedger::new("memory");
    let resources = FileResourceLedger::new("resources");
    let a = Did::from_str("did:key:a").unwrap();
    let b = Did::from_str("did:key:b").unwrap();
    ledger.set_balance(&a, 10).unwrap();
    ledger.set_balance(&b, 0).unwrap();
    let resolution = EconomicResolution::AdjustBalances {
        adjustments: vec![
            BalanceAdjustment {
                account: b.clone(),
                asset_type: "mana".to_string(),
                adjustment_amount: 5,
                reason: "first".to_string(),
            },
            BalanceAdjustment {
                account: a.clone(),
                asset_type: "mana".to_string(),
                adjustment_amount: -50,
                reason: "second".to_string(),
            },
        ],
    };
    assert!(resolver.apply_resolution(&resolution, &mut ledger, &resources).is_err());
    assert_eq!(ledger.get_balance(&b), 5);
    assert_eq!(ledger.get_balance(&a), 10);
}

#[test]
fn apply_compensation_credits_mana_only() {
    let resolver = EconomicDisputeResolver::new(EconomicDisputeConfig::default());
    let mut ledger = FileManaLedger::new("memory");
    let resources = FileResourceLedger::new("resources");
    let a = Did::from_str("did:key:a").unwrap();
    let resolution = EconomicResolution::Compensation {
        compensations: vec![
            Compensation {
                recipient: a.clone(),
                compensation_type: CompensationType::ManaCredit,
                amount: 7,
                reason: "mana".to_string(),
            },
            Compensation {
                recipient: a.clone(),
                compensation_type: CompensationType::TokenCredit { token_class: "t".to_string() },
                amount: 100,
                reason: "tokens".to_string(),
            },
        ],
    };
    resolver.apply_resolution(&resolution, &mut ledger, &resources).unwrap();
    assert_eq!(ledger.get_balance(&a), 7);
}

#[test]
fn detection_is_off_when_disabled() {
    let mut config = EconomicDisputeConfig::default();
    config.auto_detection = false;
    let mut resolver = EconomicDisputeResolver::new(config);
    let ledger = FileManaLedger::new("memory");
    let resources = FileResourceLedger::new("resources");
    let transactions = vec![tx("tx1", &default_did(), -100, 1000), tx("tx2", &default_did(), -100, 1000)];
    let found = resolver.detect_disputes_at(&ledger, &resources, &transactions, Vec::new(), 77).unwrap();
    assert!(found.is_empty());
    assert_eq!(resolver.get_active_disputes().len(), 0);
}

#[test]
fn detection_makes_findings_active() {
    let mut resolver = EconomicDisputeResolver::new(EconomicDisputeConfig::default());
    let ledger = FileManaLedger::new("memory");
    let resources = FileResourceLedger::new("resources");
    let transactions = vec![tx("tx1", &default_did(), -100, 1000), tx("tx2", &default_did(), -100, 1000)];
    let found = resolver.detect_disputes_at(&ledger, &resources, &transactions, Vec::new(), 77).unwrap();
    assert_eq!(found.len(), 2);
    assert_eq!(found[0].dispute_type, EconomicDisputeType::DoubleSpending);
    assert_eq!(found[0].dispute_id, "double_spend_did:key:default_1000_77");
    assert_eq!(found[0].disputed_amount, Some(200));
    assert_eq!(found[1].dispute_type, EconomicDisputeType::ManaDispute);
    assert_eq!(resolver.get_active_disputes().len(), 2);
}

#[test]
fn periodic_tasks_escalate_stale_investigations() {
    let mut resolver = EconomicDisputeResolver::new(EconomicDisputeConfig::default());
    let mut d = mana_dispute("stale", 100);
    d.resolution_status = EconomicResolutionStatus::UnderInvestigation;
    d.filed_at = 0;
    resolver.file_dispute(d).unwrap();
    let timed_out = resolver.process_periodic_tasks_at(172801).unwrap();
    assert_eq!(timed_out, vec!["stale".to_string()]);
    assert!(matches!(
        resolver.get_active_disputes()[0].resolution_status,
        EconomicResolutionStatus::EscalatedToGovernance
    ));
}
