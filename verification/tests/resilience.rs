use icn_economics::did::Did;
use icn_economics::error::CommonError;
use icn_economics::emergency::EmergencyProtocol;
use icn_economics::mana_ledger::FileManaLedger;
use icn_economics::resilience::{
    AdversarialResilientEconomics, AntiGamingDetector, AttackType, ByzantineValidator, IntegrityMonitor,
};

fn did(s: &str) -> Did {
    Did::from_str(s).unwrap()
}

fn signature() -> Vec<u8> {
    vec![0u8; 64]
}

fn funded_ledger(account: &Did, amount: u64) -> FileManaLedger {
    let mut ledger = FileManaLedger::new("memory");
    ledger.set_balance(account, amount).unwrap();
    ledger
}

#[test]
fn test_byzantine_validator_creation() {
    let validators = vec![
        did("did:test:validator1"),
        did("did:test:validator2"),
        did("did:test:validator3"),
    ];
    let validator = ByzantineValidator::new(validators);
    assert_eq!(validator.required_confirmations(), 3);
}

#[test]
fn test_anti_gaming_detector_velocity() {
    let mut detector = AntiGamingDetector::new();
    let user = did("did:test:user");
    for _ in 0..100 {
        let _ = detector.analyze_operation(&user, 1000, "spend".to_string());
    }
    let _detections = detector.analyze_operation(&user, 1000, "spend".to_string()).unwrap();
}

#[test]
fn test_adversarial_resilient_economics() {
    let user = did("did:test:user");
    let ledger = funded_ledger(&user, 100);
    let validators = vec![did("did:test:validator1")];
    let mut are = AdversarialResilientEconomics::new(ledger, validators);
    let result = are.validated_spend(
        &user,
        100,
        "test_op_1".to_string(),
        vec![(did("did:test:validator1"), signature())],
    );
    assert!(result.is_ok());
}

#[test]
fn quorum_counts_distinct_validators() {
    assert_eq!(ByzantineValidator::new(vec![]).required_confirmations(), 1);
    let twice = vec![did("did:test:a"), did("did:test:a"), did("did:test:b")];
    assert_eq!(ByzantineValidator::new(twice).required_confirmations(), 2);
    let ten: Vec<Did> = (0..10).map(|i| did(&format!("did:test:v{}", i))).collect();
    assert_eq!(ByzantineValidator::new(ten).required_confirmations(), 7);
}

#[test]
fn validation_needs_enough_valid_signatures() {
    let mut v = ByzantineValidator::new(vec![did("did:test:a"), did("did:test:b"), did("did:test:c")]);
    // Too few signatures: refused, nothing recorded.
    let r = v.validate_operation_at("op1".to_string(), b"data", vec![(did("did:test:a"), signature())], 10);
    assert_eq!(r.unwrap(), false);
    assert!(v.get_validation_history("op1").is_none());
    // An unknown validator and a short signature do not count.
    let sigs = vec![
        (did("did:test:a"), signature()),
        (did("did:test:x"), signature()),
        (did("did:test:b"), vec![1u8; 10]),
    ];
    let r = v.validate_operation_at("op2".to_string(), b"data", sigs, 20);
    assert_eq!(r.unwrap(), false);
    let history = v.get_validation_history("op2").unwrap();
    assert_eq!(history.len(), 2);
    assert!(history[0].valid);
    assert!(!history[1].valid);
    assert_eq!(history[1].timestamp, 20);
    // Three valid signatures by known validators: accepted, history replaced.
    let sigs = vec![
        (did("did:test:a"), signature()),
        (did("did:test:b"), signature()),
        (did("did:test:c"), signature()),
    ];
    assert_eq!(v.validate_operation_at("op2".to_string(), b"data", sigs, 30).unwrap(), true);
    let history = v.get_validation_history("op2").unwrap();
    assert_eq!(history.len(), 3);
    assert!(history.iter().all(|r| r.valid && r.timestamp == 30));
}

#[test]
fn velocity_attack_is_reported() {
    let mut detector = AntiGamingDetector::new();
    let user = did("did:test:fast");
    assert!(detector.analyze_operation_at(&user, 5000, "spend".to_string(), 1000).unwrap().is_empty());
    let found = detector.analyze_operation_at(&user, 5000, "spend".to_string(), 1002).unwrap();
    assert_eq!(found.len(), 1);
    let d = &found[0];
    assert_eq!(d.confidence_permille, 800);
    assert_eq!(d.timestamp, 1002);
    assert_eq!(d.affected_accounts, vec![user.clone()]);
    match &d.attack_type {
        AttackType::VelocityAttack { amount, seconds, threshold } => {
            assert_eq!((*amount, *seconds, *threshold), (10000, 2, 1000));
        }
        _ => panic!("expected a velocity attack"),
    }
    assert_eq!(d.attack_type.describe(), "VelocityAttack { amount: 10000, seconds: 2, threshold: 1000 }");
    match &d.recommended_response {
        EmergencyProtocol::AccountFreeze { accounts } => assert_eq!(accounts, &vec![user.clone()]),
        _ => panic!("expected an account freeze"),
    }
}

#[test]
fn slow_or_old_operations_are_no_attack() {
    let mut detector = AntiGamingDetector::new();
    let user = did("did:test:slow");
    assert!(detector.analyze_operation_at(&user, 1000, "spend".to_string(), 100).unwrap().is_empty());
    // 2000 over 2 seconds is exactly the highest velocity: no attack.
    assert!(detector.analyze_operation_at(&user, 1000, "spend".to_string(), 102).unwrap().is_empty());
    // An hour later the earlier operations have left the window.
    assert!(detector.analyze_operation_at(&user, 9000, "spend".to_string(), 4000).unwrap().is_empty());
}

#[test]
fn interactions_are_counted() {
    let mut detector = AntiGamingDetector::new();
    let a = did("did:test:a");
    let b = did("did:test:b");
    assert_eq!(detector.interaction_count(&a, &b), 0);
    detector.record_interaction(&a, &b);
    detector.record_interaction(&a, &b);
    assert_eq!(detector.interaction_count(&a, &b), 2);
    assert_eq!(detector.interaction_count(&b, &a), 0);
    assert!(detector.detect_sybil_attack(&[a, b]).is_none());
}

#[test]
fn second_attempt_is_a_double_spend() {
    let mut monitor = IntegrityMonitor::new();
    assert!(!monitor.check_double_spend("op".to_string(), did("did:test:a")));
    assert!(monitor.check_double_spend("op".to_string(), did("did:test:a")));
    assert!(!monitor.check_double_spend("op".to_string(), did("did:test:b")));
    assert!(!monitor.check_double_spend("other".to_string(), did("did:test:a")));
    monitor.record_balance_inconsistency(did("did:test:a"), 10, 5);
}

#[test]
fn guarded_operations_refuse_and_freeze() {
    let user = did("did:test:user");
    let v1 = did("did:test:v1");
    let ledger = funded_ledger(&user, 100_000);
    let mut are = AdversarialResilientEconomics::new(ledger, vec![v1.clone()]);
    // Without a valid signature the operation is refused.
    let r = are.validated_spend_at(&user, 10, "op0".to_string(), vec![(v1.clone(), vec![0u8; 8])], 500);
    assert!(matches!(r, Err(CommonError::PolicyDenied(ref m)) if m == "Byzantine validation failed"));
    assert_eq!(are.ledger().get_balance(&user), 100_000);
    // A credit goes through.
    are.validated_credit_at(&user, 50, "op1".to_string(), vec![(v1.clone(), signature())], 500).unwrap();
    assert_eq!(are.ledger().get_balance(&user), 100_050);
    // Moving 5050 within 2 seconds is an attack: refused and the account frozen.
    let r = are.validated_spend_at(&user, 5000, "op2".to_string(), vec![(v1.clone(), signature())], 502);
    match r {
        Err(CommonError::PolicyDenied(m)) => {
            assert_eq!(m, "Attack detected: VelocityAttack { amount: 5050, seconds: 2, threshold: 1000 }")
        }
        other => panic!("unexpected {:?}", other),
    }
    assert_eq!(are.ledger().get_balance(&user), 100_050);
    // The frozen account can no longer operate.
    let r = are.validated_credit_at(&user, 1, "op3".to_string(), vec![(v1.clone(), signature())], 9000);
    assert!(matches!(r, Err(CommonError::PolicyDenied(ref m)) if m == "Operation blocked by emergency protocols"));
    assert!(are.get_active_detections().is_empty());
}

#[test]
fn ledger_refusal_is_passed_on() {
    let user = did("did:test:poor");
    let v1 = did("did:test:v1");
    let mut are = AdversarialResilientEconomics::new(funded_ledger(&user, 5), vec![v1.clone()]);
    let r = are.validated_spend_at(&user, 10, "op".to_string(), vec![(v1, signature())], 1);
    assert!(r.is_err());
    assert_eq!(are.ledger().get_balance(&user), 5);
}
