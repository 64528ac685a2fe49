use icn_economics::did::Did;
use icn_economics::mana_ledger::{FileManaLedger, ManaLedger};
use icn_economics::error::CommonError;
use icn_economics::mutual_aid::{
    aid_types_compatible, execute_aid_transfer_at, AidMatch, AidMatchType, AidOffer, AidRequest, AidTransactionStatus,
    AidType, GeographicalScope, MutualAidCoordinator, ReciprocityCommitment, ReciprocityExpectation, UrgencyLevel,
    VerificationStatus,
};

fn clock() -> u64 {
    std::time::SystemTime::now().duration_since(std::time::UNIX_EPOCH).unwrap().as_secs()
}

fn request(id: &str, amount: u64, scope: GeographicalScope) -> AidRequest {
    AidRequest {
        request_id: id.to_string(),
        requester: Did::from_str("did:test:requester").unwrap(),
        aid_type: AidType::Emergency { emergency_type: "food".to_string() },
        urgency_level: UrgencyLevel::High,
        resource_amount: amount,
        description: "Need food assistance".to_string(),
        geographical_scope: scope,
        time_sensitivity: 5000,
        reciprocity_commitment: ReciprocityCommitment::PayItForward,
        verification_status: VerificationStatus::CommunityVerified { verifiers: vec![] },
        created_at: 1000,
    }
}

fn offer(id: &str, amount: u64, reach: GeographicalScope, window: (u64, u64)) -> AidOffer {
    AidOffer {
        offer_id: id.to_string(),
        provider: Did::from_str("did:test:provider").unwrap(),
        aid_type: AidType::Emergency { emergency_type: "food".to_string() },
        available_amount: amount,
        conditions: vec![],
        geographical_reach: reach,
        availability_window: window,
        preferred_recipients: vec![],
        reciprocity_expectations: ReciprocityExpectation::NoneExpected,
        created_at: 1000,
    }
}

#[test]
fn test_mutual_aid_coordinator() {
    let mut coordinator = MutualAidCoordinator::new();
    let now = clock();
    let mut req = request("req_1", 100, GeographicalScope::Local { radius_m: 10_000 });
    req.time_sensitivity = now + 3600;
    req.created_at = now;
    let mut off = offer("off_1", 150, GeographicalScope::Local { radius_m: 20_000 }, (now, now + 7200));
    off.created_at = now;
    coordinator.submit_aid_request(req).unwrap();
    coordinator.submit_aid_offer(off).unwrap();
    let matches = coordinator.match_aid_requests_and_offers();
    assert_eq!(matches.len(), 1);
    assert_eq!(matches[0].recommended_amount, 100);
}

#[test]
fn empty_requests_and_offers_are_refused() {
    let mut coordinator = MutualAidCoordinator::new();
    match coordinator.submit_aid_request(request("r", 0, GeographicalScope::Global)) {
        Err(CommonError::InvalidInputError(m)) => assert_eq!(m, "Resource amount must be greater than zero"),
        other => panic!("unexpected {:?}", other),
    }
    match coordinator.submit_aid_offer(offer("o", 0, GeographicalScope::Global, (0, 10))) {
        Err(CommonError::InvalidInputError(m)) => assert_eq!(m, "Available amount must be greater than zero"),
        other => panic!("unexpected {:?}", other),
    }
    assert!(coordinator.match_aid_requests_and_offers_at(5).is_empty());
}

#[test]
fn matching_respects_scope_window_and_amounts() {
    let mut coordinator = MutualAidCoordinator::new();
    coordinator.submit_aid_request(request("near", 500, GeographicalScope::Local { radius_m: 30_000 })).unwrap();
    coordinator.submit_aid_request(request("anywhere", 40, GeographicalScope::Global)).unwrap();
    coordinator.submit_aid_offer(offer("short", 200, GeographicalScope::Local { radius_m: 20_000 }, (100, 200))).unwrap();
    coordinator.submit_aid_offer(offer("virtual", 300, GeographicalScope::Virtual, (100, 200))).unwrap();
    // Outside every window: nothing.
    assert!(coordinator.match_aid_requests_and_offers_at(99).is_empty());
    let found = coordinator.match_aid_requests_and_offers_at(150);
    let pairs: Vec<(String, String, u64)> =
        found.iter().map(|m| (m.request_id.clone(), m.offer_id.clone(), m.recommended_amount)).collect();
    assert_eq!(
        pairs,
        vec![
            ("anywhere".to_string(), "short".to_string(), 40),
            ("anywhere".to_string(), "virtual".to_string(), 40),
        ]
    );
    assert!(found.iter().all(|m| m.match_quality_permille == 800 && m.match_type == AidMatchType::DirectMatch));
    // A request stored again under its id replaces the earlier one.
    coordinator.submit_aid_request(request("near", 500, GeographicalScope::Local { radius_m: 10_000 })).unwrap();
    let found = coordinator.match_aid_requests_and_offers_at(150);
    assert_eq!(found.len(), 3);
    assert_eq!((found[0].request_id.as_str(), found[0].offer_id.as_str(), found[0].recommended_amount), ("near", "short", 200));
}

#[test]
fn executing_a_match_moves_mana() {
    let mut coordinator = MutualAidCoordinator::new();
    coordinator.submit_aid_request(request("req_1", 100, GeographicalScope::Global)).unwrap();
    coordinator.submit_aid_offer(offer("off_1", 150, GeographicalScope::Global, (0, 10))).unwrap();
    let provider = Did::from_str("did:test:provider").unwrap();
    let requester = Did::from_str("did:test:requester").unwrap();
    let mut ledger = FileManaLedger::new("memory");
    ledger.set_balance(&provider, 120).unwrap();
    let m = coordinator.match_aid_requests_and_offers_at(5).remove(0);
    let t = coordinator.execute_aid_match_at(&m, &mut ledger, 7).unwrap();
    assert_eq!(t.transaction_id, "aid_req_1_off_1");
    assert_eq!(t.amount, 100);
    assert_eq!(t.executed_at, 7);
    assert_eq!(t.status, AidTransactionStatus::Completed);
    assert_eq!(ledger.get_balance(&provider), 20);
    assert_eq!(ledger.get_balance(&requester), 100);
    // The provider can no longer cover it: nothing moves.
    assert!(coordinator.execute_aid_match_at(&m, &mut ledger, 8).is_err());
    assert_eq!(ledger.get_balance(&provider), 20);
    assert_eq!(ledger.get_balance(&requester), 100);
    let unknown = AidMatch {
        request_id: "nope".to_string(),
        offer_id: "off_1".to_string(),
        match_quality_permille: 800,
        recommended_amount: 1,
        match_type: AidMatchType::DirectMatch,
    };
    match coordinator.execute_aid_match_at(&unknown, &mut ledger, 9) {
        Err(CommonError::InvalidInputError(m)) => assert_eq!(m, "Request not found"),
        other => panic!("unexpected {:?}", other),
    }
    let unknown_offer = AidMatch { request_id: "req_1".to_string(), offer_id: "x".to_string(), ..unknown };
    match coordinator.execute_aid_match_at(&unknown_offer, &mut ledger, 9) {
        Err(CommonError::InvalidInputError(m)) => assert_eq!(m, "Offer not found"),
        other => panic!("unexpected {:?}", other),
    }
}


#[test]
fn emergency_types_must_match() {
    let a = AidType::Emergency { emergency_type: "flood".to_string() };
    let b = AidType::Emergency { emergency_type: "flood".to_string() };
    let c = AidType::Emergency { emergency_type: "fire".to_string() };
    assert!(aid_types_compatible(&a, &b));
    assert!(!aid_types_compatible(&a, &c));
}

#[test]
fn resources_need_one_type_in_common() {
    let req = AidType::Resources { resource_types: vec!["food".to_string(), "water".to_string()] };
    let off = AidType::Resources { resource_types: vec!["tools".to_string(), "water".to_string()] };
    let none = AidType::Resources { resource_types: vec!["tools".to_string()] };
    assert!(aid_types_compatible(&req, &off));
    assert!(!aid_types_compatible(&req, &none));
}

#[test]
fn other_kinds_are_not_matched() {
    let a = AidType::Care { care_type: "elder".to_string() };
    let b = AidType::Care { care_type: "elder".to_string() };
    assert!(!aid_types_compatible(&a, &b));
    let n = AidType::BasicNeeds { need_type: "housing".to_string() };
    assert!(!aid_types_compatible(&n, &a));
}

#[test]
fn aid_transfer_moves_mana_and_records() {
    let mut ledger = FileManaLedger::new("memory");
    let provider = Did::from_str("did:key:provider").unwrap();
    let requester = Did::from_str("did:key:requester").unwrap();
    ledger.set_balance(&provider, 100).unwrap();
    let kind = AidType::BasicNeeds { need_type: "food".to_string() };
    let t = execute_aid_transfer_at(&mut ledger, "r1", &requester, "o1", &provider, &kind, 40, 9).unwrap();
    assert_eq!(t.transaction_id, "aid_r1_o1");
    assert_eq!(t.amount, 40);
    assert_eq!(t.executed_at, 9);
    assert_eq!(t.status, AidTransactionStatus::Completed);
    assert_eq!(ledger.get_balance(&provider), 60);
    assert_eq!(ledger.get_balance(&requester), 40);
}

#[test]
fn aid_transfer_without_funds_moves_nothing() {
    let mut ledger = FileManaLedger::new("memory");
    let provider = Did::from_str("did:key:provider").unwrap();
    let requester = Did::from_str("did:key:requester").unwrap();
    ledger.set_balance(&provider, 10).unwrap();
    let kind = AidType::BasicNeeds { need_type: "food".to_string() };
    assert!(execute_aid_transfer_at(&mut ledger, "r1", &requester, "o1", &provider, &kind, 40, 9).is_err());
    assert_eq!(ledger.get_balance(&provider), 10);
    assert_eq!(ledger.get_balance(&requester), 0);
}
