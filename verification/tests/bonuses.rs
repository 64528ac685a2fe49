use icn_economics::bonuses::{
    BonusCalculation, BonusProgram, BonusProgramType, BonusTier, CollectiveBonusSystem, ProgramDuration, ProgramStatus,
};
use icn_economics::did::Did;
use icn_economics::error::CommonError;
use icn_economics::mana_ledger::FileManaLedger;

fn program(id: &str, calculation: BonusCalculation, pool: u64, status: ProgramStatus) -> BonusProgram {
    BonusProgram {
        program_id: id.to_string(),
        program_name: "Test Bonus Program".to_string(),
        program_type: BonusProgramType::CooperationIncentive { cooperation_type: "mutual_aid".to_string() },
        eligibility_criteria: vec![],
        bonus_calculation: calculation,
        duration: ProgramDuration::Fixed { duration_days: 30 },
        max_participants: Some(10),
        total_bonus_pool: pool,
        status,
    }
}

fn did(s: &str) -> Did {
    Did::from_str(s).unwrap()
}

#[test]
fn test_collective_bonus_system() {
    let mut bonus_system = CollectiveBonusSystem::new();
    bonus_system
        .create_bonus_program(program("test_program", BonusCalculation::EqualShare, 1000, ProgramStatus::Active))
        .unwrap();
    let participant1 = did("did:test:participant1");
    let participant2 = did("did:test:participant2");
    bonus_system.register_participant("test_program", &participant1).unwrap();
    bonus_system.register_participant("test_program", &participant2).unwrap();
    assert!(bonus_system.is_tracked(&participant1));
    assert!(bonus_system.is_tracked(&participant2));
}

#[test]
fn programs_and_registrations_are_checked() {
    let mut s = CollectiveBonusSystem::new();
    s.create_bonus_program(program("p", BonusCalculation::EqualShare, 10, ProgramStatus::Active)).unwrap();
    match s.create_bonus_program(program("p", BonusCalculation::EqualShare, 20, ProgramStatus::Active)) {
        Err(CommonError::InvalidInputError(m)) => assert_eq!(m, "Program ID already exists"),
        other => panic!("unexpected {:?}", other),
    }
    s.create_bonus_program(program("paused", BonusCalculation::EqualShare, 10, ProgramStatus::Paused)).unwrap();
    let a = did("did:test:a");
    match s.register_participant_at("missing", &a, 5) {
        Err(CommonError::InvalidInputError(m)) => assert_eq!(m, "Program not found"),
        other => panic!("unexpected {:?}", other),
    }
    match s.register_participant_at("paused", &a, 5) {
        Err(CommonError::PolicyDenied(m)) => assert_eq!(m, "Program is not active"),
        other => panic!("unexpected {:?}", other),
    }
    assert!(!s.is_tracked(&a));
}

#[test]
fn equal_share_pays_each_participant() {
    let mut s = CollectiveBonusSystem::new();
    s.create_bonus_program(program("eq", BonusCalculation::EqualShare, 1001, ProgramStatus::Active)).unwrap();
    s.create_bonus_program(program("other", BonusCalculation::EqualShare, 50, ProgramStatus::Active)).unwrap();
    let a = did("did:test:a");
    let b = did("did:test:b");
    let c = did("did:test:c");
    s.register_participant_at("eq", &a, 1).unwrap();
    s.register_participant_at("other", &c, 1).unwrap();
    s.register_participant_at("eq", &b, 2).unwrap();
    let mut ledger = FileManaLedger::new("memory");
    let paid = s.distribute_program_bonuses_at("eq", &mut ledger, 10_000).unwrap();
    assert_eq!(paid.len(), 2);
    assert_eq!(paid[0].recipient, a);
    assert_eq!(paid[1].recipient, b);
    for d in &paid {
        assert_eq!(d.bonus_amount, 500);
        assert_eq!(d.earning_reason, "Equal share participation");
        assert_eq!((d.period_start, d.period_end), (6400, 10_000));
    }
    assert_eq!(ledger.get_balance(&a), 500);
    assert_eq!(ledger.get_balance(&b), 500);
    assert_eq!(ledger.get_balance(&c), 0);
}

#[test]
fn proportional_and_unavailable_methods() {
    let mut s = CollectiveBonusSystem::new();
    let metric = BonusCalculation::ProportionalContribution { contribution_metric: "hours".to_string() };
    s.create_bonus_program(program("prop", metric, 1000, ProgramStatus::Active)).unwrap();
    let tiers = BonusCalculation::TierBased {
        tiers: vec![BonusTier { tier_name: "gold".to_string(), threshold_permille: 900, bonus_multiplier_permille: 2000 }],
    };
    s.create_bonus_program(program("tier", tiers, 1000, ProgramStatus::Active)).unwrap();
    let a = did("did:test:a");
    s.register_participant_at("prop", &a, 1).unwrap();
    s.register_participant_at("tier", &a, 1).unwrap();
    let mut ledger = FileManaLedger::new("memory");
    let paid = s.distribute_program_bonuses_at("prop", &mut ledger, 100).unwrap();
    assert_eq!(paid.len(), 1);
    assert_eq!(paid[0].bonus_amount, 100);
    assert_eq!(paid[0].earning_reason, "Proportional contribution: hours");
    assert_eq!((paid[0].period_start, paid[0].period_end), (0, 100));
    assert_eq!(ledger.get_balance(&a), 100);
    match s.distribute_program_bonuses_at("tier", &mut ledger, 100) {
        Err(CommonError::NotImplementedError(m)) => assert_eq!(m, "Bonus calculation method not implemented"),
        other => panic!("unexpected {:?}", other),
    }
    match s.distribute_program_bonuses("nowhere", &mut ledger) {
        Err(CommonError::InvalidInputError(m)) => assert_eq!(m, "Program not found"),
        other => panic!("unexpected {:?}", other),
    }
    assert_eq!(ledger.get_balance(&a), 100);
}
