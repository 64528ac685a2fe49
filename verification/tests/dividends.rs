use icn_economics::did::Did;
use icn_economics::dividends::{DistributionCriteria, DividendDistributor, MemberEligibility};
use icn_economics::error::CommonError;
use icn_economics::mana_ledger::{FileManaLedger, ManaLedger};

fn eligibility(stake: u64) -> MemberEligibility {
    MemberEligibility {
        contribution_score: 100,
        stake_amount: stake,
        reputation_score: 50,
        membership_duration: 365,
        active_participation: true,
    }
}

#[test]
fn members_are_registered_once() {
    let mut distributor = DividendDistributor::new(DistributionCriteria::EqualShares);
    let alice = Did::from_str("did:key:alice").unwrap();
    distributor.set_member_eligibility(alice.clone(), eligibility(1));
    distributor.set_member_eligibility(alice.clone(), eligibility(2));
    assert_eq!(distributor.get_eligible_members().len(), 1);
    assert_eq!(distributor.get_eligible_members()[0].1.stake_amount, 2);
}

#[test]
fn distribution_pays_members_and_spends_surplus() {
    let mut distributor = DividendDistributor::new(DistributionCriteria::ProportionalToStake);
    let mut ledger = FileManaLedger::new("memory");
    let alice = Did::from_str("did:key:alice").unwrap();
    let bob = Did::from_str("did:key:bob").unwrap();
    distributor.add_surplus(1000);
    let amounts = vec![(alice.clone(), 300u64), (bob.clone(), 0u64)];
    let d = distributor.distribute_dividends_at(&mut ledger, Some(500), &amounts, 77).unwrap();
    assert_eq!(d.distribution_id, "div_0");
    assert_eq!(d.total_amount, 500);
    assert_eq!(d.recipient_count, 1);
    assert_eq!(d.criteria_used, "ProportionalToStake");
    assert_eq!(d.distribution_date, 77);
    assert_eq!(ledger.get_balance(&alice), 300);
    assert_eq!(ledger.get_balance(&bob), 0);
    assert_eq!(distributor.get_total_surplus(), 500);
    assert_eq!(distributor.get_total_distributed(), 500);
    let again = distributor.distribute_dividends_at(&mut ledger, None, &Vec::new(), 78).unwrap();
    assert_eq!(again.distribution_id, "div_1");
    assert_eq!(again.total_amount, 500);
    assert_eq!(distributor.get_total_surplus(), 0);
    assert_eq!(distributor.get_total_distributed(), 1000);
}

#[test]
fn distribution_over_surplus_is_refused() {
    let mut distributor = DividendDistributor::new(DistributionCriteria::Custom("by hours".to_string()));
    let mut ledger = FileManaLedger::new("memory");
    distributor.add_surplus(10);
    let r = distributor.distribute_dividends_at(&mut ledger, Some(11), &Vec::new(), 1);
    assert!(matches!(r, Err(CommonError::PolicyDenied(_))));
    assert_eq!(distributor.get_total_surplus(), 10);
    assert_eq!(distributor.get_distribution_history().len(), 0);
}

#[test]
fn custom_criterion_is_described() {
    assert_eq!(DistributionCriteria::Custom("by hours".to_string()).describe(), "Custom(\"by hours\")");
    assert_eq!(DistributionCriteria::EqualShares.describe(), "EqualShares");
}
