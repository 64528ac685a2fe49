use icn_economics::byzantine_mana::{apply_regeneration, consensus_threshold, ManaAccountState, ManaAccountStatus, DEFAULT_CAPACITY};
use icn_economics::did::Did;
use icn_economics::error::CommonError;

fn account() -> ManaAccountState {
    ManaAccountState::fresh(Did::from_str("did:key:acct").unwrap(), 100)
}

#[test]
fn consensus_needs_more_than_two_thirds() {
    assert_eq!(consensus_threshold(3), 3);
    assert_eq!(consensus_threshold(4), 3);
    assert_eq!(consensus_threshold(6), 5);
    assert_eq!(consensus_threshold(0), 1);
}

#[test]
fn regeneration_is_capped_and_stamped() {
    let mut a = account();
    assert_eq!(a.max_capacity, DEFAULT_CAPACITY);
    assert_eq!(apply_regeneration(&mut a, 3, 3, 400, 200).unwrap(), 400);
    assert_eq!(a.current_balance, 400);
    assert_eq!(a.last_regeneration, 200);
    assert_eq!(apply_regeneration(&mut a, 5, 3, 20_000, 300).unwrap(), 20_000);
    assert_eq!(a.current_balance, DEFAULT_CAPACITY);
    assert_eq!(a.last_regeneration, 300);
}

#[test]
fn regeneration_needs_consensus_and_an_active_account() {
    let mut a = account();
    assert!(matches!(apply_regeneration(&mut a, 2, 3, 400, 200), Err(CommonError::InsufficientConsensus)));
    assert_eq!(a.current_balance, 0);
    assert_eq!(a.last_regeneration, 100);
    a.status = ManaAccountStatus::Frozen { reason: "audit".to_string(), until: 1000 };
    assert!(matches!(apply_regeneration(&mut a, 3, 3, 400, 200), Err(CommonError::AccountNotActive)));
    assert_eq!(a.current_balance, 0);
    a.status = ManaAccountStatus::UnderReview;
    assert!(matches!(apply_regeneration(&mut a, 1, 3, 400, 200), Err(CommonError::InsufficientConsensus)));
}
