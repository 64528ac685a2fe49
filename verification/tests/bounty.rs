use icn_economics::bounty::BountyManager;
use icn_economics::did::Did;
use icn_economics::error::CommonError;
use icn_economics::mana_ledger::{FileManaLedger, ManaLedger};
use icn_economics::repository::ResourceRepositoryAdapter;
use icn_economics::reputation::InMemoryReputationStore;
use icn_economics::resource_ledger::{FileResourceLedger, ResourceLedger, TokenClass};

fn did(s: &str) -> Did {
    Did::from_str(s).unwrap()
}

fn manager() -> (BountyManager<FileManaLedger, FileResourceLedger>, Did) {
    let issuer = did("did:key:issuer");
    let mut ledger = FileResourceLedger::new("r");
    let class = TokenClass::new_fungible("C".to_string(), "d".to_string(), "C".to_string(), 0, issuer.clone());
    ledger.create_class(&"credits".to_string(), class).unwrap();
    let mut mana = FileManaLedger::new("m");
    mana.set_balance(&issuer, 10).unwrap();
    (BountyManager::new(mana, ResourceRepositoryAdapter::new(ledger)), issuer)
}

#[test]
fn bounties_are_numbered_in_sequence() {
    let (mut m, issuer) = manager();
    assert_eq!(m.create_bounty(issuer.clone(), "credits", 5, "fix the roof"), 0);
    assert_eq!(m.create_bounty(issuer.clone(), "credits", 7, "paint"), 1);
    assert_eq!(m.bounties().len(), 2);
    assert_eq!(m.bounties()[1].amount, 7);
    assert!(!m.bounties()[1].paid);
}

#[test]
fn bounty_is_paid_once_to_its_claimant() {
    let (mut m, issuer) = manager();
    let worker = did("did:key:worker");
    let id = m.create_bounty(issuer.clone(), "credits", 25, "fix the roof");
    let rep = InMemoryReputationStore::new();
    assert!(matches!(m.payout_bounty(id, &rep, None), Err(CommonError::InvalidInputError(_))));
    m.claim_bounty(id, worker.clone()).unwrap();
    m.payout_bounty(id, &rep, None).unwrap();
    assert!(m.bounties()[0].paid);
    assert_eq!(m.repo().ledger().get_balance(&"credits".to_string(), &worker), 25);
    assert_eq!(m.mana().get_balance(&issuer), 9);
    assert!(matches!(m.payout_bounty(id, &rep, None), Err(CommonError::PolicyDenied(_))));
    assert!(matches!(m.claim_bounty(id, did("did:key:late")), Err(CommonError::PolicyDenied(_))));
    assert_eq!(m.repo().ledger().get_balance(&"credits".to_string(), &worker), 25);
}

#[test]
fn unknown_bounty_is_not_found() {
    let (mut m, _issuer) = manager();
    let rep = InMemoryReputationStore::new();
    assert!(matches!(m.claim_bounty(3, did("did:key:w")), Err(CommonError::ResourceNotFound(_))));
    assert!(matches!(m.payout_bounty(3, &rep, None), Err(CommonError::ResourceNotFound(_))));
}

#[test]
fn refused_mint_leaves_the_bounty_unpaid() {
    let (mut m, _issuer) = manager();
    let poor = did("did:key:poor");
    let id = m.create_bounty(poor, "credits", 5, "x");
    m.claim_bounty(id, did("did:key:w")).unwrap();
    let rep = InMemoryReputationStore::new();
    assert!(m.payout_bounty(id, &rep, None).is_err());
    assert!(!m.bounties()[0].paid);
}
