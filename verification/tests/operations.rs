use icn_economics::did::Did;
use icn_economics::error::CommonError;
use icn_economics::mana_ledger::{FileManaLedger, ManaLedger};
use icn_economics::marketplace::{
    BidStatus, InMemoryMarketplaceStore, MarketplaceBid, MarketplaceOffer, MarketplaceStore, OfferStatus,
    TransactionStatus,
};
use icn_economics::operations::{
    burn_tokens, create_marketplace_bid, create_marketplace_offer, execute_marketplace_transaction_at, mint_tokens,
    transfer_tokens_at,
};
use icn_economics::repository::{NodeScope, ResourceRepositoryAdapter};
use icn_economics::resource_ledger::{FileResourceLedger, ResourceLedger, TokenClass};

fn did(s: &str) -> Did {
    Did::from_str(s).unwrap()
}

fn setup() -> (ResourceRepositoryAdapter<FileResourceLedger>, FileManaLedger, Did) {
    let issuer = did("did:key:issuer");
    let mut ledger = FileResourceLedger::new("resources");
    let class = TokenClass::new_fungible(
        "Credits".to_string(),
        "Community credits".to_string(),
        "CRD".to_string(),
        0,
        issuer.clone(),
    );
    ledger.create_class(&"credits".to_string(), class).unwrap();
    let repo = ResourceRepositoryAdapter::new(ledger);
    let mut mana = FileManaLedger::new("mana");
    mana.set_balance(&issuer, 10).unwrap();
    (repo, mana, issuer)
}

#[test]
fn mint_charges_the_fee_and_credits_tokens() {
    let (mut repo, mut mana, issuer) = setup();
    let alice = did("did:key:alice");
    mint_tokens(&mut repo, &mut mana, &issuer, "credits", 50, &alice, None).unwrap();
    assert_eq!(repo.ledger().get_balance(&"credits".to_string(), &alice), 50);
    assert_eq!(mana.get_balance(&issuer), 9);
}

#[test]
fn mint_without_mana_is_refused() {
    let (mut repo, mut mana, _issuer) = setup();
    let poor = did("did:key:poor");
    let alice = did("did:key:alice");
    let r = mint_tokens(&mut repo, &mut mana, &poor, "credits", 50, &alice, None);
    assert!(matches!(r, Err(CommonError::PolicyDenied(_))));
    assert_eq!(repo.ledger().get_balance(&"credits".to_string(), &alice), 0);
}

#[test]
fn scoped_mint_needs_an_authorized_issuer() {
    let (mut repo, mut mana, issuer) = setup();
    let alice = did("did:key:alice");
    let scope = NodeScope::new("coop");
    assert!(mint_tokens(&mut repo, &mut mana, &issuer, "credits", 5, &alice, Some(NodeScope::new("coop"))).is_err());
    assert_eq!(repo.ledger().get_balance(&"credits".to_string(), &alice), 0);
    repo.add_issuer(scope, issuer.clone());
    mint_tokens(&mut repo, &mut mana, &issuer, "credits", 5, &alice, Some(NodeScope::new("coop"))).unwrap();
    assert_eq!(repo.ledger().get_balance(&"credits".to_string(), &alice), 5);
}

#[test]
fn transfer_and_burn_move_tokens() {
    let (mut repo, mut mana, issuer) = setup();
    let alice = did("did:key:alice");
    let bob = did("did:key:bob");
    mint_tokens(&mut repo, &mut mana, &issuer, "credits", 50, &alice, None).unwrap();
    transfer_tokens_at(&mut repo, &mut mana, &issuer, "credits", 20, &alice, &bob, None, 100).unwrap();
    assert_eq!(repo.ledger().get_balance(&"credits".to_string(), &alice), 30);
    assert_eq!(repo.ledger().get_balance(&"credits".to_string(), &bob), 20);
    burn_tokens(&mut repo, &mut mana, &issuer, "credits", 10, &bob, None).unwrap();
    assert_eq!(repo.ledger().get_balance(&"credits".to_string(), &bob), 10);
    assert_eq!(mana.get_balance(&issuer), 7);
    let over = transfer_tokens_at(&mut repo, &mut mana, &issuer, "credits", 31, &alice, &bob, None, 100);
    assert!(over.is_err());
    assert_eq!(repo.ledger().get_balance(&"credits".to_string(), &alice), 30);
}

#[test]
fn marketplace_settlement_pays_the_seller() {
    let (mut repo, mut mana, issuer) = setup();
    let seller = did("did:key:seller");
    let buyer = did("did:key:buyer");
    mana.set_balance(&seller, 5).unwrap();
    mana.set_balance(&buyer, 5).unwrap();
    mint_tokens(&mut repo, &mut mana, &issuer, "credits", 100, &buyer, None).unwrap();
    let mut store = InMemoryMarketplaceStore::new();
    let offer = MarketplaceOffer::new_physical_good(
        "o1".to_string(),
        seller.clone(),
        "Bread".to_string(),
        "food".to_string(),
        "fresh".to_string(),
        10,
        3,
        "credits".to_string(),
    );
    create_marketplace_offer(repo.ledger(), &mut mana, &mut store, offer).unwrap();
    let bid = MarketplaceBid::new_bid("b1".to_string(), buyer.clone(), "o1".to_string(), 4, 3, "credits".to_string(), 24);
    create_marketplace_bid(repo.ledger(), &mut mana, &mut store, bid).unwrap();
    let t = execute_marketplace_transaction_at(&mut repo, &mut mana, &mut store, "o1", "b1", &issuer, 500).unwrap();
    assert_eq!(t.transaction_id, "tx_o1_b1");
    assert_eq!(t.total_price, 12);
    assert_eq!(t.status, TransactionStatus::Pending);
    assert_eq!(repo.ledger().get_balance(&"credits".to_string(), &buyer), 88);
    assert_eq!(repo.ledger().get_balance(&"credits".to_string(), &seller), 12);
    let offer_after = store.get_offer("o1").unwrap();
    assert_eq!(offer_after.quantity, 6);
    assert_eq!(offer_after.status, OfferStatus::Active);
    assert_eq!(store.get_bid("b1").unwrap().status, BidStatus::Accepted);
    let again = execute_marketplace_transaction_at(&mut repo, &mut mana, &mut store, "o1", "b1", &issuer, 501);
    assert!(matches!(again, Err(CommonError::PolicyDenied(_))));
}

#[test]
fn bid_on_missing_offer_is_invalid() {
    let (repo, mut mana, _issuer) = setup();
    let buyer = did("did:key:buyer");
    mana.set_balance(&buyer, 5).unwrap();
    let mut store = InMemoryMarketplaceStore::new();
    let bid = MarketplaceBid::new_bid("b1".to_string(), buyer, "nope".to_string(), 1, 1, "credits".to_string(), 1);
    assert!(matches!(
        create_marketplace_bid(repo.ledger(), &mut mana, &mut store, bid),
        Err(CommonError::InvalidInputError(_))
    ));
}
