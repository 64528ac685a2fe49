//! Token operations and marketplace settlement: each validates, charges the
//! operation fee in mana, then changes the resource ledger and the store.
//!
//! The steps run in a fixed order and a step that is refused stops the
//! operation; what earlier steps did stays done (a fee charged before a
//! refused mint is not refunded).

use vstd::prelude::*;
use vstd::string::*;
use crate::clock::unix_seconds;
use crate::did::Did;
use crate::error::CommonError;
use crate::mana_ledger::{ManaLedger, balance_in, balance_updated};
use crate::marketplace::{
    MarketplaceStore, MarketplaceOffer, MarketplaceBid, MarketplaceTransaction, OfferView, BidView, TransactionView,
    OfferStatus, BidStatus, TransactionStatus, FulfillmentDetails, FulfillmentMethod, fulfillment_view,
};
use crate::policy::{ValidationContext, TOKEN_FEE, mana_spend_valid, validate_mana_spend, charge_mana};
use crate::repository::{ResourceRepositoryAdapter, NodeScope, TokenEvent, token_event_view, scope_view, duplicate_scope};
use crate::reputation::ReputationStore;
use crate::resource_ledger::{ResourceLedger, TokenClassId, TokenClassView, token_balance, transferred};
use crate::text::join2;
use crate::validation::{
    transfer_stop, settlement_stop, settlement_total_fits, validate_token_transfer_at, validate_marketplace_transaction,
};

verus! {

/// The operation fee can be paid by `payer`: a mana spend of [`TOKEN_FEE`]
/// passes validation (a cross-cooperative operation adds its surcharge).
pub open spec fn fee_payable(mana: Map<Seq<char>, u64>, payer: Seq<char>, cross: bool) -> bool {
    mana_spend_valid(balance_in(mana, payer), TOKEN_FEE, cross)
}

/// `after` is `before` with the operation fee taken from `payer`.
pub open spec fn fee_charged(before: Map<Seq<char>, u64>, after: Map<Seq<char>, u64>, payer: Seq<char>) -> bool {
    balance_updated(before, after, payer, (balance_in(before, payer) - TOKEN_FEE) as u64)
}

/// `after` logged `event` after what `before` logged, when `before` logs.
pub open spec fn logged_one<L: ResourceLedger>(
    before: ResourceRepositoryAdapter<L>,
    after: ResourceRepositoryAdapter<L>,
    event: (int, Seq<char>, u64, Seq<char>, Option<Seq<char>>, Option<Seq<char>>, Option<Seq<char>>),
) -> bool {
    before.logs_events() ==> after.logged().len() == before.logged().len() + 1 && after.logged().drop_last()
        == before.logged() && token_event_view(after.logged().last()) == event
}

/// The scope, if any, admits `issuer`.
pub open spec fn scope_admits<L: ResourceLedger>(
    repo: ResourceRepositoryAdapter<L>,
    issuer: Seq<char>,
    scope: Option<NodeScope>,
) -> bool {
    scope matches Some(sc) ==> repo.is_authorized_spec(issuer, sc.view())
}

/// What a fee-charging token operation keeps whatever its outcome.
pub open spec fn token_operation_frame<L: ResourceLedger, M: ManaLedger>(
    repo: ResourceRepositoryAdapter<L>,
    repo2: ResourceRepositoryAdapter<L>,
    mana: M,
    mana2: M,
    payer: Seq<char>,
    r: Result<(), CommonError>,
) -> bool {
    &&& repo2.spec_ledger().ledger_inv()
    &&& mana2.well_formed()
    &&& repo2.spec_ledger().class_map() == repo.spec_ledger().class_map()
    &&& repo2.logs_events() == repo.logs_events()
    &&& r is Ok ==> fee_charged(mana.balances(), mana2.balances(), payer)
    &&& r is Err ==> repo2.spec_ledger().token_balances() == repo.spec_ledger().token_balances() && repo2.logged()
        == repo.logged() && (mana2.balances() == mana.balances() || fee_charged(
        mana.balances(),
        mana2.balances(),
        payer,
    ))
}

/// Nothing changed, and the operation was refused by policy.
pub open spec fn refused_unchanged<L: ResourceLedger, M: ManaLedger>(
    repo: ResourceRepositoryAdapter<L>,
    repo2: ResourceRepositoryAdapter<L>,
    mana: M,
    mana2: M,
    r: Result<(), CommonError>,
) -> bool {
    &&& (r matches Err(CommonError::PolicyDenied(_)))
    &&& mana2.balances() == mana.balances()
    &&& repo2.spec_ledger().token_balances() == repo.spec_ledger().token_balances()
    &&& repo2.logged() == repo.logged()
}

/// The outcome of minting `amount` tokens of `class_id` for `recipient`,
/// issued by `issuer` who pays the fee.
pub open spec fn mint_outcome<L: ResourceLedger, M: ManaLedger>(
    repo: ResourceRepositoryAdapter<L>,
    repo2: ResourceRepositoryAdapter<L>,
    mana: M,
    mana2: M,
    issuer: Seq<char>,
    class_id: Seq<char>,
    amount: u64,
    recipient: Seq<char>,
    scope: Option<NodeScope>,
    r: Result<(), CommonError>,
) -> bool {
    &&& token_operation_frame(repo, repo2, mana, mana2, issuer, r)
    &&& !fee_payable(mana.balances(), issuer, scope is Some) ==> refused_unchanged(repo, repo2, mana, mana2, r)
    &&& !scope_admits(repo, issuer, scope) ==> r is Err
    &&& r is Ok ==> fee_payable(mana.balances(), issuer, scope is Some) && scope_admits(repo, issuer, scope)
        && repo2.spec_ledger().token_balances() == repo.spec_ledger().token_balances().insert(
        (class_id, recipient),
        (token_balance(repo.spec_ledger().token_balances(), class_id, recipient) + amount) as u64,
    ) && logged_one(repo, repo2, (0int, class_id, amount, issuer, None, Some(recipient), scope_view(scope)))
}

/// Mint `amount` tokens of `class_id` for `recipient`: validate and charge
/// the fee to `issuer`, then mint through the repository.
pub fn mint_tokens<L: ResourceLedger, M: ManaLedger>(
    repo: &mut ResourceRepositoryAdapter<L>,
    mana_ledger: &mut M,
    issuer: &Did,
    class_id: &str,
    amount: u64,
    recipient: &Did,
    scope: Option<NodeScope>,
) -> (r: Result<(), CommonError>)
    requires
        old(repo).spec_ledger().ledger_inv(),
        old(mana_ledger).well_formed(),
        token_balance(old(repo).spec_ledger().token_balances(), class_id@, recipient@) + amount <= u64::MAX,
    ensures
        mint_outcome(
            *old(repo),
            *final(repo),
            *old(mana_ledger),
            *final(mana_ledger),
            issuer@,
            class_id@,
            amount,
            recipient@,
            scope,
            r,
        ),
{
    let mana_context = ValidationContext {
        operation_type: String::from_str("mint_tokens_fee"),
        amount: TOKEN_FEE,
        account: issuer.duplicate(),
        resource_type: None,
        cross_cooperative: scope.is_some(),
        reputation_required: true,
    };
    let mana_validation = validate_mana_spend(&*mana_ledger, issuer, TOKEN_FEE, &mana_context);
    if !mana_validation.is_valid {
        let msg = match mana_validation.error_message {
            Some(m) => m,
            None => String::from_str("Mana validation failed for token minting"),
        };
        return Err(CommonError::PolicyDenied(msg));
    }
    charge_mana(mana_ledger, issuer, TOKEN_FEE)?;
    repo.mint(issuer, class_id, amount, recipient, scope)
}

/// Mint tokens for `recipient` on behalf of `issuer`; the reputation store
/// is accepted for future reputation requirements and not consulted, so the
/// outcome is that of [`mint_tokens`].
pub fn mint_tokens_with_reputation<L: ResourceLedger, M: ManaLedger, R: ReputationStore>(
    repo: &mut ResourceRepositoryAdapter<L>,
    mana_ledger: &mut M,
    reputation_store: &R,
    issuer: &Did,
    class_id: &str,
    amount: u64,
    recipient: &Did,
    scope: Option<NodeScope>,
) -> (r: Result<(), CommonError>)
    requires
        old(repo).spec_ledger().ledger_inv(),
        old(mana_ledger).well_formed(),
        token_balance(old(repo).spec_ledger().token_balances(), class_id@, recipient@) + amount <= u64::MAX,
    ensures
        mint_outcome(
            *old(repo),
            *final(repo),
            *old(mana_ledger),
            *final(mana_ledger),
            issuer@,
            class_id@,
            amount,
            recipient@,
            scope,
            r,
        ),
{
    mint_tokens(repo, mana_ledger, issuer, class_id, amount, recipient, scope)
}

/// The outcome of burning `amount` tokens of `class_id` held by `owner`,
/// issued by `issuer` who pays the fee.
pub open spec fn burn_outcome<L: ResourceLedger, M: ManaLedger>(
    repo: ResourceRepositoryAdapter<L>,
    repo2: ResourceRepositoryAdapter<L>,
    mana: M,
    mana2: M,
    issuer: Seq<char>,
    class_id: Seq<char>,
    amount: u64,
    owner: Seq<char>,
    scope: Option<NodeScope>,
    r: Result<(), CommonError>,
) -> bool {
    let held = token_balance(repo.spec_ledger().token_balances(), class_id, owner);
    &&& token_operation_frame(repo, repo2, mana, mana2, issuer, r)
    &&& held < amount ==> refused_unchanged(repo, repo2, mana, mana2, r)
    &&& !fee_payable(mana.balances(), issuer, scope is Some) ==> refused_unchanged(repo, repo2, mana, mana2, r)
    &&& !scope_admits(repo, issuer, scope) ==> r is Err
    &&& r is Ok ==> amount <= held && fee_payable(mana.balances(), issuer, scope is Some) && scope_admits(
        repo,
        issuer,
        scope,
    ) && repo2.spec_ledger().token_balances() == repo.spec_ledger().token_balances().insert(
        (class_id, owner),
        (held - amount) as u64,
    ) && logged_one(repo, repo2, (1int, class_id, amount, issuer, Some(owner), None, scope_view(scope)))
}

/// Burn `amount` tokens of `class_id` held by `owner`: check the holding,
/// validate and charge the fee to `issuer`, then burn through the repository.
pub fn burn_tokens<L: ResourceLedger, M: ManaLedger>(
    repo: &mut ResourceRepositoryAdapter<L>,
    mana_ledger: &mut M,
    issuer: &Did,
    class_id: &str,
    amount: u64,
    owner: &Did,
    scope: Option<NodeScope>,
) -> (r: Result<(), CommonError>)
    requires
        old(repo).spec_ledger().ledger_inv(),
        old(mana_ledger).well_formed(),
    ensures
        burn_outcome(
            *old(repo),
            *final(repo),
            *old(mana_ledger),
            *final(mana_ledger),
            issuer@,
            class_id@,
            amount,
            owner@,
            scope,
            r,
        ),
{
    let cid: TokenClassId = String::from_str(class_id);
    let owner_balance = repo.ledger().get_balance(&cid, owner);
    if owner_balance < amount {
        return Err(
            CommonError::PolicyDenied(
                crate::text::text_two_numbers(
                    "Insufficient tokens for burn: available=",
                    owner_balance,
                    ", required=",
                    amount,
                ),
            ),
        );
    }
    let mana_context = ValidationContext {
        operation_type: String::from_str("burn_tokens_fee"),
        amount: TOKEN_FEE,
        account: issuer.duplicate(),
        resource_type: None,
        cross_cooperative: scope.is_some(),
        reputation_required: true,
    };
    let mana_validation = validate_mana_spend(&*mana_ledger, issuer, TOKEN_FEE, &mana_context);
    if !mana_validation.is_valid {
        let msg = match mana_validation.error_message {
            Some(m) => m,
            None => String::from_str("Mana validation failed for token burning"),
        };
        return Err(CommonError::PolicyDenied(msg));
    }
    charge_mana(mana_ledger, issuer, TOKEN_FEE)?;
    repo.burn(issuer, class_id, amount, owner, scope)
}

/// The outcome of transferring `amount` tokens of `class_id` from `from` to
/// `to` at time `now`, issued by `issuer` who pays the fee.
pub open spec fn transfer_outcome<L: ResourceLedger, M: ManaLedger>(
    repo: ResourceRepositoryAdapter<L>,
    repo2: ResourceRepositoryAdapter<L>,
    mana: M,
    mana2: M,
    issuer: Seq<char>,
    class_id: Seq<char>,
    amount: u64,
    from: Seq<char>,
    to: Seq<char>,
    scope: Option<NodeScope>,
    r: Result<(), CommonError>,
    now: u64,
) -> bool {
    let stop = transfer_stop(
        repo.spec_ledger().class_map(),
        repo.spec_ledger().token_balances(),
        class_id,
        from,
        to,
        amount,
        now,
    );
    &&& token_operation_frame(repo, repo2, mana, mana2, issuer, r)
    &&& stop != 0 ==> refused_unchanged(repo, repo2, mana, mana2, r)
    &&& !fee_payable(mana.balances(), issuer, scope is Some) ==> refused_unchanged(repo, repo2, mana, mana2, r)
    &&& !scope_admits(repo, issuer, scope) ==> r is Err
    &&& r is Ok ==> stop == 0 && fee_payable(mana.balances(), issuer, scope is Some) && scope_admits(repo, issuer, scope)
        && repo2.spec_ledger().token_balances() == transferred(
        repo.spec_ledger().token_balances(),
        class_id,
        from,
        to,
        amount,
    ) && logged_one(repo, repo2, (2int, class_id, amount, issuer, Some(from), Some(to), scope_view(scope)))
}

/// A transfer at time `now` that passes validation and whose fee is payable
/// keeps the recipient's balance within range.
pub open spec fn transfer_fits<L: ResourceLedger, M: ManaLedger>(
    repo: ResourceRepositoryAdapter<L>,
    mana: M,
    issuer: Seq<char>,
    class_id: Seq<char>,
    amount: u64,
    from: Seq<char>,
    to: Seq<char>,
    scoped: bool,
    now: u64,
) -> bool {
    transfer_stop(repo.spec_ledger().class_map(), repo.spec_ledger().token_balances(), class_id, from, to, amount, now)
        == 0 && fee_payable(mana.balances(), issuer, scoped) ==> token_balance(
        repo.spec_ledger().token_balances(),
        class_id,
        to,
    ) + amount <= u64::MAX
}

/// Transfer `amount` tokens of `class_id` from `from` to `to` at time `now`:
/// validate the transfer, validate and charge the fee to `issuer`, then
/// transfer through the repository.
pub fn transfer_tokens_at<L: ResourceLedger, M: ManaLedger>(
    repo: &mut ResourceRepositoryAdapter<L>,
    mana_ledger: &mut M,
    issuer: &Did,
    class_id: &str,
    amount: u64,
    from: &Did,
    to: &Did,
    scope: Option<NodeScope>,
    now: u64,
) -> (r: Result<(), CommonError>)
    requires
        old(repo).spec_ledger().ledger_inv(),
        old(mana_ledger).well_formed(),
        transfer_fits(*old(repo), *old(mana_ledger), issuer@, class_id@, amount, from@, to@, scope is Some, now),
    ensures
        transfer_outcome(
            *old(repo),
            *final(repo),
            *old(mana_ledger),
            *final(mana_ledger),
            issuer@,
            class_id@,
            amount,
            from@,
            to@,
            scope,
            r,
            now,
        ),
{
    let transfer_context = ValidationContext {
        operation_type: String::from_str("transfer_tokens"),
        amount,
        account: from.duplicate(),
        resource_type: Some(String::from_str(class_id)),
        cross_cooperative: scope.is_some() || !from.same_as(to),
        reputation_required: false,
    };
    let transfer_validation = validate_token_transfer_at(repo.ledger(), class_id, from, to, amount, &transfer_context, now);
    if !transfer_validation.is_valid {
        let msg = match transfer_validation.error_message {
            Some(m) => m,
            None => String::from_str("Token transfer validation failed"),
        };
        return Err(CommonError::PolicyDenied(msg));
    }
    let mana_context = ValidationContext {
        operation_type: String::from_str("transfer_tokens_fee"),
        amount: TOKEN_FEE,
        account: issuer.duplicate(),
        resource_type: None,
        cross_cooperative: scope.is_some(),
        reputation_required: false,
    };
    let mana_validation = validate_mana_spend(&*mana_ledger, issuer, TOKEN_FEE, &mana_context);
    if !mana_validation.is_valid {
        let msg = match mana_validation.error_message {
            Some(m) => m,
            None => String::from_str("Mana validation failed for token transfer"),
        };
        return Err(CommonError::PolicyDenied(msg));
    }
    charge_mana(mana_ledger, issuer, TOKEN_FEE)?;
    repo.transfer(issuer, class_id, amount, from, to, scope)
}

/// Transfer `amount` tokens of `class_id` from `from` to `to` now; the
/// validity period of the class is checked against the system clock.
pub fn transfer_tokens<L: ResourceLedger, M: ManaLedger>(
    repo: &mut ResourceRepositoryAdapter<L>,
    mana_ledger: &mut M,
    issuer: &Did,
    class_id: &str,
    amount: u64,
    from: &Did,
    to: &Did,
    scope: Option<NodeScope>,
) -> (r: Result<(), CommonError>)
    requires
        old(repo).spec_ledger().ledger_inv(),
        old(mana_ledger).well_formed(),
        forall|now: u64|
            #[trigger] transfer_fits(*old(repo), *old(mana_ledger), issuer@, class_id@, amount, from@, to@, scope is Some, now),
    ensures
        exists|now: u64|
            #[trigger] transfer_outcome(
                *old(repo),
                *final(repo),
                *old(mana_ledger),
                *final(mana_ledger),
                issuer@,
                class_id@,
                amount,
                from@,
                to@,
                scope,
                r,
                now,
            ),
{
    let now = unix_seconds();
    let r = transfer_tokens_at(repo, mana_ledger, issuer, class_id, amount, from, to, scope, now);
    r
}

/// The store holds the same offers, bids and transactions.
pub open spec fn store_unchanged<S: MarketplaceStore>(store: S, store2: S) -> bool {
    &&& store2.offers() == store.offers()
    &&& store2.bids() == store.bids()
    &&& store2.transactions() == store.transactions()
}

/// List `offer` in the store: its payment class must exist, and the seller
/// pays the fee.
pub fn create_marketplace_offer<L: ResourceLedger, M: ManaLedger, S: MarketplaceStore>(
    resource_ledger: &L,
    mana_ledger: &mut M,
    marketplace_store: &mut S,
    offer: MarketplaceOffer,
) -> (r: Result<(), CommonError>)
    requires
        resource_ledger.ledger_inv(),
        old(mana_ledger).well_formed(),
        old(marketplace_store).store_inv(),
    ensures
        final(mana_ledger).well_formed(),
        final(marketplace_store).store_inv(),
        !resource_ledger.class_map().contains_key(offer.payment_token_class@) ==> (r matches Err(CommonError::InvalidInputError(_))) && final(mana_ledger).balances() == old(mana_ledger).balances(),
        resource_ledger.class_map().contains_key(offer.payment_token_class@) && !fee_payable(
            old(mana_ledger).balances(),
            offer.seller@,
            false,
        ) ==> (r matches Err(CommonError::PolicyDenied(_))) && final(mana_ledger).balances() == old(mana_ledger).balances(),
        old(marketplace_store).offers().contains_key(offer.offer_id@) ==> r is Err,
        r is Ok ==> resource_ledger.class_map().contains_key(offer.payment_token_class@) && fee_charged(
            old(mana_ledger).balances(),
            final(mana_ledger).balances(),
            offer.seller@,
        ) && final(marketplace_store).offers() == old(marketplace_store).offers().insert(
            offer.offer_id@,
            offer.view(),
        ) && final(marketplace_store).bids() == old(marketplace_store).bids()
            && final(marketplace_store).transactions() == old(marketplace_store).transactions(),
        r is Err ==> store_unchanged(*old(marketplace_store), *final(marketplace_store)) && (final(mana_ledger).balances() == old(mana_ledger).balances() || fee_charged(
            old(mana_ledger).balances(),
            final(mana_ledger).balances(),
            offer.seller@,
        )),
{
    if resource_ledger.get_class(&offer.payment_token_class).is_none() {
        let m = join2("Payment token class ", offer.payment_token_class.as_str()).concat(" does not exist");
        return Err(CommonError::InvalidInputError(m));
    }
    charge_mana(mana_ledger, &offer.seller, TOKEN_FEE)?;
    marketplace_store.create_offer(offer)?;
    Ok(())
}

/// Place `bid` in the store: the offer must exist, the buyer must hold the
/// tokens that the bid would cost, and the buyer pays the fee.
pub fn create_marketplace_bid<L: ResourceLedger, M: ManaLedger, S: MarketplaceStore>(
    resource_ledger: &L,
    mana_ledger: &mut M,
    marketplace_store: &mut S,
    bid: MarketplaceBid,
) -> (r: Result<(), CommonError>)
    requires
        resource_ledger.ledger_inv(),
        old(mana_ledger).well_formed(),
        old(marketplace_store).store_inv(),
        old(marketplace_store).offers().contains_key(bid.offer_id@) ==> bid.price_per_unit * bid.quantity
            <= u64::MAX,
    ensures
        final(mana_ledger).well_formed(),
        final(marketplace_store).store_inv(),
        !old(marketplace_store).offers().contains_key(bid.offer_id@) ==> (r matches Err(CommonError::InvalidInputError(_))) && final(mana_ledger).balances() == old(mana_ledger).balances(),
        old(marketplace_store).offers().contains_key(bid.offer_id@) && token_balance(
            resource_ledger.token_balances(),
            bid.payment_token_class@,
            bid.buyer@,
        ) < bid.price_per_unit * bid.quantity ==> (r matches Err(CommonError::PolicyDenied(_))) && final(mana_ledger).balances() == old(mana_ledger).balances(),
        old(marketplace_store).offers().contains_key(bid.offer_id@) && !fee_payable(
            old(mana_ledger).balances(),
            bid.buyer@,
            false,
        ) ==> (r matches Err(CommonError::PolicyDenied(_))) && final(mana_ledger).balances() == old(mana_ledger).balances(),
        old(marketplace_store).bids().contains_key(bid.bid_id@) ==> r is Err,
        r is Ok ==> old(marketplace_store).offers().contains_key(bid.offer_id@) && bid.price_per_unit * bid.quantity
            <= token_balance(resource_ledger.token_balances(), bid.payment_token_class@, bid.buyer@) && fee_charged(
            old(mana_ledger).balances(),
            final(mana_ledger).balances(),
            bid.buyer@,
        ) && final(marketplace_store).bids() == old(marketplace_store).bids().insert(bid.bid_id@, bid.view())
            && final(marketplace_store).offers() == old(marketplace_store).offers()
            && final(marketplace_store).transactions() == old(marketplace_store).transactions(),
        r is Err ==> store_unchanged(*old(marketplace_store), *final(marketplace_store)) && (final(mana_ledger).balances() == old(mana_ledger).balances() || fee_charged(
            old(mana_ledger).balances(),
            final(mana_ledger).balances(),
            bid.buyer@,
        )),
{
    let offer = marketplace_store.get_offer(bid.offer_id.as_str());
    if offer.is_none() {
        let m = join2("Offer ", bid.offer_id.as_str()).concat(" not found");
        return Err(CommonError::InvalidInputError(m));
    }
    let required_tokens = bid.price_per_unit * bid.quantity;
    let buyer_balance = resource_ledger.get_balance(&bid.payment_token_class, &bid.buyer);
    if buyer_balance < required_tokens {
        return Err(CommonError::PolicyDenied(String::from_str("Insufficient token balance for bid")));
    }
    charge_mana(mana_ledger, &bid.buyer, TOKEN_FEE)?;
    marketplace_store.create_bid(bid)?;
    Ok(())
}

/// The id of the transaction that settles `bid_id` against `offer_id`.
pub open spec fn settlement_id(offer_id: Seq<char>, bid_id: Seq<char>) -> Seq<char> {
    seq!['t', 'x', '_'] + offer_id + seq!['_'] + bid_id
}

/// The tokens that a bid pays.
pub open spec fn settlement_total(b: BidView) -> u64 {
    (b.price_per_unit * b.quantity) as u64
}

/// The record of settling `b` against `o` at time `now`: pending, to be
/// fulfilled remotely, with no dates or tracking yet.
pub open spec fn settlement_record(o: OfferView, b: BidView, offer_id: Seq<char>, bid_id: Seq<char>, now: u64) -> TransactionView {
    TransactionView {
        transaction_id: settlement_id(offer_id, bid_id),
        offer_id: o.offer_id,
        bid_id: b.bid_id,
        seller: o.seller,
        buyer: b.buyer,
        item_type: o.item_type,
        quantity: b.quantity,
        price_per_unit: b.price_per_unit,
        total_price: settlement_total(b),
        payment_token_class: b.payment_token_class,
        completed_at: now,
        status: TransactionStatus::Pending,
        fulfillment: ((3int, Seq::<char>::empty()), None, None, None),
    }
}

/// The offer after `b` was settled against it: the quantity drops by what
/// was bought, and an offer with nothing left is fulfilled.
pub open spec fn offer_after_settlement(o: OfferView, b: BidView) -> OfferView {
    OfferView {
        quantity: (o.quantity - b.quantity) as u64,
        status: if o.quantity == b.quantity {
            OfferStatus::Fulfilled
        } else {
            o.status
        },
        ..o
    }
}

/// The bid after it was settled: accepted.
pub open spec fn bid_after_settlement(b: BidView) -> BidView {
    BidView { status: BidStatus::Accepted, ..b }
}

/// Settling `b` against `o` at time `now` needs no arithmetic beyond `u64`:
/// the total of a bid that matches the offer fits, and when the settlement
/// and its payment pass validation, so does the seller's balance after the
/// payment.
pub open spec fn settlement_fits(
    o: OfferView,
    b: BidView,
    classes: Map<Seq<char>, TokenClassView>,
    tokens: Map<(Seq<char>, Seq<char>), u64>,
    mana: Map<Seq<char>, u64>,
    now: u64,
) -> bool {
    &&& settlement_total_fits(o, b)
    &&& (settlement_stop(o, b, tokens, mana) == 0 && transfer_stop(
        classes,
        tokens,
        b.payment_token_class,
        b.buyer,
        o.seller,
        settlement_total(b),
        now,
    ) == 0) ==> token_balance(tokens, b.payment_token_class, o.seller) + settlement_total(b) <= u64::MAX
}

/// The outcome of settling bid `bid_id` against offer `offer_id` at time
/// `now`, run by `executor` who pays the fee.
pub open spec fn settlement_outcome<L: ResourceLedger, M: ManaLedger, S: MarketplaceStore>(
    repo: ResourceRepositoryAdapter<L>,
    repo2: ResourceRepositoryAdapter<L>,
    mana: M,
    mana2: M,
    store: S,
    store2: S,
    offer_id: Seq<char>,
    bid_id: Seq<char>,
    executor: Seq<char>,
    now: u64,
    r: Result<MarketplaceTransaction, CommonError>,
) -> bool {
    let has_o = store.offers().contains_key(offer_id);
    let has_b = store.bids().contains_key(bid_id);
    let o = store.offers()[offer_id];
    let b = store.bids()[bid_id];
    let tokens = repo.spec_ledger().token_balances();
    let stop = settlement_stop(o, b, tokens, mana.balances());
    let tstop = transfer_stop(
        repo.spec_ledger().class_map(),
        tokens,
        b.payment_token_class,
        b.buyer,
        o.seller,
        settlement_total(b),
        now,
    );
    let unchanged = mana2.balances() == mana.balances() && repo2.spec_ledger().token_balances() == tokens
        && repo2.logged() == repo.logged() && store_unchanged(store, store2);
    &&& repo2.spec_ledger().ledger_inv()
    &&& mana2.well_formed()
    &&& store2.store_inv()
    &&& repo2.spec_ledger().class_map() == repo.spec_ledger().class_map()
    &&& repo2.logs_events() == repo.logs_events()
    &&& !has_o ==> (r matches Err(CommonError::InvalidInputError(_))) && unchanged
    &&& has_o && !has_b ==> (r matches Err(CommonError::InvalidInputError(_))) && unchanged
    &&& has_o && has_b && stop != 0 ==> (r matches Err(CommonError::PolicyDenied(_))) && unchanged
    &&& has_o && has_b && stop == 0 && tstop != 0 ==> (r matches Err(CommonError::PolicyDenied(_))) && unchanged
    &&& r is Err ==> repo2.spec_ledger().token_balances() == tokens || repo2.spec_ledger().token_balances()
        == transferred(tokens, b.payment_token_class, b.buyer, o.seller, settlement_total(b))
    &&& r matches Ok(t) ==> {
        &&& has_o && has_b && stop == 0 && tstop == 0
        &&& fee_payable(mana.balances(), executor, true)
        &&& t.view() == settlement_record(o, b, offer_id, bid_id, now)
        &&& repo2.spec_ledger().token_balances() == transferred(
            tokens,
            b.payment_token_class,
            b.buyer,
            o.seller,
            settlement_total(b),
        )
        &&& logged_one(
            repo,
            repo2,
            (2int, b.payment_token_class, settlement_total(b), executor, Some(b.buyer), Some(o.seller), None),
        )
        &&& fee_charged(mana.balances(), mana2.balances(), executor)
        &&& store2.transactions() == store.transactions().insert(t.transaction_id@, t.view())
        &&& store2.offers() == store.offers().insert(o.offer_id, offer_after_settlement(o, b))
        &&& store2.bids() == store.bids().insert(b.bid_id, bid_after_settlement(b))
    }
}

/// The id `tx_{offer_id}_{bid_id}`.
fn settlement_transaction_id(offer_id: &str, bid_id: &str) -> (r: String)
    ensures
        r@ == settlement_id(offer_id@, bid_id@),
{
    let s = join2("tx_", offer_id).concat("_");
    proof {
        reveal_strlit("tx_");
        reveal_strlit("_");
    }
    s.concat(bid_id)
}

/// Settle bid `bid_id` against offer `offer_id` at time `now`: validate the
/// pair and the payment, move the payment from buyer to seller, charge the
/// fee to `executor`, then record the transaction, reduce the offer and
/// accept the bid.
pub fn execute_marketplace_transaction_at<L: ResourceLedger, M: ManaLedger, S: MarketplaceStore>(
    resource_repo: &mut ResourceRepositoryAdapter<L>,
    mana_ledger: &mut M,
    marketplace_store: &mut S,
    offer_id: &str,
    bid_id: &str,
    executor: &Did,
    now: u64,
) -> (r: Result<MarketplaceTransaction, CommonError>)
    requires
        old(resource_repo).spec_ledger().ledger_inv(),
        old(mana_ledger).well_formed(),
        old(marketplace_store).store_inv(),
        old(marketplace_store).offers().contains_key(offer_id@) && old(marketplace_store).bids().contains_key(bid_id@)
            ==> settlement_fits(
            old(marketplace_store).offers()[offer_id@],
            old(marketplace_store).bids()[bid_id@],
            old(resource_repo).spec_ledger().class_map(),
            old(resource_repo).spec_ledger().token_balances(),
            old(mana_ledger).balances(),
            now,
        ),
    ensures
        settlement_outcome(
            *old(resource_repo),
            *final(resource_repo),
            *old(mana_ledger),
            *final(mana_ledger),
            *old(marketplace_store),
            *final(marketplace_store),
            offer_id@,
            bid_id@,
            executor@,
            now,
            r,
        ),
{
    let mut offer = match marketplace_store.get_offer(offer_id) {
        Some(o) => o,
        None => {
            return Err(CommonError::InvalidInputError(join2("Offer ", offer_id).concat(" not found")));
        },
    };
    let mut bid = match marketplace_store.get_bid(bid_id) {
        Some(b) => b,
        None => {
            return Err(CommonError::InvalidInputError(join2("Bid ", bid_id).concat(" not found")));
        },
    };
    let validation = validate_marketplace_transaction(&offer, &bid, resource_repo.ledger(), &*mana_ledger);
    if !validation.is_valid {
        let msg = match validation.error_message {
            Some(m) => m,
            None => String::from_str("Marketplace transaction validation failed"),
        };
        return Err(CommonError::PolicyDenied(msg));
    }
    let total_price = bid.price_per_unit * bid.quantity;
    let transfer_context = ValidationContext {
        operation_type: String::from_str("marketplace_transfer"),
        amount: total_price,
        account: bid.buyer.duplicate(),
        resource_type: Some(bid.payment_token_class.clone()),
        cross_cooperative: true,
        reputation_required: false,
    };
    let transfer_validation = validate_token_transfer_at(
        resource_repo.ledger(),
        bid.payment_token_class.as_str(),
        &bid.buyer,
        &offer.seller,
        total_price,
        &transfer_context,
        now,
    );
    if !transfer_validation.is_valid {
        let msg = match transfer_validation.error_message {
            Some(m) => m,
            None => String::from_str("Token transfer validation failed"),
        };
        return Err(CommonError::PolicyDenied(msg));
    }
    resource_repo.transfer(executor, bid.payment_token_class.as_str(), total_price, &bid.buyer, &offer.seller, None)?;
    let mana_context = ValidationContext {
        operation_type: String::from_str("marketplace_fee"),
        amount: TOKEN_FEE,
        account: executor.duplicate(),
        resource_type: None,
        cross_cooperative: true,
        reputation_required: false,
    };
    let mana_validation = validate_mana_spend(&*mana_ledger, executor, TOKEN_FEE, &mana_context);
    if !mana_validation.is_valid {
        let msg = match mana_validation.error_message {
            Some(m) => m,
            None => String::from_str("Mana fee validation failed"),
        };
        return Err(CommonError::PolicyDenied(msg));
    }
    charge_mana(mana_ledger, executor, TOKEN_FEE)?;
    let transaction = MarketplaceTransaction {
        transaction_id: settlement_transaction_id(offer_id, bid_id),
        offer_id: offer.offer_id.clone(),
        bid_id: bid.bid_id.clone(),
        seller: offer.seller.duplicate(),
        buyer: bid.buyer.duplicate(),
        item_type: offer.item_type.duplicate(),
        quantity: bid.quantity,
        price_per_unit: bid.price_per_unit,
        total_price,
        payment_token_class: bid.payment_token_class.clone(),
        completed_at: now,
        status: TransactionStatus::Pending,
        fulfillment: FulfillmentDetails {
            method: FulfillmentMethod::Remote,
            expected_date: None,
            actual_date: None,
            tracking_info: None,
        },
    };
    marketplace_store.record_transaction(transaction.duplicate())?;
    offer.quantity = offer.quantity - bid.quantity;
    if offer.quantity == 0 {
        offer.status = OfferStatus::Fulfilled;
    }
    marketplace_store.update_offer(offer)?;
    bid.status = BidStatus::Accepted;
    marketplace_store.update_bid(bid)?;
    Ok(transaction)
}

/// Settle bid `bid_id` against offer `offer_id` now, by the system clock.
pub fn execute_marketplace_transaction<L: ResourceLedger, M: ManaLedger, S: MarketplaceStore>(
    resource_repo: &mut ResourceRepositoryAdapter<L>,
    mana_ledger: &mut M,
    marketplace_store: &mut S,
    offer_id: &str,
    bid_id: &str,
    executor: &Did,
) -> (r: Result<MarketplaceTransaction, CommonError>)
    requires
        old(resource_repo).spec_ledger().ledger_inv(),
        old(mana_ledger).well_formed(),
        old(marketplace_store).store_inv(),
        forall|now: u64|
            old(marketplace_store).offers().contains_key(offer_id@) && old(marketplace_store).bids().contains_key(
                bid_id@,
            ) ==> #[trigger] settlement_fits(
                old(marketplace_store).offers()[offer_id@],
                old(marketplace_store).bids()[bid_id@],
                old(resource_repo).spec_ledger().class_map(),
                old(resource_repo).spec_ledger().token_balances(),
                old(mana_ledger).balances(),
                now,
            ),
    ensures
        exists|now: u64|
            #[trigger] settlement_outcome(
                *old(resource_repo),
                *final(resource_repo),
                *old(mana_ledger),
                *final(mana_ledger),
                *old(marketplace_store),
                *final(marketplace_store),
                offer_id@,
                bid_id@,
                executor@,
                now,
                r,
            ),
{
    let now = unix_seconds();
    let r = execute_marketplace_transaction_at(resource_repo, mana_ledger, marketplace_store, offer_id, bid_id, executor, now);
    r
}

} // verus!
