//! Checks run before a token transfer, a marketplace settlement or a
//! cross-cooperative allocation goes ahead.
//!
//! Each check has a number, in the order in which the checks run; a refused
//! operation stops at the first check that fails, and the specification
//! functions below name that check.

use vstd::prelude::*;
use vstd::string::*;
use crate::assoc::{assoc_map, lookup_or, keys_distinct};
use crate::clock::unix_seconds;
use crate::did::Did;
use crate::error::CommonError;
use crate::mana_ledger::{ManaLedger, balance_in};
use crate::marketplace::{MarketplaceOffer, MarketplaceBid, OfferView, BidView, OfferStatus, BidStatus};
use crate::policy::{ValidationContext, ValidationResult, TOKEN_FEE, push_str, invalid, texts};
use crate::reputation::ReputationStore;
use crate::resource_ledger::{ResourceLedger, TokenClassId, TokenClassView, token_balance, transfer_allowed};
use crate::text::{join2, text_with_number, text_number_text, text_two_numbers, tenths_text, decimal, one_decimal};

verus! {

/// The text that an error carries.
pub open spec fn error_text(e: CommonError) -> Seq<char> {
    match e {
        CommonError::PolicyDenied(m) => m@,
        CommonError::InvalidInputError(m) => m@,
        CommonError::DatabaseError(m) => m@,
        CommonError::IoError(m) => m@,
        CommonError::SerializationError(m) => m@,
        CommonError::DeserializationError(m) => m@,
        CommonError::ResourceNotFound(m) => m@,
        CommonError::InsufficientFunds(m) => m@,
        CommonError::CRDTError(m) => m@,
        CommonError::LockError(m) => m@,
        CommonError::NotImplementedError(m) => m@,
        CommonError::InternalError(m) => m@,
        CommonError::InsufficientConsensus => Seq::empty(),
        CommonError::AccountNotActive => Seq::empty(),
    }
}

impl CommonError {
    /// The text that the error carries.
    pub fn message(&self) -> (r: String)
        ensures
            r@ == error_text(*self),
    {
        match self {
            CommonError::PolicyDenied(m) => m.clone(),
            CommonError::InvalidInputError(m) => m.clone(),
            CommonError::DatabaseError(m) => m.clone(),
            CommonError::IoError(m) => m.clone(),
            CommonError::SerializationError(m) => m.clone(),
            CommonError::DeserializationError(m) => m.clone(),
            CommonError::ResourceNotFound(m) => m.clone(),
            CommonError::InsufficientFunds(m) => m.clone(),
            CommonError::CRDTError(m) => m.clone(),
            CommonError::LockError(m) => m.clone(),
            CommonError::NotImplementedError(m) => m.clone(),
            CommonError::InternalError(m) => m.clone(),
            CommonError::InsufficientConsensus => {
                proof {
                    reveal_strlit("");
                }
                String::from_str("")
            },
            CommonError::AccountNotActive => {
                proof {
                    reveal_strlit("");
                }
                String::from_str("")
            },
        }
    }
}

/// Whether `now` lies outside a validity period (start, end), both ends
/// included in the period.
pub open spec fn outside_validity(period: Option<(u64, u64)>, now: u64) -> bool {
    match period {
        Some((start, end)) => now < start || now > end,
        None => false,
    }
}

/// The check at which a token transfer fails before the clock is read: 1 for
/// a zero amount or a transfer to oneself, 2 for an unknown class, 3 when the
/// class rules refuse the recipient, 4 when the sender holds too little; 0
/// when it passes them all.
pub open spec fn transfer_stop_static(
    classes: Map<Seq<char>, TokenClassView>,
    balances: Map<(Seq<char>, Seq<char>), u64>,
    class_id: Seq<char>,
    from: Seq<char>,
    to: Seq<char>,
    amount: u64,
) -> int {
    if amount == 0 || from == to {
        1
    } else if !classes.contains_key(class_id) {
        2
    } else if !transfer_allowed(classes[class_id], to) {
        3
    } else if token_balance(balances, class_id, from) < amount {
        4
    } else {
        0
    }
}

/// The check at which a token transfer at time `now` fails (5: the time is
/// outside the class's validity period), or 0 when it passes every check.
pub open spec fn transfer_stop(
    classes: Map<Seq<char>, TokenClassView>,
    balances: Map<(Seq<char>, Seq<char>), u64>,
    class_id: Seq<char>,
    from: Seq<char>,
    to: Seq<char>,
    amount: u64,
    now: u64,
) -> int {
    let s = transfer_stop_static(classes, balances, class_id, from, to, amount);
    if s != 0 {
        s
    } else if outside_validity(classes[class_id].scoping.validity_period, now) {
        5
    } else {
        0
    }
}

/// Warnings of a transfer that passes: a class with a supply limit, a
/// transfer of more than half the sender's balance, and a cross-cooperative
/// transfer each give one.
pub open spec fn transfer_warnings(class: TokenClassView, balance: u64, amount: u64, cross: bool) -> int {
    (if class.scoping.max_supply is Some { 1int } else { 0int }) + (if amount > balance / 2 { 1int } else { 0int })
        + (if cross { 1int } else { 0int })
}

/// The checks that validating a token transfer runs, in order.
pub open spec fn transfer_check_names() -> Seq<Seq<char>> {
    seq![
        "parameter_validation"@,
        "token_class_exists"@,
        "transferability_rules"@,
        "balance_check"@,
        "validity_period"@,
        "supply_limits"@,
        "large_transfer_warning"@,
        "cross_cooperative_check"@,
    ]
}

/// The message of a refused token transfer, for the first check that fails;
/// when the checks that do not read the clock pass, only the validity period
/// can refuse it.
pub open spec fn transfer_error(
    classes: Map<Seq<char>, TokenClassView>,
    balances: Map<(Seq<char>, Seq<char>), u64>,
    class_id: Seq<char>,
    from: Seq<char>,
    to: Seq<char>,
    amount: u64,
) -> Seq<char> {
    if amount == 0 {
        "Transfer amount must be greater than zero"@
    } else if from == to {
        "Cannot transfer to self"@
    } else if !classes.contains_key(class_id) {
        "Token class '"@ + class_id + "' not found"@
    } else if !transfer_allowed(classes[class_id], to) {
        "Transfer not allowed by token rules"@
    } else if token_balance(balances, class_id, from) < amount {
        "Insufficient token balance: available="@ + decimal(token_balance(balances, class_id, from) as nat)
            + ", required="@ + decimal(amount as nat)
    } else {
        "Token is outside its validity period"@
    }
}

/// The warnings of a transfer that passes, in order: the class's supply
/// limit, a transfer of more than half the sender's balance, and a
/// cross-cooperative transfer.
pub open spec fn transfer_warning_texts(class: TokenClassView, balance: u64, amount: u64, cross: bool) -> Seq<
    Seq<char>,
> {
    (match class.scoping.max_supply {
        Some(m) => seq!["Token class has max supply limit: "@ + decimal(m as nat)],
        None => Seq::<Seq<char>>::empty(),
    }) + (if amount > balance / 2 {
        seq!["Large transfer: more than 50% of sender's balance"@]
    } else {
        Seq::<Seq<char>>::empty()
    }) + (if cross {
        seq!["Cross-cooperative transfer detected"@]
    } else {
        Seq::<Seq<char>>::empty()
    })
}

/// What validating a transfer of `amount` tokens of `class_id` from `from`
/// to `to` at time `now` gives: it is valid exactly when it passes every
/// check; a refusal carries the message of the first check that fails; a
/// valid transfer carries its warnings.
pub open spec fn transfer_validation<L: ResourceLedger>(
    ledger: L,
    class_id: Seq<char>,
    from: Seq<char>,
    to: Seq<char>,
    amount: u64,
    cross: bool,
    now: u64,
    r: ValidationResult,
) -> bool {
    &&& (r.is_valid <==> transfer_stop(ledger.class_map(), ledger.token_balances(), class_id, from, to, amount, now)
        == 0)
    &&& (r.error_message is Some <==> !r.is_valid)
    &&& (r.checks_performed@.len() == if r.is_valid {
        8
    } else {
        transfer_stop(ledger.class_map(), ledger.token_balances(), class_id, from, to, amount, now)
    })
    &&& (r.is_valid ==> r.warnings@.len() == transfer_warnings(
        ledger.class_map()[class_id],
        token_balance(ledger.token_balances(), class_id, from),
        amount,
        cross,
    ))
    &&& (!r.is_valid ==> r.warnings@.len() == 0)
    &&& (r.error_message matches Some(m) ==> m@ == transfer_error(
        ledger.class_map(),
        ledger.token_balances(),
        class_id,
        from,
        to,
        amount,
    ))
    &&& (texts(r.checks_performed@) == transfer_check_names().take(r.checks_performed@.len() as int))
    &&& (r.is_valid ==> texts(r.warnings@) == transfer_warning_texts(
        ledger.class_map()[class_id],
        token_balance(ledger.token_balances(), class_id, from),
        amount,
        cross,
    ))
}

/// Validate a transfer of `amount` tokens of `class_id` from `from` to `to`
/// at time `now`.
pub fn validate_token_transfer_at<L: ResourceLedger>(
    ledger: &L,
    class_id: &str,
    from: &Did,
    to: &Did,
    amount: u64,
    context: &ValidationContext,
    now: u64,
) -> (r: ValidationResult)
    requires
        ledger.ledger_inv(),
    ensures
        transfer_validation(*ledger, class_id@, from@, to@, amount, context.cross_cooperative, now, r),
{
    let ghost names = transfer_check_names();
    let mut warnings: Vec<String> = Vec::new();
    let mut checks: Vec<String> = Vec::new();
    push_str(&mut checks, "parameter_validation");
    assert(texts(checks@) =~= names.take(1));
    if amount == 0 {
        return invalid(String::from_str("Transfer amount must be greater than zero"), warnings, checks);
    }
    if from.same_as(to) {
        return invalid(String::from_str("Cannot transfer to self"), warnings, checks);
    }
    push_str(&mut checks, "token_class_exists");
    assert(texts(checks@) =~= names.take(2));
    let cid: TokenClassId = String::from_str(class_id);
    let token_class = match ledger.get_class(&cid) {
        Some(c) => c,
        None => {
            let m = join2("Token class '", class_id).concat("' not found");
            return invalid(m, warnings, checks);
        },
    };
    push_str(&mut checks, "transferability_rules");
    assert(texts(checks@) =~= names.take(3));
    match ledger.can_transfer(&cid, from, to, amount) {
        Ok(true) => {},
        Ok(false) => {
            return invalid(String::from_str("Transfer not allowed by token rules"), warnings, checks);
        },
        Err(e) => {
            let text = e.message();
            return invalid(join2("Transfer validation failed: ", text.as_str()), warnings, checks);
        },
    }
    push_str(&mut checks, "balance_check");
    assert(texts(checks@) =~= names.take(4));
    let from_balance = ledger.get_balance(&cid, from);
    if from_balance < amount {
        return invalid(
            text_two_numbers("Insufficient token balance: available=", from_balance, ", required=", amount),
            warnings,
            checks,
        );
    }
    push_str(&mut checks, "validity_period");
    assert(texts(checks@) =~= names.take(5));
    if let Some((start_time, end_time)) = token_class.scoping_rules.validity_period {
        if now < start_time || now > end_time {
            return invalid(String::from_str("Token is outside its validity period"), warnings, checks);
        }
    }
    push_str(&mut checks, "supply_limits");
    assert(texts(checks@) =~= names.take(6));
    if let Some(max_supply) = token_class.scoping_rules.max_supply {
        warnings.push(text_with_number("Token class has max supply limit: ", max_supply));
    }
    let ghost w1 = texts(warnings@);
    push_str(&mut checks, "large_transfer_warning");
    assert(texts(checks@) =~= names.take(7));
    if amount > from_balance / 2 {
        push_str(&mut warnings, "Large transfer: more than 50% of sender's balance");
        assert(texts(warnings@) =~= w1 + seq!["Large transfer: more than 50% of sender's balance"@]);
    } else {
        assert(texts(warnings@) =~= w1 + Seq::<Seq<char>>::empty());
    }
    let ghost w2 = texts(warnings@);
    push_str(&mut checks, "cross_cooperative_check");
    assert(texts(checks@) =~= names.take(8));
    if context.cross_cooperative {
        push_str(&mut warnings, "Cross-cooperative transfer detected");
        assert(texts(warnings@) =~= w2 + seq!["Cross-cooperative transfer detected"@]);
    } else {
        assert(texts(warnings@) =~= w2 + Seq::<Seq<char>>::empty());
    }
    let r = ValidationResult { is_valid: true, error_message: None, warnings, checks_performed: checks };
    proof {
        let cv = ledger.class_map()[class_id@];
        let bal = token_balance(ledger.token_balances(), class_id@, from@);
        assert(texts(r.warnings@) == transfer_warning_texts(cv, bal, amount, context.cross_cooperative));
        assert(r.warnings@.len() == transfer_warnings(cv, bal, amount, context.cross_cooperative));
        assert(texts(r.checks_performed@) == transfer_check_names().take(r.checks_performed@.len() as int));
    }
    r
}

/// Validate a transfer of `amount` tokens of `class_id` from `from` to `to`
/// now. The validity period of the class is checked against the system
/// clock; the other checks do not depend on it.
pub fn validate_token_transfer<L: ResourceLedger>(
    ledger: &L,
    class_id: &str,
    from: &Did,
    to: &Did,
    amount: u64,
    context: &ValidationContext,
) -> (r: ValidationResult)
    requires
        ledger.ledger_inv(),
    ensures
        transfer_stop_static(ledger.class_map(), ledger.token_balances(), class_id@, from@, to@, amount) != 0 ==> !r.is_valid
            && r.checks_performed@.len() == transfer_stop_static(
            ledger.class_map(),
            ledger.token_balances(),
            class_id@,
            from@,
            to@,
            amount,
        ),
        transfer_stop_static(ledger.class_map(), ledger.token_balances(), class_id@, from@, to@, amount) == 0
            && ledger.class_map()[class_id@].scoping.validity_period is None ==> r.is_valid,
        transfer_stop_static(ledger.class_map(), ledger.token_balances(), class_id@, from@, to@, amount) == 0
            && !r.is_valid ==> r.checks_performed@.len() == 5,
        r.is_valid ==> r.checks_performed@.len() == 8 && r.warnings@.len() == transfer_warnings(
            ledger.class_map()[class_id@],
            token_balance(ledger.token_balances(), class_id@, from@),
            amount,
            context.cross_cooperative,
        ),
        r.error_message is Some <==> !r.is_valid,
        !r.is_valid ==> r.warnings@.len() == 0,
        r.error_message matches Some(m) ==> m@ == transfer_error(
            ledger.class_map(),
            ledger.token_balances(),
            class_id@,
            from@,
            to@,
            amount,
        ),
        texts(r.checks_performed@) == transfer_check_names().take(r.checks_performed@.len() as int),
        r.is_valid ==> texts(r.warnings@) == transfer_warning_texts(
            ledger.class_map()[class_id@],
            token_balance(ledger.token_balances(), class_id@, from@),
            amount,
            context.cross_cooperative,
        ),
        exists|now: u64|
            #[trigger] transfer_validation(*ledger, class_id@, from@, to@, amount, context.cross_cooperative, now, r),
{
    let now = unix_seconds();
    let r = validate_token_transfer_at(ledger, class_id, from, to, amount, context, now);
    assert(transfer_validation(*ledger, class_id@, from@, to@, amount, context.cross_cooperative, now, r));
    r
}

/// Whether a bid price lies more than a fifth above the asking price.
pub open spec fn price_well_above(bid_price: u64, ask_price: u64) -> bool {
    bid_price > ask_price && 5 * (bid_price - ask_price) > ask_price
}

/// The check at which settling `b` against `o` fails: 1 when the bid is for
/// another offer, 2 when it asks for more than is offered, 3 when the buyer
/// holds too few payment tokens, 4 when the buyer lacks mana for the fee, 5
/// when the offer or the bid is not active; 0 when it passes them all.
pub open spec fn settlement_stop(
    o: OfferView,
    b: BidView,
    tokens: Map<(Seq<char>, Seq<char>), u64>,
    mana: Map<Seq<char>, u64>,
) -> int {
    if b.offer_id != o.offer_id {
        1
    } else if b.quantity > o.quantity {
        2
    } else if token_balance(tokens, b.payment_token_class, b.buyer) < b.price_per_unit * b.quantity {
        3
    } else if balance_in(mana, b.buyer) < TOKEN_FEE {
        4
    } else if o.status != OfferStatus::Active || b.status != BidStatus::Active {
        5
    } else {
        0
    }
}

/// Warnings of a settlement that passes: a bid well above the asking price,
/// and a total above 10000 tokens, each give one.
pub open spec fn settlement_warnings(o: OfferView, b: BidView) -> int {
    (if price_well_above(b.price_per_unit, o.price_per_unit) { 1int } else { 0int }) + (if b.price_per_unit
        * b.quantity > 10000 { 1int } else { 0int })
}

/// The checks that validating a settlement runs, in order.
pub open spec fn settlement_check_names() -> Seq<Seq<char>> {
    seq![
        "offer_bid_compatibility"@,
        "quantity_availability"@,
        "buyer_balance"@,
        "buyer_mana"@,
        "status_check"@,
        "price_reasonableness"@,
        "large_transaction_warning"@,
    ]
}

/// The message of a refused settlement, for the first check that fails.
pub open spec fn settlement_error(
    o: OfferView,
    b: BidView,
    tokens: Map<(Seq<char>, Seq<char>), u64>,
    mana: Map<Seq<char>, u64>,
) -> Seq<char> {
    if b.offer_id != o.offer_id {
        "Bid does not match offer"@
    } else if b.quantity > o.quantity {
        "Bid quantity exceeds available quantity"@
    } else if token_balance(tokens, b.payment_token_class, b.buyer) < b.price_per_unit * b.quantity {
        "Buyer has insufficient tokens: available="@ + decimal(
            token_balance(tokens, b.payment_token_class, b.buyer) as nat,
        ) + ", required="@ + decimal((b.price_per_unit * b.quantity) as nat)
    } else if balance_in(mana, b.buyer) < TOKEN_FEE {
        "Buyer has insufficient mana for transaction fee: available="@ + decimal(balance_in(mana, b.buyer) as nat)
            + ", required="@ + decimal(TOKEN_FEE as nat)
    } else if o.status != OfferStatus::Active {
        "Offer is not active"@
    } else {
        "Bid is not active"@
    }
}

/// How far a bid price lies above the asking price, in tenths of a percent
/// of the asking price, rounded half up.
pub open spec fn markup_tenths(bid_price: u64, ask_price: u64) -> nat {
    (((bid_price - ask_price) * 2000 + ask_price) / (2 * ask_price)) as nat
}

/// The warnings of a settlement that passes, in order: a bid well above the
/// asking price (by how much, or "inf" for a free offer), and a total above
/// 10000 tokens.
pub open spec fn settlement_warning_texts(o: OfferView, b: BidView) -> Seq<Seq<char>> {
    (if price_well_above(b.price_per_unit, o.price_per_unit) {
        if o.price_per_unit == 0 {
            seq!["Bid price is inf% above asking price"@]
        } else {
            seq!["Bid price is "@ + one_decimal(markup_tenths(b.price_per_unit, o.price_per_unit))
                + "% above asking price"@]
        }
    } else {
        Seq::<Seq<char>>::empty()
    }) + (if b.price_per_unit * b.quantity > 10000 {
        seq!["Large transaction detected: "@ + decimal((b.price_per_unit * b.quantity) as nat) + " tokens"@]
    } else {
        Seq::<Seq<char>>::empty()
    })
}

/// The total price of a matching bid fits in a `u64`.
pub open spec fn settlement_total_fits(o: OfferView, b: BidView) -> bool {
    b.offer_id == o.offer_id && b.quantity <= o.quantity ==> b.price_per_unit * b.quantity <= u64::MAX
}

/// `part` as a share of `whole`, in tenths of a percent, rounded half up.
fn percent_tenths(part: u64, whole: u64) -> (r: u128)
    requires
        whole > 0,
    ensures
        r == (part * 2000 + whole) / (2 * whole),
{
    let num: u128 = (part as u128) * 2000 + (whole as u128);
    num / (2 * (whole as u128))
}

/// Validate a marketplace settlement of `bid` against `offer` before it runs.
pub fn validate_marketplace_transaction<L: ResourceLedger, M: ManaLedger>(
    offer: &MarketplaceOffer,
    bid: &MarketplaceBid,
    resource_ledger: &L,
    mana_ledger: &M,
) -> (r: ValidationResult)
    requires
        resource_ledger.ledger_inv(),
        mana_ledger.well_formed(),
        settlement_total_fits(offer.view(), bid.view()),
    ensures
        r.is_valid <==> settlement_stop(
            offer.view(),
            bid.view(),
            resource_ledger.token_balances(),
            mana_ledger.balances(),
        ) == 0,
        r.error_message is Some <==> !r.is_valid,
        r.checks_performed@.len() == if r.is_valid {
            7
        } else {
            settlement_stop(offer.view(), bid.view(), resource_ledger.token_balances(), mana_ledger.balances())
        },
        r.is_valid ==> r.warnings@.len() == settlement_warnings(offer.view(), bid.view()),
        !r.is_valid ==> r.warnings@.len() == 0,
        r.error_message matches Some(m) ==> m@ == settlement_error(
            offer.view(),
            bid.view(),
            resource_ledger.token_balances(),
            mana_ledger.balances(),
        ),
        texts(r.checks_performed@) == settlement_check_names().take(r.checks_performed@.len() as int),
        r.is_valid ==> texts(r.warnings@) == settlement_warning_texts(offer.view(), bid.view()),
{
    let ghost names = settlement_check_names();
    let mut warnings: Vec<String> = Vec::new();
    let mut checks: Vec<String> = Vec::new();
    push_str(&mut checks, "offer_bid_compatibility");
    assert(texts(checks@) =~= names.take(1));
    if bid.offer_id != offer.offer_id {
        return invalid(String::from_str("Bid does not match offer"), warnings, checks);
    }
    push_str(&mut checks, "quantity_availability");
    assert(texts(checks@) =~= names.take(2));
    if bid.quantity > offer.quantity {
        return invalid(String::from_str("Bid quantity exceeds available quantity"), warnings, checks);
    }
    push_str(&mut checks, "buyer_balance");
    assert(texts(checks@) =~= names.take(3));
    let total_cost = bid.price_per_unit * bid.quantity;
    let buyer_balance = resource_ledger.get_balance(&bid.payment_token_class, &bid.buyer);
    if buyer_balance < total_cost {
        return invalid(
            text_two_numbers("Buyer has insufficient tokens: available=", buyer_balance, ", required=", total_cost),
            warnings,
            checks,
        );
    }
    push_str(&mut checks, "buyer_mana");
    assert(texts(checks@) =~= names.take(4));
    let buyer_mana = mana_ledger.get_balance(&bid.buyer);
    if buyer_mana < TOKEN_FEE {
        return invalid(
            text_two_numbers(
                "Buyer has insufficient mana for transaction fee: available=",
                buyer_mana,
                ", required=",
                TOKEN_FEE,
            ),
            warnings,
            checks,
        );
    }
    push_str(&mut checks, "status_check");
    assert(texts(checks@) =~= names.take(5));
    if offer.status != OfferStatus::Active {
        return invalid(String::from_str("Offer is not active"), warnings, checks);
    }
    if bid.status != BidStatus::Active {
        return invalid(String::from_str("Bid is not active"), warnings, checks);
    }
    push_str(&mut checks, "price_reasonableness");
    assert(texts(checks@) =~= names.take(6));
    if bid.price_per_unit > offer.price_per_unit {
        let diff = bid.price_per_unit - offer.price_per_unit;
        if (diff as u128) * 5 > (offer.price_per_unit as u128) {
            if offer.price_per_unit == 0 {
                push_str(&mut warnings, "Bid price is inf% above asking price");
            } else {
                let t = percent_tenths(diff, offer.price_per_unit);
                let pct = tenths_text(t);
                warnings.push(join2("Bid price is ", pct.as_str()).concat("% above asking price"));
            }
        }
    }
    let ghost w1 = texts(warnings@);
    push_str(&mut checks, "large_transaction_warning");
    assert(texts(checks@) =~= names.take(7));
    if total_cost > 10000 {
        warnings.push(text_number_text("Large transaction detected: ", total_cost, " tokens"));
        assert(texts(warnings@) =~= w1 + seq![("Large transaction detected: "@ + decimal(total_cost as nat)) + " tokens"@]);
    } else {
        assert(texts(warnings@) =~= w1 + Seq::<Seq<char>>::empty());
    }
    ValidationResult { is_valid: true, error_message: None, warnings, checks_performed: checks }
}

/// Priority of a resource request.
#[derive(Debug, Clone, Copy, PartialEq, Eq, Structural)]
pub enum ResourcePriority {
    Low,
    Normal,
    High,
    Critical,
}

/// Resource specification for cross-cooperative allocation.
#[derive(Debug)]
pub struct ResourceSpec {
    pub resource_type: String,
    pub amount: u64,
    /// Duration in seconds.
    pub duration: Option<u64>,
    pub priority: ResourcePriority,
    pub requirements: Vec<(String, String)>,
}

/// (resource type, amount) pairs of a resource table.
pub open spec fn resource_pairs(s: Seq<(String, u64)>) -> Seq<(Seq<char>, u64)> {
    s.map_values(|p: (String, u64)| (p.0@, p.1))
}

/// The amount of `resource_type` that a table lists; an unlisted type has
/// none.
pub open spec fn available_amount(table: Seq<(String, u64)>, resource_type: Seq<char>) -> u64 {
    lookup_or(assoc_map(resource_pairs(table)), resource_type, 0u64)
}

/// The check at which an allocation request fails: 1 when less is available
/// than requested, 2 when a critical request comes from an account with
/// reputation under 80; 0 when it passes.
pub open spec fn allocation_stop(available: u64, amount: u64, priority: ResourcePriority, reputation: u64) -> int {
    if available < amount {
        1
    } else if priority == ResourcePriority::Critical && reputation < 80 {
        2
    } else {
        0
    }
}

/// Warnings of an allocation that passes: a high-priority request from an
/// account with reputation under 60, a duration over 24 hours, and a request
/// for more than half of what is available each give one.
pub open spec fn allocation_warnings(
    available: u64,
    amount: u64,
    duration: Option<u64>,
    priority: ResourcePriority,
    reputation: u64,
) -> int {
    (if priority == ResourcePriority::High && reputation < 60 { 1int } else { 0int }) + (if duration matches Some(d)
        && d > 86400 { 1int } else { 0int }) + (if 2 * amount > available { 1int } else { 0int })
}

/// The checks that validating an allocation request runs, in order.
pub open spec fn allocation_check_names() -> Seq<Seq<char>> {
    seq!["resource_availability"@, "reputation_check"@, "duration_limits"@, "utilization_efficiency"@]
}

/// The message of a refused allocation request, for the first check that
/// fails.
pub open spec fn allocation_error(available: u64, amount: u64, reputation: u64) -> Seq<char> {
    if available < amount {
        "Insufficient resources: available="@ + decimal(available as nat) + ", requested="@ + decimal(amount as nat)
    } else {
        "Insufficient reputation for critical priority: required=80, actual="@ + decimal(reputation as nat)
    }
}

/// The warnings of an allocation that passes, in order: a high-priority
/// request from an account with reputation under 60, a duration over 24
/// hours, and a request for more than half of what is available (with its
/// share in percent).
pub open spec fn allocation_warning_texts(
    available: u64,
    amount: u64,
    duration: Option<u64>,
    priority: ResourcePriority,
    reputation: u64,
) -> Seq<Seq<char>> {
    (if priority == ResourcePriority::High && reputation < 60 {
        seq!["Low reputation for high priority request: "@ + decimal(reputation as nat)]
    } else {
        Seq::<Seq<char>>::empty()
    }) + (if duration matches Some(d) && d > 86400 {
        seq!["Long duration allocation requested (>24 hours)"@]
    } else {
        Seq::<Seq<char>>::empty()
    }) + (if 2 * amount > available {
        seq!["High resource utilization: "@ + one_decimal((((amount * 2000 + available) / (2 * available))) as nat)
            + "% of available resources"@]
    } else {
        Seq::<Seq<char>>::empty()
    })
}

/// The amount of `resource_type` listed in `table`.
fn lookup_available(table: &Vec<(String, u64)>, resource_type: &String) -> (r: u64)
    ensures
        r == available_amount(table@, resource_type@),
{
    let mut found: u64 = 0;
    let mut i: usize = 0;
    while i < table.len()
        invariant
            i <= table@.len(),
            found == lookup_or(assoc_map(resource_pairs(table@.take(i as int))), resource_type@, 0u64),
        decreases table@.len() - i,
    {
        proof {
            assert(resource_pairs(table@.take(i + 1)).drop_last() =~= resource_pairs(table@.take(i as int)));
            assert(resource_pairs(table@.take(i + 1)).last() == (table@[i as int].0@, table@[i as int].1));
        }
        if table[i].0 == *resource_type {
            found = table[i].1;
        }
        i = i + 1;
    }
    proof {
        assert(table@.take(table@.len() as int) =~= table@);
    }
    found
}

/// Validate a request of `requester` for resources of another cooperative,
/// given the amount available of each resource type, each type listed once.
pub fn validate_cross_cooperative_allocation<R: ReputationStore>(
    requester: &Did,
    resource_spec: &ResourceSpec,
    available_resources: &Vec<(String, u64)>,
    reputation_store: &R,
) -> (r: ValidationResult)
    requires
        reputation_store.store_inv(),
        keys_distinct(resource_pairs(available_resources@)),
    ensures
        r.is_valid <==> allocation_stop(
            available_amount(available_resources@, resource_spec.resource_type@),
            resource_spec.amount,
            resource_spec.priority,
            reputation_store.reputation_of(requester@),
        ) == 0,
        r.error_message is Some <==> !r.is_valid,
        r.checks_performed@.len() == if r.is_valid {
            4
        } else {
            allocation_stop(
                available_amount(available_resources@, resource_spec.resource_type@),
                resource_spec.amount,
                resource_spec.priority,
                reputation_store.reputation_of(requester@),
            )
        },
        r.is_valid ==> r.warnings@.len() == allocation_warnings(
            available_amount(available_resources@, resource_spec.resource_type@),
            resource_spec.amount,
            resource_spec.duration,
            resource_spec.priority,
            reputation_store.reputation_of(requester@),
        ),
        !r.is_valid ==> r.warnings@.len() == 0,
        r.error_message matches Some(m) ==> m@ == allocation_error(
            available_amount(available_resources@, resource_spec.resource_type@),
            resource_spec.amount,
            reputation_store.reputation_of(requester@),
        ),
        texts(r.checks_performed@) == allocation_check_names().take(r.checks_performed@.len() as int),
        r.is_valid ==> texts(r.warnings@) == allocation_warning_texts(
            available_amount(available_resources@, resource_spec.resource_type@),
            resource_spec.amount,
            resource_spec.duration,
            resource_spec.priority,
            reputation_store.reputation_of(requester@),
        ),
{
    let ghost names = allocation_check_names();
    let mut warnings: Vec<String> = Vec::new();
    let mut checks: Vec<String> = Vec::new();
    push_str(&mut checks, "resource_availability");
    assert(texts(checks@) =~= names.take(1));
    let available = lookup_available(available_resources, &resource_spec.resource_type);
    if available < resource_spec.amount {
        return invalid(
            text_two_numbers("Insufficient resources: available=", available, ", requested=", resource_spec.amount),
            warnings,
            checks,
        );
    }
    push_str(&mut checks, "reputation_check");
    assert(texts(checks@) =~= names.take(2));
    let reputation = reputation_store.get_reputation(requester);
    match resource_spec.priority {
        ResourcePriority::Critical => {
            if reputation < 80 {
                return invalid(
                    text_with_number("Insufficient reputation for critical priority: required=80, actual=", reputation),
                    warnings,
                    checks,
                );
            }
        },
        ResourcePriority::High => {
            if reputation < 60 {
                warnings.push(text_with_number("Low reputation for high priority request: ", reputation));
            }
        },
        _ => {},
    }
    let ghost w1 = texts(warnings@);
    push_str(&mut checks, "duration_limits");
    assert(texts(checks@) =~= names.take(3));
    if let Some(duration) = resource_spec.duration {
        if duration > 86400 {
            push_str(&mut warnings, "Long duration allocation requested (>24 hours)");
            assert(texts(warnings@) =~= w1 + seq!["Long duration allocation requested (>24 hours)"@]);
        } else {
            assert(texts(warnings@) =~= w1 + Seq::<Seq<char>>::empty());
        }
    } else {
        assert(texts(warnings@) =~= w1 + Seq::<Seq<char>>::empty());
    }
    let ghost w2 = texts(warnings@);
    push_str(&mut checks, "utilization_efficiency");
    assert(texts(checks@) =~= names.take(4));
    if (resource_spec.amount as u128) * 2 > (available as u128) {
        let t = percent_tenths(resource_spec.amount, available);
        let pct = tenths_text(t);
        warnings.push(join2("High resource utilization: ", pct.as_str()).concat("% of available resources"));
        assert(texts(warnings@) =~= w2 + seq![("High resource utilization: "@ + one_decimal(t as nat))
            + "% of available resources"@]);
    } else {
        assert(texts(warnings@) =~= w2 + Seq::<Seq<char>>::empty());
    }
    ValidationResult { is_valid: true, error_message: None, warnings, checks_performed: checks }
}

} // verus!
