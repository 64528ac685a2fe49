//! Mana operations behind policy checks: the repository adapter that records
//! ledger events, the spend-limit enforcer, validation of mana spends, and the
//! crate-level charge, credit and reputation operations.

use vstd::prelude::*;
use vstd::string::*;
use crate::did::Did;
use crate::error::CommonError;
use crate::events::{LedgerEvent, MemoryEventStore, event_view, events_view, replay, bal};
use crate::mana_ledger::{ManaLedger, balance_in, balance_updated, sat_add, sat_mul, did_views};
use crate::reputation::ReputationStore;
use crate::text::{join2, text_two_numbers, text_number_text, decimal};

verus! {

/// Maximum mana spend allowed per single operation.
pub const MAX_SPEND_LIMIT: u64 = 1000;

/// Mana charged as a fee for token and marketplace operations.
pub const TOKEN_FEE: u64 = 1;

/// Thin wrapper exposing convenience methods over a [`ManaLedger`], recording
/// each accepted change in an event store when it has one.
pub struct ManaRepositoryAdapter<L: ManaLedger> {
    ledger: L,
    event_store: Option<MemoryEventStore>,
}

/// The events recorded in an optional store; nothing when there is none.
pub open spec fn store_events(s: Option<MemoryEventStore>) -> Seq<LedgerEvent> {
    match s {
        Some(st) => st.spec_events(),
        None => Seq::empty(),
    }
}

impl<L: ManaLedger> ManaRepositoryAdapter<L> {
    /// The ledger that the adapter wraps.
    pub closed spec fn spec_ledger(&self) -> L {
        self.ledger
    }

    /// Whether the adapter records events.
    pub closed spec fn records_events(&self) -> bool {
        self.event_store is Some
    }

    /// The recorded events (empty when the adapter records none).
    pub closed spec fn recorded(&self) -> Seq<LedgerEvent> {
        store_events(self.event_store)
    }

    /// The adapter records events, and replaying them from empty accounts
    /// gives every account the balance that the ledger holds.
    pub open spec fn replays_to_ledger(&self) -> bool {
        &&& self.records_events()
        &&& forall|k: Seq<char>| #[trigger] bal(replay(events_view(self.recorded())), k)
            == balance_in(self.spec_ledger().balances(), k) as int
    }

    /// Construct a new adapter around the provided ledger implementation.
    pub fn new(ledger: L) -> (r: Self)
        ensures
            r.spec_ledger() == ledger,
            !r.records_events(),
            r.recorded() == Seq::<LedgerEvent>::empty(),
    {
        ManaRepositoryAdapter { ledger, event_store: None }
    }

    /// Construct an adapter that records every accepted change in `store`.
    /// When the store is empty and every balance is zero, replaying the
    /// recorded events reproduces the ledger from then on.
    pub fn with_event_store(ledger: L, store: MemoryEventStore) -> (r: Self)
        ensures
            r.spec_ledger() == ledger,
            r.records_events(),
            r.recorded() == store.spec_events(),
            (store.spec_events().len() == 0 && forall|k: Seq<char>| #[trigger] balance_in(ledger.balances(), k) == 0)
                ==> r.replays_to_ledger(),
    {
        let r = ManaRepositoryAdapter { ledger, event_store: Some(store) };
        proof {
            if store.spec_events().len() == 0 {
                assert(events_view(r.recorded()) =~= Seq::<(int, Seq<char>, u64)>::empty());
            }
        }
        r
    }

    /// Append `event` to the store, if there is one.
    fn record(&mut self, event: LedgerEvent)
        ensures
            final(self).spec_ledger() == old(self).spec_ledger(),
            final(self).records_events() == old(self).records_events(),
            old(self).records_events() ==> final(self).recorded() == old(self).recorded().push(event),
            !old(self).records_events() ==> final(self).recorded() == old(self).recorded(),
    {
        match &mut self.event_store {
            Some(store) => {
                let _ = store.append(event);
            },
            None => {},
        }
    }

    /// Deduct mana from an account via the underlying ledger, recording a
    /// debit when the ledger accepts.
    pub fn spend_mana(&mut self, did: &Did, amount: u64) -> (r: Result<(), CommonError>)
        requires
            old(self).spec_ledger().well_formed(),
        ensures
            final(self).spec_ledger().well_formed(),
            final(self).records_events() == old(self).records_events(),
            r is Ok ==> amount <= balance_in(old(self).spec_ledger().balances(), did@) && balance_updated(
                old(self).spec_ledger().balances(),
                final(self).spec_ledger().balances(),
                did@,
                (balance_in(old(self).spec_ledger().balances(), did@) - amount) as u64,
            ),
            r is Ok && old(self).records_events() ==> events_view(final(self).recorded()) == events_view(
                old(self).recorded(),
            ).push((1, did@, amount)),
            r is Err || !old(self).records_events() ==> final(self).recorded() == old(self).recorded(),
            r is Err ==> final(self).spec_ledger().balances() == old(self).spec_ledger().balances(),
            old(self).replays_to_ledger() ==> final(self).replays_to_ledger(),
    {
        let res = self.ledger.spend(did, amount);
        if res.is_ok() {
            let ev = LedgerEvent::Debit { did: did.duplicate(), amount };
            assert(event_view(ev) == event_view(LedgerEvent::Debit { did: *did, amount }));
            self.record(ev);
            proof {
                lemma_replay_step(old(self).recorded(), ev);
                replay_follows_ledger(old(self).recorded(), ev, old(self).spec_ledger().balances(), self.spec_ledger().balances(), old(self).records_events());
            }
        }
        res
    }

    /// Retrieve the account balance.
    pub fn get_balance(&self, did: &Did) -> (r: u64)
        requires
            self.spec_ledger().well_formed(),
        ensures
            r == balance_in(self.spec_ledger().balances(), did@),
    {
        self.ledger.get_balance(did)
    }

    /// Credit the account with additional mana, recording a credit when the
    /// ledger accepts. Replaying stays faithful while no balance saturates.
    pub fn credit_mana(&mut self, did: &Did, amount: u64) -> (r: Result<(), CommonError>)
        requires
            old(self).spec_ledger().well_formed(),
        ensures
            final(self).spec_ledger().well_formed(),
            final(self).records_events() == old(self).records_events(),
            r is Ok ==> balance_updated(
                old(self).spec_ledger().balances(),
                final(self).spec_ledger().balances(),
                did@,
                sat_add(balance_in(old(self).spec_ledger().balances(), did@), amount),
            ),
            r is Ok && old(self).records_events() ==> events_view(final(self).recorded()) == events_view(
                old(self).recorded(),
            ).push((0, did@, amount)),
            r is Err || !old(self).records_events() ==> final(self).recorded() == old(self).recorded(),
            r is Err ==> final(self).spec_ledger().balances() == old(self).spec_ledger().balances(),
            old(self).replays_to_ledger() && balance_in(old(self).spec_ledger().balances(), did@) + amount
                <= u64::MAX ==> final(self).replays_to_ledger(),
    {
        let res = self.ledger.credit(did, amount);
        if res.is_ok() {
            let ev = LedgerEvent::Credit { did: did.duplicate(), amount };
            assert(event_view(ev) == event_view(LedgerEvent::Credit { did: *did, amount }));
            self.record(ev);
            proof {
                lemma_replay_step(old(self).recorded(), ev);
                if balance_in(old(self).spec_ledger().balances(), did@) + amount <= u64::MAX {
                    replay_follows_ledger(old(self).recorded(), ev, old(self).spec_ledger().balances(), self.spec_ledger().balances(), old(self).records_events());
                }
            }
        }
        res
    }

    /// Record `amount` as the balance of the account, recording the change
    /// when the ledger accepts.
    pub fn set_balance(&mut self, did: &Did, amount: u64) -> (r: Result<(), CommonError>)
        requires
            old(self).spec_ledger().well_formed(),
        ensures
            final(self).spec_ledger().well_formed(),
            final(self).records_events() == old(self).records_events(),
            r is Ok ==> balance_updated(
                old(self).spec_ledger().balances(),
                final(self).spec_ledger().balances(),
                did@,
                amount,
            ),
            r is Ok && old(self).records_events() ==> events_view(final(self).recorded()) == events_view(
                old(self).recorded(),
            ).push((2, did@, amount)),
            r is Err || !old(self).records_events() ==> final(self).recorded() == old(self).recorded(),
            r is Err ==> final(self).spec_ledger().balances() == old(self).spec_ledger().balances(),
            old(self).replays_to_ledger() ==> final(self).replays_to_ledger(),
    {
        let res = self.ledger.set_balance(did, amount);
        if res.is_ok() {
            let ev = LedgerEvent::SetBalance { did: did.duplicate(), amount };
            assert(event_view(ev) == event_view(LedgerEvent::SetBalance { did: *did, amount }));
            self.record(ev);
            proof {
                lemma_replay_step(old(self).recorded(), ev);
                replay_follows_ledger(old(self).recorded(), ev, old(self).spec_ledger().balances(), self.spec_ledger().balances(), old(self).records_events());
            }
        }
        res
    }

    /// The event store, when the adapter has one.
    pub fn event_store(&self) -> (r: Option<&MemoryEventStore>)
        ensures
            r is Some <==> self.records_events(),
            r matches Some(s) ==> s.spec_events() == self.recorded(),
    {
        match &self.event_store {
            Some(s) => Some(s),
            None => None,
        }
    }

    /// The wrapped ledger.
    pub fn ledger(&self) -> (r: &L)
        ensures
            *r == self.spec_ledger(),
    {
        &self.ledger
    }
}

/// Replaying one more event changes the balance of its account only, as the
/// event says.
pub proof fn lemma_replay_step(evs: Seq<LedgerEvent>, e: LedgerEvent)
    ensures
        events_view(evs.push(e)) == events_view(evs).push(event_view(e)),
        ({
            let m = replay(events_view(evs));
            let (kind, k, a) = event_view(e);
            replay(events_view(evs.push(e))) == m.insert(
                k,
                if kind == 0 {
                    bal(m, k) + a
                } else if kind == 1 {
                    if bal(m, k) >= a {
                        bal(m, k) - a
                    } else {
                        0
                    }
                } else {
                    a as int
                },
            )
        }),
{
    assert(events_view(evs.push(e)) =~= events_view(evs).push(event_view(e)));
    assert(events_view(evs.push(e)).drop_last() =~= events_view(evs));
}

/// If replaying `evs` reproduces `before`, and `after` is `before` with the
/// account of `e` set to what replaying `e` gives it, then replaying `evs`
/// followed by `e` reproduces `after`.
proof fn replay_follows_ledger(
    evs: Seq<LedgerEvent>,
    e: LedgerEvent,
    before: Map<Seq<char>, u64>,
    after: Map<Seq<char>, u64>,
    active: bool,
)
    requires
        ({
            let m = replay(events_view(evs));
            let (kind, k, a) = event_view(e);
            &&& replay(events_view(evs.push(e))) == m.insert(
                k,
                if kind == 0 {
                    bal(m, k) + a
                } else if kind == 1 {
                    if bal(m, k) >= a {
                        bal(m, k) - a
                    } else {
                        0
                    }
                } else {
                    a as int
                },
            )
            &&& (active && (forall|j: Seq<char>| #[trigger] bal(m, j) == balance_in(before, j) as int)) ==> (
                bal(replay(events_view(evs.push(e))), k) == balance_in(after, k) as int)
            &&& forall|j: Seq<char>| j != k ==> #[trigger] balance_in(after, j) == balance_in(before, j)
        }),
    ensures
        (active && forall|j: Seq<char>| #[trigger] bal(replay(events_view(evs)), j) == balance_in(before, j) as int)
            ==> forall|j: Seq<char>| #[trigger] bal(replay(events_view(evs.push(e))), j) == balance_in(after, j) as int,
{
    let m = replay(events_view(evs));
    let k = event_view(e).1;
    if active && forall|j: Seq<char>| #[trigger] bal(m, j) == balance_in(before, j) as int {
        assert forall|j: Seq<char>| #[trigger] bal(replay(events_view(evs.push(e))), j) == balance_in(after, j) as int by {
            if j != k {
                assert(bal(m, j) == balance_in(before, j) as int);
            }
        }
    }
}

/// Why a spend of `amount` from a balance of `available` passes the policy:
/// it is positive, covered, and within [`MAX_SPEND_LIMIT`].
pub open spec fn spend_permitted(available: u64, amount: u64) -> bool {
    &&& amount > 0
    &&& available >= amount
    &&& amount <= MAX_SPEND_LIMIT
}

/// Check a spend of `amount` by `did` against the spend policy.
pub fn check_spend_policy(did: &Did, available: u64, amount: u64) -> (r: Result<(), CommonError>)
    ensures
        r is Ok <==> spend_permitted(available, amount),
        r matches Err(e) ==> e is PolicyDenied,
{
    if amount == 0 {
        return Err(CommonError::PolicyDenied(String::from_str("Spend amount must be greater than zero")));
    }
    if available < amount {
        return Err(CommonError::PolicyDenied(join2("Insufficient mana for DID ", did.as_str())));
    }
    if amount > MAX_SPEND_LIMIT {
        return Err(CommonError::PolicyDenied(text_two_numbers("Spend amount ", amount, " exceeds limit ", MAX_SPEND_LIMIT)));
    }
    Ok(())
}

/// Enforces spending limits and forwards to a [`ManaRepositoryAdapter`].
pub struct ResourcePolicyEnforcer<L: ManaLedger> {
    adapter: ManaRepositoryAdapter<L>,
}

impl<L: ManaLedger> ResourcePolicyEnforcer<L> {
    /// The adapter the enforcer forwards to.
    pub closed spec fn spec_adapter(&self) -> ManaRepositoryAdapter<L> {
        self.adapter
    }

    /// Create a new enforcer using the supplied adapter.
    pub fn new(adapter: ManaRepositoryAdapter<L>) -> (r: Self)
        ensures
            r.spec_adapter() == adapter,
    {
        ResourcePolicyEnforcer { adapter }
    }

    /// Spend mana after applying the policy: the amount must be positive,
    /// covered by the balance and at most [`MAX_SPEND_LIMIT`]; a refused spend
    /// is `PolicyDenied` and changes nothing.
    pub fn spend_mana(&mut self, did: &Did, amount: u64) -> (r: Result<(), CommonError>)
        requires
            old(self).spec_adapter().spec_ledger().well_formed(),
        ensures
            final(self).spec_adapter().spec_ledger().well_formed(),
            !spend_permitted(balance_in(old(self).spec_adapter().spec_ledger().balances(), did@), amount)
                ==> (r matches Err(CommonError::PolicyDenied(_))) && *final(self) == *old(self),
            r is Ok ==> spend_permitted(balance_in(old(self).spec_adapter().spec_ledger().balances(), did@), amount)
                && balance_updated(
                old(self).spec_adapter().spec_ledger().balances(),
                final(self).spec_adapter().spec_ledger().balances(),
                did@,
                (balance_in(old(self).spec_adapter().spec_ledger().balances(), did@) - amount) as u64,
            ),
            r is Ok && old(self).spec_adapter().records_events() ==> events_view(final(self).spec_adapter().recorded())
                == events_view(old(self).spec_adapter().recorded()).push((1, did@, amount)),
            r is Err ==> final(self).spec_adapter().spec_ledger().balances() == old(self).spec_adapter().spec_ledger().balances()
                && final(self).spec_adapter().recorded() == old(self).spec_adapter().recorded(),
            old(self).spec_adapter().replays_to_ledger() ==> final(self).spec_adapter().replays_to_ledger(),
    {
        let available = self.adapter.get_balance(did);
        check_spend_policy(did, available, amount)?;
        self.adapter.spend_mana(did, amount)
    }

    /// Balance of `did` in the wrapped ledger.
    pub fn get_balance(&self, did: &Did) -> (r: u64)
        requires
            self.spec_adapter().spec_ledger().well_formed(),
        ensures
            r == balance_in(self.spec_adapter().spec_ledger().balances(), did@),
    {
        self.adapter.get_balance(did)
    }

    /// The adapter the enforcer forwards to.
    pub fn adapter(&self) -> (r: &ManaRepositoryAdapter<L>)
        ensures
            *r == self.spec_adapter(),
    {
        &self.adapter
    }
}

/// Context of an economic operation under validation.
#[derive(Debug)]
pub struct ValidationContext {
    pub operation_type: String,
    pub amount: u64,
    pub account: Did,
    pub resource_type: Option<String>,
    pub cross_cooperative: bool,
    pub reputation_required: bool,
}

/// Outcome of a validation: whether the operation may go ahead, why not,
/// warnings for an operation that may, and the checks that were run.
#[derive(Debug)]
pub struct ValidationResult {
    pub is_valid: bool,
    pub error_message: Option<String>,
    pub warnings: Vec<String>,
    pub checks_performed: Vec<String>,
}

/// Mana that a spend of `amount` needs: cross-cooperative operations add a
/// tenth of the amount as fee, at least one.
pub open spec fn mana_required(amount: u64, cross_cooperative: bool) -> int {
    if cross_cooperative {
        amount + if amount / 10 >= 1 { amount / 10 } else { 1 }
    } else {
        amount as int
    }
}

/// A mana spend is valid when the amount is positive, the balance covers it
/// with its fee, and the amount is within [`MAX_SPEND_LIMIT`].
pub open spec fn mana_spend_valid(balance: u64, amount: u64, cross_cooperative: bool) -> bool {
    &&& amount > 0
    &&& balance >= mana_required(amount, cross_cooperative)
    &&& amount <= MAX_SPEND_LIMIT
}

/// Number of checks that validating a mana spend runs before it stops.
pub open spec fn mana_checks_run(balance: u64, amount: u64, cross_cooperative: bool) -> int {
    if amount == 0 {
        1
    } else if balance < mana_required(amount, cross_cooperative) {
        2
    } else if amount > MAX_SPEND_LIMIT {
        3
    } else {
        5
    }
}

/// Number of warnings for a valid spend: a low remaining balance (under 100)
/// and a spend of more than half the balance each give one.
pub open spec fn mana_warnings(balance: u64, amount: u64, cross_cooperative: bool) -> int {
    (if balance - mana_required(amount, cross_cooperative) < 100 { 1int } else { 0int }) + (if amount > balance
        / 2 { 1int } else { 0int })
}

/// Push `s` onto `v`.
pub(crate) fn push_str(v: &mut Vec<String>, s: &str)
    ensures
        final(v)@.len() == old(v)@.len() + 1,
        final(v)@.last()@ == s@,
        final(v)@.drop_last() == old(v)@,
{
    v.push(String::from_str(s));
}

/// A failed validation result.
pub(crate) fn invalid(message: String, warnings: Vec<String>, checks: Vec<String>) -> (r: ValidationResult)
    ensures
        !r.is_valid,
        r.error_message == Some(message),
        r.warnings == warnings,
        r.checks_performed == checks,
{
    ValidationResult { is_valid: false, error_message: Some(message), warnings, checks_performed: checks }
}

/// The checks that validating a mana spend runs, in order, when none stops
/// it.
pub open spec fn mana_check_names() -> Seq<Seq<char>> {
    seq![
        "amount_validation"@,
        "balance_sufficiency"@,
        "rate_limits"@,
        "balance_warning"@,
        "large_spend_warning"@,
    ]
}

/// The message of a refused mana spend: a zero amount, a balance short of
/// the amount with its fee, or an amount over [`MAX_SPEND_LIMIT`], checked
/// in that order.
pub open spec fn mana_spend_error(balance: u64, amount: u64, cross_cooperative: bool) -> Seq<char> {
    if amount == 0 {
        "Amount must be greater than zero"@
    } else if balance < mana_required(amount, cross_cooperative) {
        "Insufficient mana: available="@ + decimal(balance as nat) + ", required="@ + decimal(
            mana_required(amount, cross_cooperative) as nat,
        ) + " (including fees)"@
    } else {
        "Amount "@ + decimal(amount as nat) + " exceeds maximum spend limit "@ + decimal(MAX_SPEND_LIMIT as nat)
    }
}

/// The warnings of an accepted mana spend: a low remaining balance (under
/// 100), then a spend of more than half the balance.
pub open spec fn mana_spend_warnings(balance: u64, amount: u64, cross_cooperative: bool) -> Seq<Seq<char>> {
    let remaining = balance - mana_required(amount, cross_cooperative);
    (if remaining < 100 {
        seq!["Low balance warning: "@ + decimal(remaining as nat) + " mana remaining after operation"@]
    } else {
        Seq::<Seq<char>>::empty()
    }) + (if amount > balance / 2 {
        seq!["Large spend detected: spending more than 50% of balance"@]
    } else {
        Seq::<Seq<char>>::empty()
    })
}

/// The texts of a list of strings.
pub open spec fn texts(v: Seq<String>) -> Seq<Seq<char>> {
    v.map_values(|t: String| t@)
}

/// Validate a mana spend of `amount` by `did` with comprehensive checks.
pub fn validate_mana_spend<L: ManaLedger>(
    ledger: &L,
    did: &Did,
    amount: u64,
    context: &ValidationContext,
) -> (r: ValidationResult)
    requires
        ledger.well_formed(),
        amount == 0 || mana_required(amount, context.cross_cooperative) <= u64::MAX,
    ensures
        r.is_valid <==> mana_spend_valid(balance_in(ledger.balances(), did@), amount, context.cross_cooperative),
        r.error_message is Some <==> !r.is_valid,
        r.error_message matches Some(m) ==> m@ == mana_spend_error(
            balance_in(ledger.balances(), did@),
            amount,
            context.cross_cooperative,
        ),
        r.checks_performed@.len() == mana_checks_run(balance_in(ledger.balances(), did@), amount, context.cross_cooperative),
        texts(r.checks_performed@) == mana_check_names().take(
            mana_checks_run(balance_in(ledger.balances(), did@), amount, context.cross_cooperative),
        ),
        r.is_valid ==> r.warnings@.len() == mana_warnings(balance_in(ledger.balances(), did@), amount, context.cross_cooperative),
        r.is_valid ==> texts(r.warnings@) == mana_spend_warnings(
            balance_in(ledger.balances(), did@),
            amount,
            context.cross_cooperative,
        ),
        !r.is_valid ==> r.warnings@.len() == 0,
{
    let ghost names = mana_check_names();
    let mut warnings: Vec<String> = Vec::new();
    let mut checks: Vec<String> = Vec::new();
    push_str(&mut checks, "amount_validation");
    assert(texts(checks@) =~= names.take(1));
    if amount == 0 {
        return invalid(String::from_str("Amount must be greater than zero"), warnings, checks);
    }
    push_str(&mut checks, "balance_sufficiency");
    assert(texts(checks@) =~= names.take(2));
    let current_balance = ledger.get_balance(did);
    let required_amount = if context.cross_cooperative {
        let tenth = amount / 10;
        amount + if tenth >= 1 { tenth } else { 1 }
    } else {
        amount
    };
    if current_balance < required_amount {
        let m = text_two_numbers("Insufficient mana: available=", current_balance, ", required=", required_amount);
        return invalid(m.concat(" (including fees)"), warnings, checks);
    }
    push_str(&mut checks, "rate_limits");
    assert(texts(checks@) =~= names.take(3));
    if amount > MAX_SPEND_LIMIT {
        return invalid(
            text_two_numbers("Amount ", amount, " exceeds maximum spend limit ", MAX_SPEND_LIMIT),
            warnings,
            checks,
        );
    }
    push_str(&mut checks, "balance_warning");
    let remaining_after = current_balance - required_amount;
    if remaining_after < 100 {
        warnings.push(text_number_text("Low balance warning: ", remaining_after, " mana remaining after operation"));
    }
    let ghost first = texts(warnings@);
    push_str(&mut checks, "large_spend_warning");
    assert(texts(checks@) =~= names.take(5));
    if amount > current_balance / 2 {
        push_str(&mut warnings, "Large spend detected: spending more than 50% of balance");
        assert(texts(warnings@) =~= first + seq!["Large spend detected: spending more than 50% of balance"@]);
    } else {
        assert(texts(warnings@) =~= first + Seq::<Seq<char>>::empty());
    }
    ValidationResult { is_valid: true, error_message: None, warnings, checks_performed: checks }
}

/// Charge `amount` of mana to `did`: validate the spend, then apply the spend
/// policy and debit the ledger. Fails with `PolicyDenied` when validation or
/// the policy refuses; then nothing changes.
pub fn charge_mana<L: ManaLedger>(ledger: &mut L, did: &Did, amount: u64) -> (r: Result<(), CommonError>)
    requires
        old(ledger).well_formed(),
    ensures
        final(ledger).well_formed(),
        !mana_spend_valid(balance_in(old(ledger).balances(), did@), amount, false)
            ==> r matches Err(CommonError::PolicyDenied(_)),
        r is Ok ==> mana_spend_valid(balance_in(old(ledger).balances(), did@), amount, false)
            && balance_updated(
            old(ledger).balances(),
            final(ledger).balances(),
            did@,
            (balance_in(old(ledger).balances(), did@) - amount) as u64,
        ),
        r is Err ==> final(ledger).balances() == old(ledger).balances(),
{
    let context = ValidationContext {
        operation_type: String::from_str("charge_mana"),
        amount,
        account: did.duplicate(),
        resource_type: None,
        cross_cooperative: false,
        reputation_required: false,
    };
    let validation = validate_mana_spend(&*ledger, did, amount, &context);
    if !validation.is_valid {
        let msg = match validation.error_message {
            Some(m) => m,
            None => String::from_str("Mana charge validation failed"),
        };
        return Err(CommonError::PolicyDenied(msg));
    }
    let available = ledger.get_balance(did);
    check_spend_policy(did, available, amount)?;
    ledger.spend(did, amount)
}

/// Credit `amount` of mana to `did` in `ledger`.
pub fn credit_mana<L: ManaLedger>(ledger: &mut L, did: &Did, amount: u64) -> (r: Result<(), CommonError>)
    requires
        old(ledger).well_formed(),
    ensures
        final(ledger).well_formed(),
        r is Ok ==> balance_updated(
            old(ledger).balances(),
            final(ledger).balances(),
            did@,
            sat_add(balance_in(old(ledger).balances(), did@), amount),
        ),
        r is Err ==> final(ledger).balances() == old(ledger).balances(),
{
    ledger.credit(did, amount)
}

/// Every known account of `before` got `reputation * base_amount` (capped)
/// more mana in `after`, and no account was added or removed.
pub open spec fn credited_by_reputation<R: ReputationStore>(
    before: Map<Seq<char>, u64>,
    after: Map<Seq<char>, u64>,
    rep: R,
    base_amount: u64,
) -> bool {
    &&& after.dom() == before.dom()
    &&& forall|k: Seq<char>| #[trigger] before.contains_key(k) ==> after[k] == sat_add(
        before[k],
        sat_mul(rep.reputation_of(k), base_amount),
    )
}

/// The first `n` accounts of `order` hold their balance in `before` credited
/// with their reputation times `base_amount` (saturating), and the others
/// hold their balance in `before`.
pub open spec fn credited_up_to<R: ReputationStore>(
    before: Map<Seq<char>, u64>,
    after: Map<Seq<char>, u64>,
    order: Seq<Seq<char>>,
    n: int,
    rep: R,
    base_amount: u64,
) -> bool {
    &&& forall|j: int| 0 <= j < n ==> #[trigger] after[order[j]] == sat_add(
        before[order[j]],
        sat_mul(rep.reputation_of(order[j]), base_amount),
    )
    &&& forall|j: int| n <= j < order.len() ==> #[trigger] after[order[j]] == before[order[j]]
}

/// Credit every known account with `base_amount * reputation` mana, where the
/// product saturates at the largest `u64`, in the order in which the ledger
/// lists its accounts. Stops at the first credit the ledger refuses: the
/// accounts listed before it are credited, it and the rest keep their
/// balance.
pub fn credit_by_reputation<L: ManaLedger, R: ReputationStore>(
    ledger: &mut L,
    reputation_store: &R,
    base_amount: u64,
) -> (r: Result<(), CommonError>)
    requires
        old(ledger).well_formed(),
        reputation_store.store_inv(),
    ensures
        final(ledger).well_formed(),
        r is Ok ==> credited_by_reputation(old(ledger).balances(), final(ledger).balances(), *reputation_store, base_amount),
        final(ledger).balances().dom() == old(ledger).balances().dom(),
        forall|k: Seq<char>| #[trigger] old(ledger).balances().contains_key(k) ==> final(ledger).balances()[k]
            == old(ledger).balances()[k] || final(ledger).balances()[k] == sat_add(
            old(ledger).balances()[k],
            sat_mul(reputation_store.reputation_of(k), base_amount),
        ),
        old(ledger).balances().dom() == Set::<Seq<char>>::empty() ==> r is Ok,
        r is Err ==> exists|n: int|
            0 <= n < old(ledger).account_order().len() && #[trigger] credited_up_to(
                old(ledger).balances(),
                final(ledger).balances(),
                old(ledger).account_order(),
                n,
                *reputation_store,
                base_amount,
            ),
{
    let accounts = ledger.all_accounts();
    let ghost before = ledger.balances();
    let ghost ks = did_views(accounts@);
    let mut i: usize = 0;
    while i < accounts.len()
        invariant
            ledger.well_formed(),
            i <= accounts@.len(),
            ks == did_views(accounts@),
            ks == old(ledger).account_order(),
            ks.no_duplicates(),
            forall|k: Seq<char>| before.contains_key(k) <==> ks.contains(k),
            ledger.balances().dom() == before.dom(),
            forall|j: int| 0 <= j < i ==> #[trigger] ledger.balances()[ks[j]] == sat_add(
                before[ks[j]],
                sat_mul(reputation_store.reputation_of(ks[j]), base_amount),
            ),
            forall|j: int| i <= j < ks.len() ==> #[trigger] ledger.balances()[ks[j]] == before[ks[j]],
            reputation_store.store_inv(),
            before == old(ledger).balances(),
        decreases accounts@.len() - i,
    {
        let did = &accounts[i];
        let rep = reputation_store.get_reputation(did);
        assert(rep as u128 * base_amount as u128 <= u64::MAX as u128 * u64::MAX as u128) by (nonlinear_arith)
            requires
                rep <= u64::MAX,
                base_amount <= u64::MAX,
        ;
        let product: u128 = rep as u128 * base_amount as u128;
        let credit_amount: u64 = if product > u64::MAX as u128 { u64::MAX } else { product as u64 };
        assert(credit_amount == sat_mul(rep, base_amount)) by (nonlinear_arith)
            requires
                product == rep * base_amount,
                credit_amount == (if product > u64::MAX { u64::MAX as int } else { product as int }),
        ;
        let ghost mid = ledger.balances();
        proof {
            assert(ks[i as int] == did@);
            assert(ks.contains(did@));
        }
        let res = ledger.credit(did, credit_amount);
        proof {
            if res is Ok {
                assert(ledger.balances().dom() =~= before.dom()) by {
                    assert forall|k: Seq<char>| ledger.balances().contains_key(k) <==> before.contains_key(k) by {
                        if k != did@ {
                            assert(ledger.balances().contains_key(k) <==> mid.contains_key(k));
                        } else {
                            assert(mid.contains_key(k));
                        }
                    }
                }
                assert forall|j: int| 0 <= j < ks.len() && j != i implies #[trigger] ledger.balances()[ks[j]] == mid[ks[j]] by {
                    assert(ks[j] != ks[i as int]);
                    assert(balance_in(ledger.balances(), ks[j]) == balance_in(mid, ks[j]));
                    assert(ks.contains(ks[j]));
                }
                assert(balance_in(ledger.balances(), did@) == ledger.balances()[did@]);
            }
        }
        if res.is_err() {
            proof {
                assert(ks.contains(ks[i as int]));
                assert(before.contains_key(ks[i as int]));
                assert(ledger.balances() == mid);
                assert forall|k: Seq<char>| #[trigger] before.contains_key(k) implies ledger.balances()[k]
                    == before[k] || ledger.balances()[k] == sat_add(before[k], sat_mul(reputation_store.reputation_of(k), base_amount)) by {
                    assert(ks.contains(k));
                    let j = choose|j: int| 0 <= j < ks.len() && ks[j] == k;
                    if j < i {
                        assert(ledger.balances()[ks[j]] == sat_add(before[ks[j]], sat_mul(reputation_store.reputation_of(ks[j]), base_amount)));
                    } else {
                        assert(ledger.balances()[ks[j]] == before[ks[j]]);
                    }
                }
                assert(credited_up_to(before, ledger.balances(), ks, i as int, *reputation_store, base_amount));
            }
            return res;
        }
        i = i + 1;
    }
    proof {
        assert forall|k: Seq<char>| #[trigger] before.contains_key(k) implies ledger.balances()[k] == sat_add(
            before[k],
            sat_mul(reputation_store.reputation_of(k), base_amount),
        ) by {
            assert(ks.contains(k));
            let j = choose|j: int| 0 <= j < ks.len() && ks[j] == k;
            assert(ledger.balances()[ks[j]] == sat_add(before[ks[j]], sat_mul(reputation_store.reputation_of(ks[j]), base_amount)));
        }
    }
    Ok(())
}

/// Price of a resource after the reputation discount:
/// `base_price * 100 / (100 + reputation)`, rounded down.
pub open spec fn spec_price_by_reputation(base_price: u64, reputation: u64) -> int {
    (base_price * 100) / (100 + reputation)
}

/// Calculates the final mana price for a resource based on reputation: higher
/// reputation gives a lower price, never above the base price.
pub fn price_by_reputation(base_price: u64, reputation: u64) -> (r: u64)
    ensures
        r == spec_price_by_reputation(base_price, reputation),
        r <= base_price,
{
    let denom: u128 = 100u128 + reputation as u128;
    let num: u128 = (base_price as u128) * 100u128;
    proof {
        lemma_price_le_base(base_price, reputation);
    }
    (num / denom) as u64
}

/// The discounted price never exceeds the base price.
pub proof fn lemma_price_le_base(base_price: u64, reputation: u64)
    ensures
        0 <= spec_price_by_reputation(base_price, reputation) <= base_price,
{
    let b = base_price as int;
    let d = 100 + reputation as int;
    assert(b * 100 <= b * d) by (nonlinear_arith)
        requires
            0 <= b,
            100 <= d,
    ;
    assert((b * 100) / d <= (b * d) / d) by (nonlinear_arith)
        requires
            0 <= b * 100 <= b * d,
            d > 0,
    ;
    assert((b * d) / d == b) by (nonlinear_arith)
        requires
            d > 0,
    ;
    assert((b * 100) / d >= 0) by (nonlinear_arith)
        requires
            b >= 0,
            d > 0,
    ;
}

/// A higher reputation never raises the price.
pub proof fn law_price_monotone_in_reputation(base_price: u64, low: u64, high: u64)
    requires
        low <= high,
    ensures
        spec_price_by_reputation(base_price, high) <= spec_price_by_reputation(base_price, low),
{
    let n = base_price as int * 100;
    let d1 = 100 + low as int;
    let d2 = 100 + high as int;
    assert(n / d2 <= n / d1) by (nonlinear_arith)
        requires
            n >= 0,
            0 < d1 <= d2,
    {
        vstd::arithmetic::div_mod::lemma_div_is_ordered_by_denominator(n, d1, d2);
    }
}

/// Without reputation the price is the base price.
pub proof fn law_price_without_reputation(base_price: u64)
    ensures
        spec_price_by_reputation(base_price, 0) == base_price,
{
    assert((base_price as int * 100) / 100 == base_price as int) by (nonlinear_arith);
}

} // verus!
