//! Economic automation: penalties for policy violations, and the tally of an
//! allocation plan's execution.
//!
//! Severities are kept in thousandths (0 to 1000 covers 0.0 to 1.0) and
//! durations in whole seconds.

use vstd::prelude::*;
use vstd::string::*;
use crate::assoc::{keys_distinct, assoc_map, lemma_assoc_index, lemma_assoc_absent, lemma_assoc_update, lemma_assoc_push};
use crate::clock::unix_seconds;
use crate::did::{Did, is_valid_did, did_prefix, method_end};
use crate::error::CommonError;
use crate::mana_ledger::{ManaLedger, balance_in, balance_updated, sat_add, did_views};
use crate::reputation::{ReputationStore, score_after_failures};
use crate::policy::{ValidationContext, validate_mana_spend, mana_spend_valid};
use crate::resource_ledger::{ResourceLedger, TokenClassId, TokenClass, token_balance, transferred, transfer_allowed};
use crate::text::{decimal, join2, text_two_numbers};

verus! {

/// A compute job, as the automation engine sees it.
#[derive(Debug)]
pub struct MeshJob {
    pub job_id: String,
    pub job_type: Option<String>,
    pub command: String,
    pub estimated_cost: u64,
}

/// A bid for a compute job.
#[derive(Debug)]
pub struct JobBid {
    pub bidder: Did,
    pub cost_bid: u64,
}

/// A governance proposal, as the automation engine sees it.
#[derive(Debug)]
pub struct Proposal {
    pub id: String,
    pub title: String,
    pub description: String,
}

/// Types of allocation optimizations.
#[derive(Debug, Clone, Copy, PartialEq, Eq, Structural)]
pub enum OptimizationType {
    ReduceAllocation,
    IncreaseAllocation,
    Redistribute,
}

/// Types of economic penalties.
#[derive(Debug, Clone, Copy, PartialEq, Eq, Structural)]
pub enum PenaltyType {
    /// Mana penalty.
    ManaPenalty,
    /// Token confiscation.
    TokenConfiscation,
    /// Resource access restriction.
    ResourceRestriction,
    /// Market participation ban.
    MarketBan,
    /// Reputation penalty.
    ReputationPenalty,
    /// Warning only.
    Warning,
}

/// Economic threshold types.
#[derive(Debug, Clone, Copy, PartialEq, Eq, Structural)]
pub enum ThresholdType {
    TotalManaSupply,
    TransactionVolume,
    ResourceUtilization,
    PriceVolatility,
    EconomicInequality,
    NetworkFees,
}

/// Status of a resource allocation plan.
#[derive(Debug)]
pub enum AllocationStatus {
    /// Planning phase.
    Planning,
    /// Ready for execution.
    Ready,
    /// Currently executing.
    Executing,
    /// Successfully completed.
    Completed,
    /// Partially completed with some failures.
    PartiallyCompleted { successful: usize, failed: usize },
    /// Failed during execution.
    Failed { reason: String },
    /// Cancelled before execution.
    Cancelled { reason: String },
}

/// Types of economic policies.
#[derive(Debug, Clone, Copy, PartialEq, Eq, Structural)]
pub enum PolicyType {
    ManaRegeneration,
    ResourceAllocation,
    Pricing,
    MarketBehavior,
    AntiManipulation,
}

/// Status of an economic policy.
#[derive(Debug)]
pub enum PolicyStatus {
    Active,
    Suspended { reason: String },
    Updating,
    Deprecated { replacement: Option<String> },
}

/// Result of executing an allocation plan.
#[derive(Debug)]
pub struct AllocationExecutionResult {
    pub plan_id: String,
    pub successful_allocations: usize,
    pub failed_allocations: usize,
    pub total_allocated: u64,
    pub execution_time: core::time::Duration,
}

/// An economic penalty for a policy violation.
#[derive(Debug)]
pub struct EconomicPenalty {
    pub penalty_type: PenaltyType,
    /// Severity in thousandths: 1000 is full severity.
    pub severity_permille: u32,
    /// How long the penalty lasts, in seconds; none for a permanent one.
    pub duration_secs: Option<u64>,
    /// Amount of the penalty (mana, tokens, reputation).
    pub amount: Option<u64>,
    /// Resources to restrict.
    pub restrictions: Vec<String>,
}

/// A restriction of an account's access to a resource.
#[derive(Debug)]
pub struct ResourceRestriction {
    pub restricted_resource: String,
    /// Severity in thousandths.
    pub severity_permille: u32,
    /// When the restriction ends (seconds since the epoch); none if permanent.
    pub end_time: Option<u64>,
    pub reason: String,
}

/// What a restriction says: resource, severity, end and reason.
pub struct RestrictionView {
    pub resource: Seq<char>,
    pub severity_permille: u32,
    pub end_time: Option<u64>,
    pub reason: Seq<char>,
}

impl ResourceRestriction {
    /// What the restriction says.
    pub open spec fn view(&self) -> RestrictionView {
        RestrictionView {
            resource: self.restricted_resource@,
            severity_permille: self.severity_permille,
            end_time: self.end_time,
            reason: self.reason@,
        }
    }
}

/// A restriction in force against an account.
#[derive(Debug)]
pub struct RestrictionEntry {
    pub account: Did,
    pub restriction: ResourceRestriction,
}

/// ((account, resource), restriction) pairs of the entries.
pub open spec fn restriction_pairs(s: Seq<RestrictionEntry>) -> Seq<((Seq<char>, Seq<char>), RestrictionView)> {
    s.map_values(|e: RestrictionEntry| ((e.account@, e.restriction.restricted_resource@), e.restriction.view()))
}

/// Restrictions keyed by account and resource.
#[derive(Debug)]
pub struct RestrictionTable {
    entries: Vec<RestrictionEntry>,
}

impl RestrictionTable {
    /// The restrictions, by (account, resource).
    pub closed spec fn view(&self) -> Map<(Seq<char>, Seq<char>), RestrictionView> {
        assoc_map(restriction_pairs(self.entries@))
    }

    /// No (account, resource) pair is listed twice.
    pub closed spec fn inv(&self) -> bool {
        keys_distinct(restriction_pairs(self.entries@))
    }

    /// A table without restrictions.
    pub fn new() -> (r: RestrictionTable)
        ensures
            r.inv(),
            r@ == Map::<(Seq<char>, Seq<char>), RestrictionView>::empty(),
    {
        let r = RestrictionTable { entries: Vec::new() };
        assert(restriction_pairs(r.entries@) =~= Seq::<((Seq<char>, Seq<char>), RestrictionView)>::empty());
        r
    }

    /// Position of the restriction of `account` on `resource`.
    fn find(&self, account: &Did, resource: &String) -> (r: Option<usize>)
        requires
            self.inv(),
        ensures
            r matches Some(i) ==> i < self.entries@.len() && restriction_pairs(self.entries@)[i as int].0 == (
                account@,
                resource@,
            ),
            r is None ==> !self@.contains_key((account@, resource@)),
    {
        let mut i: usize = 0;
        while i < self.entries.len()
            invariant
                i <= self.entries@.len(),
                forall|j: int| 0 <= j < i ==> #[trigger] restriction_pairs(self.entries@)[j].0 != (account@, resource@),
            decreases self.entries@.len() - i,
        {
            if self.entries[i].account.same_as(account) && self.entries[i].restriction.restricted_resource == *resource {
                return Some(i);
            }
            i = i + 1;
        }
        proof {
            lemma_assoc_absent(restriction_pairs(self.entries@), (account@, resource@));
        }
        None
    }

    /// Record `restriction` against `account`, replacing an earlier one on
    /// the same resource.
    pub fn insert(&mut self, account: &Did, restriction: ResourceRestriction)
        requires
            old(self).inv(),
        ensures
            final(self).inv(),
            final(self)@ == old(self)@.insert((account@, restriction.restricted_resource@), restriction.view()),
    {
        let ghost p = restriction_pairs(self.entries@);
        let ghost key = (account@, restriction.restricted_resource@);
        let ghost v = restriction.view();
        match self.find(account, &restriction.restricted_resource) {
            Some(i) => {
                self.entries.set(i, RestrictionEntry { account: account.duplicate(), restriction });
                proof {
                    lemma_assoc_update(p, i as int, v);
                    assert(restriction_pairs(self.entries@) =~= p.update(i as int, (p[i as int].0, v)));
                }
            },
            None => {
                self.entries.push(RestrictionEntry { account: account.duplicate(), restriction });
                proof {
                    assert forall|j: int| 0 <= j < p.len() implies #[trigger] p[j].0 != key by {
                        if p[j].0 == key {
                            lemma_assoc_index(p, j);
                        }
                    }
                    lemma_assoc_push(p, key, v);
                    assert(restriction_pairs(self.entries@) =~= p.push((key, v)));
                }
            },
        }
    }

    /// Whether `account` is restricted from `resource`.
    pub fn is_restricted(&self, account: &Did, resource: &String) -> (r: bool)
        requires
            self.inv(),
        ensures
            r == self@.contains_key((account@, resource@)),
    {
        match self.find(account, resource) {
            Some(i) => {
                proof {
                    lemma_assoc_index(restriction_pairs(self.entries@), i as int);
                }
                true
            },
            None => false,
        }
    }
}

/// The account that receives confiscated tokens.
pub open spec fn treasury_id() -> Seq<char> {
    "did:icn:treasury"@
}

/// The treasury's identifier is well formed.
pub proof fn lemma_treasury_valid()
    ensures
        is_valid_did(treasury_id()),
{
    reveal_strlit("did:icn:treasury");
    let s = treasury_id();
    assert(s.subrange(0, 4) =~= did_prefix());
    assert(method_end(s, 7));
}

/// Greedy confiscation of up to `amount` tokens from `violator` to
/// `treasury`, class by class in the order of `classes`: each class gives
/// what the violator holds of it, until `amount` is reached. Returns the
/// balances after and the total taken.
pub open spec fn confiscation(
    tb: Map<(Seq<char>, Seq<char>), u64>,
    classes: Seq<Seq<char>>,
    violator: Seq<char>,
    treasury: Seq<char>,
    amount: u64,
    taken: u64,
) -> (Map<(Seq<char>, Seq<char>), u64>, u64)
    decreases classes.len(),
{
    if classes.len() == 0 || taken >= amount {
        (tb, taken)
    } else {
        let c = classes[0];
        let held = token_balance(tb, c, violator);
        let take: u64 = if amount - taken <= held {
            (amount - taken) as u64
        } else {
            held
        };
        if take > 0 {
            confiscation(
                transferred(tb, c, violator, treasury, take),
                classes.drop_first(),
                violator,
                treasury,
                amount,
                (taken + take) as u64,
            )
        } else {
            confiscation(tb, classes.drop_first(), violator, treasury, amount, taken)
        }
    }
}

/// The class ids of a class listing.
pub open spec fn listed_ids(classes: Seq<(TokenClassId, TokenClass)>) -> Seq<Seq<char>> {
    classes.map_values(|p: (TokenClassId, TokenClass)| p.0@)
}

/// What `violator` holds across the classes of `classes`, added up.
pub open spec fn holdings(tb: Map<(Seq<char>, Seq<char>), u64>, classes: Seq<Seq<char>>, violator: Seq<char>) -> int
    decreases classes.len(),
{
    if classes.len() == 0 {
        0
    } else {
        token_balance(tb, classes[0], violator) + holdings(tb, classes.drop_first(), violator)
    }
}

/// A transfer in one class leaves what the sender holds in other classes.
proof fn lemma_holdings_other_classes(
    tb: Map<(Seq<char>, Seq<char>), u64>,
    classes: Seq<Seq<char>>,
    violator: Seq<char>,
    treasury: Seq<char>,
    c: Seq<char>,
    x: u64,
)
    requires
        violator != treasury,
        !classes.contains(c),
    ensures
        holdings(transferred(tb, c, violator, treasury, x), classes, violator) == holdings(tb, classes, violator),
    decreases classes.len(),
{
    if classes.len() > 0 {
        assert(classes[0] != c);
        assert(!classes.drop_first().contains(c)) by {
            if classes.drop_first().contains(c) {
                let j = choose|j: int| 0 <= j < classes.drop_first().len() && classes.drop_first()[j] == c;
                assert(classes[j + 1] == c);
            }
        }
        lemma_holdings_other_classes(tb, classes.drop_first(), violator, treasury, c, x);
    }
}

/// Confiscation from `taken` on takes the smaller of what remains of the
/// amount and what the violator holds across the classes.
proof fn lemma_confiscation_total(
    tb: Map<(Seq<char>, Seq<char>), u64>,
    classes: Seq<Seq<char>>,
    violator: Seq<char>,
    treasury: Seq<char>,
    amount: u64,
    taken: u64,
)
    requires
        taken <= amount,
        violator != treasury,
        classes.no_duplicates(),
    ensures
        confiscation(tb, classes, violator, treasury, amount, taken).1 == taken + if amount - taken <= holdings(
            tb,
            classes,
            violator,
        ) {
            amount - taken
        } else {
            holdings(tb, classes, violator)
        },
    decreases classes.len(),
{
    lemma_holdings_nonnegative(tb, classes, violator);
    if classes.len() > 0 && taken < amount {
        let c = classes[0];
        let rest = classes.drop_first();
        let held = token_balance(tb, c, violator);
        let take: u64 = if amount - taken <= held {
            (amount - taken) as u64
        } else {
            held
        };
        assert(rest.no_duplicates()) by {
            assert forall|a: int, b: int| 0 <= a < rest.len() && 0 <= b < rest.len() && a != b implies rest[a] != rest[b] by {
                assert(classes[a + 1] != classes[b + 1]);
            }
        }
        assert(!rest.contains(c)) by {
            if rest.contains(c) {
                let j = choose|j: int| 0 <= j < rest.len() && rest[j] == c;
                assert(classes[j + 1] == classes[0]);
            }
        }
        if take > 0 {
            lemma_holdings_other_classes(tb, rest, violator, treasury, c, take);
            lemma_confiscation_total(
                transferred(tb, c, violator, treasury, take),
                rest,
                violator,
                treasury,
                amount,
                (taken + take) as u64,
            );
        } else {
            lemma_confiscation_total(tb, rest, violator, treasury, amount, taken);
        }
    }
}

/// What a violator holds is never negative.
proof fn lemma_holdings_nonnegative(tb: Map<(Seq<char>, Seq<char>), u64>, classes: Seq<Seq<char>>, violator: Seq<char>)
    ensures
        holdings(tb, classes, violator) >= 0,
    decreases classes.len(),
{
    if classes.len() > 0 {
        lemma_holdings_nonnegative(tb, classes.drop_first(), violator);
    }
}

/// A confiscation of `amount` takes the smaller of `amount` and what the
/// violator holds across the classes, each class listed once.
pub proof fn law_confiscation_takes_the_smaller(
    tb: Map<(Seq<char>, Seq<char>), u64>,
    classes: Seq<Seq<char>>,
    violator: Seq<char>,
    treasury: Seq<char>,
    amount: u64,
)
    requires
        violator != treasury,
        classes.no_duplicates(),
    ensures
        confiscation(tb, classes, violator, treasury, amount, 0).1 == if amount <= holdings(tb, classes, violator) {
            amount as int
        } else {
            holdings(tb, classes, violator)
        },
{
    lemma_confiscation_total(tb, classes, violator, treasury, amount, 0);
}

/// One step of a confiscation: from balances `tb` with `taken` taken so far,
/// take from class `c` what the violator holds of it, up to what remains of
/// `amount`.
pub open spec fn confiscation_step(
    state: (Map<(Seq<char>, Seq<char>), u64>, u64),
    c: Seq<char>,
    violator: Seq<char>,
    treasury: Seq<char>,
    amount: u64,
) -> (Map<(Seq<char>, Seq<char>), u64>, u64) {
    let (tb, taken) = state;
    if taken >= amount {
        state
    } else {
        let held = token_balance(tb, c, violator);
        let take: u64 = if amount - taken <= held {
            (amount - taken) as u64
        } else {
            held
        };
        if take > 0 {
            (transferred(tb, c, violator, treasury, take), (taken + take) as u64)
        } else {
            state
        }
    }
}

/// Every transfer that `confiscation` makes keeps the treasury's balance in
/// its class within range.
pub open spec fn confiscation_fits(
    tb: Map<(Seq<char>, Seq<char>), u64>,
    classes: Seq<Seq<char>>,
    violator: Seq<char>,
    treasury: Seq<char>,
    amount: u64,
    taken: u64,
) -> bool
    decreases classes.len(),
{
    if classes.len() == 0 || taken >= amount {
        true
    } else {
        let c = classes[0];
        let held = token_balance(tb, c, violator);
        let take: u64 = if amount - taken <= held {
            (amount - taken) as u64
        } else {
            held
        };
        if take > 0 {
            token_balance(tb, c, treasury) + take <= u64::MAX && confiscation_fits(
                transferred(tb, c, violator, treasury, take),
                classes.drop_first(),
                violator,
                treasury,
                amount,
                (taken + take) as u64,
            )
        } else {
            confiscation_fits(tb, classes.drop_first(), violator, treasury, amount, taken)
        }
    }
}

/// A confiscation refused at class `n` of `classes`: the classes before it
/// were confiscated, leaving balances `tb_after`, and class `n` was one the
/// confiscation had to take tokens from.
pub open spec fn confiscation_refused_at(
    tb: Map<(Seq<char>, Seq<char>), u64>,
    tb_after: Map<(Seq<char>, Seq<char>), u64>,
    classes: Seq<Seq<char>>,
    violator: Seq<char>,
    treasury: Seq<char>,
    amount: u64,
    n: int,
) -> bool {
    let p = confiscation(tb, classes.take(n), violator, treasury, amount, 0);
    &&& 0 <= n < classes.len()
    &&& tb_after == p.0
    &&& p.1 < amount
    &&& token_balance(p.0, classes[n], violator) > 0
}

/// Confiscating one more class is one more step.
pub proof fn lemma_confiscation_push(
    tb: Map<(Seq<char>, Seq<char>), u64>,
    classes: Seq<Seq<char>>,
    c: Seq<char>,
    violator: Seq<char>,
    treasury: Seq<char>,
    amount: u64,
    taken: u64,
)
    ensures
        confiscation(tb, classes.push(c), violator, treasury, amount, taken) == confiscation_step(
            confiscation(tb, classes, violator, treasury, amount, taken),
            c,
            violator,
            treasury,
            amount,
        ),
    decreases classes.len(),
{
    if classes.len() == 0 {
        assert(classes.push(c).drop_first() =~= Seq::<Seq<char>>::empty());
        reveal_with_fuel(confiscation, 2);
    } else if taken < amount {
        assert(classes.push(c).drop_first() =~= classes.drop_first().push(c));
        assert(classes.push(c)[0] == classes[0]);
        let c0 = classes[0];
        let held = token_balance(tb, c0, violator);
        let take: u64 = if amount - taken <= held {
            (amount - taken) as u64
        } else {
            held
        };
        if take > 0 {
            lemma_confiscation_push(
                transferred(tb, c0, violator, treasury, take),
                classes.drop_first(),
                c,
                violator,
                treasury,
                amount,
                (taken + take) as u64,
            );
        } else {
            lemma_confiscation_push(tb, classes.drop_first(), c, violator, treasury, amount, taken);
        }
    }
}

/// Confiscation never gives back what was already taken.
pub proof fn lemma_confiscation_takes_more(
    tb: Map<(Seq<char>, Seq<char>), u64>,
    classes: Seq<Seq<char>>,
    violator: Seq<char>,
    treasury: Seq<char>,
    amount: u64,
    taken: u64,
)
    requires
        taken <= amount,
    ensures
        confiscation(tb, classes, violator, treasury, amount, taken).1 >= taken,
    decreases classes.len(),
{
    if classes.len() > 0 && taken < amount {
        let c = classes[0];
        let held = token_balance(tb, c, violator);
        let take: u64 = if amount - taken <= held {
            (amount - taken) as u64
        } else {
            held
        };
        if take > 0 {
            lemma_confiscation_takes_more(
                transferred(tb, c, violator, treasury, take),
                classes.drop_first(),
                violator,
                treasury,
                amount,
                (taken + take) as u64,
            );
        } else {
            lemma_confiscation_takes_more(tb, classes.drop_first(), violator, treasury, amount, taken);
        }
    }
}

/// Move up to `amount` tokens from `violator` to `treasury`, going through
/// `classes` in order and taking from each class what the violator holds,
/// until `amount` is reached. Returns the total taken; a refused transfer
/// stops the confiscation with its error, and is the only source of one.
pub fn confiscate_tokens<L: ResourceLedger>(
    ledger: &mut L,
    classes: &Vec<(TokenClassId, TokenClass)>,
    violator: &Did,
    treasury: &Did,
    amount: u64,
) -> (r: Result<u64, CommonError>)
    requires
        old(ledger).ledger_inv(),
        violator@ != treasury@,
        confiscation_fits(old(ledger).token_balances(), listed_ids(classes@), violator@, treasury@, amount, 0),
    ensures
        final(ledger).ledger_inv(),
        final(ledger).class_map() == old(ledger).class_map(),
        r matches Ok(t) ==> (final(ledger).token_balances(), t) == confiscation(
            old(ledger).token_balances(),
            listed_ids(classes@),
            violator@,
            treasury@,
            amount,
            0,
        ),
        r is Err ==> exists|n: int|
            #[trigger] confiscation_refused_at(
                old(ledger).token_balances(),
                final(ledger).token_balances(),
                listed_ids(classes@),
                violator@,
                treasury@,
                amount,
                n,
            ),
        confiscation(old(ledger).token_balances(), listed_ids(classes@), violator@, treasury@, amount, 0).1 == 0 ==> r
            == Ok::<u64, CommonError>(0),
{
    let ghost ids = listed_ids(classes@);
    let ghost tb0 = ledger.token_balances();
    let mut taken: u64 = 0;
    let mut i: usize = 0;
    proof {
        assert(ids.skip(0) =~= ids);
        assert(ids.take(0) =~= Seq::<Seq<char>>::empty());
    }
    while i < classes.len()
        invariant
            ledger.ledger_inv(),
            ledger.class_map() == old(ledger).class_map(),
            ids == listed_ids(classes@),
            tb0 == old(ledger).token_balances(),
            violator@ != treasury@,
            i <= classes@.len(),
            taken <= amount,
            confiscation_fits(ledger.token_balances(), ids.skip(i as int), violator@, treasury@, amount, taken),
            (ledger.token_balances(), taken) == confiscation(tb0, ids.take(i as int), violator@, treasury@, amount, 0),
            confiscation(tb0, ids, violator@, treasury@, amount, 0) == confiscation(
                ledger.token_balances(),
                ids.skip(i as int),
                violator@,
                treasury@,
                amount,
                taken,
            ),
        ensures
            ledger.ledger_inv(),
            ledger.class_map() == old(ledger).class_map(),
            confiscation(tb0, ids, violator@, treasury@, amount, 0) == (ledger.token_balances(), taken),
        decreases classes@.len() - i,
    {
        proof {
            assert(ids.skip(i as int).drop_first() =~= ids.skip(i + 1));
            assert(ids.skip(i as int)[0] == classes@[i as int].0@);
            assert(ids.take(i + 1) =~= ids.take(i as int).push(ids[i as int]));
            lemma_confiscation_push(tb0, ids.take(i as int), ids[i as int], violator@, treasury@, amount, 0);
        }
        let cid = &classes[i].0;
        let balance = ledger.get_balance(cid, violator);
        if balance > 0 {
            let remaining = amount - taken;
            let take = if remaining <= balance {
                remaining
            } else {
                balance
            };
            if take > 0 {
                let ghost before = ledger.token_balances();
                let ghost taken_before = taken;
                proof {
                    let rest = ids.skip(i as int);
                    assert(rest.len() > 0 && rest[0] == cid@);
                    lemma_confiscation_takes_more(
                        transferred(before, cid@, violator@, treasury@, take),
                        rest.drop_first(),
                        violator@,
                        treasury@,
                        amount,
                        (taken + take) as u64,
                    );
                    assert(confiscation(tb0, ids, violator@, treasury@, amount, 0).1 > 0);
                }
                let res = ledger.transfer(cid, violator, treasury, take);
                match res {
                    Ok(()) => {},
                    Err(e) => {
                        proof {
                            assert(confiscation_refused_at(
                                tb0,
                                ledger.token_balances(),
                                ids,
                                violator@,
                                treasury@,
                                amount,
                                i as int,
                            ));
                        }
                        return Err(e);
                    },
                }
                taken = taken + take;
                proof {
                    assert(confiscation(before, ids.skip(i as int), violator@, treasury@, amount, taken_before)
                        == confiscation(ledger.token_balances(), ids.skip(i + 1), violator@, treasury@, amount, taken));
                }
                if taken >= amount {
                    proof {
                        assert(confiscation(ledger.token_balances(), ids.skip(i + 1), violator@, treasury@, amount, taken)
                            == (ledger.token_balances(), taken));
                        assert(confiscation(ledger.token_balances(), ids.skip(i as int), violator@, treasury@, amount, taken)
                            == (ledger.token_balances(), taken));
                    }
                    i = i + 1;
                    break;
                }
            }
        }
        i = i + 1;
    }
    proof {
        if i == classes.len() {
            assert(ids.skip(i as int).len() == 0);
        }
    }
    Ok(taken)
}

/// The number of failed executions recorded against an account with
/// reputation `current` under a reputation penalty: a tenth of the penalty
/// amount (capped at the reputation), or a tenth of the severity in
/// hundredths when no amount is given; at least one.
pub open spec fn penalty_failure_count(p: EconomicPenalty, current: u64) -> u64 {
    match p.amount {
        Some(a) => {
            let pen = if a <= current {
                a
            } else {
                current
            };
            if pen / 10 >= 1 {
                (pen / 10) as u64
            } else {
                1
            }
        },
        None => {
            let sev: u32 = if p.severity_permille <= 1000 {
                p.severity_permille
            } else {
                1000
            };
            if sev / 100 >= 1 {
                (sev / 100) as u64
            } else {
                1
            }
        },
    }
}

/// The failed executions a reputation penalty records against an account
/// with reputation `current_reputation`.
pub fn reputation_penalty_failures(penalty: &EconomicPenalty, current_reputation: u64) -> (r: u64)
    ensures
        r == penalty_failure_count(*penalty, current_reputation),
{
    match penalty.amount {
        Some(a) => {
            let pen = if a <= current_reputation {
                a
            } else {
                current_reputation
            };
            if pen / 10 >= 1 {
                pen / 10
            } else {
                1
            }
        },
        None => {
            let sev: u32 = if penalty.severity_permille <= 1000 {
                penalty.severity_permille
            } else {
                1000
            };
            if sev / 100 >= 1 {
                (sev / 100) as u64
            } else {
                1
            }
        },
    }
}

/// Resources restricted when a penalty names none: compute always, storage
/// from severity 500, network from severity 800.
pub open spec fn general_restrictions(severity_permille: u32) -> Seq<Seq<char>> {
    if severity_permille >= 800 {
        seq!["compute"@, "storage"@, "network"@]
    } else if severity_permille >= 500 {
        seq!["compute"@, "storage"@]
    } else {
        seq!["compute"@]
    }
}

/// The resources that a restriction penalty restricts: those it names, or
/// the general ones for its severity.
pub open spec fn restricted_resources(p: EconomicPenalty) -> Seq<Seq<char>> {
    if p.restrictions@.len() > 0 {
        p.restrictions@.map_values(|r: String| r@)
    } else {
        general_restrictions(p.severity_permille)
    }
}

/// When a penalty imposed at `now` ends.
pub open spec fn penalty_end(p: EconomicPenalty, now: u64) -> Option<u64> {
    match p.duration_secs {
        Some(d) => Some(sat_add(now, d)),
        None => None,
    }
}

/// `m` with each of `resources`, in order, restricted for `account`.
pub open spec fn restrictions_after(
    m: Map<(Seq<char>, Seq<char>), RestrictionView>,
    account: Seq<char>,
    resources: Seq<Seq<char>>,
    severity: u32,
    end_time: Option<u64>,
) -> Map<(Seq<char>, Seq<char>), RestrictionView>
    decreases resources.len(),
{
    if resources.len() == 0 {
        m
    } else {
        restrictions_after(m, account, resources.drop_last(), severity, end_time).insert(
            (account, resources.last()),
            RestrictionView {
                resource: resources.last(),
                severity_permille: severity,
                end_time,
                reason: "Economic policy violation"@,
            },
        )
    }
}

/// The automation engine's ledgers, reputation store and restrictions.
pub struct EconomicAutomationEngine<M: ManaLedger, L: ResourceLedger, R: ReputationStore> {
    mana_ledger: M,
    resource_ledger: L,
    reputation_store: R,
    resource_restrictions: RestrictionTable,
}

impl<M: ManaLedger, L: ResourceLedger, R: ReputationStore> EconomicAutomationEngine<M, L, R> {
    /// The mana ledger.
    pub closed spec fn mana(&self) -> M {
        self.mana_ledger
    }

    /// The resource ledger.
    pub closed spec fn resources(&self) -> L {
        self.resource_ledger
    }

    /// The reputation store.
    pub closed spec fn reputation(&self) -> R {
        self.reputation_store
    }

    /// The restrictions in force.
    pub closed spec fn restrictions(&self) -> Map<(Seq<char>, Seq<char>), RestrictionView> {
        self.resource_restrictions@
    }

    /// The parts are well formed.
    pub closed spec fn engine_inv(&self) -> bool {
        &&& self.mana_ledger.well_formed()
        &&& self.resource_ledger.ledger_inv()
        &&& self.reputation_store.store_inv()
        &&& self.resource_restrictions.inv()
    }

    /// An engine over the given ledgers and reputation store, without
    /// restrictions.
    pub fn new(mana_ledger: M, resource_ledger: L, reputation_store: R) -> (r: Self)
        requires
            mana_ledger.well_formed(),
            resource_ledger.ledger_inv(),
            reputation_store.store_inv(),
        ensures
            r.engine_inv(),
            r.mana() == mana_ledger,
            r.resources() == resource_ledger,
            r.reputation() == reputation_store,
            r.restrictions() == Map::<(Seq<char>, Seq<char>), RestrictionView>::empty(),
    {
        EconomicAutomationEngine { mana_ledger, resource_ledger, reputation_store, resource_restrictions: RestrictionTable::new() }
    }

    /// The mana ledger.
    pub fn mana_ledger(&self) -> (r: &M)
        ensures
            *r == self.mana(),
    {
        &self.mana_ledger
    }

    /// The resource ledger.
    pub fn resource_ledger(&self) -> (r: &L)
        ensures
            *r == self.resources(),
    {
        &self.resource_ledger
    }

    /// The reputation store.
    pub fn reputation_store(&self) -> (r: &R)
        ensures
            *r == self.reputation(),
    {
        &self.reputation_store
    }

    /// The restrictions in force.
    pub fn resource_restrictions(&self) -> (r: &RestrictionTable)
        ensures
            r@ == self.restrictions(),
            self.engine_inv() ==> r.inv(),
    {
        &self.resource_restrictions
    }

    /// Restrict `violator` from each resource the penalty restricts.
    fn restrict(&mut self, violator: &Did, penalty: &EconomicPenalty, now: u64)
        requires
            old(self).engine_inv(),
        ensures
            final(self).engine_inv(),
            final(self).mana() == old(self).mana(),
            final(self).resources() == old(self).resources(),
            final(self).reputation() == old(self).reputation(),
            final(self).restrictions() == restrictions_after(
                old(self).restrictions(),
                violator@,
                restricted_resources(*penalty),
                penalty.severity_permille,
                penalty_end(*penalty, now),
            ),
    {
        let end_time = match penalty.duration_secs {
            Some(d) => Some(now.saturating_add(d)),
            None => None,
        };
        let mut names: Vec<String> = Vec::new();
        if penalty.restrictions.len() > 0 {
            let mut k: usize = 0;
            while k < penalty.restrictions.len()
                invariant
                    k <= penalty.restrictions@.len(),
                    names@.len() == k,
                    forall|j: int| 0 <= j < k ==> #[trigger] names@[j]@ == penalty.restrictions@[j]@,
                decreases penalty.restrictions@.len() - k,
            {
                names.push(penalty.restrictions[k].clone());
                k = k + 1;
            }
            proof {
                assert(names@.map_values(|r: String| r@) =~= restricted_resources(*penalty));
            }
        } else {
            names.push(String::from_str("compute"));
            if penalty.severity_permille >= 500 {
                names.push(String::from_str("storage"));
            }
            if penalty.severity_permille >= 800 {
                names.push(String::from_str("network"));
            }
            proof {
                assert(names@.map_values(|r: String| r@) =~= restricted_resources(*penalty));
            }
        }
        let ghost rs = names@.map_values(|r: String| r@);
        let ghost t0 = self.restrictions();
        let mut i: usize = 0;
        proof {
            assert(rs.take(0) =~= Seq::<Seq<char>>::empty());
        }
        while i < names.len()
            invariant
                self.engine_inv(),
                self.mana() == old(self).mana(),
                self.resources() == old(self).resources(),
                self.reputation() == old(self).reputation(),
                rs == names@.map_values(|r: String| r@),
                i <= names@.len(),
                self.restrictions() == restrictions_after(
                    t0,
                    violator@,
                    rs.take(i as int),
                    penalty.severity_permille,
                    end_time,
                ),
            decreases names@.len() - i,
        {
            proof {
                assert(rs.take(i + 1).drop_last() =~= rs.take(i as int));
                assert(rs.take(i + 1).last() == names@[i as int]@);
            }
            let restriction = ResourceRestriction {
                restricted_resource: names[i].clone(),
                severity_permille: penalty.severity_permille,
                end_time,
                reason: String::from_str("Economic policy violation"),
            };
            self.resource_restrictions.insert(violator, restriction);
            i = i + 1;
        }
        proof {
            assert(rs.take(names@.len() as int) =~= rs);
        }
    }

    /// Every transfer that the token confiscation `penalty` would make from
    /// `violator` to the treasury keeps the treasury's balance in range (a
    /// confiscation from the treasury itself makes none).
    pub open spec fn confiscation_in_range(self, violator: Seq<char>, penalty: EconomicPenalty) -> bool {
        penalty.penalty_type == PenaltyType::TokenConfiscation && violator != treasury_id() ==> match penalty.amount {
            Some(a) => confiscation_fits(
                self.resources().token_balances(),
                self.resources().class_order(),
                violator,
                treasury_id(),
                a,
                0,
            ),
            None => true,
        }
    }

    /// What applying `penalty` to `violator` at time `now` does, from the
    /// engine `self` to the engine `after`, with result `r`.
    ///
    /// A mana penalty spends its amount from the violator's mana (the
    /// ledger's error is handed on, and then nothing changes); without an
    /// amount it changes nothing. A token confiscation moves tokens of the
    /// violator to the treasury class by class, in the order in which the
    /// ledger lists its classes, taking from each what the violator holds
    /// until the amount is reached; it fails only where the ledger refuses
    /// one of those transfers, after the classes before it were taken from;
    /// against the treasury itself it is an internal error that moves
    /// nothing. A resource restriction restricts
    /// the named resources (or the general ones for its severity) until the
    /// penalty ends. A reputation penalty records `penalty_failure_count`
    /// failed executions against the violator. A market ban and a warning
    /// succeed and change nothing. Each kind leaves every other part of the
    /// engine as it was.
    pub open spec fn penalty_outcome(
        self,
        after: Self,
        violator: Seq<char>,
        penalty: EconomicPenalty,
        now: u64,
        r: Result<(), CommonError>,
    ) -> bool {
        &&& penalty.penalty_type != PenaltyType::ManaPenalty ==> after.mana().balances() == self.mana().balances()
        &&& penalty.penalty_type != PenaltyType::TokenConfiscation ==> after.resources() == self.resources()
        &&& penalty.penalty_type != PenaltyType::ReputationPenalty ==> after.reputation() == self.reputation()
        &&& penalty.penalty_type != PenaltyType::ResourceRestriction ==> after.restrictions() == self.restrictions()
        &&& penalty.penalty_type == PenaltyType::ManaPenalty ==> match penalty.amount {
            Some(a) => {
                &&& r is Ok ==> a <= balance_in(self.mana().balances(), violator) && balance_updated(
                    self.mana().balances(),
                    after.mana().balances(),
                    violator,
                    (balance_in(self.mana().balances(), violator) - a) as u64,
                )
                &&& r is Err ==> after.mana().balances() == self.mana().balances()
            },
            None => r is Ok && after.mana().balances() == self.mana().balances(),
        }
        &&& penalty.penalty_type == PenaltyType::TokenConfiscation ==> {
            &&& after.resources().class_map() == self.resources().class_map()
            &&& penalty.amount is None ==> r is Ok && after.resources() == self.resources()
            &&& penalty.amount is Some && violator == treasury_id() ==> (r matches Err(CommonError::InternalError(_)))
                && after.resources() == self.resources()
            &&& (r is Ok && penalty.amount is Some) ==> after.resources().token_balances() == confiscation(
                self.resources().token_balances(),
                self.resources().class_order(),
                violator,
                treasury_id(),
                penalty.amount.unwrap(),
                0,
            ).0
            &&& (r is Err && penalty.amount is Some && violator != treasury_id()) ==> exists|n: int|
                #[trigger] confiscation_refused_at(
                    self.resources().token_balances(),
                    after.resources().token_balances(),
                    self.resources().class_order(),
                    violator,
                    treasury_id(),
                    penalty.amount.unwrap(),
                    n,
                )
            &&& (penalty.amount is Some && violator != treasury_id() && confiscation(
                self.resources().token_balances(),
                self.resources().class_order(),
                violator,
                treasury_id(),
                penalty.amount.unwrap(),
                0,
            ).1 == 0) ==> r is Ok
        }
        &&& penalty.penalty_type == PenaltyType::ResourceRestriction ==> r is Ok && after.restrictions()
            == restrictions_after(
            self.restrictions(),
            violator,
            restricted_resources(penalty),
            penalty.severity_permille,
            penalty_end(penalty, now),
        )
        &&& penalty.penalty_type == PenaltyType::ReputationPenalty ==> {
            &&& r is Ok
            &&& after.reputation().reputation_of(violator) == score_after_failures::<R>(
                self.reputation().reputation_of(violator),
                penalty_failure_count(penalty, self.reputation().reputation_of(violator)) as nat,
            )
            &&& after.reputation().reputation_of(violator) <= self.reputation().reputation_of(violator)
            &&& forall|k: Seq<char>|
                k != violator ==> #[trigger] after.reputation().reputation_of(k) == self.reputation().reputation_of(k)
        }
        &&& penalty.penalty_type == PenaltyType::MarketBan || penalty.penalty_type == PenaltyType::Warning ==> r is Ok
    }

    /// Apply `penalty` to `violator` at time `now`, as `penalty_outcome`
    /// states.
    pub fn apply_economic_penalty_at(&mut self, violator: &Did, penalty: &EconomicPenalty, now: u64) -> (r: Result<
        (),
        CommonError,
    >)
        requires
            old(self).engine_inv(),
            old(self).confiscation_in_range(violator@, *penalty),
        ensures
            final(self).engine_inv(),
            old(self).penalty_outcome(*final(self), violator@, *penalty, now, r),
    {
        match penalty.penalty_type {
            PenaltyType::ManaPenalty => {
                if let Some(amount) = penalty.amount {
                    self.mana_ledger.spend(violator, amount)?;
                }
                Ok(())
            },
            PenaltyType::TokenConfiscation => {
                if let Some(amount) = penalty.amount {
                    proof {
                        lemma_treasury_valid();
                    }
                    let treasury = match Did::from_str("did:icn:treasury") {
                        Ok(d) => d,
                        Err(e) => {
                            return Err(
                                CommonError::InternalError(
                                    crate::text::join2("Failed to create system treasury DID: ", e.message().as_str()),
                                ),
                            );
                        },
                    };
                    if treasury.same_as(violator) {
                        return Err(
                            CommonError::InternalError(
                                String::from_str("Cannot confiscate tokens: system treasury DID matches violator DID"),
                            ),
                        );
                    }
                    let classes = self.resource_ledger.list_classes();
                    proof {
                        assert(listed_ids(classes@) =~= self.resources().class_order());
                    }
                    let ghost tb_before = self.resources().token_balances();
                    match confiscate_tokens(&mut self.resource_ledger, &classes, violator, &treasury, amount) {
                        Ok(_) => {},
                        Err(e) => {
                            proof {
                                let n = choose|n: int|
                                    #[trigger] confiscation_refused_at(
                                        tb_before,
                                        self.resources().token_balances(),
                                        listed_ids(classes@),
                                        violator@,
                                        treasury_id(),
                                        amount,
                                        n,
                                    );
                                assert(confiscation_refused_at(
                                    tb_before,
                                    self.resources().token_balances(),
                                    old(self).resources().class_order(),
                                    violator@,
                                    treasury_id(),
                                    amount,
                                    n,
                                ));
                            }
                            return Err(e);
                        },
                    }
                }
                Ok(())
            },
            PenaltyType::ResourceRestriction => {
                self.restrict(violator, penalty, now);
                Ok(())
            },
            PenaltyType::ReputationPenalty => {
                let current = self.reputation_store.get_reputation(violator);
                let failures = reputation_penalty_failures(penalty, current);
                let mut k: u64 = 0;
                while k < failures
                    invariant
                        self.engine_inv(),
                        self.mana() == old(self).mana(),
                        self.resources() == old(self).resources(),
                        self.restrictions() == old(self).restrictions(),
                        current == old(self).reputation().reputation_of(violator@),
                        k <= failures,
                        self.reputation().reputation_of(violator@) == score_after_failures::<R>(current, k as nat),
                        self.reputation().reputation_of(violator@) <= old(self).reputation().reputation_of(violator@),
                        forall|j: Seq<char>|
                            j != violator@ ==> #[trigger] self.reputation().reputation_of(j) == old(
                                self,
                            ).reputation().reputation_of(j),
                    decreases failures - k,
                {
                    self.reputation_store.record_execution(violator, false, 1000);
                    k = k + 1;
                }
                Ok(())
            },
            PenaltyType::MarketBan => Ok(()),
            PenaltyType::Warning => Ok(()),
        }
    }

    /// Apply `penalty` to `violator` now, by the system clock (which dates
    /// the end of a restriction).
    pub fn apply_economic_penalty(&mut self, violator: &Did, penalty: &EconomicPenalty) -> (r: Result<(), CommonError>)
        requires
            old(self).engine_inv(),
            old(self).confiscation_in_range(violator@, *penalty),
        ensures
            final(self).engine_inv(),
            exists|now: u64| #[trigger] old(self).penalty_outcome(*final(self), violator@, *penalty, now, r),
    {
        let now = unix_seconds();
        let r = self.apply_economic_penalty_at(violator, penalty, now);
        proof {
            assert(old(self).penalty_outcome(*final(self), violator@, *penalty, now, r));
        }
        r
    }
}

impl AllocationStatus {
    /// Whether a plan in this status may start executing.
    pub open spec fn is_ready(&self) -> bool {
        self is Ready || self is Planning
    }

    /// The status as its `Debug` form prints it (text fields unescaped).
    pub fn describe(&self) -> (r: String)
        ensures
            self is Planning ==> r@ == "Planning"@,
            self is Ready ==> r@ == "Ready"@,
            self is Executing ==> r@ == "Executing"@,
            self is Completed ==> r@ == "Completed"@,
            self matches AllocationStatus::PartiallyCompleted { successful, failed } ==> r@ == "PartiallyCompleted { successful: "@
                + decimal(successful as nat) + ", failed: "@ + decimal(failed as nat) + " }"@,
            self matches AllocationStatus::Failed { reason } ==> r@ == "Failed { reason: \""@ + reason@ + "\" }"@,
            self matches AllocationStatus::Cancelled { reason } ==> r@ == "Cancelled { reason: \""@ + reason@ + "\" }"@,
    {
        match self {
            AllocationStatus::Planning => String::from_str("Planning"),
            AllocationStatus::Ready => String::from_str("Ready"),
            AllocationStatus::Executing => String::from_str("Executing"),
            AllocationStatus::Completed => String::from_str("Completed"),
            AllocationStatus::PartiallyCompleted { successful, failed } => {
                let s = text_two_numbers("PartiallyCompleted { successful: ", *successful as u64, ", failed: ", *failed as u64);
                s.concat(" }")
            },
            AllocationStatus::Failed { reason } => join2("Failed { reason: \"", reason.as_str()).concat("\" }"),
            AllocationStatus::Cancelled { reason } => join2("Cancelled { reason: \"", reason.as_str()).concat("\" }"),
        }
    }
}

/// Start executing the plan `plan_id` in `status`: a plan that is ready or
/// still planning moves to executing; any other is refused with
/// `InvalidInputError` and keeps its status.
pub fn begin_allocation_execution(plan_id: &str, status: &mut AllocationStatus) -> (r: Result<(), CommonError>)
    ensures
        r is Ok <==> old(status).is_ready(),
        r is Ok ==> *final(status) is Executing,
        r is Err ==> (r matches Err(CommonError::InvalidInputError(_))) && *final(status) == *old(status),
{
    let ready = match status {
        AllocationStatus::Ready => true,
        AllocationStatus::Planning => true,
        _ => false,
    };
    if !ready {
        let d = status.describe();
        let m = join2("Allocation plan ", plan_id).concat(" is not ready for execution (status: ").concat(d.as_str()).concat(
            ")",
        );
        return Err(CommonError::InvalidInputError(m));
    }
    *status = AllocationStatus::Executing;
    Ok(())
}

/// The amount an allocation grants: the proposed amount raised to
/// `min_allocation` and then capped at `max_allocation`.
pub open spec fn bounded_allocation(proposed: u64, min_allocation: u64, max_allocation: u64) -> u64 {
    let raised = if proposed >= min_allocation {
        proposed
    } else {
        min_allocation
    };
    if raised <= max_allocation {
        raised
    } else {
        max_allocation
    }
}

/// Grant one allocation of a plan: bound the proposed amount (which the
/// allocation's weighting factors produced) between `min_allocation` and
/// `max_allocation`, validate it as a mana operation of the recipient, and
/// credit it. Returns the amount granted; a refused validation is
/// `PolicyDenied` and changes nothing.
pub fn execute_bounded_allocation<M: ManaLedger>(
    mana_ledger: &mut M,
    recipient: &Did,
    proposed: u64,
    min_allocation: u64,
    max_allocation: u64,
) -> (r: Result<u64, CommonError>)
    requires
        old(mana_ledger).well_formed(),
    ensures
        final(mana_ledger).well_formed(),
        ({
            let amount = bounded_allocation(proposed, min_allocation, max_allocation);
            let valid = mana_spend_valid(balance_in(old(mana_ledger).balances(), recipient@), amount, false);
            &&& !valid ==> (r matches Err(CommonError::PolicyDenied(_))) && final(mana_ledger).balances() == old(
                mana_ledger,
            ).balances()
            &&& r matches Ok(a) ==> valid && a == amount && balance_updated(
                old(mana_ledger).balances(),
                final(mana_ledger).balances(),
                recipient@,
                sat_add(balance_in(old(mana_ledger).balances(), recipient@), amount),
            )
            &&& r is Err ==> final(mana_ledger).balances() == old(mana_ledger).balances()
        }),
{
    let raised = if proposed >= min_allocation {
        proposed
    } else {
        min_allocation
    };
    let amount = if raised <= max_allocation {
        raised
    } else {
        max_allocation
    };
    let context = ValidationContext {
        operation_type: String::from_str("allocation"),
        amount,
        account: recipient.duplicate(),
        resource_type: Some(String::from_str("mana")),
        cross_cooperative: false,
        reputation_required: true,
    };
    let validation = validate_mana_spend(&*mana_ledger, recipient, amount, &context);
    if !validation.is_valid {
        let msg = match validation.error_message {
            Some(m) => m,
            None => String::from_str("Validation failed"),
        };
        return Err(CommonError::PolicyDenied(msg));
    }
    match mana_ledger.credit(recipient, amount) {
        Ok(()) => Ok(amount),
        Err(e) => Err(e),
    }
}

/// How one failed allocation is listed: `(account, "error")`.
pub open spec fn failure_text(f: (Seq<char>, Seq<char>)) -> Seq<char> {
    "("@ + f.0 + ", \""@ + f.1 + "\")"@
}

/// The failed allocations listed in order, separated by `, `.
pub open spec fn failures_text(log: Seq<(Seq<char>, Seq<char>)>) -> Seq<char>
    decreases log.len(),
{
    if log.len() == 0 {
        Seq::empty()
    } else if log.len() == 1 {
        failure_text(log[0])
    } else {
        failures_text(log.drop_last()) + ", "@ + failure_text(log.last())
    }
}

/// The outcome of the allocations of a plan so far.
#[derive(Debug)]
pub struct AllocationTally {
    successful: usize,
    failed: usize,
    total_allocated: u64,
    errors: Vec<(Did, String)>,
}

impl AllocationTally {
    /// Allocations that succeeded.
    pub closed spec fn successes(&self) -> nat {
        self.successful as nat
    }

    /// Allocations that failed.
    pub closed spec fn failures(&self) -> nat {
        self.failed as nat
    }

    /// The amount allocated by the successes.
    pub closed spec fn allocated(&self) -> nat {
        self.total_allocated as nat
    }

    /// The recipients of the failed allocations and their errors.
    pub closed spec fn failure_log(&self) -> Seq<(Seq<char>, Seq<char>)> {
        self.errors@.map_values(|e: (Did, String)| (e.0@, e.1@))
    }

    /// A tally before any allocation.
    pub fn new() -> (r: AllocationTally)
        ensures
            r.successes() == 0,
            r.failures() == 0,
            r.allocated() == 0,
            r.failure_log() == Seq::<(Seq<char>, Seq<char>)>::empty(),
    {
        let r = AllocationTally { successful: 0, failed: 0, total_allocated: 0, errors: Vec::new() };
        assert(r.failure_log() =~= Seq::<(Seq<char>, Seq<char>)>::empty());
        r
    }

    /// Count a successful allocation of `amount`.
    pub fn record_success(&mut self, amount: u64)
        requires
            old(self).successes() < usize::MAX,
            old(self).allocated() + amount <= u64::MAX,
        ensures
            final(self).successes() == old(self).successes() + 1,
            final(self).failures() == old(self).failures(),
            final(self).allocated() == old(self).allocated() + amount,
            final(self).failure_log() == old(self).failure_log(),
    {
        self.successful = self.successful + 1;
        self.total_allocated = self.total_allocated + amount;
    }

    /// Count a failed allocation to `recipient` with `error`.
    pub fn record_failure(&mut self, recipient: &Did, error: String)
        requires
            old(self).failures() < usize::MAX,
        ensures
            final(self).successes() == old(self).successes(),
            final(self).failures() == old(self).failures() + 1,
            final(self).allocated() == old(self).allocated(),
            final(self).failure_log() == old(self).failure_log().push((recipient@, error@)),
    {
        self.failed = self.failed + 1;
        let ghost before = self.errors@;
        self.errors.push((recipient.duplicate(), error));
        proof {
            assert(self.failure_log() =~= before.map_values(|e: (Did, String)| (e.0@, e.1@)).push((recipient@, error@)));
        }
    }

    /// The status a plan ends in: completed without failures, partially
    /// completed when some succeeded, failed otherwise, with the failures
    /// listed in the reason.
    pub fn final_status(&self) -> (r: AllocationStatus)
        ensures
            self.failures() == 0 ==> r is Completed,
            self.failures() > 0 && self.successes() > 0 ==> r == (AllocationStatus::PartiallyCompleted {
                successful: self.successes() as usize,
                failed: self.failures() as usize,
            }),
            self.failures() > 0 && self.successes() == 0 ==> (r matches AllocationStatus::Failed { reason } && reason@
                == "All allocations failed: ["@ + failures_text(self.failure_log()) + "]"@),
    {
        if self.failed == 0 {
            AllocationStatus::Completed
        } else if self.successful > 0 {
            AllocationStatus::PartiallyCompleted { successful: self.successful, failed: self.failed }
        } else {
            let ghost log = self.failure_log();
            let mut reason = String::from_str("All allocations failed: [");
            let mut i: usize = 0;
            proof {
                assert(log.take(0) =~= Seq::<(Seq<char>, Seq<char>)>::empty());
            }
            while i < self.errors.len()
                invariant
                    i <= self.errors@.len(),
                    log == self.failure_log(),
                    reason@ == "All allocations failed: ["@ + failures_text(log.take(i as int)),
                decreases self.errors@.len() - i,
            {
                proof {
                    assert(log.take(i + 1).drop_last() =~= log.take(i as int));
                    assert(log.take(i + 1).last() == (self.errors@[i as int].0@, self.errors@[i as int].1@));
                }
                let ghost before = reason@;
                if i > 0 {
                    reason = reason.concat(", ");
                }
                reason = reason.concat("(").concat(self.errors[i].0.as_str()).concat(", \"").concat(
                    self.errors[i].1.as_str(),
                ).concat("\")");
                proof {
                    if i > 0 {
                        assert(reason@ =~= "All allocations failed: ["@ + (failures_text(log.take(i as int)) + ", "@
                            + failure_text(log[i as int])));
                    } else {
                        assert(reason@ =~= "All allocations failed: ["@ + failure_text(log[i as int]));
                    }
                }
                i = i + 1;
            }
            proof {
                assert(log.take(self.errors@.len() as int) =~= log);
            }
            AllocationStatus::Failed { reason: reason.concat("]") }
        }
    }

    /// The summary of the plan's execution.
    pub fn finish(&self, plan_id: &str, execution_time: core::time::Duration) -> (r: AllocationExecutionResult)
        ensures
            r.plan_id@ == plan_id@,
            r.successful_allocations == self.successes(),
            r.failed_allocations == self.failures(),
            r.total_allocated == self.allocated(),
            r.execution_time == execution_time,
    {
        AllocationExecutionResult {
            plan_id: String::from_str(plan_id),
            successful_allocations: self.successful,
            failed_allocations: self.failed,
            total_allocated: self.total_allocated,
            execution_time,
        }
    }
}

/// One allocation of a plan with the bounds it is held to.
#[derive(Debug)]
pub struct BoundedAllocation {
    pub recipient: Did,
    /// The amount the allocation's weighting factors produced.
    pub proposed: u64,
    pub min_allocation: u64,
    pub max_allocation: u64,
}

/// The largest amount that the allocations of `s` can grant together.
pub open spec fn max_total(s: Seq<BoundedAllocation>) -> int
    decreases s.len(),
{
    if s.len() == 0 {
        0
    } else {
        max_total(s.drop_last()) + s.last().max_allocation
    }
}

/// The amounts granted among `o`, added up.
pub open spec fn granted_total(o: Seq<Option<u64>>) -> int
    decreases o.len(),
{
    if o.len() == 0 {
        0
    } else {
        granted_total(o.drop_last()) + match o.last() {
            Some(a) => a as int,
            None => 0,
        }
    }
}

/// How many allocations among `o` were granted.
pub open spec fn granted_count(o: Seq<Option<u64>>) -> nat
    decreases o.len(),
{
    if o.len() == 0 {
        0
    } else {
        granted_count(o.drop_last()) + if o.last() is Some {
            1nat
        } else {
            0nat
        }
    }
}

/// The recipients of the allocations of `s` that failed by `o`, in order.
pub open spec fn failed_recipients(s: Seq<BoundedAllocation>, o: Seq<Option<u64>>) -> Seq<Seq<char>>
    decreases o.len(),
{
    if o.len() == 0 || s.len() == 0 {
        Seq::empty()
    } else if o.last() is None {
        failed_recipients(s.drop_last(), o.drop_last()).push(s.last().recipient@)
    } else {
        failed_recipients(s.drop_last(), o.drop_last())
    }
}

/// The balance of `k`, from `start`, once the allocations of `s` granted by
/// `o` are credited to their recipients (each credit saturating).
pub open spec fn balance_after_allocations(start: u64, k: Seq<char>, s: Seq<BoundedAllocation>, o: Seq<Option<u64>>) -> u64
    decreases o.len(),
{
    if o.len() == 0 || s.len() == 0 {
        start
    } else {
        let prev = balance_after_allocations(start, k, s.drop_last(), o.drop_last());
        match o.last() {
            Some(a) => if s.last().recipient@ == k {
                sat_add(prev, a)
            } else {
                prev
            },
            None => prev,
        }
    }
}

/// The first allocations of a list can grant no more than all of them.
pub proof fn lemma_max_total_prefix(s: Seq<BoundedAllocation>, i: int)
    requires
        0 <= i <= s.len(),
    ensures
        max_total(s.take(i)) <= max_total(s),
    decreases s.len(),
{
    if i == s.len() {
        assert(s.take(i) =~= s);
    } else {
        assert(s.take(i) =~= s.drop_last().take(i));
        lemma_max_total_prefix(s.drop_last(), i);
    }
}

/// Grant the allocations of a plan in the order given (the plan's highest
/// scores first), each as `execute_bounded_allocation` grants it, and count
/// each in `tally`. Returns, for each allocation, the amount granted or
/// `None` where it failed; a failure does not stop the plan.
pub fn execute_plan_allocations<M: ManaLedger>(
    mana_ledger: &mut M,
    allocations: &Vec<BoundedAllocation>,
    tally: &mut AllocationTally,
) -> (r: Vec<Option<u64>>)
    requires
        old(mana_ledger).well_formed(),
        old(tally).successes() + allocations@.len() <= usize::MAX,
        old(tally).failures() + allocations@.len() <= usize::MAX,
        old(tally).allocated() + max_total(allocations@) <= u64::MAX,
    ensures
        final(mana_ledger).well_formed(),
        r@.len() == allocations@.len(),
        forall|i: int| #![trigger r@[i]] 0 <= i < r@.len() ==> {
            let a = allocations@[i];
            let amount = bounded_allocation(a.proposed, a.min_allocation, a.max_allocation);
            let before = balance_after_allocations(
                balance_in(old(mana_ledger).balances(), a.recipient@),
                a.recipient@,
                allocations@.take(i),
                r@.take(i),
            );
            &&& !mana_spend_valid(before, amount, false) ==> r@[i] is None
            &&& r@[i] matches Some(g) ==> g == amount && mana_spend_valid(before, amount, false)
        },
        forall|k: Seq<char>| #[trigger] balance_in(final(mana_ledger).balances(), k) == balance_after_allocations(
            balance_in(old(mana_ledger).balances(), k),
            k,
            allocations@,
            r@,
        ),
        final(tally).successes() == old(tally).successes() + granted_count(r@),
        final(tally).successes() + final(tally).failures() == old(tally).successes() + old(tally).failures()
            + allocations@.len(),
        final(tally).allocated() == old(tally).allocated() + granted_total(r@),
        final(tally).failure_log().map_values(|f: (Seq<char>, Seq<char>)| f.0) == old(tally).failure_log().map_values(
            |f: (Seq<char>, Seq<char>)| f.0,
        ) + failed_recipients(allocations@, r@),
{
    let ghost s = allocations@;
    let ghost b0 = mana_ledger.balances();
    let ghost t0 = *tally;
    let mut out: Vec<Option<u64>> = Vec::new();
    let mut i: usize = 0;
    proof {
        assert(s.take(0) =~= Seq::<BoundedAllocation>::empty());
        assert(t0.failure_log().map_values(|f: (Seq<char>, Seq<char>)| f.0) + failed_recipients(s.take(0), out@)
            =~= t0.failure_log().map_values(|f: (Seq<char>, Seq<char>)| f.0));
    }
    while i < allocations.len()
        invariant
            mana_ledger.well_formed(),
            s == allocations@,
            b0 == old(mana_ledger).balances(),
            t0 == *old(tally),
            i <= s.len(),
            out@.len() == i,
            t0.successes() + s.len() <= usize::MAX,
            t0.failures() + s.len() <= usize::MAX,
            t0.allocated() + max_total(s) <= u64::MAX,
            granted_count(out@) <= i,
            granted_total(out@) <= max_total(s.take(i as int)),
            tally.successes() == t0.successes() + granted_count(out@),
            tally.successes() + tally.failures() == t0.successes() + t0.failures() + i,
            tally.allocated() == t0.allocated() + granted_total(out@),
            tally.failure_log().map_values(|f: (Seq<char>, Seq<char>)| f.0) == t0.failure_log().map_values(
                |f: (Seq<char>, Seq<char>)| f.0,
            ) + failed_recipients(s.take(i as int), out@),
            forall|j: int| #![trigger out@[j]] 0 <= j < i ==> {
                let a = s[j];
                let amount = bounded_allocation(a.proposed, a.min_allocation, a.max_allocation);
                let before = balance_after_allocations(balance_in(b0, a.recipient@), a.recipient@, s.take(j), out@.take(j));
                &&& !mana_spend_valid(before, amount, false) ==> out@[j] is None
                &&& out@[j] matches Some(g) ==> g == amount && mana_spend_valid(before, amount, false)
            },
            forall|k: Seq<char>| #[trigger] balance_in(mana_ledger.balances(), k) == balance_after_allocations(
                balance_in(b0, k),
                k,
                s.take(i as int),
                out@,
            ),
        decreases s.len() - i,
    {
        let a = &allocations[i];
        let ghost mid = mana_ledger.balances();
        let ghost out_before = out@;
        let ghost log_before = tally.failure_log();
        proof {
            assert(s.take(i + 1).drop_last() =~= s.take(i as int));
            assert(s.take(i + 1).last() == s[i as int]);
            lemma_max_total_prefix(s, i + 1);
            assert(out_before.take(i as int) =~= out_before);
        }
        let res = execute_bounded_allocation(mana_ledger, &a.recipient, a.proposed, a.min_allocation, a.max_allocation);
        match res {
            Ok(amount) => {
                tally.record_success(amount);
                out.push(Some(amount));
            },
            Err(e) => {
                let text = e.message();
                tally.record_failure(&a.recipient, text);
                out.push(None);
            },
        }
        proof {
            assert(out@.drop_last() =~= out_before);
            assert(out@.take(i as int) =~= out_before);
            assert forall|j: int| 0 <= j < i implies out@.take(j) =~= out_before.take(j) by {}
            assert forall|k: Seq<char>| #[trigger] balance_in(mana_ledger.balances(), k) == balance_after_allocations(
                balance_in(b0, k),
                k,
                s.take(i + 1),
                out@,
            ) by {
                assert(balance_in(mid, k) == balance_after_allocations(balance_in(b0, k), k, s.take(i as int), out_before));
            }
            let first = |f: (Seq<char>, Seq<char>)| f.0;
            assert(failed_recipients(s.take(i + 1), out@) == if out@.last() is None {
                failed_recipients(s.take(i as int), out_before).push(s[i as int].recipient@)
            } else {
                failed_recipients(s.take(i as int), out_before)
            });
            if out@.last() is None {
                let e = tally.failure_log().last();
                assert(tally.failure_log() =~= log_before.push(e));
                assert(e.0 == s[i as int].recipient@);
                assert(log_before.push(e).map_values(first) =~= log_before.map_values(first).push(e.0));
            }
            assert(tally.failure_log().map_values(first) =~= t0.failure_log().map_values(first) + failed_recipients(
                s.take(i + 1),
                out@,
            ));
        }
        i = i + 1;
    }
    proof {
        assert(s.take(s.len() as int) =~= s);
    }
    out
}

/// A bound that an economic policy holds every balance to.
#[derive(Debug, Clone, Copy, PartialEq, Eq, Structural)]
pub enum BalanceBound {
    /// Balances below this are topped up to it (mana regeneration policy).
    Minimum(u64),
    /// Balances above this are cut down to it (anti-manipulation policy).
    Maximum(u64),
}

/// A balance held to `bound`.
pub open spec fn bounded_balance(b: u64, bound: BalanceBound) -> u64 {
    match bound {
        BalanceBound::Minimum(m) => if b < m {
            m
        } else {
            b
        },
        BalanceBound::Maximum(m) => if b > m {
            m
        } else {
            b
        },
    }
}

/// The first `n` accounts of `order` hold their balance in `before` held to
/// `bound`, and the others hold their balance in `before`.
pub open spec fn bounded_up_to(
    before: Map<Seq<char>, u64>,
    after: Map<Seq<char>, u64>,
    order: Seq<Seq<char>>,
    n: int,
    bound: BalanceBound,
) -> bool {
    &&& forall|j: int| 0 <= j < n ==> #[trigger] after[order[j]] == bounded_balance(before[order[j]], bound)
    &&& forall|j: int| n <= j < order.len() ==> #[trigger] after[order[j]] == before[order[j]]
}

/// Hold every account of the ledger to `bound`, in the order in which the
/// ledger lists its accounts: a balance under a minimum is credited the
/// difference, a balance over a maximum is charged the excess. Stops at the
/// first credit or charge the ledger refuses, which is the only way it
/// fails: the accounts listed before it are held to the bound, it (an
/// account the bound had to change) and the rest keep their balance.
pub fn enforce_balance_bound<M: ManaLedger>(mana_ledger: &mut M, bound: BalanceBound) -> (r: Result<(), CommonError>)
    requires
        old(mana_ledger).well_formed(),
    ensures
        final(mana_ledger).well_formed(),
        final(mana_ledger).balances().dom() == old(mana_ledger).balances().dom(),
        r is Ok ==> forall|k: Seq<char>| #[trigger] old(mana_ledger).balances().contains_key(k)
            ==> final(mana_ledger).balances()[k] == bounded_balance(old(mana_ledger).balances()[k], bound),
        r is Err ==> exists|n: int|
            0 <= n < old(mana_ledger).account_order().len() && #[trigger] bounded_up_to(
                old(mana_ledger).balances(),
                final(mana_ledger).balances(),
                old(mana_ledger).account_order(),
                n,
                bound,
            ) && bounded_balance(old(mana_ledger).balances()[old(mana_ledger).account_order()[n]], bound)
                != old(mana_ledger).balances()[old(mana_ledger).account_order()[n]],
        (forall|k: Seq<char>| #[trigger] old(mana_ledger).balances().contains_key(k) ==> bounded_balance(
            old(mana_ledger).balances()[k],
            bound,
        ) == old(mana_ledger).balances()[k]) ==> r is Ok && final(mana_ledger).balances() == old(mana_ledger).balances(),
{
    let accounts = mana_ledger.all_accounts();
    let ghost before = mana_ledger.balances();
    let ghost ks = did_views(accounts@);
    let mut i: usize = 0;
    while i < accounts.len()
        invariant
            mana_ledger.well_formed(),
            i <= accounts@.len(),
            ks == did_views(accounts@),
            ks == old(mana_ledger).account_order(),
            ks.no_duplicates(),
            forall|k: Seq<char>| before.contains_key(k) <==> ks.contains(k),
            mana_ledger.balances().dom() == before.dom(),
            forall|j: int| 0 <= j < i ==> #[trigger] mana_ledger.balances()[ks[j]] == bounded_balance(before[ks[j]], bound),
            forall|j: int| i <= j < ks.len() ==> #[trigger] mana_ledger.balances()[ks[j]] == before[ks[j]],
            before == old(mana_ledger).balances(),
            (forall|k: Seq<char>| #[trigger] before.contains_key(k) ==> bounded_balance(before[k], bound) == before[k])
                ==> mana_ledger.balances() == before,
        decreases accounts@.len() - i,
    {
        let did = &accounts[i];
        proof {
            assert(ks[i as int] == did@);
            assert(ks.contains(did@));
        }
        let bal = mana_ledger.get_balance(did);
        let ghost mid = mana_ledger.balances();
        proof {
            assert(bal == mid[did@]);
            assert(mid[did@] == before[did@]);
        }
        let res = match bound {
            BalanceBound::Minimum(m) => if bal < m {
                mana_ledger.credit(did, m - bal)
            } else {
                Ok(())
            },
            BalanceBound::Maximum(m) => if bal > m {
                mana_ledger.spend(did, bal - m)
            } else {
                Ok(())
            },
        };
        proof {
            if res is Ok && mana_ledger.balances() != mid {
                assert(mana_ledger.balances().dom() =~= before.dom()) by {
                    assert forall|k: Seq<char>| mana_ledger.balances().contains_key(k) <==> before.contains_key(k) by {
                        if k != did@ {
                            assert(mana_ledger.balances().contains_key(k) <==> mid.contains_key(k));
                        } else {
                            assert(mid.contains_key(k));
                        }
                    }
                }
                assert forall|j: int| 0 <= j < ks.len() && j != i implies #[trigger] mana_ledger.balances()[ks[j]]
                    == mid[ks[j]] by {
                    assert(ks[j] != ks[i as int]);
                    assert(balance_in(mana_ledger.balances(), ks[j]) == balance_in(mid, ks[j]));
                    assert(ks.contains(ks[j]));
                }
                assert(balance_in(mana_ledger.balances(), did@) == mana_ledger.balances()[did@]);
            }
        }
        if res.is_err() {
            proof {
                assert(bounded_up_to(before, mana_ledger.balances(), ks, i as int, bound));
            }
            return res;
        }
        i = i + 1;
    }
    proof {
        assert forall|k: Seq<char>| #[trigger] before.contains_key(k) implies mana_ledger.balances()[k]
            == bounded_balance(before[k], bound) by {
            assert(ks.contains(k));
            let j = choose|j: int| 0 <= j < ks.len() && ks[j] == k;
            assert(mana_ledger.balances()[ks[j]] == bounded_balance(before[ks[j]], bound));
        }
    }
    Ok(())
}

} // verus!
