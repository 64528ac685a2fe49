//! Dividend and surplus distribution: surplus accumulates, members are
//! registered with what entitles them to a share, and distributions credit
//! each member's amount and are recorded.

use vstd::prelude::*;
use vstd::string::*;
use crate::assoc::{keys_distinct, assoc_map, lemma_assoc_index, lemma_assoc_update, lemma_assoc_push};
use crate::clock::unix_seconds;
use crate::did::Did;
use crate::error::CommonError;
use crate::mana_ledger::ManaLedger;
use crate::disputes::{apply_step, steps_applied, applied_outcome};
use crate::text::{decimal, join2, text_with_number};

verus! {

/// Criteria for dividend distribution.
#[derive(Debug)]
pub enum DistributionCriteria {
    EqualShares,
    ProportionalToContribution,
    ProportionalToStake,
    ReputationWeighted,
    TimeBasedWeighted,
    /// A description of custom logic.
    Custom(String),
}

/// How a criterion is written in a distribution record: its variant's name,
/// and for a custom one the description in quotes within brackets.
pub open spec fn criteria_text(c: DistributionCriteria) -> Seq<char> {
    match c {
        DistributionCriteria::EqualShares => "EqualShares"@,
        DistributionCriteria::ProportionalToContribution => "ProportionalToContribution"@,
        DistributionCriteria::ProportionalToStake => "ProportionalToStake"@,
        DistributionCriteria::ReputationWeighted => "ReputationWeighted"@,
        DistributionCriteria::TimeBasedWeighted => "TimeBasedWeighted"@,
        DistributionCriteria::Custom(d) => "Custom(\""@ + d@ + "\")"@,
    }
}

impl DistributionCriteria {
    /// The criterion as a distribution record names it.
    pub fn describe(&self) -> (r: String)
        ensures
            r@ == criteria_text(*self),
    {
        match self {
            DistributionCriteria::EqualShares => String::from_str("EqualShares"),
            DistributionCriteria::ProportionalToContribution => String::from_str("ProportionalToContribution"),
            DistributionCriteria::ProportionalToStake => String::from_str("ProportionalToStake"),
            DistributionCriteria::ReputationWeighted => String::from_str("ReputationWeighted"),
            DistributionCriteria::TimeBasedWeighted => String::from_str("TimeBasedWeighted"),
            DistributionCriteria::Custom(d) => join2("Custom(\"", d.as_str()).concat("\")"),
        }
    }
}

/// Member eligibility for dividends.
#[derive(Debug, Clone, Copy)]
pub struct MemberEligibility {
    pub contribution_score: u64,
    pub stake_amount: u64,
    pub reputation_score: u64,
    pub membership_duration: u64,
    pub active_participation: bool,
}

/// Dividend distribution record.
#[derive(Debug)]
pub struct DividendDistribution {
    pub distribution_id: String,
    pub total_amount: u64,
    pub recipient_count: usize,
    pub distribution_date: u64,
    pub criteria_used: String,
    /// The amount each member received, in the order they were credited.
    pub individual_amounts: Vec<(Did, u64)>,
}

/// The most distributions that the history keeps.
pub const DISTRIBUTION_HISTORY_LIMIT: usize = 50;

/// The (id, eligibility) pairs of a member list.
pub open spec fn member_pairs(s: Seq<(Did, MemberEligibility)>) -> Seq<(Seq<char>, MemberEligibility)> {
    s.map_values(|p: (Did, MemberEligibility)| (p.0@, p.1))
}

/// The total of the amounts of `s`.
pub open spec fn distributed_sum(s: Seq<DividendDistribution>) -> int
    decreases s.len(),
{
    if s.len() == 0 {
        0
    } else {
        distributed_sum(s.drop_last()) + s.last().total_amount
    }
}

/// The entries of `s` with a positive amount, in order.
pub open spec fn positive_amounts(s: Seq<(Did, u64)>) -> Seq<(Did, u64)>
    decreases s.len(),
{
    if s.len() == 0 {
        Seq::empty()
    } else if s.last().1 > 0 {
        positive_amounts(s.drop_last()).push(s.last())
    } else {
        positive_amounts(s.drop_last())
    }
}

/// The credits that paying `s` makes: each member and its amount.
pub open spec fn credit_steps(s: Seq<(Did, u64)>) -> Seq<(Seq<char>, int)> {
    s.map_values(|p: (Did, u64)| (p.0@, p.1 as int))
}

/// What a distribution record says: id, total, recipients, date, criterion
/// and the amounts paid.
pub open spec fn distribution_summary(d: DividendDistribution) -> (Seq<char>, u64, usize, u64, Seq<char>, Seq<(Did, u64)>) {
    (d.distribution_id@, d.total_amount, d.recipient_count, d.distribution_date, d.criteria_used@, d.individual_amounts@)
}

/// A copy of a list of payments.
fn copy_payments(v: &Vec<(Did, u64)>) -> (r: Vec<(Did, u64)>)
    ensures
        r@ == v@,
{
    let mut out: Vec<(Did, u64)> = Vec::new();
    let mut i: usize = 0;
    while i < v.len()
        invariant
            i <= v@.len(),
            out@ == v@.take(i as int),
        decreases v@.len() - i,
    {
        out.push((v[i].0.duplicate(), v[i].1));
        proof {
            assert(out@ =~= v@.take(i + 1));
        }
        i = i + 1;
    }
    proof {
        assert(v@.take(v@.len() as int) =~= v@);
    }
    out
}

impl DividendDistribution {
    /// A copy of the record.
    pub fn duplicate(&self) -> (r: DividendDistribution)
        ensures
            distribution_summary(r) == distribution_summary(*self),
    {
        DividendDistribution {
            distribution_id: self.distribution_id.clone(),
            total_amount: self.total_amount,
            recipient_count: self.recipient_count,
            distribution_date: self.distribution_date,
            criteria_used: self.criteria_used.clone(),
            individual_amounts: copy_payments(&self.individual_amounts),
        }
    }
}

/// Dividend and surplus distribution system.
#[derive(Debug)]
pub struct DividendDistributor {
    total_surplus: u64,
    distribution_criteria: DistributionCriteria,
    distribution_history: Vec<DividendDistribution>,
    eligible_members: Vec<(Did, MemberEligibility)>,
}

/// The outcome of a distribution at `now` of `amount` (all the surplus when
/// `None`) with the members' amounts `member_amounts`, the distributor going
/// from `s` to `t` and the ledger's balances from `before` to `after`.
pub open spec fn dividend_outcome(
    s: DividendDistributor,
    t: DividendDistributor,
    before: Map<Seq<char>, u64>,
    after: Map<Seq<char>, u64>,
    amount: Option<u64>,
    member_amounts: Seq<(Did, u64)>,
    now: u64,
    r: Result<DividendDistribution, CommonError>,
) -> bool {
    &&& t.criteria() == s.criteria()
    &&& t.members() == s.members()
    &&& t.member_list() == s.member_list()
    &&& {
        let total = match amount {
            Some(a) => a,
            None => s.surplus(),
        };
        &&& total > s.surplus() ==> (r matches Err(CommonError::PolicyDenied(_))) && after
            == before
        &&& total <= s.surplus() ==> applied_outcome(
            match r {
                Ok(_) => Ok(()),
                Err(e) => Err(e),
            },
            before,
            after,
            credit_steps(member_amounts),
        )
        &&& r is Err ==> t.surplus() == s.surplus() && t.history() == s.history()
        &&& r matches Ok(d) ==> {
            &&& d.distribution_id@ == "div_"@ + decimal(s.history().len())
            &&& d.total_amount == total
            &&& d.individual_amounts@ == positive_amounts(member_amounts)
            &&& d.recipient_count == d.individual_amounts@.len()
            &&& d.distribution_date == now
            &&& d.criteria_used@ == criteria_text(s.criteria())
            &&& t.surplus() == s.surplus() - total
            &&& t.history().len() > 0
            &&& distribution_summary(t.history().last()) == distribution_summary(d)
            &&& if s.history().len() < DISTRIBUTION_HISTORY_LIMIT {
                t.history().drop_last() == s.history()
            } else {
                t.history().drop_last() == s.history().drop_first()
            }
        }
    }
    &&& (match amount {
        Some(a) => a,
        None => s.surplus(),
    }) <= s.surplus() && positive_amounts(member_amounts).len() == 0 ==> r is Ok
}

impl DividendDistributor {
    /// The surplus available for distribution.
    pub closed spec fn surplus(&self) -> u64 {
        self.total_surplus
    }

    /// The criterion the shares follow.
    pub closed spec fn criteria(&self) -> DistributionCriteria {
        self.distribution_criteria
    }

    /// The eligible members, keyed by identifier.
    pub closed spec fn members(&self) -> Map<Seq<char>, MemberEligibility> {
        assoc_map(member_pairs(self.eligible_members@))
    }

    /// The eligible members in the order they were first registered.
    pub closed spec fn member_list(&self) -> Seq<(Did, MemberEligibility)> {
        self.eligible_members@
    }

    /// The latest distributions, oldest first.
    pub closed spec fn history(&self) -> Seq<DividendDistribution> {
        self.distribution_history@
    }

    /// No member is registered twice and the history is bounded.
    pub closed spec fn inv(&self) -> bool {
        &&& keys_distinct(member_pairs(self.eligible_members@))
        &&& self.distribution_history@.len() <= DISTRIBUTION_HISTORY_LIMIT
    }

    /// A distributor with no surplus, members or history.
    pub fn new(distribution_criteria: DistributionCriteria) -> (r: DividendDistributor)
        ensures
            r.inv(),
            r.surplus() == 0,
            r.criteria() == distribution_criteria,
            r.members() == Map::<Seq<char>, MemberEligibility>::empty(),
            r.member_list().len() == 0,
            r.history().len() == 0,
    {
        let r = DividendDistributor {
            total_surplus: 0,
            distribution_criteria,
            distribution_history: Vec::new(),
            eligible_members: Vec::new(),
        };
        proof {
            assert(member_pairs(r.eligible_members@) =~= Seq::<(Seq<char>, MemberEligibility)>::empty());
        }
        r
    }

    /// Add `amount` to the surplus.
    pub fn add_surplus(&mut self, amount: u64)
        requires
            old(self).surplus() + amount <= u64::MAX,
        ensures
            final(self).surplus() == old(self).surplus() + amount,
            final(self).criteria() == old(self).criteria(),
            final(self).member_list() == old(self).member_list(),
            final(self).members() == old(self).members(),
            final(self).history() == old(self).history(),
            final(self).inv() == old(self).inv(),
    {
        self.total_surplus = self.total_surplus + amount;
    }

    /// Register `member` with `eligibility`, replacing what it had.
    pub fn set_member_eligibility(&mut self, member: Did, eligibility: MemberEligibility)
        requires
            old(self).inv(),
        ensures
            final(self).inv(),
            final(self).members() == old(self).members().insert(member@, eligibility),
            final(self).surplus() == old(self).surplus(),
            final(self).criteria() == old(self).criteria(),
            final(self).history() == old(self).history(),
    {
        let ghost p = member_pairs(self.eligible_members@);
        let mut i: usize = 0;
        while i < self.eligible_members.len()
            invariant
                *self == *old(self),
                self.inv(),
                p == member_pairs(self.eligible_members@),
                i <= self.eligible_members@.len(),
                forall|j: int| 0 <= j < i ==> #[trigger] self.eligible_members@[j].0@ != member@,
            decreases self.eligible_members@.len() - i,
        {
            if self.eligible_members[i].0.same_as(&member) {
                let ghost k = member@;
                self.eligible_members.set(i, (member, eligibility));
                proof {
                    lemma_assoc_update(p, i as int, eligibility);
                    assert(member_pairs(self.eligible_members@) =~= p.update(i as int, (p[i as int].0, eligibility)));
                }
                return;
            }
            i = i + 1;
        }
        let ghost k = member@;
        self.eligible_members.push((member, eligibility));
        proof {
            assert forall|j: int| 0 <= j < p.len() implies #[trigger] p[j].0 != k by {
                assert(p[j].0 == self.eligible_members@[j].0@);
            }
            lemma_assoc_push(p, k, eligibility);
            assert(member_pairs(self.eligible_members@) =~= p.push((k, eligibility)));
        }
    }

    /// The eligible members in the order they were first registered.
    pub fn get_eligible_members(&self) -> (r: &Vec<(Did, MemberEligibility)>)
        ensures
            r@ == self.member_list(),
    {
        &self.eligible_members
    }

    /// The criterion the shares follow.
    pub fn get_distribution_criteria(&self) -> (r: &DistributionCriteria)
        ensures
            *r == self.criteria(),
    {
        &self.distribution_criteria
    }

    /// The surplus available for distribution.
    pub fn get_total_surplus(&self) -> (r: u64)
        ensures
            r == self.surplus(),
    {
        self.total_surplus
    }

    /// Distribute `amount` of the surplus, or all of it, at time `now`,
    /// paying each member its amount from `member_amounts` (the amounts that
    /// the members' shares give) in order; members whose amount is zero are
    /// skipped. Refused when more than the surplus is asked; when the ledger
    /// refuses a credit, the earlier credits stand and nothing is recorded.
    pub fn distribute_dividends_at<M: ManaLedger>(
        &mut self,
        ledger: &mut M,
        amount: Option<u64>,
        member_amounts: &Vec<(Did, u64)>,
        now: u64,
    ) -> (r: Result<DividendDistribution, CommonError>)
        requires
            old(self).inv(),
            old(ledger).well_formed(),
        ensures
            final(self).inv(),
            final(ledger).well_formed(),
            dividend_outcome(
                *old(self),
                *final(self),
                old(ledger).balances(),
                final(ledger).balances(),
                amount,
                member_amounts@,
                now,
                r,
            ),
    {
        let distribution_amount = match amount {
            Some(a) => a,
            None => self.total_surplus,
        };
        if distribution_amount > self.total_surplus {
            return Err(CommonError::PolicyDenied(String::from_str("Distribution amount exceeds available surplus")));
        }
        let ghost before = ledger.balances();
        let ghost steps = credit_steps(member_amounts@);
        let mut individual_amounts: Vec<(Did, u64)> = Vec::new();
        let mut i: usize = 0;
        proof {
            assert(steps.take(0) =~= Seq::<(Seq<char>, int)>::empty());
            assert(member_amounts@.take(0) =~= Seq::<(Did, u64)>::empty());
        }
        while i < member_amounts.len()
            invariant
                *self == *old(self),
                self.inv(),
                distribution_amount <= self.total_surplus,
                distribution_amount == match amount {
                    Some(a) => a,
                    None => old(self).surplus(),
                },
                ledger.well_formed(),
                before == old(ledger).balances(),
                steps == credit_steps(member_amounts@),
                i <= member_amounts@.len(),
                steps_applied(before, ledger.balances(), steps.take(i as int)),
                individual_amounts@ == positive_amounts(member_amounts@.take(i as int)),
            decreases member_amounts@.len() - i,
        {
            let member = &member_amounts[i].0;
            let member_amount = member_amounts[i].1;
            proof {
                assert(member_amounts@.take(i + 1).drop_last() =~= member_amounts@.take(i as int));
            }
            if member_amount > 0 {
                match apply_step(ledger, member, member_amount as i128, Ghost(before), Ghost(steps), Ghost(i as int)) {
                    Ok(_) => {},
                    Err(e) => {
                        proof {
                            assert(steps_applied(before, ledger.balances(), steps.take(i as int)));
                            lemma_positive_amounts_nonempty(member_amounts@, i as int);
                        }
                        return Err(e);
                    },
                }
                individual_amounts.push((member.duplicate(), member_amount));
            } else {
                proof {
                    assert(steps.take(i + 1).drop_last() =~= steps.take(i as int));
                    assert(steps.take(i + 1).last() == steps[i as int]);
                    assert forall|j: Seq<char>| #[trigger] crate::mana_ledger::balance_in(ledger.balances(), j)
                        == crate::disputes::balance_after(before, steps.take(i + 1), j) by {}
                }
            }
            i = i + 1;
        }
        proof {
            assert(steps.take(steps.len() as int) =~= steps);
            assert(member_amounts@.take(member_amounts@.len() as int) =~= member_amounts@);
        }
        let distribution_id = text_with_number("div_", self.distribution_history.len() as u64);
        let recipient_count = individual_amounts.len();
        let distribution = DividendDistribution {
            distribution_id,
            total_amount: distribution_amount,
            recipient_count,
            distribution_date: now,
            criteria_used: self.distribution_criteria.describe(),
            individual_amounts,
        };
        self.total_surplus = self.total_surplus - distribution_amount;
        let ghost hist = self.distribution_history@;
        self.distribution_history.push(distribution.duplicate());
        if self.distribution_history.len() > DISTRIBUTION_HISTORY_LIMIT {
            self.distribution_history.remove(0);
        }
        proof {
            reveal_strlit("div_");
            if hist.len() < DISTRIBUTION_HISTORY_LIMIT {
                assert(self.distribution_history@.drop_last() =~= hist);
            } else {
                assert(self.distribution_history@.drop_last() =~= hist.drop_first());
            }
        }
        Ok(distribution)
    }

    /// Distribute dividends, dated now by the system clock.
    pub fn distribute_dividends<M: ManaLedger>(
        &mut self,
        ledger: &mut M,
        amount: Option<u64>,
        member_amounts: &Vec<(Did, u64)>,
    ) -> (r: Result<DividendDistribution, CommonError>)
        requires
            old(self).inv(),
            old(ledger).well_formed(),
        ensures
            final(self).inv(),
            final(ledger).well_formed(),
            exists|now: u64|
                #[trigger] dividend_outcome(
                    *old(self),
                    *final(self),
                    old(ledger).balances(),
                    final(ledger).balances(),
                    amount,
                    member_amounts@,
                    now,
                    r,
                ),
    {
        let now = unix_seconds();
        self.distribute_dividends_at(ledger, amount, member_amounts, now)
    }

    /// The distributions kept, oldest first.
    pub fn get_distribution_history(&self) -> (r: &Vec<DividendDistribution>)
        ensures
            r@ == self.history(),
    {
        &self.distribution_history
    }

    /// The total of the distributions kept.
    pub fn get_total_distributed(&self) -> (r: u64)
        requires
            distributed_sum(self.history()) <= u64::MAX,
        ensures
            r == distributed_sum(self.history()),
    {
        let mut total: u64 = 0;
        let mut i: usize = 0;
        while i < self.distribution_history.len()
            invariant
                i <= self.distribution_history@.len(),
                distributed_sum(self.distribution_history@) <= u64::MAX,
                total == distributed_sum(self.distribution_history@.take(i as int)),
            decreases self.distribution_history@.len() - i,
        {
            proof {
                assert(self.distribution_history@.take(i + 1).drop_last() =~= self.distribution_history@.take(i as int));
                lemma_sum_prefix(self.distribution_history@, i + 1);
            }
            total = total + self.distribution_history[i].total_amount;
            i = i + 1;
        }
        proof {
            assert(self.distribution_history@.take(i as int) =~= self.distribution_history@);
        }
        total
    }
}

/// A prefix's total is at most the whole total.
proof fn lemma_sum_prefix(s: Seq<DividendDistribution>, n: int)
    requires
        0 <= n <= s.len(),
    ensures
        distributed_sum(s.take(n)) <= distributed_sum(s),
    decreases s.len(),
{
    if n < s.len() {
        assert(s.drop_last().take(n) =~= s.take(n));
        lemma_sum_prefix(s.drop_last(), n);
    } else {
        assert(s.take(n) =~= s);
    }
}


/// A positive amount among `s` is kept among its positive amounts.
pub proof fn lemma_positive_amounts_nonempty(s: Seq<(Did, u64)>, i: int)
    requires
        0 <= i < s.len(),
        s[i].1 > 0,
    ensures
        positive_amounts(s).len() > 0,
    decreases s.len(),
{
    if i < s.len() - 1 {
        assert(s.drop_last()[i] == s[i]);
        lemma_positive_amounts_nonempty(s.drop_last(), i);
    }
}

} // verus!
