//! Democratic budget management: proposals are voted on, approved ones are
//! executed against the budget of the fiscal period, and the spending of each
//! category is tracked.

use vstd::prelude::*;
use vstd::string::*;
use crate::clock::unix_seconds;
use crate::did::Did;
use crate::error::CommonError;
use crate::text::{decimal, text_with_number};

verus! {

/// Budget categories for allocation.
#[derive(Debug)]
pub enum BudgetCategory {
    Development,
    Operations,
    Marketing,
    Research,
    Community,
    Infrastructure,
    Emergency,
    Custom(String),
}

/// What identifies a category: its kind, in the order of the variants, and
/// the name of a custom category.
pub open spec fn category_key(c: BudgetCategory) -> (int, Seq<char>) {
    match c {
        BudgetCategory::Development => (0, Seq::empty()),
        BudgetCategory::Operations => (1, Seq::empty()),
        BudgetCategory::Marketing => (2, Seq::empty()),
        BudgetCategory::Research => (3, Seq::empty()),
        BudgetCategory::Community => (4, Seq::empty()),
        BudgetCategory::Infrastructure => (5, Seq::empty()),
        BudgetCategory::Emergency => (6, Seq::empty()),
        BudgetCategory::Custom(name) => (7, name@),
    }
}

impl BudgetCategory {
    /// A copy of the category.
    pub fn duplicate(&self) -> (r: BudgetCategory)
        ensures
            category_key(r) == category_key(*self),
    {
        match self {
            BudgetCategory::Development => BudgetCategory::Development,
            BudgetCategory::Operations => BudgetCategory::Operations,
            BudgetCategory::Marketing => BudgetCategory::Marketing,
            BudgetCategory::Research => BudgetCategory::Research,
            BudgetCategory::Community => BudgetCategory::Community,
            BudgetCategory::Infrastructure => BudgetCategory::Infrastructure,
            BudgetCategory::Emergency => BudgetCategory::Emergency,
            BudgetCategory::Custom(name) => BudgetCategory::Custom(name.clone()),
        }
    }

    /// The kind of the category, in the order of the variants.
    fn kind(&self) -> (r: u8)
        ensures
            r as int == category_key(*self).0,
    {
        match self {
            BudgetCategory::Development => 0,
            BudgetCategory::Operations => 1,
            BudgetCategory::Marketing => 2,
            BudgetCategory::Research => 3,
            BudgetCategory::Community => 4,
            BudgetCategory::Infrastructure => 5,
            BudgetCategory::Emergency => 6,
            BudgetCategory::Custom(_) => 7,
        }
    }

    /// Whether both are the same category.
    pub fn same_as(&self, other: &BudgetCategory) -> (r: bool)
        ensures
            r == (category_key(*self) == category_key(*other)),
    {
        match (self, other) {
            (BudgetCategory::Custom(a), BudgetCategory::Custom(b)) => *a == *b,
            _ => self.kind() == other.kind(),
        }
    }
}

/// Status of budget allocation proposals.
#[derive(Debug, Clone, Copy, PartialEq, Eq, Structural)]
pub enum BudgetProposalStatus {
    Pending,
    UnderReview,
    Approved,
    Rejected,
    Executed,
    Cancelled,
}

/// Budget allocation proposal.
#[derive(Debug)]
pub struct BudgetProposal {
    pub id: String,
    pub proposer: Did,
    pub category: BudgetCategory,
    pub amount: u64,
    pub recipient: Did,
    pub purpose: String,
    pub justification: String,
    pub created_at: u64,
    pub status: BudgetProposalStatus,
    pub votes_for: u32,
    pub votes_against: u32,
    pub quorum_met: bool,
}

/// Completed budget allocation record.
#[derive(Debug)]
pub struct BudgetAllocation {
    pub proposal_id: String,
    pub category: BudgetCategory,
    pub amount: u64,
    pub recipient: Did,
    pub purpose: String,
    pub allocated_at: u64,
    pub executor: Did,
}

/// Fiscal period configuration.
#[derive(Debug, Clone, Copy)]
pub struct FiscalPeriod {
    pub start_time: u64,
    pub duration_secs: u64,
    pub auto_reset: bool,
}

/// The most allocations that the history keeps.
pub const HISTORY_LIMIT: usize = 100;

/// Votes a proposal needs before it is decided.
pub const QUORUM: u64 = 3;

/// The total of the amounts in `s`.
pub open spec fn category_sum(s: Seq<(BudgetCategory, u64)>) -> int
    decreases s.len(),
{
    if s.len() == 0 {
        0
    } else {
        category_sum(s.drop_last()) + s.last().1
    }
}

/// The amount allocated to category `key` in `s`, zero if it has none.
pub open spec fn category_amount(s: Seq<(BudgetCategory, u64)>, key: (int, Seq<char>)) -> int
    decreases s.len(),
{
    if s.len() == 0 {
        0
    } else if category_key(s.last().0) == key {
        s.last().1 as int
    } else {
        category_amount(s.drop_last(), key)
    }
}

/// No category occurs twice in `s`.
pub open spec fn categories_distinct(s: Seq<(BudgetCategory, u64)>) -> bool {
    forall|i: int, j: int|
        0 <= i < j < s.len() ==> category_key(#[trigger] s[i].0) != category_key(#[trigger] s[j].0)
}

/// Every entry is part of the total.
proof fn lemma_entry_in_sum(s: Seq<(BudgetCategory, u64)>, i: int)
    requires
        0 <= i < s.len(),
    ensures
        s[i].1 <= category_sum(s),
    decreases s.len(),
{
    if i < s.len() - 1 {
        lemma_entry_in_sum(s.drop_last(), i);
    }
    lemma_sum_nonneg(s.drop_last());
}

/// A total is never negative.
proof fn lemma_sum_nonneg(s: Seq<(BudgetCategory, u64)>)
    ensures
        category_sum(s) >= 0,
    decreases s.len(),
{
    if s.len() > 0 {
        lemma_sum_nonneg(s.drop_last());
    }
}

/// Raising entry `i` by `d` raises the total by `d`.
proof fn lemma_sum_update(s: Seq<(BudgetCategory, u64)>, i: int, e: (BudgetCategory, u64))
    requires
        0 <= i < s.len(),
    ensures
        category_sum(s.update(i, e)) == category_sum(s) - s[i].1 + e.1,
    decreases s.len(),
{
    if i < s.len() - 1 {
        lemma_sum_update(s.drop_last(), i, e);
        assert(s.update(i, e).drop_last() =~= s.drop_last().update(i, e));
    } else {
        assert(s.update(i, e).drop_last() =~= s.drop_last());
    }
}

/// The amount of a category whose entry is at `i`.
proof fn lemma_amount_at(s: Seq<(BudgetCategory, u64)>, i: int)
    requires
        categories_distinct(s),
        0 <= i < s.len(),
    ensures
        category_amount(s, category_key(s[i].0)) == s[i].1,
    decreases s.len(),
{
    if i < s.len() - 1 {
        assert(category_key(s.last().0) != category_key(s[i].0)) by {
            assert(s.last() == s[s.len() - 1]);
        }
        assert(s.drop_last()[i] == s[i]);
        lemma_amount_at(s.drop_last(), i);
    }
}

/// The amount of a category that has no entry is zero.
proof fn lemma_amount_absent(s: Seq<(BudgetCategory, u64)>, key: (int, Seq<char>))
    requires
        forall|j: int| 0 <= j < s.len() ==> category_key(#[trigger] s[j].0) != key,
    ensures
        category_amount(s, key) == 0,
    decreases s.len(),
{
    if s.len() > 0 {
        assert(s.last() == s[s.len() - 1]);
        lemma_amount_absent(s.drop_last(), key);
    }
}

/// Replacing entry `i` by one of the same category changes that category's
/// amount only.
proof fn lemma_amount_update(s: Seq<(BudgetCategory, u64)>, i: int, e: (BudgetCategory, u64), key: (int, Seq<char>))
    requires
        categories_distinct(s),
        0 <= i < s.len(),
        category_key(e.0) == category_key(s[i].0),
    ensures
        category_amount(s.update(i, e), key) == if key == category_key(e.0) {
            e.1 as int
        } else {
            category_amount(s, key)
        },
    decreases s.len(),
{
    if i < s.len() - 1 {
        assert(s.update(i, e).drop_last() =~= s.drop_last().update(i, e));
        assert(s.update(i, e).last() == s.last());
        assert(s.last() == s[s.len() - 1]);
        lemma_amount_update(s.drop_last(), i, e, key);
        if key == category_key(e.0) {
            assert(category_key(s.last().0) != key);
        }
    } else {
        assert(s.update(i, e).drop_last() =~= s.drop_last());
        if key == category_key(e.0) {
        } else {
        }
    }
}

/// What a proposal says that matters to the budget: its id, category, amount
/// and status, and the votes cast on it.
pub open spec fn proposal_summary(p: BudgetProposal) -> (Seq<char>, (int, Seq<char>), u64, BudgetProposalStatus, u32, u32, bool) {
    (p.id@, category_key(p.category), p.amount, p.status, p.votes_for, p.votes_against, p.quorum_met)
}

/// `i` is the first position in `s` of a proposal with id `id`.
pub open spec fn first_with_id(s: Seq<BudgetProposal>, id: Seq<char>, i: int) -> bool {
    &&& 0 <= i < s.len()
    &&& s[i].id@ == id
    &&& forall|j: int| 0 <= j < i ==> (#[trigger] s[j]).id@ != id
}

/// No proposal in `s` has id `id`.
pub open spec fn no_id(s: Seq<BudgetProposal>, id: Seq<char>) -> bool {
    forall|j: int| 0 <= j < s.len() ==> (#[trigger] s[j]).id@ != id
}

/// What an allocation records, with the category by its key.
pub open spec fn allocation_summary(a: BudgetAllocation) -> (Seq<char>, (int, Seq<char>), u64, Did, Seq<char>, u64, Did) {
    (a.proposal_id@, category_key(a.category), a.amount, a.recipient, a.purpose@, a.allocated_at, a.executor)
}

/// The proposal `p` after one vote: counted, and decided once the quorum is met.
pub open spec fn voted(p: BudgetProposal, q: BudgetProposal, approve: bool) -> bool {
    let f = if approve {
        p.votes_for + 1
    } else {
        p.votes_for as int
    };
    let a = if approve {
        p.votes_against as int
    } else {
        p.votes_against + 1
    };
    &&& q.votes_for == f
    &&& q.votes_against == a
    &&& if f + a >= QUORUM {
        &&& q.quorum_met
        &&& q.status == if f > a {
            BudgetProposalStatus::Approved
        } else {
            BudgetProposalStatus::Rejected
        }
    } else {
        q.quorum_met == p.quorum_met && q.status == p.status
    }
    &&& q.id == p.id
    &&& q.proposer == p.proposer
    &&& category_key(q.category) == category_key(p.category)
    &&& q.amount == p.amount
    &&& q.recipient == p.recipient
    &&& q.purpose == p.purpose
    &&& q.justification == p.justification
    &&& q.created_at == p.created_at
}

/// `q` is `p` marked executed.
pub open spec fn executed(p: BudgetProposal, q: BudgetProposal) -> bool {
    proposal_summary(q) == (p.id@, category_key(p.category), p.amount, BudgetProposalStatus::Executed, p.votes_for, p.votes_against, p.quorum_met)
        && q.proposer == p.proposer && q.recipient == p.recipient && q.purpose == p.purpose
        && q.justification == p.justification && q.created_at == p.created_at
}

/// The proposals of `s` that are pending, in order.
pub open spec fn pending_of(s: Seq<BudgetProposal>) -> Seq<BudgetProposal>
    decreases s.len(),
{
    if s.len() == 0 {
        Seq::empty()
    } else if s.last().status == BudgetProposalStatus::Pending {
        pending_of(s.drop_last()).push(s.last())
    } else {
        pending_of(s.drop_last())
    }
}

/// `after` is the history `before` with an allocation like `a` recorded
/// last, the oldest entry dropped when the history was full.
pub open spec fn history_recorded(before: Seq<BudgetAllocation>, after: Seq<BudgetAllocation>, a: BudgetAllocation) -> bool {
    &&& after.len() > 0
    &&& allocation_summary(after.last()) == allocation_summary(a)
    &&& if before.len() < HISTORY_LIMIT {
        after.drop_last() == before
    } else {
        after.drop_last() == before.drop_first()
    }
}

/// Budget allocation and management for one fiscal period.
#[derive(Debug)]
pub struct BudgetManager {
    total_budget: u64,
    allocated_budget: u64,
    budget_allocations: Vec<(BudgetCategory, u64)>,
    allocation_proposals: Vec<BudgetProposal>,
    allocation_history: Vec<BudgetAllocation>,
    fiscal_period: FiscalPeriod,
}

impl BudgetManager {
    /// The budget of the period.
    pub closed spec fn total(&self) -> u64 {
        self.total_budget
    }

    /// The part of the budget allocated so far.
    pub closed spec fn allocated(&self) -> u64 {
        self.allocated_budget
    }

    /// The amount allocated to each category, zero for one without allocations.
    pub closed spec fn category_total(&self, key: (int, Seq<char>)) -> int {
        category_amount(self.budget_allocations@, key)
    }

    /// The proposals, oldest first.
    pub closed spec fn proposals(&self) -> Seq<BudgetProposal> {
        self.allocation_proposals@
    }

    /// The latest allocations, oldest first.
    pub closed spec fn history(&self) -> Seq<BudgetAllocation> {
        self.allocation_history@
    }

    /// The fiscal period.
    pub closed spec fn period(&self) -> FiscalPeriod {
        self.fiscal_period
    }

    /// The manager's invariant: the categories add up to what is allocated,
    /// which never exceeds the budget, and the history is bounded.
    pub closed spec fn inv(&self) -> bool {
        &&& categories_distinct(self.budget_allocations@)
        &&& category_sum(self.budget_allocations@) == self.allocated_budget
        &&& self.allocated_budget <= self.total_budget
        &&& self.allocation_history@.len() <= HISTORY_LIMIT
    }

    /// The proposals with id `id` can take one more vote.
    pub closed spec fn vote_fits(&self, id: Seq<char>) -> bool {
        forall|i: int|
            0 <= i < self.allocation_proposals@.len() && (#[trigger] self.allocation_proposals@[i]).id@ == id
                ==> self.allocation_proposals@[i].votes_for + self.allocation_proposals@[i].votes_against < u32::MAX
    }

    /// A manager with nothing allocated or proposed.
    pub fn new(total_budget: u64, fiscal_period: FiscalPeriod) -> (r: BudgetManager)
        ensures
            r.inv(),
            r.total() == total_budget,
            r.allocated() == 0,
            r.proposals().len() == 0,
            r.history().len() == 0,
            r.period() == fiscal_period,
            forall|key: (int, Seq<char>)| #[trigger] r.category_total(key) == 0,
    {
        BudgetManager {
            total_budget,
            allocated_budget: 0,
            budget_allocations: Vec::new(),
            allocation_proposals: Vec::new(),
            allocation_history: Vec::new(),
            fiscal_period,
        }
    }

    /// The budget not yet allocated.
    pub fn remaining_budget(&self) -> (r: u64)
        requires
            self.inv(),
        ensures
            r == self.total() - self.allocated(),
    {
        self.total_budget - self.allocated_budget
    }

    /// The budget of the period.
    pub fn total_budget(&self) -> (r: u64)
        ensures
            r == self.total(),
    {
        self.total_budget
    }

    /// The part of the budget allocated so far.
    pub fn allocated_budget(&self) -> (r: u64)
        ensures
            r == self.allocated(),
    {
        self.allocated_budget
    }

    /// The amount allocated to `category`.
    pub fn get_category_allocation(&self, category: &BudgetCategory) -> (r: u64)
        requires
            self.inv(),
        ensures
            r == self.category_total(category_key(*category)),
    {
        let mut i: usize = 0;
        while i < self.budget_allocations.len()
            invariant
                self.inv(),
                i <= self.budget_allocations@.len(),
                forall|j: int| 0 <= j < i ==> category_key(#[trigger] self.budget_allocations@[j].0) != category_key(*category),
            decreases self.budget_allocations@.len() - i,
        {
            if self.budget_allocations[i].0.same_as(category) {
                proof {
                    lemma_amount_at(self.budget_allocations@, i as int);
                }
                return self.budget_allocations[i].1;
            }
            i = i + 1;
        }
        proof {
            lemma_amount_absent(self.budget_allocations@, category_key(*category));
        }
        0
    }

    /// What proposing `amount` for `recipient` at time `now` does, from the
    /// manager `self` to the manager `after`, with result `r`: refused when
    /// the amount exceeds what remains; else a pending proposal with the
    /// given fields and no votes is added last, under the returned id.
    pub open spec fn propose_outcome(
        self,
        after: Self,
        proposer: Did,
        category: BudgetCategory,
        amount: u64,
        recipient: Did,
        purpose: String,
        justification: String,
        now: u64,
        r: Result<String, CommonError>,
    ) -> bool {
        &&& (after.total() == self.total())
        &&& (after.allocated() == self.allocated())
        &&& (after.history() == self.history())
        &&& (after.period() == self.period())
        &&& (forall|key: (int, Seq<char>)| #[trigger] after.category_total(key) == self.category_total(key))
        &&& (amount > self.total() - self.allocated() ==> r is Err && after.proposals() == self.proposals())
        &&& (amount <= self.total() - self.allocated() ==> (r matches Ok(id) && {
            let p = after.proposals().last();
            &&& id@ == "budget_"@ + decimal(self.proposals().len())
            &&& after.proposals().drop_last() == self.proposals()
            &&& after.proposals().len() == self.proposals().len() + 1
            &&& p.id@ == id@
            &&& p.proposer == proposer
            &&& category_key(p.category) == category_key(category)
            &&& p.amount == amount
            &&& p.recipient == recipient
            &&& p.purpose == purpose
            &&& p.justification == justification
            &&& p.created_at == now
            &&& p.status == BudgetProposalStatus::Pending
            &&& p.votes_for == 0
            &&& p.votes_against == 0
            &&& !p.quorum_met
        }))
    }

    /// Propose that `amount` of the budget go to `recipient`, at time `now`;
    /// refused when it exceeds what remains.
    pub fn propose_allocation_at(
        &mut self,
        proposer: Did,
        category: BudgetCategory,
        amount: u64,
        recipient: Did,
        purpose: String,
        justification: String,
        now: u64,
    ) -> (r: Result<String, CommonError>)
        requires
            old(self).inv(),
        ensures
            final(self).inv(),
            old(self).propose_outcome(*final(self), proposer, category, amount, recipient, purpose, justification, now, r),
    {
        if amount > self.remaining_budget() {
            return Err(CommonError::PolicyDenied(String::from_str("Proposed amount exceeds remaining budget")));
        }
        let proposal_id = text_with_number("budget_", self.allocation_proposals.len() as u64);
        let proposal = BudgetProposal {
            id: proposal_id.clone(),
            proposer,
            category,
            amount,
            recipient,
            purpose,
            justification,
            created_at: now,
            status: BudgetProposalStatus::Pending,
            votes_for: 0,
            votes_against: 0,
            quorum_met: false,
        };
        let ghost before = self.allocation_proposals@;
        self.allocation_proposals.push(proposal);
        proof {
            reveal_strlit("budget_");
            assert(self.allocation_proposals@.drop_last() =~= before);
        }
        Ok(proposal_id)
    }

    /// Propose an allocation, dated now by the system clock.
    pub fn propose_allocation(
        &mut self,
        proposer: Did,
        category: BudgetCategory,
        amount: u64,
        recipient: Did,
        purpose: String,
        justification: String,
    ) -> (r: Result<String, CommonError>)
        requires
            old(self).inv(),
        ensures
            final(self).inv(),
            exists|now: u64| #[trigger] old(self).propose_outcome(
                *final(self),
                proposer,
                category,
                amount,
                recipient,
                purpose,
                justification,
                now,
                r,
            ),
    {
        let now = unix_seconds();
        let ghost args = (proposer, category, amount, recipient, purpose, justification);
        let r = self.propose_allocation_at(proposer, category, amount, recipient, purpose, justification, now);
        assert(old(self).propose_outcome(*self, args.0, args.1, args.2, args.3, args.4, args.5, now, r));
        r
    }

    /// The first position of a proposal with id `proposal_id`.
    fn find_proposal(&self, proposal_id: &str) -> (r: Option<usize>)
        ensures
            match r {
                Some(i) => first_with_id(self.proposals(), proposal_id@, i as int),
                None => no_id(self.proposals(), proposal_id@),
            },
    {
        let key = proposal_id.to_owned();
        let mut i: usize = 0;
        while i < self.allocation_proposals.len()
            invariant
                key@ == proposal_id@,
                i <= self.allocation_proposals@.len(),
                forall|j: int| 0 <= j < i ==> (#[trigger] self.allocation_proposals@[j]).id@ != proposal_id@,
            decreases self.allocation_proposals@.len() - i,
        {
            if self.allocation_proposals[i].id == key {
                return Some(i);
            }
            i = i + 1;
        }
        None
    }

    /// Cast a vote on a proposal. Once it has three votes its quorum is met
    /// and it is approved if more votes are for it than against, else
    /// rejected; later votes decide it again.
    pub fn vote_on_proposal(&mut self, proposal_id: &str, voter: &Did, approve: bool) -> (r: Result<(), CommonError>)
        requires
            old(self).inv(),
            old(self).vote_fits(proposal_id@),
        ensures
            final(self).inv(),
            final(self).total() == old(self).total(),
            final(self).allocated() == old(self).allocated(),
            final(self).history() == old(self).history(),
            final(self).period() == old(self).period(),
            forall|key: (int, Seq<char>)| #[trigger] final(self).category_total(key) == old(self).category_total(key),
            final(self).proposals().len() == old(self).proposals().len(),
            no_id(old(self).proposals(), proposal_id@) ==> (r matches Err(CommonError::ResourceNotFound(_))
                && final(self).proposals() == old(self).proposals()),
            forall|i: int|
                #[trigger] first_with_id(old(self).proposals(), proposal_id@, i) ==> {
                    &&& r is Ok
                    &&& voted(old(self).proposals()[i], final(self).proposals()[i], approve)
                    &&& forall|j: int| 0 <= j < old(self).proposals().len() && j != i ==> #[trigger] final(self).proposals()[j] == old(self).proposals()[j]
                },
    {
        match self.find_proposal(proposal_id) {
            None => Err(CommonError::ResourceNotFound(String::from_str("Budget proposal not found"))),
            Some(i) => {
                let ghost before = self.allocation_proposals@;
                let mut p = self.allocation_proposals.remove(i);
                let ghost p0 = p;
                if approve {
                    p.votes_for = p.votes_for + 1;
                } else {
                    p.votes_against = p.votes_against + 1;
                }
                let total_votes: u64 = p.votes_for as u64 + p.votes_against as u64;
                if total_votes >= QUORUM {
                    p.quorum_met = true;
                    if p.votes_for > p.votes_against {
                        p.status = BudgetProposalStatus::Approved;
                    } else {
                        p.status = BudgetProposalStatus::Rejected;
                    }
                }
                let ghost p1 = p;
                self.allocation_proposals.insert(i, p);
                proof {
                    assert(self.allocation_proposals@ =~= before.update(i as int, p1));
                    assert(voted(p0, p1, approve));
                    assert forall|k: int| #[trigger] first_with_id(before, proposal_id@, k) implies k == i by {
                        if k < i {
                            assert(before[k].id@ != proposal_id@);
                        } else if k > i {
                            assert(before[i as int].id@ != proposal_id@);
                        }
                    }
                }
                Ok(())
            },
        }
    }

    /// Where `category` is kept among the category totals.
    fn find_category(&self, category: &BudgetCategory) -> (r: Option<usize>)
        ensures
            match r {
                Some(i) => i < self.budget_allocations@.len() && category_key(self.budget_allocations@[i as int].0)
                    == category_key(*category),
                None => forall|j: int|
                    0 <= j < self.budget_allocations@.len() ==> category_key(#[trigger] self.budget_allocations@[j].0)
                        != category_key(*category),
            },
    {
        let mut i: usize = 0;
        while i < self.budget_allocations.len()
            invariant
                i <= self.budget_allocations@.len(),
                forall|j: int| 0 <= j < i ==> category_key(#[trigger] self.budget_allocations@[j].0) != category_key(*category),
            decreases self.budget_allocations@.len() - i,
        {
            if self.budget_allocations[i].0.same_as(category) {
                return Some(i);
            }
            i = i + 1;
        }
        None
    }

    /// Add `amount` to the total of `category`.
    fn add_to_category(&mut self, category: &BudgetCategory, amount: u64)
        requires
            categories_distinct(old(self).budget_allocations@),
            category_sum(old(self).budget_allocations@) + amount <= u64::MAX,
        ensures
            categories_distinct(final(self).budget_allocations@),
            category_sum(final(self).budget_allocations@) == category_sum(old(self).budget_allocations@) + amount,
            forall|key: (int, Seq<char>)| #[trigger] final(self).category_total(key) == if key == category_key(*category) {
                old(self).category_total(key) + amount
            } else {
                old(self).category_total(key)
            },
            final(self).total_budget == old(self).total_budget,
            final(self).allocated_budget == old(self).allocated_budget,
            final(self).allocation_proposals == old(self).allocation_proposals,
            final(self).allocation_history == old(self).allocation_history,
            final(self).fiscal_period == old(self).fiscal_period,
    {
        let ghost s = self.budget_allocations@;
        match self.find_category(category) {
            Some(i) => {
                proof {
                    lemma_entry_in_sum(s, i as int);
                    lemma_amount_at(s, i as int);
                }
                let current = self.budget_allocations[i].1;
                let e = (category.duplicate(), current + amount);
                let ghost eg = e;
                self.budget_allocations.set(i, e);
                proof {
                    lemma_sum_update(s, i as int, eg);
                    assert forall|key: (int, Seq<char>)| #[trigger] self.category_total(key) == if key == category_key(*category) {
                        old(self).category_total(key) + amount
                    } else {
                        old(self).category_total(key)
                    } by {
                        lemma_amount_update(s, i as int, eg, key);
                    }
                    assert forall|a: int, b: int|
                        0 <= a < b < self.budget_allocations@.len() implies category_key(#[trigger] self.budget_allocations@[a].0)
                        != category_key(#[trigger] self.budget_allocations@[b].0) by {
                        assert(category_key(s[a].0) != category_key(s[b].0));
                    }
                }
            },
            None => {
                let e = (category.duplicate(), amount);
                let ghost eg = e;
                self.budget_allocations.push(e);
                proof {
                    assert(self.budget_allocations@.drop_last() =~= s);
                    lemma_amount_absent(s, category_key(*category));
                    assert forall|a: int, b: int|
                        0 <= a < b < self.budget_allocations@.len() implies category_key(#[trigger] self.budget_allocations@[a].0)
                        != category_key(#[trigger] self.budget_allocations@[b].0) by {
                        if b == s.len() {
                            assert(self.budget_allocations@[a] == s[a]);
                        } else {
                            assert(category_key(s[a].0) != category_key(s[b].0));
                        }
                    }
                }
            },
        }
    }

    /// What executing the proposal `proposal_id` at time `now` does, from
    /// the manager `self` to the manager `after`, with result `r`.
    ///
    /// An unknown id is `ResourceNotFound`; a proposal that is not approved
    /// (one already executed among them), or whose amount exceeds what
    /// remains, is `PolicyDenied`, and then nothing changes. Else the
    /// returned allocation carries the proposal's id, category, amount,
    /// recipient and purpose; the allocated total and the category's total
    /// rise by the amount, the proposal is marked executed and the
    /// allocation recorded.
    pub open spec fn execute_outcome(
        self,
        after: Self,
        proposal_id: Seq<char>,
        executor: Did,
        now: u64,
        r: Result<BudgetAllocation, CommonError>,
    ) -> bool {
        &&& (after.total() == self.total())
        &&& (after.period() == self.period())
        &&& (no_id(self.proposals(), proposal_id) ==> r matches Err(CommonError::ResourceNotFound(_)))
        &&& (forall|i: int|
            #[trigger] first_with_id(self.proposals(), proposal_id, i) ==> {
                let p = self.proposals()[i];
                &&& p.status != BudgetProposalStatus::Approved ==> (r matches Err(CommonError::PolicyDenied(_)))
                &&& (p.status == BudgetProposalStatus::Approved && p.amount > self.total() - self.allocated())
                    ==> (r matches Err(CommonError::PolicyDenied(_)))
                &&& (p.status == BudgetProposalStatus::Approved && p.amount <= self.total() - self.allocated())
                    ==> (r matches Ok(a) && {
                    &&& a.proposal_id@ == proposal_id
                    &&& category_key(a.category) == category_key(p.category)
                    &&& a.amount == p.amount
                    &&& a.recipient == p.recipient
                    &&& a.purpose == p.purpose
                    &&& a.allocated_at == now
                    &&& a.executor == executor
                    &&& after.allocated() == self.allocated() + p.amount
                    &&& forall|key: (int, Seq<char>)| #[trigger] after.category_total(key) == if key
                        == category_key(p.category) {
                        self.category_total(key) + p.amount
                    } else {
                        self.category_total(key)
                    }
                    &&& after.proposals().len() == self.proposals().len()
                    &&& executed(p, after.proposals()[i])
                    &&& forall|j: int| 0 <= j < self.proposals().len() && j != i ==> #[trigger] after.proposals()[j] == self.proposals()[j]
                    &&& history_recorded(self.history(), after.history(), a)
                })
            })
        &&& (r is Err ==> {
            &&& after.allocated() == self.allocated()
            &&& after.proposals() == self.proposals()
            &&& after.history() == self.history()
            &&& forall|key: (int, Seq<char>)| #[trigger] after.category_total(key) == self.category_total(key)
        })
    }

    /// Execute the approved proposal `proposal_id` at time `now`: its amount
    /// is allocated to its category and recipient, the proposal is marked
    /// executed and the allocation recorded.
    pub fn execute_allocation_at(&mut self, proposal_id: &str, executor: Did, now: u64) -> (r: Result<BudgetAllocation, CommonError>)
        requires
            old(self).inv(),
        ensures
            final(self).inv(),
            old(self).execute_outcome(*final(self), proposal_id@, executor, now, r),
    {
        let i = match self.find_proposal(proposal_id) {
            None => return Err(CommonError::ResourceNotFound(String::from_str("Budget proposal not found"))),
            Some(i) => i,
        };
        proof {
            assert forall|k: int| #[trigger] first_with_id(self.proposals(), proposal_id@, k) implies k == i by {
                if k < i {
                    assert(self.proposals()[k].id@ != proposal_id@);
                } else if k > i {
                    assert(self.proposals()[i as int].id@ != proposal_id@);
                }
            }
        }
        if self.allocation_proposals[i].status != BudgetProposalStatus::Approved {
            return Err(CommonError::PolicyDenied(String::from_str("Proposal not approved for execution")));
        }
        let remaining = self.remaining_budget();
        let amount = self.allocation_proposals[i].amount;
        if amount > remaining {
            return Err(CommonError::PolicyDenied(String::from_str("Insufficient remaining budget")));
        }
        let ghost before = self.allocation_proposals@;
        let ghost hist = self.allocation_history@;
        let allocation = BudgetAllocation {
            proposal_id: String::from_str(proposal_id),
            category: self.allocation_proposals[i].category.duplicate(),
            amount,
            recipient: self.allocation_proposals[i].recipient.duplicate(),
            purpose: self.allocation_proposals[i].purpose.clone(),
            allocated_at: now,
            executor,
        };
        self.allocated_budget = self.allocated_budget + amount;
        let category = self.allocation_proposals[i].category.duplicate();
        self.add_to_category(&category, amount);
        let ghost mid = *self;
        let mut p = self.allocation_proposals.remove(i);
        p.status = BudgetProposalStatus::Executed;
        let ghost p1 = p;
        self.allocation_proposals.insert(i, p);
        let record = BudgetAllocation {
            proposal_id: allocation.proposal_id.clone(),
            category: allocation.category.duplicate(),
            amount: allocation.amount,
            recipient: allocation.recipient.duplicate(),
            purpose: allocation.purpose.clone(),
            allocated_at: allocation.allocated_at,
            executor: allocation.executor.duplicate(),
        };
        self.allocation_history.push(record);
        if self.allocation_history.len() > HISTORY_LIMIT {
            self.allocation_history.remove(0);
        }
        proof {
            assert(self.allocation_proposals@ =~= before.update(i as int, p1));
            if hist.len() < HISTORY_LIMIT {
                assert(self.allocation_history@.drop_last() =~= hist);
            } else {
                assert(self.allocation_history@.drop_last() =~= hist.drop_first());
            }
            let p = before[i as int];
            assert forall|key: (int, Seq<char>)| #[trigger] self.category_total(key) == if key == category_key(p.category) {
                old(self).category_total(key) + p.amount
            } else {
                old(self).category_total(key)
            } by {
                assert(self.category_total(key) == mid.category_total(key));
            }
        }
        Ok(allocation)
    }

    /// Execute an approved proposal, dated now by the system clock.
    pub fn execute_allocation(&mut self, proposal_id: &str, executor: Did) -> (r: Result<BudgetAllocation, CommonError>)
        requires
            old(self).inv(),
        ensures
            final(self).inv(),
            exists|now: u64| #[trigger] old(self).execute_outcome(*final(self), proposal_id@, executor, now, r),
    {
        let now = unix_seconds();
        let ghost ex = executor;
        let r = self.execute_allocation_at(proposal_id, executor, now);
        assert(old(self).execute_outcome(*self, proposal_id@, ex, now, r));
        r
    }

    /// What starting a new fiscal period at time `now` does, from the manager
    /// `self` to the manager `after`: the budget is the new total if one is
    /// given, nothing is allocated in any category, no proposal is left, the
    /// history is kept and the period starts at `now`.
    pub open spec fn reset_outcome(
        self,
        after: Self,
        new_total: Option<u64>,
        now: u64,
    ) -> bool {
        &&& after.total() == match new_total {
            Some(t) => t,
            None => self.total(),
        }
        &&& (after.allocated() == 0)
        &&& (forall|key: (int, Seq<char>)| #[trigger] after.category_total(key) == 0)
        &&& (after.proposals().len() == 0)
        &&& (after.history() == self.history())
        &&& (after.period() == (FiscalPeriod { start_time: now, ..self.period() }))
    }

    /// Start a new fiscal period at time `now`, with a new budget if one is
    /// given: allocations and proposals are cleared, the history is kept.
    pub fn reset_budget_at(&mut self, new_total: Option<u64>, now: u64)
        requires
            old(self).inv(),
        ensures
            final(self).inv(),
            old(self).reset_outcome(*final(self), new_total, now),
    {
        if let Some(total) = new_total {
            self.total_budget = total;
        }
        self.allocated_budget = 0;
        self.budget_allocations.clear();
        self.allocation_proposals.clear();
        self.fiscal_period.start_time = now;
    }

    /// Start a new fiscal period now, by the system clock.
    pub fn reset_budget(&mut self, new_total: Option<u64>)
        requires
            old(self).inv(),
        ensures
            final(self).inv(),
            exists|now: u64| #[trigger] old(self).reset_outcome(*final(self), new_total, now),
    {
        let now = unix_seconds();
        self.reset_budget_at(new_total, now);
        assert(old(self).reset_outcome(*self, new_total, now));
    }

    /// Whether the fiscal period has ended by time `now`.
    pub fn is_fiscal_period_expired_at(&self, now: u64) -> (r: bool)
        requires
            self.period().start_time + self.period().duration_secs <= u64::MAX,
        ensures
            r == (now > self.period().start_time + self.period().duration_secs),
    {
        now > self.fiscal_period.start_time + self.fiscal_period.duration_secs
    }

    /// Whether the fiscal period has ended, by the system clock.
    pub fn is_fiscal_period_expired(&self) -> (r: bool)
        requires
            self.period().start_time + self.period().duration_secs <= u64::MAX,
        ensures
            r ==> self.period().start_time + self.period().duration_secs < u64::MAX,
    {
        let now = unix_seconds();
        self.is_fiscal_period_expired_at(now)
    }

    /// The pending proposals, oldest first.
    pub fn get_pending_proposals(&self) -> (r: Vec<&BudgetProposal>)
        ensures
            r@.len() == pending_of(self.proposals()).len(),
            forall|i: int| 0 <= i < r@.len() ==> *(#[trigger] r@[i]) == pending_of(self.proposals())[i],
    {
        let mut out: Vec<&BudgetProposal> = Vec::new();
        let mut i: usize = 0;
        while i < self.allocation_proposals.len()
            invariant
                i <= self.allocation_proposals@.len(),
                out@.len() == pending_of(self.allocation_proposals@.take(i as int)).len(),
                forall|j: int| 0 <= j < out@.len() ==> *(#[trigger] out@[j]) == pending_of(self.allocation_proposals@.take(i as int))[j],
            decreases self.allocation_proposals@.len() - i,
        {
            proof {
                assert(self.allocation_proposals@.take(i + 1).drop_last() =~= self.allocation_proposals@.take(i as int));
            }
            if self.allocation_proposals[i].status == BudgetProposalStatus::Pending {
                out.push(&self.allocation_proposals[i]);
            }
            i = i + 1;
        }
        proof {
            assert(self.allocation_proposals@.take(self.allocation_proposals@.len() as int) =~= self.allocation_proposals@);
        }
        out
    }
}


/// The total of the amounts of the categories `keys` in `m`.
pub open spec fn categories_total(m: BudgetManager, keys: Seq<(int, Seq<char>)>) -> int
    decreases keys.len(),
{
    if keys.len() == 0 {
        0
    } else {
        categories_total(m, keys.drop_last()) + m.category_total(keys.last())
    }
}

impl BudgetManager {
    /// The categories that have received allocations, each once.
    pub closed spec fn category_keys(&self) -> Seq<(int, Seq<char>)> {
        self.budget_allocations@.map_values(|e: (BudgetCategory, u64)| category_key(e.0))
    }

    /// The budget is never over-allocated, and what the categories received
    /// adds up to what is allocated: the categories with allocations are
    /// listed once each, and every other category has received nothing.
    pub proof fn law_budget_accounting(&self)
        requires
            self.inv(),
        ensures
            self.allocated() <= self.total(),
            self.category_keys().no_duplicates(),
            categories_total(*self, self.category_keys()) == self.allocated(),
            forall|key: (int, Seq<char>)| !self.category_keys().contains(key) ==> #[trigger] self.category_total(key) == 0,
    {
        let s = self.budget_allocations@;
        let ks = self.category_keys();
        assert forall|a: int, b: int| 0 <= a < ks.len() && 0 <= b < ks.len() && a != b implies ks[a] != ks[b] by {
            if a < b {
                assert(category_key(s[a].0) != category_key(s[b].0));
            } else {
                assert(category_key(s[b].0) != category_key(s[a].0));
            }
        }
        lemma_categories_prefix(*self, s.len() as int);
        assert(ks.take(s.len() as int) =~= ks);
        assert(s.take(s.len() as int) =~= s);
        assert forall|key: (int, Seq<char>)| !ks.contains(key) implies #[trigger] self.category_total(key) == 0 by {
            assert forall|j: int| 0 <= j < s.len() implies category_key(#[trigger] s[j].0) != key by {
                assert(ks[j] == category_key(s[j].0));
            }
            lemma_amount_absent(s, key);
        }
    }
}

/// Over the first `n` categories, the amounts add up to the total of the
/// first `n` entries.
proof fn lemma_categories_prefix(m: BudgetManager, n: int)
    requires
        m.inv(),
        0 <= n <= m.budget_allocations@.len(),
    ensures
        categories_total(m, m.category_keys().take(n)) == category_sum(m.budget_allocations@.take(n)),
    decreases n,
{
    let s = m.budget_allocations@;
    let ks = m.category_keys();
    if n > 0 {
        lemma_categories_prefix(m, n - 1);
        assert(ks.take(n).drop_last() =~= ks.take(n - 1));
        assert(s.take(n).drop_last() =~= s.take(n - 1));
        lemma_amount_at(s, n - 1);
    } else {
        assert(ks.take(0) =~= Seq::<(int, Seq<char>)>::empty());
        assert(s.take(0) =~= Seq::<(BudgetCategory, u64)>::empty());
    }
}

/// Once a proposal is executed it is no longer approved, so executing it
/// again is refused: after `execute_allocation` succeeds on the proposal at
/// `i`, that proposal is still the first with its id and is not approved.
pub proof fn law_executed_once(before: BudgetManager, after: BudgetManager, id: Seq<char>, i: int)
    requires
        first_with_id(before.proposals(), id, i),
        after.proposals().len() == before.proposals().len(),
        executed(before.proposals()[i], after.proposals()[i]),
        forall|j: int| 0 <= j < before.proposals().len() && j != i ==> #[trigger] after.proposals()[j] == before.proposals()[j],
    ensures
        first_with_id(after.proposals(), id, i),
        after.proposals()[i].status != BudgetProposalStatus::Approved,
{
    assert forall|j: int| 0 <= j < i implies (#[trigger] after.proposals()[j]).id@ != id by {
        assert(after.proposals()[j] == before.proposals()[j]);
    }
}

/// The record of one execution of an economic policy.
#[derive(Debug, Clone)]
pub struct PolicyExecution {
    pub policy_name: String,
    pub executed_at: u64,
    pub trigger_condition: String,
    pub actions_taken: Vec<String>,
    pub success: bool,
    pub error_message: Option<String>,
}

/// Most policy executions that an engine keeps.
pub const POLICY_HISTORY_LIMIT: usize = 100;

/// Record `execution` last in `history`, oldest first; when that makes the
/// history longer than [`POLICY_HISTORY_LIMIT`], the oldest entry is dropped.
pub fn record_policy_execution(history: &mut Vec<PolicyExecution>, execution: PolicyExecution)
    ensures
        old(history)@.len() + 1 <= POLICY_HISTORY_LIMIT ==> final(history)@ == old(history)@.push(execution),
        old(history)@.len() + 1 > POLICY_HISTORY_LIMIT ==> final(history)@ == old(history)@.push(execution).drop_first(),
{
    let ghost pushed = history@.push(execution);
    history.push(execution);
    if history.len() > POLICY_HISTORY_LIMIT {
        history.remove(0);
        proof {
            assert(history@ =~= pushed.drop_first());
        }
    }
}

} // verus!
