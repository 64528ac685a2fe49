//! Bounties: work offered for a reward in tokens, claimed by a member and
//! paid out once by minting the reward for the claimant.

use vstd::prelude::*;
use vstd::string::*;
use crate::did::Did;
use crate::error::CommonError;
use crate::mana_ledger::ManaLedger;
use crate::operations::{mint_tokens_with_reputation, mint_outcome};
use crate::repository::{NodeScope, ResourceRepositoryAdapter};
use crate::reputation::ReputationStore;
use crate::resource_ledger::{ResourceLedger, token_balance};

verus! {

/// A bounty and its state.
#[derive(Debug)]
pub struct Bounty {
    pub id: u64,
    pub description: String,
    pub amount: u64,
    pub class_id: String,
    pub issuer: Did,
    pub claimant: Option<Did>,
    pub paid: bool,
}

/// `b` is `a` with the claimant and the paid flag possibly changed.
pub open spec fn same_terms(a: Bounty, b: Bounty) -> bool {
    &&& b.id == a.id
    &&& b.description == a.description
    &&& b.amount == a.amount
    &&& b.class_id == a.class_id
    &&& b.issuer == a.issuer
}

/// Bounties offered by issuers and paid in tokens of a class.
pub struct BountyManager<L: ManaLedger, R: ResourceLedger> {
    bounties: Vec<Bounty>,
    repo: ResourceRepositoryAdapter<R>,
    mana: L,
    next_id: u64,
}

impl<L: ManaLedger, R: ResourceLedger> BountyManager<L, R> {
    /// The bounties, the one with id `i` at position `i`.
    pub closed spec fn list(&self) -> Seq<Bounty> {
        self.bounties@
    }

    /// The id the next bounty gets.
    pub closed spec fn next(&self) -> u64 {
        self.next_id
    }

    /// The token repository that pays the rewards.
    pub closed spec fn spec_repo(&self) -> ResourceRepositoryAdapter<R> {
        self.repo
    }

    /// The mana ledger that pays the minting fees.
    pub closed spec fn spec_mana(&self) -> L {
        self.mana
    }

    /// Bounties are numbered from zero in the order they were created, and
    /// the ledgers keep their own invariants.
    pub closed spec fn inv(&self) -> bool {
        &&& forall|i: int| 0 <= i < self.bounties@.len() ==> (#[trigger] self.bounties@[i]).id == i
        &&& self.next_id == self.bounties@.len()
        &&& self.repo.spec_ledger().ledger_inv()
        &&& self.mana.well_formed()
    }

    /// A manager without bounties.
    pub fn new(mana: L, repo: ResourceRepositoryAdapter<R>) -> (r: Self)
        requires
            mana.well_formed(),
            repo.spec_ledger().ledger_inv(),
        ensures
            r.inv(),
            r.list().len() == 0,
            r.next() == 0,
            r.spec_repo() == repo,
            r.spec_mana() == mana,
    {
        BountyManager { bounties: Vec::new(), repo, mana, next_id: 0 }
    }

    /// The token repository that pays the rewards.
    pub fn repo(&self) -> (r: &ResourceRepositoryAdapter<R>)
        ensures
            *r == self.spec_repo(),
    {
        &self.repo
    }

    /// The mana ledger that pays the minting fees.
    pub fn mana(&self) -> (r: &L)
        ensures
            *r == self.spec_mana(),
    {
        &self.mana
    }

    /// The bounties, the one with id `i` at position `i`.
    pub fn bounties(&self) -> (r: &Vec<Bounty>)
        ensures
            r@ == self.list(),
    {
        &self.bounties
    }

    /// Offer a bounty of `amount` tokens of `class_id`; returns its id, the
    /// next number in sequence.
    pub fn create_bounty(&mut self, issuer: Did, class_id: &str, amount: u64, description: &str) -> (r: u64)
        requires
            old(self).inv(),
            old(self).next() < u64::MAX,
        ensures
            final(self).inv(),
            r == old(self).next(),
            final(self).next() == old(self).next() + 1,
            final(self).list().drop_last() == old(self).list(),
            final(self).list().len() == old(self).list().len() + 1,
            ({
                let b = final(self).list().last();
                &&& b.id == r
                &&& b.description@ == description@
                &&& b.amount == amount
                &&& b.class_id@ == class_id@
                &&& b.issuer == issuer
                &&& b.claimant is None
                &&& !b.paid
            }),
            final(self).spec_repo() == old(self).spec_repo(),
            final(self).spec_mana() == old(self).spec_mana(),
    {
        let id = self.next_id;
        self.next_id = self.next_id + 1;
        let ghost before = self.bounties@;
        self.bounties.push(
            Bounty {
                id,
                description: String::from_str(description),
                amount,
                class_id: String::from_str(class_id),
                issuer,
                claimant: None,
                paid: false,
            },
        );
        proof {
            assert(self.bounties@.drop_last() =~= before);
            assert forall|i: int| 0 <= i < self.bounties@.len() implies (#[trigger] self.bounties@[i]).id == i by {
                if i < before.len() {
                    assert(self.bounties@[i] == before[i]);
                }
            }
        }
        id
    }

    /// Name `claimant` as the one who did the work of bounty `id`, replacing
    /// any earlier claimant. Refused when there is no such bounty
    /// (`ResourceNotFound`) or it was paid (`PolicyDenied`).
    pub fn claim_bounty(&mut self, id: u64, claimant: Did) -> (r: Result<(), CommonError>)
        requires
            old(self).inv(),
        ensures
            final(self).inv(),
            final(self).next() == old(self).next(),
            final(self).spec_repo() == old(self).spec_repo(),
            final(self).spec_mana() == old(self).spec_mana(),
            id >= old(self).list().len() ==> (r matches Err(CommonError::ResourceNotFound(_))),
            id < old(self).list().len() && old(self).list()[id as int].paid ==> (r matches Err(
                CommonError::PolicyDenied(_),
            )),
            r is Err ==> final(self).list() == old(self).list(),
            r is Ok ==> {
                let b = old(self).list()[id as int];
                &&& id < old(self).list().len() && !b.paid
                &&& final(self).list().len() == old(self).list().len()
                &&& same_terms(b, final(self).list()[id as int])
                &&& final(self).list()[id as int].claimant == Some(claimant)
                &&& !final(self).list()[id as int].paid
                &&& forall|j: int| 0 <= j < old(self).list().len() && j != id ==> #[trigger] final(self).list()[j] == old(
                    self,
                ).list()[j]
            },
    {
        let n = self.bounties.len();
        if id >= n as u64 {
            return Err(CommonError::ResourceNotFound(String::from_str("bounty")));
        }
        let i = id as usize;
        if self.bounties[i].paid {
            return Err(CommonError::PolicyDenied(String::from_str("already paid")));
        }
        let ghost before = self.bounties@;
        let mut b = self.bounties.remove(i);
        b.claimant = Some(claimant);
        let ghost bg = b;
        self.bounties.insert(i, b);
        proof {
            assert(self.bounties@ =~= before.update(i as int, bg));
        }
        Ok(())
    }

    /// Pay bounty `id`: mint its reward for the claimant on behalf of the
    /// issuer, who pays the minting fee, and mark it paid. Refused when there
    /// is no such bounty (`ResourceNotFound`), nobody claimed it
    /// (`InvalidInputError`), or it was paid (`PolicyDenied`); a refused mint
    /// leaves the bounty unpaid.
    pub fn payout_bounty<Rp: ReputationStore>(&mut self, id: u64, rep: &Rp, scope: Option<NodeScope>) -> (r: Result<
        (),
        CommonError,
    >)
        requires
            old(self).inv(),
            id < old(self).list().len() ==> (old(self).list()[id as int].claimant matches Some(c) ==> token_balance(
                old(self).spec_repo().spec_ledger().token_balances(),
                old(self).list()[id as int].class_id@,
                c@,
            ) + old(self).list()[id as int].amount <= u64::MAX),
        ensures
            final(self).inv(),
            final(self).next() == old(self).next(),
            final(self).list().len() == old(self).list().len(),
            id >= old(self).list().len() ==> (r matches Err(CommonError::ResourceNotFound(_))),
            id < old(self).list().len() && old(self).list()[id as int].claimant is None ==> (r matches Err(
                CommonError::InvalidInputError(_),
            )),
            id < old(self).list().len() && old(self).list()[id as int].claimant is Some && old(self).list()[id as int].paid
                ==> (r matches Err(CommonError::PolicyDenied(_))),
            r is Err ==> final(self).list() == old(self).list(),
            (id >= old(self).list().len() || old(self).list()[id as int].claimant is None || old(
                self,
            ).list()[id as int].paid) ==> final(self).spec_repo() == old(self).spec_repo() && final(self).spec_mana()
                == old(self).spec_mana(),
            id < old(self).list().len() && old(self).list()[id as int].claimant is Some && !old(
                self,
            ).list()[id as int].paid ==> {
                let b = old(self).list()[id as int];
                mint_outcome(
                    old(self).spec_repo(),
                    final(self).spec_repo(),
                    old(self).spec_mana(),
                    final(self).spec_mana(),
                    b.issuer@,
                    b.class_id@,
                    b.amount,
                    b.claimant->0@,
                    scope,
                    r,
                )
            },
            r is Ok ==> {
                let b = old(self).list()[id as int];
                &&& id < old(self).list().len()
                &&& same_terms(b, final(self).list()[id as int])
                &&& final(self).list()[id as int].claimant == b.claimant
                &&& final(self).list()[id as int].paid
                &&& forall|j: int| 0 <= j < old(self).list().len() && j != id ==> #[trigger] final(self).list()[j] == old(
                    self,
                ).list()[j]
            },
    {
        let n = self.bounties.len();
        if id >= n as u64 {
            return Err(CommonError::ResourceNotFound(String::from_str("bounty")));
        }
        let i = id as usize;
        assert(self.bounties@[i as int] == old(self).list()[id as int]);
        let claimant = match &self.bounties[i].claimant {
            Some(c) => c.duplicate(),
            None => {
                return Err(CommonError::InvalidInputError(String::from_str("no claimant")));
            },
        };
        assert(old(self).list()[id as int].claimant == Some(claimant));
        if self.bounties[i].paid {
            return Err(CommonError::PolicyDenied(String::from_str("already paid")));
        }
        let issuer = self.bounties[i].issuer.duplicate();
        let class_id = self.bounties[i].class_id.clone();
        let amount = self.bounties[i].amount;
        mint_tokens_with_reputation(
            &mut self.repo,
            &mut self.mana,
            rep,
            &issuer,
            class_id.as_str(),
            amount,
            &claimant,
            scope,
        )?;
        let ghost before = self.bounties@;
        let mut b = self.bounties.remove(i);
        b.paid = true;
        let ghost bg = b;
        self.bounties.insert(i, b);
        proof {
            assert(self.bounties@ =~= before.update(i as int, bg));
        }
        Ok(())
    }
}

} // verus!
