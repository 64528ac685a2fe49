//! Reputation scores of accounts.

use vstd::prelude::*;
use crate::assoc::{keys_distinct, assoc_map};
use crate::did::Did;
use crate::mana_ledger::{AccountEntry, entry_pairs, balance_in};
use crate::events::{put_entry, get_entry};

verus! {

/// A source of reputation scores.
pub trait ReputationStore {
    /// The score of the account `k`.
    spec fn reputation_of(&self, k: Seq<char>) -> u64;

    /// The store's internal invariant.
    spec fn store_inv(&self) -> bool;

    /// The score of an account after one failed execution, given its score
    /// before.
    spec fn score_after_failure(score: u64) -> u64;

    /// The reputation score of `did`.
    fn get_reputation(&self, did: &Did) -> (r: u64)
        requires
            self.store_inv(),
        ensures
            r == self.reputation_of(did@),
    ;

    /// Record the outcome of a job that `did` executed using `cpu_ms`
    /// milliseconds of processor time. A failed execution never raises the
    /// account's score, and no other account's score changes.
    fn record_execution(&mut self, did: &Did, success: bool, cpu_ms: u64)
        requires
            old(self).store_inv(),
        ensures
            final(self).store_inv(),
            !success ==> final(self).reputation_of(did@) <= old(self).reputation_of(did@),
            !success ==> final(self).reputation_of(did@) == Self::score_after_failure(old(self).reputation_of(did@)),
            forall|k: Seq<char>| k != did@ ==> #[trigger] final(self).reputation_of(k) == old(self).reputation_of(k),
    ;
}

/// The score of an account with score `score` after `k` failed executions
/// are recorded against it in a store of type `R`.
pub open spec fn score_after_failures<R: ReputationStore>(score: u64, k: nat) -> u64
    decreases k,
{
    if k == 0 {
        score
    } else {
        R::score_after_failure(score_after_failures::<R>(score, (k - 1) as nat))
    }
}

/// Reputation scores held in memory; an account without a score has zero.
#[derive(Debug)]
pub struct InMemoryReputationStore {
    scores: Vec<AccountEntry>,
}

impl InMemoryReputationStore {
    /// The recorded scores.
    pub closed spec fn score_map(&self) -> Map<Seq<char>, u64> {
        assoc_map(entry_pairs(self.scores@))
    }

    /// No account is listed twice.
    pub closed spec fn inv(&self) -> bool {
        keys_distinct(entry_pairs(self.scores@))
    }

    /// A store without scores.
    pub fn new() -> (r: InMemoryReputationStore)
        ensures
            r.inv(),
            r.score_map() == Map::<Seq<char>, u64>::empty(),
    {
        let scores: Vec<AccountEntry> = Vec::new();
        assert(entry_pairs(scores@) =~= Seq::<(Seq<char>, u64)>::empty());
        InMemoryReputationStore { scores }
    }

    /// Record `score` for `did`, replacing any earlier score.
    pub fn set_score(&mut self, did: Did, score: u64)
        requires
            old(self).inv(),
        ensures
            final(self).inv(),
            final(self).score_map() == old(self).score_map().insert(did@, score),
    {
        put_entry(&mut self.scores, &did, score);
    }

    /// The score of `did`, zero where none was recorded.
    pub fn get_score(&self, did: &Did) -> (r: u64)
        requires
            self.inv(),
        ensures
            r == balance_in(self.score_map(), did@),
    {
        get_entry(&self.scores, did)
    }
}

impl ReputationStore for InMemoryReputationStore {
    open spec fn reputation_of(&self, k: Seq<char>) -> u64 {
        balance_in(self.score_map(), k)
    }

    open spec fn store_inv(&self) -> bool {
        self.inv()
    }

    open spec fn score_after_failure(score: u64) -> u64 {
        if score > 0 {
            (score - 1) as u64
        } else {
            0
        }
    }

    fn get_reputation(&self, did: &Did) -> (r: u64) {
        self.get_score(did)
    }

    /// A success raises the score by one and a failure lowers it by one,
    /// neither past the range of `u64`.
    fn record_execution(&mut self, did: &Did, success: bool, cpu_ms: u64)
        ensures
            final(self).reputation_of(did@) == if success {
                if old(self).reputation_of(did@) < u64::MAX {
                    old(self).reputation_of(did@) + 1
                } else {
                    u64::MAX as int
                }
            } else {
                if old(self).reputation_of(did@) > 0 {
                    old(self).reputation_of(did@) - 1
                } else {
                    0
                }
            },
    {
        let current = self.get_score(did);
        let next = if success {
            current.saturating_add(1)
        } else {
            current.saturating_sub(1)
        };
        self.set_score(did.duplicate(), next);
    }
}

} // verus!
