//! Mana accounts: the ledger interface and the in-memory ledger that the
//! file-backed store persists.

use vstd::prelude::*;
use vstd::string::*;
use crate::assoc::{keys_distinct, assoc_map, assoc_keys, lookup_or, lemma_assoc_dom, lemma_assoc_index, lemma_assoc_absent, lemma_assoc_update, lemma_assoc_push};
use crate::did::Did;
use crate::error::CommonError;
use crate::text::join2;

verus! {

/// `a + b`, capped at the largest `u64`.
pub open spec fn sat_add(a: u64, b: u64) -> u64 {
    if a + b > u64::MAX {
        u64::MAX
    } else {
        (a + b) as u64
    }
}

/// `a * b`, capped at the largest `u64`.
pub open spec fn sat_mul(a: u64, b: u64) -> u64 {
    if a * b > u64::MAX {
        u64::MAX
    } else {
        (a * b) as u64
    }
}

/// The balance that the map `m` records for `k`; unknown accounts hold nothing.
pub open spec fn balance_in(m: Map<Seq<char>, u64>, k: Seq<char>) -> u64 {
    lookup_or(m, k, 0u64)
}

/// `after` is `before` with the balance of `k` replaced by `v`; `k` may have
/// become a known account, and no other account changed.
pub open spec fn balance_updated(
    before: Map<Seq<char>, u64>,
    after: Map<Seq<char>, u64>,
    k: Seq<char>,
    v: u64,
) -> bool {
    &&& balance_in(after, k) == v
    &&& forall|j: Seq<char>| j != k ==> #[trigger] balance_in(after, j) == balance_in(before, j)
    &&& forall|j: Seq<char>| j != k ==> (#[trigger] after.contains_key(j) <==> before.contains_key(j))
    &&& before.contains_key(k) ==> after.contains_key(k)
}

/// `after` gives every known account of `before` `amount` more (capped), and
/// knows the same accounts.
pub open spec fn all_credited(before: Map<Seq<char>, u64>, after: Map<Seq<char>, u64>, amount: u64) -> bool {
    &&& after.dom() == before.dom()
    &&& forall|j: Seq<char>| #[trigger] before.contains_key(j) ==> after[j] == sat_add(before[j], amount)
}

/// The views of a list of identifiers.
pub open spec fn did_views(v: Seq<Did>) -> Seq<Seq<char>> {
    v.map_values(|d: Did| d@)
}

/// A stored balance of `account` once `amount` is spent from it: refused
/// with `PolicyDenied` when the balance is smaller.
pub fn balance_after_spend(account: &Did, current: u64, amount: u64) -> (r: Result<u64, CommonError>)
    ensures
        current >= amount ==> r == Ok::<u64, CommonError>((current - amount) as u64),
        current < amount ==> (r matches Err(CommonError::PolicyDenied(m)) && m@ == "Insufficient mana for DID "@ + account@),
{
    if current < amount {
        return Err(CommonError::PolicyDenied(join2("Insufficient mana for DID ", account.as_str())));
    }
    Ok(current - amount)
}

/// A stored balance once `amount` is credited to it, capped at the largest
/// `u64`.
pub fn balance_after_credit(current: u64, amount: u64) -> (r: u64)
    ensures
        r == sat_add(current, amount),
{
    current.saturating_add(amount)
}

/// Storage of mana balances keyed by identifier.
///
/// Balances live in `balances()`; an identifier missing from it holds zero.
/// Implementations may refuse an operation, and then leave every balance as it
/// was; when they accept one, they must do what the method states.
pub trait ManaLedger {
    /// The balances that the ledger holds, keyed by the text of the identifier.
    spec fn balances(&self) -> Map<Seq<char>, u64>;

    /// The ledger's internal invariant.
    spec fn well_formed(&self) -> bool;

    /// The accounts, in the order in which `all_accounts` lists them.
    spec fn account_order(&self) -> Seq<Seq<char>>;

    /// Retrieve the mana balance for a DID.
    fn get_balance(&self, did: &Did) -> (r: u64)
        requires
            self.well_formed(),
        ensures
            r == balance_in(self.balances(), did@),
    ;

    /// Persist a new balance for a DID.
    fn set_balance(&mut self, did: &Did, amount: u64) -> (r: Result<(), CommonError>)
        requires
            old(self).well_formed(),
        ensures
            final(self).well_formed(),
            r is Ok ==> balance_updated(old(self).balances(), final(self).balances(), did@, amount),
            r is Err ==> final(self).balances() == old(self).balances(),
    ;

    /// Spend mana from the account.
    fn spend(&mut self, did: &Did, amount: u64) -> (r: Result<(), CommonError>)
        requires
            old(self).well_formed(),
        ensures
            final(self).well_formed(),
            r is Ok ==> amount <= balance_in(old(self).balances(), did@) && balance_updated(
                old(self).balances(),
                final(self).balances(),
                did@,
                (balance_in(old(self).balances(), did@) - amount) as u64,
            ),
            r is Err ==> final(self).balances() == old(self).balances(),
    ;

    /// Credit mana to the account; a balance never exceeds the largest `u64`.
    fn credit(&mut self, did: &Did, amount: u64) -> (r: Result<(), CommonError>)
        requires
            old(self).well_formed(),
        ensures
            final(self).well_formed(),
            r is Ok ==> balance_updated(
                old(self).balances(),
                final(self).balances(),
                did@,
                sat_add(balance_in(old(self).balances(), did@), amount),
            ),
            r is Err ==> final(self).balances() == old(self).balances(),
    ;

    /// Credit every known account with additional mana.
    fn credit_all(&mut self, amount: u64) -> (r: Result<(), CommonError>)
        requires
            old(self).well_formed(),
        ensures
            final(self).well_formed(),
            r is Ok ==> all_credited(old(self).balances(), final(self).balances(), amount),
    ;

    /// Returns a list of all known account DIDs, each once.
    fn all_accounts(&self) -> (r: Vec<Did>)
        requires
            self.well_formed(),
        ensures
            did_views(r@).no_duplicates(),
            forall|k: Seq<char>| self.balances().contains_key(k) <==> did_views(r@).contains(k),
            did_views(r@) == self.account_order(),
    ;
}

/// One account and its balance.
#[derive(Debug)]
pub struct AccountEntry {
    pub did: Did,
    pub balance: u64,
}

/// The (identifier, balance) pairs of a list of accounts.
pub open spec fn entry_pairs(s: Seq<AccountEntry>) -> Seq<(Seq<char>, u64)> {
    s.map_values(|e: AccountEntry| (e.did@, e.balance))
}

/// Position of the account `did` in `entries`, if it is there.
pub fn find_account(entries: &Vec<AccountEntry>, did: &Did) -> (r: Option<usize>)
    ensures
        r matches Some(i) ==> i < entries@.len() && entries@[i as int].did@ == did@,
        r is None ==> forall|i: int| 0 <= i < entries@.len() ==> #[trigger] entries@[i].did@ != did@,
{
    let mut i: usize = 0;
    while i < entries.len()
        invariant
            i <= entries@.len(),
            forall|j: int| 0 <= j < i ==> #[trigger] entries@[j].did@ != did@,
        decreases entries@.len() - i,
    {
        if entries[i].did.same_as(did) {
            return Some(i);
        }
        i = i + 1;
    }
    None
}

/// Mana balances held in memory, as the file-backed ledger keeps them between
/// writes. Credits saturate at the largest `u64`.
#[derive(Debug)]
pub struct FileManaLedger {
    path: String,
    entries: Vec<AccountEntry>,
}

impl FileManaLedger {
    /// The accounts as (identifier, balance) pairs.
    pub closed spec fn pairs(&self) -> Seq<(Seq<char>, u64)> {
        entry_pairs(self.entries@)
    }

    /// The balances of the ledger.
    pub closed spec fn balance_map(&self) -> Map<Seq<char>, u64> {
        assoc_map(self.pairs())
    }

    /// No account is listed twice, and every account is a well-formed
    /// identifier.
    pub closed spec fn inv(&self) -> bool {
        &&& keys_distinct(self.pairs())
        &&& forall|i: int| 0 <= i < self.entries@.len() ==> crate::did::is_valid_did(#[trigger] self.entries@[i].did@)
    }

    /// The location where the ledger is persisted.
    pub closed spec fn spec_path(&self) -> Seq<char> {
        self.path@
    }

    /// An empty ledger to be persisted at `path`.
    pub fn new(path: &str) -> (r: FileManaLedger)
        ensures
            r.inv(),
            r.balance_map() == Map::<Seq<char>, u64>::empty(),
            r.spec_path() == path@,
    {
        let r = FileManaLedger { path: String::from_str(path), entries: Vec::new() };
        assert(r.pairs() =~= Seq::<(Seq<char>, u64)>::empty());
        r
    }

    /// A ledger holding the stored (identifier, balance) records; records whose
    /// identifier does not parse are dropped, and of two records for the same
    /// identifier the later one wins.
    pub fn load(path: &str, records: Vec<(String, u64)>) -> (r: FileManaLedger)
        ensures
            r.inv(),
            r.spec_path() == path@,
            r.balance_map() == loaded_balances(records@.map_values(|p: (String, u64)| (p.0@, p.1))),
    {
        let mut ledger = FileManaLedger::new(path);
        let ghost recs = records@.map_values(|p: (String, u64)| (p.0@, p.1));
        let mut i: usize = 0;
        while i < records.len()
            invariant
                i <= records@.len(),
                recs == records@.map_values(|p: (String, u64)| (p.0@, p.1)),
                ledger.inv(),
                ledger.spec_path() == path@,
                ledger.balance_map() == loaded_balances(recs.take(i as int)),
            decreases records@.len() - i,
        {
            let (ref text, amount) = records[i];
            assert(recs.take(i + 1).drop_last() =~= recs.take(i as int));
            match Did::from_str(text.as_str()) {
                Ok(did) => {
                    ledger.put(&did, amount);
                },
                Err(_) => {},
            }
            i = i + 1;
        }
        assert(recs.take(records@.len() as int) =~= recs);
        ledger
    }

    /// Store `amount` as the balance of `did`.
    fn put(&mut self, did: &Did, amount: u64)
        requires
            old(self).inv(),
        ensures
            final(self).inv(),
            final(self).balance_map() == old(self).balance_map().insert(did@, amount),
            final(self).spec_path() == old(self).spec_path(),
    {
        proof {
            use_type_invariant(did);
        }
        match find_account(&self.entries, did) {
            Some(i) => {
                proof {
                    lemma_assoc_update(self.pairs(), i as int, amount);
                }
                self.entries.set(i, AccountEntry { did: did.duplicate(), balance: amount });
                assert(self.pairs() =~= entry_pairs(old(self).entries@).update(
                    i as int,
                    (did@, amount),
                ));
            },
            None => {
                proof {
                    assert forall|j: int| 0 <= j < self.pairs().len() implies #[trigger] self.pairs()[j].0
                        != did@ by {
                        assert(self.pairs()[j].0 == self.entries@[j].did@);
                    }
                    lemma_assoc_push(self.pairs(), did@, amount);
                }
                self.entries.push(AccountEntry { did: did.duplicate(), balance: amount });
                assert(self.pairs() =~= entry_pairs(old(self).entries@).push((did@, amount)));
            },
        }
    }

    /// Return the current mana balance for `account`.
    pub fn get_balance(&self, account: &Did) -> (r: u64)
        requires
            self.inv(),
        ensures
            r == balance_in(self.balance_map(), account@),
    {
        match find_account(&self.entries, account) {
            Some(i) => {
                proof {
                    lemma_assoc_index(self.pairs(), i as int);
                }
                self.entries[i].balance
            },
            None => {
                proof {
                    assert forall|j: int| 0 <= j < self.pairs().len() implies #[trigger] self.pairs()[j].0
                        != account@ by {
                        assert(self.pairs()[j].0 == self.entries@[j].did@);
                    }
                    lemma_assoc_absent(self.pairs(), account@);
                }
                0
            },
        }
    }

    /// Record `amount` as the balance of `account`.
    pub fn set_balance(&mut self, account: &Did, amount: u64) -> (r: Result<(), CommonError>)
        requires
            old(self).inv(),
        ensures
            final(self).inv(),
            r is Ok,
            final(self).balance_map() == old(self).balance_map().insert(account@, amount),
            final(self).spec_path() == old(self).spec_path(),
    {
        self.put(account, amount);
        Ok(())
    }

    /// Deduct `amount` of mana from the account. Fails with `DatabaseError`
    /// for an unknown account and with `PolicyDenied` when the balance is
    /// smaller than `amount`.
    pub fn spend(&mut self, account: &Did, amount: u64) -> (r: Result<(), CommonError>)
        requires
            old(self).inv(),
        ensures
            final(self).inv(),
            final(self).spec_path() == old(self).spec_path(),
            !old(self).balance_map().contains_key(account@) ==> r matches Err(
                CommonError::DatabaseError(_),
            ),
            old(self).balance_map().contains_key(account@) && old(self).balance_map()[account@]
                < amount ==> r matches Err(CommonError::PolicyDenied(_)),
            r is Ok <==> old(self).balance_map().contains_key(account@)
                && old(self).balance_map()[account@] >= amount,
            r is Ok ==> final(self).balance_map() == old(self).balance_map().insert(
                account@,
                (old(self).balance_map()[account@] - amount) as u64,
            ),
            r is Err ==> final(self).balance_map() == old(self).balance_map(),
    {
        match find_account(&self.entries, account) {
            Some(i) => {
                proof {
                    lemma_assoc_index(self.pairs(), i as int);
                }
                let bal = self.entries[i].balance;
                let left = match balance_after_spend(account, bal, amount) {
                    Ok(v) => v,
                    Err(e) => return Err(e),
                };
                self.put(account, left);
                Ok(())
            },
            None => {
                proof {
                    assert forall|j: int| 0 <= j < self.pairs().len() implies #[trigger] self.pairs()[j].0
                        != account@ by {
                        assert(self.pairs()[j].0 == self.entries@[j].did@);
                    }
                    lemma_assoc_absent(self.pairs(), account@);
                }
                Err(CommonError::DatabaseError(String::from_str("Account not found")))
            },
        }
    }

    /// Credit `amount` of mana to the account (capped at the largest `u64`).
    pub fn credit(&mut self, account: &Did, amount: u64) -> (r: Result<(), CommonError>)
        requires
            old(self).inv(),
        ensures
            final(self).inv(),
            r is Ok,
            final(self).spec_path() == old(self).spec_path(),
            final(self).balance_map() == old(self).balance_map().insert(
                account@,
                sat_add(balance_in(old(self).balance_map(), account@), amount),
            ),
    {
        let bal = FileManaLedger::get_balance(self, account);
        self.put(account, balance_after_credit(bal, amount));
        Ok(())
    }

    /// Add `amount` of mana to every stored account (capped at the largest `u64`).
    pub fn credit_all(&mut self, amount: u64) -> (r: Result<(), CommonError>)
        requires
            old(self).inv(),
        ensures
            final(self).inv(),
            r is Ok,
            final(self).spec_path() == old(self).spec_path(),
            all_credited(old(self).balance_map(), final(self).balance_map(), amount),
    {
        let ghost before = self.pairs();
        let n = self.entries.len();
        let mut i: usize = 0;
        while i < n
            invariant
                n == self.entries@.len(),
                before.len() == n,
                i <= n,
                self.path@ == old(self).path@,
                forall|j: int| 0 <= j < n ==> #[trigger] self.entries@[j].did@ == before[j].0,
                forall|j: int| 0 <= j < i ==> #[trigger] self.entries@[j].balance == sat_add(before[j].1, amount),
                forall|j: int| i <= j < n ==> #[trigger] self.entries@[j].balance == before[j].1,
                before == old(self).pairs(),
            decreases n - i,
        {
            let old_bal = self.entries[i].balance;
            let d = self.entries[i].did.duplicate();
            self.entries.set(i, AccountEntry { did: d, balance: old_bal.saturating_add(amount) });
            i = i + 1;
        }
        proof {
            assert forall|j: int| 0 <= j < n implies #[trigger] self.pairs()[j] == (before[j].0, sat_add(before[j].1, amount)) by {
                assert(self.pairs()[j] == (self.entries@[j].did@, self.entries@[j].balance));
            }
            assert(keys_distinct(self.pairs())) by {
                assert forall|a: int, b: int| 0 <= a < b < self.pairs().len() implies #[trigger] self.pairs()[a].0
                    != #[trigger] self.pairs()[b].0 by {
                    assert(before[a].0 != before[b].0);
                }
            }
            lemma_assoc_dom(self.pairs());
            lemma_assoc_dom(before);
            assert(assoc_keys(self.pairs()) =~= assoc_keys(before)) by {
                assert forall|k: Seq<char>| assoc_keys(self.pairs()).contains(k) implies assoc_keys(before).contains(k) by {
                    let j = choose|j: int| 0 <= j < self.pairs().len() && #[trigger] self.pairs()[j].0 == k;
                    assert(before[j].0 == k);
                }
                assert forall|k: Seq<char>| assoc_keys(before).contains(k) implies assoc_keys(self.pairs()).contains(k) by {
                    let j = choose|j: int| 0 <= j < before.len() && #[trigger] before[j].0 == k;
                    assert(self.pairs()[j].0 == k);
                }
            }
            assert forall|k: Seq<char>| #[trigger] old(self).balance_map().contains_key(k) implies self.balance_map()[k]
                == sat_add(old(self).balance_map()[k], amount) by {
                let j = choose|j: int| 0 <= j < before.len() && #[trigger] before[j].0 == k;
                lemma_assoc_index(before, j);
                lemma_assoc_index(self.pairs(), j);
            }
        }
        Ok(())
    }

    /// Return a list of all account DIDs stored in this ledger.
    pub fn all_accounts(&self) -> (r: Vec<Did>)
        requires
            self.inv(),
        ensures
            did_views(r@).no_duplicates(),
            forall|k: Seq<char>| self.balance_map().contains_key(k) <==> did_views(r@).contains(k),
            did_views(r@) == self.pairs().map_values(|p: (Seq<char>, u64)| p.0),
    {
        let mut out: Vec<Did> = Vec::new();
        let mut i: usize = 0;
        while i < self.entries.len()
            invariant
                i <= self.entries@.len(),
                out@.len() == i,
                did_views(out@) == self.pairs().take(i as int).map_values(|p: (Seq<char>, u64)| p.0),
            decreases self.entries@.len() - i,
        {
            let ghost old_out = out@;
            out.push(self.entries[i].did.duplicate());
            proof {
                let a = did_views(out@);
                let b = self.pairs().take(i + 1).map_values(|p: (Seq<char>, u64)| p.0);
                assert(a.len() == b.len());
                assert forall|j: int| 0 <= j < a.len() implies a[j] == b[j] by {
                    if j < i {
                        assert(a[j] == did_views(out@.drop_last())[j]);
                        assert(out@.drop_last() == old_out);
                    } else {
                        assert(self.pairs()[j] == (self.entries@[j].did@, self.entries@[j].balance));
                    }
                }
                assert(a =~= b);
            }
            i = i + 1;
        }
        proof {
            assert(self.pairs().take(self.entries@.len() as int) =~= self.pairs());
            let ks = did_views(out@);
            assert(ks.no_duplicates()) by {
                assert forall|a: int, b: int| 0 <= a < ks.len() && 0 <= b < ks.len() && a != b implies ks[a] != ks[b] by {
                    if a < b {
                        assert(self.pairs()[a].0 != self.pairs()[b].0);
                    } else {
                        assert(self.pairs()[b].0 != self.pairs()[a].0);
                    }
                }
            }
            lemma_assoc_dom(self.pairs());
            assert forall|k: Seq<char>| self.balance_map().contains_key(k) <==> ks.contains(k) by {
                if self.balance_map().contains_key(k) {
                    let j = choose|j: int| 0 <= j < self.pairs().len() && #[trigger] self.pairs()[j].0 == k;
                    assert(ks[j] == k);
                }
                if ks.contains(k) {
                    let j = choose|j: int| 0 <= j < ks.len() && ks[j] == k;
                    assert(self.pairs()[j].0 == k);
                }
            }
        }
        out
    }

    /// The accounts and balances, in the order in which they were first stored.
    pub fn records(&self) -> (r: Vec<(String, u64)>)
        ensures
            r@.map_values(|p: (String, u64)| (p.0@, p.1)) == self.pairs(),
    {
        let mut out: Vec<(String, u64)> = Vec::new();
        let mut i: usize = 0;
        while i < self.entries.len()
            invariant
                i <= self.entries@.len(),
                out@.len() == i,
                out@.map_values(|p: (String, u64)| (p.0@, p.1)) == self.pairs().take(i as int),
            decreases self.entries@.len() - i,
        {
            let ghost old_out = out@;
            out.push((String::from_str(self.entries[i].did.as_str()), self.entries[i].balance));
            proof {
                let a = out@.map_values(|p: (String, u64)| (p.0@, p.1));
                let b = self.pairs().take(i + 1);
                assert forall|j: int| 0 <= j < a.len() implies a[j] == b[j] by {
                    if j < i {
                        assert(out@[j] == old_out[j]);
                        assert(old_out.map_values(|p: (String, u64)| (p.0@, p.1))[j] == self.pairs().take(i as int)[j]);
                    } else {
                        assert(self.pairs()[j] == (self.entries@[j].did@, self.entries@[j].balance));
                    }
                }
                assert(a =~= b);
            }
            i = i + 1;
        }
        assert(self.pairs().take(self.entries@.len() as int) =~= self.pairs());
        out
    }

    /// The location where the ledger is persisted.
    pub fn path(&self) -> (r: &str)
        ensures
            r@ == self.spec_path(),
    {
        self.path.as_str()
    }
}

/// The balances described by stored records, where records whose identifier
/// is not a valid DID are ignored and later records win.
pub open spec fn loaded_balances(recs: Seq<(Seq<char>, u64)>) -> Map<Seq<char>, u64>
    decreases recs.len(),
{
    if recs.len() == 0 {
        Map::empty()
    } else if crate::did::is_valid_did(recs.last().0) {
        loaded_balances(recs.drop_last()).insert(recs.last().0, recs.last().1)
    } else {
        loaded_balances(recs.drop_last())
    }
}

/// Records whose identifiers are all well formed load as the map they list.
proof fn lemma_loaded_valid(recs: Seq<(Seq<char>, u64)>)
    requires
        forall|i: int| 0 <= i < recs.len() ==> crate::did::is_valid_did(#[trigger] recs[i].0),
    ensures
        loaded_balances(recs) == assoc_map(recs),
    decreases recs.len(),
{
    if recs.len() > 0 {
        assert(recs.last() == recs[recs.len() - 1]);
        assert forall|i: int| 0 <= i < recs.drop_last().len() implies crate::did::is_valid_did(
            #[trigger] recs.drop_last()[i].0,
        ) by {
            assert(recs.drop_last()[i] == recs[i]);
        }
        lemma_loaded_valid(recs.drop_last());
    }
}

/// A stored ledger reads back as it was: loading the records that
/// `records` gives yields the same balances.
pub proof fn law_records_reload(l: FileManaLedger)
    requires
        l.inv(),
    ensures
        loaded_balances(l.pairs()) == l.balance_map(),
{
    assert forall|i: int| 0 <= i < l.pairs().len() implies crate::did::is_valid_did(#[trigger] l.pairs()[i].0) by {
        assert(l.pairs()[i].0 == l.entries@[i].did@);
    }
    lemma_loaded_valid(l.pairs());
}

impl ManaLedger for FileManaLedger {
    open spec fn balances(&self) -> Map<Seq<char>, u64> {
        self.balance_map()
    }

    open spec fn well_formed(&self) -> bool {
        self.inv()
    }

    open spec fn account_order(&self) -> Seq<Seq<char>> {
        self.pairs().map_values(|p: (Seq<char>, u64)| p.0)
    }

    fn get_balance(&self, did: &Did) -> (r: u64) {
        FileManaLedger::get_balance(self, did)
    }

    fn set_balance(&mut self, did: &Did, amount: u64) -> (r: Result<(), CommonError>)
        ensures
            r is Ok,
            final(self).balance_map() == old(self).balance_map().insert(did@, amount),
    {
        FileManaLedger::set_balance(self, did, amount)
    }

    fn spend(&mut self, did: &Did, amount: u64) -> (r: Result<(), CommonError>)
        ensures
            r is Ok <==> old(self).balance_map().contains_key(did@) && old(self).balance_map()[did@] >= amount,
            !old(self).balance_map().contains_key(did@) ==> r matches Err(CommonError::DatabaseError(_)),
            old(self).balance_map().contains_key(did@) && old(self).balance_map()[did@] < amount ==> r matches Err(
                CommonError::PolicyDenied(_),
            ),
    {
        FileManaLedger::spend(self, did, amount)
    }

    fn credit(&mut self, did: &Did, amount: u64) -> (r: Result<(), CommonError>)
        ensures
            r is Ok,
            final(self).balance_map() == old(self).balance_map().insert(
                did@,
                sat_add(balance_in(old(self).balance_map(), did@), amount),
            ),
    {
        FileManaLedger::credit(self, did, amount)
    }

    fn credit_all(&mut self, amount: u64) -> (r: Result<(), CommonError>)
        ensures
            r is Ok,
    {
        FileManaLedger::credit_all(self, amount)
    }

    fn all_accounts(&self) -> (r: Vec<Did>) {
        FileManaLedger::all_accounts(self)
    }
}

} // verus!

