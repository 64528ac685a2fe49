//! Conflict-free replicated mana balances.
//!
//! Each account's balance is a PN-counter: every replica (node) counts the
//! mana it credited and the mana it debited, and the balance is the sum of
//! the credits less the sum of the debits over all nodes. Replicas merge by
//! taking, node by node, the larger count of each kind, which makes merging
//! commutative, associative and idempotent.

use vstd::prelude::*;
use vstd::set::fold::{is_fun_commutative, lemma_fold_insert, lemma_fold_empty};
use crate::assoc::{
    keys_distinct, assoc_map, lookup_or, lemma_assoc_dom, lemma_assoc_index, lemma_assoc_absent, lemma_assoc_update,
    lemma_assoc_push, lemma_assoc_len,
};
use crate::did::{Did, is_valid_did};
use crate::error::CommonError;
use crate::events::{LedgerEvent, MemoryEventStore, event_view, events_view};
use crate::mana_ledger::{ManaLedger, balance_in, balance_updated, all_credited, sat_add, did_views};
use crate::text::text_two_numbers;

verus! {

/// The function that adds the weight of a key to an accumulator.
pub open spec fn adder(w: spec_fn(Seq<char>) -> int) -> spec_fn(int, Seq<char>) -> int {
    |acc: int, k: Seq<char>| acc + w(k)
}

/// The sum of the weights of the keys in `d`.
pub open spec fn set_sum(d: Set<Seq<char>>, w: spec_fn(Seq<char>) -> int) -> int {
    d.fold(0int, adder(w))
}

proof fn lemma_adder_commutative(w: spec_fn(Seq<char>) -> int)
    ensures
        is_fun_commutative(adder(w)),
{
}

/// The sum over no keys is zero, whatever the weights.
pub proof fn lemma_set_sum_empty()
    ensures
        forall|w: spec_fn(Seq<char>) -> int| #[trigger] set_sum(Set::<Seq<char>>::empty(), w) == 0,
{
    assert forall|w: spec_fn(Seq<char>) -> int| #[trigger] set_sum(Set::<Seq<char>>::empty(), w) == 0 by {
        lemma_fold_empty(0int, adder(w));
    }
}

/// Adding a key adds its weight.
pub proof fn lemma_set_sum_insert(d: Set<Seq<char>>, w: spec_fn(Seq<char>) -> int, k: Seq<char>)
    requires
        d.finite(),
        !d.contains(k),
    ensures
        set_sum(d.insert(k), w) == set_sum(d, w) + w(k),
{
    lemma_adder_commutative(w);
    lemma_fold_insert(d, 0int, adder(w), k);
}

/// Weights that agree on `d` give the same sum over `d`.
pub proof fn lemma_set_sum_agree(d: Set<Seq<char>>, w1: spec_fn(Seq<char>) -> int, w2: spec_fn(Seq<char>) -> int)
    requires
        d.finite(),
        forall|k: Seq<char>| d.contains(k) ==> w1(k) == w2(k),
    ensures
        set_sum(d, w1) == set_sum(d, w2),
    decreases d.len(),
{
    if d.len() == 0 {
        assert(d =~= Set::empty());
        lemma_set_sum_empty();
    } else {
        let k = d.choose();
        let d0 = d.remove(k);
        lemma_set_sum_agree(d0, w1, w2);
        lemma_set_sum_insert(d0, w1, k);
        lemma_set_sum_insert(d0, w2, k);
        assert(d0.insert(k) =~= d);
    }
}

/// The sum over two disjoint sets is the sum of their sums.
pub proof fn lemma_set_sum_disjoint_union(d1: Set<Seq<char>>, d2: Set<Seq<char>>, w: spec_fn(Seq<char>) -> int)
    requires
        d1.finite(),
        d2.finite(),
        d1.disjoint(d2),
    ensures
        set_sum(d1.union(d2), w) == set_sum(d1, w) + set_sum(d2, w),
    decreases d2.len(),
{
    if d2.len() == 0 {
        assert(d2 =~= Set::empty());
        assert(d1.union(d2) =~= d1);
        lemma_set_sum_empty();
    } else {
        let k = d2.choose();
        let d3 = d2.remove(k);
        lemma_set_sum_disjoint_union(d1, d3, w);
        assert(d1.union(d3).insert(k) =~= d1.union(d2));
        assert(d3.insert(k) =~= d2);
        lemma_set_sum_insert(d1.union(d3), w, k);
        lemma_set_sum_insert(d3, w, k);
    }
}

/// The sum of `part` over the values of `m`.
pub open spec fn map_sum<V>(m: Map<Seq<char>, V>, part: spec_fn(V) -> int) -> int {
    set_sum(m.dom(), |n: Seq<char>| part(m[n]))
}

/// Replacing the value of `k` changes the sum by the difference of the parts.
pub proof fn lemma_map_sum_insert<V>(m: Map<Seq<char>, V>, k: Seq<char>, v: V, part: spec_fn(V) -> int)
    requires
        m.dom().finite(),
    ensures
        m.insert(k, v).dom().finite(),
        map_sum(m.insert(k, v), part) == map_sum(m, part) - (if m.contains_key(k) { part(m[k]) } else { 0 })
            + part(v),
{
    let m2 = m.insert(k, v);
    let w = |n: Seq<char>| part(m[n]);
    let w2 = |n: Seq<char>| part(m2[n]);
    if m.contains_key(k) {
        let d0 = m.dom().remove(k);
        assert(m2.dom() =~= m.dom());
        assert(d0.insert(k) =~= m.dom());
        lemma_set_sum_insert(d0, w, k);
        lemma_set_sum_insert(d0, w2, k);
        lemma_set_sum_agree(d0, w, w2);
    } else {
        assert(m2.dom() =~= m.dom().insert(k));
        lemma_set_sum_insert(m.dom(), w2, k);
        lemma_set_sum_agree(m.dom(), w, w2);
    }
}

/// Maps with the same keys whose parts agree key by key have the same sum.
pub proof fn lemma_map_sum_agree<V, W>(
    m1: Map<Seq<char>, V>,
    m2: Map<Seq<char>, W>,
    p1: spec_fn(V) -> int,
    p2: spec_fn(W) -> int,
)
    requires
        m1.dom().finite(),
        m1.dom() == m2.dom(),
        forall|k: Seq<char>| #[trigger] m1.contains_key(k) ==> p1(m1[k]) == p2(m2[k]),
    ensures
        map_sum(m1, p1) == map_sum(m2, p2),
{
    lemma_set_sum_agree(m1.dom(), |n: Seq<char>| p1(m1[n]), |n: Seq<char>| p2(m2[n]));
}

/// `part` summed along a list of (key, value) pairs.
pub open spec fn seq_pairs_sum<V>(s: Seq<(Seq<char>, V)>, part: spec_fn(V) -> int) -> int
    decreases s.len(),
{
    if s.len() == 0 {
        0
    } else {
        seq_pairs_sum(s.drop_last(), part) + part(s.last().1)
    }
}

/// Along a list without repeated keys, the sum is that of the map it
/// describes.
pub proof fn lemma_seq_pairs_sum<V>(s: Seq<(Seq<char>, V)>, part: spec_fn(V) -> int)
    requires
        keys_distinct(s),
    ensures
        assoc_map(s).dom().finite(),
        seq_pairs_sum(s, part) == map_sum(assoc_map(s), part),
    decreases s.len(),
{
    lemma_assoc_dom(s);
    if s.len() == 0 {
        assert(assoc_map(s).dom() =~= Set::empty());
        lemma_set_sum_empty();
    } else {
        let t = s.drop_last();
        let k = s.last().0;
        assert(keys_distinct(t));
        lemma_seq_pairs_sum(t, part);
        assert forall|i: int| 0 <= i < t.len() implies #[trigger] t[i].0 != k by {
            assert(s[i].0 != s[s.len() - 1].0);
        }
        lemma_assoc_absent(t, k);
        lemma_map_sum_insert(assoc_map(t), k, s.last().1, part);
    }
}

/// The credit and debit counts of every node.
pub type NodeCounts = Map<Seq<char>, (u64, u64)>;

/// The counts of `n`, both zero for a node that never counted.
pub open spec fn counts_of(m: NodeCounts, n: Seq<char>) -> (u64, u64) {
    lookup_or(m, n, (0u64, 0u64))
}

/// Credits counted in `m`, over all nodes.
pub open spec fn total_credits(m: NodeCounts) -> int {
    map_sum(m, |c: (u64, u64)| c.0 as int)
}

/// Debits counted in `m`, over all nodes.
pub open spec fn total_debits(m: NodeCounts) -> int {
    map_sum(m, |c: (u64, u64)| c.1 as int)
}

/// The value of a PN-counter: credits less debits.
pub open spec fn counter_value(m: NodeCounts) -> int {
    total_credits(m) - total_debits(m)
}

/// Setting the counts of one node changes the value by the change of that
/// node's credits less the change of its debits.
pub proof fn lemma_counter_value_insert(m: NodeCounts, n: Seq<char>, c: (u64, u64))
    requires
        m.dom().finite(),
    ensures
        m.insert(n, c).dom().finite(),
        counter_value(m.insert(n, c)) == counter_value(m) - (counts_of(m, n).0 - counts_of(m, n).1) + (c.0 - c.1),
{
    lemma_map_sum_insert(m, n, c, |c: (u64, u64)| c.0 as int);
    lemma_map_sum_insert(m, n, c, |c: (u64, u64)| c.1 as int);
}

/// A counter that no node touched is at zero.
pub proof fn lemma_counter_value_empty()
    ensures
        counter_value(Map::<Seq<char>, (u64, u64)>::empty()) == 0,
{
    let m = Map::<Seq<char>, (u64, u64)>::empty();
    assert(m.dom() =~= Set::empty());
    lemma_set_sum_empty();
}

/// The pairwise larger of two counts.
pub open spec fn max_counts(a: (u64, u64), b: (u64, u64)) -> (u64, u64) {
    (if a.0 >= b.0 { a.0 } else { b.0 }, if a.1 >= b.1 { a.1 } else { b.1 })
}

/// The merge of two PN-counters: every node that either counted, with the
/// larger count of each kind.
pub open spec fn counter_merge(x: NodeCounts, y: NodeCounts) -> NodeCounts {
    Map::new(
        |n: Seq<char>| x.contains_key(n) || y.contains_key(n),
        |n: Seq<char>| max_counts(counts_of(x, n), counts_of(y, n)),
    )
}

/// Merging counters does not depend on the order of the two replicas.
pub proof fn law_counter_merge_commutative(x: NodeCounts, y: NodeCounts)
    ensures
        counter_merge(x, y) == counter_merge(y, x),
{
    assert(counter_merge(x, y) =~= counter_merge(y, x));
}

/// Merging counters does not depend on how merges are grouped.
pub proof fn law_counter_merge_associative(x: NodeCounts, y: NodeCounts, z: NodeCounts)
    ensures
        counter_merge(counter_merge(x, y), z) == counter_merge(x, counter_merge(y, z)),
{
    assert(counter_merge(counter_merge(x, y), z) =~= counter_merge(x, counter_merge(y, z)));
}

/// Merging a counter with itself changes nothing.
pub proof fn law_counter_merge_idempotent(x: NodeCounts)
    ensures
        counter_merge(x, x) == x,
{
    assert(counter_merge(x, x) =~= x);
}

/// A merge keeps every count of either replica or a larger one: no credit or
/// debit is lost.
pub proof fn law_counter_merge_keeps_counts(x: NodeCounts, y: NodeCounts, n: Seq<char>)
    ensures
        counts_of(x, n).0 <= counts_of(counter_merge(x, y), n).0,
        counts_of(x, n).1 <= counts_of(counter_merge(x, y), n).1,
        counts_of(y, n).0 <= counts_of(counter_merge(x, y), n).0,
        counts_of(y, n).1 <= counts_of(counter_merge(x, y), n).1,
{
}

/// Replicas whose nodes are disjoint merge to the sum of their values: the
/// credits and debits of both are all counted, once.
pub proof fn law_counter_merge_disjoint_value(x: NodeCounts, y: NodeCounts)
    requires
        x.dom().finite(),
        y.dom().finite(),
        x.dom().disjoint(y.dom()),
    ensures
        counter_value(counter_merge(x, y)) == counter_value(x) + counter_value(y),
{
    let m = counter_merge(x, y);
    assert(m.dom() =~= x.dom().union(y.dom()));
    let c = |c: (u64, u64)| c.0 as int;
    let d = |c: (u64, u64)| c.1 as int;
    lemma_set_sum_disjoint_union(x.dom(), y.dom(), |n: Seq<char>| c(m[n]));
    lemma_set_sum_disjoint_union(x.dom(), y.dom(), |n: Seq<char>| d(m[n]));
    lemma_set_sum_agree(x.dom(), |n: Seq<char>| c(m[n]), |n: Seq<char>| c(x[n]));
    lemma_set_sum_agree(y.dom(), |n: Seq<char>| c(m[n]), |n: Seq<char>| c(y[n]));
    lemma_set_sum_agree(x.dom(), |n: Seq<char>| d(m[n]), |n: Seq<char>| d(x[n]));
    lemma_set_sum_agree(y.dom(), |n: Seq<char>| d(m[n]), |n: Seq<char>| d(y[n]));
}

/// `v` clamped to the range of `u64`.
pub open spec fn clamp_u64(v: int) -> u64 {
    if v < 0 {
        0
    } else if v > u64::MAX {
        u64::MAX
    } else {
        v as u64
    }
}

/// The counts a list of pairs describes grow by one node at a time.
proof fn lemma_merge_step(x: NodeCounts, t: Seq<(Seq<char>, (u64, u64))>, j: int)
    requires
        keys_distinct(t),
        0 <= j < t.len(),
    ensures
        assoc_map(t.take(j + 1)) == assoc_map(t.take(j)).insert(t[j].0, t[j].1),
        counts_of(counter_merge(x, assoc_map(t.take(j))), t[j].0) == counts_of(x, t[j].0),
        counter_merge(x, assoc_map(t.take(j + 1))) == counter_merge(x, assoc_map(t.take(j))).insert(
            t[j].0,
            max_counts(counts_of(x, t[j].0), t[j].1),
        ),
{
    let p = t.take(j);
    let q = t.take(j + 1);
    assert(q.drop_last() =~= p);
    assert(q.last() == t[j]);
    let k = t[j].0;
    assert forall|i: int| 0 <= i < p.len() implies #[trigger] p[i].0 != k by {
        assert(t[i].0 != t[j].0);
    }
    lemma_assoc_absent(p, k);
    let m = assoc_map(p);
    assert(counter_merge(x, m.insert(k, t[j].1)) =~= counter_merge(x, m).insert(k, max_counts(counts_of(x, k), t[j].1)));
}

/// A node's entry in a PN-counter.
#[derive(Debug)]
pub struct NodeCount {
    pub node: String,
    pub credits: u64,
    pub debits: u64,
}

/// The (node, (credits, debits)) pairs of a list of entries.
pub open spec fn count_pairs(s: Seq<NodeCount>) -> Seq<(Seq<char>, (u64, u64))> {
    s.map_values(|c: NodeCount| (c.node@, (c.credits, c.debits)))
}

/// A positive-negative counter replicated over nodes.
#[derive(Debug)]
pub struct PNCounter {
    counts: Vec<NodeCount>,
}

impl PNCounter {
    /// The counts of every node.
    pub closed spec fn view(&self) -> NodeCounts {
        assoc_map(count_pairs(self.counts@))
    }

    /// No node is listed twice.
    pub closed spec fn inv(&self) -> bool {
        keys_distinct(count_pairs(self.counts@))
    }

    /// The counted nodes are finitely many.
    pub proof fn lemma_finite(&self)
        requires
            self.inv(),
        ensures
            self.view().dom().finite(),
    {
        lemma_assoc_dom(count_pairs(self.counts@));
    }

    /// A counter at zero that no node has touched.
    pub fn new() -> (r: PNCounter)
        ensures
            r.inv(),
            r.view() == Map::<Seq<char>, (u64, u64)>::empty(),
    {
        let r = PNCounter { counts: Vec::new() };
        assert(count_pairs(r.counts@) =~= Seq::<(Seq<char>, (u64, u64))>::empty());
        r
    }

    /// A copy of the counter.
    pub fn duplicate(&self) -> (r: PNCounter)
        requires
            self.inv(),
        ensures
            r.inv(),
            r.view() == self.view(),
    {
        let mut counts: Vec<NodeCount> = Vec::new();
        let mut i: usize = 0;
        while i < self.counts.len()
            invariant
                i <= self.counts@.len(),
                counts@.len() == i,
                count_pairs(counts@) == count_pairs(self.counts@).take(i as int),
            decreases self.counts@.len() - i,
        {
            let ghost before = counts@;
            let node = self.counts[i].node.clone();
            counts.push(NodeCount { node, credits: self.counts[i].credits, debits: self.counts[i].debits });
            proof {
                assert(counts@ == before.push(counts@[i as int]));
                assert(count_pairs(counts@) =~= count_pairs(before).push(count_pairs(self.counts@)[i as int]));
                assert(count_pairs(counts@) =~= count_pairs(self.counts@).take(i + 1));
            }
            i = i + 1;
        }
        proof {
            assert(count_pairs(self.counts@).take(self.counts@.len() as int) =~= count_pairs(self.counts@));
        }
        PNCounter { counts }
    }

    /// Position of `node` in the list, if it has counted.
    fn find(&self, node: &String) -> (r: Option<usize>)
        requires
            self.inv(),
        ensures
            r matches Some(i) ==> i < self.counts@.len() && self.counts@[i as int].node@ == node@
                && self.view().contains_key(node@) && self.view()[node@] == (
                self.counts@[i as int].credits,
                self.counts@[i as int].debits,
            ),
            r is None ==> !self.view().contains_key(node@) && forall|j: int|
                0 <= j < self.counts@.len() ==> #[trigger] self.counts@[j].node@ != node@,
    {
        let mut i: usize = 0;
        while i < self.counts.len()
            invariant
                self.inv(),
                i <= self.counts@.len(),
                forall|j: int| 0 <= j < i ==> #[trigger] self.counts@[j].node@ != node@,
            decreases self.counts@.len() - i,
        {
            if self.counts[i].node == *node {
                proof {
                    lemma_assoc_index(count_pairs(self.counts@), i as int);
                }
                return Some(i);
            }
            i = i + 1;
        }
        proof {
            assert forall|j: int| 0 <= j < count_pairs(self.counts@).len() implies #[trigger] count_pairs(
                self.counts@,
            )[j].0 != node@ by {
                assert(count_pairs(self.counts@)[j].0 == self.counts@[j].node@);
            }
            lemma_assoc_absent(count_pairs(self.counts@), node@);
        }
        None
    }

    /// Set the counts of `node`, adding the node if it has not counted yet.
    fn put(&mut self, node: &String, counts: (u64, u64))
        requires
            old(self).inv(),
        ensures
            final(self).inv(),
            final(self).view() == old(self).view().insert(node@, counts),
    {
        let ghost p = count_pairs(self.counts@);
        match self.find(node) {
            Some(i) => {
                self.counts.set(i, NodeCount { node: node.clone(), credits: counts.0, debits: counts.1 });
                proof {
                    lemma_assoc_update(p, i as int, counts);
                    assert(count_pairs(self.counts@) =~= p.update(i as int, (p[i as int].0, counts)));
                }
            },
            None => {
                self.counts.push(NodeCount { node: node.clone(), credits: counts.0, debits: counts.1 });
                proof {
                    assert forall|j: int| 0 <= j < p.len() implies #[trigger] p[j].0 != node@ by {
                        assert(p[j].0 == old(self).counts@[j].node@);
                    }
                    lemma_assoc_push(p, node@, counts);
                    assert(count_pairs(self.counts@) =~= p.push((node@, counts)));
                }
            },
        }
    }

    /// The counts of `node`.
    pub fn counts_for(&self, node: &String) -> (r: (u64, u64))
        requires
            self.inv(),
        ensures
            r == counts_of(self.view(), node@),
    {
        match self.find(node) {
            Some(i) => (self.counts[i].credits, self.counts[i].debits),
            None => (0, 0),
        }
    }

    /// Count `amount` more credits at `node`; a count that would pass the
    /// largest `u64` is refused with `CRDTError`.
    pub fn increment(&mut self, node: &String, amount: u64) -> (r: Result<(), CommonError>)
        requires
            old(self).inv(),
        ensures
            final(self).inv(),
            counts_of(old(self).view(), node@).0 + amount > u64::MAX <==> r is Err,
            r is Err ==> (r matches Err(CommonError::CRDTError(_))) && final(self).view() == old(self).view(),
            r is Ok ==> final(self).view() == old(self).view().insert(
                node@,
                ((counts_of(old(self).view(), node@).0 + amount) as u64, counts_of(old(self).view(), node@).1),
            ),
    {
        let (c, d) = self.counts_for(node);
        match c.checked_add(amount) {
            Some(n) => {
                self.put(node, (n, d));
                Ok(())
            },
            None => Err(CommonError::CRDTError(String::from_str("counter overflow"))),
        }
    }

    /// Count `amount` more debits at `node`; a count that would pass the
    /// largest `u64` is refused with `CRDTError`.
    pub fn decrement(&mut self, node: &String, amount: u64) -> (r: Result<(), CommonError>)
        requires
            old(self).inv(),
        ensures
            final(self).inv(),
            counts_of(old(self).view(), node@).1 + amount > u64::MAX <==> r is Err,
            r is Err ==> (r matches Err(CommonError::CRDTError(_))) && final(self).view() == old(self).view(),
            r is Ok ==> final(self).view() == old(self).view().insert(
                node@,
                (counts_of(old(self).view(), node@).0, (counts_of(old(self).view(), node@).1 + amount) as u64),
            ),
    {
        let (c, d) = self.counts_for(node);
        match d.checked_add(amount) {
            Some(n) => {
                self.put(node, (c, n));
                Ok(())
            },
            None => Err(CommonError::CRDTError(String::from_str("counter overflow"))),
        }
    }

    /// Merge the counts of `other` into this counter: every node keeps the
    /// larger of the two counts of each kind.
    pub fn merge(&mut self, other: &PNCounter)
        requires
            old(self).inv(),
            other.inv(),
        ensures
            final(self).inv(),
            final(self).view() == counter_merge(old(self).view(), other.view()),
    {
        let ghost x = self.view();
        let ghost t = count_pairs(other.counts@);
        proof {
            assert(t.take(0) =~= Seq::<(Seq<char>, (u64, u64))>::empty());
            assert(counter_merge(x, assoc_map(t.take(0))) =~= x);
        }
        let mut j: usize = 0;
        while j < other.counts.len()
            invariant
                self.inv(),
                other.inv(),
                j <= other.counts@.len(),
                t == count_pairs(other.counts@),
                self.view() == counter_merge(x, assoc_map(t.take(j as int))),
            decreases other.counts@.len() - j,
        {
            proof {
                lemma_merge_step(x, t, j as int);
            }
            let mine = self.counts_for(&other.counts[j].node);
            let c = if mine.0 >= other.counts[j].credits { mine.0 } else { other.counts[j].credits };
            let d = if mine.1 >= other.counts[j].debits { mine.1 } else { other.counts[j].debits };
            self.put(&other.counts[j].node, (c, d));
            j = j + 1;
        }
        proof {
            assert(t.take(t.len() as int) =~= t);
        }
    }

    /// The counter's value clamped to the range of `u64`.
    pub fn value(&self) -> (r: u64)
        requires
            self.inv(),
        ensures
            r == clamp_u64(counter_value(self.view())),
    {
        let (c, d) = self.totals();
        if c >= d {
            let diff = c - d;
            if diff > 0xffff_ffff_ffff_ffffu128 {
                u64::MAX
            } else {
                diff as u64
            }
        } else {
            0
        }
    }

    /// The credits and the debits counted over all nodes.
    pub fn totals(&self) -> (r: (u128, u128))
        requires
            self.inv(),
        ensures
            r.0 == total_credits(self.view()),
            r.1 == total_debits(self.view()),
    {
        let ghost s = count_pairs(self.counts@);
        let mut credits: u128 = 0;
        let mut debits: u128 = 0;
        let mut i: usize = 0;
        while i < self.counts.len()
            invariant
                i <= self.counts@.len(),
                s == count_pairs(self.counts@),
                credits == seq_pairs_sum(s.take(i as int), |c: (u64, u64)| c.0 as int),
                debits == seq_pairs_sum(s.take(i as int), |c: (u64, u64)| c.1 as int),
                credits <= i * 0xffff_ffff_ffff_ffffu128,
                debits <= i * 0xffff_ffff_ffff_ffffu128,
            decreases self.counts@.len() - i,
        {
            proof {
                assert(s.take(i + 1).drop_last() =~= s.take(i as int));
                assert(s.take(i + 1).last() == s[i as int]);
                assert((i + 1) * 0xffff_ffff_ffff_ffffu128 == i * 0xffff_ffff_ffff_ffffu128 + 0xffff_ffff_ffff_ffffu128)
                    by (nonlinear_arith);
                assert((i + 1) * 0xffff_ffff_ffff_ffffu128 <= 0xffff_ffff_ffff_ffffu128 * 0xffff_ffff_ffff_ffffu128)
                    by (nonlinear_arith)
                    requires
                        i < 0xffff_ffff_ffff_ffffu128,
                ;
            }
            credits = credits + self.counts[i].credits as u128;
            debits = debits + self.counts[i].debits as u128;
            i = i + 1;
        }
        proof {
            assert(s.take(s.len() as int) =~= s);
            lemma_seq_pairs_sum(s, |c: (u64, u64)| c.0 as int);
            lemma_seq_pairs_sum(s, |c: (u64, u64)| c.1 as int);
        }
        (credits, debits)
    }
}

/// Identifier of a replica.
#[derive(Debug)]
pub struct NodeId {
    id: String,
}

impl NodeId {
    /// The identifier's text.
    pub closed spec fn view(&self) -> Seq<char> {
        self.id@
    }

    /// The node named `id`.
    pub fn new(id: String) -> (r: NodeId)
        ensures
            r@ == id@,
    {
        NodeId { id }
    }

    /// The identifier's text.
    pub fn as_str(&self) -> (r: &str)
        ensures
            r@ == self@,
    {
        self.id.as_str()
    }

    /// A copy of the identifier.
    pub fn duplicate(&self) -> (r: NodeId)
        ensures
            r@ == self@,
    {
        NodeId { id: self.id.clone() }
    }
}

/// Configuration for a replicated mana ledger.
#[derive(Debug)]
pub struct CRDTManaLedgerConfig {
    /// Identifier of this replica.
    pub node_id: String,
    /// Balances to start from, by the text of the account identifier.
    pub initial_balances: Vec<(String, u64)>,
    /// Whether events are to be recorded (a new ledger records none until
    /// a store is attached).
    pub enable_event_store: bool,
}

impl Default for CRDTManaLedgerConfig {
    fn default() -> (r: Self)
        ensures
            r.node_id@ == seq!['d', 'e', 'f', 'a', 'u', 'l', 't', '_', 'n', 'o', 'd', 'e'],
            r.initial_balances@.len() == 0,
            !r.enable_event_store,
    {
        proof {
            reveal_strlit("default_node");
        }
        CRDTManaLedgerConfig {
            node_id: String::from_str("default_node"),
            initial_balances: Vec::new(),
            enable_event_store: false,
        }
    }
}

/// Statistics about a replicated mana ledger.
#[derive(Debug)]
pub struct CRDTManaLedgerStats {
    pub account_count: u64,
    pub total_mana: u64,
    pub average_balance: u64,
    pub max_balance: u64,
    pub min_balance: u64,
    pub node_id: NodeId,
}

/// The counter of one account.
#[derive(Debug)]
pub struct AccountCounter {
    pub did: Did,
    pub counter: PNCounter,
}

/// (account, counts) pairs of a list of account counters.
pub open spec fn account_pairs(s: Seq<AccountCounter>) -> Seq<(Seq<char>, NodeCounts)> {
    s.map_values(|a: AccountCounter| (a.did@, a.counter.view()))
}

/// The counts of every account.
pub type LedgerCounts = Map<Seq<char>, NodeCounts>;

/// The counter of account `k`, untouched for an unknown account.
pub open spec fn counter_or_empty(m: LedgerCounts, k: Seq<char>) -> NodeCounts {
    lookup_or(m, k, Map::<Seq<char>, (u64, u64)>::empty())
}

/// The merge of two replicas: every account of either, its counters merged.
pub open spec fn ledger_merge(a: LedgerCounts, b: LedgerCounts) -> LedgerCounts {
    Map::new(
        |k: Seq<char>| a.contains_key(k) || b.contains_key(k),
        |k: Seq<char>| counter_merge(counter_or_empty(a, k), counter_or_empty(b, k)),
    )
}

/// The balances of a replica: every account's counter value, clamped to the
/// range of `u64`.
pub open spec fn ledger_balances(m: LedgerCounts) -> Map<Seq<char>, u64> {
    Map::new(|k: Seq<char>| m.contains_key(k), |k: Seq<char>| clamp_u64(counter_value(m[k])))
}

/// Every account's value lies in the range of `u64`.
pub open spec fn values_in_range(m: LedgerCounts) -> bool {
    forall|k: Seq<char>| #[trigger] m.contains_key(k) ==> 0 <= counter_value(m[k]) <= u64::MAX
}

/// Merging with an untouched counter changes nothing.
pub proof fn lemma_counter_merge_empty(x: NodeCounts)
    ensures
        counter_merge(x, Map::empty()) == x,
        counter_merge(Map::empty(), x) == x,
{
    assert(counter_merge(x, Map::empty()) =~= x);
    assert(counter_merge(Map::empty(), x) =~= x);
}

/// Merging replicas does not depend on their order.
pub proof fn law_ledger_merge_commutative(a: LedgerCounts, b: LedgerCounts)
    ensures
        ledger_merge(a, b) == ledger_merge(b, a),
{
    assert forall|k: Seq<char>| #[trigger] ledger_merge(a, b).contains_key(k) implies ledger_merge(a, b)[k]
        == ledger_merge(b, a)[k] by {
        law_counter_merge_commutative(counter_or_empty(a, k), counter_or_empty(b, k));
    }
    assert(ledger_merge(a, b) =~= ledger_merge(b, a));
}

/// Merging replicas does not depend on how merges are grouped.
pub proof fn law_ledger_merge_associative(a: LedgerCounts, b: LedgerCounts, c: LedgerCounts)
    ensures
        ledger_merge(ledger_merge(a, b), c) == ledger_merge(a, ledger_merge(b, c)),
{
    let l = ledger_merge(ledger_merge(a, b), c);
    let r = ledger_merge(a, ledger_merge(b, c));
    assert forall|k: Seq<char>| #[trigger] l.contains_key(k) implies l[k] == r[k] by {
        let x = counter_or_empty(a, k);
        let y = counter_or_empty(b, k);
        let z = counter_or_empty(c, k);
        law_counter_merge_associative(x, y, z);
        lemma_counter_merge_empty(x);
        lemma_counter_merge_empty(y);
        lemma_counter_merge_empty(z);
        lemma_counter_merge_empty(counter_merge(x, y));
        lemma_counter_merge_empty(counter_merge(y, z));
        assert(counter_or_empty(ledger_merge(a, b), k) == counter_merge(x, y));
        assert(counter_or_empty(ledger_merge(b, c), k) == counter_merge(y, z));
    }
    assert(l =~= r);
}

/// Merging a replica with itself changes nothing.
pub proof fn law_ledger_merge_idempotent(a: LedgerCounts)
    ensures
        ledger_merge(a, a) == a,
{
    assert forall|k: Seq<char>| #[trigger] ledger_merge(a, a).contains_key(k) implies ledger_merge(a, a)[k] == a[k] by {
        law_counter_merge_idempotent(a[k]);
    }
    assert(ledger_merge(a, a) =~= a);
}

/// When two replicas counted an account at disjoint nodes, the merged balance
/// of the account is the sum of the two values: concurrent credits and debits
/// all count.
pub proof fn law_ledger_merge_disjoint_nodes(a: LedgerCounts, b: LedgerCounts, k: Seq<char>)
    requires
        counter_or_empty(a, k).dom().finite(),
        counter_or_empty(b, k).dom().finite(),
        counter_or_empty(a, k).dom().disjoint(counter_or_empty(b, k).dom()),
    ensures
        counter_value(counter_or_empty(ledger_merge(a, b), k)) == counter_value(counter_or_empty(a, k))
            + counter_value(counter_or_empty(b, k)),
{
    law_counter_merge_disjoint_value(counter_or_empty(a, k), counter_or_empty(b, k));
    if !a.contains_key(k) && !b.contains_key(k) {
        lemma_counter_merge_empty(Map::<Seq<char>, (u64, u64)>::empty());
        lemma_counter_value_empty();
    }
}

/// `o` with `e` appended, when there is a record.
pub open spec fn pushed(o: Option<Seq<(int, Seq<char>, u64)>>, e: (int, Seq<char>, u64)) -> Option<Seq<(int, Seq<char>, u64)>> {
    match o {
        Some(s) => Some(s.push(e)),
        None => None,
    }
}

/// The balances a configuration starts from: the valid identifiers of the
/// list with their amounts, a later entry replacing an earlier one; an entry
/// of zero leaves an account unknown.
pub open spec fn initial_balance_map(s: Seq<(String, u64)>) -> Map<Seq<char>, u64>
    decreases s.len(),
{
    if s.len() == 0 {
        Map::empty()
    } else {
        let m = initial_balance_map(s.drop_last());
        if is_valid_did(s.last().0@) && s.last().1 > 0 {
            m.insert(s.last().0@, s.last().1)
        } else {
            m
        }
    }
}

/// No identifier text occurs twice in a configuration list.
pub open spec fn config_keys_distinct(s: Seq<(String, u64)>) -> bool {
    forall|i: int, j: int| 0 <= i < j < s.len() ==> #[trigger] s[i].0@ != #[trigger] s[j].0@
}

/// The identifiers that a configuration list gives a balance are in the list.
pub proof fn lemma_initial_balance_keys(s: Seq<(String, u64)>, k: Seq<char>)
    requires
        initial_balance_map(s).contains_key(k),
    ensures
        exists|j: int| 0 <= j < s.len() && #[trigger] s[j].0@ == k,
    decreases s.len(),
{
    if s.len() > 0 {
        if k != s.last().0@ || !is_valid_did(s.last().0@) || s.last().1 == 0 {
            lemma_initial_balance_keys(s.drop_last(), k);
            let j = choose|j: int| 0 <= j < s.drop_last().len() && #[trigger] s.drop_last()[j].0@ == k;
            assert(s[j].0@ == k);
        } else {
            assert(s[s.len() - 1].0@ == k);
        }
    }
}

/// The merge of two replicas grows by one account of the second at a time.
proof fn lemma_ledger_merge_step(x: LedgerCounts, t: Seq<(Seq<char>, NodeCounts)>, j: int)
    requires
        keys_distinct(t),
        0 <= j < t.len(),
    ensures
        counter_or_empty(ledger_merge(x, assoc_map(t.take(j))), t[j].0) == counter_or_empty(x, t[j].0),
        ledger_merge(x, assoc_map(t.take(j + 1))) == ledger_merge(x, assoc_map(t.take(j))).insert(
            t[j].0,
            counter_merge(counter_or_empty(x, t[j].0), t[j].1),
        ),
{
    let p = t.take(j);
    let q = t.take(j + 1);
    assert(q.drop_last() =~= p);
    assert(q.last() == t[j]);
    let k = t[j].0;
    assert forall|i: int| 0 <= i < p.len() implies #[trigger] p[i].0 != k by {
        assert(t[i].0 != t[j].0);
    }
    lemma_assoc_absent(p, k);
    let m = assoc_map(p);
    lemma_counter_merge_empty(counter_or_empty(x, k));
    assert(ledger_merge(x, m.insert(k, t[j].1)) =~= ledger_merge(x, m).insert(k, counter_merge(counter_or_empty(x, k), t[j].1)));
}

/// The sum of the balances of `b`.
pub open spec fn balance_total(b: Map<Seq<char>, u64>) -> int {
    map_sum(b, |v: u64| v as int)
}

/// `st` describes the balances `b` of replica `node`: the number of
/// accounts, the total and its average (rounded down), the largest and the
/// smallest balance (zero without accounts).
pub open spec fn stats_describe(st: CRDTManaLedgerStats, b: Map<Seq<char>, u64>, node: Seq<char>) -> bool {
    &&& st.account_count == b.dom().len()
    &&& st.total_mana == balance_total(b)
    &&& st.average_balance == if b.dom().len() > 0 {
        balance_total(b) / (b.dom().len() as int)
    } else {
        0
    }
    &&& st.node_id@ == node
    &&& b.dom().len() == 0 ==> st.max_balance == 0 && st.min_balance == 0
    &&& forall|k: Seq<char>| #[trigger] b.contains_key(k) ==> st.min_balance <= b[k] <= st.max_balance
    &&& b.dom().len() > 0 ==> (exists|k: Seq<char>| #[trigger] b.contains_key(k) && b[k] == st.max_balance)
    &&& b.dom().len() > 0 ==> (exists|k: Seq<char>| #[trigger] b.contains_key(k) && b[k] == st.min_balance)
}

/// A mana ledger replicated with PN-counters: each account's balance is a
/// counter to which this replica adds its own credits and debits, and which
/// merges with the counters of other replicas without conflicts.
#[derive(Debug)]
pub struct CRDTManaLedger {
    node_id: NodeId,
    accounts: Vec<AccountCounter>,
    event_store: Option<MemoryEventStore>,
}

impl CRDTManaLedger {
    /// The counters of every account.
    pub closed spec fn counts(&self) -> LedgerCounts {
        assoc_map(account_pairs(self.accounts@))
    }

    /// No account is listed twice and every counter is well formed.
    pub closed spec fn structure_ok(&self) -> bool {
        &&& keys_distinct(account_pairs(self.accounts@))
        &&& forall|i: int| 0 <= i < self.accounts@.len() ==> #[trigger] self.accounts@[i].counter.inv()
    }

    /// The identifier of this replica.
    pub closed spec fn node(&self) -> Seq<char> {
        self.node_id@
    }

    /// The recorded events, when a store is attached.
    pub closed spec fn recorded(&self) -> Option<Seq<LedgerEvent>> {
        match self.event_store {
            Some(s) => Some(s.spec_events()),
            None => None,
        }
    }

    /// The accounts and their counters are finitely many.
    pub proof fn lemma_counts_finite(&self)
        requires
            self.structure_ok(),
        ensures
            self.counts().dom().finite(),
            forall|k: Seq<char>| #[trigger] self.counts().contains_key(k) ==> self.counts()[k].dom().finite(),
    {
        let p = account_pairs(self.accounts@);
        lemma_assoc_dom(p);
        assert forall|k: Seq<char>| #[trigger] self.counts().contains_key(k) implies self.counts()[k].dom().finite() by {
            let i = choose|i: int| 0 <= i < p.len() && #[trigger] p[i].0 == k;
            lemma_assoc_index(p, i);
            self.accounts@[i].counter.lemma_finite();
        }
    }

    /// An empty ledger of replica `node`.
    fn empty(node_id: NodeId) -> (r: CRDTManaLedger)
        ensures
            r.structure_ok(),
            values_in_range(r.counts()),
            r.counts() == Map::<Seq<char>, NodeCounts>::empty(),
            r.node() == node_id@,
            r.recorded() is None,
    {
        let r = CRDTManaLedger { node_id, accounts: Vec::new(), event_store: None };
        assert(account_pairs(r.accounts@) =~= Seq::<(Seq<char>, NodeCounts)>::empty());
        r
    }

    /// Position of `did`'s counter, if the account is known.
    fn find_account(&self, did: &Did) -> (r: Option<usize>)
        requires
            self.structure_ok(),
        ensures
            r matches Some(i) ==> i < self.accounts@.len() && self.accounts@[i as int].did@ == did@
                && self.counts().contains_key(did@) && self.counts()[did@] == self.accounts@[i as int].counter.view(),
            r is None ==> !self.counts().contains_key(did@),
    {
        let mut i: usize = 0;
        while i < self.accounts.len()
            invariant
                self.structure_ok(),
                i <= self.accounts@.len(),
                forall|j: int| 0 <= j < i ==> #[trigger] self.accounts@[j].did@ != did@,
            decreases self.accounts@.len() - i,
        {
            if self.accounts[i].did.same_as(did) {
                proof {
                    lemma_assoc_index(account_pairs(self.accounts@), i as int);
                }
                return Some(i);
            }
            i = i + 1;
        }
        proof {
            let p = account_pairs(self.accounts@);
            assert forall|j: int| 0 <= j < p.len() implies #[trigger] p[j].0 != did@ by {
                assert(p[j].0 == self.accounts@[j].did@);
            }
            lemma_assoc_absent(p, did@);
        }
        None
    }

    /// A copy of the counter of `did`; an unknown account has an untouched one.
    fn counter_copy(&self, did: &Did) -> (r: PNCounter)
        requires
            self.structure_ok(),
        ensures
            r.inv(),
            r.view() == counter_or_empty(self.counts(), did@),
    {
        match self.find_account(did) {
            Some(i) => self.accounts[i].counter.duplicate(),
            None => PNCounter::new(),
        }
    }

    /// Store `counter` as the counter of `did`.
    fn put_counter(&mut self, did: &Did, counter: PNCounter)
        requires
            old(self).structure_ok(),
            counter.inv(),
        ensures
            final(self).structure_ok(),
            final(self).counts() == old(self).counts().insert(did@, counter.view()),
            final(self).node() == old(self).node(),
            final(self).recorded() == old(self).recorded(),
            old(self).counts().contains_key(did@) ==> final(self).account_ids() == old(self).account_ids(),
    {
        let ghost p = account_pairs(self.accounts@);
        let ghost v = counter.view();
        match self.find_account(did) {
            Some(i) => {
                let d = self.accounts[i].did.duplicate();
                self.accounts.set(i, AccountCounter { did: d, counter });
                proof {
                    lemma_assoc_update(p, i as int, v);
                    assert(account_pairs(self.accounts@) =~= p.update(i as int, (p[i as int].0, v)));
                    assert(self.account_ids() =~= old(self).account_ids());
                }
            },
            None => {
                self.accounts.push(AccountCounter { did: did.duplicate(), counter });
                proof {
                    assert forall|j: int| 0 <= j < p.len() implies #[trigger] p[j].0 != did@ by {
                        assert(p[j].0 == old(self).accounts@[j].did@);
                        if p[j].0 == did@ {
                            lemma_assoc_index(p, j);
                        }
                    }
                    lemma_assoc_push(p, did@, v);
                    assert(account_pairs(self.accounts@) =~= p.push((did@, v)));
                }
            },
        }
    }

    /// The account identifiers in the order the ledger keeps them.
    pub closed spec fn account_ids(&self) -> Seq<Seq<char>> {
        self.accounts@.map_values(|a: AccountCounter| a.did@)
    }

    /// What the recorded events say, when a store is attached.
    pub closed spec fn recorded_views(&self) -> Option<Seq<(int, Seq<char>, u64)>> {
        match self.event_store {
            Some(s) => Some(events_view(s.spec_events())),
            None => None,
        }
    }

    /// Record `event` if a store is attached.
    fn record_event(&mut self, event: LedgerEvent)
        ensures
            final(self).accounts@ == old(self).accounts@,
            final(self).node_id == old(self).node_id,
            final(self).recorded() == match old(self).recorded() {
                Some(evs) => Some(evs.push(event)),
                None => None,
            },
            final(self).recorded_views() == pushed(old(self).recorded_views(), event_view(event)),
    {
        if let Some(store) = &mut self.event_store {
            let _ = store.append(event);
        }
        proof {
            if self.event_store is Some {
                assert(events_view(self.event_store->0.spec_events()) =~= events_view(old(self).recorded().unwrap()).push(
                    event_view(event),
                ));
            }
        }
    }

    /// Credit `amount` to `did`, counted as this replica's credit. A credit
    /// that would take the balance, or this replica's count, past the largest
    /// `u64` is refused with `CRDTError` and changes nothing.
    pub fn credit(&mut self, did: &Did, amount: u64) -> (r: Result<(), CommonError>)
        requires
            old(self).structure_ok(),
            values_in_range(old(self).counts()),
        ensures
            final(self).structure_ok(),
            values_in_range(final(self).counts()),
            final(self).node() == old(self).node(),
            r is Ok <==> credit_fits(old(self).counts(), old(self).node(), did@, amount),
            r is Ok ==> balance_updated(
                ledger_balances(old(self).counts()),
                ledger_balances(final(self).counts()),
                did@,
                (balance_in(ledger_balances(old(self).counts()), did@) + amount) as u64,
            ),
            r is Ok && amount > 0 ==> final(self).counts() == old(self).counts().insert(
                did@,
                counter_or_empty(old(self).counts(), did@).insert(
                    old(self).node(),
                    (
                        (counts_of(counter_or_empty(old(self).counts(), did@), old(self).node()).0 + amount) as u64,
                        counts_of(counter_or_empty(old(self).counts(), did@), old(self).node()).1,
                    ),
                ),
            ) && final(self).recorded_views() == pushed(old(self).recorded_views(), (0int, did@, amount)),
            r is Ok && amount == 0 ==> final(self).counts() == old(self).counts() && final(self).recorded_views()
                == old(self).recorded_views(),
            r is Err ==> (r matches Err(CommonError::CRDTError(_))) && final(self).counts() == old(self).counts()
                && final(self).recorded_views() == old(self).recorded_views(),
            old(self).counts().contains_key(did@) ==> final(self).account_ids() == old(self).account_ids(),
    {
        if amount == 0 {
            return Ok(());
        }
        let current = self.balance_of(did);
        proof {
            self.lemma_counts_finite();
            lemma_counter_value_empty();
        }
        if amount > u64::MAX - current {
            return Err(CommonError::CRDTError(String::from_str("mana balance overflow")));
        }
        let mut counter = self.counter_copy(did);
        let ghost before = counter.view();
        proof {
            counter.lemma_finite();
        }
        let res = counter.increment(&self.node_id.id, amount);
        if res.is_err() {
            return res;
        }
        proof {
            lemma_counter_value_insert(before, self.node(), counter.view()[self.node()]);
            assert(counter.view() == before.insert(self.node(), counter.view()[self.node()]));
        }
        self.put_counter(did, counter);
        self.record_event(LedgerEvent::Credit { did: did.duplicate(), amount });
        Ok(())
    }

    /// Debit `amount` from `did`, counted as this replica's debit. A balance
    /// below the amount is refused with `InsufficientFunds`, and a count that
    /// would pass the largest `u64` with `CRDTError`; nothing changes then.
    pub fn spend(&mut self, did: &Did, amount: u64) -> (r: Result<(), CommonError>)
        requires
            old(self).structure_ok(),
            values_in_range(old(self).counts()),
        ensures
            final(self).structure_ok(),
            values_in_range(final(self).counts()),
            final(self).node() == old(self).node(),
            balance_in(ledger_balances(old(self).counts()), did@) < amount ==> (r matches Err(
                CommonError::InsufficientFunds(_),
            )),
            r is Ok <==> debit_fits(old(self).counts(), old(self).node(), did@, amount),
            amount <= balance_in(ledger_balances(old(self).counts()), did@) && r is Err ==> (r matches Err(
                CommonError::CRDTError(_),
            )),
            r is Ok ==> amount <= balance_in(ledger_balances(old(self).counts()), did@) && balance_updated(
                ledger_balances(old(self).counts()),
                ledger_balances(final(self).counts()),
                did@,
                (balance_in(ledger_balances(old(self).counts()), did@) - amount) as u64,
            ),
            r is Ok && amount > 0 ==> final(self).counts() == old(self).counts().insert(
                did@,
                counter_or_empty(old(self).counts(), did@).insert(
                    old(self).node(),
                    (
                        counts_of(counter_or_empty(old(self).counts(), did@), old(self).node()).0,
                        (counts_of(counter_or_empty(old(self).counts(), did@), old(self).node()).1 + amount) as u64,
                    ),
                ),
            ) && final(self).recorded_views() == pushed(old(self).recorded_views(), (1int, did@, amount)),
            r is Ok && amount == 0 ==> final(self).counts() == old(self).counts() && final(self).recorded_views()
                == old(self).recorded_views(),
            r is Err ==> final(self).counts() == old(self).counts() && final(self).recorded_views() == old(
                self,
            ).recorded_views(),
            old(self).counts().contains_key(did@) ==> final(self).account_ids() == old(self).account_ids(),
    {
        if amount == 0 {
            return Ok(());
        }
        let current = self.balance_of(did);
        proof {
            self.lemma_counts_finite();
            lemma_counter_value_empty();
        }
        if current < amount {
            return Err(
                CommonError::InsufficientFunds(text_two_numbers("Insufficient mana: has ", current, ", needs ", amount)),
            );
        }
        let mut counter = self.counter_copy(did);
        let ghost before = counter.view();
        proof {
            counter.lemma_finite();
        }
        let res = counter.decrement(&self.node_id.id, amount);
        if res.is_err() {
            return res;
        }
        proof {
            lemma_counter_value_insert(before, self.node(), counter.view()[self.node()]);
            assert(counter.view() == before.insert(self.node(), counter.view()[self.node()]));
        }
        self.put_counter(did, counter);
        self.record_event(LedgerEvent::Debit { did: did.duplicate(), amount });
        Ok(())
    }

    /// Set the balance of `did` to `amount` by crediting or debiting the
    /// difference, then record the new balance.
    pub fn set_balance(&mut self, did: &Did, amount: u64) -> (r: Result<(), CommonError>)
        requires
            old(self).structure_ok(),
            values_in_range(old(self).counts()),
        ensures
            final(self).structure_ok(),
            values_in_range(final(self).counts()),
            final(self).node() == old(self).node(),
            r is Ok ==> balance_updated(
                ledger_balances(old(self).counts()),
                ledger_balances(final(self).counts()),
                did@,
                amount,
            ),
            r is Err ==> final(self).counts() == old(self).counts(),
            balance_in(ledger_balances(old(self).counts()), did@) == amount ==> final(self).counts() == old(self).counts(),
            !old(self).counts().contains_key(did@) ==> r is Ok,
            r is Ok <==> set_fits(old(self).counts(), old(self).node(), did@, amount),
            final(self).recorded_views() is Some <==> old(self).recorded_views() is Some,
            r is Ok && final(self).recorded_views() is Some ==> final(self).recorded_views().unwrap().last() == (
                2int,
                did@,
                amount,
            ),
            old(self).counts().contains_key(did@) ==> final(self).account_ids() == old(self).account_ids(),
    {
        let current = self.balance_of(did);
        if amount > current {
            self.credit(did, amount - current)?;
        } else if amount < current {
            self.spend(did, current - amount)?;
        }
        self.record_event(LedgerEvent::SetBalance { did: did.duplicate(), amount });
        Ok(())
    }

    /// The ids of the accounts are those of the balances, each once.
    proof fn lemma_ids(&self)
        requires
            self.structure_ok(),
        ensures
            self.account_ids().no_duplicates(),
            self.account_ids().len() == self.accounts@.len(),
            forall|k: Seq<char>| #[trigger] self.counts().contains_key(k) <==> self.account_ids().contains(k),
            forall|j: int| 0 <= j < self.accounts@.len() ==> #[trigger] self.counts().contains_key(self.account_ids()[j])
                && self.counts()[self.account_ids()[j]] == self.accounts@[j].counter.view(),
    {
        let p = account_pairs(self.accounts@);
        let ids = self.account_ids();
        lemma_assoc_dom(p);
        assert forall|a: int, b: int| 0 <= a < ids.len() && 0 <= b < ids.len() && a != b implies ids[a] != ids[b] by {
            if a < b {
                assert(p[a].0 != p[b].0);
            } else {
                assert(p[b].0 != p[a].0);
            }
        }
        assert forall|j: int| 0 <= j < self.accounts@.len() implies #[trigger] self.counts().contains_key(ids[j])
            && self.counts()[ids[j]] == self.accounts@[j].counter.view() by {
            lemma_assoc_index(p, j);
        }
        assert forall|k: Seq<char>| #[trigger] self.counts().contains_key(k) <==> ids.contains(k) by {
            if self.counts().contains_key(k) {
                let i = choose|i: int| 0 <= i < p.len() && #[trigger] p[i].0 == k;
                assert(ids[i] == k);
            }
            if ids.contains(k) {
                let i = choose|i: int| 0 <= i < ids.len() && ids[i] == k;
                lemma_assoc_index(p, i);
            }
        }
    }

    /// Credit every known account with `amount`; stops at the first refused
    /// credit.
    pub fn credit_all(&mut self, amount: u64) -> (r: Result<(), CommonError>)
        requires
            old(self).structure_ok(),
            values_in_range(old(self).counts()),
        ensures
            final(self).structure_ok(),
            values_in_range(final(self).counts()),
            final(self).node() == old(self).node(),
            r is Ok ==> all_credited(ledger_balances(old(self).counts()), ledger_balances(final(self).counts()), amount),
            (forall|k: Seq<char>|
                #[trigger] old(self).counts().contains_key(k) ==> credit_fits(old(self).counts(), old(self).node(), k, amount))
                ==> r is Ok,
    {
        let ghost b0 = ledger_balances(self.counts());
        if amount == 0 {
            assert(ledger_balances(self.counts()).dom() =~= b0.dom());
            return Ok(());
        }
        let ghost ids = self.account_ids();
        proof {
            self.lemma_ids();
        }
        let n = self.accounts.len();
        let mut i: usize = 0;
        while i < n
            invariant
                self.structure_ok(),
                values_in_range(self.counts()),
                self.node() == old(self).node(),
                self.account_ids() == ids,
                ids.no_duplicates(),
                ids.len() == n,
                n == self.accounts@.len(),
                i <= n,
                forall|k: Seq<char>| #[trigger] b0.contains_key(k) <==> ids.contains(k),
                forall|k: Seq<char>| #[trigger] ledger_balances(self.counts()).contains_key(k) <==> b0.contains_key(k),
                forall|j: int| 0 <= j < i ==> ledger_balances(self.counts())[#[trigger] ids[j]] == sat_add(b0[ids[j]], amount),
                forall|j: int| i <= j < n ==> ledger_balances(self.counts())[#[trigger] ids[j]] == b0[ids[j]],
                forall|j: int| i <= j < n ==> #[trigger] self.counts()[ids[j]] == old(self).counts()[ids[j]],
                forall|k: Seq<char>| #[trigger] self.counts().contains_key(k) <==> old(self).counts().contains_key(k),
                amount > 0,
            decreases n - i,
        {
            proof {
                self.lemma_ids();
                assert(self.account_ids()[i as int] == self.accounts@[i as int].did@);
                if forall|k: Seq<char>|
                    #[trigger] old(self).counts().contains_key(k) ==> credit_fits(old(self).counts(), old(self).node(), k, amount) {
                    let k = ids[i as int];
                    assert(self.counts().contains_key(k));
                    assert(credit_fits(old(self).counts(), old(self).node(), k, amount));
                    assert(counter_or_empty(self.counts(), k) == counter_or_empty(old(self).counts(), k));
                    assert(balance_in(ledger_balances(self.counts()), k) == balance_in(ledger_balances(old(self).counts()), k));
                    assert(credit_fits(self.counts(), self.node(), k, amount));
                }
            }
            let did = self.accounts[i].did.duplicate();
            let ghost mid = ledger_balances(self.counts());
            let res = self.credit(&did, amount);
            if res.is_err() {
                return res;
            }
            proof {
                assert forall|j: int| 0 <= j < n && j != i implies ids[j] != ids[i as int] by {}
            }
            i = i + 1;
        }
        proof {
            assert forall|k: Seq<char>| #[trigger] b0.contains_key(k) implies ledger_balances(self.counts())[k]
                == sat_add(b0[k], amount) by {
                assert(ids.contains(k));
                let j = choose|j: int| 0 <= j < ids.len() && ids[j] == k;
                assert(ledger_balances(self.counts())[ids[j]] == sat_add(b0[ids[j]], amount));
            }
            assert(ledger_balances(self.counts()).dom() =~= b0.dom());
        }
        Ok(())
    }

    /// The known accounts, each once, in the order the ledger keeps them.
    pub fn all_accounts(&self) -> (r: Vec<Did>)
        requires
            self.structure_ok(),
        ensures
            did_views(r@) == self.account_ids(),
            did_views(r@).no_duplicates(),
            forall|k: Seq<char>| self.counts().contains_key(k) <==> did_views(r@).contains(k),
    {
        let mut out: Vec<Did> = Vec::new();
        let mut i: usize = 0;
        while i < self.accounts.len()
            invariant
                i <= self.accounts@.len(),
                out@.len() == i,
                did_views(out@) == self.account_ids().take(i as int),
            decreases self.accounts@.len() - i,
        {
            out.push(self.accounts[i].did.duplicate());
            proof {
                assert(did_views(out@) =~= self.account_ids().take(i + 1));
            }
            i = i + 1;
        }
        proof {
            assert(self.account_ids().take(self.accounts@.len() as int) =~= self.account_ids());
            self.lemma_ids();
        }
        out
    }

    /// Every known account with its balance.
    pub fn get_all_balances(&self) -> (r: Result<Vec<(Did, u64)>, CommonError>)
        requires
            self.structure_ok(),
        ensures
            r matches Ok(v) && v@.len() == self.account_ids().len() && forall|i: int|
                0 <= i < v@.len() ==> #[trigger] v@[i].0@ == self.account_ids()[i] && v@[i].1 == ledger_balances(
                    self.counts(),
                )[self.account_ids()[i]],
    {
        let mut out: Vec<(Did, u64)> = Vec::new();
        let mut i: usize = 0;
        proof {
            self.lemma_ids();
        }
        while i < self.accounts.len()
            invariant
                self.structure_ok(),
                i <= self.accounts@.len(),
                out@.len() == i,
                self.account_ids().len() == self.accounts@.len(),
                forall|j: int| 0 <= j < i ==> #[trigger] out@[j].0@ == self.account_ids()[j] && out@[j].1
                    == ledger_balances(self.counts())[self.account_ids()[j]],
            decreases self.accounts@.len() - i,
        {
            proof {
                self.lemma_ids();
                assert(self.counts().contains_key(self.account_ids()[i as int]));
                assert(self.counts()[self.account_ids()[i as int]] == self.accounts@[i as int].counter.view());
            }
            let v = self.accounts[i].counter.value();
            let d = self.accounts[i].did.duplicate();
            let ghost before = out@;
            out.push((d, v));
            proof {
                assert(self.account_ids()[i as int] == self.accounts@[i as int].did@);
                assert(out@[i as int].0@ == self.account_ids()[i as int]);
                assert(ledger_balances(self.counts())[self.account_ids()[i as int]] == clamp_u64(
                    counter_value(self.accounts@[i as int].counter.view()),
                ));
                assert(out@[i as int].1 == ledger_balances(self.counts())[self.account_ids()[i as int]]);
                assert forall|j: int| 0 <= j < i implies out@[j] == before[j] by {}
            }
            i = i + 1;
        }
        Ok(out)
    }

    /// Merge the state of another replica into this one: every account of
    /// either, each counter merged node by node.
    pub fn merge(&mut self, other: &CRDTManaLedger) -> (r: Result<(), CommonError>)
        requires
            old(self).structure_ok(),
            other.structure_ok(),
        ensures
            r is Ok,
            final(self).structure_ok(),
            final(self).counts() == ledger_merge(old(self).counts(), other.counts()),
            final(self).node() == old(self).node(),
            final(self).recorded_views() == old(self).recorded_views(),
    {
        let ghost x = self.counts();
        let ghost t = account_pairs(other.accounts@);
        proof {
            assert(t.take(0) =~= Seq::<(Seq<char>, NodeCounts)>::empty());
            assert forall|k: Seq<char>| #[trigger] ledger_merge(x, assoc_map(t.take(0))).contains_key(k) implies ledger_merge(
                x,
                assoc_map(t.take(0)),
            )[k] == x[k] by {
                lemma_counter_merge_empty(x[k]);
            }
            assert(ledger_merge(x, assoc_map(t.take(0))) =~= x);
        }
        let mut j: usize = 0;
        while j < other.accounts.len()
            invariant
                self.structure_ok(),
                other.structure_ok(),
                j <= other.accounts@.len(),
                t == account_pairs(other.accounts@),
                self.counts() == ledger_merge(x, assoc_map(t.take(j as int))),
                self.node() == old(self).node(),
                self.recorded_views() == old(self).recorded_views(),
            decreases other.accounts@.len() - j,
        {
            proof {
                lemma_ledger_merge_step(x, t, j as int);
            }
            let mut c = self.counter_copy(&other.accounts[j].did);
            c.merge(&other.accounts[j].counter);
            self.put_counter(&other.accounts[j].did, c);
            j = j + 1;
        }
        proof {
            assert(t.take(t.len() as int) =~= t);
        }
        Ok(())
    }

    /// A ledger for replica `config.node_id`, starting from the configured
    /// balances (identifiers that do not parse are skipped). No events are
    /// recorded until a store is attached.
    pub fn new(config: CRDTManaLedgerConfig) -> (r: CRDTManaLedger)
        ensures
            r.structure_ok(),
            values_in_range(r.counts()),
            r.node() == config.node_id@,
            r.recorded_views() is None,
            config_keys_distinct(config.initial_balances@) ==> ledger_balances(r.counts()) == initial_balance_map(
                config.initial_balances@,
            ),
    {
        let mut ledger = CRDTManaLedger::empty(NodeId::new(config.node_id));
        let ghost s = config.initial_balances@;
        let mut i: usize = 0;
        proof {
            assert(s.take(0) =~= Seq::<(String, u64)>::empty());
            assert(ledger_balances(ledger.counts()) =~= initial_balance_map(s.take(0)));
        }
        while i < config.initial_balances.len()
            invariant
                s == config.initial_balances@,
                i <= s.len(),
                ledger.structure_ok(),
                values_in_range(ledger.counts()),
                ledger.node() == config.node_id@,
                ledger.recorded_views() is None,
                forall|k: Seq<char>| #[trigger] ledger.counts().contains_key(k) ==> exists|j: int|
                    0 <= j < i && #[trigger] s[j].0@ == k,
                config_keys_distinct(s) ==> ledger_balances(ledger.counts()) == initial_balance_map(s.take(i as int)),
            decreases s.len() - i,
        {
            let ghost before = ledger.counts();
            proof {
                assert(s.take(i + 1).drop_last() =~= s.take(i as int));
                assert(s.take(i + 1).last() == s[i as int]);
            }
            match Did::from_str(config.initial_balances[i].0.as_str()) {
                Ok(did) => {
                    let _ = ledger.set_balance(&did, config.initial_balances[i].1);
                    proof {
                        if config_keys_distinct(s) {
                            if before.contains_key(did@) {
                                let j = choose|j: int| 0 <= j < i && #[trigger] s[j].0@ == did@;
                                assert(s[j].0@ != s[i as int].0@);
                            }
                            assert(balance_in(ledger_balances(before), did@) == 0);
                            let amount = s[i as int].1;
                            let e = initial_balance_map(s.take(i as int));
                            let after = ledger_balances(ledger.counts());
                            assert(ledger_balances(before) == e);
                            assert(initial_balance_map(s.take(i + 1)) == if amount > 0 {
                                e.insert(did@, amount)
                            } else {
                                e
                            });
                            if amount > 0 {
                                assert(after.contains_key(did@));
                                assert forall|k: Seq<char>| #[trigger] after.contains_key(k) <==> e.insert(did@, amount).contains_key(k) by {
                                    if k != did@ {
                                        assert(after.contains_key(k) <==> e.contains_key(k));
                                    }
                                }
                                assert forall|k: Seq<char>| #[trigger] after.contains_key(k) implies after[k] == e.insert(did@, amount)[k] by {
                                    if k != did@ {
                                        assert(balance_in(after, k) == balance_in(e, k));
                                    }
                                }
                                assert(after =~= e.insert(did@, amount));
                            } else {
                                assert(ledger.counts() == before);
                            }
                        }
                        assert forall|k: Seq<char>| #[trigger] ledger.counts().contains_key(k) implies exists|j: int|
                            0 <= j < i + 1 && #[trigger] s[j].0@ == k by {
                            if k != did@ {
                                assert(ledger_balances(ledger.counts()).contains_key(k));
                                assert(ledger_balances(before).contains_key(k));
                                assert(before.contains_key(k));
                                let j = choose|j: int| 0 <= j < i && #[trigger] s[j].0@ == k;
                                assert(s[j].0@ == k);
                            } else {
                                assert(s[i as int].0@ == k);
                            }
                        }
                    }
                },
                Err(_) => {
                    proof {
                        if config_keys_distinct(s) {
                            assert(ledger_balances(ledger.counts()) =~= initial_balance_map(s.take(i + 1)));
                        }
                        assert forall|k: Seq<char>| #[trigger] ledger.counts().contains_key(k) implies exists|j: int|
                            0 <= j < i + 1 && #[trigger] s[j].0@ == k by {
                            let j = choose|j: int| 0 <= j < i && #[trigger] s[j].0@ == k;
                            assert(s[j].0@ == k);
                        }
                    }
                },
            }
            i = i + 1;
        }
        proof {
            assert(s.take(s.len() as int) =~= s);
        }
        ledger
    }

    /// A ledger for replica `node_id` without initial balances.
    pub fn with_node_id(node_id: String) -> (r: CRDTManaLedger)
        ensures
            r.structure_ok(),
            values_in_range(r.counts()),
            r.node() == node_id@,
            r.recorded_views() is None,
            r.counts() == Map::<Seq<char>, NodeCounts>::empty(),
    {
        CRDTManaLedger::empty(NodeId::new(node_id))
    }

    /// The ledger recording its operations in `event_store`.
    pub fn with_event_store(self, event_store: MemoryEventStore) -> (r: CRDTManaLedger)
        ensures
            r.counts() == self.counts(),
            r.structure_ok() == self.structure_ok(),
            r.node() == self.node(),
            r.recorded_views() == Some(events_view(event_store.spec_events())),
    {
        CRDTManaLedger { node_id: self.node_id, accounts: self.accounts, event_store: Some(event_store) }
    }

    /// The identifier of this replica.
    pub fn node_id(&self) -> (r: &NodeId)
        ensures
            r@ == self.node(),
    {
        &self.node_id
    }

    /// Statistics about the balances of this replica.
    pub fn get_stats(&self) -> (r: Result<CRDTManaLedgerStats, CommonError>)
        requires
            self.structure_ok(),
            balance_total(ledger_balances(self.counts())) <= u64::MAX,
        ensures
            r matches Ok(st) && stats_describe(st, ledger_balances(self.counts()), self.node()),
    {
        let ghost bp = account_pairs(self.accounts@);
        let ghost part = |c: NodeCounts| clamp_u64(counter_value(c)) as int;
        let ghost b = ledger_balances(self.counts());
        proof {
            self.lemma_ids();
        }
        let n = self.accounts.len();
        let mut total: u128 = 0;
        let mut max_balance: u64 = 0;
        let mut min_balance: u64 = 0;
        let mut i: usize = 0;
        while i < n
            invariant
                self.structure_ok(),
                n == self.accounts@.len(),
                bp == account_pairs(self.accounts@),
                part == (|c: NodeCounts| clamp_u64(counter_value(c)) as int),
                i <= n,
                total == seq_pairs_sum(bp.take(i as int), part),
                total <= i * 0xffff_ffff_ffff_ffffu128,
                i == 0 ==> max_balance == 0 && min_balance == 0,
                forall|j: int| 0 <= j < i ==> min_balance <= clamp_u64(counter_value(#[trigger] bp[j].1)) <= max_balance,
                i > 0 ==> exists|j: int| 0 <= j < i && clamp_u64(counter_value(#[trigger] bp[j].1)) == max_balance,
                i > 0 ==> exists|j: int| 0 <= j < i && clamp_u64(counter_value(#[trigger] bp[j].1)) == min_balance,
            decreases n - i,
        {
            let v = self.accounts[i].counter.value();
            proof {
                assert(bp.take(i + 1).drop_last() =~= bp.take(i as int));
                assert(bp.take(i + 1).last() == bp[i as int]);
                assert(bp[i as int].1 == self.accounts@[i as int].counter.view());
                assert(seq_pairs_sum(bp.take(i + 1), part) == seq_pairs_sum(bp.take(i as int), part) + part(bp[i as int].1));
                assert(part(bp[i as int].1) == clamp_u64(counter_value(bp[i as int].1)) as int);
                assert(v == clamp_u64(counter_value(self.accounts@[i as int].counter.view())));
                assert((i + 1) * 0xffff_ffff_ffff_ffffu128 == i * 0xffff_ffff_ffff_ffffu128 + 0xffff_ffff_ffff_ffffu128)
                    by (nonlinear_arith);
                assert((i + 1) * 0xffff_ffff_ffff_ffffu128 <= 0xffff_ffff_ffff_ffffu128 * 0xffff_ffff_ffff_ffffu128)
                    by (nonlinear_arith)
                    requires
                        i < 0xffff_ffff_ffff_ffffu128,
                ;
            }
            total = total + v as u128;
            if i == 0 {
                max_balance = v;
                min_balance = v;
            } else {
                if v > max_balance {
                    max_balance = v;
                }
                if v < min_balance {
                    min_balance = v;
                }
            }
            i = i + 1;
        }
        proof {
            assert(bp.take(n as int) =~= bp);
            lemma_seq_pairs_sum(bp, part);
            lemma_assoc_len(bp);
            assert(b.dom() =~= self.counts().dom());
            lemma_map_sum_agree(self.counts(), b, part, |v: u64| v as int);
            assert forall|k: Seq<char>| #[trigger] b.contains_key(k) implies min_balance <= b[k] <= max_balance by {
                assert(self.account_ids().contains(k));
                let j = choose|j: int| 0 <= j < self.account_ids().len() && self.account_ids()[j] == k;
                assert(bp[j].1 == self.accounts@[j].counter.view());
                assert(min_balance <= clamp_u64(counter_value(bp[j].1)) <= max_balance);
            }
            if n > 0 {
                let j = choose|j: int| 0 <= j < n && clamp_u64(counter_value(#[trigger] bp[j].1)) == max_balance;
                assert(bp[j].1 == self.accounts@[j].counter.view());
                assert(self.counts().contains_key(self.account_ids()[j]));
                assert(b.contains_key(self.account_ids()[j]) && b[self.account_ids()[j]] == max_balance);
                let j2 = choose|j: int| 0 <= j < n && clamp_u64(counter_value(#[trigger] bp[j].1)) == min_balance;
                assert(bp[j2].1 == self.accounts@[j2].counter.view());
                assert(self.counts().contains_key(self.account_ids()[j2]));
                assert(b.contains_key(self.account_ids()[j2]) && b[self.account_ids()[j2]] == min_balance);
            }
        }
        let account_count = n as u64;
        let total_mana = total as u64;
        let average_balance = if account_count > 0 {
            total_mana / account_count
        } else {
            0
        };
        Ok(
            CRDTManaLedgerStats {
                account_count,
                total_mana,
                average_balance,
                max_balance,
                min_balance,
                node_id: self.node_id.duplicate(),
            },
        )
    }

    /// The balance of `did`: its counter's value clamped to the range of
    /// `u64`; an unknown account has none.
    pub fn balance_of(&self, did: &Did) -> (r: u64)
        requires
            self.structure_ok(),
        ensures
            r == balance_in(ledger_balances(self.counts()), did@),
    {
        match self.find_account(did) {
            Some(i) => self.accounts[i].counter.value(),
            None => 0,
        }
    }
}

/// A credit of `amount` to `k` by replica `node` fits: the balance and the
/// replica's count of credits stay within the range of `u64`.
pub open spec fn credit_fits(m: LedgerCounts, node: Seq<char>, k: Seq<char>, amount: u64) -> bool {
    &&& balance_in(ledger_balances(m), k) + amount <= u64::MAX
    &&& counts_of(counter_or_empty(m, k), node).0 + amount <= u64::MAX
}

/// A debit of `amount` from `k` by replica `node` fits: the balance covers
/// it and the replica's count of debits stays within the range of `u64`.
pub open spec fn debit_fits(m: LedgerCounts, node: Seq<char>, k: Seq<char>, amount: u64) -> bool {
    &&& amount <= balance_in(ledger_balances(m), k)
    &&& counts_of(counter_or_empty(m, k), node).1 + amount <= u64::MAX
}

/// Setting the balance of `k` to `amount` fits: the credit or debit of the
/// difference fits.
pub open spec fn set_fits(m: LedgerCounts, node: Seq<char>, k: Seq<char>, amount: u64) -> bool {
    let current = balance_in(ledger_balances(m), k);
    if amount > current {
        credit_fits(m, node, k, (amount - current) as u64)
    } else if amount < current {
        debit_fits(m, node, k, (current - amount) as u64)
    } else {
        true
    }
}

impl ManaLedger for CRDTManaLedger {
    open spec fn balances(&self) -> Map<Seq<char>, u64> {
        ledger_balances(self.counts())
    }

    open spec fn well_formed(&self) -> bool {
        self.structure_ok() && values_in_range(self.counts())
    }

    open spec fn account_order(&self) -> Seq<Seq<char>> {
        self.account_ids()
    }

    fn get_balance(&self, did: &Did) -> (r: u64) {
        self.balance_of(did)
    }

    fn set_balance(&mut self, did: &Did, amount: u64) -> (r: Result<(), CommonError>)
        ensures
            r is Ok <==> set_fits(old(self).counts(), old(self).node(), did@, amount),
    {
        CRDTManaLedger::set_balance(self, did, amount)
    }

    fn spend(&mut self, did: &Did, amount: u64) -> (r: Result<(), CommonError>)
        ensures
            r is Ok <==> debit_fits(old(self).counts(), old(self).node(), did@, amount),
            balance_in(ledger_balances(old(self).counts()), did@) < amount ==> (r matches Err(
                CommonError::InsufficientFunds(_),
            )),
    {
        CRDTManaLedger::spend(self, did, amount)
    }

    fn credit(&mut self, did: &Did, amount: u64) -> (r: Result<(), CommonError>)
        ensures
            r is Ok <==> credit_fits(old(self).counts(), old(self).node(), did@, amount),
    {
        CRDTManaLedger::credit(self, did, amount)
    }

    fn credit_all(&mut self, amount: u64) -> (r: Result<(), CommonError>)
        ensures
            (forall|k: Seq<char>|
                #[trigger] old(self).counts().contains_key(k) ==> credit_fits(old(self).counts(), old(self).node(), k, amount))
                ==> r is Ok,
    {
        CRDTManaLedger::credit_all(self, amount)
    }

    fn all_accounts(&self) -> (r: Vec<Did>) {
        CRDTManaLedger::all_accounts(self)
    }
}

} // verus!
