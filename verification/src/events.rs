//! Ledger events, the in-memory event store that records them, replaying them
//! into balances, and the flow statistics derived from them.

use vstd::prelude::*;
use crate::assoc::{keys_distinct, assoc_map, lemma_assoc_index, lemma_assoc_absent, lemma_assoc_update, lemma_assoc_push};
use crate::did::Did;
use crate::error::CommonError;
use crate::mana_ledger::{AccountEntry, entry_pairs, find_account, balance_in};

verus! {

/// A change to a mana balance.
#[derive(Debug)]
pub enum LedgerEvent {
    Credit { did: Did, amount: u64 },
    Debit { did: Did, amount: u64 },
    SetBalance { did: Did, amount: u64 },
}

/// What an event means: its kind (0 credit, 1 debit, 2 set), account and amount.
pub open spec fn event_view(e: LedgerEvent) -> (int, Seq<char>, u64) {
    match e {
        LedgerEvent::Credit { did, amount } => (0, did@, amount),
        LedgerEvent::Debit { did, amount } => (1, did@, amount),
        LedgerEvent::SetBalance { did, amount } => (2, did@, amount),
    }
}

/// The meanings of a sequence of events.
pub open spec fn events_view(s: Seq<LedgerEvent>) -> Seq<(int, Seq<char>, u64)> {
    s.map_values(|e: LedgerEvent| event_view(e))
}

/// Balance held for `k` in `m` as a mathematical integer.
pub open spec fn bal(m: Map<Seq<char>, int>, k: Seq<char>) -> int {
    if m.contains_key(k) {
        m[k]
    } else {
        0
    }
}

/// The balances that replaying `evs` from nothing produces: a credit adds, a
/// debit subtracts but never below zero, a set replaces.
pub open spec fn replay(evs: Seq<(int, Seq<char>, u64)>) -> Map<Seq<char>, int>
    decreases evs.len(),
{
    if evs.len() == 0 {
        Map::empty()
    } else {
        let m = replay(evs.drop_last());
        let (kind, k, a) = evs.last();
        if kind == 0 {
            m.insert(k, bal(m, k) + a)
        } else if kind == 1 {
            m.insert(k, if bal(m, k) >= a { bal(m, k) - a } else { 0 })
        } else {
            m.insert(k, a as int)
        }
    }
}

/// Replaying every prefix of `evs` keeps each balance within a `u64`.
pub open spec fn replay_fits(evs: Seq<(int, Seq<char>, u64)>) -> bool {
    forall|i: int, k: Seq<char>|
        0 <= i <= evs.len() ==> #[trigger] bal(replay(evs.take(i)), k) <= u64::MAX
}

/// Replayed balances are never negative.
pub proof fn lemma_replay_nonneg(evs: Seq<(int, Seq<char>, u64)>, k: Seq<char>)
    ensures
        bal(replay(evs), k) >= 0,
    decreases evs.len(),
{
    if evs.len() > 0 {
        lemma_replay_nonneg(evs.drop_last(), k);
        lemma_replay_nonneg(evs.drop_last(), evs.last().1);
    }
}

/// An append-only store of ledger events kept in memory.
#[derive(Debug)]
pub struct MemoryEventStore {
    events: Vec<LedgerEvent>,
}

impl MemoryEventStore {
    /// The recorded events, oldest first.
    pub closed spec fn spec_events(&self) -> Seq<LedgerEvent> {
        self.events@
    }

    /// An empty store.
    pub fn new() -> (r: MemoryEventStore)
        ensures
            r.spec_events() == Seq::<LedgerEvent>::empty(),
    {
        MemoryEventStore { events: Vec::new() }
    }

    /// Append an event.
    pub fn append(&mut self, event: LedgerEvent) -> (r: Result<(), CommonError>)
        ensures
            r is Ok,
            final(self).spec_events() == old(self).spec_events().push(event),
    {
        self.events.push(event);
        Ok(())
    }

    /// All recorded events, oldest first.
    pub fn query(&self) -> (r: &Vec<LedgerEvent>)
        ensures
            r@ == self.spec_events(),
    {
        &self.events
    }

    /// Number of recorded events.
    pub fn len(&self) -> (r: usize)
        ensures
            r == self.spec_events().len(),
    {
        self.events.len()
    }
}

/// Store `amount` for `did` in an account list.
pub(crate) fn put_entry(entries: &mut Vec<AccountEntry>, did: &Did, amount: u64)
    requires
        keys_distinct(entry_pairs(old(entries)@)),
    ensures
        keys_distinct(entry_pairs(final(entries)@)),
        assoc_map(entry_pairs(final(entries)@)) == assoc_map(entry_pairs(old(entries)@)).insert(did@, amount),
{
    let ghost p = entry_pairs(entries@);
    match find_account(entries, did) {
        Some(i) => {
            proof {
                lemma_assoc_update(p, i as int, amount);
            }
            entries.set(i, AccountEntry { did: did.duplicate(), balance: amount });
            assert(entry_pairs(entries@) =~= p.update(i as int, (did@, amount)));
        },
        None => {
            proof {
                assert forall|j: int| 0 <= j < p.len() implies #[trigger] p[j].0 != did@ by {
                    assert(p[j].0 == old(entries)@[j].did@);
                }
                lemma_assoc_push(p, did@, amount);
            }
            entries.push(AccountEntry { did: did.duplicate(), balance: amount });
            assert(entry_pairs(entries@) =~= p.push((did@, amount)));
        },
    }
}

/// Read the amount stored for `did`, zero if absent.
pub(crate) fn get_entry(entries: &Vec<AccountEntry>, did: &Did) -> (r: u64)
    requires
        keys_distinct(entry_pairs(entries@)),
    ensures
        r == balance_in(assoc_map(entry_pairs(entries@)), did@),
{
    let ghost p = entry_pairs(entries@);
    match find_account(entries, did) {
        Some(i) => {
            proof {
                lemma_assoc_index(p, i as int);
            }
            entries[i].balance
        },
        None => {
            proof {
                assert forall|j: int| 0 <= j < p.len() implies #[trigger] p[j].0 != did@ by {
                    assert(p[j].0 == entries@[j].did@);
                }
                lemma_assoc_absent(p, did@);
            }
            0
        },
    }
}

/// Balances obtained by applying `events` in order to empty accounts: a credit
/// adds, a debit subtracts without going below zero, a set replaces. Each
/// account that an event names appears once, in order of first mention.
pub fn balances_from_events(events: &[LedgerEvent]) -> (r: Vec<AccountEntry>)
    requires
        replay_fits(events_view(events@)),
    ensures
        keys_distinct(entry_pairs(r@)),
        forall|k: Seq<char>| #[trigger] assoc_map(entry_pairs(r@)).contains_key(k)
            <==> replay(events_view(events@)).contains_key(k),
        forall|k: Seq<char>| #[trigger] balance_in(assoc_map(entry_pairs(r@)), k)
            == bal(replay(events_view(events@)), k),
{
    let ghost evs = events_view(events@);
    let mut out: Vec<AccountEntry> = Vec::new();
    let mut i: usize = 0;
    proof {
        assert(entry_pairs(out@) =~= Seq::<(Seq<char>, u64)>::empty());
        assert(evs.take(0) =~= Seq::<(int, Seq<char>, u64)>::empty());
    }
    while i < events.len()
        invariant
            i <= events@.len(),
            evs == events_view(events@),
            replay_fits(evs),
            keys_distinct(entry_pairs(out@)),
            forall|k: Seq<char>| #[trigger] assoc_map(entry_pairs(out@)).contains_key(k)
                <==> replay(evs.take(i as int)).contains_key(k),
            forall|k: Seq<char>| #[trigger] balance_in(assoc_map(entry_pairs(out@)), k)
                == bal(replay(evs.take(i as int)), k),
        decreases events@.len() - i,
    {
        let ghost pre = evs.take(i as int);
        proof {
            assert(evs.take(i + 1).drop_last() =~= pre);
            assert(evs.take(i + 1).last() == event_view(events@[i as int]));
            assert(bal(replay(evs.take(i + 1)), evs[i as int].1) <= u64::MAX);
            lemma_replay_nonneg(pre, evs[i as int].1);
        }
        let ghost old_map = assoc_map(entry_pairs(out@));
        let ghost rp = replay(pre);
        let (did, newv): (&Did, u64) = match &events[i] {
            LedgerEvent::Credit { did, amount } => {
                let cur = get_entry(&out, did);
                assert(cur + *amount == bal(replay(evs.take(i + 1)), did@));
                (did, cur + *amount)
            },
            LedgerEvent::Debit { did, amount } => {
                let cur = get_entry(&out, did);
                (did, cur.saturating_sub(*amount))
            },
            LedgerEvent::SetBalance { did, amount } => {
                (did, *amount)
            },
        };
        put_entry(&mut out, did, newv);
        proof {
            let rn = replay(evs.take(i + 1));
            assert(rn == rp.insert(did@, newv as int));
            assert forall|k: Seq<char>| #[trigger] balance_in(assoc_map(entry_pairs(out@)), k) == bal(rn, k) by {
                assert(balance_in(old_map, k) == bal(rp, k));
            }
            assert forall|k: Seq<char>| #[trigger] assoc_map(entry_pairs(out@)).contains_key(k) <==> rn.contains_key(k) by {
                assert(old_map.contains_key(k) <==> rp.contains_key(k));
            }
        }
        i = i + 1;
    }
    assert(evs.take(events@.len() as int) =~= evs);
    out
}

/// Mana that entered and left one account.
#[derive(Debug, Clone, Copy, PartialEq, Eq, Default)]
pub struct FlowStats {
    pub inflow: u64,
    pub outflow: u64,
}

/// Total credited (`kind` 0) or debited (`kind` 1) to `k` by `evs`.
pub open spec fn flow_total(evs: Seq<(int, Seq<char>, u64)>, kind: int, k: Seq<char>) -> int
    decreases evs.len(),
{
    if evs.len() == 0 {
        0
    } else {
        flow_total(evs.drop_last(), kind, k) + if evs.last().0 == kind && evs.last().1 == k {
            evs.last().2 as int
        } else {
            0
        }
    }
}

/// Flow totals grow with the prefix of events.
pub proof fn lemma_flow_monotone(evs: Seq<(int, Seq<char>, u64)>, i: int, kind: int, k: Seq<char>)
    requires
        0 <= i <= evs.len(),
    ensures
        0 <= flow_total(evs.take(i), kind, k) <= flow_total(evs, kind, k),
    decreases evs.len() - i,
{
    if i < evs.len() {
        lemma_flow_monotone(evs, i + 1, kind, k);
        assert(evs.take(i + 1).drop_last() =~= evs.take(i));
        lemma_flow_nonneg(evs.take(i), kind, k);
    } else {
        assert(evs.take(i) =~= evs);
        lemma_flow_nonneg(evs, kind, k);
    }
}

/// Flow totals are never negative.
pub proof fn lemma_flow_nonneg(evs: Seq<(int, Seq<char>, u64)>, kind: int, k: Seq<char>)
    ensures
        flow_total(evs, kind, k) >= 0,
    decreases evs.len(),
{
    if evs.len() > 0 {
        lemma_flow_nonneg(evs.drop_last(), kind, k);
    }
}

/// Position of the flows of `did` in `flows`, if it is there.
fn find_flow(flows: &Vec<FlowEntry>, did: &Did) -> (r: Option<usize>)
    ensures
        r matches Some(i) ==> i < flows@.len() && flows@[i as int].did@ == did@,
        r is None ==> forall|j: int| 0 <= j < flows@.len() ==> #[trigger] flows@[j].did@ != did@,
{
    let mut i: usize = 0;
    while i < flows.len()
        invariant
            i <= flows@.len(),
            forall|j: int| 0 <= j < i ==> #[trigger] flows@[j].did@ != did@,
        decreases flows@.len() - i,
    {
        if flows[i].did.same_as(did) {
            return Some(i);
        }
        i = i + 1;
    }
    None
}

/// One account and its flows.
#[derive(Debug)]
pub struct FlowEntry {
    pub did: Did,
    pub stats: FlowStats,
}

/// Reads flows of mana out of an event store.
#[derive(Debug)]
pub struct LedgerExplorer {
    store: MemoryEventStore,
}

impl LedgerExplorer {
    /// The events the explorer reads.
    pub closed spec fn spec_events(&self) -> Seq<LedgerEvent> {
        self.store.spec_events()
    }

    /// Explore the events of `store`.
    pub fn new(store: MemoryEventStore) -> (r: LedgerExplorer)
        ensures
            r.spec_events() == store.spec_events(),
    {
        LedgerExplorer { store }
    }

    /// Inflow and outflow of every account that a credit or debit names, in
    /// order of first mention; set-balance events count for neither.
    pub fn aggregated_flows(&self) -> (r: Result<Vec<FlowEntry>, CommonError>)
        requires
            forall|k: Seq<char>, kind: int| #[trigger] flow_total(events_view(self.spec_events()), kind, k) <= u64::MAX,
        ensures
            r is Ok,
            r matches Ok(v) ==> flows_describe(v@, self.spec_events()),
    {
        let events = self.store.query();
        let ghost evs = events_view(events@);
        let mut out: Vec<FlowEntry> = Vec::new();
        let mut i: usize = 0;
        while i < events.len()
            invariant
                i <= events@.len(),
                evs == events_view(events@),
                events@ == self.spec_events(),
                forall|k: Seq<char>, kind: int| #[trigger] flow_total(evs, kind, k) <= u64::MAX,
                flows_describe(out@, events@.take(i as int)),
            decreases events@.len() - i,
        {
            proof {
                assert(events@.take(i + 1).drop_last() =~= events@.take(i as int));
            }
            let (kind, did, amount): (u8, &Did, u64) = match &events[i] {
                LedgerEvent::Credit { did, amount } => (0, did, *amount),
                LedgerEvent::Debit { did, amount } => (1, did, *amount),
                LedgerEvent::SetBalance { did, amount } => (2, did, *amount),
            };
            assert(event_view(events@[i as int]) == (kind as int, did@, amount));
            if kind < 2 {
                proof {
                    lemma_flow_step(events@, i as int, kind as int, did@);
                    lemma_flow_monotone(evs, i + 1, kind as int, did@);
                    assert(events_view(events@.take(i + 1)) =~= evs.take(i + 1));
                }
                let ghost before = out@;
                match find_flow(&out, did) {
                    Some(pos) => {
                        let st = out[pos].stats;
                        let nst = if kind == 0 {
                            FlowStats { inflow: st.inflow + amount, outflow: st.outflow }
                        } else {
                            FlowStats { inflow: st.inflow, outflow: st.outflow + amount }
                        };
                        let d = out[pos].did.duplicate();
                        out.set(pos, FlowEntry { did: d, stats: nst });
                        proof {
                            lemma_flows_bump(before, events@, i as int, pos as int);
                        }
                    },
                    None => {
                        proof {
                            lemma_flows_absent_zero(before, events@.take(i as int), did@);
                        }
                        let nst = if kind == 0 {
                            FlowStats { inflow: amount, outflow: 0 }
                        } else {
                            FlowStats { inflow: 0, outflow: amount }
                        };
                        out.push(FlowEntry { did: did.duplicate(), stats: nst });
                        proof {
                            lemma_flows_new(before, events@, i as int, out@.last());
                        }
                    },
                }
            } else {
                proof {
                    lemma_flows_skip(out@, events@, i as int);
                }
            }
            i = i + 1;
        }
        assert(events@.take(events@.len() as int) =~= events@);
        Ok(out)
    }

    /// The flows of one account; zero flows for an account no event names.
    pub fn stats_for(&self, did: &Did) -> (r: Result<FlowStats, CommonError>)
        requires
            forall|k: Seq<char>, kind: int| #[trigger] flow_total(events_view(self.spec_events()), kind, k) <= u64::MAX,
        ensures
            r matches Ok(s) ==> s.inflow == flow_total(events_view(self.spec_events()), 0, did@)
                && s.outflow == flow_total(events_view(self.spec_events()), 1, did@),
            r is Ok,
    {
        let flows = match self.aggregated_flows() {
            Ok(v) => v,
            Err(e) => {
                return Err(e);
            },
        };
        let mut j: usize = 0;
        while j < flows.len()
            invariant
                j <= flows@.len(),
                forall|a: int| 0 <= a < j ==> #[trigger] flows@[a].did@ != did@,
                flows_describe(flows@, self.spec_events()),
            decreases flows@.len() - j,
        {
            if flows[j].did.same_as(did) {
                let st = flows[j].stats;
                assert(st.inflow == flows@[j as int].stats.inflow);
                assert(flows@[j as int].stats.inflow == flow_total(events_view(self.spec_events()), 0, flows@[j as int].did@));
                assert(flows@[j as int].stats.outflow == flow_total(events_view(self.spec_events()), 1, flows@[j as int].did@));
                return Ok(st);
            }
            j = j + 1;
        }
        proof {
            let evs = events_view(self.spec_events());
            lemma_flows_absent_zero(flows@, self.spec_events(), did@);
        }
        Ok(FlowStats { inflow: 0, outflow: 0 })
    }
}

/// `v` lists, each once, exactly the accounts that a credit or debit of
/// `evs` names, with their total inflow and outflow.
pub open spec fn flows_describe(v: Seq<FlowEntry>, evs: Seq<LedgerEvent>) -> bool {
    &&& forall|a: int, b: int| 0 <= a < b < v.len() ==> #[trigger] v[a].did@ != #[trigger] v[b].did@
    &&& forall|j: int| 0 <= j < v.len() ==> {
        &&& #[trigger] v[j].stats.inflow == flow_total(events_view(evs), 0, v[j].did@)
        &&& v[j].stats.outflow == flow_total(events_view(evs), 1, v[j].did@)
    }
    &&& forall|x: int| 0 <= x < evs.len() && event_view(evs[x]).0 < 2 ==> exists|a: int|
        0 <= a < v.len() && #[trigger] v[a].did@ == event_view(#[trigger] evs[x]).1
}

/// The flows after one more event differ from those before only where that
/// event adds to them.
pub proof fn lemma_flow_step(s: Seq<LedgerEvent>, i: int, kind: int, k: Seq<char>)
    requires
        0 <= i < s.len(),
    ensures
        flow_total(events_view(s.take(i + 1)), kind, k) == flow_total(events_view(s.take(i)), kind, k) + if event_view(
            s[i],
        ).0 == kind && event_view(s[i]).1 == k {
            event_view(s[i]).2 as int
        } else {
            0
        },
{
    assert(events_view(s.take(i + 1)).drop_last() =~= events_view(s.take(i)));
    assert(events_view(s.take(i + 1)).last() == event_view(s[i]));
}

/// A set-balance event leaves the flows as they were.
proof fn lemma_flows_skip(v: Seq<FlowEntry>, s: Seq<LedgerEvent>, i: int)
    requires
        0 <= i < s.len(),
        flows_describe(v, s.take(i)),
        event_view(s[i]).0 == 2,
    ensures
        flows_describe(v, s.take(i + 1)),
{
    assert forall|j: int| 0 <= j < v.len() implies {
        &&& #[trigger] v[j].stats.inflow == flow_total(events_view(s.take(i + 1)), 0, v[j].did@)
        &&& v[j].stats.outflow == flow_total(events_view(s.take(i + 1)), 1, v[j].did@)
    } by {
        lemma_flow_step(s, i, 0, v[j].did@);
        lemma_flow_step(s, i, 1, v[j].did@);
        assert(v[j].stats.inflow == flow_total(events_view(s.take(i)), 0, v[j].did@));
        assert(v[j].stats.outflow == flow_total(events_view(s.take(i)), 1, v[j].did@));
    }
    assert forall|x: int| 0 <= x < s.take(i + 1).len() && event_view(s.take(i + 1)[x]).0 < 2 implies exists|a: int|
        0 <= a < v.len() && #[trigger] v[a].did@ == event_view(#[trigger] s.take(i + 1)[x]).1 by {
        assert(s.take(i + 1)[x] == s.take(i)[x]);
    }
}

/// Credit or debit to an account already listed at `pos`.
proof fn lemma_flows_bump(v: Seq<FlowEntry>, s: Seq<LedgerEvent>, i: int, pos: int)
    requires
        0 <= i < s.len(),
        flows_describe(v, s.take(i)),
        event_view(s[i]).0 < 2,
        0 <= pos < v.len(),
        v[pos].did@ == event_view(s[i]).1,
        flow_total(events_view(s.take(i + 1)), event_view(s[i]).0, event_view(s[i]).1) <= u64::MAX,
    ensures
        ({
            let (kind, k, a) = event_view(s[i]);
            let nst = if kind == 0 {
                FlowStats { inflow: (v[pos].stats.inflow + a) as u64, outflow: v[pos].stats.outflow }
            } else {
                FlowStats { inflow: v[pos].stats.inflow, outflow: (v[pos].stats.outflow + a) as u64 }
            };
            forall|d: Did| d@ == k ==> flows_describe(
                v.update(pos, FlowEntry { did: d, stats: nst }),
                s.take(i + 1),
            )
        }),
{
    let (kind, k, a) = event_view(s[i]);
    assert forall|d: Did| d@ == k implies flows_describe(
        v.update(pos, FlowEntry { did: d, stats: if kind == 0 {
            FlowStats { inflow: (v[pos].stats.inflow + a) as u64, outflow: v[pos].stats.outflow }
        } else {
            FlowStats { inflow: v[pos].stats.inflow, outflow: (v[pos].stats.outflow + a) as u64 }
        } }),
        s.take(i + 1),
    ) by {
        let nst = if kind == 0 {
            FlowStats { inflow: (v[pos].stats.inflow + a) as u64, outflow: v[pos].stats.outflow }
        } else {
            FlowStats { inflow: v[pos].stats.inflow, outflow: (v[pos].stats.outflow + a) as u64 }
        };
        let u = v.update(pos, FlowEntry { did: d, stats: nst });
        assert forall|x: int, y: int| 0 <= x < y < u.len() implies #[trigger] u[x].did@ != #[trigger] u[y].did@ by {
            assert(u[x].did@ == v[x].did@ && u[y].did@ == v[y].did@);
        }
        assert forall|j: int| 0 <= j < u.len() implies {
            &&& #[trigger] u[j].stats.inflow == flow_total(events_view(s.take(i + 1)), 0, u[j].did@)
            &&& u[j].stats.outflow == flow_total(events_view(s.take(i + 1)), 1, u[j].did@)
        } by {
            lemma_flow_step(s, i, 0, u[j].did@);
            lemma_flow_step(s, i, 1, u[j].did@);
            assert(v[j].stats.inflow == flow_total(events_view(s.take(i)), 0, v[j].did@));
            assert(v[j].stats.outflow == flow_total(events_view(s.take(i)), 1, v[j].did@));
            if j != pos {
                assert(u[j] == v[j]);
                if j < pos {
                    assert(v[j].did@ != v[pos].did@);
                } else {
                    assert(v[pos].did@ != v[j].did@);
                }
            } else {
                lemma_flow_nonneg(events_view(s.take(i)), 0, k);
            }
        }
        assert forall|x: int| 0 <= x < s.take(i + 1).len() && event_view(s.take(i + 1)[x]).0 < 2 implies exists|b: int|
            0 <= b < u.len() && #[trigger] u[b].did@ == event_view(#[trigger] s.take(i + 1)[x]).1 by {
            if x == i {
                assert(u[pos].did@ == k);
            } else {
                assert(s.take(i + 1)[x] == s.take(i)[x]);
                let b = choose|b: int| 0 <= b < v.len() && #[trigger] v[b].did@ == event_view(s.take(i)[x]).1;
                assert(u[b].did@ == v[b].did@);
            }
        }
    }
}

/// An account not yet listed has no flows so far.
proof fn lemma_flows_absent_zero(v: Seq<FlowEntry>, s: Seq<LedgerEvent>, k: Seq<char>)
    requires
        flows_describe(v, s),
        forall|j: int| 0 <= j < v.len() ==> #[trigger] v[j].did@ != k,
    ensures
        flow_total(events_view(s), 0, k) == 0,
        flow_total(events_view(s), 1, k) == 0,
{
    assert forall|x: int| 0 <= x < s.len() && event_view(s[x]).0 < 2 implies event_view(#[trigger] s[x]).1 != k by {
        if event_view(s[x]).1 == k {
            let b = choose|b: int| 0 <= b < v.len() && #[trigger] v[b].did@ == event_view(s[x]).1;
            assert(v[b].did@ != k);
        }
    }
    lemma_flow_absent(s, k);
}

/// A credit or debit to an account not yet listed appends it.
proof fn lemma_flows_new(v: Seq<FlowEntry>, s: Seq<LedgerEvent>, i: int, e: FlowEntry)
    requires
        0 <= i < s.len(),
        flows_describe(v, s.take(i)),
        event_view(s[i]).0 < 2,
        forall|j: int| 0 <= j < v.len() ==> #[trigger] v[j].did@ != event_view(s[i]).1,
        flow_total(events_view(s.take(i)), 0, event_view(s[i]).1) == 0,
        flow_total(events_view(s.take(i)), 1, event_view(s[i]).1) == 0,
        e.did@ == event_view(s[i]).1,
        e.stats.inflow == if event_view(s[i]).0 == 0 { event_view(s[i]).2 } else { 0 },
        e.stats.outflow == if event_view(s[i]).0 == 1 { event_view(s[i]).2 } else { 0 },
    ensures
        flows_describe(v.push(e), s.take(i + 1)),
{
    let (kind, k, a) = event_view(s[i]);
    let u = v.push(e);
    assert forall|x: int, y: int| 0 <= x < y < u.len() implies #[trigger] u[x].did@ != #[trigger] u[y].did@ by {
        if y == v.len() {
            assert(u[x] == v[x]);
        } else {
            assert(u[x] == v[x] && u[y] == v[y]);
        }
    }
    assert forall|j: int| 0 <= j < u.len() implies {
        &&& #[trigger] u[j].stats.inflow == flow_total(events_view(s.take(i + 1)), 0, u[j].did@)
        &&& u[j].stats.outflow == flow_total(events_view(s.take(i + 1)), 1, u[j].did@)
    } by {
        lemma_flow_step(s, i, 0, u[j].did@);
        lemma_flow_step(s, i, 1, u[j].did@);
        if j < v.len() {
            assert(u[j] == v[j]);
        }
    }
    assert forall|x: int| 0 <= x < s.take(i + 1).len() && event_view(s.take(i + 1)[x]).0 < 2 implies exists|b: int|
        0 <= b < u.len() && #[trigger] u[b].did@ == event_view(#[trigger] s.take(i + 1)[x]).1 by {
        if x == i {
            assert(u[v.len() as int].did@ == k);
        } else {
            assert(s.take(i + 1)[x] == s.take(i)[x]);
            let b = choose|b: int| 0 <= b < v.len() && #[trigger] v[b].did@ == event_view(s.take(i)[x]).1;
            assert(u[b] == v[b]);
        }
    }
}

/// An account that no credit or debit names has no flows.
pub proof fn lemma_flow_absent(s: Seq<LedgerEvent>, k: Seq<char>)
    requires
        forall|x: int| 0 <= x < s.len() && event_view(s[x]).0 < 2 ==> event_view(#[trigger] s[x]).1 != k,
    ensures
        flow_total(events_view(s), 0, k) == 0,
        flow_total(events_view(s), 1, k) == 0,
    decreases s.len(),
{
    if s.len() > 0 {
        lemma_flow_absent(s.drop_last(), k);
        assert(events_view(s).drop_last() =~= events_view(s.drop_last()));
        assert(events_view(s).last() == event_view(s[s.len() - 1]));
    }
}

} // verus!
