//! The resource repository adapter: token operations authorised per scope,
//! with a log of the token events to be written to the DAG.

use vstd::prelude::*;
use vstd::string::*;
use crate::did::Did;
use crate::error::CommonError;
use crate::resource_ledger::{ResourceLedger, TokenClassId, token_balance, transferred, transfer_allowed, dids_view, contains_did};

verus! {

/// A scope in which issuers are authorised.
#[derive(Debug)]
pub struct NodeScope {
    pub name: String,
}

impl NodeScope {
    /// The name of the scope.
    pub open spec fn view(&self) -> Seq<char> {
        self.name@
    }

    /// A scope named `name`.
    pub fn new(name: &str) -> (r: NodeScope)
        ensures
            r.view() == name@,
    {
        NodeScope { name: String::from_str(name) }
    }

    /// A copy of the scope.
    pub fn duplicate(&self) -> (r: NodeScope)
        ensures
            r.view() == self.view(),
    {
        NodeScope { name: self.name.clone() }
    }
}

/// The name of an optional scope.
pub open spec fn scope_view(s: Option<NodeScope>) -> Option<Seq<char>> {
    match s {
        Some(x) => Some(x.view()),
        None => None,
    }
}

/// A copy of an optional scope.
pub fn duplicate_scope(s: &Option<NodeScope>) -> (r: Option<NodeScope>)
    ensures
        scope_view(r) == scope_view(*s),
{
    match s {
        Some(x) => Some(x.duplicate()),
        None => None,
    }
}

/// Events emitted when resource token balances change.
#[derive(Debug)]
pub enum TokenEvent {
    Mint { class_id: String, amount: u64, issuer: Did, recipient: Did, scope: Option<NodeScope> },
    Burn { class_id: String, amount: u64, issuer: Did, owner: Did, scope: Option<NodeScope> },
    Transfer { class_id: String, amount: u64, issuer: Did, from: Did, to: Did, scope: Option<NodeScope> },
}

/// What a token event says: kind (0 mint, 1 burn, 2 transfer), class,
/// amount, issuer, the account tokens leave (none for a mint), the account
/// tokens reach (none for a burn), and scope.
pub open spec fn token_event_view(e: TokenEvent) -> (
    int,
    Seq<char>,
    u64,
    Seq<char>,
    Option<Seq<char>>,
    Option<Seq<char>>,
    Option<Seq<char>>,
) {
    match e {
        TokenEvent::Mint { class_id, amount, issuer, recipient, scope } => (
            0,
            class_id@,
            amount,
            issuer@,
            None,
            Some(recipient@),
            scope_view(scope),
        ),
        TokenEvent::Burn { class_id, amount, issuer, owner, scope } => (
            1,
            class_id@,
            amount,
            issuer@,
            Some(owner@),
            None,
            scope_view(scope),
        ),
        TokenEvent::Transfer { class_id, amount, issuer, from, to, scope } => (
            2,
            class_id@,
            amount,
            issuer@,
            Some(from@),
            Some(to@),
            scope_view(scope),
        ),
    }
}

/// The issuers authorised in one scope.
#[derive(Debug)]
pub struct ScopeIssuers {
    pub scope: NodeScope,
    pub issuers: Vec<Did>,
}

/// `issuer` is authorised in `scope` by one of the entries.
pub open spec fn authorized_in(entries: Seq<ScopeIssuers>, issuer: Seq<char>, scope: Seq<char>) -> bool {
    exists|i: int| 0 <= i < entries.len() && #[trigger] entries[i].scope.view() == scope && dids_view(
        entries[i].issuers@,
    ).contains(issuer)
}

/// Adapter over a [`ResourceLedger`] that checks issuers against the scope of
/// an operation and logs token events for the DAG.
pub struct ResourceRepositoryAdapter<L: ResourceLedger> {
    ledger: L,
    issuers: Vec<ScopeIssuers>,
    dag_events: Option<Vec<TokenEvent>>,
}

impl<L: ResourceLedger> ResourceRepositoryAdapter<L> {
    /// The wrapped ledger.
    pub closed spec fn spec_ledger(&self) -> L {
        self.ledger
    }

    /// `issuer` may act in `scope`.
    pub closed spec fn is_authorized_spec(&self, issuer: Seq<char>, scope: Seq<char>) -> bool {
        authorized_in(self.issuers@, issuer, scope)
    }

    /// Whether token events are logged for the DAG.
    pub closed spec fn logs_events(&self) -> bool {
        self.dag_events is Some
    }

    /// The logged token events, oldest first (none when not logging).
    pub closed spec fn logged(&self) -> Seq<TokenEvent> {
        match self.dag_events {
            Some(v) => v@,
            None => Seq::empty(),
        }
    }

    /// An adapter without authorised issuers that logs nothing.
    pub fn new(ledger: L) -> (r: Self)
        ensures
            r.spec_ledger() == ledger,
            !r.logs_events(),
            forall|i: Seq<char>, s: Seq<char>| !r.is_authorized_spec(i, s),
    {
        ResourceRepositoryAdapter { ledger, issuers: Vec::new(), dag_events: None }
    }

    /// An adapter without authorised issuers that logs every accepted token
    /// operation, to be written as DAG blocks.
    pub fn with_dag_store(ledger: L) -> (r: Self)
        ensures
            r.spec_ledger() == ledger,
            r.logs_events(),
            r.logged().len() == 0,
            forall|i: Seq<char>, s: Seq<char>| !r.is_authorized_spec(i, s),
    {
        ResourceRepositoryAdapter { ledger, issuers: Vec::new(), dag_events: Some(Vec::new()) }
    }

    /// Authorise `issuer` in `scope`.
    pub fn add_issuer(&mut self, scope: NodeScope, issuer: Did)
        ensures
            final(self).spec_ledger() == old(self).spec_ledger(),
            final(self).logs_events() == old(self).logs_events(),
            final(self).logged() == old(self).logged(),
            forall|i: Seq<char>, s: Seq<char>| #[trigger] final(self).is_authorized_spec(i, s) <==> (old(
                self,
            ).is_authorized_spec(i, s) || (i == issuer@ && s == scope.view())),
    {
        let ghost before = self.issuers@;
        let mut k: usize = 0;
        while k < self.issuers.len()
            invariant
                k <= self.issuers@.len(),
                self.issuers@ == before,
                forall|j: int| 0 <= j < k ==> #[trigger] self.issuers@[j].scope.view() != scope.view(),
            ensures
                k <= self.issuers@.len(),
                self.issuers@ == before,
                forall|j: int| 0 <= j < k ==> #[trigger] self.issuers@[j].scope.view() != scope.view(),
                k < self.issuers@.len() ==> self.issuers@[k as int].scope.view() == scope.view(),
            decreases self.issuers@.len() - k,
        {
            if self.issuers[k].scope.name == scope.name {
                break;
            }
            k = k + 1;
        }
        if k < self.issuers.len() {
            assert(self.issuers@[k as int].scope.view() == scope.view());
            let known = contains_did(&self.issuers[k].issuers, &issuer);
            if !known {
                let mut list = crate::resource_ledger::duplicate_dids(&self.issuers[k].issuers);
                let ghost old_list = list@;
                list.push(issuer.duplicate());
                let sc = self.issuers[k].scope.duplicate();
                self.issuers.set(k, ScopeIssuers { scope: sc, issuers: list });
                proof {
                    assert(dids_view(list@) =~= dids_view(old_list).push(issuer@));
                    assert forall|i: Seq<char>, s: Seq<char>| #[trigger] authorized_in(self.issuers@, i, s) <==> (
                        authorized_in(before, i, s) || (i == issuer@ && s == scope.view())) by {
                        if authorized_in(before, i, s) {
                            let j = choose|j: int| 0 <= j < before.len() && #[trigger] before[j].scope.view() == s && dids_view(
                                before[j].issuers@,
                            ).contains(i);
                            if j == k {
                                let x = choose|x: int| 0 <= x < dids_view(before[j].issuers@).len() && dids_view(before[j].issuers@)[x] == i;
                                assert(dids_view(list@)[x] == i);
                                assert(self.issuers@[j].scope.view() == s);
                                assert(dids_view(self.issuers@[j].issuers@).contains(i));
                            } else {
                                assert(self.issuers@[j] == before[j]);
                                assert(dids_view(self.issuers@[j].issuers@).contains(i));
                            }
                            assert(authorized_in(self.issuers@, i, s));
                        }
                        if i == issuer@ && s == scope.view() {
                            assert(dids_view(list@)[dids_view(list@).len() - 1] == i);
                            assert(self.issuers@[k as int].scope.view() == s);
                            assert(dids_view(self.issuers@[k as int].issuers@).contains(i));
                            assert(authorized_in(self.issuers@, i, s));
                        }
                        if authorized_in(self.issuers@, i, s) {
                            let j = choose|j: int| 0 <= j < self.issuers@.len() && #[trigger] self.issuers@[j].scope.view() == s && dids_view(
                                self.issuers@[j].issuers@,
                            ).contains(i);
                            if j != k {
                                assert(self.issuers@[j] == before[j]);
                                assert(authorized_in(before, i, s));
                            } else {
                                let x = choose|x: int| 0 <= x < dids_view(list@).len() && dids_view(list@)[x] == i;
                                if x < old_list.len() {
                                    assert(dids_view(old_list)[x] == i);
                                    assert(dids_view(before[j].issuers@).contains(i));
                                    assert(before[j].scope.view() == s);
                                    assert(authorized_in(before, i, s));
                                }
                            }
                        }
                    }
                }
            }
        } else {
            let mut list: Vec<Did> = Vec::new();
            list.push(issuer.duplicate());
            let ghost sv = scope.view();
            self.issuers.push(ScopeIssuers { scope, issuers: list });
            proof {
                assert(dids_view(list@) =~= seq![issuer@]);
                assert forall|i: Seq<char>, s: Seq<char>| #[trigger] authorized_in(self.issuers@, i, s) <==> (
                    authorized_in(before, i, s) || (i == issuer@ && s == sv)) by {
                    if authorized_in(before, i, s) {
                        let j = choose|j: int| 0 <= j < before.len() && #[trigger] before[j].scope.view() == s && dids_view(
                            before[j].issuers@,
                        ).contains(i);
                        assert(self.issuers@[j] == before[j]);
                    }
                    if i == issuer@ && s == sv {
                        assert(dids_view(list@)[0] == i);
                        assert(self.issuers@[before.len() as int].scope.view() == s);
                    }
                    if authorized_in(self.issuers@, i, s) {
                        let j = choose|j: int| 0 <= j < self.issuers@.len() && #[trigger] self.issuers@[j].scope.view() == s && dids_view(
                            self.issuers@[j].issuers@,
                        ).contains(i);
                        if j < before.len() {
                            assert(self.issuers@[j] == before[j]);
                        }
                    }
                }
            }
        }
    }

    /// The wrapped ledger.
    pub fn ledger(&self) -> (r: &L)
        ensures
            *r == self.spec_ledger(),
    {
        &self.ledger
    }

    /// The logged token events, if the adapter logs them.
    pub fn dag_events(&self) -> (r: Option<&Vec<TokenEvent>>)
        ensures
            r is Some <==> self.logs_events(),
            r matches Some(v) ==> v@ == self.logged(),
    {
        match &self.dag_events {
            Some(v) => Some(v),
            None => None,
        }
    }

    /// Whether `issuer` may act in `scope`.
    fn is_authorized(&self, issuer: &Did, scope: &NodeScope) -> (r: bool)
        ensures
            r == self.is_authorized_spec(issuer@, scope.view()),
    {
        let mut k: usize = 0;
        while k < self.issuers.len()
            invariant
                k <= self.issuers@.len(),
                forall|j: int| 0 <= j < k ==> !(#[trigger] self.issuers@[j].scope.view() == scope.view() && dids_view(
                    self.issuers@[j].issuers@,
                ).contains(issuer@)),
            decreases self.issuers@.len() - k,
        {
            if self.issuers[k].scope.name == scope.name && contains_did(&self.issuers[k].issuers, issuer) {
                assert(self.issuers@[k as int].scope.view() == scope.view() && dids_view(self.issuers@[k as int].issuers@).contains(issuer@));
                assert(authorized_in(self.issuers@, issuer@, scope.view()));
                return true;
            }
            k = k + 1;
        }
        false
    }

    /// Append `event` to the DAG log when logging.
    fn record_event(&mut self, event: TokenEvent)
        ensures
            final(self).spec_ledger() == old(self).spec_ledger(),
            final(self).logs_events() == old(self).logs_events(),
            final(self).issuers@ == old(self).issuers@,
            old(self).logs_events() ==> final(self).logged() == old(self).logged().push(event),
            !old(self).logs_events() ==> final(self).logged() == old(self).logged(),
    {
        match &mut self.dag_events {
            Some(v) => {
                v.push(event);
            },
            None => {},
        }
    }

    /// Mint tokens of `class_id` to `recipient`. With a scope, the issuer
    /// must be authorised in it (`PolicyDenied` otherwise).
    pub fn mint(&mut self, issuer: &Did, class_id: &str, amount: u64, recipient: &Did, scope: Option<NodeScope>) -> (r: Result<(), CommonError>)
        requires
            old(self).spec_ledger().ledger_inv(),
            token_balance(old(self).spec_ledger().token_balances(), class_id@, recipient@) + amount <= u64::MAX,
        ensures
            final(self).spec_ledger().ledger_inv(),
            final(self).spec_ledger().class_map() == old(self).spec_ledger().class_map(),
            final(self).logs_events() == old(self).logs_events(),
            (scope matches Some(sc) && !old(self).is_authorized_spec(issuer@, sc.view())) ==> (r matches Err(
                CommonError::PolicyDenied(_),
            )),
            r is Ok ==> (scope matches Some(sc) ==> old(self).is_authorized_spec(issuer@, sc.view())),
            r is Ok ==> final(self).spec_ledger().token_balances() == old(self).spec_ledger().token_balances().insert(
                (class_id@, recipient@),
                (token_balance(old(self).spec_ledger().token_balances(), class_id@, recipient@) + amount) as u64,
            ),
            r is Ok && old(self).logs_events() ==> final(self).logged().len() == old(self).logged().len() + 1
                && final(self).logged().drop_last() == old(self).logged() && token_event_view(final(self).logged().last())
                == (0int, class_id@, amount, issuer@, None::<Seq<char>>, Some(recipient@), scope_view(scope)),
            r is Err ==> final(self).spec_ledger().token_balances() == old(self).spec_ledger().token_balances(),
            r is Err || !old(self).logs_events() ==> final(self).logged() == old(self).logged(),
    {
        if let Some(sc) = &scope {
            if !self.is_authorized(issuer, sc) {
                return Err(CommonError::PolicyDenied(String::from_str("issuer not authorized")));
            }
        }
        let cid: TokenClassId = String::from_str(class_id);
        self.ledger.mint(&cid, recipient, amount)?;
        let ev = TokenEvent::Mint {
            class_id: cid,
            amount,
            issuer: issuer.duplicate(),
            recipient: recipient.duplicate(),
            scope,
        };
        self.record_event(ev);
        Ok(())
    }

    /// Burn tokens of `class_id` held by `owner`. With a scope, the issuer
    /// must be authorised in it (`PolicyDenied` otherwise).
    pub fn burn(&mut self, issuer: &Did, class_id: &str, amount: u64, owner: &Did, scope: Option<NodeScope>) -> (r: Result<(), CommonError>)
        requires
            old(self).spec_ledger().ledger_inv(),
        ensures
            final(self).spec_ledger().ledger_inv(),
            final(self).spec_ledger().class_map() == old(self).spec_ledger().class_map(),
            final(self).logs_events() == old(self).logs_events(),
            (scope matches Some(sc) && !old(self).is_authorized_spec(issuer@, sc.view())) ==> (r matches Err(
                CommonError::PolicyDenied(_),
            )),
            token_balance(old(self).spec_ledger().token_balances(), class_id@, owner@) < amount ==> r is Err,
            r is Ok ==> (scope matches Some(sc) ==> old(self).is_authorized_spec(issuer@, sc.view())),
            r is Ok ==> amount <= token_balance(old(self).spec_ledger().token_balances(), class_id@, owner@)
                && final(self).spec_ledger().token_balances() == old(self).spec_ledger().token_balances().insert(
                (class_id@, owner@),
                (token_balance(old(self).spec_ledger().token_balances(), class_id@, owner@) - amount) as u64,
            ),
            r is Ok && old(self).logs_events() ==> final(self).logged().len() == old(self).logged().len() + 1
                && final(self).logged().drop_last() == old(self).logged() && token_event_view(final(self).logged().last())
                == (1int, class_id@, amount, issuer@, Some(owner@), None::<Seq<char>>, scope_view(scope)),
            r is Err ==> final(self).spec_ledger().token_balances() == old(self).spec_ledger().token_balances(),
            r is Err || !old(self).logs_events() ==> final(self).logged() == old(self).logged(),
    {
        if let Some(sc) = &scope {
            if !self.is_authorized(issuer, sc) {
                return Err(CommonError::PolicyDenied(String::from_str("issuer not authorized")));
            }
        }
        let cid: TokenClassId = String::from_str(class_id);
        self.ledger.burn(&cid, owner, amount)?;
        let ev = TokenEvent::Burn { class_id: cid, amount, issuer: issuer.duplicate(), owner: owner.duplicate(), scope };
        self.record_event(ev);
        Ok(())
    }

    /// Transfer tokens of `class_id` from `from` to `to`. With a scope, the
    /// issuer must be authorised in it (`PolicyDenied` otherwise).
    pub fn transfer(
        &mut self,
        issuer: &Did,
        class_id: &str,
        amount: u64,
        from: &Did,
        to: &Did,
        scope: Option<NodeScope>,
    ) -> (r: Result<(), CommonError>)
        requires
            old(self).spec_ledger().ledger_inv(),
            from@ == to@ || token_balance(old(self).spec_ledger().token_balances(), class_id@, to@) + amount <= u64::MAX,
        ensures
            final(self).spec_ledger().ledger_inv(),
            final(self).spec_ledger().class_map() == old(self).spec_ledger().class_map(),
            final(self).logs_events() == old(self).logs_events(),
            (scope matches Some(sc) && !old(self).is_authorized_spec(issuer@, sc.view())) ==> (r matches Err(
                CommonError::PolicyDenied(_),
            )),
            r is Ok ==> (scope matches Some(sc) ==> old(self).is_authorized_spec(issuer@, sc.view())),
            r is Ok ==> old(self).spec_ledger().class_map().contains_key(class_id@) && transfer_allowed(
                old(self).spec_ledger().class_map()[class_id@],
                to@,
            ) && amount <= token_balance(old(self).spec_ledger().token_balances(), class_id@, from@),
            r is Ok ==> final(self).spec_ledger().token_balances() == transferred(
                old(self).spec_ledger().token_balances(),
                class_id@,
                from@,
                to@,
                amount,
            ),
            r is Ok && old(self).logs_events() ==> final(self).logged().len() == old(self).logged().len() + 1
                && final(self).logged().drop_last() == old(self).logged() && token_event_view(final(self).logged().last())
                == (2int, class_id@, amount, issuer@, Some(from@), Some(to@), scope_view(scope)),
            r is Err ==> final(self).spec_ledger().token_balances() == old(self).spec_ledger().token_balances(),
            r is Err || !old(self).logs_events() ==> final(self).logged() == old(self).logged(),
    {
        if let Some(sc) = &scope {
            if !self.is_authorized(issuer, sc) {
                return Err(CommonError::PolicyDenied(String::from_str("issuer not authorized")));
            }
        }
        let cid: TokenClassId = String::from_str(class_id);
        self.ledger.transfer(&cid, from, to, amount)?;
        let ev = TokenEvent::Transfer {
            class_id: cid,
            amount,
            issuer: issuer.duplicate(),
            from: from.duplicate(),
            to: to.duplicate(),
            scope,
        };
        self.record_event(ev);
        Ok(())
    }
}

} // verus!
