//! Resource tokens: token classes with their transfer and scoping rules, the
//! ledger interface for token accounting, and the in-memory ledger that the
//! file-backed store persists.

use vstd::prelude::*;
use vstd::string::*;
use crate::assoc::{keys_distinct, assoc_map, lookup_or, lemma_assoc_index, lemma_assoc_absent, lemma_assoc_update, lemma_assoc_push, lemma_assoc_dom};
use crate::clock::unix_seconds;
use crate::did::Did;
use crate::error::CommonError;
use crate::text::{join2, text_with_number};

verus! {

/// Identifier for a particular token class stored in a [`ResourceLedger`].
pub type TokenClassId = String;

/// Defines the type of token and its properties.
#[derive(Debug, Clone, Copy, PartialEq, Eq, Structural)]
pub enum TokenType {
    /// Fungible tokens where each unit is interchangeable.
    Fungible,
    /// Non-fungible tokens representing unique items.
    NonFungible,
    /// Semi-fungible tokens with both fungible and unique properties.
    SemiFungible,
    /// Time banking tokens representing labor hours.
    TimeBanking,
    /// Mutual credit tokens for community exchange.
    MutualCredit,
    /// Local currency tokens with geographic/community restrictions.
    LocalCurrency,
    /// Bulk purchasing tokens for collective buying power.
    BulkPurchasing,
}

/// Defines how tokens can be transferred between accounts.
#[derive(Debug)]
pub enum TransferabilityRule {
    /// Tokens can be freely transferred to any account.
    FreelyTransferable,
    /// Tokens can only be transferred to authorized accounts.
    RestrictedTransfer { authorized_recipients: Vec<Did> },
    /// Tokens cannot be transferred once issued.
    NonTransferable,
    /// Tokens can only be transferred back to the issuer.
    IssuerOnly,
}

/// Defines scoping rules for token operations.
#[derive(Debug)]
pub struct ScopingRules {
    /// Geographic scope limitations.
    pub geographic_scope: Option<String>,
    /// Community/federation scope limitations.
    pub community_scope: Option<String>,
    /// Time-based validity restrictions (start, end).
    pub validity_period: Option<(u64, u64)>,
    /// Maximum supply limit.
    pub max_supply: Option<u64>,
    /// Minimum balance required for operations.
    pub min_balance: Option<u64>,
}

/// Metadata for a token class.
#[derive(Debug)]
pub struct TokenClass {
    pub name: String,
    pub description: String,
    pub symbol: String,
    pub decimals: u8,
    pub token_type: TokenType,
    pub transferability: TransferabilityRule,
    pub scoping_rules: ScopingRules,
    pub issuer: Did,
    pub created_at: u64,
    pub metadata: Vec<(String, String)>,
}

/// Record of a token transfer for audit trails.
#[derive(Debug)]
pub struct TransferRecord {
    pub transfer_id: String,
    pub class_id: TokenClassId,
    pub from: Did,
    pub to: Did,
    pub amount: u64,
    pub timestamp: u64,
    pub transaction_hash: String,
    pub metadata: Vec<(String, String)>,
}

/// What a transferability rule says.
pub enum TransferRuleView {
    FreelyTransferable,
    RestrictedTransfer(Seq<Seq<char>>),
    NonTransferable,
    IssuerOnly,
}

/// What scoping rules say.
pub struct ScopingView {
    pub geographic_scope: Option<Seq<char>>,
    pub community_scope: Option<Seq<char>>,
    pub validity_period: Option<(u64, u64)>,
    pub max_supply: Option<u64>,
    pub min_balance: Option<u64>,
}

/// What a token class says.
pub struct TokenClassView {
    pub name: Seq<char>,
    pub description: Seq<char>,
    pub symbol: Seq<char>,
    pub decimals: u8,
    pub token_type: TokenType,
    pub transferability: TransferRuleView,
    pub scoping: ScopingView,
    pub issuer: Seq<char>,
    pub created_at: u64,
    pub metadata: Seq<(Seq<char>, Seq<char>)>,
}

/// What a transfer record says.
pub struct TransferRecordView {
    pub transfer_id: Seq<char>,
    pub class_id: Seq<char>,
    pub from: Seq<char>,
    pub to: Seq<char>,
    pub amount: u64,
    pub timestamp: u64,
    pub transaction_hash: Seq<char>,
    pub metadata: Seq<(Seq<char>, Seq<char>)>,
}

/// The text of an optional string.
pub open spec fn opt_view(o: Option<String>) -> Option<Seq<char>> {
    match o {
        Some(s) => Some(s@),
        None => None,
    }
}

/// The texts of a list of string pairs.
pub open spec fn pairs_view(v: Seq<(String, String)>) -> Seq<(Seq<char>, Seq<char>)> {
    v.map_values(|p: (String, String)| (p.0@, p.1@))
}

/// The texts of a list of identifiers.
pub open spec fn dids_view(v: Seq<Did>) -> Seq<Seq<char>> {
    v.map_values(|d: Did| d@)
}

impl TransferabilityRule {
    /// What the rule says.
    pub open spec fn view(&self) -> TransferRuleView {
        match self {
            TransferabilityRule::FreelyTransferable => TransferRuleView::FreelyTransferable,
            TransferabilityRule::RestrictedTransfer { authorized_recipients } => TransferRuleView::RestrictedTransfer(
                dids_view(authorized_recipients@),
            ),
            TransferabilityRule::NonTransferable => TransferRuleView::NonTransferable,
            TransferabilityRule::IssuerOnly => TransferRuleView::IssuerOnly,
        }
    }

    /// A copy of the rule.
    pub fn duplicate(&self) -> (r: TransferabilityRule)
        ensures
            r.view() == self.view(),
    {
        match self {
            TransferabilityRule::FreelyTransferable => TransferabilityRule::FreelyTransferable,
            TransferabilityRule::RestrictedTransfer { authorized_recipients } => TransferabilityRule::RestrictedTransfer {
                authorized_recipients: duplicate_dids(authorized_recipients),
            },
            TransferabilityRule::NonTransferable => TransferabilityRule::NonTransferable,
            TransferabilityRule::IssuerOnly => TransferabilityRule::IssuerOnly,
        }
    }
}

impl ScopingRules {
    /// What the rules say.
    pub open spec fn view(&self) -> ScopingView {
        ScopingView {
            geographic_scope: opt_view(self.geographic_scope),
            community_scope: opt_view(self.community_scope),
            validity_period: self.validity_period,
            max_supply: self.max_supply,
            min_balance: self.min_balance,
        }
    }

    /// A copy of the rules.
    pub fn duplicate(&self) -> (r: ScopingRules)
        ensures
            r.view() == self.view(),
    {
        ScopingRules {
            geographic_scope: duplicate_opt_string(&self.geographic_scope),
            community_scope: duplicate_opt_string(&self.community_scope),
            validity_period: self.validity_period,
            max_supply: self.max_supply,
            min_balance: self.min_balance,
        }
    }
}

impl TokenClass {
    /// What the class says.
    pub open spec fn view(&self) -> TokenClassView {
        TokenClassView {
            name: self.name@,
            description: self.description@,
            symbol: self.symbol@,
            decimals: self.decimals,
            token_type: self.token_type,
            transferability: self.transferability.view(),
            scoping: self.scoping_rules.view(),
            issuer: self.issuer@,
            created_at: self.created_at,
            metadata: pairs_view(self.metadata@),
        }
    }

    /// A copy of the class.
    pub fn duplicate(&self) -> (r: TokenClass)
        ensures
            r.view() == self.view(),
    {
        TokenClass {
            name: self.name.clone(),
            description: self.description.clone(),
            symbol: self.symbol.clone(),
            decimals: self.decimals,
            token_type: self.token_type,
            transferability: self.transferability.duplicate(),
            scoping_rules: self.scoping_rules.duplicate(),
            issuer: self.issuer.duplicate(),
            created_at: self.created_at,
            metadata: duplicate_pairs(&self.metadata),
        }
    }

    /// Create a new fungible token class: freely transferable, no scoping.
    pub fn new_fungible(name: String, description: String, symbol: String, decimals: u8, issuer: Did) -> (r: Self)
        ensures
            r.view().name == name@,
            r.view().description == description@,
            r.view().symbol == symbol@,
            r.view().decimals == decimals,
            r.view().token_type == TokenType::Fungible,
            r.view().transferability == TransferRuleView::FreelyTransferable,
            r.view().scoping == no_scoping(),
            r.view().issuer == issuer@,
            r.view().metadata.len() == 0,
    {
        TokenClass {
            name,
            description,
            symbol,
            decimals,
            token_type: TokenType::Fungible,
            transferability: TransferabilityRule::FreelyTransferable,
            scoping_rules: ScopingRules {
                geographic_scope: None,
                community_scope: None,
                validity_period: None,
                max_supply: None,
                min_balance: None,
            },
            issuer,
            created_at: unix_seconds(),
            metadata: Vec::new(),
        }
    }

    /// Create a new time banking token class: symbol `TIME`, two decimals,
    /// freely transferable, optional community scope, minimum balance zero,
    /// metadata `unit=hours` and `rate_type=equal`.
    pub fn new_time_banking(name: String, description: String, issuer: Did, community_scope: Option<String>) -> (r: Self)
        ensures
            r.view().name == name@,
            r.view().description == description@,
            r.view().decimals == 2,
            r.view().token_type == TokenType::TimeBanking,
            r.view().transferability == TransferRuleView::FreelyTransferable,
            r.view().scoping == (ScopingView {
                geographic_scope: None,
                community_scope: opt_view(community_scope),
                validity_period: None,
                max_supply: None,
                min_balance: Some(0u64),
            }),
            r.view().issuer == issuer@,
            r.view().metadata.len() == 2,
    {
        let mut metadata: Vec<(String, String)> = Vec::new();
        metadata.push((String::from_str("unit"), String::from_str("hours")));
        metadata.push((String::from_str("rate_type"), String::from_str("equal")));
        TokenClass {
            name,
            description,
            symbol: String::from_str("TIME"),
            decimals: 2,
            token_type: TokenType::TimeBanking,
            transferability: TransferabilityRule::FreelyTransferable,
            scoping_rules: ScopingRules {
                geographic_scope: None,
                community_scope,
                validity_period: None,
                max_supply: None,
                min_balance: Some(0),
            },
            issuer,
            created_at: unix_seconds(),
            metadata,
        }
    }

    /// Create a new mutual credit token class: two decimals, freely
    /// transferable, community scope, supply capped at `credit_limit * 100`,
    /// no minimum balance.
    pub fn new_mutual_credit(
        name: String,
        description: String,
        symbol: String,
        issuer: Did,
        community_scope: String,
        credit_limit: u64,
    ) -> (r: Self)
        requires
            credit_limit * 100 <= u64::MAX,
        ensures
            r.view().name == name@,
            r.view().symbol == symbol@,
            r.view().decimals == 2,
            r.view().token_type == TokenType::MutualCredit,
            r.view().transferability == TransferRuleView::FreelyTransferable,
            r.view().scoping == (ScopingView {
                geographic_scope: None,
                community_scope: Some(community_scope@),
                validity_period: None,
                max_supply: Some((credit_limit * 100) as u64),
                min_balance: None,
            }),
            r.view().issuer == issuer@,
            r.view().metadata.len() == 2,
    {
        let mut metadata: Vec<(String, String)> = Vec::new();
        metadata.push((String::from_str("credit_limit"), crate::text::u64_to_decimal(credit_limit)));
        metadata.push((String::from_str("interest_rate"), String::from_str("0")));
        TokenClass {
            name,
            description,
            symbol,
            decimals: 2,
            token_type: TokenType::MutualCredit,
            transferability: TransferabilityRule::FreelyTransferable,
            scoping_rules: ScopingRules {
                geographic_scope: None,
                community_scope: Some(community_scope),
                validity_period: None,
                max_supply: Some(credit_limit * 100),
                min_balance: None,
            },
            issuer,
            created_at: unix_seconds(),
            metadata,
        }
    }

    /// Create a new local currency token class: two decimals, freely
    /// transferable, geographic scope, minimum balance zero.
    pub fn new_local_currency(
        name: String,
        description: String,
        symbol: String,
        issuer: Did,
        geographic_scope: String,
    ) -> (r: Self)
        ensures
            r.view().name == name@,
            r.view().symbol == symbol@,
            r.view().decimals == 2,
            r.view().token_type == TokenType::LocalCurrency,
            r.view().transferability == TransferRuleView::FreelyTransferable,
            r.view().scoping == (ScopingView {
                geographic_scope: Some(geographic_scope@),
                community_scope: None,
                validity_period: None,
                max_supply: None,
                min_balance: Some(0u64),
            }),
            r.view().issuer == issuer@,
            r.view().metadata.len() == 2,
    {
        let mut metadata: Vec<(String, String)> = Vec::new();
        metadata.push((String::from_str("currency_type"), String::from_str("local")));
        metadata.push((String::from_str("backing"), String::from_str("community_value")));
        TokenClass {
            name,
            description,
            symbol,
            decimals: 2,
            token_type: TokenType::LocalCurrency,
            transferability: TransferabilityRule::FreelyTransferable,
            scoping_rules: ScopingRules {
                geographic_scope: Some(geographic_scope),
                community_scope: None,
                validity_period: None,
                max_supply: None,
                min_balance: Some(0),
            },
            issuer,
            created_at: unix_seconds(),
            metadata,
        }
    }

    /// Create a new bulk purchasing token class: symbol `BULK`, whole units,
    /// not transferable, valid for thirty days from now, minimum balance one.
    pub fn new_bulk_purchasing(
        name: String,
        description: String,
        issuer: Did,
        target_product: String,
        minimum_quantity: u64,
    ) -> (r: Self)
        ensures
            r.view().name == name@,
            r.view().decimals == 0,
            r.view().token_type == TokenType::BulkPurchasing,
            r.view().transferability == TransferRuleView::NonTransferable,
            r.view().scoping.validity_period matches Some((start, end)) && (end == start + 2592000 || end == u64::MAX),
            r.view().scoping.min_balance == Some(1u64),
            r.view().scoping.max_supply is None,
            r.view().issuer == issuer@,
            r.view().metadata.len() == 3,
    {
        let mut metadata: Vec<(String, String)> = Vec::new();
        metadata.push((String::from_str("target_product"), target_product));
        metadata.push((String::from_str("minimum_quantity"), crate::text::u64_to_decimal(minimum_quantity)));
        metadata.push((String::from_str("aggregation_period"), String::from_str("30_days")));
        let start = unix_seconds();
        let end = start.saturating_add(30 * 24 * 60 * 60);
        TokenClass {
            name,
            description,
            symbol: String::from_str("BULK"),
            decimals: 0,
            token_type: TokenType::BulkPurchasing,
            transferability: TransferabilityRule::NonTransferable,
            scoping_rules: ScopingRules {
                geographic_scope: None,
                community_scope: None,
                validity_period: Some((start, end)),
                max_supply: None,
                min_balance: Some(1),
            },
            issuer,
            created_at: unix_seconds(),
            metadata,
        }
    }
}

/// Scoping rules without any limitation.
pub open spec fn no_scoping() -> ScopingView {
    ScopingView {
        geographic_scope: None,
        community_scope: None,
        validity_period: None,
        max_supply: None,
        min_balance: None,
    }
}

impl TransferRecord {
    /// What the record says.
    pub open spec fn view(&self) -> TransferRecordView {
        TransferRecordView {
            transfer_id: self.transfer_id@,
            class_id: self.class_id@,
            from: self.from@,
            to: self.to@,
            amount: self.amount,
            timestamp: self.timestamp,
            transaction_hash: self.transaction_hash@,
            metadata: pairs_view(self.metadata@),
        }
    }

    /// A copy of the record.
    pub fn duplicate(&self) -> (r: TransferRecord)
        ensures
            r.view() == self.view(),
    {
        TransferRecord {
            transfer_id: self.transfer_id.clone(),
            class_id: self.class_id.clone(),
            from: self.from.duplicate(),
            to: self.to.duplicate(),
            amount: self.amount,
            timestamp: self.timestamp,
            transaction_hash: self.transaction_hash.clone(),
            metadata: duplicate_pairs(&self.metadata),
        }
    }
}

/// A copy of an optional string.
pub fn duplicate_opt_string(o: &Option<String>) -> (r: Option<String>)
    ensures
        opt_view(r) == opt_view(*o),
{
    match o {
        Some(s) => Some(s.clone()),
        None => None,
    }
}

/// A copy of a list of identifiers.
pub fn duplicate_dids(v: &Vec<Did>) -> (r: Vec<Did>)
    ensures
        dids_view(r@) == dids_view(v@),
{
    let mut out: Vec<Did> = Vec::new();
    let mut i: usize = 0;
    while i < v.len()
        invariant
            i <= v@.len(),
            out@.len() == i,
            forall|j: int| 0 <= j < i ==> #[trigger] out@[j]@ == v@[j]@,
        decreases v@.len() - i,
    {
        out.push(v[i].duplicate());
        i = i + 1;
    }
    assert(dids_view(out@) =~= dids_view(v@));
    out
}

/// A copy of a list of string pairs.
pub fn duplicate_pairs(v: &Vec<(String, String)>) -> (r: Vec<(String, String)>)
    ensures
        pairs_view(r@) == pairs_view(v@),
{
    let mut out: Vec<(String, String)> = Vec::new();
    let mut i: usize = 0;
    while i < v.len()
        invariant
            i <= v@.len(),
            out@.len() == i,
            forall|j: int| 0 <= j < i ==> #[trigger] out@[j].0@ == v@[j].0@ && out@[j].1@ == v@[j].1@,
        decreases v@.len() - i,
    {
        let (ref a, ref b) = v[i];
        let ghost before = out@;
        out.push((a.clone(), b.clone()));
        proof {
            assert forall|j: int| 0 <= j < i + 1 implies #[trigger] out@[j].0@ == v@[j].0@ && out@[j].1@ == v@[j].1@ by {
                if j < i {
                    assert(out@[j] == before[j]);
                }
            }
        }
        i = i + 1;
    }
    assert(pairs_view(out@) =~= pairs_view(v@));
    out
}

/// Whether `d` is one of `v`.
pub fn contains_did(v: &Vec<Did>, d: &Did) -> (r: bool)
    ensures
        r == dids_view(v@).contains(d@),
{
    let mut i: usize = 0;
    while i < v.len()
        invariant
            i <= v@.len(),
            forall|j: int| 0 <= j < i ==> #[trigger] v@[j]@ != d@,
        decreases v@.len() - i,
    {
        if v[i].same_as(d) {
            assert(dids_view(v@)[i as int] == d@);
            return true;
        }
        i = i + 1;
    }
    proof {
        if dids_view(v@).contains(d@) {
            let j = choose|j: int| 0 <= j < dids_view(v@).len() && dids_view(v@)[j] == d@;
            assert(v@[j]@ == d@);
        }
    }
    false
}

/// Whether the rules of `class` let tokens go to `to`.
pub open spec fn transfer_allowed(class: TokenClassView, to: Seq<char>) -> bool {
    match class.transferability {
        TransferRuleView::FreelyTransferable => true,
        TransferRuleView::RestrictedTransfer(recipients) => recipients.contains(to),
        TransferRuleView::NonTransferable => false,
        TransferRuleView::IssuerOnly => to == class.issuer,
    }
}

/// Token balances keyed by (class, owner); absent pairs hold nothing.
pub open spec fn token_balance(m: Map<(Seq<char>, Seq<char>), u64>, class: Seq<char>, owner: Seq<char>) -> u64 {
    lookup_or(m, (class, owner), 0u64)
}

/// Trait defining generic token accounting behaviour.
///
/// An implementation may refuse an operation, and then changes nothing that
/// the operation would change; when it accepts one, it does what the method
/// states.
pub trait ResourceLedger {
    /// The token classes, keyed by class id.
    spec fn class_map(&self) -> Map<Seq<char>, TokenClassView>;

    /// The balances, keyed by (class id, owner).
    spec fn token_balances(&self) -> Map<(Seq<char>, Seq<char>), u64>;

    /// The ledger's internal invariant.
    spec fn ledger_inv(&self) -> bool;

    /// The class ids in the order in which `list_classes` gives them.
    spec fn class_order(&self) -> Seq<Seq<char>>;

    /// Create a new token class; an id already in use is refused with
    /// `InvalidInputError`.
    fn create_class(&mut self, class_id: &TokenClassId, class: TokenClass) -> (r: Result<(), CommonError>)
        requires
            old(self).ledger_inv(),
        ensures
            final(self).ledger_inv(),
            final(self).token_balances() == old(self).token_balances(),
            old(self).class_map().contains_key(class_id@) ==> r matches Err(CommonError::InvalidInputError(_)),
            r is Ok ==> final(self).class_map() == old(self).class_map().insert(class_id@, class.view()),
            r is Err ==> final(self).class_map() == old(self).class_map(),
    ;

    /// Fetch metadata for a token class if it exists.
    fn get_class(&self, class_id: &TokenClassId) -> (r: Option<TokenClass>)
        requires
            self.ledger_inv(),
        ensures
            r is Some <==> self.class_map().contains_key(class_id@),
            r matches Some(c) ==> c.view() == self.class_map()[class_id@],
    ;

    /// Replace the metadata of an existing class; only a class with the same
    /// issuer may replace it (`PolicyDenied`), and an unknown id is refused
    /// with `InvalidInputError`.
    fn update_class(&mut self, class_id: &TokenClassId, class: TokenClass) -> (r: Result<(), CommonError>)
        requires
            old(self).ledger_inv(),
        ensures
            final(self).ledger_inv(),
            final(self).token_balances() == old(self).token_balances(),
            !old(self).class_map().contains_key(class_id@) ==> r matches Err(CommonError::InvalidInputError(_)),
            old(self).class_map().contains_key(class_id@) && old(self).class_map()[class_id@].issuer != class.issuer@
                ==> r matches Err(CommonError::PolicyDenied(_)),
            r is Ok ==> old(self).class_map().contains_key(class_id@) && old(self).class_map()[class_id@].issuer
                == class.issuer@ && final(self).class_map() == old(self).class_map().insert(class_id@, class.view()),
            r is Err ==> final(self).class_map() == old(self).class_map(),
    ;

    /// List all token classes, each once.
    fn list_classes(&self) -> (r: Vec<(TokenClassId, TokenClass)>)
        requires
            self.ledger_inv(),
        ensures
            r@.len() == self.class_map().dom().len(),
            forall|i: int| 0 <= i < r@.len() ==> #[trigger] self.class_map().contains_key(r@[i].0@)
                && self.class_map()[r@[i].0@] == r@[i].1.view(),
            forall|k: Seq<char>| #[trigger] self.class_map().contains_key(k) ==> exists|i: int| 0 <= i < r@.len() && #[trigger] r@[i].0@ == k,
            r@.len() == self.class_order().len(),
            forall|i: int| 0 <= i < r@.len() ==> #[trigger] self.class_order()[i] == r@[i].0@,
            self.class_order().no_duplicates(),
    ;

    /// Increase the balance of `owner` in the given class by `amount`.
    fn mint(&mut self, class_id: &TokenClassId, owner: &Did, amount: u64) -> (r: Result<(), CommonError>)
        requires
            old(self).ledger_inv(),
            token_balance(old(self).token_balances(), class_id@, owner@) + amount <= u64::MAX,
        ensures
            final(self).ledger_inv(),
            final(self).class_map() == old(self).class_map(),
            r is Ok ==> final(self).token_balances() == old(self).token_balances().insert(
                (class_id@, owner@),
                (token_balance(old(self).token_balances(), class_id@, owner@) + amount) as u64,
            ),
            r is Err ==> final(self).token_balances() == old(self).token_balances(),
    ;

    /// Decrease the balance of `owner` in the given class by `amount`; a
    /// smaller balance is refused with `PolicyDenied`.
    fn burn(&mut self, class_id: &TokenClassId, owner: &Did, amount: u64) -> (r: Result<(), CommonError>)
        requires
            old(self).ledger_inv(),
        ensures
            final(self).ledger_inv(),
            final(self).class_map() == old(self).class_map(),
            token_balance(old(self).token_balances(), class_id@, owner@) < amount ==> r matches Err(
                CommonError::PolicyDenied(_),
            ),
            r is Ok ==> amount <= token_balance(old(self).token_balances(), class_id@, owner@)
                && final(self).token_balances() == old(self).token_balances().insert(
                (class_id@, owner@),
                (token_balance(old(self).token_balances(), class_id@, owner@) - amount) as u64,
            ),
            r is Err ==> final(self).token_balances() == old(self).token_balances(),
    ;

    /// Transfer tokens between accounts within the same class: the class
    /// rules must allow the recipient and the sender must hold the amount.
    fn transfer(&mut self, class_id: &TokenClassId, from: &Did, to: &Did, amount: u64) -> (r: Result<(), CommonError>)
        requires
            old(self).ledger_inv(),
            from@ == to@ || token_balance(old(self).token_balances(), class_id@, to@) + amount <= u64::MAX,
        ensures
            final(self).ledger_inv(),
            final(self).class_map() == old(self).class_map(),
            r is Ok ==> old(self).class_map().contains_key(class_id@) && transfer_allowed(
                old(self).class_map()[class_id@],
                to@,
            ) && amount <= token_balance(old(self).token_balances(), class_id@, from@),
            r is Ok ==> final(self).token_balances() == transferred(old(self).token_balances(), class_id@, from@, to@, amount),
            r is Err ==> final(self).token_balances() == old(self).token_balances(),
    ;

    /// Retrieve the balance for `owner` in the specified class.
    fn get_balance(&self, class_id: &TokenClassId, owner: &Did) -> (r: u64)
        requires
            self.ledger_inv(),
        ensures
            r == token_balance(self.token_balances(), class_id@, owner@),
    ;

    /// Whether the class rules allow a transfer to `to`; an unknown class is
    /// `InvalidInputError`.
    fn can_transfer(&self, class_id: &TokenClassId, from: &Did, to: &Did, amount: u64) -> (r: Result<bool, CommonError>)
        requires
            self.ledger_inv(),
        ensures
            r is Ok <==> self.class_map().contains_key(class_id@),
            r matches Ok(b) ==> b == transfer_allowed(self.class_map()[class_id@], to@),
            r matches Err(e) ==> e is InvalidInputError,
    ;

    /// Get transfer history for an account in a specific token class.
    fn get_transfer_history(&self, class_id: &TokenClassId, did: &Did) -> (r: Vec<TransferRecord>)
        requires
            self.ledger_inv(),
    ;
}

/// A token balance once `amount` is burnt from it: refused with
/// `PolicyDenied` when the balance is smaller.
pub fn token_balance_after_burn(current: u64, amount: u64) -> (r: Result<u64, CommonError>)
    ensures
        current >= amount ==> r == Ok::<u64, CommonError>((current - amount) as u64),
        current < amount ==> (r matches Err(CommonError::PolicyDenied(m)) && m@ == "Insufficient balance"@),
{
    if current < amount {
        proof {
            reveal_strlit("Insufficient balance");
        }
        return Err(CommonError::PolicyDenied(String::from_str("Insufficient balance")));
    }
    Ok(current - amount)
}

/// Whether the rules of `class` let tokens go to `to`.
pub fn class_allows_transfer(class: &TokenClass, to: &Did) -> (r: bool)
    ensures
        r == transfer_allowed(class.view(), to@),
{
    match &class.transferability {
        TransferabilityRule::FreelyTransferable => true,
        TransferabilityRule::RestrictedTransfer { authorized_recipients } => contains_did(authorized_recipients, to),
        TransferabilityRule::NonTransferable => false,
        TransferabilityRule::IssuerOnly => to.same_as(&class.issuer),
    }
}

/// Whether `replacement` may replace the class `existing`: only its issuer
/// may update a class.
pub fn may_update_class(existing: &TokenClass, replacement: &TokenClass) -> (r: bool)
    ensures
        r == (existing.view().issuer == replacement.view().issuer),
{
    existing.issuer.same_as(&replacement.issuer)
}

/// Balances after moving `amount` of `class` from `from` to `to`.
pub open spec fn transferred(
    m: Map<(Seq<char>, Seq<char>), u64>,
    class: Seq<char>,
    from: Seq<char>,
    to: Seq<char>,
    amount: u64,
) -> Map<(Seq<char>, Seq<char>), u64> {
    let m1 = m.insert((class, from), (token_balance(m, class, from) - amount) as u64);
    m1.insert((class, to), (token_balance(m1, class, to) + amount) as u64)
}

/// A transfer moves tokens without creating or destroying any: between two
/// different accounts that it keeps within range, the two balances in the
/// class add up to what they did before, and no other balance changes.
pub proof fn law_transfer_conserves_tokens(
    m: Map<(Seq<char>, Seq<char>), u64>,
    class: Seq<char>,
    from: Seq<char>,
    to: Seq<char>,
    amount: u64,
)
    requires
        from != to,
        amount <= token_balance(m, class, from),
        token_balance(m, class, to) + amount <= u64::MAX,
    ensures
        token_balance(transferred(m, class, from, to, amount), class, from) + token_balance(
            transferred(m, class, from, to, amount),
            class,
            to,
        ) == token_balance(m, class, from) + token_balance(m, class, to),
        token_balance(transferred(m, class, from, to, amount), class, to) == token_balance(m, class, to) + amount,
        forall|c: Seq<char>, k: Seq<char>|
            (c, k) != (class, from) && (c, k) != (class, to) ==> #[trigger] token_balance(
                transferred(m, class, from, to, amount),
                c,
                k,
            ) == token_balance(m, c, k),
{
}

/// A class and its id.
#[derive(Debug)]
pub struct ClassEntry {
    pub id: String,
    pub class: TokenClass,
}

/// A balance of one owner in one class.
#[derive(Debug)]
pub struct BalanceEntry {
    pub class_id: String,
    pub owner: Did,
    pub amount: u64,
}

/// (id, view) pairs of class entries.
pub open spec fn class_pairs(s: Seq<ClassEntry>) -> Seq<(Seq<char>, TokenClassView)> {
    s.map_values(|e: ClassEntry| (e.id@, e.class.view()))
}

/// ((class, owner), amount) pairs of balance entries.
pub open spec fn balance_pairs(s: Seq<BalanceEntry>) -> Seq<((Seq<char>, Seq<char>), u64)> {
    s.map_values(|e: BalanceEntry| ((e.class_id@, e.owner@), e.amount))
}

/// The records of `all` that concern `did` in `class`, in order; a transfer
/// from an account to itself concerns it twice.
pub open spec fn history_for(all: Seq<TransferRecordView>, class: Seq<char>, did: Seq<char>) -> Seq<TransferRecordView>
    decreases all.len(),
{
    if all.len() == 0 {
        Seq::empty()
    } else {
        let r = all.last();
        let h = history_for(all.drop_last(), class, did);
        let h1 = if r.class_id == class && r.from == did { h.push(r) } else { h };
        if r.class_id == class && r.to == did { h1.push(r) } else { h1 }
    }
}

/// Stored balance records, (class, owner, amount), as keyed pairs.
pub open spec fn triple_pairs(t: Seq<(Seq<char>, Seq<char>, u64)>) -> Seq<((Seq<char>, Seq<char>), u64)> {
    t.map_values(|x: (Seq<char>, Seq<char>, u64)| ((x.0, x.1), x.2))
}

/// The texts of stored balance records.
pub open spec fn triples_view(t: Seq<(String, String, u64)>) -> Seq<(Seq<char>, Seq<char>, u64)> {
    t.map_values(|x: (String, String, u64)| (x.0@, x.1@, x.2))
}

/// The balances that stored records describe: records whose owner is not a
/// valid identifier are ignored, and later records win.
pub open spec fn loaded_token_balances(t: Seq<(Seq<char>, Seq<char>, u64)>) -> Map<(Seq<char>, Seq<char>), u64>
    decreases t.len(),
{
    if t.len() == 0 {
        Map::empty()
    } else if crate::did::is_valid_did(t.last().1) {
        loaded_token_balances(t.drop_last()).insert((t.last().0, t.last().1), t.last().2)
    } else {
        loaded_token_balances(t.drop_last())
    }
}

/// Stored class records as (id, class) pairs.
pub open spec fn class_records_view(c: Seq<(String, TokenClass)>) -> Seq<(Seq<char>, TokenClassView)> {
    c.map_values(|x: (String, TokenClass)| (x.0@, x.1.view()))
}

/// Token accounting held in memory, as the file-backed ledger keeps it
/// between writes, with the history of every transfer.
#[derive(Debug)]
pub struct FileResourceLedger {
    path: String,
    classes: Vec<ClassEntry>,
    balances: Vec<BalanceEntry>,
    transfer_history: Vec<TransferRecord>,
}

impl FileResourceLedger {
    /// The classes of the ledger.
    pub closed spec fn classes_view(&self) -> Map<Seq<char>, TokenClassView> {
        assoc_map(class_pairs(self.classes@))
    }

    /// The class ids, in the order in which the classes were created.
    pub closed spec fn class_ids(&self) -> Seq<Seq<char>> {
        class_pairs(self.classes@).map_values(|e: (Seq<char>, TokenClassView)| e.0)
    }

    /// The balances of the ledger.
    pub closed spec fn balances_view(&self) -> Map<(Seq<char>, Seq<char>), u64> {
        assoc_map(balance_pairs(self.balances@))
    }

    /// Every transfer made, oldest first.
    pub closed spec fn history_view(&self) -> Seq<TransferRecordView> {
        self.transfer_history@.map_values(|t: TransferRecord| t.view())
    }

    /// The location where the ledger is persisted.
    pub closed spec fn spec_path(&self) -> Seq<char> {
        self.path@
    }

    /// No class and no (class, owner) pair is listed twice, and every owner
    /// is a well-formed identifier.
    pub closed spec fn inv(&self) -> bool {
        &&& keys_distinct(class_pairs(self.classes@))
        &&& keys_distinct(balance_pairs(self.balances@))
        &&& forall|i: int| 0 <= i < self.balances@.len() ==> crate::did::is_valid_did(#[trigger] self.balances@[i].owner@)
    }

    /// An empty ledger to be persisted at `path`.
    pub fn new(path: &str) -> (r: FileResourceLedger)
        ensures
            r.inv(),
            r.classes_view() == Map::<Seq<char>, TokenClassView>::empty(),
            r.balances_view() == Map::<(Seq<char>, Seq<char>), u64>::empty(),
            r.history_view().len() == 0,
            r.spec_path() == path@,
    {
        let r = FileResourceLedger {
            path: String::from_str(path),
            classes: Vec::new(),
            balances: Vec::new(),
            transfer_history: Vec::new(),
        };
        assert(class_pairs(r.classes@) =~= Seq::<(Seq<char>, TokenClassView)>::empty());
        assert(balance_pairs(r.balances@) =~= Seq::<((Seq<char>, Seq<char>), u64)>::empty());
        r
    }

    /// The balances as ((class, owner), amount) pairs, in the order they
    /// were first stored.
    pub closed spec fn balance_entries(&self) -> Seq<((Seq<char>, Seq<char>), u64)> {
        balance_pairs(self.balances@)
    }

    /// Store `class` under `class_id`, replacing any class with that id.
    fn put_class(&mut self, class_id: &String, class: TokenClass)
        requires
            old(self).inv(),
        ensures
            final(self).inv(),
            final(self).classes_view() == old(self).classes_view().insert(class_id@, class.view()),
            final(self).balances_view() == old(self).balances_view(),
            final(self).history_view() == old(self).history_view(),
            final(self).spec_path() == old(self).spec_path(),
    {
        let ghost p = class_pairs(self.classes@);
        let ghost cv = class.view();
        match self.find_class(class_id) {
            Some(i) => {
                proof {
                    lemma_assoc_update(p, i as int, cv);
                }
                self.classes.set(i, ClassEntry { id: class_id.clone(), class });
                assert(class_pairs(self.classes@) =~= p.update(i as int, (class_id@, cv)));
            },
            None => {
                proof {
                    lemma_assoc_dom(p);
                    assert forall|j: int| 0 <= j < p.len() implies #[trigger] p[j].0 != class_id@ by {
                        assert(crate::assoc::assoc_keys(p).contains(p[j].0));
                    }
                    lemma_assoc_push(p, class_id@, cv);
                }
                self.classes.push(ClassEntry { id: class_id.clone(), class });
                assert(class_pairs(self.classes@) =~= p.push((class_id@, cv)));
            },
        }
    }

    /// A ledger holding stored classes, balances and transfers: later
    /// records for the same class or balance win, and balances of owners
    /// that are not valid identifiers are dropped.
    pub fn load(
        path: &str,
        classes: Vec<(String, TokenClass)>,
        balances: Vec<(String, String, u64)>,
        transfers: Vec<TransferRecord>,
    ) -> (r: FileResourceLedger)
        ensures
            r.inv(),
            r.spec_path() == path@,
            r.classes_view() == assoc_map(class_records_view(classes@)),
            r.balances_view() == loaded_token_balances(triples_view(balances@)),
            r.history_view() == transfers@.map_values(|t: TransferRecord| t.view()),
    {
        let mut ledger = FileResourceLedger::new(path);
        let ghost cviews = class_records_view(classes@);
        let mut k: usize = 0;
        proof {
            assert(cviews.take(0) =~= Seq::<(Seq<char>, TokenClassView)>::empty());
        }
        while k < classes.len()
            invariant
                k <= classes@.len(),
                cviews == class_records_view(classes@),
                ledger.inv(),
                ledger.spec_path() == path@,
                ledger.classes_view() == assoc_map(cviews.take(k as int)),
                ledger.balances_view() == Map::<(Seq<char>, Seq<char>), u64>::empty(),
                ledger.history_view().len() == 0,
            decreases classes@.len() - k,
        {
            proof {
                assert(cviews.take(k + 1).drop_last() =~= cviews.take(k as int));
            }
            let class = classes[k].1.duplicate();
            ledger.put_class(&classes[k].0, class);
            k = k + 1;
        }
        proof {
            assert(cviews.take(classes@.len() as int) =~= cviews);
        }
        let ghost bviews = triples_view(balances@);
        let mut i: usize = 0;
        proof {
            assert(bviews.take(0) =~= Seq::<(Seq<char>, Seq<char>, u64)>::empty());
        }
        while i < balances.len()
            invariant
                i <= balances@.len(),
                bviews == triples_view(balances@),
                ledger.inv(),
                ledger.spec_path() == path@,
                ledger.classes_view() == assoc_map(cviews),
                ledger.balances_view() == loaded_token_balances(bviews.take(i as int)),
                ledger.history_view().len() == 0,
            decreases balances@.len() - i,
        {
            proof {
                assert(bviews.take(i + 1).drop_last() =~= bviews.take(i as int));
            }
            let (ref class_id, ref owner_text, amount) = balances[i];
            match Did::from_str(owner_text.as_str()) {
                Ok(owner) => {
                    ledger.put_balance(class_id, &owner, amount);
                },
                Err(_) => {},
            }
            i = i + 1;
        }
        proof {
            assert(bviews.take(balances@.len() as int) =~= bviews);
        }
        let ghost hist = ledger.history_view();
        ledger.transfer_history = transfers;
        proof {
            assert(hist.len() == 0);
        }
        ledger
    }

    /// The stored balances as (class, owner, amount) records, in the order
    /// they were first stored.
    pub fn balance_records(&self) -> (r: Vec<(String, String, u64)>)
        ensures
            triple_pairs(triples_view(r@)) == self.balance_entries(),
    {
        let mut out: Vec<(String, String, u64)> = Vec::new();
        let mut i: usize = 0;
        while i < self.balances.len()
            invariant
                i <= self.balances@.len(),
                out@.len() == i,
                forall|j: int|
                    0 <= j < i ==> (#[trigger] out@[j]).0@ == self.balances@[j].class_id@ && out@[j].1@
                        == self.balances@[j].owner@ && out@[j].2 == self.balances@[j].amount,
            decreases self.balances@.len() - i,
        {
            let e = &self.balances[i];
            out.push((e.class_id.clone(), String::from_str(e.owner.as_str()), e.amount));
            i = i + 1;
        }
        proof {
            let a = triple_pairs(triples_view(out@));
            let b = self.balance_entries();
            assert forall|j: int| 0 <= j < a.len() implies a[j] == b[j] by {
                assert(triples_view(out@)[j] == (out@[j].0@, out@[j].1@, out@[j].2));
            }
            assert(a =~= b);
        }
        out
    }

    /// Every transfer made, oldest first.
    pub fn transfer_records(&self) -> (r: Vec<TransferRecord>)
        ensures
            r@.map_values(|t: TransferRecord| t.view()) == self.history_view(),
    {
        let mut out: Vec<TransferRecord> = Vec::new();
        let mut i: usize = 0;
        while i < self.transfer_history.len()
            invariant
                i <= self.transfer_history@.len(),
                out@.len() == i,
                forall|j: int| 0 <= j < i ==> (#[trigger] out@[j]).view() == self.transfer_history@[j].view(),
            decreases self.transfer_history@.len() - i,
        {
            out.push(self.transfer_history[i].duplicate());
            i = i + 1;
        }
        proof {
            assert(out@.map_values(|t: TransferRecord| t.view()) =~= self.history_view());
        }
        out
    }

    /// Position of the class `class_id`, if present.
    fn find_class(&self, class_id: &String) -> (r: Option<usize>)
        requires
            self.inv(),
        ensures
            r matches Some(i) ==> i < self.classes@.len() && self.classes@[i as int].id@ == class_id@
                && self.classes_view().contains_key(class_id@) && self.classes_view()[class_id@]
                == self.classes@[i as int].class.view(),
            r is None ==> !self.classes_view().contains_key(class_id@),
    {
        let mut i: usize = 0;
        while i < self.classes.len()
            invariant
                i <= self.classes@.len(),
                self.inv(),
                forall|j: int| 0 <= j < i ==> #[trigger] self.classes@[j].id@ != class_id@,
            decreases self.classes@.len() - i,
        {
            if self.classes[i].id == *class_id {
                proof {
                    lemma_assoc_index(class_pairs(self.classes@), i as int);
                }
                return Some(i);
            }
            i = i + 1;
        }
        proof {
            assert forall|j: int| 0 <= j < class_pairs(self.classes@).len() implies #[trigger] class_pairs(
                self.classes@,
            )[j].0 != class_id@ by {
                assert(class_pairs(self.classes@)[j].0 == self.classes@[j].id@);
            }
            lemma_assoc_absent(class_pairs(self.classes@), class_id@);
        }
        None
    }

    /// Position of the balance of `owner` in `class_id`, if present.
    fn find_balance(&self, class_id: &String, owner: &Did) -> (r: Option<usize>)
        requires
            self.inv(),
        ensures
            r matches Some(i) ==> i < self.balances@.len() && balance_pairs(self.balances@)[i as int].0 == (
                class_id@,
                owner@,
            ) && self.balances_view().contains_key((class_id@, owner@)) && self.balances_view()[(class_id@, owner@)]
                == self.balances@[i as int].amount,
            r is None ==> !self.balances_view().contains_key((class_id@, owner@)) && forall|j: int|
                0 <= j < balance_pairs(self.balances@).len() ==> #[trigger] balance_pairs(self.balances@)[j].0 != (
                class_id@,
                owner@,
            ),
    {
        let mut i: usize = 0;
        while i < self.balances.len()
            invariant
                i <= self.balances@.len(),
                self.inv(),
                forall|j: int| 0 <= j < i ==> #[trigger] balance_pairs(self.balances@)[j].0 != (class_id@, owner@),
            decreases self.balances@.len() - i,
        {
            if self.balances[i].class_id == *class_id && self.balances[i].owner.same_as(owner) {
                proof {
                    lemma_assoc_index(balance_pairs(self.balances@), i as int);
                }
                return Some(i);
            }
            i = i + 1;
        }
        proof {
            lemma_assoc_absent(balance_pairs(self.balances@), (class_id@, owner@));
        }
        None
    }

    /// Store `amount` as the balance of `owner` in `class_id`.
    #[verifier::spinoff_prover]
    fn put_balance(&mut self, class_id: &String, owner: &Did, amount: u64)
        requires
            old(self).inv(),
        ensures
            final(self).inv(),
            final(self).balances_view() == old(self).balances_view().insert((class_id@, owner@), amount),
            final(self).classes_view() == old(self).classes_view(),
            final(self).history_view() == old(self).history_view(),
            final(self).spec_path() == old(self).spec_path(),
    {
        proof {
            use_type_invariant(owner);
        }
        let ghost p = balance_pairs(self.balances@);
        match self.find_balance(class_id, owner) {
            Some(i) => {
                proof {
                    lemma_assoc_update(p, i as int, amount);
                }
                self.balances.set(i, BalanceEntry { class_id: class_id.clone(), owner: owner.duplicate(), amount });
                assert(balance_pairs(self.balances@) =~= p.update(i as int, ((class_id@, owner@), amount)));
            },
            None => {
                proof {
                    lemma_assoc_push(p, (class_id@, owner@), amount);
                }
                self.balances.push(BalanceEntry { class_id: class_id.clone(), owner: owner.duplicate(), amount });
                assert(balance_pairs(self.balances@) =~= p.push(((class_id@, owner@), amount)));
            },
        }
    }

    /// Balance of `owner` in `class_id`.
    fn balance_of(&self, class_id: &String, owner: &Did) -> (r: u64)
        requires
            self.inv(),
        ensures
            r == token_balance(self.balances_view(), class_id@, owner@),
    {
        match self.find_balance(class_id, owner) {
            Some(i) => self.balances[i].amount,
            None => 0,
        }
    }

    /// The transfer records that concern `did` in `class_id`, oldest first;
    /// a transfer to oneself is listed twice.
    pub fn history(&self, class_id: &TokenClassId, did: &Did) -> (r: Vec<TransferRecord>)
        ensures
            r@.map_values(|t: TransferRecord| t.view()) == history_for(self.history_view(), class_id@, did@),
    {
        let mut out: Vec<TransferRecord> = Vec::new();
        let mut i: usize = 0;
        while i < self.transfer_history.len()
            invariant
                i <= self.transfer_history@.len(),
                out@.map_values(|t: TransferRecord| t.view()) == history_for(self.history_view().take(i as int), class_id@, did@),
            decreases self.transfer_history@.len() - i,
        {
            let ghost pre = out@;
            let t = &self.transfer_history[i];
            let same_class = t.class_id == *class_id;
            let ghost h = history_for(self.history_view().take(i as int), class_id@, did@);
            proof {
                assert(self.history_view().take(i + 1).drop_last() =~= self.history_view().take(i as int));
                assert(self.history_view().take(i + 1).last() == t.view());
            }
            if same_class && t.from.same_as(did) {
                out.push(t.duplicate());
                assert(out@.map_values(|x: TransferRecord| x.view()) =~= pre.map_values(|x: TransferRecord| x.view()).push(t.view()));
            }
            let ghost mid = out@;
            if same_class && t.to.same_as(did) {
                out.push(t.duplicate());
                assert(out@.map_values(|x: TransferRecord| x.view()) =~= mid.map_values(|x: TransferRecord| x.view()).push(t.view()));
            }
            i = i + 1;
        }
        assert(self.history_view().take(self.transfer_history@.len() as int) =~= self.history_view());
        out
    }

    /// Every class with its id, in order of creation.
    fn classes_list(&self) -> (r: Vec<(TokenClassId, TokenClass)>)
        requires
            self.inv(),
        ensures
            r@.len() == self.classes@.len(),
            forall|i: int| 0 <= i < r@.len() ==> #[trigger] r@[i].0@ == self.classes@[i].id@ && r@[i].1.view()
                == self.classes@[i].class.view(),
    {
        let mut out: Vec<(TokenClassId, TokenClass)> = Vec::new();
        let mut i: usize = 0;
        while i < self.classes.len()
            invariant
                i <= self.classes@.len(),
                out@.len() == i,
                forall|j: int| 0 <= j < i ==> #[trigger] out@[j].0@ == self.classes@[j].id@ && out@[j].1.view()
                    == self.classes@[j].class.view(),
            decreases self.classes@.len() - i,
        {
            let ghost before = out@;
            out.push((self.classes[i].id.clone(), self.classes[i].class.duplicate()));
            proof {
                assert forall|j: int| 0 <= j < i + 1 implies #[trigger] out@[j].0@ == self.classes@[j].id@ && out@[j].1.view()
                    == self.classes@[j].class.view() by {
                    if j < i {
                        assert(out@[j] == before[j]);
                    }
                }
            }
            i = i + 1;
        }
        out
    }
}

impl ResourceLedger for FileResourceLedger {
    open spec fn class_map(&self) -> Map<Seq<char>, TokenClassView> {
        self.classes_view()
    }

    open spec fn token_balances(&self) -> Map<(Seq<char>, Seq<char>), u64> {
        self.balances_view()
    }

    open spec fn ledger_inv(&self) -> bool {
        self.inv()
    }

    open spec fn class_order(&self) -> Seq<Seq<char>> {
        self.class_ids()
    }

    fn create_class(&mut self, class_id: &TokenClassId, class: TokenClass) -> (r: Result<(), CommonError>) {
        match self.find_class(class_id) {
            Some(_) => Err(CommonError::InvalidInputError(join2("Token class already exists: ", class_id.as_str()))),
            None => {
                let ghost p = class_pairs(self.classes@);
                proof {
                    lemma_assoc_dom(p);
                    assert forall|j: int| 0 <= j < p.len() implies #[trigger] p[j].0 != class_id@ by {
                        assert(crate::assoc::assoc_keys(p).contains(p[j].0));
                    }
                    lemma_assoc_push(p, class_id@, class.view());
                }
                let ghost cv = class.view();
                self.classes.push(ClassEntry { id: class_id.clone(), class });
                assert(class_pairs(self.classes@) =~= p.push((class_id@, cv)));
                Ok(())
            },
        }
    }

    fn get_class(&self, class_id: &TokenClassId) -> (r: Option<TokenClass>) {
        match self.find_class(class_id) {
            Some(i) => Some(self.classes[i].class.duplicate()),
            None => None,
        }
    }

    fn update_class(&mut self, class_id: &TokenClassId, class: TokenClass) -> (r: Result<(), CommonError>) {
        match self.find_class(class_id) {
            Some(i) => {
                if !may_update_class(&self.classes[i].class, &class) {
                    return Err(CommonError::PolicyDenied(String::from_str("Only issuer can update token class")));
                }
                let ghost p = class_pairs(self.classes@);
                let ghost cv = class.view();
                proof {
                    lemma_assoc_update(p, i as int, cv);
                }
                self.classes.set(i, ClassEntry { id: class_id.clone(), class });
                assert(class_pairs(self.classes@) =~= p.update(i as int, (class_id@, cv)));
                Ok(())
            },
            None => Err(CommonError::InvalidInputError(join2("Token class not found: ", class_id.as_str()))),
        }
    }

    fn list_classes(&self) -> (r: Vec<(TokenClassId, TokenClass)>) {
        let out = self.classes_list();
        proof {
            let p = class_pairs(self.classes@);
            lemma_assoc_dom(p);
            assert forall|i: int| 0 <= i < out@.len() implies #[trigger] self.classes_view().contains_key(out@[i].0@)
                && self.classes_view()[out@[i].0@] == out@[i].1.view() by {
                lemma_assoc_index(p, i);
            }
            assert forall|k: Seq<char>| #[trigger] self.classes_view().contains_key(k) implies exists|i: int|
                0 <= i < out@.len() && #[trigger] out@[i].0@ == k by {
                assert(crate::assoc::assoc_keys(p).contains(k));
                let j = choose|j: int| 0 <= j < p.len() && #[trigger] p[j].0 == k;
                assert(out@[j].0@ == k);
            }
            let ks = p.map_values(|e: (Seq<char>, TokenClassView)| e.0);
            assert(self.classes_view().dom() =~= ks.to_set()) by {
                assert forall|k: Seq<char>| self.classes_view().dom().contains(k) <==> ks.to_set().contains(k) by {
                    if ks.to_set().contains(k) {
                        let j = choose|j: int| 0 <= j < ks.len() && ks[j] == k;
                        assert(p[j].0 == k);
                    }
                    if self.classes_view().dom().contains(k) {
                        let j = choose|j: int| 0 <= j < p.len() && #[trigger] p[j].0 == k;
                        assert(ks[j] == k);
                    }
                }
            }
            assert(ks.no_duplicates()) by {
                assert forall|a: int, b: int| 0 <= a < ks.len() && 0 <= b < ks.len() && a != b implies ks[a] != ks[b] by {
                    if a < b {
                        assert(p[a].0 != p[b].0);
                    } else {
                        assert(p[b].0 != p[a].0);
                    }
                }
            }
            ks.unique_seq_to_set();
            assert(self.class_ids() == ks);
            assert forall|i: int| 0 <= i < out@.len() implies #[trigger] self.class_order()[i] == out@[i].0@ by {
                assert(ks[i] == p[i].0);
            }
        }
        out
    }

    fn mint(&mut self, class_id: &TokenClassId, owner: &Did, amount: u64) -> (r: Result<(), CommonError>)
        ensures
            r is Ok,
            final(self).history_view() == old(self).history_view(),
    {
        let cur = self.balance_of(class_id, owner);
        self.put_balance(class_id, owner, cur + amount);
        Ok(())
    }

    fn burn(&mut self, class_id: &TokenClassId, owner: &Did, amount: u64) -> (r: Result<(), CommonError>) {
        let cur = self.balance_of(class_id, owner);
        let left = match token_balance_after_burn(cur, amount) {
            Ok(v) => v,
            Err(e) => return Err(e),
        };
        self.put_balance(class_id, owner, left);
        Ok(())
    }

    fn transfer(&mut self, class_id: &TokenClassId, from: &Did, to: &Did, amount: u64) -> (r: Result<(), CommonError>)
        ensures
            r is Ok <==> old(self).classes_view().contains_key(class_id@) && transfer_allowed(
                old(self).classes_view()[class_id@],
                to@,
            ) && amount <= token_balance(old(self).balances_view(), class_id@, from@),
            !old(self).classes_view().contains_key(class_id@) ==> (r matches Err(CommonError::InvalidInputError(_))),
            old(self).classes_view().contains_key(class_id@) && !transfer_allowed(old(self).classes_view()[class_id@], to@)
                ==> (r matches Err(CommonError::PolicyDenied(_))),
            old(self).classes_view().contains_key(class_id@) && amount > token_balance(
                old(self).balances_view(),
                class_id@,
                from@,
            ) ==> (r matches Err(CommonError::PolicyDenied(_))),
            r is Err ==> final(self).history_view() == old(self).history_view(),
            r is Ok ==> final(self).history_view().len() == old(self).history_view().len() + 1,
            r is Ok ==> final(self).history_view().drop_last() == old(self).history_view(),
            r is Ok ==> final(self).history_view().last().class_id == class_id@,
            r is Ok ==> final(self).history_view().last().from == from@,
            r is Ok ==> final(self).history_view().last().to == to@,
            r is Ok ==> final(self).history_view().last().amount == amount,
    {
        let allowed = self.can_transfer(class_id, from, to, amount)?;
        if !allowed {
            return Err(CommonError::PolicyDenied(String::from_str("Transfer not allowed by token rules")));
        }
        let from_bal = self.balance_of(class_id, from);
        if from_bal < amount {
            return Err(CommonError::PolicyDenied(String::from_str("Insufficient balance")));
        }
        self.put_balance(class_id, from, from_bal - amount);
        let to_bal = self.balance_of(class_id, to);
        self.put_balance(class_id, to, to_bal + amount);
        let now = unix_seconds();
        let id_prefix = join2(class_id.as_str(), ":");
        let id_with_from = join2(id_prefix.as_str(), from.as_str());
        let id_with_colon = join2(id_with_from.as_str(), ":");
        let transfer_id = text_with_number(id_with_colon.as_str(), now);
        let record = TransferRecord {
            transfer_id,
            class_id: class_id.clone(),
            from: from.duplicate(),
            to: to.duplicate(),
            amount,
            timestamp: now,
            transaction_hash: text_with_number("hash_", now),
            metadata: Vec::new(),
        };
        self.transfer_history.push(record);
        Ok(())
    }

    fn get_balance(&self, class_id: &TokenClassId, owner: &Did) -> (r: u64) {
        self.balance_of(class_id, owner)
    }

    fn can_transfer(&self, class_id: &TokenClassId, from: &Did, to: &Did, amount: u64) -> (r: Result<bool, CommonError>) {
        match self.find_class(class_id) {
            None => Err(CommonError::InvalidInputError(join2("Token class not found: ", class_id.as_str()))),
            Some(i) => Ok(class_allows_transfer(&self.classes[i].class, to)),
        }
    }

    fn get_transfer_history(&self, class_id: &TokenClassId, did: &Did) -> (r: Vec<TransferRecord>)
        ensures
            r@.map_values(|t: TransferRecord| t.view()) == history_for(self.history_view(), class_id@, did@),
    {
        self.history(class_id, did)
    }
}


/// Stored balances whose owners are all well formed load as the map they
/// list.
proof fn lemma_loaded_tokens_valid(t: Seq<(Seq<char>, Seq<char>, u64)>)
    requires
        forall|i: int| 0 <= i < t.len() ==> crate::did::is_valid_did(#[trigger] t[i].1),
    ensures
        loaded_token_balances(t) == assoc_map(triple_pairs(t)),
    decreases t.len(),
{
    if t.len() > 0 {
        assert(t.last() == t[t.len() - 1]);
        assert forall|i: int| 0 <= i < t.drop_last().len() implies crate::did::is_valid_did(#[trigger] t.drop_last()[i].1) by {
            assert(t.drop_last()[i] == t[i]);
        }
        lemma_loaded_tokens_valid(t.drop_last());
        assert(triple_pairs(t).drop_last() =~= triple_pairs(t.drop_last()));
    }
}

/// Stored token balances read back as they were: loading the records that
/// `balance_records` gives yields the same balances.
pub proof fn law_balance_records_reload(l: FileResourceLedger, t: Seq<(Seq<char>, Seq<char>, u64)>)
    requires
        l.inv(),
        triple_pairs(t) == l.balance_entries(),
    ensures
        loaded_token_balances(t) == l.balances_view(),
{
    assert(t.len() == l.balances@.len()) by {
        assert(triple_pairs(t).len() == t.len());
        assert(balance_pairs(l.balances@).len() == l.balances@.len());
    }
    assert forall|i: int| 0 <= i < t.len() implies crate::did::is_valid_did(#[trigger] t[i].1) by {
        assert(triple_pairs(t)[i] == ((t[i].0, t[i].1), t[i].2));
        assert(balance_pairs(l.balances@)[i] == ((l.balances@[i].class_id@, l.balances@[i].owner@), l.balances@[i].amount));
        assert(l.balance_entries()[i] == balance_pairs(l.balances@)[i]);
    }
    lemma_loaded_tokens_valid(t);
}

} // verus!
