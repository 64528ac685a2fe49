//! The marketplace: offers, bids and completed transactions, and the store
//! that keeps them.

use vstd::prelude::*;
use vstd::string::*;
use crate::assoc::{keys_distinct, assoc_map, lemma_assoc_index, lemma_assoc_absent, lemma_assoc_update, lemma_assoc_push, lemma_assoc_dom, assoc_keys};
use crate::clock::unix_seconds;
use crate::did::Did;
use crate::error::CommonError;
use crate::resource_ledger::{TokenClassId, opt_view, pairs_view, duplicate_opt_string, duplicate_pairs};
use crate::sorting::{sort_indices_desc, sorted_desc_permutation, covers};
use crate::text::join2;

verus! {

/// Types of items that can be traded in the marketplace.
#[derive(Debug)]
pub enum ItemType {
    PhysicalGood { category: String, condition: String },
    Service { service_type: String, duration: Option<String> },
    DigitalGood { content_type: String, license: String },
    LaborHours { skill_type: String, experience_level: String },
    BulkPurchase { target_product: String, minimum_quantity: u64 },
}

/// What an item type says.
pub enum ItemTypeView {
    PhysicalGood(Seq<char>, Seq<char>),
    Service(Seq<char>, Option<Seq<char>>),
    DigitalGood(Seq<char>, Seq<char>),
    LaborHours(Seq<char>, Seq<char>),
    BulkPurchase(Seq<char>, u64),
}

impl ItemType {
    /// What the item type says.
    pub open spec fn view(&self) -> ItemTypeView {
        match self {
            ItemType::PhysicalGood { category, condition } => ItemTypeView::PhysicalGood(category@, condition@),
            ItemType::Service { service_type, duration } => ItemTypeView::Service(service_type@, opt_view(*duration)),
            ItemType::DigitalGood { content_type, license } => ItemTypeView::DigitalGood(content_type@, license@),
            ItemType::LaborHours { skill_type, experience_level } => ItemTypeView::LaborHours(skill_type@, experience_level@),
            ItemType::BulkPurchase { target_product, minimum_quantity } => ItemTypeView::BulkPurchase(
                target_product@,
                *minimum_quantity,
            ),
        }
    }

    /// A copy of the item type.
    pub fn duplicate(&self) -> (r: ItemType)
        ensures
            r.view() == self.view(),
    {
        match self {
            ItemType::PhysicalGood { category, condition } => ItemType::PhysicalGood {
                category: category.clone(),
                condition: condition.clone(),
            },
            ItemType::Service { service_type, duration } => ItemType::Service {
                service_type: service_type.clone(),
                duration: duplicate_opt_string(duration),
            },
            ItemType::DigitalGood { content_type, license } => ItemType::DigitalGood {
                content_type: content_type.clone(),
                license: license.clone(),
            },
            ItemType::LaborHours { skill_type, experience_level } => ItemType::LaborHours {
                skill_type: skill_type.clone(),
                experience_level: experience_level.clone(),
            },
            ItemType::BulkPurchase { target_product, minimum_quantity } => ItemType::BulkPurchase {
                target_product: target_product.clone(),
                minimum_quantity: *minimum_quantity,
            },
        }
    }

    /// Whether two item types say the same.
    pub fn same_as(&self, other: &ItemType) -> (r: bool)
        ensures
            r == (self.view() == other.view()),
    {
        match (self, other) {
            (ItemType::PhysicalGood { category: a, condition: b }, ItemType::PhysicalGood { category: c, condition: d }) => {
                *a == *c && *b == *d
            },
            (ItemType::Service { service_type: a, duration: b }, ItemType::Service { service_type: c, duration: d }) => {
                *a == *c && opt_string_eq(b, d)
            },
            (ItemType::DigitalGood { content_type: a, license: b }, ItemType::DigitalGood { content_type: c, license: d }) => {
                *a == *c && *b == *d
            },
            (
                ItemType::LaborHours { skill_type: a, experience_level: b },
                ItemType::LaborHours { skill_type: c, experience_level: d },
            ) => {
                *a == *c && *b == *d
            },
            (
                ItemType::BulkPurchase { target_product: a, minimum_quantity: b },
                ItemType::BulkPurchase { target_product: c, minimum_quantity: d },
            ) => {
                *a == *c && *b == *d
            },
            _ => false,
        }
    }
}

/// Whether two optional strings have the same text.
pub fn opt_string_eq(a: &Option<String>, b: &Option<String>) -> (r: bool)
    ensures
        r == (opt_view(*a) == opt_view(*b)),
{
    match (a, b) {
        (Some(x), Some(y)) => *x == *y,
        (None, None) => true,
        _ => false,
    }
}

/// Status of a marketplace offer.
#[derive(Debug, Clone, Copy, PartialEq, Eq, Structural)]
pub enum OfferStatus {
    Active,
    Paused,
    Fulfilled,
    Cancelled,
    Expired,
}

/// Status of a marketplace bid.
#[derive(Debug, Clone, Copy, PartialEq, Eq, Structural)]
pub enum BidStatus {
    Active,
    Accepted,
    Rejected,
    Withdrawn,
    Expired,
}

/// Status of a marketplace transaction.
#[derive(Debug, Clone, Copy, PartialEq, Eq, Structural)]
pub enum TransactionStatus {
    Pending,
    InProgress,
    Completed,
    Cancelled,
    Disputed,
}

/// Methods for fulfilling marketplace transactions.
#[derive(Debug)]
pub enum FulfillmentMethod {
    PhysicalDelivery { address: String },
    DigitalDelivery { method: String },
    InPerson { location: String },
    Remote,
}

/// What a fulfilment method says: kind (0 physical, 1 digital, 2 in person,
/// 3 remote) and its text (empty for remote).
pub open spec fn method_view(m: FulfillmentMethod) -> (int, Seq<char>) {
    match m {
        FulfillmentMethod::PhysicalDelivery { address } => (0, address@),
        FulfillmentMethod::DigitalDelivery { method } => (1, method@),
        FulfillmentMethod::InPerson { location } => (2, location@),
        FulfillmentMethod::Remote => (3, Seq::empty()),
    }
}

/// Details about how an item or service will be delivered.
#[derive(Debug)]
pub struct FulfillmentDetails {
    pub method: FulfillmentMethod,
    pub expected_date: Option<u64>,
    pub actual_date: Option<u64>,
    pub tracking_info: Option<String>,
}

/// What fulfilment details say.
pub open spec fn fulfillment_view(f: FulfillmentDetails) -> ((int, Seq<char>), Option<u64>, Option<u64>, Option<Seq<char>>) {
    (method_view(f.method), f.expected_date, f.actual_date, opt_view(f.tracking_info))
}

impl FulfillmentDetails {
    /// A copy of the details.
    pub fn duplicate(&self) -> (r: FulfillmentDetails)
        ensures
            fulfillment_view(r) == fulfillment_view(*self),
    {
        let method = match &self.method {
            FulfillmentMethod::PhysicalDelivery { address } => FulfillmentMethod::PhysicalDelivery { address: address.clone() },
            FulfillmentMethod::DigitalDelivery { method } => FulfillmentMethod::DigitalDelivery { method: method.clone() },
            FulfillmentMethod::InPerson { location } => FulfillmentMethod::InPerson { location: location.clone() },
            FulfillmentMethod::Remote => FulfillmentMethod::Remote,
        };
        FulfillmentDetails {
            method,
            expected_date: self.expected_date,
            actual_date: self.actual_date,
            tracking_info: duplicate_opt_string(&self.tracking_info),
        }
    }
}

/// An offer to sell goods or services for tokens.
#[derive(Debug)]
pub struct MarketplaceOffer {
    pub offer_id: String,
    pub seller: Did,
    pub item_type: ItemType,
    pub description: String,
    pub quantity: u64,
    pub price_per_unit: u64,
    pub payment_token_class: TokenClassId,
    pub scope: Option<String>,
    pub created_at: u64,
    pub expires_at: Option<u64>,
    pub status: OfferStatus,
    pub metadata: Vec<(String, String)>,
}

/// What an offer says.
pub struct OfferView {
    pub offer_id: Seq<char>,
    pub seller: Seq<char>,
    pub item_type: ItemTypeView,
    pub description: Seq<char>,
    pub quantity: u64,
    pub price_per_unit: u64,
    pub payment_token_class: Seq<char>,
    pub scope: Option<Seq<char>>,
    pub created_at: u64,
    pub expires_at: Option<u64>,
    pub status: OfferStatus,
    pub metadata: Seq<(Seq<char>, Seq<char>)>,
}

impl MarketplaceOffer {
    /// What the offer says.
    pub open spec fn view(&self) -> OfferView {
        OfferView {
            offer_id: self.offer_id@,
            seller: self.seller@,
            item_type: self.item_type.view(),
            description: self.description@,
            quantity: self.quantity,
            price_per_unit: self.price_per_unit,
            payment_token_class: self.payment_token_class@,
            scope: opt_view(self.scope),
            created_at: self.created_at,
            expires_at: self.expires_at,
            status: self.status,
            metadata: pairs_view(self.metadata@),
        }
    }

    /// A copy of the offer.
    pub fn duplicate(&self) -> (r: MarketplaceOffer)
        ensures
            r.view() == self.view(),
    {
        MarketplaceOffer {
            offer_id: self.offer_id.clone(),
            seller: self.seller.duplicate(),
            item_type: self.item_type.duplicate(),
            description: self.description.clone(),
            quantity: self.quantity,
            price_per_unit: self.price_per_unit,
            payment_token_class: self.payment_token_class.clone(),
            scope: duplicate_opt_string(&self.scope),
            created_at: self.created_at,
            expires_at: self.expires_at,
            status: self.status,
            metadata: duplicate_pairs(&self.metadata),
        }
    }

    /// An active offer created now, without scope, expiry or metadata.
    fn offer_now(
        offer_id: String,
        seller: Did,
        item_type: ItemType,
        description: String,
        quantity: u64,
        price_per_unit: u64,
        payment_token_class: TokenClassId,
    ) -> (r: Self)
        ensures
            r.offer_id@ == offer_id@,
            r.seller@ == seller@,
            r.item_type.view() == item_type.view(),
            r.description@ == description@,
            r.quantity == quantity,
            r.price_per_unit == price_per_unit,
            r.payment_token_class@ == payment_token_class@,
            r.scope is None,
            r.expires_at is None,
            r.status == OfferStatus::Active,
            r.metadata@.len() == 0,
    {
        MarketplaceOffer {
            offer_id,
            seller,
            item_type,
            description,
            quantity,
            price_per_unit,
            payment_token_class,
            scope: None,
            created_at: unix_seconds(),
            expires_at: None,
            status: OfferStatus::Active,
            metadata: Vec::new(),
        }
    }

    /// Create a new marketplace offer for physical goods.
    pub fn new_physical_good(
        offer_id: String,
        seller: Did,
        description: String,
        category: String,
        condition: String,
        quantity: u64,
        price_per_unit: u64,
        payment_token_class: TokenClassId,
    ) -> (r: Self)
        ensures
            r.offer_id@ == offer_id@,
            r.seller@ == seller@,
            r.item_type.view() == ItemTypeView::PhysicalGood(category@, condition@),
            r.description@ == description@,
            r.quantity == quantity,
            r.price_per_unit == price_per_unit,
            r.payment_token_class@ == payment_token_class@,
            r.scope is None,
            r.expires_at is None,
            r.status == OfferStatus::Active,
            r.metadata@.len() == 0,
    {
        Self::offer_now(
            offer_id,
            seller,
            ItemType::PhysicalGood { category, condition },
            description,
            quantity,
            price_per_unit,
            payment_token_class,
        )
    }

    /// Create a new marketplace offer for services.
    pub fn new_service(
        offer_id: String,
        seller: Did,
        description: String,
        service_type: String,
        duration: Option<String>,
        quantity: u64,
        price_per_unit: u64,
        payment_token_class: TokenClassId,
    ) -> (r: Self)
        ensures
            r.offer_id@ == offer_id@,
            r.seller@ == seller@,
            r.item_type.view() == ItemTypeView::Service(service_type@, opt_view(duration)),
            r.description@ == description@,
            r.quantity == quantity,
            r.price_per_unit == price_per_unit,
            r.payment_token_class@ == payment_token_class@,
            r.scope is None,
            r.expires_at is None,
            r.status == OfferStatus::Active,
            r.metadata@.len() == 0,
    {
        Self::offer_now(
            offer_id,
            seller,
            ItemType::Service { service_type, duration },
            description,
            quantity,
            price_per_unit,
            payment_token_class,
        )
    }

    /// Create a new marketplace offer for labor hours.
    pub fn new_labor_hours(
        offer_id: String,
        seller: Did,
        description: String,
        skill_type: String,
        experience_level: String,
        quantity: u64,
        price_per_unit: u64,
        payment_token_class: TokenClassId,
    ) -> (r: Self)
        ensures
            r.offer_id@ == offer_id@,
            r.seller@ == seller@,
            r.item_type.view() == ItemTypeView::LaborHours(skill_type@, experience_level@),
            r.description@ == description@,
            r.quantity == quantity,
            r.price_per_unit == price_per_unit,
            r.payment_token_class@ == payment_token_class@,
            r.scope is None,
            r.expires_at is None,
            r.status == OfferStatus::Active,
            r.metadata@.len() == 0,
    {
        Self::offer_now(
            offer_id,
            seller,
            ItemType::LaborHours { skill_type, experience_level },
            description,
            quantity,
            price_per_unit,
            payment_token_class,
        )
    }
}

/// A bid to buy goods or services with tokens.
#[derive(Debug)]
pub struct MarketplaceBid {
    pub bid_id: String,
    pub buyer: Did,
    pub offer_id: String,
    pub quantity: u64,
    pub price_per_unit: u64,
    pub payment_token_class: TokenClassId,
    pub created_at: u64,
    pub expires_at: u64,
    pub status: BidStatus,
    pub metadata: Vec<(String, String)>,
}

/// What a bid says.
pub struct BidView {
    pub bid_id: Seq<char>,
    pub buyer: Seq<char>,
    pub offer_id: Seq<char>,
    pub quantity: u64,
    pub price_per_unit: u64,
    pub payment_token_class: Seq<char>,
    pub created_at: u64,
    pub expires_at: u64,
    pub status: BidStatus,
    pub metadata: Seq<(Seq<char>, Seq<char>)>,
}

impl MarketplaceBid {
    /// What the bid says.
    pub open spec fn view(&self) -> BidView {
        BidView {
            bid_id: self.bid_id@,
            buyer: self.buyer@,
            offer_id: self.offer_id@,
            quantity: self.quantity,
            price_per_unit: self.price_per_unit,
            payment_token_class: self.payment_token_class@,
            created_at: self.created_at,
            expires_at: self.expires_at,
            status: self.status,
            metadata: pairs_view(self.metadata@),
        }
    }

    /// A copy of the bid.
    pub fn duplicate(&self) -> (r: MarketplaceBid)
        ensures
            r.view() == self.view(),
    {
        MarketplaceBid {
            bid_id: self.bid_id.clone(),
            buyer: self.buyer.duplicate(),
            offer_id: self.offer_id.clone(),
            quantity: self.quantity,
            price_per_unit: self.price_per_unit,
            payment_token_class: self.payment_token_class.clone(),
            created_at: self.created_at,
            expires_at: self.expires_at,
            status: self.status,
            metadata: duplicate_pairs(&self.metadata),
        }
    }

    /// A new active bid created now, expiring `expires_in_hours` hours later
    /// (the expiry saturates at the largest `u64`).
    pub fn new_bid(
        bid_id: String,
        buyer: Did,
        offer_id: String,
        quantity: u64,
        price_per_unit: u64,
        payment_token_class: TokenClassId,
        expires_in_hours: u64,
    ) -> (r: Self)
        ensures
            r.bid_id@ == bid_id@,
            r.buyer@ == buyer@,
            r.offer_id@ == offer_id@,
            r.quantity == quantity,
            r.price_per_unit == price_per_unit,
            r.payment_token_class@ == payment_token_class@,
            r.expires_at == if r.created_at + expires_in_hours * 3600 <= u64::MAX {
                (r.created_at + expires_in_hours * 3600) as u64
            } else {
                u64::MAX
            },
            r.status == BidStatus::Active,
            r.metadata@.len() == 0,
    {
        let now = unix_seconds();
        let span = expires_in_hours.checked_mul(3600);
        let expires_at = match span {
            Some(s) => now.saturating_add(s),
            None => u64::MAX,
        };
        MarketplaceBid {
            bid_id,
            buyer,
            offer_id,
            quantity,
            price_per_unit,
            payment_token_class,
            created_at: now,
            expires_at,
            status: BidStatus::Active,
            metadata: Vec::new(),
        }
    }
}

/// A completed marketplace transaction.
#[derive(Debug)]
pub struct MarketplaceTransaction {
    pub transaction_id: String,
    pub offer_id: String,
    pub bid_id: String,
    pub seller: Did,
    pub buyer: Did,
    pub item_type: ItemType,
    pub quantity: u64,
    pub price_per_unit: u64,
    pub total_price: u64,
    pub payment_token_class: TokenClassId,
    pub completed_at: u64,
    pub status: TransactionStatus,
    pub fulfillment: FulfillmentDetails,
}

/// What a transaction says.
pub struct TransactionView {
    pub transaction_id: Seq<char>,
    pub offer_id: Seq<char>,
    pub bid_id: Seq<char>,
    pub seller: Seq<char>,
    pub buyer: Seq<char>,
    pub item_type: ItemTypeView,
    pub quantity: u64,
    pub price_per_unit: u64,
    pub total_price: u64,
    pub payment_token_class: Seq<char>,
    pub completed_at: u64,
    pub status: TransactionStatus,
    pub fulfillment: ((int, Seq<char>), Option<u64>, Option<u64>, Option<Seq<char>>),
}

impl MarketplaceTransaction {
    /// What the transaction says.
    pub open spec fn view(&self) -> TransactionView {
        TransactionView {
            transaction_id: self.transaction_id@,
            offer_id: self.offer_id@,
            bid_id: self.bid_id@,
            seller: self.seller@,
            buyer: self.buyer@,
            item_type: self.item_type.view(),
            quantity: self.quantity,
            price_per_unit: self.price_per_unit,
            total_price: self.total_price,
            payment_token_class: self.payment_token_class@,
            completed_at: self.completed_at,
            status: self.status,
            fulfillment: fulfillment_view(self.fulfillment),
        }
    }

    /// A copy of the transaction.
    pub fn duplicate(&self) -> (r: MarketplaceTransaction)
        ensures
            r.view() == self.view(),
    {
        MarketplaceTransaction {
            transaction_id: self.transaction_id.clone(),
            offer_id: self.offer_id.clone(),
            bid_id: self.bid_id.clone(),
            seller: self.seller.duplicate(),
            buyer: self.buyer.duplicate(),
            item_type: self.item_type.duplicate(),
            quantity: self.quantity,
            price_per_unit: self.price_per_unit,
            total_price: self.total_price,
            payment_token_class: self.payment_token_class.clone(),
            completed_at: self.completed_at,
            status: self.status,
            fulfillment: self.fulfillment.duplicate(),
        }
    }
}

/// Filter criteria for searching marketplace offers.
#[derive(Debug)]
pub struct OfferFilter {
    pub item_type: Option<ItemType>,
    pub price_range: Option<(u64, u64)>,
    pub payment_token_class: Option<TokenClassId>,
    pub seller: Option<Did>,
    pub scope: Option<String>,
    pub status: Option<OfferStatus>,
    pub limit: Option<usize>,
}

impl Default for OfferFilter {
    fn default() -> (r: Self)
        ensures
            r.item_type is None,
            r.price_range is None,
            r.payment_token_class is None,
            r.seller is None,
            r.scope is None,
            r.status is None,
            r.limit is None,
    {
        OfferFilter {
            item_type: None,
            price_range: None,
            payment_token_class: None,
            seller: None,
            scope: None,
            status: None,
            limit: None,
        }
    }
}

/// Whether an offer passes every criterion of a filter (the limit aside).
pub open spec fn offer_matches(o: OfferView, f: OfferFilter) -> bool {
    &&& (f.item_type matches Some(t) ==> o.item_type == t.view())
    &&& (f.price_range matches Some((lo, hi)) ==> lo <= o.price_per_unit <= hi)
    &&& (f.payment_token_class matches Some(c) ==> o.payment_token_class == c@)
    &&& (f.seller matches Some(s) ==> o.seller == s@)
    &&& (f.scope matches Some(sc) ==> o.scope == Some(sc@))
    &&& (f.status matches Some(st) ==> o.status == st)
}

/// The filter sets no criterion but, possibly, a price range.
pub open spec fn only_price_criterion(f: OfferFilter) -> bool {
    &&& f.item_type is None
    &&& f.payment_token_class is None
    &&& f.seller is None
    &&& f.scope is None
    &&& f.status is None
}

/// An offer that passes a filter with a price range `(lo, hi)` is priced at
/// least `lo` and at most `hi` per unit; one that passes a filter has the
/// filter's item type, seller, payment class, scope and status when it sets
/// them.
pub proof fn law_filter_keeps_offers_within_its_criteria(o: OfferView, f: OfferFilter)
    ensures
        offer_matches(o, f) ==> (f.price_range matches Some((lo, hi)) ==> lo <= o.price_per_unit && o.price_per_unit
            <= hi),
        offer_matches(o, f) ==> (f.seller matches Some(s) ==> o.seller == s@),
        offer_matches(o, f) ==> (f.payment_token_class matches Some(c) ==> o.payment_token_class == c@),
        offer_matches(o, f) ==> (f.status matches Some(st) ==> o.status == st),
        offer_matches(o, f) ==> (f.item_type matches Some(t) ==> o.item_type == t.view()),
        offer_matches(o, f) ==> (f.scope matches Some(sc) ==> o.scope == Some(sc@)),
{
}

/// A filter with nothing but a price range `(lo, hi)` passes exactly the
/// offers priced from `lo` to `hi` per unit, and a filter without criteria
/// passes every offer.
pub proof fn law_price_range_filter(o: OfferView, f: OfferFilter)
    requires
        only_price_criterion(f),
    ensures
        f.price_range matches Some((lo, hi)) ==> (offer_matches(o, f) <==> lo <= o.price_per_unit
            && o.price_per_unit <= hi),
        f.price_range is None ==> offer_matches(o, f),
{
}

/// Whether `offer` passes `filter`.
pub fn matches_filter(offer: &MarketplaceOffer, filter: &OfferFilter) -> (r: bool)
    ensures
        r == offer_matches(offer.view(), *filter),
        filter.price_range matches Some((lo, hi)) ==> (r ==> lo <= offer.price_per_unit && offer.price_per_unit
            <= hi),
        filter.price_range matches Some((lo, hi)) ==> (only_price_criterion(*filter) ==> (r <==> lo
            <= offer.price_per_unit && offer.price_per_unit <= hi)),
{
    if let Some(t) = &filter.item_type {
        if !offer.item_type.same_as(t) {
            return false;
        }
    }
    if let Some((lo, hi)) = filter.price_range {
        if offer.price_per_unit < lo || offer.price_per_unit > hi {
            return false;
        }
    }
    if let Some(c) = &filter.payment_token_class {
        if offer.payment_token_class != *c {
            return false;
        }
    }
    if let Some(s) = &filter.seller {
        if !offer.seller.same_as(s) {
            return false;
        }
    }
    if let Some(sc) = &filter.scope {
        match &offer.scope {
            Some(os) => {
                if *os != *sc {
                    return false;
                }
            },
            None => {
                return false;
            },
        }
    }
    if let Some(st) = filter.status {
        if offer.status != st {
            return false;
        }
    }
    true
}

/// `out` lists, each once and largest key first, records of `store` that
/// satisfy `keep`; unless a limit cut it at `limit` entries, every such
/// record is listed.
pub open spec fn listed<V>(
    out: Seq<V>,
    store: Map<Seq<char>, V>,
    id: spec_fn(V) -> Seq<char>,
    key: spec_fn(V) -> u64,
    keep: spec_fn(V) -> bool,
    limit: Option<usize>,
) -> bool {
    &&& forall|a: int| 0 <= a < out.len() ==> #[trigger] store.contains_key(id(out[a])) && store[id(out[a])] == out[a]
        && keep(out[a])
    &&& forall|a: int, b: int| 0 <= a < b < out.len() ==> id(#[trigger] out[a]) != id(#[trigger] out[b])
    &&& forall|a: int, b: int| 0 <= a < b < out.len() ==> key(#[trigger] out[a]) >= key(#[trigger] out[b])
    &&& (limit matches Some(n) ==> out.len() <= n)
    &&& forall|k: Seq<char>| #[trigger] store.contains_key(k) && keep(store[k]) ==> (exists|a: int|
        0 <= a < out.len() && id(#[trigger] out[a]) == k) || (limit matches Some(n) && out.len() == n)
}

/// Trait for marketplace functionality.
///
/// An implementation may refuse an operation, and then changes nothing;
/// when it accepts one, it does what the method states.
pub trait MarketplaceStore {
    /// Offers keyed by offer id.
    spec fn offers(&self) -> Map<Seq<char>, OfferView>;

    /// Bids keyed by bid id.
    spec fn bids(&self) -> Map<Seq<char>, BidView>;

    /// Recorded transactions keyed by transaction id.
    spec fn transactions(&self) -> Map<Seq<char>, TransactionView>;

    /// The store's internal invariant.
    spec fn store_inv(&self) -> bool;

    /// Create a new offer; an id already in use is `InvalidInputError`.
    fn create_offer(&mut self, offer: MarketplaceOffer) -> (r: Result<(), CommonError>)
        requires
            old(self).store_inv(),
        ensures
            final(self).store_inv(),
            final(self).bids() == old(self).bids(),
            final(self).transactions() == old(self).transactions(),
            old(self).offers().contains_key(offer.offer_id@) ==> r matches Err(CommonError::InvalidInputError(_)),
            r is Ok ==> final(self).offers() == old(self).offers().insert(offer.offer_id@, offer.view()),
            r is Err ==> final(self).offers() == old(self).offers(),
    ;

    /// Get an offer by id.
    fn get_offer(&self, offer_id: &str) -> (r: Option<MarketplaceOffer>)
        requires
            self.store_inv(),
        ensures
            r is Some <==> self.offers().contains_key(offer_id@),
            r matches Some(o) ==> o.view() == self.offers()[offer_id@],
    ;

    /// Store `offer` under its id, replacing any offer with that id.
    fn update_offer(&mut self, offer: MarketplaceOffer) -> (r: Result<(), CommonError>)
        requires
            old(self).store_inv(),
        ensures
            final(self).store_inv(),
            final(self).bids() == old(self).bids(),
            final(self).transactions() == old(self).transactions(),
            r is Ok ==> final(self).offers() == old(self).offers().insert(offer.offer_id@, offer.view()),
            r is Err ==> final(self).offers() == old(self).offers(),
    ;

    /// Offers that pass the filter, newest first, at most `limit` of them.
    fn list_offers(&self, filter: OfferFilter) -> (r: Vec<MarketplaceOffer>)
        requires
            self.store_inv(),
        ensures
            listed(
                r@.map_values(|o: MarketplaceOffer| o.view()),
                self.offers(),
                |v: OfferView| v.offer_id,
                |v: OfferView| v.created_at,
                |v: OfferView| offer_matches(v, filter),
                filter.limit,
            ),
    ;

    /// Create a new bid; an id already in use is `InvalidInputError`.
    fn create_bid(&mut self, bid: MarketplaceBid) -> (r: Result<(), CommonError>)
        requires
            old(self).store_inv(),
        ensures
            final(self).store_inv(),
            final(self).offers() == old(self).offers(),
            final(self).transactions() == old(self).transactions(),
            old(self).bids().contains_key(bid.bid_id@) ==> r matches Err(CommonError::InvalidInputError(_)),
            r is Ok ==> final(self).bids() == old(self).bids().insert(bid.bid_id@, bid.view()),
            r is Err ==> final(self).bids() == old(self).bids(),
    ;

    /// Get a bid by id.
    fn get_bid(&self, bid_id: &str) -> (r: Option<MarketplaceBid>)
        requires
            self.store_inv(),
        ensures
            r is Some <==> self.bids().contains_key(bid_id@),
            r matches Some(b) ==> b.view() == self.bids()[bid_id@],
    ;

    /// Store `bid` under its id, replacing any bid with that id.
    fn update_bid(&mut self, bid: MarketplaceBid) -> (r: Result<(), CommonError>)
        requires
            old(self).store_inv(),
        ensures
            final(self).store_inv(),
            final(self).offers() == old(self).offers(),
            final(self).transactions() == old(self).transactions(),
            r is Ok ==> final(self).bids() == old(self).bids().insert(bid.bid_id@, bid.view()),
            r is Err ==> final(self).bids() == old(self).bids(),
    ;

    /// Bids on the offer, highest price first.
    fn list_bids_for_offer(&self, offer_id: &str) -> (r: Vec<MarketplaceBid>)
        requires
            self.store_inv(),
        ensures
            listed(
                r@.map_values(|b: MarketplaceBid| b.view()),
                self.bids(),
                |v: BidView| v.bid_id,
                |v: BidView| v.price_per_unit,
                |v: BidView| v.offer_id == offer_id@,
                None,
            ),
    ;

    /// Record a completed transaction; an id already in use is
    /// `InvalidInputError`.
    fn record_transaction(&mut self, transaction: MarketplaceTransaction) -> (r: Result<(), CommonError>)
        requires
            old(self).store_inv(),
        ensures
            final(self).store_inv(),
            final(self).offers() == old(self).offers(),
            final(self).bids() == old(self).bids(),
            old(self).transactions().contains_key(transaction.transaction_id@) ==> r matches Err(
                CommonError::InvalidInputError(_),
            ),
            r is Ok ==> final(self).transactions() == old(self).transactions().insert(
                transaction.transaction_id@,
                transaction.view(),
            ),
            r is Err ==> final(self).transactions() == old(self).transactions(),
    ;

    /// Transactions in which `did` sold or bought, most recent first.
    fn get_transaction_history(&self, did: &Did) -> (r: Vec<MarketplaceTransaction>)
        requires
            self.store_inv(),
        ensures
            listed(
                r@.map_values(|t: MarketplaceTransaction| t.view()),
                self.transactions(),
                |v: TransactionView| v.transaction_id,
                |v: TransactionView| v.completed_at,
                |v: TransactionView| v.seller == did@ || v.buyer == did@,
                None,
            ),
    ;
}

/// (id, view) pairs of offers.
pub open spec fn offer_pairs(s: Seq<MarketplaceOffer>) -> Seq<(Seq<char>, OfferView)> {
    s.map_values(|o: MarketplaceOffer| (o.offer_id@, o.view()))
}

/// (id, view) pairs of bids.
pub open spec fn bid_pairs(s: Seq<MarketplaceBid>) -> Seq<(Seq<char>, BidView)> {
    s.map_values(|b: MarketplaceBid| (b.bid_id@, b.view()))
}

/// (id, view) pairs of transactions.
pub open spec fn tx_pairs(s: Seq<MarketplaceTransaction>) -> Seq<(Seq<char>, TransactionView)> {
    s.map_values(|t: MarketplaceTransaction| (t.transaction_id@, t.view()))
}

/// In-memory marketplace store.
#[derive(Debug)]
pub struct InMemoryMarketplaceStore {
    offers: Vec<MarketplaceOffer>,
    bids: Vec<MarketplaceBid>,
    transactions: Vec<MarketplaceTransaction>,
}

/// The records in `pairs` picked by `order`, in that order.
pub open spec fn picked<V>(pairs: Seq<(Seq<char>, V)>, order: Seq<usize>) -> Seq<V> {
    order.map_values(|i: usize| pairs[i as int].1)
}

/// The listing built from selected positions of a distinct-key list,
/// ordered by key and cut at `limit`, is a faithful listing.
proof fn lemma_listing<V>(
    pairs: Seq<(Seq<char>, V)>,
    sel: Seq<usize>,
    keys: Seq<u64>,
    order: Seq<usize>,
    out: Seq<V>,
    id: spec_fn(V) -> Seq<char>,
    key: spec_fn(V) -> u64,
    keep: spec_fn(V) -> bool,
    limit: Option<usize>,
)
    requires
        pairs.len() <= usize::MAX,
        sel.len() <= usize::MAX,
        keys_distinct(pairs),
        forall|i: int| 0 <= i < pairs.len() ==> #[trigger] id(pairs[i].1) == pairs[i].0,
        sel.no_duplicates(),
        forall|a: int| 0 <= a < sel.len() ==> #[trigger] sel[a] < pairs.len() && keep(pairs[sel[a] as int].1),
        forall|i: int| 0 <= i < pairs.len() && keep(pairs[i].1) ==> #[trigger] sel.contains(i as usize),
        keys.len() == sel.len(),
        forall|a: int| 0 <= a < sel.len() ==> #[trigger] keys[a] == key(pairs[sel[a] as int].1),
        sorted_desc_permutation(keys, order),
        covers(order, keys.len() as int),
        out == (match limit {
            Some(n) => if n <= order.len() { order.take(n as int) } else { order },
            None => order,
        }).map_values(|j: usize| pairs[sel[j as int] as int].1),
    ensures
        listed(out, assoc_map(pairs), id, key, keep, limit),
{
    let m = assoc_map(pairs);
    let full = order;
    let cut = match limit {
        Some(n) => if n <= order.len() { order.take(n as int) } else { order },
        None => order,
    };
    assert forall|a: int| 0 <= a < out.len() implies #[trigger] m.contains_key(id(out[a])) && m[id(out[a])] == out[a]
        && keep(out[a]) by {
        let j = cut[a];
        assert(cut[a] == full[a]);
        let i = sel[j as int] as int;
        lemma_assoc_index(pairs, i);
    }
    assert forall|a: int, b: int| 0 <= a < b < out.len() implies id(#[trigger] out[a]) != id(#[trigger] out[b]) by {
        assert(cut[a] == full[a] && cut[b] == full[b]);
        let ia = sel[full[a] as int] as int;
        let ib = sel[full[b] as int] as int;
        assert(full[a] != full[b]);
        assert(sel[full[a] as int] != sel[full[b] as int]);
        if ia < ib {
            assert(pairs[ia].0 != pairs[ib].0);
        } else {
            assert(pairs[ib].0 != pairs[ia].0);
        }
    }
    assert forall|a: int, b: int| 0 <= a < b < out.len() implies key(#[trigger] out[a]) >= key(#[trigger] out[b]) by {
        assert(cut[a] == full[a] && cut[b] == full[b]);
        assert(keys[full[a] as int] >= keys[full[b] as int]);
    }
    assert forall|k: Seq<char>| #[trigger] m.contains_key(k) && keep(m[k]) implies (exists|a: int|
        0 <= a < out.len() && id(#[trigger] out[a]) == k) || (limit matches Some(n) && out.len() == n) by {
        if !(limit matches Some(n) && out.len() == n) {
            assert(cut == full);
            lemma_assoc_dom(pairs);
            assert(assoc_keys(pairs).contains(k));
            let i = choose|i: int| 0 <= i < pairs.len() && #[trigger] pairs[i].0 == k;
            lemma_assoc_index(pairs, i);
            assert(sel.contains(i as usize));
            let x = choose|x: int| 0 <= x < sel.len() && sel[x] == i as usize;
            assert(order.contains(x as usize));
            let a = choose|a: int| 0 <= a < order.len() && order[a] == x as usize;
            assert(cut[a] == order[a]);
            assert(out[a] == pairs[sel[order[a] as int] as int].1);
            assert(sel[x] == i as usize);
            assert(id(pairs[i].1) == pairs[i].0);
            assert(id(out[a]) == k);
        }
    }
}

impl InMemoryMarketplaceStore {
    /// The offers held, by offer id.
    pub closed spec fn offer_map(&self) -> Map<Seq<char>, OfferView> {
        assoc_map(offer_pairs(self.offers@))
    }

    /// The bids held, by bid id.
    pub closed spec fn bid_map(&self) -> Map<Seq<char>, BidView> {
        assoc_map(bid_pairs(self.bids@))
    }

    /// The transactions held, by transaction id.
    pub closed spec fn transaction_map(&self) -> Map<Seq<char>, TransactionView> {
        assoc_map(tx_pairs(self.transactions@))
    }

    /// The invariant: ids are distinct within offers, bids and transactions.
    pub closed spec fn inv(&self) -> bool {
        &&& keys_distinct(offer_pairs(self.offers@))
        &&& keys_distinct(bid_pairs(self.bids@))
        &&& keys_distinct(tx_pairs(self.transactions@))
    }

    /// An empty store.
    pub fn new() -> (r: InMemoryMarketplaceStore)
        ensures
            r.inv(),
            r.offers() == Map::<Seq<char>, OfferView>::empty(),
            r.bids() == Map::<Seq<char>, BidView>::empty(),
            r.transactions() == Map::<Seq<char>, TransactionView>::empty(),
    {
        let r = InMemoryMarketplaceStore { offers: Vec::new(), bids: Vec::new(), transactions: Vec::new() };
        assert(offer_pairs(r.offers@) =~= Seq::<(Seq<char>, OfferView)>::empty());
        assert(bid_pairs(r.bids@) =~= Seq::<(Seq<char>, BidView)>::empty());
        assert(tx_pairs(r.transactions@) =~= Seq::<(Seq<char>, TransactionView)>::empty());
        r
    }

    fn find_offer(&self, offer_id: &str) -> (r: Option<usize>)
        requires
            self.inv(),
        ensures
            r matches Some(i) ==> i < self.offers@.len() && self.offers@[i as int].offer_id@ == offer_id@
                && self.offers().contains_key(offer_id@) && self.offers()[offer_id@] == self.offers@[i as int].view(),
            r is None ==> !self.offers().contains_key(offer_id@) && forall|j: int| 0 <= j < self.offers@.len()
                ==> #[trigger] self.offers@[j].offer_id@ != offer_id@,
    {
        let key = offer_id.to_owned();
        let mut i: usize = 0;
        while i < self.offers.len()
            invariant
                self.inv(),
                key@ == offer_id@,
                i <= self.offers@.len(),
                forall|j: int| 0 <= j < i ==> #[trigger] self.offers@[j].offer_id@ != offer_id@,
            decreases self.offers@.len() - i,
        {
            if self.offers[i].offer_id == key {
                proof {
                    lemma_assoc_index(offer_pairs(self.offers@), i as int);
                }
                return Some(i);
            }
            i = i + 1;
        }
        proof {
            assert forall|j: int| 0 <= j < offer_pairs(self.offers@).len() implies #[trigger] offer_pairs(self.offers@)[j].0
                != offer_id@ by {
                assert(offer_pairs(self.offers@)[j].0 == self.offers@[j].offer_id@);
            }
            lemma_assoc_absent(offer_pairs(self.offers@), offer_id@);
        }
        None
    }

    fn find_bid(&self, bid_id: &str) -> (r: Option<usize>)
        requires
            self.inv(),
        ensures
            r matches Some(i) ==> i < self.bids@.len() && self.bids@[i as int].bid_id@ == bid_id@
                && self.bids().contains_key(bid_id@) && self.bids()[bid_id@] == self.bids@[i as int].view(),
            r is None ==> !self.bids().contains_key(bid_id@) && forall|j: int| 0 <= j < self.bids@.len()
                ==> #[trigger] self.bids@[j].bid_id@ != bid_id@,
    {
        let key = bid_id.to_owned();
        let mut i: usize = 0;
        while i < self.bids.len()
            invariant
                self.inv(),
                key@ == bid_id@,
                i <= self.bids@.len(),
                forall|j: int| 0 <= j < i ==> #[trigger] self.bids@[j].bid_id@ != bid_id@,
            decreases self.bids@.len() - i,
        {
            if self.bids[i].bid_id == key {
                proof {
                    lemma_assoc_index(bid_pairs(self.bids@), i as int);
                }
                return Some(i);
            }
            i = i + 1;
        }
        proof {
            assert forall|j: int| 0 <= j < bid_pairs(self.bids@).len() implies #[trigger] bid_pairs(self.bids@)[j].0
                != bid_id@ by {
                assert(bid_pairs(self.bids@)[j].0 == self.bids@[j].bid_id@);
            }
            lemma_assoc_absent(bid_pairs(self.bids@), bid_id@);
        }
        None
    }

    fn find_transaction(&self, tx_id: &str) -> (r: Option<usize>)
        requires
            self.inv(),
        ensures
            r is Some ==> self.transactions().contains_key(tx_id@),
            r is None ==> !self.transactions().contains_key(tx_id@) && forall|j: int| 0 <= j < self.transactions@.len()
                ==> #[trigger] self.transactions@[j].transaction_id@ != tx_id@,
    {
        let key = tx_id.to_owned();
        let mut i: usize = 0;
        while i < self.transactions.len()
            invariant
                self.inv(),
                key@ == tx_id@,
                i <= self.transactions@.len(),
                forall|j: int| 0 <= j < i ==> #[trigger] self.transactions@[j].transaction_id@ != tx_id@,
            decreases self.transactions@.len() - i,
        {
            if self.transactions[i].transaction_id == key {
                proof {
                    lemma_assoc_index(tx_pairs(self.transactions@), i as int);
                }
                return Some(i);
            }
            i = i + 1;
        }
        proof {
            assert forall|j: int| 0 <= j < tx_pairs(self.transactions@).len() implies #[trigger] tx_pairs(self.transactions@)[j].0
                != tx_id@ by {
                assert(tx_pairs(self.transactions@)[j].0 == self.transactions@[j].transaction_id@);
            }
            lemma_assoc_absent(tx_pairs(self.transactions@), tx_id@);
        }
        None
    }

    fn put_offer(&mut self, offer: MarketplaceOffer)
        requires
            old(self).inv(),
        ensures
            final(self).inv(),
            final(self).offers() == old(self).offers().insert(offer.offer_id@, offer.view()),
            final(self).bids() == old(self).bids(),
            final(self).transactions() == old(self).transactions(),
    {
        let ghost p = offer_pairs(self.offers@);
        let ghost v = offer.view();
        match self.find_offer(offer.offer_id.as_str()) {
            Some(i) => {
                proof {
                    lemma_assoc_update(p, i as int, v);
                }
                self.offers.set(i, offer);
                assert(offer_pairs(self.offers@) =~= p.update(i as int, (p[i as int].0, v)));
            },
            None => {
                proof {
                    assert forall|j: int| 0 <= j < p.len() implies #[trigger] p[j].0 != v.offer_id by {
                        assert(p[j].0 == self.offers@[j].offer_id@);
                    }
                    lemma_assoc_push(p, v.offer_id, v);
                }
                self.offers.push(offer);
                assert(offer_pairs(self.offers@) =~= p.push((v.offer_id, v)));
            },
        }
    }

    fn put_bid(&mut self, bid: MarketplaceBid)
        requires
            old(self).inv(),
        ensures
            final(self).inv(),
            final(self).bids() == old(self).bids().insert(bid.bid_id@, bid.view()),
            final(self).offers() == old(self).offers(),
            final(self).transactions() == old(self).transactions(),
    {
        let ghost p = bid_pairs(self.bids@);
        let ghost v = bid.view();
        match self.find_bid(bid.bid_id.as_str()) {
            Some(i) => {
                proof {
                    lemma_assoc_update(p, i as int, v);
                }
                self.bids.set(i, bid);
                assert(bid_pairs(self.bids@) =~= p.update(i as int, (p[i as int].0, v)));
            },
            None => {
                proof {
                    assert forall|j: int| 0 <= j < p.len() implies #[trigger] p[j].0 != v.bid_id by {
                        assert(p[j].0 == self.bids@[j].bid_id@);
                    }
                    lemma_assoc_push(p, v.bid_id, v);
                }
                self.bids.push(bid);
                assert(bid_pairs(self.bids@) =~= p.push((v.bid_id, v)));
            },
        }
    }
}

impl MarketplaceStore for InMemoryMarketplaceStore {
    open spec fn offers(&self) -> Map<Seq<char>, OfferView> {
        self.offer_map()
    }

    open spec fn bids(&self) -> Map<Seq<char>, BidView> {
        self.bid_map()
    }

    open spec fn transactions(&self) -> Map<Seq<char>, TransactionView> {
        self.transaction_map()
    }

    open spec fn store_inv(&self) -> bool {
        self.inv()
    }

    fn create_offer(&mut self, offer: MarketplaceOffer) -> (r: Result<(), CommonError>) {
        if self.find_offer(offer.offer_id.as_str()).is_some() {
            return Err(CommonError::InvalidInputError(join2("Offer already exists: ", offer.offer_id.as_str())));
        }
        self.put_offer(offer);
        Ok(())
    }

    fn get_offer(&self, offer_id: &str) -> (r: Option<MarketplaceOffer>) {
        match self.find_offer(offer_id) {
            Some(i) => Some(self.offers[i].duplicate()),
            None => None,
        }
    }

    fn update_offer(&mut self, offer: MarketplaceOffer) -> (r: Result<(), CommonError>)
        ensures
            r is Ok,
    {
        self.put_offer(offer);
        Ok(())
    }

    fn list_offers(&self, filter: OfferFilter) -> (r: Vec<MarketplaceOffer>) {
        let ghost pairs = offer_pairs(self.offers@);
        let mut sel: Vec<usize> = Vec::new();
        let mut keys: Vec<u64> = Vec::new();
        let mut i: usize = 0;
        while i < self.offers.len()
            invariant
                i <= self.offers@.len(),
                pairs == offer_pairs(self.offers@),
                sel@.len() == keys@.len(),
                sel@.no_duplicates(),
                forall|a: int| 0 <= a < sel@.len() ==> #[trigger] sel@[a] < i && offer_matches(
                    pairs[sel@[a] as int].1,
                    filter,
                ),
                forall|j: int| 0 <= j < i && offer_matches(pairs[j].1, filter) ==> #[trigger] sel@.contains(j as usize),
                forall|a: int| 0 <= a < sel@.len() ==> #[trigger] keys@[a] == pairs[sel@[a] as int].1.created_at,
            decreases self.offers@.len() - i,
        {
            if matches_filter(&self.offers[i], &filter) {
                let ghost before = sel@;
                sel.push(i);
                keys.push(self.offers[i].created_at);
                proof {
                    assert(sel@.no_duplicates()) by {
                        assert forall|a: int, b: int| 0 <= a < sel@.len() && 0 <= b < sel@.len() && a != b implies sel@[a] != sel@[b] by {
                            if a < before.len() && b < before.len() {
                                assert(sel@[a] == before[a] && sel@[b] == before[b]);
                            } else if a < before.len() {
                                assert(sel@[a] == before[a]);
                            } else if b < before.len() {
                                assert(sel@[b] == before[b]);
                            }
                        }
                    }
                    assert forall|j: int| 0 <= j < i + 1 && offer_matches(pairs[j].1, filter) implies #[trigger] sel@.contains(j as usize) by {
                        if j < i {
                            assert(before.contains(j as usize));
                            let a = choose|a: int| 0 <= a < before.len() && before[a] == j as usize;
                            assert(sel@[a] == j as usize);
                        } else {
                            assert(sel@[before.len() as int] == j as usize);
                        }
                    }
                }
            }
            i = i + 1;
        }
        let order = sort_indices_desc(&keys);
        let mut out: Vec<MarketplaceOffer> = Vec::new();
        let mut j: usize = 0;
        while j < order.len()
            invariant
                j <= order@.len(),
                out@.len() == j,
                order@.len() == keys@.len(),
                sel@.len() == keys@.len(),
                forall|a: int| 0 <= a < order@.len() ==> #[trigger] order@[a] < keys@.len(),
                forall|a: int| 0 <= a < sel@.len() ==> #[trigger] sel@[a] < self.offers@.len(),
                forall|a: int| 0 <= a < j ==> #[trigger] out@[a].view() == pairs[sel@[order@[a] as int] as int].1,
                pairs == offer_pairs(self.offers@),
            decreases order@.len() - j,
        {
            let idx = sel[order[j]];
            out.push(self.offers[idx].duplicate());
            j = j + 1;
        }
        if let Some(limit) = filter.limit {
            out.truncate(limit);
        }
        proof {
            assert forall|x: int| 0 <= x < pairs.len() implies (#[trigger] pairs[x]).1.offer_id == pairs[x].0 by {}
            let outv = out@.map_values(|o: MarketplaceOffer| o.view());
            let cut = match filter.limit {
                Some(n) => if n <= order@.len() { order@.take(n as int) } else { order@ },
                None => order@,
            };
            assert(outv =~= cut.map_values(|x: usize| pairs[sel@[x as int] as int].1));
            lemma_listing(
                pairs,
                sel@,
                keys@,
                order@,
                outv,
                |v: OfferView| v.offer_id,
                |v: OfferView| v.created_at,
                |v: OfferView| offer_matches(v, filter),
                filter.limit,
            );
        }
        out
    }

    fn create_bid(&mut self, bid: MarketplaceBid) -> (r: Result<(), CommonError>) {
        if self.find_bid(bid.bid_id.as_str()).is_some() {
            return Err(CommonError::InvalidInputError(join2("Bid already exists: ", bid.bid_id.as_str())));
        }
        self.put_bid(bid);
        Ok(())
    }

    fn get_bid(&self, bid_id: &str) -> (r: Option<MarketplaceBid>) {
        match self.find_bid(bid_id) {
            Some(i) => Some(self.bids[i].duplicate()),
            None => None,
        }
    }

    fn update_bid(&mut self, bid: MarketplaceBid) -> (r: Result<(), CommonError>)
        ensures
            r is Ok,
    {
        self.put_bid(bid);
        Ok(())
    }

    fn list_bids_for_offer(&self, offer_id: &str) -> (r: Vec<MarketplaceBid>) {
        let ghost pairs = bid_pairs(self.bids@);
        let key = offer_id.to_owned();
        let mut sel: Vec<usize> = Vec::new();
        let mut keys: Vec<u64> = Vec::new();
        let mut i: usize = 0;
        while i < self.bids.len()
            invariant
                key@ == offer_id@,
                i <= self.bids@.len(),
                pairs == bid_pairs(self.bids@),
                sel@.len() == keys@.len(),
                sel@.no_duplicates(),
                forall|a: int| 0 <= a < sel@.len() ==> #[trigger] sel@[a] < i && pairs[sel@[a] as int].1.offer_id == offer_id@,
                forall|j: int| 0 <= j < i && pairs[j].1.offer_id == offer_id@ ==> #[trigger] sel@.contains(j as usize),
                forall|a: int| 0 <= a < sel@.len() ==> #[trigger] keys@[a] == pairs[sel@[a] as int].1.price_per_unit,
            decreases self.bids@.len() - i,
        {
            if self.bids[i].offer_id == key {
                let ghost before = sel@;
                sel.push(i);
                keys.push(self.bids[i].price_per_unit);
                proof {
                    assert(sel@.no_duplicates()) by {
                        assert forall|a: int, b: int| 0 <= a < sel@.len() && 0 <= b < sel@.len() && a != b implies sel@[a] != sel@[b] by {
                            if a < before.len() && b < before.len() {
                                assert(sel@[a] == before[a] && sel@[b] == before[b]);
                            } else if a < before.len() {
                                assert(sel@[a] == before[a]);
                            } else if b < before.len() {
                                assert(sel@[b] == before[b]);
                            }
                        }
                    }
                    assert forall|j: int| 0 <= j < i + 1 && pairs[j].1.offer_id == offer_id@ implies #[trigger] sel@.contains(j as usize) by {
                        if j < i {
                            assert(before.contains(j as usize));
                            let a = choose|a: int| 0 <= a < before.len() && before[a] == j as usize;
                            assert(sel@[a] == j as usize);
                        } else {
                            assert(sel@[before.len() as int] == j as usize);
                        }
                    }
                }
            }
            i = i + 1;
        }
        let order = sort_indices_desc(&keys);
        let mut out: Vec<MarketplaceBid> = Vec::new();
        let mut j: usize = 0;
        while j < order.len()
            invariant
                j <= order@.len(),
                out@.len() == j,
                order@.len() == keys@.len(),
                sel@.len() == keys@.len(),
                forall|a: int| 0 <= a < order@.len() ==> #[trigger] order@[a] < keys@.len(),
                forall|a: int| 0 <= a < sel@.len() ==> #[trigger] sel@[a] < self.bids@.len(),
                forall|a: int| 0 <= a < j ==> #[trigger] out@[a].view() == pairs[sel@[order@[a] as int] as int].1,
                pairs == bid_pairs(self.bids@),
            decreases order@.len() - j,
        {
            let idx = sel[order[j]];
            out.push(self.bids[idx].duplicate());
            j = j + 1;
        }
        proof {
            assert forall|x: int| 0 <= x < pairs.len() implies (#[trigger] pairs[x]).1.bid_id == pairs[x].0 by {}
            let outv = out@.map_values(|b: MarketplaceBid| b.view());
            assert(outv =~= order@.map_values(|x: usize| pairs[sel@[x as int] as int].1));
            lemma_listing(
                pairs,
                sel@,
                keys@,
                order@,
                outv,
                |v: BidView| v.bid_id,
                |v: BidView| v.price_per_unit,
                |v: BidView| v.offer_id == offer_id@,
                None,
            );
        }
        out
    }

    fn record_transaction(&mut self, transaction: MarketplaceTransaction) -> (r: Result<(), CommonError>) {
        if self.find_transaction(transaction.transaction_id.as_str()).is_some() {
            return Err(
                CommonError::InvalidInputError(join2("Transaction already exists: ", transaction.transaction_id.as_str())),
            );
        }
        let ghost p = tx_pairs(self.transactions@);
        let ghost v = transaction.view();
        proof {
            assert forall|j: int| 0 <= j < p.len() implies #[trigger] p[j].0 != v.transaction_id by {
                assert(p[j].0 == self.transactions@[j].transaction_id@);
            }
            lemma_assoc_push(p, v.transaction_id, v);
        }
        self.transactions.push(transaction);
        assert(tx_pairs(self.transactions@) =~= p.push((v.transaction_id, v)));
        Ok(())
    }

    fn get_transaction_history(&self, did: &Did) -> (r: Vec<MarketplaceTransaction>) {
        let ghost pairs = tx_pairs(self.transactions@);
        let mut sel: Vec<usize> = Vec::new();
        let mut keys: Vec<u64> = Vec::new();
        let mut i: usize = 0;
        while i < self.transactions.len()
            invariant
                i <= self.transactions@.len(),
                pairs == tx_pairs(self.transactions@),
                sel@.len() == keys@.len(),
                sel@.no_duplicates(),
                forall|a: int| 0 <= a < sel@.len() ==> #[trigger] sel@[a] < i && (pairs[sel@[a] as int].1.seller == did@
                    || pairs[sel@[a] as int].1.buyer == did@),
                forall|j: int| 0 <= j < i && (pairs[j].1.seller == did@ || pairs[j].1.buyer == did@) ==> #[trigger] sel@.contains(
                    j as usize,
                ),
                forall|a: int| 0 <= a < sel@.len() ==> #[trigger] keys@[a] == pairs[sel@[a] as int].1.completed_at,
            decreases self.transactions@.len() - i,
        {
            if self.transactions[i].seller.same_as(did) || self.transactions[i].buyer.same_as(did) {
                let ghost before = sel@;
                sel.push(i);
                keys.push(self.transactions[i].completed_at);
                proof {
                    assert(sel@.no_duplicates()) by {
                        assert forall|a: int, b: int| 0 <= a < sel@.len() && 0 <= b < sel@.len() && a != b implies sel@[a] != sel@[b] by {
                            if a < before.len() && b < before.len() {
                                assert(sel@[a] == before[a] && sel@[b] == before[b]);
                            } else if a < before.len() {
                                assert(sel@[a] == before[a]);
                            } else if b < before.len() {
                                assert(sel@[b] == before[b]);
                            }
                        }
                    }
                    assert forall|j: int| 0 <= j < i + 1 && (pairs[j].1.seller == did@ || pairs[j].1.buyer == did@) implies #[trigger] sel@.contains(
                        j as usize,
                    ) by {
                        if j < i {
                            assert(before.contains(j as usize));
                            let a = choose|a: int| 0 <= a < before.len() && before[a] == j as usize;
                            assert(sel@[a] == j as usize);
                        } else {
                            assert(sel@[before.len() as int] == j as usize);
                        }
                    }
                }
            }
            i = i + 1;
        }
        let order = sort_indices_desc(&keys);
        let mut out: Vec<MarketplaceTransaction> = Vec::new();
        let mut j: usize = 0;
        while j < order.len()
            invariant
                j <= order@.len(),
                out@.len() == j,
                order@.len() == keys@.len(),
                sel@.len() == keys@.len(),
                forall|a: int| 0 <= a < order@.len() ==> #[trigger] order@[a] < keys@.len(),
                forall|a: int| 0 <= a < sel@.len() ==> #[trigger] sel@[a] < self.transactions@.len(),
                forall|a: int| 0 <= a < j ==> #[trigger] out@[a].view() == pairs[sel@[order@[a] as int] as int].1,
                pairs == tx_pairs(self.transactions@),
            decreases order@.len() - j,
        {
            let idx = sel[order[j]];
            out.push(self.transactions[idx].duplicate());
            j = j + 1;
        }
        proof {
            assert forall|x: int| 0 <= x < pairs.len() implies (#[trigger] pairs[x]).1.transaction_id == pairs[x].0 by {}
            let outv = out@.map_values(|t: MarketplaceTransaction| t.view());
            assert(outv =~= order@.map_values(|x: usize| pairs[sel@[x as int] as int].1));
            lemma_listing(
                pairs,
                sel@,
                keys@,
                order@,
                outv,
                |v: TransactionView| v.transaction_id,
                |v: TransactionView| v.completed_at,
                |v: TransactionView| v.seller == did@ || v.buyer == did@,
                None,
            );
        }
        out
    }
}

} // verus!
