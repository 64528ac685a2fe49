//! Mutual aid between members: requests and offers of aid, which of them
//! can be matched, and the transfer that carries out a match.

use vstd::prelude::*;
use vstd::string::*;
use crate::did::Did;
use crate::error::CommonError;
use crate::mana_ledger::{ManaLedger, balance_in};
use crate::disputes::{apply_step, applied_outcome, steps_applied, steps_fit, balance_after, duplicate_texts, texts_view};
use crate::text::join2;
use crate::clock::unix_seconds;

verus! {

/// Types of aid that can be requested or offered.
#[derive(Debug)]
pub enum AidType {
    Emergency { emergency_type: String },
    BasicNeeds { need_type: String },
    Skills { skill_categories: Vec<String> },
    Resources { resource_types: Vec<String> },
    Care { care_type: String },
    Knowledge { knowledge_areas: Vec<String> },
    Infrastructure { infrastructure_type: String },
    Emotional { support_type: String },
}

/// What a kind of aid says: its variant, in the order of the variants, and
/// its texts.
pub open spec fn aid_type_view(a: AidType) -> (int, Seq<Seq<char>>) {
    match a {
        AidType::Emergency { emergency_type } => (0, seq![emergency_type@]),
        AidType::BasicNeeds { need_type } => (1, seq![need_type@]),
        AidType::Skills { skill_categories } => (2, texts_view(skill_categories@)),
        AidType::Resources { resource_types } => (3, texts_view(resource_types@)),
        AidType::Care { care_type } => (4, seq![care_type@]),
        AidType::Knowledge { knowledge_areas } => (5, texts_view(knowledge_areas@)),
        AidType::Infrastructure { infrastructure_type } => (6, seq![infrastructure_type@]),
        AidType::Emotional { support_type } => (7, seq![support_type@]),
    }
}

/// A request for aid of kind `req` can be met by an offer of kind `off`:
/// emergencies and basic needs of the same type, or resources with a type in
/// common. No other kinds are matched.
pub open spec fn aid_compatible(req: AidType, off: AidType) -> bool {
    match req {
        AidType::Emergency { emergency_type: r } => off matches AidType::Emergency { emergency_type: o } && r@ == o@,
        AidType::BasicNeeds { need_type: r } => off matches AidType::BasicNeeds { need_type: o } && r@ == o@,
        AidType::Resources { resource_types: r } => off matches AidType::Resources { resource_types: o }
            && exists|i: int, j: int| 0 <= i < r@.len() && 0 <= j < o@.len() && #[trigger] r@[i]@ == #[trigger] o@[j]@,
        _ => false,
    }
}

impl AidType {
    /// A copy of the kind of aid.
    pub fn duplicate(&self) -> (r: AidType)
        ensures
            aid_type_view(r) == aid_type_view(*self),
    {
        match self {
            AidType::Emergency { emergency_type } => AidType::Emergency { emergency_type: emergency_type.clone() },
            AidType::BasicNeeds { need_type } => AidType::BasicNeeds { need_type: need_type.clone() },
            AidType::Skills { skill_categories } => AidType::Skills { skill_categories: duplicate_texts(skill_categories) },
            AidType::Resources { resource_types } => AidType::Resources { resource_types: duplicate_texts(resource_types) },
            AidType::Care { care_type } => AidType::Care { care_type: care_type.clone() },
            AidType::Knowledge { knowledge_areas } => AidType::Knowledge { knowledge_areas: duplicate_texts(knowledge_areas) },
            AidType::Infrastructure { infrastructure_type } => AidType::Infrastructure {
                infrastructure_type: infrastructure_type.clone(),
            },
            AidType::Emotional { support_type } => AidType::Emotional { support_type: support_type.clone() },
        }
    }
}

/// Whether `list` holds the text `item`.
fn holds_text(list: &Vec<String>, item: &String) -> (r: bool)
    ensures
        r == exists|j: int| 0 <= j < list@.len() && #[trigger] list@[j]@ == item@,
{
    let mut j: usize = 0;
    while j < list.len()
        invariant
            j <= list@.len(),
            forall|k: int| 0 <= k < j ==> #[trigger] list@[k]@ != item@,
        decreases list@.len() - j,
    {
        if list[j] == *item {
            return true;
        }
        j = j + 1;
    }
    false
}

/// Whether some text of `req` is also in `off`.
fn share_a_text(req: &Vec<String>, off: &Vec<String>) -> (r: bool)
    ensures
        r == exists|i: int, j: int| 0 <= i < req@.len() && 0 <= j < off@.len() && #[trigger] req@[i]@ == #[trigger] off@[j]@,
{
    let mut i: usize = 0;
    while i < req.len()
        invariant
            i <= req@.len(),
            forall|a: int, b: int| 0 <= a < i && 0 <= b < off@.len() ==> #[trigger] req@[a]@ != #[trigger] off@[b]@,
        decreases req@.len() - i,
    {
        if holds_text(off, &req[i]) {
            proof {
                let j = choose|j: int| 0 <= j < off@.len() && #[trigger] off@[j]@ == req@[i as int]@;
                assert(req@[i as int]@ == off@[j]@);
            }
            return true;
        }
        i = i + 1;
    }
    false
}

/// A basic-needs request is met by a basic-needs offer exactly when both
/// name the same need, and an emergency request by an emergency offer
/// exactly when both name the same emergency.
pub proof fn law_same_need_is_compatible(t: String, u: String)
    ensures
        aid_compatible(AidType::BasicNeeds { need_type: t }, AidType::BasicNeeds { need_type: u }) <==> t@ == u@,
        aid_compatible(AidType::Emergency { emergency_type: t }, AidType::Emergency { emergency_type: u }) <==> t@
            == u@,
        aid_compatible(AidType::BasicNeeds { need_type: t }, AidType::BasicNeeds { need_type: t }),
        aid_compatible(AidType::Emergency { emergency_type: t }, AidType::Emergency { emergency_type: t }),
{
}

/// A resources request is met by a resources offer exactly when some type
/// requested is offered.
pub proof fn law_resources_compatible_when_a_type_is_shared(req: AidType, off: AidType)
    ensures
        req matches AidType::Resources { resource_types: r } ==> (off matches AidType::Resources {
            resource_types: o,
        } ==> (aid_compatible(req, off) <==> exists|i: int, j: int|
            0 <= i < r@.len() && 0 <= j < o@.len() && #[trigger] r@[i]@ == #[trigger] o@[j]@)),
{
}

/// Aid is matched only within one kind (emergency, basic needs or
/// resources), and whether a request can be met by an offer does not depend
/// on which of the two is the request.
pub proof fn law_compatible_within_one_kind(req: AidType, off: AidType)
    ensures
        aid_compatible(req, off) ==> aid_type_view(req).0 == aid_type_view(off).0,
        aid_compatible(req, off) ==> (aid_type_view(req).0 == 0 || aid_type_view(req).0 == 1 || aid_type_view(
            req,
        ).0 == 3),
        aid_compatible(req, off) == aid_compatible(off, req),
{
    if let AidType::Resources { resource_types: r } = req {
        if let AidType::Resources { resource_types: o } = off {
            if aid_compatible(req, off) {
                let (i, j) = choose|i: int, j: int|
                    0 <= i < r@.len() && 0 <= j < o@.len() && #[trigger] r@[i]@ == #[trigger] o@[j]@;
                assert(o@[j]@ == r@[i]@);
            }
            if aid_compatible(off, req) {
                let (j, i) = choose|j: int, i: int|
                    0 <= j < o@.len() && 0 <= i < r@.len() && #[trigger] o@[j]@ == #[trigger] r@[i]@;
                assert(r@[i]@ == o@[j]@);
            }
        }
    }
}

/// Whether an offer of kind `offer_type` can meet a request of kind
/// `request_type`.
pub fn aid_types_compatible(request_type: &AidType, offer_type: &AidType) -> (r: bool)
    ensures
        r == aid_compatible(*request_type, *offer_type),
        request_type matches AidType::BasicNeeds { need_type: q } ==> (offer_type matches AidType::BasicNeeds {
            need_type: p,
        } ==> r == (q@ == p@)),
        request_type matches AidType::Emergency { emergency_type: q } ==> (offer_type matches AidType::Emergency {
            emergency_type: p,
        } ==> r == (q@ == p@)),
        r ==> aid_type_view(*request_type).0 == aid_type_view(*offer_type).0,
{
    match (request_type, offer_type) {
        (AidType::Emergency { emergency_type: req }, AidType::Emergency { emergency_type: off }) => *req == *off,
        (AidType::BasicNeeds { need_type: req }, AidType::BasicNeeds { need_type: off }) => *req == *off,
        (AidType::Resources { resource_types: req }, AidType::Resources { resource_types: off }) => share_a_text(req, off),
        _ => false,
    }
}

/// Status of aid transactions.
#[derive(Debug, Clone, Copy, PartialEq, Eq, Structural)]
pub enum AidTransactionStatus {
    Pending,
    Completed,
    Failed,
    Disputed,
}

/// Transaction record for executed aid.
#[derive(Debug)]
pub struct AidTransaction {
    pub transaction_id: String,
    pub request_id: String,
    pub offer_id: String,
    pub provider: Did,
    pub recipient: Did,
    pub amount: u64,
    pub aid_type: AidType,
    pub executed_at: u64,
    pub status: AidTransactionStatus,
}

/// `t` records the completed transfer of `amount` of aid of kind `aid_type`
/// from `provider` to `recipient` at `now`, for request `request_id` and
/// offer `offer_id`, under the id `aid_{request}_{offer}`.
pub open spec fn is_aid_transaction(
    t: AidTransaction,
    request_id: Seq<char>,
    offer_id: Seq<char>,
    provider: Did,
    recipient: Did,
    aid_type: AidType,
    amount: u64,
    now: u64,
) -> bool {
    &&& t.transaction_id@ == "aid_"@ + request_id + "_"@ + offer_id
    &&& t.request_id@ == request_id
    &&& t.offer_id@ == offer_id
    &&& t.provider == provider
    &&& t.recipient == recipient
    &&& t.amount == amount
    &&& aid_type_view(t.aid_type) == aid_type_view(aid_type)
    &&& t.executed_at == now
    &&& t.status == AidTransactionStatus::Completed
}

/// The mana movements of an aid transfer: `amount` out of the provider's
/// account, then into the recipient's.
pub open spec fn aid_steps(provider: Seq<char>, recipient: Seq<char>, amount: u64) -> Seq<(Seq<char>, int)> {
    seq![(provider, -(amount as int)), (recipient, amount as int)]
}

/// Carry out a match at time `now`: `amount` is spent from the provider's
/// account and credited to the requester's, and the completed transaction
/// is recorded under the id `aid_{request}_{offer}`. When the ledger refuses
/// the debit nothing moves; when it refuses the credit, the debit stands.
pub fn execute_aid_transfer_at<L: ManaLedger>(
    ledger: &mut L,
    request_id: &str,
    requester: &Did,
    offer_id: &str,
    provider: &Did,
    aid_type: &AidType,
    amount: u64,
    now: u64,
) -> (r: Result<AidTransaction, CommonError>)
    requires
        old(ledger).well_formed(),
    ensures
        final(ledger).well_formed(),
        applied_outcome(
            match r {
                Ok(_) => Ok(()),
                Err(e) => Err(e),
            },
            old(ledger).balances(),
            final(ledger).balances(),
            aid_steps(provider@, requester@, amount),
        ),
        r matches Ok(t) ==> is_aid_transaction(t, request_id@, offer_id@, *provider, *requester, *aid_type, amount, now),
{
    let ghost before = ledger.balances();
    let ghost steps = aid_steps(provider@, requester@, amount);
    proof {
        assert(steps.take(0) =~= Seq::<(Seq<char>, int)>::empty());
    }
    match apply_step(ledger, provider, -(amount as i128), Ghost(before), Ghost(steps), Ghost(0)) {
        Ok(_) => {},
        Err(e) => return Err(e),
    }
    match apply_step(ledger, requester, amount as i128, Ghost(before), Ghost(steps), Ghost(1)) {
        Ok(_) => {},
        Err(e) => {
            proof {
                assert(steps_applied(before, ledger.balances(), steps.take(1)));
            }
            return Err(e);
        },
    }
    proof {
        assert(steps.take(2) =~= steps);
        reveal_strlit("aid_");
        reveal_strlit("_");
    }
    let transaction_id = join2("aid_", request_id).concat("_").concat(offer_id);
    Ok(AidTransaction {
        transaction_id,
        request_id: String::from_str(request_id),
        offer_id: String::from_str(offer_id),
        provider: provider.duplicate(),
        recipient: requester.duplicate(),
        amount,
        aid_type: aid_type.duplicate(),
        executed_at: now,
        status: AidTransactionStatus::Completed,
    })
}


/// An aid transfer moves mana without creating or destroying any: when it
/// succeeds between two different accounts, and the recipient's balance
/// stays within range, the two balances add up to what they did before and
/// no other account changes.
pub proof fn law_aid_transfer_conserves_mana(
    before: Map<Seq<char>, u64>,
    after: Map<Seq<char>, u64>,
    provider: Seq<char>,
    recipient: Seq<char>,
    amount: u64,
)
    requires
        steps_applied(before, after, aid_steps(provider, recipient, amount)),
        provider != recipient,
        balance_in(before, recipient) + amount <= u64::MAX,
    ensures
        balance_in(after, provider) + balance_in(after, recipient) == balance_in(before, provider) + balance_in(
            before,
            recipient,
        ),
        balance_in(after, provider) == balance_in(before, provider) - amount,
        forall|k: Seq<char>| k != provider && k != recipient ==> #[trigger] balance_in(after, k) == balance_in(before, k),
{
    let steps = aid_steps(provider, recipient, amount);
    let first = steps.drop_last();
    assert(first =~= seq![(provider, -(amount as int))]);
    assert(first.drop_last() =~= Seq::<(Seq<char>, int)>::empty());
    assert forall|k: Seq<char>| #[trigger] balance_after(before, first, k) == if k == provider && amount > 0 {
        balance_in(before, k) - amount
    } else {
        balance_in(before, k) as int
    } by {
        assert(balance_after(before, first.drop_last(), k) == balance_in(before, k));
    }
    assert(steps_fit(before, first));
    assert(balance_after(before, first.drop_last(), provider) == balance_in(before, provider));
    assert(balance_in(before, provider) >= amount);
    assert(steps.last() == (recipient, amount as int));
    assert(balance_after(before, first, provider) == balance_in(before, provider) - amount);
    assert(balance_after(before, first, recipient) == balance_in(before, recipient));
    assert(balance_after(before, steps, provider) == balance_after(before, first, provider));
    assert(balance_after(before, steps, recipient) == balance_in(before, recipient) + amount);
    assert(balance_in(after, provider) == balance_after(before, steps, provider));
    assert(balance_in(after, recipient) == balance_after(before, steps, recipient));
    assert forall|k: Seq<char>| k != provider && k != recipient implies #[trigger] balance_in(after, k) == balance_in(before, k) by {
        assert(balance_in(after, k) == balance_after(before, steps, k));
        assert(balance_after(before, first, k) == balance_in(before, k));
    }
}

/// Kinds of trust relationship between members.
#[derive(Debug, Clone, Copy, PartialEq, Eq, Structural)]
pub enum TrustRelationshipType {
    /// Direct personal interaction.
    Personal,
    /// A work or economic relationship.
    Professional,
    /// Trust within a community.
    Community,
    /// Trust in an organization.
    Institutional,
    /// Trust delegated by others.
    Delegated,
}

/// Urgency levels for aid requests, least urgent first.
#[derive(Debug, Clone, Copy, PartialEq, Eq, Structural)]
pub enum UrgencyLevel {
    /// Can wait weeks or months.
    Low,
    /// Needed within days or weeks.
    Medium,
    /// Needed within hours or days.
    High,
    /// Immediate need.
    Critical,
}

/// Geographical scope of a request or reach of an offer.
#[derive(Debug)]
pub enum GeographicalScope {
    /// Within `radius_m` metres.
    Local { radius_m: u64 },
    Regional { region_name: String },
    National { country: String },
    Global,
    /// No geographical constraint.
    Virtual,
}

/// Reciprocity commitments of a requester.
#[derive(Debug)]
pub enum ReciprocityCommitment {
    Direct { commitment_description: String },
    Indirect { time_window_days: u32 },
    NetworkBased { network_id: String },
    PayItForward,
    NoReciprocityExpected,
}

/// Reciprocity expectations of a provider.
#[derive(Debug)]
pub enum ReciprocityExpectation {
    Immediate { expected_return: String },
    Eventual { time_window_days: u32 },
    NetworkContribution,
    NoneExpected,
}

/// Conditions under which aid is provided.
#[derive(Debug)]
pub enum AidCondition {
    /// A trust score of at least this many thousandths.
    TrustScore { minimum_score_permille: u64 },
    CommunityMembership { community_id: String },
    PreviousContribution { minimum_contribution: u64 },
    SkillLevel { required_skills: Vec<String> },
    /// At most this many metres away.
    GeographicalProximity { max_distance_m: u64 },
    Verification { verification_type: String },
}

/// Verification status of a request.
#[derive(Debug)]
pub enum VerificationStatus {
    Unverified,
    CommunityVerified { verifiers: Vec<Did> },
    OrganizationVerified { organization: Did },
    SelfReported,
    Disputed { dispute_details: String },
}

/// Request for mutual aid.
#[derive(Debug)]
pub struct AidRequest {
    pub request_id: String,
    pub requester: Did,
    pub aid_type: AidType,
    pub urgency_level: UrgencyLevel,
    pub resource_amount: u64,
    pub description: String,
    pub geographical_scope: GeographicalScope,
    /// Time by which aid is needed.
    pub time_sensitivity: u64,
    pub reciprocity_commitment: ReciprocityCommitment,
    pub verification_status: VerificationStatus,
    pub created_at: u64,
}

/// Offer to provide mutual aid.
#[derive(Debug)]
pub struct AidOffer {
    pub offer_id: String,
    pub provider: Did,
    pub aid_type: AidType,
    pub available_amount: u64,
    pub conditions: Vec<AidCondition>,
    pub geographical_reach: GeographicalScope,
    /// (start time, end time).
    pub availability_window: (u64, u64),
    pub preferred_recipients: Vec<Did>,
    pub reciprocity_expectations: ReciprocityExpectation,
    pub created_at: u64,
}

/// Types of aid networks.
#[derive(Debug)]
pub enum AidNetworkType {
    Community { focus_area: String },
    Professional { profession: String },
    Geographical { region: String },
    Thematic { theme: String },
    Emergency { response_type: String },
    Affinity { shared_values: Vec<String> },
}

/// Mechanisms for coordinating aid within a network.
#[derive(Debug)]
pub enum CoordinationMechanism {
    CentralCoordinator { coordinator: Did },
    RotatingCoordination { rotation_period_days: u32 },
    DecentralizedMatching,
    AlgorithmicMatching { algorithm_type: String },
    ConsensusCoordination,
}

/// Decision making processes of an aid network.
#[derive(Debug)]
pub enum DecisionMakingProcess {
    Consensus,
    Majority,
    Delegated { delegates: Vec<Did> },
    Autonomous,
    Hybrid { process_description: String },
}

/// Aid network for coordinated mutual aid.
#[derive(Debug)]
pub struct AidNetwork {
    pub network_id: String,
    pub network_name: String,
    pub members: Vec<Did>,
    pub network_type: AidNetworkType,
    pub coordination_mechanisms: Vec<CoordinationMechanism>,
    pub resource_pools: Vec<(String, u64)>,
    pub solidarity_principles: Vec<String>,
    pub decision_making_process: DecisionMakingProcess,
}

/// How requests and offers are matched.
#[derive(Debug)]
pub enum MatchingAlgorithm {
    /// Match on trust scores.
    TrustWeighted,
    /// Prioritise urgent needs.
    NeedBased,
    /// Prioritise geographical proximity.
    ProximityBased,
    /// Match on provider capacity.
    CapacityBased,
    /// Prioritise network members.
    NetworkBased,
    /// A weighted mix, each weight in thousandths.
    Hybrid { weights: Vec<(String, u64)> },
}

/// Automatic trigger of emergency aid.
#[derive(Debug)]
pub struct AutomaticTrigger {
    trigger_type: String,
    threshold_conditions: Vec<String>,
    automatic_actions: Vec<String>,
    notification_targets: Vec<Did>,
}

/// Rule for escalating aid priority during emergencies.
#[derive(Debug)]
pub struct EscalationRule {
    condition: String,
    /// Priority boost in thousandths.
    priority_boost_permille: u64,
    resource_allocation_override: bool,
    notification_requirement: bool,
}

/// Emergency aid protocols.
#[derive(Debug)]
pub struct EmergencyAidProtocols {
    crisis_detection_criteria: Vec<String>,
    automatic_aid_triggers: Vec<AutomaticTrigger>,
    emergency_resource_reserves: Vec<(String, u64)>,
    priority_escalation_rules: Vec<EscalationRule>,
}

/// No two requests of `s` share an identifier.
pub open spec fn request_ids_distinct(s: Seq<AidRequest>) -> bool {
    forall|i: int, j: int| 0 <= i < j < s.len() ==> #[trigger] s[i].request_id@ != #[trigger] s[j].request_id@
}

/// No two offers of `s` share an identifier.
pub open spec fn offer_ids_distinct(s: Seq<AidOffer>) -> bool {
    forall|i: int, j: int| 0 <= i < j < s.len() ==> #[trigger] s[i].offer_id@ != #[trigger] s[j].offer_id@
}

/// `after` is `before` with `x` stored under its identifier `id`: in place of
/// the entry with that identifier where there is one, appended otherwise.
pub open spec fn stored_under<T>(before: Seq<T>, after: Seq<T>, x: T, id: spec_fn(T) -> Seq<char>) -> bool {
    ||| exists|i: int| 0 <= i < before.len() && #[trigger] id(before[i]) == id(x) && after == before.update(i, x)
    ||| (forall|i: int| 0 <= i < before.len() ==> #[trigger] id(before[i]) != id(x)) && after == before.push(x)
}

/// The identifier of a request.
pub open spec fn request_key(r: AidRequest) -> Seq<char> {
    r.request_id@
}

/// The identifier of an offer.
pub open spec fn offer_key(o: AidOffer) -> Seq<char> {
    o.offer_id@
}


/// Types of aid matches.
#[derive(Debug, Clone, Copy, PartialEq, Eq, Structural)]
pub enum AidMatchType {
    /// Direct one-to-one match.
    DirectMatch,
    /// Partially fulfils the need.
    PartialMatch,
    /// Coordinated through a network.
    NetworkMatch,
    /// Emergency priority match.
    EmergencyMatch,
}

/// A match between an aid request and an offer.
#[derive(Debug)]
pub struct AidMatch {
    pub request_id: String,
    pub offer_id: String,
    /// Quality of the match in thousandths.
    pub match_quality_permille: u64,
    pub recommended_amount: u64,
    pub match_type: AidMatchType,
}

/// What a match holds: request, offer, quality, amount and type.
pub type MatchView = (Seq<char>, Seq<char>, u64, u64, AidMatchType);

/// The views of a list of matches.
pub open spec fn match_views(v: Seq<AidMatch>) -> Seq<MatchView> {
    v.map_values(
        |m: AidMatch| (m.request_id@, m.offer_id@, m.match_quality_permille, m.recommended_amount, m.match_type),
    )
}

/// The quality, in thousandths, given to every match.
pub const MATCH_QUALITY_PERMILLE: u64 = 800;

/// A request's scope and an offer's reach meet: either is global, both are
/// virtual, or both are local and the offer reaches at least as far.
pub open spec fn scopes_compatible(req: GeographicalScope, off: GeographicalScope) -> bool {
    ||| req is Global
    ||| off is Global
    ||| (req is Virtual && off is Virtual)
    ||| (req matches GeographicalScope::Local { radius_m: a } && off matches GeographicalScope::Local { radius_m: b } && a
        <= b)
}

/// An offer can meet a request at time `now`: compatible kinds of aid,
/// scopes that meet, and `now` within the offer's availability window. An
/// offer's conditions are all taken as satisfied.
pub open spec fn compatible_at(req: AidRequest, off: AidOffer, now: u64) -> bool {
    &&& aid_compatible(req.aid_type, off.aid_type)
    &&& scopes_compatible(req.geographical_scope, off.geographical_reach)
    &&& off.availability_window.0 <= now <= off.availability_window.1
}

/// The matches of request `req` with the offers `offs`, in their order.
pub open spec fn offer_matches(req: AidRequest, offs: Seq<AidOffer>, now: u64) -> Seq<MatchView>
    decreases offs.len(),
{
    if offs.len() == 0 {
        Seq::empty()
    } else {
        let prev = offer_matches(req, offs.drop_last(), now);
        let o = offs.last();
        if compatible_at(req, o, now) {
            prev.push(
                (
                    req.request_id@,
                    o.offer_id@,
                    800u64,
                    if req.resource_amount <= o.available_amount {
                        req.resource_amount
                    } else {
                        o.available_amount
                    },
                    AidMatchType::DirectMatch,
                ),
            )
        } else {
            prev
        }
    }
}

/// The matches of all requests with all offers: requests in order, and for
/// each its matching offers in order.
pub open spec fn all_matches(reqs: Seq<AidRequest>, offs: Seq<AidOffer>, now: u64) -> Seq<MatchView>
    decreases reqs.len(),
{
    if reqs.len() == 0 {
        Seq::empty()
    } else {
        all_matches(reqs.drop_last(), offs, now) + offer_matches(reqs.last(), offs, now)
    }
}

/// The request of `s` with identifier `id`, if there is one.
pub open spec fn request_with_id(s: Seq<AidRequest>, id: Seq<char>) -> Option<AidRequest> {
    if exists|i: int| 0 <= i < s.len() && #[trigger] s[i].request_id@ == id {
        Some(s[choose|i: int| 0 <= i < s.len() && #[trigger] s[i].request_id@ == id])
    } else {
        None
    }
}

/// The offer of `s` with identifier `id`, if there is one.
pub open spec fn offer_with_id(s: Seq<AidOffer>, id: Seq<char>) -> Option<AidOffer> {
    if exists|i: int| 0 <= i < s.len() && #[trigger] s[i].offer_id@ == id {
        Some(s[choose|i: int| 0 <= i < s.len() && #[trigger] s[i].offer_id@ == id])
    } else {
        None
    }
}

/// The outcome of carrying out match `m` at `now` over the stored requests
/// and offers, the ledger going from `before` to `after`: refused when the
/// request or the offer is unknown, with nothing moved; otherwise the
/// transfer from the offer's provider to the requester.
pub open spec fn aid_match_outcome(
    requests: Seq<AidRequest>,
    offers: Seq<AidOffer>,
    m: AidMatch,
    before: Map<Seq<char>, u64>,
    after: Map<Seq<char>, u64>,
    now: u64,
    r: Result<AidTransaction, CommonError>,
) -> bool {
    match request_with_id(requests, m.request_id@) {
        None => (r matches Err(CommonError::InvalidInputError(e)) && e@ == "Request not found"@) && after == before,
        Some(q) => match offer_with_id(offers, m.offer_id@) {
            None => (r matches Err(CommonError::InvalidInputError(e)) && e@ == "Offer not found"@) && after == before,
            Some(o) => {
                &&& applied_outcome(
                    match r {
                        Ok(_) => Ok(()),
                        Err(e) => Err(e),
                    },
                    before,
                    after,
                    aid_steps(o.provider@, q.requester@, m.recommended_amount),
                )
                &&& r matches Ok(t) ==> is_aid_transaction(
                    t,
                    m.request_id@,
                    m.offer_id@,
                    o.provider,
                    q.requester,
                    q.aid_type,
                    m.recommended_amount,
                    now,
                )
            },
        },
    }
}

/// Whether a request's scope and an offer's reach meet.
fn geographical_scopes_compatible(request_scope: &GeographicalScope, offer_reach: &GeographicalScope) -> (r: bool)
    ensures
        r == scopes_compatible(*request_scope, *offer_reach),
{
    match (request_scope, offer_reach) {
        (GeographicalScope::Global, _) => true,
        (_, GeographicalScope::Global) => true,
        (GeographicalScope::Virtual, GeographicalScope::Virtual) => true,
        (GeographicalScope::Local { radius_m: req_radius }, GeographicalScope::Local { radius_m: off_radius }) => {
            *req_radius <= *off_radius
        },
        _ => false,
    }
}

/// Coordinates requests and offers of mutual aid.
#[derive(Debug)]
pub struct MutualAidCoordinator {
    aid_requests: Vec<AidRequest>,
    aid_offers: Vec<AidOffer>,
    aid_networks: Vec<(String, AidNetwork)>,
    matching_algorithm: MatchingAlgorithm,
    emergency_protocols: EmergencyAidProtocols,
}

impl MutualAidCoordinator {
    /// The requests submitted, in the order first submitted.
    pub closed spec fn requests(&self) -> Seq<AidRequest> {
        self.aid_requests@
    }

    /// The offers submitted, in the order first submitted.
    pub closed spec fn offers(&self) -> Seq<AidOffer> {
        self.aid_offers@
    }

    /// The coordinator's internal invariant: identifiers are unique.
    pub closed spec fn inv(&self) -> bool {
        request_ids_distinct(self.aid_requests@) && offer_ids_distinct(self.aid_offers@)
    }

    /// A coordinator with no request and no offer, matching by trust.
    pub fn new() -> (r: MutualAidCoordinator)
        ensures
            r.inv(),
            r.requests().len() == 0,
            r.offers().len() == 0,
    {
        MutualAidCoordinator {
            aid_requests: Vec::new(),
            aid_offers: Vec::new(),
            aid_networks: Vec::new(),
            matching_algorithm: MatchingAlgorithm::TrustWeighted,
            emergency_protocols: EmergencyAidProtocols {
                crisis_detection_criteria: Vec::new(),
                automatic_aid_triggers: Vec::new(),
                emergency_resource_reserves: Vec::new(),
                priority_escalation_rules: Vec::new(),
            },
        }
    }

    /// Where the stored requests hold `id`, if they do.
    fn request_position(&self, id: &String) -> (r: Option<usize>)
        ensures
            r matches Some(k) ==> k < self.aid_requests@.len() && self.aid_requests@[k as int].request_id@ == id@,
            r is None ==> forall|k: int| 0 <= k < self.aid_requests@.len() ==> #[trigger] self.aid_requests@[k].request_id@ != id@,
    {
        let mut k: usize = 0;
        while k < self.aid_requests.len()
            invariant
                k <= self.aid_requests@.len(),
                forall|j: int| 0 <= j < k ==> #[trigger] self.aid_requests@[j].request_id@ != id@,
            decreases self.aid_requests@.len() - k,
        {
            if self.aid_requests[k].request_id == *id {
                return Some(k);
            }
            k = k + 1;
        }
        None
    }

    /// Where the stored offers hold `id`, if they do.
    fn offer_position(&self, id: &String) -> (r: Option<usize>)
        ensures
            r matches Some(k) ==> k < self.aid_offers@.len() && self.aid_offers@[k as int].offer_id@ == id@,
            r is None ==> forall|k: int| 0 <= k < self.aid_offers@.len() ==> #[trigger] self.aid_offers@[k].offer_id@ != id@,
    {
        let mut k: usize = 0;
        while k < self.aid_offers.len()
            invariant
                k <= self.aid_offers@.len(),
                forall|j: int| 0 <= j < k ==> #[trigger] self.aid_offers@[j].offer_id@ != id@,
            decreases self.aid_offers@.len() - k,
        {
            if self.aid_offers[k].offer_id == *id {
                return Some(k);
            }
            k = k + 1;
        }
        None
    }

    /// Submit a request for aid. A request for nothing is refused with
    /// `InvalidInputError`; otherwise it is stored under its identifier,
    /// replacing an earlier request with the same identifier.
    pub fn submit_aid_request(&mut self, request: AidRequest) -> (r: Result<(), CommonError>)
        requires
            old(self).inv(),
        ensures
            final(self).inv(),
            final(self).offers() == old(self).offers(),
            request.resource_amount == 0 ==> (r matches Err(CommonError::InvalidInputError(m)) && m@
                == "Resource amount must be greater than zero"@) && final(self).requests() == old(self).requests(),
            request.resource_amount != 0 ==> r is Ok && stored_under(
                old(self).requests(),
                final(self).requests(),
                request,
                |q: AidRequest| q.request_id@,
            ),
    {
        if request.resource_amount == 0 {
            proof {
                reveal_strlit("Resource amount must be greater than zero");
            }
            return Err(CommonError::InvalidInputError(String::from_str("Resource amount must be greater than zero")));
        }
        let ghost before = self.aid_requests@;
        let found = self.request_position(&request.request_id);
        if let Some(k) = found {
            let ghost req = request;
            self.aid_requests.set(k, request);
            proof {
                assert(request_ids_distinct(self.aid_requests@)) by {
                    assert forall|i: int, j: int| 0 <= i < j < self.aid_requests@.len() implies #[trigger] self.aid_requests@[i].request_id@
                        != #[trigger] self.aid_requests@[j].request_id@ by {
                        if i != k && j != k {
                            assert(before[i] == self.aid_requests@[i] && before[j] == self.aid_requests@[j]);
                        } else if i == k {
                            assert(before[j] == self.aid_requests@[j]);
                        } else {
                            assert(before[i] == self.aid_requests@[i]);
                        }
                    }
                }
                let f = |q: AidRequest| q.request_id@;
                assert(f(before[k as int]) == f(req));
            }
        } else {
            let ghost req = request;
            self.aid_requests.push(request);
            proof {
                assert(request_ids_distinct(self.aid_requests@)) by {
                    assert forall|i: int, j: int| 0 <= i < j < self.aid_requests@.len() implies #[trigger] self.aid_requests@[i].request_id@
                        != #[trigger] self.aid_requests@[j].request_id@ by {
                        assert(self.aid_requests@[i] == before[i]);
                        if j < before.len() {
                            assert(self.aid_requests@[j] == before[j]);
                        }
                    }
                }
                let f = |q: AidRequest| q.request_id@;
                assert forall|i: int| 0 <= i < before.len() implies #[trigger] f(before[i]) != f(req) by {
                    assert(before[i].request_id@ != req.request_id@);
                }
            }
        }
        Ok(())
    }

    /// Submit an offer of aid. An offer of nothing is refused with
    /// `InvalidInputError`; otherwise it is stored under its identifier,
    /// replacing an earlier offer with the same identifier.
    pub fn submit_aid_offer(&mut self, offer: AidOffer) -> (r: Result<(), CommonError>)
        requires
            old(self).inv(),
        ensures
            final(self).inv(),
            final(self).requests() == old(self).requests(),
            offer.available_amount == 0 ==> (r matches Err(CommonError::InvalidInputError(m)) && m@
                == "Available amount must be greater than zero"@) && final(self).offers() == old(self).offers(),
            offer.available_amount != 0 ==> r is Ok && stored_under(
                old(self).offers(),
                final(self).offers(),
                offer,
                |o: AidOffer| o.offer_id@,
            ),
    {
        if offer.available_amount == 0 {
            proof {
                reveal_strlit("Available amount must be greater than zero");
            }
            return Err(CommonError::InvalidInputError(String::from_str("Available amount must be greater than zero")));
        }
        let ghost before = self.aid_offers@;
        let found = self.offer_position(&offer.offer_id);
        if let Some(k) = found {
            let ghost off = offer;
            self.aid_offers.set(k, offer);
            proof {
                assert(offer_ids_distinct(self.aid_offers@)) by {
                    assert forall|i: int, j: int| 0 <= i < j < self.aid_offers@.len() implies #[trigger] self.aid_offers@[i].offer_id@
                        != #[trigger] self.aid_offers@[j].offer_id@ by {
                        if i != k && j != k {
                            assert(before[i] == self.aid_offers@[i] && before[j] == self.aid_offers@[j]);
                        } else if i == k {
                            assert(before[j] == self.aid_offers@[j]);
                        } else {
                            assert(before[i] == self.aid_offers@[i]);
                        }
                    }
                }
                let f = |o: AidOffer| o.offer_id@;
                assert(f(before[k as int]) == f(off));
            }
        } else {
            let ghost off = offer;
            self.aid_offers.push(offer);
            proof {
                assert(offer_ids_distinct(self.aid_offers@)) by {
                    assert forall|i: int, j: int| 0 <= i < j < self.aid_offers@.len() implies #[trigger] self.aid_offers@[i].offer_id@
                        != #[trigger] self.aid_offers@[j].offer_id@ by {
                        assert(self.aid_offers@[i] == before[i]);
                        if j < before.len() {
                            assert(self.aid_offers@[j] == before[j]);
                        }
                    }
                }
                let f = |o: AidOffer| o.offer_id@;
                assert forall|i: int| 0 <= i < before.len() implies #[trigger] f(before[i]) != f(off) by {
                    assert(before[i].offer_id@ != off.offer_id@);
                }
            }
        }
        Ok(())
    }

    /// Whether an aid condition holds for the requester: every condition is
    /// taken as satisfied.
    fn condition_satisfied(&self, condition: &AidCondition, requester: &Did) -> (r: bool)
        ensures
            r,
    {
        true
    }

    /// The quality of a match, in thousandths: the same for every match.
    fn calculate_match_quality(&self, request: &AidRequest, offer: &AidOffer) -> (r: u64)
        ensures
            r == 800,
    {
        MATCH_QUALITY_PERMILLE
    }

    /// The type of a match: always direct.
    fn determine_match_type(&self, request: &AidRequest, offer: &AidOffer) -> (r: AidMatchType)
        ensures
            r == AidMatchType::DirectMatch,
    {
        AidMatchType::DirectMatch
    }

    /// Whether `offer` can meet `request` at `now`.
    fn is_compatible_match(&self, request: &AidRequest, offer: &AidOffer, now: u64) -> (r: bool)
        ensures
            r == compatible_at(*request, *offer, now),
    {
        if !aid_types_compatible(&request.aid_type, &offer.aid_type) {
            return false;
        }
        if !geographical_scopes_compatible(&request.geographical_scope, &offer.geographical_reach) {
            return false;
        }
        if now < offer.availability_window.0 || now > offer.availability_window.1 {
            return false;
        }
        let mut k: usize = 0;
        while k < offer.conditions.len()
            invariant
                k <= offer.conditions@.len(),
            decreases offer.conditions@.len() - k,
        {
            if !self.condition_satisfied(&offer.conditions[k], &request.requester) {
                return false;
            }
            k = k + 1;
        }
        true
    }

    /// The matches of the stored requests with the stored offers at `now`,
    /// best first. Every match has the same quality, so they come in the
    /// order found: requests in the order stored, and for each request its
    /// matching offers in the order stored. A match recommends the smaller
    /// of the amount requested and the amount offered.
    pub fn match_aid_requests_and_offers_at(&self, now: u64) -> (r: Vec<AidMatch>)
        ensures
            match_views(r@) == all_matches(self.requests(), self.offers(), now),
            forall|i: int, j: int|
                0 <= i < j < r@.len() ==> #[trigger] r@[i].match_quality_permille >= #[trigger] r@[j].match_quality_permille,
    {
        let ghost reqs = self.aid_requests@;
        let ghost offs = self.aid_offers@;
        let mut matches: Vec<AidMatch> = Vec::new();
        let mut i: usize = 0;
        proof {
            assert(match_views(matches@) =~= all_matches(reqs.take(0), offs, now));
        }
        while i < self.aid_requests.len()
            invariant
                i <= reqs.len(),
                reqs == self.aid_requests@,
                offs == self.aid_offers@,
                match_views(matches@) == all_matches(reqs.take(i as int), offs, now),
            decreases reqs.len() - i,
        {
            let request = &self.aid_requests[i];
            let mut j: usize = 0;
            proof {
                assert(offer_matches(reqs[i as int], offs.take(0), now) =~= Seq::<MatchView>::empty());
                assert(all_matches(reqs.take(i as int), offs, now) + offer_matches(reqs[i as int], offs.take(0), now)
                    =~= all_matches(reqs.take(i as int), offs, now));
            }
            while j < self.aid_offers.len()
                invariant
                    i < reqs.len(),
                    j <= offs.len(),
                    reqs == self.aid_requests@,
                    offs == self.aid_offers@,
                    *request == reqs[i as int],
                    match_views(matches@) == all_matches(reqs.take(i as int), offs, now) + offer_matches(
                        reqs[i as int],
                        offs.take(j as int),
                        now,
                    ),
                decreases offs.len() - j,
            {
                let offer = &self.aid_offers[j];
                proof {
                    assert(offs.take(j + 1).drop_last() =~= offs.take(j as int));
                    assert(offs.take(j + 1).last() == offs[j as int]);
                }
                if self.is_compatible_match(request, offer, now) {
                    let match_quality = self.calculate_match_quality(request, offer);
                    let recommended_amount = if request.resource_amount <= offer.available_amount {
                        request.resource_amount
                    } else {
                        offer.available_amount
                    };
                    let ghost before = matches@;
                    matches.push(
                        AidMatch {
                            request_id: request.request_id.clone(),
                            offer_id: offer.offer_id.clone(),
                            match_quality_permille: match_quality,
                            recommended_amount,
                            match_type: self.determine_match_type(request, offer),
                        },
                    );
                    proof {
                        assert(match_views(matches@) =~= match_views(before).push(
                            (
                                reqs[i as int].request_id@,
                                offs[j as int].offer_id@,
                                800u64,
                                recommended_amount,
                                AidMatchType::DirectMatch,
                            ),
                        ));
                        assert(match_views(matches@) =~= all_matches(reqs.take(i as int), offs, now) + offer_matches(
                            reqs[i as int],
                            offs.take(j + 1),
                            now,
                        ));
                    }
                }
                j = j + 1;
            }
            proof {
                assert(offs.take(offs.len() as int) =~= offs);
                assert(reqs.take(i + 1).drop_last() =~= reqs.take(i as int));
                assert(reqs.take(i + 1).last() == reqs[i as int]);
            }
            i = i + 1;
        }
        proof {
            assert(reqs.take(reqs.len() as int) =~= reqs);
            lemma_all_matches_quality(reqs, offs, now);
            assert forall|a: int| 0 <= a < matches@.len() implies #[trigger] matches@[a].match_quality_permille == 800 by {
                assert(match_views(matches@)[a].2 == 800);
            }
        }
        matches
    }

    /// The matches at the time the system clock reads, as
    /// [`Self::match_aid_requests_and_offers_at`] finds them.
    pub fn match_aid_requests_and_offers(&self) -> (r: Vec<AidMatch>)
        ensures
            exists|now: u64| match_views(r@) == #[trigger] all_matches(self.requests(), self.offers(), now),
    {
        let now = unix_seconds();
        self.match_aid_requests_and_offers_at(now)
    }

    /// Carry out match `aid_match` at `now`, as [`aid_match_outcome`] states:
    /// the request and the offer are looked up by identifier, and the
    /// recommended amount moves from the offer's provider to the requester.
    pub fn execute_aid_match_at<L: ManaLedger>(&mut self, aid_match: &AidMatch, ledger: &mut L, now: u64) -> (r: Result<
        AidTransaction,
        CommonError,
    >)
        requires
            old(self).inv(),
            old(ledger).well_formed(),
        ensures
            *final(self) == *old(self),
            final(ledger).well_formed(),
            aid_match_outcome(
                old(self).requests(),
                old(self).offers(),
                *aid_match,
                old(ledger).balances(),
                final(ledger).balances(),
                now,
                r,
            ),
    {
        proof {
            reveal_strlit("Request not found");
            reveal_strlit("Offer not found");
        }
        let ghost reqs = self.aid_requests@;
        let ghost offs = self.aid_offers@;
        let rk = match self.request_position(&aid_match.request_id) {
            Some(k) => k,
            None => {
                return Err(CommonError::InvalidInputError(String::from_str("Request not found")));
            },
        };
        proof {
            assert(reqs[rk as int].request_id@ == aid_match.request_id@);
            let c = choose|i: int| 0 <= i < reqs.len() && #[trigger] reqs[i].request_id@ == aid_match.request_id@;
            assert(c == rk);
        }
        let ok = match self.offer_position(&aid_match.offer_id) {
            Some(k) => k,
            None => {
                return Err(CommonError::InvalidInputError(String::from_str("Offer not found")));
            },
        };
        proof {
            assert(offs[ok as int].offer_id@ == aid_match.offer_id@);
            let c = choose|i: int| 0 <= i < offs.len() && #[trigger] offs[i].offer_id@ == aid_match.offer_id@;
            assert(c == ok);
        }
        let request = &self.aid_requests[rk];
        let offer = &self.aid_offers[ok];
        execute_aid_transfer_at(
            ledger,
            aid_match.request_id.as_str(),
            &request.requester,
            aid_match.offer_id.as_str(),
            &offer.provider,
            &request.aid_type,
            aid_match.recommended_amount,
            now,
        )
    }

    /// Carry out a match at the time the system clock reads, as
    /// [`Self::execute_aid_match_at`] does.
    pub fn execute_aid_match<L: ManaLedger>(&mut self, aid_match: &AidMatch, ledger: &mut L) -> (r: Result<
        AidTransaction,
        CommonError,
    >)
        requires
            old(self).inv(),
            old(ledger).well_formed(),
        ensures
            *final(self) == *old(self),
            final(ledger).well_formed(),
            exists|now: u64|
                #[trigger] aid_match_outcome(
                    old(self).requests(),
                    old(self).offers(),
                    *aid_match,
                    old(ledger).balances(),
                    final(ledger).balances(),
                    now,
                    r,
                ),
    {
        let now = unix_seconds();
        self.execute_aid_match_at(aid_match, ledger, now)
    }

}

/// Every match found has quality 800.
pub proof fn lemma_all_matches_quality(reqs: Seq<AidRequest>, offs: Seq<AidOffer>, now: u64)
    ensures
        forall|i: int| 0 <= i < all_matches(reqs, offs, now).len() ==> #[trigger] all_matches(reqs, offs, now)[i].2 == 800,
    decreases reqs.len(),
{
    if reqs.len() > 0 {
        lemma_all_matches_quality(reqs.drop_last(), offs, now);
        lemma_offer_matches_quality(reqs.last(), offs, now);
        let a = all_matches(reqs.drop_last(), offs, now);
        let b = offer_matches(reqs.last(), offs, now);
        assert forall|i: int| 0 <= i < (a + b).len() implies #[trigger] (a + b)[i].2 == 800 by {
            if i >= a.len() {
                assert((a + b)[i] == b[i - a.len()]);
            }
        }
    }
}

/// Every match of one request has quality 800.
pub proof fn lemma_offer_matches_quality(req: AidRequest, offs: Seq<AidOffer>, now: u64)
    ensures
        forall|i: int| 0 <= i < offer_matches(req, offs, now).len() ==> #[trigger] offer_matches(req, offs, now)[i].2 == 800,
    decreases offs.len(),
{
    if offs.len() > 0 {
        lemma_offer_matches_quality(req, offs.drop_last(), now);
        let prev = offer_matches(req, offs.drop_last(), now);
        assert forall|i: int| 0 <= i < offer_matches(req, offs, now).len() implies #[trigger] offer_matches(
            req,
            offs,
            now,
        )[i].2 == 800 by {
            if i < prev.len() {
                assert(offer_matches(req, offs, now)[i] == prev[i]);
            }
        }
    }
}

/// `m` is the match of request `q` with offer `o`: their identifiers, the
/// common quality, the smaller of the two amounts, and a direct match.
pub open spec fn is_match_of(m: MatchView, q: AidRequest, o: AidOffer) -> bool {
    m == (
        q.request_id@,
        o.offer_id@,
        800u64,
        if q.resource_amount <= o.available_amount {
            q.resource_amount
        } else {
            o.available_amount
        },
        AidMatchType::DirectMatch,
    )
}

/// Each match of one request pairs it with one of the offers that can meet it.
pub proof fn lemma_offer_matches_sound(req: AidRequest, offs: Seq<AidOffer>, now: u64, i: int)
    requires
        0 <= i < offer_matches(req, offs, now).len(),
    ensures
        exists|b: int| 0 <= b < offs.len() && compatible_at(req, #[trigger] offs[b], now) && is_match_of(
            offer_matches(req, offs, now)[i],
            req,
            offs[b],
        ),
    decreases offs.len(),
{
    let prev = offer_matches(req, offs.drop_last(), now);
    if i < prev.len() {
        lemma_offer_matches_sound(req, offs.drop_last(), now, i);
        let b = choose|b: int| 0 <= b < offs.drop_last().len() && compatible_at(req, #[trigger] offs.drop_last()[b], now)
            && is_match_of(prev[i], req, offs.drop_last()[b]);
        assert(offs[b] == offs.drop_last()[b]);
        assert(offer_matches(req, offs, now)[i] == prev[i]);
    } else {
        assert(offs[offs.len() - 1] == offs.last());
    }
}

/// Every match pairs a stored request with a stored offer that can meet it
/// at that time, and recommends no more than either of them has: the smaller
/// of the amount requested and the amount offered.
pub proof fn law_matches_pair_compatible_requests_and_offers(
    reqs: Seq<AidRequest>,
    offs: Seq<AidOffer>,
    now: u64,
    i: int,
)
    requires
        0 <= i < all_matches(reqs, offs, now).len(),
    ensures
        exists|a: int, b: int|
            0 <= a < reqs.len() && 0 <= b < offs.len() && compatible_at(#[trigger] reqs[a], #[trigger] offs[b], now)
                && is_match_of(all_matches(reqs, offs, now)[i], reqs[a], offs[b]),
    decreases reqs.len(),
{
    let head = all_matches(reqs.drop_last(), offs, now);
    let tail = offer_matches(reqs.last(), offs, now);
    assert(all_matches(reqs, offs, now) == head + tail);
    if i < head.len() {
        law_matches_pair_compatible_requests_and_offers(reqs.drop_last(), offs, now, i);
        let (a, b) = choose|a: int, b: int|
            0 <= a < reqs.drop_last().len() && 0 <= b < offs.len() && compatible_at(
                #[trigger] reqs.drop_last()[a],
                #[trigger] offs[b],
                now,
            ) && is_match_of(head[i], reqs.drop_last()[a], offs[b]);
        assert(reqs[a] == reqs.drop_last()[a]);
        assert((head + tail)[i] == head[i]);
    } else {
        lemma_offer_matches_sound(reqs.last(), offs, now, i - head.len());
        let b = choose|b: int| 0 <= b < offs.len() && compatible_at(reqs.last(), #[trigger] offs[b], now) && is_match_of(
            tail[i - head.len()],
            reqs.last(),
            offs[b],
        );
        assert((head + tail)[i] == tail[i - head.len()]);
        assert(reqs[reqs.len() - 1] == reqs.last());
    }
}

} // verus!
