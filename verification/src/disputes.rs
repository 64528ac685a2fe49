//! Economic dispute resolution: filing disputes, resolving them trivially or
//! by an authority, detecting suspicious transaction patterns, and applying
//! resolutions to the mana ledger.

use vstd::prelude::*;
use vstd::string::*;
use crate::assoc::{keys_distinct, assoc_map, lemma_assoc_index, lemma_assoc_absent, lemma_assoc_update, lemma_assoc_push, lemma_assoc_remove};
use crate::clock::unix_seconds;
use crate::did::Did;
use crate::error::CommonError;
use crate::mana_ledger::{ManaLedger, balance_in, balance_updated, sat_add};
use crate::repository::{NodeScope, scope_view, duplicate_scope};
use crate::resource_ledger::ResourceLedger;
use crate::text::{decimal, join2, text_with_number, text_two_numbers};

verus! {

/// Types of economic disputes.
#[derive(Debug, Clone, Copy, PartialEq, Eq, Structural)]
pub enum EconomicDisputeType {
    /// Disputed mana distribution or allocation.
    ManaDispute,
    /// Conflicting resource allocation claims.
    ResourceAllocationConflict,
    /// Disputed token transfers or balances.
    TokenTransferDispute,
    /// Marketplace transaction disputes.
    MarketplaceDispute,
    /// Mutual credit disagreements.
    MutualCreditDispute,
    /// Price manipulation or unfair pricing.
    PricingDispute,
    /// Double spending or accounting errors.
    DoubleSpending,
}

impl EconomicDisputeType {
    /// The variant's name, as `Debug` prints it.
    pub fn name(&self) -> (r: &'static str)
        ensures
            *self == EconomicDisputeType::MarketplaceDispute ==> r@ == "MarketplaceDispute"@,
            *self == EconomicDisputeType::ResourceAllocationConflict ==> r@ == "ResourceAllocationConflict"@,
            *self == EconomicDisputeType::MutualCreditDispute ==> r@ == "MutualCreditDispute"@,
            *self == EconomicDisputeType::ManaDispute ==> r@ == "ManaDispute"@,
            *self == EconomicDisputeType::TokenTransferDispute ==> r@ == "TokenTransferDispute"@,
            *self == EconomicDisputeType::PricingDispute ==> r@ == "PricingDispute"@,
            *self == EconomicDisputeType::DoubleSpending ==> r@ == "DoubleSpending"@,
    {
        match self {
            EconomicDisputeType::ManaDispute => "ManaDispute",
            EconomicDisputeType::ResourceAllocationConflict => "ResourceAllocationConflict",
            EconomicDisputeType::TokenTransferDispute => "TokenTransferDispute",
            EconomicDisputeType::MarketplaceDispute => "MarketplaceDispute",
            EconomicDisputeType::MutualCreditDispute => "MutualCreditDispute",
            EconomicDisputeType::PricingDispute => "PricingDispute",
            EconomicDisputeType::DoubleSpending => "DoubleSpending",
        }
    }
}

/// Severity levels for economic disputes, in increasing order.
#[derive(Debug, Clone, Copy, PartialEq, Eq, Structural, PartialOrd, Ord)]
pub enum DisputeSeverity {
    /// Minor discrepancies.
    Low,
    /// Significant economic impact.
    Medium,
    /// Major economic loss or systemic issues.
    High,
    /// Economic system integrity at risk.
    Critical,
}

/// The position of a severity in the order Low < Medium < High < Critical.
pub open spec fn severity_rank(s: DisputeSeverity) -> int {
    match s {
        DisputeSeverity::Low => 0,
        DisputeSeverity::Medium => 1,
        DisputeSeverity::High => 2,
        DisputeSeverity::Critical => 3,
    }
}

impl DisputeSeverity {
    /// The position of the severity in the order Low < Medium < High < Critical.
    pub fn rank(&self) -> (r: u8)
        ensures
            r == severity_rank(*self),
    {
        match self {
            DisputeSeverity::Low => 0,
            DisputeSeverity::Medium => 1,
            DisputeSeverity::High => 2,
            DisputeSeverity::Critical => 3,
        }
    }
}

/// Balance adjustment as part of a resolution.
#[derive(Debug)]
pub struct BalanceAdjustment {
    pub account: Did,
    pub asset_type: String,
    /// Positive for a credit, negative for a debit.
    pub adjustment_amount: i64,
    pub reason: String,
}

/// Resource redistribution as part of a resolution.
#[derive(Debug)]
pub struct ResourceRedistribution {
    pub from_account: Did,
    pub to_account: Did,
    pub resource_type: String,
    pub amount: u64,
    pub reason: String,
}

/// Types of penalties a resolution imposes.
#[derive(Debug)]
pub enum PenaltyType {
    ManaDeduction,
    TokenConfiscation { token_class: String },
    TradingRestriction { duration_seconds: u64 },
    Fee { fee_type: String },
}

/// A penalty imposed as a resolution.
#[derive(Debug)]
pub struct EconomicPenalty {
    pub penalized_party: Did,
    pub penalty_type: PenaltyType,
    pub amount: u64,
    pub reason: String,
}

/// Types of compensation.
#[derive(Debug)]
pub enum CompensationType {
    ManaCredit,
    TokenCredit { token_class: String },
    ResourcePriority { resource_type: String },
    FeeWaiver { fee_type: String },
}

/// Compensation provided as a resolution.
#[derive(Debug)]
pub struct Compensation {
    pub recipient: Did,
    pub compensation_type: CompensationType,
    pub amount: u64,
    pub reason: String,
}

/// An asset freeze as a resolution.
#[derive(Debug)]
pub struct AssetFreeze {
    pub account: Did,
    pub asset_type: String,
    pub frozen_amount: u64,
    /// None for an indefinite freeze.
    pub freeze_duration: Option<u64>,
    pub reason: String,
}

/// Resolution actions for economic disputes.
#[derive(Debug)]
pub enum EconomicResolution {
    ReverseTransactions { transaction_ids: Vec<String> },
    AdjustBalances { adjustments: Vec<BalanceAdjustment> },
    RedistributeResources { redistributions: Vec<ResourceRedistribution> },
    ImposePenalties { penalties: Vec<EconomicPenalty> },
    Compensation { compensations: Vec<Compensation> },
    FreezeAssets { frozen_assets: Vec<AssetFreeze> },
    NoActionRequired,
    EscalateToGovernance { reason: String },
}

/// Status of a dispute's resolution.
#[derive(Debug)]
pub enum EconomicResolutionStatus {
    Filed,
    UnderInvestigation,
    Mediation,
    Arbitration { arbitrator: Did, deadline: u64 },
    CommunityVoting { voting_deadline: u64, votes_for: u64, votes_against: u64 },
    Resolved { resolution: EconomicResolution, applied_at: u64 },
    Failed { reason: String },
    EscalatedToGovernance,
}

/// Evidence supporting a dispute.
#[derive(Debug)]
pub enum EconomicEvidence {
    TransactionRecords { transactions: Vec<String> },
    BalanceDiscrepancy { account: Did, expected_balance: u64, actual_balance: u64, asset_type: String },
    ResourceAllocationLog { allocation_id: String, disputed_allocation: String },
    /// (timestamp, price) pairs.
    PriceManipulation { asset: String, suspicious_prices: Vec<(u64, u64)> },
    DoubleSpendingEvidence { conflicting_transactions: Vec<String> },
    ExternalVerification { verifier: Did, verification_details: String },
}

/// An economic dispute.
#[derive(Debug)]
pub struct EconomicDispute {
    pub dispute_id: String,
    pub dispute_type: EconomicDisputeType,
    pub parties: Vec<Did>,
    pub disputed_amount: Option<u64>,
    pub disputed_asset: String,
    pub filed_at: u64,
    pub resolution_status: EconomicResolutionStatus,
    pub evidence: Vec<EconomicEvidence>,
    pub description: String,
    pub severity: DisputeSeverity,
    pub scope: Option<NodeScope>,
}

/// Configuration for economic dispute resolution.
#[derive(Debug)]
pub struct EconomicDisputeConfig {
    /// Enable automatic dispute detection.
    pub auto_detection: bool,
    /// Highest severity that may be resolved automatically.
    pub auto_resolution_threshold: DisputeSeverity,
    /// Maximum time for an investigation (seconds).
    pub investigation_timeout: u64,
    /// Mediation timeout (seconds).
    pub mediation_timeout: u64,
    /// Arbitration timeout (seconds).
    pub arbitration_timeout: u64,
    /// Community voting period (seconds).
    pub voting_period: u64,
    /// Minimum disputed amount.
    pub minimum_dispute_amount: u64,
    /// Enable reputation-based arbitrator selection.
    pub reputation_based_arbitration: bool,
    /// Maximum number of concurrent disputes per account.
    pub max_disputes_per_account: usize,
}

impl Default for EconomicDisputeConfig {
    fn default() -> (r: Self)
        ensures
            r.auto_detection,
            r.auto_resolution_threshold == DisputeSeverity::Medium,
            r.investigation_timeout == 172800,
            r.mediation_timeout == 86400,
            r.arbitration_timeout == 86400,
            r.voting_period == 259200,
            r.minimum_dispute_amount == 10,
            r.reputation_based_arbitration,
            r.max_disputes_per_account == 5,
    {
        EconomicDisputeConfig {
            auto_detection: true,
            auto_resolution_threshold: DisputeSeverity::Medium,
            investigation_timeout: 172800,
            mediation_timeout: 86400,
            arbitration_timeout: 86400,
            voting_period: 259200,
            minimum_dispute_amount: 10,
            reputation_based_arbitration: true,
            max_disputes_per_account: 5,
        }
    }
}

/// Kinds of mana transactions.
#[derive(Debug, Clone, Copy, PartialEq, Eq, Structural)]
pub enum TransactionType {
    ManaTransfer,
}

/// A mana transaction, as dispute detection reads it.
#[derive(Debug)]
pub struct ManaTransaction {
    pub transaction_id: String,
    pub did: Did,
    /// Positive for a credit, negative for a debit.
    pub amount: i64,
    pub transaction_type: TransactionType,
    pub timestamp: u64,
    pub context: Vec<(String, String)>,
}

/// A copy of a list of texts.
pub fn duplicate_texts(v: &Vec<String>) -> (r: Vec<String>)
    ensures
        r@ == v@,
{
    let mut out: Vec<String> = Vec::new();
    let mut i: usize = 0;
    while i < v.len()
        invariant
            i <= v@.len(),
            out@ == v@.take(i as int),
        decreases v@.len() - i,
    {
        out.push(v[i].clone());
        proof {
            assert(out@ =~= v@.take(i + 1));
        }
        i = i + 1;
    }
    proof {
        assert(v@.take(v@.len() as int) =~= v@);
    }
    out
}

/// The texts of a list of strings.
pub open spec fn texts_view(v: Seq<String>) -> Seq<Seq<char>> {
    v.map_values(|t: String| t@)
}

impl BalanceAdjustment {
    /// What the adjustment says: account, asset, amount, reason.
    pub open spec fn view(&self) -> (Seq<char>, Seq<char>, i64, Seq<char>) {
        (self.account@, self.asset_type@, self.adjustment_amount, self.reason@)
    }

    /// A copy of the adjustment.
    pub fn duplicate(&self) -> (r: BalanceAdjustment)
        ensures
            r.view() == self.view(),
    {
        BalanceAdjustment {
            account: self.account.duplicate(),
            asset_type: self.asset_type.clone(),
            adjustment_amount: self.adjustment_amount,
            reason: self.reason.clone(),
        }
    }
}

impl ResourceRedistribution {
    /// What the redistribution says: from, to, resource, amount, reason.
    pub open spec fn view(&self) -> (Seq<char>, Seq<char>, Seq<char>, u64, Seq<char>) {
        (self.from_account@, self.to_account@, self.resource_type@, self.amount, self.reason@)
    }

    /// A copy of the redistribution.
    pub fn duplicate(&self) -> (r: ResourceRedistribution)
        ensures
            r.view() == self.view(),
    {
        ResourceRedistribution {
            from_account: self.from_account.duplicate(),
            to_account: self.to_account.duplicate(),
            resource_type: self.resource_type.clone(),
            amount: self.amount,
            reason: self.reason.clone(),
        }
    }
}

/// What a penalty type says: kind (0 mana deduction, 1 token confiscation,
/// 2 trading restriction, 3 fee), its text and its duration.
pub open spec fn penalty_type_view(p: PenaltyType) -> (int, Seq<char>, u64) {
    match p {
        PenaltyType::ManaDeduction => (0, Seq::empty(), 0),
        PenaltyType::TokenConfiscation { token_class } => (1, token_class@, 0),
        PenaltyType::TradingRestriction { duration_seconds } => (2, Seq::empty(), duration_seconds),
        PenaltyType::Fee { fee_type } => (3, fee_type@, 0),
    }
}

impl EconomicPenalty {
    /// What the penalty says: party, type, amount, reason.
    pub open spec fn view(&self) -> (Seq<char>, (int, Seq<char>, u64), u64, Seq<char>) {
        (self.penalized_party@, penalty_type_view(self.penalty_type), self.amount, self.reason@)
    }

    /// A copy of the penalty.
    pub fn duplicate(&self) -> (r: EconomicPenalty)
        ensures
            r.view() == self.view(),
    {
        let penalty_type = match &self.penalty_type {
            PenaltyType::ManaDeduction => PenaltyType::ManaDeduction,
            PenaltyType::TokenConfiscation { token_class } => PenaltyType::TokenConfiscation { token_class: token_class.clone() },
            PenaltyType::TradingRestriction { duration_seconds } => PenaltyType::TradingRestriction {
                duration_seconds: *duration_seconds,
            },
            PenaltyType::Fee { fee_type } => PenaltyType::Fee { fee_type: fee_type.clone() },
        };
        EconomicPenalty {
            penalized_party: self.penalized_party.duplicate(),
            penalty_type,
            amount: self.amount,
            reason: self.reason.clone(),
        }
    }
}

/// What a compensation type says: kind (0 mana credit, 1 token credit, 2
/// resource priority, 3 fee waiver) and its text.
pub open spec fn compensation_type_view(c: CompensationType) -> (int, Seq<char>) {
    match c {
        CompensationType::ManaCredit => (0, Seq::empty()),
        CompensationType::TokenCredit { token_class } => (1, token_class@),
        CompensationType::ResourcePriority { resource_type } => (2, resource_type@),
        CompensationType::FeeWaiver { fee_type } => (3, fee_type@),
    }
}

impl Compensation {
    /// What the compensation says: recipient, type, amount, reason.
    pub open spec fn view(&self) -> (Seq<char>, (int, Seq<char>), u64, Seq<char>) {
        (self.recipient@, compensation_type_view(self.compensation_type), self.amount, self.reason@)
    }

    /// A copy of the compensation.
    pub fn duplicate(&self) -> (r: Compensation)
        ensures
            r.view() == self.view(),
    {
        let compensation_type = match &self.compensation_type {
            CompensationType::ManaCredit => CompensationType::ManaCredit,
            CompensationType::TokenCredit { token_class } => CompensationType::TokenCredit { token_class: token_class.clone() },
            CompensationType::ResourcePriority { resource_type } => CompensationType::ResourcePriority {
                resource_type: resource_type.clone(),
            },
            CompensationType::FeeWaiver { fee_type } => CompensationType::FeeWaiver { fee_type: fee_type.clone() },
        };
        Compensation {
            recipient: self.recipient.duplicate(),
            compensation_type,
            amount: self.amount,
            reason: self.reason.clone(),
        }
    }
}

impl AssetFreeze {
    /// What the freeze says: account, asset, amount, duration, reason.
    pub open spec fn view(&self) -> (Seq<char>, Seq<char>, u64, Option<u64>, Seq<char>) {
        (self.account@, self.asset_type@, self.frozen_amount, self.freeze_duration, self.reason@)
    }

    /// A copy of the freeze.
    pub fn duplicate(&self) -> (r: AssetFreeze)
        ensures
            r.view() == self.view(),
    {
        AssetFreeze {
            account: self.account.duplicate(),
            asset_type: self.asset_type.clone(),
            frozen_amount: self.frozen_amount,
            freeze_duration: self.freeze_duration,
            reason: self.reason.clone(),
        }
    }
}

/// What a resolution says.
pub enum ResolutionView {
    ReverseTransactions(Seq<Seq<char>>),
    AdjustBalances(Seq<(Seq<char>, Seq<char>, i64, Seq<char>)>),
    RedistributeResources(Seq<(Seq<char>, Seq<char>, Seq<char>, u64, Seq<char>)>),
    ImposePenalties(Seq<(Seq<char>, (int, Seq<char>, u64), u64, Seq<char>)>),
    Compensation(Seq<(Seq<char>, (int, Seq<char>), u64, Seq<char>)>),
    FreezeAssets(Seq<(Seq<char>, Seq<char>, u64, Option<u64>, Seq<char>)>),
    NoActionRequired,
    EscalateToGovernance(Seq<char>),
}

impl EconomicResolution {
    /// What the resolution says.
    pub open spec fn view(&self) -> ResolutionView {
        match self {
            EconomicResolution::ReverseTransactions { transaction_ids } => ResolutionView::ReverseTransactions(
                texts_view(transaction_ids@),
            ),
            EconomicResolution::AdjustBalances { adjustments } => ResolutionView::AdjustBalances(
                adjustments@.map_values(|a: BalanceAdjustment| a.view()),
            ),
            EconomicResolution::RedistributeResources { redistributions } => ResolutionView::RedistributeResources(
                redistributions@.map_values(|a: ResourceRedistribution| a.view()),
            ),
            EconomicResolution::ImposePenalties { penalties } => ResolutionView::ImposePenalties(
                penalties@.map_values(|a: EconomicPenalty| a.view()),
            ),
            EconomicResolution::Compensation { compensations } => ResolutionView::Compensation(
                compensations@.map_values(|a: Compensation| a.view()),
            ),
            EconomicResolution::FreezeAssets { frozen_assets } => ResolutionView::FreezeAssets(
                frozen_assets@.map_values(|a: AssetFreeze| a.view()),
            ),
            EconomicResolution::NoActionRequired => ResolutionView::NoActionRequired,
            EconomicResolution::EscalateToGovernance { reason } => ResolutionView::EscalateToGovernance(reason@),
        }
    }

    /// A copy of the resolution.
    pub fn duplicate(&self) -> (r: EconomicResolution)
        ensures
            r.view() == self.view(),
    {
        match self {
            EconomicResolution::ReverseTransactions { transaction_ids } => EconomicResolution::ReverseTransactions {
                transaction_ids: duplicate_texts(transaction_ids),
            },
            EconomicResolution::AdjustBalances { adjustments } => {
                let mut out: Vec<BalanceAdjustment> = Vec::new();
                let mut i: usize = 0;
                while i < adjustments.len()
                    invariant
                        i <= adjustments@.len(),
                        out@.len() == i,
                        forall|j: int| 0 <= j < i ==> #[trigger] out@[j].view() == adjustments@[j].view(),
                    decreases adjustments@.len() - i,
                {
                    out.push(adjustments[i].duplicate());
                    i = i + 1;
                }
                proof {
                    assert(out@.map_values(|a: BalanceAdjustment| a.view()) =~= adjustments@.map_values(|a: BalanceAdjustment| a.view()));
                }
                EconomicResolution::AdjustBalances { adjustments: out }
            },
            EconomicResolution::RedistributeResources { redistributions } => {
                let mut out: Vec<ResourceRedistribution> = Vec::new();
                let mut i: usize = 0;
                while i < redistributions.len()
                    invariant
                        i <= redistributions@.len(),
                        out@.len() == i,
                        forall|j: int| 0 <= j < i ==> #[trigger] out@[j].view() == redistributions@[j].view(),
                    decreases redistributions@.len() - i,
                {
                    out.push(redistributions[i].duplicate());
                    i = i + 1;
                }
                proof {
                    assert(out@.map_values(|a: ResourceRedistribution| a.view()) =~= redistributions@.map_values(|a: ResourceRedistribution| a.view()));
                }
                EconomicResolution::RedistributeResources { redistributions: out }
            },
            EconomicResolution::ImposePenalties { penalties } => {
                let mut out: Vec<EconomicPenalty> = Vec::new();
                let mut i: usize = 0;
                while i < penalties.len()
                    invariant
                        i <= penalties@.len(),
                        out@.len() == i,
                        forall|j: int| 0 <= j < i ==> #[trigger] out@[j].view() == penalties@[j].view(),
                    decreases penalties@.len() - i,
                {
                    out.push(penalties[i].duplicate());
                    i = i + 1;
                }
                proof {
                    assert(out@.map_values(|a: EconomicPenalty| a.view()) =~= penalties@.map_values(|a: EconomicPenalty| a.view()));
                }
                EconomicResolution::ImposePenalties { penalties: out }
            },
            EconomicResolution::Compensation { compensations } => {
                let mut out: Vec<Compensation> = Vec::new();
                let mut i: usize = 0;
                while i < compensations.len()
                    invariant
                        i <= compensations@.len(),
                        out@.len() == i,
                        forall|j: int| 0 <= j < i ==> #[trigger] out@[j].view() == compensations@[j].view(),
                    decreases compensations@.len() - i,
                {
                    out.push(compensations[i].duplicate());
                    i = i + 1;
                }
                proof {
                    assert(out@.map_values(|a: Compensation| a.view()) =~= compensations@.map_values(|a: Compensation| a.view()));
                }
                EconomicResolution::Compensation { compensations: out }
            },
            EconomicResolution::FreezeAssets { frozen_assets } => {
                let mut out: Vec<AssetFreeze> = Vec::new();
                let mut i: usize = 0;
                while i < frozen_assets.len()
                    invariant
                        i <= frozen_assets@.len(),
                        out@.len() == i,
                        forall|j: int| 0 <= j < i ==> #[trigger] out@[j].view() == frozen_assets@[j].view(),
                    decreases frozen_assets@.len() - i,
                {
                    out.push(frozen_assets[i].duplicate());
                    i = i + 1;
                }
                proof {
                    assert(out@.map_values(|a: AssetFreeze| a.view()) =~= frozen_assets@.map_values(|a: AssetFreeze| a.view()));
                }
                EconomicResolution::FreezeAssets { frozen_assets: out }
            },
            EconomicResolution::NoActionRequired => EconomicResolution::NoActionRequired,
            EconomicResolution::EscalateToGovernance { reason } => EconomicResolution::EscalateToGovernance {
                reason: reason.clone(),
            },
        }
    }
}

/// Two statuses say the same: a resolved status by what its resolution says.
pub open spec fn status_same(a: EconomicResolutionStatus, b: EconomicResolutionStatus) -> bool {
    if a is Resolved {
        &&& b is Resolved
        &&& a->resolution.view() == b->resolution.view()
        &&& a->applied_at == b->applied_at
    } else {
        a == b
    }
}

/// Two pieces of evidence say the same: lists by their contents.
pub open spec fn evidence_same(a: EconomicEvidence, b: EconomicEvidence) -> bool {
    match a {
        EconomicEvidence::TransactionRecords { transactions } => b matches EconomicEvidence::TransactionRecords {
            transactions: t,
        } && t@ == transactions@,
        EconomicEvidence::PriceManipulation { asset, suspicious_prices } => b matches EconomicEvidence::PriceManipulation {
            asset: x,
            suspicious_prices: p,
        } && x == asset && p@ == suspicious_prices@,
        EconomicEvidence::DoubleSpendingEvidence { conflicting_transactions } => b matches EconomicEvidence::DoubleSpendingEvidence {
            conflicting_transactions: t,
        } && t@ == conflicting_transactions@,
        _ => a == b,
    }
}

/// Two disputes say the same, field by field.
pub open spec fn dispute_same(a: EconomicDispute, b: EconomicDispute) -> bool {
    &&& a.dispute_id == b.dispute_id
    &&& a.dispute_type == b.dispute_type
    &&& a.parties@ == b.parties@
    &&& a.disputed_amount == b.disputed_amount
    &&& a.disputed_asset == b.disputed_asset
    &&& a.filed_at == b.filed_at
    &&& status_same(a.resolution_status, b.resolution_status)
    &&& a.evidence@.len() == b.evidence@.len()
    &&& forall|i: int| 0 <= i < a.evidence@.len() ==> evidence_same(#[trigger] a.evidence@[i], b.evidence@[i])
    &&& a.description == b.description
    &&& a.severity == b.severity
    &&& scope_view(a.scope) == scope_view(b.scope)
}

impl EconomicResolutionStatus {
    /// A copy of the status.
    pub fn duplicate(&self) -> (r: EconomicResolutionStatus)
        ensures
            status_same(r, *self),
    {
        match self {
            EconomicResolutionStatus::Filed => EconomicResolutionStatus::Filed,
            EconomicResolutionStatus::UnderInvestigation => EconomicResolutionStatus::UnderInvestigation,
            EconomicResolutionStatus::Mediation => EconomicResolutionStatus::Mediation,
            EconomicResolutionStatus::Arbitration { arbitrator, deadline } => EconomicResolutionStatus::Arbitration {
                arbitrator: arbitrator.duplicate(),
                deadline: *deadline,
            },
            EconomicResolutionStatus::CommunityVoting { voting_deadline, votes_for, votes_against } => {
                EconomicResolutionStatus::CommunityVoting {
                    voting_deadline: *voting_deadline,
                    votes_for: *votes_for,
                    votes_against: *votes_against,
                }
            },
            EconomicResolutionStatus::Resolved { resolution, applied_at } => EconomicResolutionStatus::Resolved {
                resolution: resolution.duplicate(),
                applied_at: *applied_at,
            },
            EconomicResolutionStatus::Failed { reason } => EconomicResolutionStatus::Failed { reason: reason.clone() },
            EconomicResolutionStatus::EscalatedToGovernance => EconomicResolutionStatus::EscalatedToGovernance,
        }
    }
}

/// A copy of a list of (timestamp, price) pairs.
fn duplicate_prices(v: &Vec<(u64, u64)>) -> (r: Vec<(u64, u64)>)
    ensures
        r@ == v@,
{
    let mut out: Vec<(u64, u64)> = Vec::new();
    let mut i: usize = 0;
    while i < v.len()
        invariant
            i <= v@.len(),
            out@ == v@.take(i as int),
        decreases v@.len() - i,
    {
        out.push(v[i]);
        proof {
            assert(out@ =~= v@.take(i + 1));
        }
        i = i + 1;
    }
    proof {
        assert(v@.take(v@.len() as int) =~= v@);
    }
    out
}

/// A copy of a list of identifiers, equal element by element.
fn copy_dids(v: &Vec<Did>) -> (r: Vec<Did>)
    ensures
        r@ == v@,
{
    let mut out: Vec<Did> = Vec::new();
    let mut i: usize = 0;
    while i < v.len()
        invariant
            i <= v@.len(),
            out@ == v@.take(i as int),
        decreases v@.len() - i,
    {
        out.push(v[i].duplicate());
        proof {
            assert(out@ =~= v@.take(i + 1));
        }
        i = i + 1;
    }
    proof {
        assert(v@.take(v@.len() as int) =~= v@);
    }
    out
}

impl EconomicEvidence {
    /// A copy of the evidence.
    pub fn duplicate(&self) -> (r: EconomicEvidence)
        ensures
            evidence_same(*self, r),
    {
        match self {
            EconomicEvidence::TransactionRecords { transactions } => EconomicEvidence::TransactionRecords {
                transactions: duplicate_texts(transactions),
            },
            EconomicEvidence::BalanceDiscrepancy { account, expected_balance, actual_balance, asset_type } => {
                EconomicEvidence::BalanceDiscrepancy {
                    account: account.duplicate(),
                    expected_balance: *expected_balance,
                    actual_balance: *actual_balance,
                    asset_type: asset_type.clone(),
                }
            },
            EconomicEvidence::ResourceAllocationLog { allocation_id, disputed_allocation } => {
                EconomicEvidence::ResourceAllocationLog {
                    allocation_id: allocation_id.clone(),
                    disputed_allocation: disputed_allocation.clone(),
                }
            },
            EconomicEvidence::PriceManipulation { asset, suspicious_prices } => EconomicEvidence::PriceManipulation {
                asset: asset.clone(),
                suspicious_prices: duplicate_prices(suspicious_prices),
            },
            EconomicEvidence::DoubleSpendingEvidence { conflicting_transactions } => {
                EconomicEvidence::DoubleSpendingEvidence {
                    conflicting_transactions: duplicate_texts(conflicting_transactions),
                }
            },
            EconomicEvidence::ExternalVerification { verifier, verification_details } => {
                EconomicEvidence::ExternalVerification {
                    verifier: verifier.duplicate(),
                    verification_details: verification_details.clone(),
                }
            },
        }
    }
}

impl EconomicDispute {
    /// A copy of the dispute.
    pub fn duplicate(&self) -> (r: EconomicDispute)
        ensures
            dispute_same(*self, r),
    {
        let mut evidence: Vec<EconomicEvidence> = Vec::new();
        let mut i: usize = 0;
        while i < self.evidence.len()
            invariant
                i <= self.evidence@.len(),
                evidence@.len() == i,
                forall|j: int| 0 <= j < i ==> evidence_same(self.evidence@[j], #[trigger] evidence@[j]),
            decreases self.evidence@.len() - i,
        {
            evidence.push(self.evidence[i].duplicate());
            i = i + 1;
        }
        EconomicDispute {
            dispute_id: self.dispute_id.clone(),
            dispute_type: self.dispute_type,
            parties: copy_dids(&self.parties),
            disputed_amount: self.disputed_amount,
            disputed_asset: self.disputed_asset.clone(),
            filed_at: self.filed_at,
            resolution_status: self.resolution_status.duplicate(),
            evidence,
            description: self.description.clone(),
            severity: self.severity,
            scope: duplicate_scope(&self.scope),
        }
    }
}

/// The (id, dispute) pairs of a list of disputes.
pub open spec fn dispute_pairs(s: Seq<EconomicDispute>) -> Seq<(Seq<char>, EconomicDispute)> {
    s.map_values(|d: EconomicDispute| (d.dispute_id@, d))
}

/// The identifiers of a list of accounts.
pub open spec fn ids_of(s: Seq<Did>) -> Seq<Seq<char>> {
    s.map_values(|d: Did| d@)
}

/// Some party of `d` is among `parties`.
pub open spec fn shares_party(d: EconomicDispute, parties: Seq<Seq<char>>) -> bool {
    exists|i: int| 0 <= i < d.parties@.len() && parties.contains(#[trigger] d.parties@[i]@)
}

/// The number of disputes in `s` that share a party with `parties`.
pub open spec fn count_sharing(s: Seq<EconomicDispute>, parties: Seq<Seq<char>>) -> nat
    decreases s.len(),
{
    if s.len() == 0 {
        0
    } else {
        count_sharing(s.drop_last(), parties) + if shares_party(s.last(), parties) {
            1nat
        } else {
            0nat
        }
    }
}

/// Why a dispute is refused at filing: 1 for an amount below the minimum
/// (`PolicyDenied`) unless the dispute is trivial enough to be resolved at
/// once, 2 for no parties, 3 for no evidence (both `InvalidInputError`); 0
/// when it is acceptable.
pub open spec fn filing_defect(d: EconomicDispute, config: EconomicDisputeConfig) -> int {
    if d.disputed_amount matches Some(a) && a < config.minimum_dispute_amount && !(d.parties@.len() > 0
        && d.evidence@.len() > 0 && auto_resolvable(d, config)) {
        1
    } else if d.parties@.len() == 0 {
        2
    } else if d.evidence@.len() == 0 {
        3
    } else {
        0
    }
}

/// Position of the first piece of double-spending evidence that names at
/// least two transactions, from `start` on.
pub open spec fn first_conflict(ev: Seq<EconomicEvidence>, start: int) -> Option<int>
    decreases ev.len() - start,
{
    if start < 0 || start >= ev.len() {
        None
    } else if ev[start] matches EconomicEvidence::DoubleSpendingEvidence { conflicting_transactions }
        && conflicting_transactions@.len() >= 2 {
        Some(start)
    } else {
        first_conflict(ev, start + 1)
    }
}

/// Whether `d` is resolved automatically at filing: only disputes of at most
/// the threshold severity are; a double-spending dispute whose evidence
/// names two conflicting transactions, or a token-transfer dispute of at
/// most twice the minimum amount.
pub open spec fn auto_resolvable(d: EconomicDispute, config: EconomicDisputeConfig) -> bool {
    &&& severity_rank(d.severity) <= severity_rank(config.auto_resolution_threshold)
    &&& match d.dispute_type {
        EconomicDisputeType::DoubleSpending => first_conflict(d.evidence@, 0) is Some,
        EconomicDisputeType::TokenTransferDispute => d.disputed_amount matches Some(a) && a
            <= 2 * config.minimum_dispute_amount,
        _ => false,
    }
}

/// The automatic resolution of `d`, when there is one: the conflicting
/// transactions reversed, or every party credited an equal share of the
/// amount in mana.
pub open spec fn auto_resolution_fits(d: EconomicDispute, config: EconomicDisputeConfig, r: ResolutionView) -> bool {
    match d.dispute_type {
        EconomicDisputeType::DoubleSpending => {
            let i = first_conflict(d.evidence@, 0).unwrap();
            d.evidence@[i] matches EconomicEvidence::DoubleSpendingEvidence { conflicting_transactions }
                && r == ResolutionView::ReverseTransactions(texts_view(conflicting_transactions@))
        },
        _ => r == ResolutionView::Compensation(
            Seq::new(
                d.parties@.len(),
                |i: int|
                    (
                        d.parties@[i]@,
                        (0int, Seq::<char>::empty()),
                        (d.disputed_amount.unwrap() / (d.parties@.len() as u64)) as u64,
                        "Auto-resolved token dispute"@,
                    ),
            ),
        ),
    }
}

/// `d` with its resolution status replaced by `status`.
pub open spec fn with_status(d: EconomicDispute, status: EconomicResolutionStatus) -> EconomicDispute {
    EconomicDispute { resolution_status: status, ..d }
}

/// `a` and `b` are the same dispute, their statuses aside.
pub open spec fn same_but_status(a: EconomicDispute, b: EconomicDispute) -> bool {
    with_status(a, b.resolution_status) == b
}

/// The transactions named by the double-spending evidence, in order.
pub open spec fn conflict_ids(ev: Seq<EconomicEvidence>) -> Seq<Seq<char>>
    decreases ev.len(),
{
    if ev.len() == 0 {
        Seq::empty()
    } else {
        conflict_ids(ev.drop_last()) + match ev.last() {
            EconomicEvidence::DoubleSpendingEvidence { conflicting_transactions } => texts_view(conflicting_transactions@),
            _ => Seq::empty(),
        }
    }
}

/// The balance corrections that discrepancy evidence calls for, in order:
/// each moves the account from the actual to the expected balance.
pub open spec fn corrections(ev: Seq<EconomicEvidence>) -> Seq<(Seq<char>, Seq<char>, i64, Seq<char>)>
    decreases ev.len(),
{
    if ev.len() == 0 {
        Seq::empty()
    } else {
        corrections(ev.drop_last()) + match ev.last() {
            EconomicEvidence::BalanceDiscrepancy { account, expected_balance, actual_balance, .. } => seq![
                (account@, "mana"@, ((expected_balance as i64) - (actual_balance as i64)) as i64, "Balance correction"@),
            ],
            _ => Seq::empty(),
        }
    }
}

/// Every correction that discrepancy evidence calls for fits in an `i64`.
pub open spec fn corrections_fit(ev: Seq<EconomicEvidence>) -> bool {
    forall|i: int|
        0 <= i < ev.len() ==> (#[trigger] ev[i] matches EconomicEvidence::BalanceDiscrepancy {
            expected_balance,
            actual_balance,
            ..
        } ==> i64::MIN <= (expected_balance as i64) - (actual_balance as i64) <= i64::MAX)
}

/// The resolution an authority applies to `d`: reverse the conflicting
/// transactions of a double spend, correct the balances of a mana dispute,
/// compensate each party of a pricing dispute with half the amount, and
/// escalate any other dispute to governance.
pub open spec fn resolution_for(d: EconomicDispute) -> ResolutionView {
    match d.dispute_type {
        EconomicDisputeType::DoubleSpending => ResolutionView::ReverseTransactions(conflict_ids(d.evidence@)),
        EconomicDisputeType::ManaDispute => ResolutionView::AdjustBalances(corrections(d.evidence@)),
        EconomicDisputeType::PricingDispute => ResolutionView::Compensation(
            Seq::new(
                d.parties@.len(),
                |i: int|
                    (
                        d.parties@[i]@,
                        (0int, Seq::<char>::empty()),
                        ((match d.disputed_amount {
                            Some(a) => a,
                            None => 0u64,
                        }) / 2) as u64,
                        "Price manipulation compensation"@,
                    ),
            ),
        ),
        _ => ResolutionView::EscalateToGovernance(
            "Complex dispute type requires governance decision: "@ + match d.dispute_type {
                EconomicDisputeType::ResourceAllocationConflict => "ResourceAllocationConflict"@,
                EconomicDisputeType::TokenTransferDispute => "TokenTransferDispute"@,
                EconomicDisputeType::MarketplaceDispute => "MarketplaceDispute"@,
                _ => "MutualCreditDispute"@,
            },
        ),
    }
}

/// Whether the resolution of `d` can be determined: the corrections of a
/// mana dispute must fit in an `i64`.
pub open spec fn resolvable(d: EconomicDispute) -> bool {
    d.dispute_type == EconomicDisputeType::ManaDispute ==> corrections_fit(d.evidence@)
}

/// The status a periodic check gives an active dispute at time `now`, when it
/// times out: an investigation or mediation that lasted past its timeout is
/// escalated to governance (kind 0), an arbitration past its deadline fails
/// (kind 1).
pub open spec fn timeout_kind(d: EconomicDispute, config: EconomicDisputeConfig, now: u64) -> Option<int> {
    let age = if now >= d.filed_at {
        now - d.filed_at
    } else {
        0
    };
    match d.resolution_status {
        EconomicResolutionStatus::UnderInvestigation => if age > config.investigation_timeout {
            Some(0)
        } else {
            None
        },
        EconomicResolutionStatus::Mediation => if age > config.mediation_timeout {
            Some(0)
        } else {
            None
        },
        EconomicResolutionStatus::Arbitration { deadline, .. } => if now >= deadline {
            Some(1)
        } else {
            None
        },
        _ => None,
    }
}

/// `after` is `before` timed out as `kind` says.
pub open spec fn timed_out_as(before: EconomicDispute, after: EconomicDispute, kind: Option<int>) -> bool {
    match kind {
        None => after == before,
        Some(k) => same_but_status(before, after) && if k == 0 {
            after.resolution_status is EscalatedToGovernance
        } else {
            after.resolution_status matches EconomicResolutionStatus::Failed { reason } && reason@
                == "Arbitration timed out"@
        },
    }
}

/// The ids of the disputes that time out, in order.
pub open spec fn timed_out_ids(s: Seq<EconomicDispute>, config: EconomicDisputeConfig, now: u64) -> Seq<Seq<char>>
    decreases s.len(),
{
    if s.len() == 0 {
        Seq::empty()
    } else {
        timed_out_ids(s.drop_last(), config, now) + if timeout_kind(s.last(), config, now) is Some {
            seq![s.last().dispute_id@]
        } else {
            Seq::empty()
        }
    }
}

/// `after` is `before` with `dispute` appended, resolved automatically at
/// `now`.
pub open spec fn filed_resolved(
    before: Seq<EconomicDispute>,
    after: Seq<EconomicDispute>,
    dispute: EconomicDispute,
    config: EconomicDisputeConfig,
    now: u64,
) -> bool {
    &&& after.len() == before.len() + 1
    &&& after.drop_last() == before
    &&& same_but_status(dispute, after.last())
    &&& after.last().resolution_status matches EconomicResolutionStatus::Resolved { resolution, applied_at }
    &&& applied_at == now
    &&& auto_resolution_fits(dispute, config, resolution.view())
}

/// `e` is `d` resolved at `now` with a resolution that says `v`.
pub open spec fn resolved_entry(d: EconomicDispute, e: EconomicDispute, v: ResolutionView, now: u64) -> bool {
    &&& same_but_status(d, e)
    &&& e.resolution_status matches EconomicResolutionStatus::Resolved { resolution, applied_at }
    &&& applied_at == now
    &&& resolution.view() == v
}

/// The accounts of `s`, each once, in the order they first occur.
pub open spec fn first_seen(s: Seq<ManaTransaction>) -> Seq<Seq<char>>
    decreases s.len(),
{
    if s.len() == 0 {
        Seq::empty()
    } else {
        let a = first_seen(s.drop_last());
        if a.contains(s.last().did@) {
            a
        } else {
            a.push(s.last().did@)
        }
    }
}

/// The net change that the transactions of `s` make to account `k`.
pub open spec fn net_change_of(s: Seq<ManaTransaction>, k: Seq<char>) -> int
    decreases s.len(),
{
    if s.len() == 0 {
        0
    } else {
        net_change_of(s.drop_last(), k) + if s.last().did@ == k {
            s.last().amount as int
        } else {
            0
        }
    }
}

/// The total of the debits of account `k` in `s`.
pub open spec fn debits_of(s: Seq<ManaTransaction>, k: Seq<char>) -> int
    decreases s.len(),
{
    if s.len() == 0 {
        0
    } else {
        debits_of(s.drop_last(), k) + if s.last().did@ == k && s.last().amount < 0 {
            -(s.last().amount as int)
        } else {
            0
        }
    }
}

/// An account that no transaction of `s` names has no change and no debits.
pub proof fn lemma_unseen_account(s: Seq<ManaTransaction>, k: Seq<char>)
    requires
        !first_seen(s).contains(k),
    ensures
        net_change_of(s, k) == 0,
        debits_of(s, k) == 0,
    decreases s.len(),
{
    if s.len() > 0 {
        let a = first_seen(s.drop_last());
        if a.contains(k) {
            assert(first_seen(s).contains(k)) by {
                let i = choose|i: int| 0 <= i < a.len() && a[i] == k;
                if !a.contains(s.last().did@) {
                    assert(a.push(s.last().did@)[i] == k);
                }
            }
        }
        if s.last().did@ == k {
            assert(first_seen(s).contains(k)) by {
                if !a.contains(k) {
                    assert(a.push(k)[a.len() as int] == k);
                }
            }
        }
        lemma_unseen_account(s.drop_last(), k);
    }
}

/// The pattern of a suspicious account: 1 when its debits exceed its balance
/// by more than ten times the minimum dispute amount and exceed three times
/// the balance (excessive debits), 2 when it holds nothing
/// though its transactions add up to a gain, 3 when it holds something but
/// its transactions add up to a loss of more than twice that; 0 otherwise.
///
/// The factor three keeps the excessive-debits pattern for accounts whose
/// debits dwarf their balance: debits of 200 against a balance of 50 are
/// excessive, while debits of 300 against a balance of 100 are reported as
/// an excessive negative flow instead (both cases are in the tests).
pub open spec fn discrepancy_pattern(balance: u64, net: int, debits: int, min: u64) -> int {
    if debits > balance + min * 10 && debits > balance * 3 {
        1
    } else if balance == 0 && net > 0 {
        2
    } else if net < 0 && -net > balance * 2 && balance > 0 {
        3
    } else {
        0
    }
}

/// The amount in dispute for an account with the given pattern.
pub open spec fn discrepancy_amount(pattern: int, balance: u64, net: int, debits: int) -> int {
    if pattern == 1 {
        debits - balance
    } else if pattern == 2 {
        net
    } else {
        -net
    }
}

/// The suspicious accounts among `accounts`, in order, with their pattern
/// and disputed amount.
pub open spec fn discrepancies(
    accounts: Seq<Seq<char>>,
    txs: Seq<ManaTransaction>,
    balances: Map<Seq<char>, u64>,
    min: u64,
) -> Seq<(Seq<char>, int, int)>
    decreases accounts.len(),
{
    if accounts.len() == 0 {
        Seq::empty()
    } else {
        let k = accounts.last();
        let b = balance_in(balances, k);
        let pat = discrepancy_pattern(b, net_change_of(txs, k), debits_of(txs, k), min);
        discrepancies(accounts.drop_last(), txs, balances, min) + if pat != 0 {
            seq![(k, pat, discrepancy_amount(pat, b, net_change_of(txs, k), debits_of(txs, k)))]
        } else {
            Seq::empty()
        }
    }
}

/// Every account's net change fits in an `i64` and its debits in a `u64`.
pub open spec fn flows_fit(txs: Seq<ManaTransaction>) -> bool {
    forall|k: Seq<char>| i64::MIN <= #[trigger] net_change_of(txs, k) <= i64::MAX && debits_of(txs, k) <= u64::MAX
}

/// `d` reports a suspicious account as summarised by `(k, pattern, amount)`,
/// detected at `now`.
pub open spec fn reports_discrepancy(
    d: EconomicDispute,
    summary: (Seq<char>, int, int),
    txs: Seq<ManaTransaction>,
    bals: Map<Seq<char>, u64>,
    now: u64,
) -> bool {
    discrepancy_report(
        d,
        summary.0,
        summary.1,
        summary.2,
        balance_in(bals, summary.0),
        net_change_of(txs, summary.0),
        debits_of(txs, summary.0),
        now,
    )
}

/// `r` holds one dispute for each suspicious account among those of `txs`,
/// in the order they first occur, each reporting its pattern as detected at
/// `now`.
pub open spec fn discrepancies_reported(
    r: Result<Vec<EconomicDispute>, CommonError>,
    txs: Seq<ManaTransaction>,
    bals: Map<Seq<char>, u64>,
    min: u64,
    now: u64,
) -> bool {
    r matches Ok(v) && v@.len() == discrepancies(first_seen(txs), txs, bals, min).len() && forall|i: int|
        0 <= i < v@.len() ==> reports_discrepancy(
            #[trigger] v@[i],
            discrepancies(first_seen(txs), txs, bals, min)[i],
            txs,
            bals,
            now,
        )
}

/// The start of the id of a dispute for a suspicious account, by pattern.
pub open spec fn discrepancy_prefix(pattern: int) -> Seq<char> {
    if pattern == 1 {
        "excessive_debits_"@
    } else if pattern == 2 {
        "missing_credits_"@
    } else {
        "excessive_negative_change_"@
    }
}

/// The description of a dispute for a suspicious account, by pattern.
pub open spec fn discrepancy_text(pattern: int, balance: u64, net: int, debits: int) -> Seq<char> {
    if pattern == 1 {
        "Suspicious transaction pattern (excessive debits): total debits ("@ + decimal(debits as nat)
            + ") exceed reasonable balance limit for account with balance "@ + decimal(balance as nat)
    } else if pattern == 2 {
        "Account has zero balance but recent transactions show net positive change of "@ + decimal(net as nat)
    } else {
        "Excessive negative transaction flow: "@ + decimal((-net) as nat) + " debits for account with balance "@
            + decimal(balance as nat)
    }
}

/// The balance that a dispute for a suspicious account says was expected.
pub open spec fn discrepancy_expected(pattern: int, balance: u64, net: int, debits: int) -> int {
    if pattern == 1 {
        if balance >= debits {
            balance - debits
        } else {
            0
        }
    } else if pattern == 2 {
        net
    } else {
        balance as int
    }
}

/// `d` reports account `k`, found suspicious by `pattern` at time `now`
/// with the given balance and flows, for `amount`.
pub open spec fn discrepancy_report(
    d: EconomicDispute,
    k: Seq<char>,
    pattern: int,
    amount: int,
    balance: u64,
    net: int,
    debits: int,
    now: u64,
) -> bool {
    &&& d.dispute_id@ == discrepancy_prefix(pattern) + k + "_"@ + decimal(now as nat)
    &&& d.dispute_type == EconomicDisputeType::ManaDispute
    &&& ids_of(d.parties@) == seq![k]
    &&& d.disputed_amount == Some(amount as u64)
    &&& d.disputed_asset@ == "mana"@
    &&& d.filed_at == now
    &&& d.resolution_status is Filed
    &&& d.evidence@.len() == 1
    &&& d.evidence@[0] matches EconomicEvidence::BalanceDiscrepancy { account, expected_balance, actual_balance, asset_type }
    &&& account@ == k
    &&& expected_balance == discrepancy_expected(pattern, balance, net, debits)
    &&& actual_balance == balance
    &&& asset_type@ == "mana"@
    &&& d.description@ == discrepancy_text(pattern, balance, net, debits)
    &&& d.severity == if pattern == 2 {
        DisputeSeverity::Medium
    } else {
        DisputeSeverity::High
    }
    &&& d.scope is None
}

/// The net change and the debits of an account are bounded by the number of
/// transactions times the largest `i64` magnitude.
pub proof fn lemma_flow_bounds(s: Seq<ManaTransaction>, k: Seq<char>)
    ensures
        -(s.len() * 0x8000_0000_0000_0000int) <= net_change_of(s, k) <= s.len() * 0x8000_0000_0000_0000int,
        0 <= debits_of(s, k) <= s.len() * 0x8000_0000_0000_0000int,
    decreases s.len(),
{
    if s.len() > 0 {
        lemma_flow_bounds(s.drop_last(), k);
        assert(s.len() * 0x8000_0000_0000_0000int == (s.len() - 1) * 0x8000_0000_0000_0000int + 0x8000_0000_0000_0000int)
            by (nonlinear_arith);
    }
}

/// No account is seen first twice.
pub proof fn lemma_first_seen_distinct(s: Seq<ManaTransaction>)
    ensures
        first_seen(s).no_duplicates(),
    decreases s.len(),
{
    if s.len() > 0 {
        lemma_first_seen_distinct(s.drop_last());
    }
}

/// The (account, time) pairs of `s`, each once, in the order they first
/// occur.
pub open spec fn first_seen_at(s: Seq<ManaTransaction>) -> Seq<(Seq<char>, u64)>
    decreases s.len(),
{
    if s.len() == 0 {
        Seq::empty()
    } else {
        let a = first_seen_at(s.drop_last());
        if a.contains((s.last().did@, s.last().timestamp)) {
            a
        } else {
            a.push((s.last().did@, s.last().timestamp))
        }
    }
}

/// The ids of the transactions of `s` by account `k` at time `t`, in order.
pub open spec fn group_ids(s: Seq<ManaTransaction>, k: Seq<char>, t: u64) -> Seq<Seq<char>>
    decreases s.len(),
{
    if s.len() == 0 {
        Seq::empty()
    } else {
        group_ids(s.drop_last(), k, t) + if s.last().did@ == k && s.last().timestamp == t {
            seq![s.last().transaction_id@]
        } else {
            Seq::empty()
        }
    }
}

/// The sum of the amounts of the transactions of `s` by `k` at time `t`.
pub open spec fn group_total(s: Seq<ManaTransaction>, k: Seq<char>, t: u64) -> int
    decreases s.len(),
{
    if s.len() == 0 {
        0
    } else {
        group_total(s.drop_last(), k, t) + if s.last().did@ == k && s.last().timestamp == t {
            s.last().amount as int
        } else {
            0
        }
    }
}

/// A pair that `s` never names has no transactions.
pub proof fn lemma_unseen_group(s: Seq<ManaTransaction>, k: Seq<char>, t: u64)
    requires
        !first_seen_at(s).contains((k, t)),
    ensures
        group_ids(s, k, t).len() == 0,
        group_total(s, k, t) == 0,
    decreases s.len(),
{
    if s.len() > 0 {
        let a = first_seen_at(s.drop_last());
        if a.contains((k, t)) {
            assert(first_seen_at(s).contains((k, t))) by {
                let i = choose|i: int| 0 <= i < a.len() && a[i] == (k, t);
                if !a.contains((s.last().did@, s.last().timestamp)) {
                    assert(a.push((s.last().did@, s.last().timestamp))[i] == (k, t));
                }
            }
        }
        if s.last().did@ == k && s.last().timestamp == t {
            assert(first_seen_at(s).contains((k, t))) by {
                if !a.contains((k, t)) {
                    assert(a.push((k, t))[a.len() as int] == (k, t));
                }
            }
        }
        lemma_unseen_group(s.drop_last(), k, t);
    }
}

/// No pair is seen first twice.
pub proof fn lemma_first_seen_at_distinct(s: Seq<ManaTransaction>)
    ensures
        first_seen_at(s).no_duplicates(),
    decreases s.len(),
{
    if s.len() > 0 {
        lemma_first_seen_at_distinct(s.drop_last());
    }
}

/// A group's total is bounded by the number of transactions times the
/// largest `i64` magnitude.
pub proof fn lemma_group_bounds(s: Seq<ManaTransaction>, k: Seq<char>, t: u64)
    ensures
        -(s.len() * 0x8000_0000_0000_0000int) <= group_total(s, k, t) <= s.len() * 0x8000_0000_0000_0000int,
        group_ids(s, k, t).len() <= s.len(),
    decreases s.len(),
{
    if s.len() > 0 {
        lemma_group_bounds(s.drop_last(), k, t);
        assert(s.len() * 0x8000_0000_0000_0000int == (s.len() - 1) * 0x8000_0000_0000_0000int + 0x8000_0000_0000_0000int)
            by (nonlinear_arith);
    }
}

/// The double spends among `keys`, in order: groups of more than one
/// transaction whose total moves more mana than the account holds.
pub open spec fn double_spends(
    keys: Seq<(Seq<char>, u64)>,
    s: Seq<ManaTransaction>,
    balances: Map<Seq<char>, u64>,
) -> Seq<((Seq<char>, u64), int)>
    decreases keys.len(),
{
    if keys.len() == 0 {
        Seq::empty()
    } else {
        let (k, t) = keys.last();
        let total = group_total(s, k, t);
        let magnitude = if total < 0 {
            -total
        } else {
            total
        };
        double_spends(keys.drop_last(), s, balances) + if group_ids(s, k, t).len() > 1 && magnitude > balance_in(
            balances,
            k,
        ) {
            seq![((k, t), magnitude)]
        } else {
            Seq::empty()
        }
    }
}

/// Every group's total fits in an `i64`.
pub open spec fn groups_fit(s: Seq<ManaTransaction>) -> bool {
    forall|k: Seq<char>, t: u64| i64::MIN <= #[trigger] group_total(s, k, t) <= i64::MAX
}

/// `d` reports the double spend summarised by `summary` in `s`, detected at
/// `now`.
pub open spec fn reports_double_spend(
    d: EconomicDispute,
    summary: ((Seq<char>, u64), int),
    s: Seq<ManaTransaction>,
    now: u64,
) -> bool {
    &&& d.dispute_id@ == "double_spend_"@ + summary.0.0 + "_"@ + decimal(summary.0.1 as nat) + "_"@ + decimal(now as nat)
    &&& d.dispute_type == EconomicDisputeType::DoubleSpending
    &&& d.description@ == "Potential double spending detected"@
    &&& ids_of(d.parties@) == seq![summary.0.0]
    &&& d.disputed_amount == Some(summary.1 as u64)
    &&& d.disputed_asset@ == "mana"@
    &&& d.filed_at == now
    &&& d.resolution_status is Filed
    &&& d.evidence@.len() == 1
    &&& d.evidence@[0] matches EconomicEvidence::DoubleSpendingEvidence { conflicting_transactions }
    &&& texts_view(conflicting_transactions@) == group_ids(s, summary.0.0, summary.0.1)
    &&& d.severity == DisputeSeverity::High
    &&& d.scope is None
}

/// `v` reports, at time `now`, each double spend of `txs` against `bals`,
/// in the order the groups first occur.
pub open spec fn double_spends_reported(
    v: Seq<EconomicDispute>,
    txs: Seq<ManaTransaction>,
    bals: Map<Seq<char>, u64>,
    now: u64,
) -> bool {
    let ds = double_spends(first_seen_at(txs), txs, bals);
    &&& v.len() == ds.len()
    &&& forall|i: int| 0 <= i < v.len() ==> reports_double_spend(#[trigger] v[i], ds[i], txs, now)
}

/// `m` with each dispute of `s` made the entry under its id, in order.
pub open spec fn insert_all(m: Map<Seq<char>, EconomicDispute>, s: Seq<EconomicDispute>) -> Map<Seq<char>, EconomicDispute>
    decreases s.len(),
{
    if s.len() == 0 {
        m
    } else {
        insert_all(m, s.drop_last()).insert(s.last().dispute_id@, s.last())
    }
}

/// What a detection run at time `now` owes when detection is on: the
/// double spends, then the balance discrepancies, then the price findings;
/// and the active disputes `after` are those `before` with a copy of each
/// detected dispute entered under its id.
pub open spec fn detection_outcome(
    r: Result<Vec<EconomicDispute>, CommonError>,
    txs: Seq<ManaTransaction>,
    bals: Map<Seq<char>, u64>,
    min: u64,
    prices: Seq<EconomicDispute>,
    now: u64,
    before: Map<Seq<char>, EconomicDispute>,
    after: Map<Seq<char>, EconomicDispute>,
) -> bool {
    let ds = double_spends(first_seen_at(txs), txs, bals);
    let bd = discrepancies(first_seen(txs), txs, bals, min);
    &&& r is Ok
    &&& r->Ok_0@.len() == ds.len() + bd.len() + prices.len()
    &&& forall|i: int| 0 <= i < ds.len() ==> reports_double_spend(#[trigger] r->Ok_0@[i], ds[i], txs, now)
    &&& forall|i: int| 0 <= i < bd.len() ==> reports_discrepancy(#[trigger] r->Ok_0@[ds.len() + i], bd[i], txs, bals, now)
    &&& forall|i: int| 0 <= i < prices.len() ==> #[trigger] r->Ok_0@[ds.len() + bd.len() + i] == prices[i]
    &&& exists|c: Seq<EconomicDispute>|
        c.len() == r->Ok_0@.len() && (forall|j: int| 0 <= j < c.len() ==> dispute_same(r->Ok_0@[j], #[trigger] c[j]))
            && after == insert_all(before, c)
}

/// The balance changes that applying a resolution makes, in order: an
/// account and a signed amount (credits are capped, debits need funds).
/// Only balance adjustments and mana credits move mana.
pub open spec fn resolution_steps(v: ResolutionView) -> Seq<(Seq<char>, int)> {
    match v {
        ResolutionView::AdjustBalances(a) => a.map_values(
            |x: (Seq<char>, Seq<char>, i64, Seq<char>)| (x.0, x.2 as int),
        ),
        ResolutionView::Compensation(c) => c.map_values(
            |x: (Seq<char>, (int, Seq<char>), u64, Seq<char>)|
                (
                    x.0,
                    if x.1.0 == 0 {
                        x.2 as int
                    } else {
                        0
                    },
                ),
        ),
        _ => Seq::empty(),
    }
}

/// The balance of `j` after the changes `steps`, starting from `before`.
pub open spec fn balance_after(before: Map<Seq<char>, u64>, steps: Seq<(Seq<char>, int)>, j: Seq<char>) -> int
    decreases steps.len(),
{
    if steps.len() == 0 {
        balance_in(before, j) as int
    } else {
        let prev = balance_after(before, steps.drop_last(), j);
        let k = steps.last().0;
        let d = steps.last().1;
        if k != j || d == 0 {
            prev
        } else if d > 0 {
            if prev + d > u64::MAX {
                u64::MAX as int
            } else {
                prev + d
            }
        } else {
            prev + d
        }
    }
}

/// Every debit among `steps` finds enough mana when its turn comes.
pub open spec fn steps_fit(before: Map<Seq<char>, u64>, steps: Seq<(Seq<char>, int)>) -> bool
    decreases steps.len(),
{
    steps.len() == 0 || (steps_fit(before, steps.drop_last()) && (steps.last().1 < 0 ==> balance_after(
        before,
        steps.drop_last(),
        steps.last().0,
    ) + steps.last().1 >= 0))
}

/// `after` holds the balances of `before` with `steps` applied in order.
pub open spec fn steps_applied(
    before: Map<Seq<char>, u64>,
    after: Map<Seq<char>, u64>,
    steps: Seq<(Seq<char>, int)>,
) -> bool {
    &&& steps_fit(before, steps)
    &&& forall|j: Seq<char>| #[trigger] balance_in(after, j) == balance_after(before, steps, j)
}

/// What applying changes owes: all of them on success; on a refusal by the
/// ledger, the ones before the refused one.
pub open spec fn applied_outcome(
    r: Result<(), CommonError>,
    before: Map<Seq<char>, u64>,
    after: Map<Seq<char>, u64>,
    steps: Seq<(Seq<char>, int)>,
) -> bool {
    &&& r is Ok ==> steps_applied(before, after, steps)
    &&& r is Err ==> exists|n: int| 0 <= n < steps.len() && #[trigger] steps_applied(before, after, steps.take(n))
}

/// Apply one change of a resolution: credit a positive amount, spend a
/// negative one.
pub(crate) fn apply_step<M: ManaLedger>(
    mana_ledger: &mut M,
    account: &Did,
    delta: i128,
    Ghost(before): Ghost<Map<Seq<char>, u64>>,
    Ghost(steps): Ghost<Seq<(Seq<char>, int)>>,
    Ghost(i): Ghost<int>,
) -> (r: Result<(), CommonError>)
    requires
        old(mana_ledger).well_formed(),
        0 <= i < steps.len(),
        steps[i] == (account@, delta as int),
        -0xffff_ffff_ffff_ffff <= delta <= u64::MAX,
        steps_applied(before, old(mana_ledger).balances(), steps.take(i)),
    ensures
        final(mana_ledger).well_formed(),
        r is Ok ==> steps_applied(before, final(mana_ledger).balances(), steps.take(i + 1)),
        r is Err ==> final(mana_ledger).balances() == old(mana_ledger).balances(),
        delta == 0 ==> r is Ok && final(mana_ledger).balances() == old(mana_ledger).balances(),
        delta < 0 && balance_in(old(mana_ledger).balances(), account@) < -delta ==> r is Err,
{
    let ghost b = mana_ledger.balances();
    proof {
        assert(steps.take(i + 1).drop_last() =~= steps.take(i));
        assert(steps.take(i + 1).last() == steps[i]);
    }
    let r = if delta > 0 {
        mana_ledger.credit(account, delta as u64)
    } else if delta < 0 {
        mana_ledger.spend(account, (-delta) as u64)
    } else {
        Ok(())
    };
    proof {
        if r is Ok {
            let a = mana_ledger.balances();
            assert forall|j: Seq<char>| #[trigger] balance_in(a, j) == balance_after(before, steps.take(i + 1), j) by {
                assert(balance_in(b, j) == balance_after(before, steps.take(i), j));
            }
        }
    }
    r
}

/// Manages economic dispute detection and resolution.
#[derive(Debug)]
pub struct EconomicDisputeResolver {
    config: EconomicDisputeConfig,
    active_disputes: Vec<EconomicDispute>,
    resolution_history: Vec<EconomicDispute>,
    economic_authorities: Vec<Did>,
    qualified_arbitrators: Vec<Did>,
}

impl EconomicDisputeResolver {
    /// The active disputes, by id.
    pub closed spec fn active(&self) -> Map<Seq<char>, EconomicDispute> {
        assoc_map(dispute_pairs(self.active_disputes@))
    }

    /// The active disputes in the order they were filed.
    pub closed spec fn active_list(&self) -> Seq<EconomicDispute> {
        self.active_disputes@
    }

    /// The resolved disputes, oldest first.
    pub closed spec fn history(&self) -> Seq<EconomicDispute> {
        self.resolution_history@
    }

    /// The configuration.
    pub closed spec fn spec_config(&self) -> EconomicDisputeConfig {
        self.config
    }

    /// Accounts that may resolve disputes: the authorities and arbitrators.
    pub closed spec fn may_resolve(&self, k: Seq<char>) -> bool {
        ids_of(self.economic_authorities@).contains(k) || ids_of(self.qualified_arbitrators@).contains(k)
    }

    /// Account `k` is an economic authority.
    pub closed spec fn is_authority(&self, k: Seq<char>) -> bool {
        ids_of(self.economic_authorities@).contains(k)
    }

    /// Account `k` is a qualified arbitrator.
    pub closed spec fn is_arbitrator(&self, k: Seq<char>) -> bool {
        ids_of(self.qualified_arbitrators@).contains(k)
    }

    /// No dispute id is active twice.
    pub closed spec fn inv(&self) -> bool {
        keys_distinct(dispute_pairs(self.active_disputes@))
    }

    /// A resolver without disputes, authorities or arbitrators.
    pub fn new(config: EconomicDisputeConfig) -> (r: EconomicDisputeResolver)
        ensures
            r.inv(),
            r.spec_config() == config,
            r.active_list().len() == 0,
            r.active() == Map::<Seq<char>, EconomicDispute>::empty(),
            r.history().len() == 0,
            forall|k: Seq<char>| !r.may_resolve(k),
    {
        let r = EconomicDisputeResolver {
            config,
            active_disputes: Vec::new(),
            resolution_history: Vec::new(),
            economic_authorities: Vec::new(),
            qualified_arbitrators: Vec::new(),
        };
        assert(dispute_pairs(r.active_disputes@) =~= Seq::<(Seq<char>, EconomicDispute)>::empty());
        r
    }

    /// Whether `list` names `did`.
    fn names(list: &Vec<Did>, did: &Did) -> (r: bool)
        ensures
            r == ids_of(list@).contains(did@),
    {
        let mut i: usize = 0;
        while i < list.len()
            invariant
                i <= list@.len(),
                forall|j: int| 0 <= j < i ==> #[trigger] list@[j]@ != did@,
            decreases list@.len() - i,
        {
            if list[i].same_as(did) {
                proof {
                    assert(ids_of(list@)[i as int] == did@);
                }
                return true;
            }
            i = i + 1;
        }
        proof {
            if ids_of(list@).contains(did@) {
                let j = choose|j: int| 0 <= j < ids_of(list@).len() && ids_of(list@)[j] == did@;
                assert(list@[j]@ == did@);
            }
        }
        false
    }

    /// Add an economic authority who can resolve disputes.
    pub fn add_economic_authority(&mut self, authority: Did)
        requires
            old(self).inv(),
        ensures
            final(self).inv(),
            final(self).active() == old(self).active(),
            final(self).active_list() == old(self).active_list(),
            final(self).history() == old(self).history(),
            final(self).spec_config() == old(self).spec_config(),
            forall|k: Seq<char>| #[trigger] final(self).is_authority(k) == (old(self).is_authority(k) || k == authority@),
            forall|k: Seq<char>| #[trigger] final(self).is_arbitrator(k) == old(self).is_arbitrator(k),
            forall|k: Seq<char>| #[trigger] final(self).may_resolve(k) == (old(self).may_resolve(k) || k == authority@),
    {
        if !Self::names(&self.economic_authorities, &authority) {
            let ghost before = self.economic_authorities@;
            let ghost a = authority@;
            self.economic_authorities.push(authority);
            proof {
                assert(ids_of(self.economic_authorities@) =~= ids_of(before).push(a));
                assert forall|k: Seq<char>| #[trigger] ids_of(self.economic_authorities@).contains(k) == (ids_of(
                    before,
                ).contains(k) || k == a) by {
                    if ids_of(self.economic_authorities@).contains(k) && k != a {
                        let j = choose|j: int| 0 <= j < ids_of(self.economic_authorities@).len() && ids_of(self.economic_authorities@)[j] == k;
                        assert(ids_of(before)[j] == k);
                    }
                    if k == a {
                        assert(ids_of(self.economic_authorities@)[before.len() as int] == a);
                    }
                    if ids_of(before).contains(k) {
                        let j = choose|j: int| 0 <= j < ids_of(before).len() && ids_of(before)[j] == k;
                        assert(ids_of(self.economic_authorities@)[j] == k);
                    }
                }
            }
        }
    }

    /// Add a qualified arbitrator.
    pub fn add_arbitrator(&mut self, arbitrator: Did)
        requires
            old(self).inv(),
        ensures
            final(self).inv(),
            final(self).active() == old(self).active(),
            final(self).active_list() == old(self).active_list(),
            final(self).history() == old(self).history(),
            final(self).spec_config() == old(self).spec_config(),
            forall|k: Seq<char>| #[trigger] final(self).is_arbitrator(k) == (old(self).is_arbitrator(k) || k == arbitrator@),
            forall|k: Seq<char>| #[trigger] final(self).is_authority(k) == old(self).is_authority(k),
            forall|k: Seq<char>| #[trigger] final(self).may_resolve(k) == (old(self).may_resolve(k) || k == arbitrator@),
    {
        if !Self::names(&self.qualified_arbitrators, &arbitrator) {
            let ghost before = self.qualified_arbitrators@;
            let ghost a = arbitrator@;
            self.qualified_arbitrators.push(arbitrator);
            proof {
                assert(ids_of(self.qualified_arbitrators@) =~= ids_of(before).push(a));
                assert forall|k: Seq<char>| #[trigger] ids_of(self.qualified_arbitrators@).contains(k) == (ids_of(
                    before,
                ).contains(k) || k == a) by {
                    if ids_of(self.qualified_arbitrators@).contains(k) && k != a {
                        let j = choose|j: int| 0 <= j < ids_of(self.qualified_arbitrators@).len() && ids_of(self.qualified_arbitrators@)[j] == k;
                        assert(ids_of(before)[j] == k);
                    }
                    if k == a {
                        assert(ids_of(self.qualified_arbitrators@)[before.len() as int] == a);
                    }
                    if ids_of(before).contains(k) {
                        let j = choose|j: int| 0 <= j < ids_of(before).len() && ids_of(before)[j] == k;
                        assert(ids_of(self.qualified_arbitrators@)[j] == k);
                    }
                }
            }
        }
    }

    /// Whether `d` names a party of `parties`.
    fn shares_any_party(d: &EconomicDispute, parties: &Vec<Did>) -> (r: bool)
        ensures
            r == shares_party(*d, ids_of(parties@)),
    {
        let mut i: usize = 0;
        while i < d.parties.len()
            invariant
                i <= d.parties@.len(),
                forall|j: int| 0 <= j < i ==> !ids_of(parties@).contains(#[trigger] d.parties@[j]@),
            decreases d.parties@.len() - i,
        {
            if Self::names(parties, &d.parties[i]) {
                return true;
            }
            i = i + 1;
        }
        false
    }

    /// The number of active disputes that share a party with `parties`.
    fn count_disputes_with(&self, parties: &Vec<Did>) -> (r: usize)
        ensures
            r == count_sharing(self.active_list(), ids_of(parties@)),
    {
        let mut count: usize = 0;
        let mut i: usize = 0;
        while i < self.active_disputes.len()
            invariant
                i <= self.active_disputes@.len(),
                count == count_sharing(self.active_disputes@.take(i as int), ids_of(parties@)),
                count <= i,
            decreases self.active_disputes@.len() - i,
        {
            proof {
                assert(self.active_disputes@.take(i + 1).drop_last() =~= self.active_disputes@.take(i as int));
            }
            if Self::shares_any_party(&self.active_disputes[i], parties) {
                count = count + 1;
            }
            i = i + 1;
        }
        proof {
            assert(self.active_disputes@.take(self.active_disputes@.len() as int) =~= self.active_disputes@);
        }
        count
    }

    /// Position of the active dispute `dispute_id`.
    fn find_active(&self, dispute_id: &String) -> (r: Option<usize>)
        requires
            self.inv(),
        ensures
            r matches Some(i) ==> i < self.active_disputes@.len() && self.active_disputes@[i as int].dispute_id@
                == dispute_id@ && self.active().contains_key(dispute_id@) && self.active()[dispute_id@]
                == self.active_disputes@[i as int],
            r is None ==> !self.active().contains_key(dispute_id@),
    {
        let mut i: usize = 0;
        while i < self.active_disputes.len()
            invariant
                self.inv(),
                i <= self.active_disputes@.len(),
                forall|j: int| 0 <= j < i ==> #[trigger] self.active_disputes@[j].dispute_id@ != dispute_id@,
            decreases self.active_disputes@.len() - i,
        {
            if self.active_disputes[i].dispute_id == *dispute_id {
                proof {
                    lemma_assoc_index(dispute_pairs(self.active_disputes@), i as int);
                }
                return Some(i);
            }
            i = i + 1;
        }
        proof {
            let p = dispute_pairs(self.active_disputes@);
            assert forall|j: int| 0 <= j < p.len() implies #[trigger] p[j].0 != dispute_id@ by {
                assert(p[j].0 == self.active_disputes@[j].dispute_id@);
            }
            lemma_assoc_absent(p, dispute_id@);
        }
        None
    }

    /// Make `dispute` the active dispute under its id, replacing any other.
    fn put_active(&mut self, dispute: EconomicDispute)
        requires
            old(self).inv(),
        ensures
            final(self).inv(),
            final(self).active() == old(self).active().insert(dispute.dispute_id@, dispute),
            final(self).history() == old(self).history(),
            final(self).spec_config() == old(self).spec_config(),
            forall|k: Seq<char>| #[trigger] final(self).may_resolve(k) == old(self).may_resolve(k),
    {
        let ghost p = dispute_pairs(self.active_disputes@);
        let ghost key = dispute.dispute_id@;
        match self.find_active(&dispute.dispute_id) {
            Some(i) => {
                let ghost d = dispute;
                self.active_disputes.set(i, dispute);
                proof {
                    lemma_assoc_update(p, i as int, d);
                    assert(dispute_pairs(self.active_disputes@) =~= p.update(i as int, (p[i as int].0, d)));
                }
            },
            None => {
                let ghost d = dispute;
                self.active_disputes.push(dispute);
                proof {
                    assert forall|j: int| 0 <= j < p.len() implies #[trigger] p[j].0 != key by {
                        if p[j].0 == key {
                            lemma_assoc_index(p, j);
                        }
                    }
                    lemma_assoc_push(p, key, d);
                    assert(dispute_pairs(self.active_disputes@) =~= p.push((key, d)));
                }
            },
        }
    }

    /// The automatic resolution of `dispute`, if it has one.
    pub fn check_auto_resolution(&self, dispute: &EconomicDispute) -> (r: Option<EconomicResolution>)
        ensures
            r is Some <==> auto_resolvable(*dispute, self.spec_config()),
            r matches Some(x) ==> auto_resolution_fits(*dispute, self.spec_config(), x.view()),
    {
        if dispute.severity.rank() > self.config.auto_resolution_threshold.rank() {
            return None;
        }
        match dispute.dispute_type {
            EconomicDisputeType::DoubleSpending => {
                let mut i: usize = 0;
                while i < dispute.evidence.len()
                    invariant
                        i <= dispute.evidence@.len(),
                        first_conflict(dispute.evidence@, 0) == first_conflict(dispute.evidence@, i as int),
                        severity_rank(dispute.severity) <= severity_rank(self.config.auto_resolution_threshold),
                        dispute.dispute_type == EconomicDisputeType::DoubleSpending,
                    decreases dispute.evidence@.len() - i,
                {
                    if let EconomicEvidence::DoubleSpendingEvidence { conflicting_transactions } = &dispute.evidence[i] {
                        if conflicting_transactions.len() >= 2 {
                            let ids = duplicate_texts(conflicting_transactions);
                            proof {
                                assert(texts_view(ids@) =~= texts_view(conflicting_transactions@));
                            }
                            return Some(EconomicResolution::ReverseTransactions { transaction_ids: ids });
                        }
                    }
                    i = i + 1;
                }
                None
            },
            EconomicDisputeType::TokenTransferDispute => {
                if let Some(amount) = dispute.disputed_amount {
                    if (amount as u128) <= 2 * (self.config.minimum_dispute_amount as u128) {
                        let n = dispute.parties.len() as u64;
                        let share = if n > 0 {
                            amount / n
                        } else {
                            0
                        };
                        let mut compensations: Vec<Compensation> = Vec::new();
                        let mut i: usize = 0;
                        while i < dispute.parties.len()
                            invariant
                                i <= dispute.parties@.len(),
                                n == dispute.parties@.len(),
                                severity_rank(dispute.severity) <= severity_rank(self.config.auto_resolution_threshold),
                                dispute.dispute_type == EconomicDisputeType::TokenTransferDispute,
                                amount <= 2 * self.config.minimum_dispute_amount,
                                n > 0 ==> share == amount / n,
                                dispute.disputed_amount == Some(amount),
                                compensations@.len() == i,
                                forall|j: int| 0 <= j < i ==> #[trigger] compensations@[j].view() == (
                                    dispute.parties@[j]@,
                                    (0int, Seq::<char>::empty()),
                                    (dispute.disputed_amount.unwrap() / (dispute.parties@.len() as u64)) as u64,
                                    "Auto-resolved token dispute"@,
                                ),
                            decreases dispute.parties@.len() - i,
                        {
                            compensations.push(
                                Compensation {
                                    recipient: dispute.parties[i].duplicate(),
                                    compensation_type: CompensationType::ManaCredit,
                                    amount: share,
                                    reason: String::from_str("Auto-resolved token dispute"),
                                },
                            );
                            i = i + 1;
                        }
                        proof {
                            assert(compensations@.map_values(|a: Compensation| a.view()) =~= Seq::new(
                                dispute.parties@.len(),
                                |i: int|
                                    (
                                        dispute.parties@[i]@,
                                        (0int, Seq::<char>::empty()),
                                        (dispute.disputed_amount.unwrap() / (dispute.parties@.len() as u64)) as u64,
                                        "Auto-resolved token dispute"@,
                                    ),
                            ));
                        }
                        let r = EconomicResolution::Compensation { compensations };
                        return Some(r);
                    }
                }
                None
            },
            _ => None,
        }
    }

    /// File `dispute` at time `now`: it is validated, refused when its
    /// parties already have too many active disputes, resolved at once when
    /// trivial, and otherwise made active. Returns its id.
    pub fn file_dispute_at(&mut self, dispute: EconomicDispute, now: u64) -> (r: Result<String, CommonError>)
        requires
            old(self).inv(),
        ensures
            final(self).inv(),
            final(self).spec_config() == old(self).spec_config(),
            forall|k: Seq<char>| #[trigger] final(self).may_resolve(k) == old(self).may_resolve(k),
            filing_defect(dispute, old(self).spec_config()) == 1 ==> (r matches Err(CommonError::PolicyDenied(_))),
            filing_defect(dispute, old(self).spec_config()) == 2 || filing_defect(dispute, old(self).spec_config()) == 3
                ==> (r matches Err(CommonError::InvalidInputError(_))),
            filing_defect(dispute, old(self).spec_config()) == 0 && count_sharing(
                old(self).active_list(),
                ids_of(dispute.parties@),
            ) >= old(self).spec_config().max_disputes_per_account ==> (r matches Err(CommonError::PolicyDenied(_))),
            r is Err ==> final(self).active_list() == old(self).active_list() && final(self).history() == old(self).history(),
            r matches Ok(id) ==> id@ == dispute.dispute_id@ && filing_defect(dispute, old(self).spec_config()) == 0
                && count_sharing(old(self).active_list(), ids_of(dispute.parties@)) < old(self).spec_config().max_disputes_per_account,
            r is Ok && auto_resolvable(dispute, old(self).spec_config()) ==> final(self).active_list() == old(self).active_list()
                && filed_resolved(old(self).history(), final(self).history(), dispute, old(self).spec_config(), now),
            r is Ok && !auto_resolvable(dispute, old(self).spec_config()) ==> final(self).active() == old(self).active().insert(dispute.dispute_id@, dispute) && final(self).history() == old(self).history(),
    {
        let auto = if dispute.parties.len() > 0 && dispute.evidence.len() > 0 {
            self.check_auto_resolution(&dispute)
        } else {
            None
        };
        if let Some(amount) = dispute.disputed_amount {
            if amount < self.config.minimum_dispute_amount && auto.is_none() {
                return Err(CommonError::PolicyDenied(String::from_str("Dispute amount below minimum threshold")));
            }
        }
        if dispute.parties.len() == 0 {
            return Err(CommonError::InvalidInputError(String::from_str("Dispute must involve at least one party")));
        }
        if dispute.evidence.len() == 0 {
            return Err(CommonError::InvalidInputError(String::from_str("Dispute must include supporting evidence")));
        }
        let account_disputes = self.count_disputes_with(&dispute.parties);
        if account_disputes >= self.config.max_disputes_per_account {
            return Err(CommonError::PolicyDenied(String::from_str("Too many active disputes for this account")));
        }
        let dispute_id = dispute.dispute_id.clone();
        match auto {
            Some(resolution) => {
                let mut resolved = dispute;
                resolved.resolution_status = EconomicResolutionStatus::Resolved { resolution, applied_at: now };
                let ghost before = self.resolution_history@;
                self.resolution_history.push(resolved);
                proof {
                    assert(self.resolution_history@.drop_last() =~= before);
                }
                Ok(dispute_id)
            },
            None => {
                self.put_active(dispute);
                Ok(dispute_id)
            },
        }
    }

    /// File `dispute` now, by the system clock (which dates an automatic
    /// resolution).
    pub fn file_dispute(&mut self, dispute: EconomicDispute) -> (r: Result<String, CommonError>)
        requires
            old(self).inv(),
        ensures
            final(self).inv(),
            filing_defect(dispute, old(self).spec_config()) == 1 ==> (r matches Err(CommonError::PolicyDenied(_))),
            filing_defect(dispute, old(self).spec_config()) == 2 || filing_defect(dispute, old(self).spec_config()) == 3
                ==> (r matches Err(CommonError::InvalidInputError(_))),
            filing_defect(dispute, old(self).spec_config()) == 0 && count_sharing(
                old(self).active_list(),
                ids_of(dispute.parties@),
            ) >= old(self).spec_config().max_disputes_per_account ==> (r matches Err(CommonError::PolicyDenied(_))),
            r is Err ==> final(self).active_list() == old(self).active_list() && final(self).history() == old(self).history(),
            r matches Ok(id) ==> id@ == dispute.dispute_id@,
            r is Ok && auto_resolvable(dispute, old(self).spec_config()) ==> final(self).active_list() == old(self).active_list() && final(self).history().len() == old(self).history().len() + 1,
            r is Ok && !auto_resolvable(dispute, old(self).spec_config()) ==> final(self).active() == old(self).active().insert(dispute.dispute_id@, dispute) && final(self).history() == old(self).history(),
    {
        let now = unix_seconds();
        self.file_dispute_at(dispute, now)
    }

    /// The resolution an authority applies to `dispute`.
    pub fn determine_resolution(&self, dispute: &EconomicDispute) -> (r: EconomicResolution)
        requires
            resolvable(*dispute),
        ensures
            r.view() == resolution_for(*dispute),
    {
        match dispute.dispute_type {
            EconomicDisputeType::DoubleSpending => {
                let mut ids: Vec<String> = Vec::new();
                let mut i: usize = 0;
                while i < dispute.evidence.len()
                    invariant
                        i <= dispute.evidence@.len(),
                        texts_view(ids@) == conflict_ids(dispute.evidence@.take(i as int)),
                    decreases dispute.evidence@.len() - i,
                {
                    proof {
                        assert(dispute.evidence@.take(i + 1).drop_last() =~= dispute.evidence@.take(i as int));
                    }
                    if let EconomicEvidence::DoubleSpendingEvidence { conflicting_transactions } = &dispute.evidence[i] {
                        let mut k: usize = 0;
                        let ghost base = ids@;
                        while k < conflicting_transactions.len()
                            invariant
                                k <= conflicting_transactions@.len(),
                                ids@ == base + conflicting_transactions@.take(k as int),
                            decreases conflicting_transactions@.len() - k,
                        {
                            ids.push(conflicting_transactions[k].clone());
                            proof {
                                assert(ids@ =~= base + conflicting_transactions@.take(k + 1));
                            }
                            k = k + 1;
                        }
                        proof {
                            assert(conflicting_transactions@.take(conflicting_transactions@.len() as int) =~= conflicting_transactions@);
                            assert(texts_view(ids@) =~= texts_view(base) + texts_view(conflicting_transactions@));
                        }
                    } else {
                        proof {
                            assert(conflict_ids(dispute.evidence@.take(i + 1)) =~= conflict_ids(dispute.evidence@.take(i as int)));
                        }
                    }
                    i = i + 1;
                }
                proof {
                    assert(dispute.evidence@.take(dispute.evidence@.len() as int) =~= dispute.evidence@);
                }
                EconomicResolution::ReverseTransactions { transaction_ids: ids }
            },
            EconomicDisputeType::ManaDispute => {
                let mut adjustments: Vec<BalanceAdjustment> = Vec::new();
                let mut i: usize = 0;
                while i < dispute.evidence.len()
                    invariant
                        i <= dispute.evidence@.len(),
                        corrections_fit(dispute.evidence@),
                        adjustments@.map_values(|a: BalanceAdjustment| a.view()) == corrections(
                            dispute.evidence@.take(i as int),
                        ),
                    decreases dispute.evidence@.len() - i,
                {
                    proof {
                        assert(dispute.evidence@.take(i + 1).drop_last() =~= dispute.evidence@.take(i as int));
                    }
                    let ghost before = adjustments@;
                    if let EconomicEvidence::BalanceDiscrepancy { account, expected_balance, actual_balance, .. } =
                        &dispute.evidence[i] {
                        proof {
                            assert(dispute.evidence@[i as int] matches EconomicEvidence::BalanceDiscrepancy { .. });
                        }
                        let adjustment = (*expected_balance as i64) - (*actual_balance as i64);
                        adjustments.push(
                            BalanceAdjustment {
                                account: account.duplicate(),
                                asset_type: String::from_str("mana"),
                                adjustment_amount: adjustment,
                                reason: String::from_str("Balance correction"),
                            },
                        );
                        proof {
                            assert(adjustments@.map_values(|a: BalanceAdjustment| a.view()) =~= before.map_values(
                                |a: BalanceAdjustment| a.view(),
                            ).push(adjustments@.last().view()));
                            assert(adjustments@.map_values(|a: BalanceAdjustment| a.view()) =~= corrections(
                                dispute.evidence@.take(i + 1),
                            ));
                        }
                    } else {
                        proof {
                            assert(corrections(dispute.evidence@.take(i + 1)) =~= corrections(dispute.evidence@.take(i as int)));
                        }
                    }
                    i = i + 1;
                }
                proof {
                    assert(dispute.evidence@.take(dispute.evidence@.len() as int) =~= dispute.evidence@);
                }
                EconomicResolution::AdjustBalances { adjustments }
            },
            EconomicDisputeType::PricingDispute => {
                let amount = match dispute.disputed_amount {
                    Some(a) => a,
                    None => 0,
                };
                let mut compensations: Vec<Compensation> = Vec::new();
                let mut i: usize = 0;
                while i < dispute.parties.len()
                    invariant
                        i <= dispute.parties@.len(),
                        amount == (match dispute.disputed_amount {
                            Some(a) => a,
                            None => 0u64,
                        }),
                        compensations@.len() == i,
                        forall|j: int| 0 <= j < i ==> #[trigger] compensations@[j].view() == (
                            dispute.parties@[j]@,
                            (0int, Seq::<char>::empty()),
                            (amount / 2) as u64,
                            "Price manipulation compensation"@,
                        ),
                    decreases dispute.parties@.len() - i,
                {
                    compensations.push(
                        Compensation {
                            recipient: dispute.parties[i].duplicate(),
                            compensation_type: CompensationType::ManaCredit,
                            amount: amount / 2,
                            reason: String::from_str("Price manipulation compensation"),
                        },
                    );
                    i = i + 1;
                }
                proof {
                    assert(compensations@.map_values(|a: Compensation| a.view()) =~= Seq::new(
                        dispute.parties@.len(),
                        |i: int|
                            (
                                dispute.parties@[i]@,
                                (0int, Seq::<char>::empty()),
                                ((match dispute.disputed_amount {
                                    Some(a) => a,
                                    None => 0u64,
                                }) / 2) as u64,
                                "Price manipulation compensation"@,
                            ),
                    ));
                }
                EconomicResolution::Compensation { compensations }
            },
            _ => {
                let name = dispute.dispute_type.name();
                EconomicResolution::EscalateToGovernance {
                    reason: join2("Complex dispute type requires governance decision: ", name),
                }
            },
        }
    }

    /// Resolve the active dispute `dispute_id` at time `now`, by `resolver`,
    /// who must be an authority or an arbitrator: the dispute gets the
    /// resolution its type calls for and moves to the history.
    pub fn resolve_dispute_at(&mut self, dispute_id: &str, resolver: &Did, now: u64) -> (r: Result<
        EconomicResolutionStatus,
        CommonError,
    >)
        requires
            old(self).inv(),
            old(self).active().contains_key(dispute_id@) ==> resolvable(old(self).active()[dispute_id@]),
        ensures
            final(self).inv(),
            final(self).spec_config() == old(self).spec_config(),
            forall|k: Seq<char>| #[trigger] final(self).may_resolve(k) == old(self).may_resolve(k),
            !old(self).may_resolve(resolver@) ==> (r matches Err(CommonError::PolicyDenied(_))),
            old(self).may_resolve(resolver@) && !old(self).active().contains_key(dispute_id@) ==> (r matches Err(
                CommonError::ResourceNotFound(_),
            )),
            r is Err ==> final(self).active_list() == old(self).active_list() && final(self).history() == old(self).history(),
            r is Ok ==> old(self).may_resolve(resolver@) && old(self).active().contains_key(dispute_id@)
                && final(self).active() == old(self).active().remove(dispute_id@) && final(self).history().len()
                == old(self).history().len() + 1 && final(self).history().drop_last() == old(self).history()
                && resolved_entry(
                old(self).active()[dispute_id@],
                final(self).history().last(),
                resolution_for(old(self).active()[dispute_id@]),
                now,
            ),
            r matches Ok(st) ==> (st matches EconomicResolutionStatus::Resolved { resolution, applied_at }
                && applied_at == now && resolution.view() == resolution_for(old(self).active()[dispute_id@])),
    {
        let is_authority = Self::names(&self.economic_authorities, resolver);
        let is_arbitrator = Self::names(&self.qualified_arbitrators, resolver);
        if !is_authority && !is_arbitrator {
            return Err(CommonError::PolicyDenied(String::from_str("Not authorized to resolve economic disputes")));
        }
        let key = dispute_id.to_owned();
        let index = match self.find_active(&key) {
            Some(i) => i,
            None => {
                return Err(CommonError::ResourceNotFound(join2("Dispute ", dispute_id).concat(" not found")));
            },
        };
        let ghost p = dispute_pairs(self.active_disputes@);
        let mut dispute = self.active_disputes.remove(index);
        proof {
            lemma_assoc_remove(p, index as int);
            assert(dispute_pairs(self.active_disputes@) =~= p.remove(index as int));
        }
        let ghost original = dispute;
        let resolution = self.determine_resolution(&dispute);
        dispute.resolution_status = EconomicResolutionStatus::Resolved { resolution: resolution.duplicate(), applied_at: now };
        let ghost before = self.resolution_history@;
        self.resolution_history.push(dispute);
        proof {
            assert(self.resolution_history@.drop_last() =~= before);
        }
        Ok(EconomicResolutionStatus::Resolved { resolution, applied_at: now })
    }

    /// Resolve the active dispute `dispute_id` now, by the system clock.
    pub fn resolve_dispute(&mut self, dispute_id: &str, resolver: &Did) -> (r: Result<EconomicResolutionStatus, CommonError>)
        requires
            old(self).inv(),
            old(self).active().contains_key(dispute_id@) ==> resolvable(old(self).active()[dispute_id@]),
        ensures
            final(self).inv(),
            !old(self).may_resolve(resolver@) ==> (r matches Err(CommonError::PolicyDenied(_))),
            old(self).may_resolve(resolver@) && !old(self).active().contains_key(dispute_id@) ==> (r matches Err(
                CommonError::ResourceNotFound(_),
            )),
            r is Err ==> final(self).active_list() == old(self).active_list() && final(self).history() == old(self).history(),
            r is Ok ==> final(self).active() == old(self).active().remove(dispute_id@) && final(self).history().len()
                == old(self).history().len() + 1,
            r matches Ok(st) ==> (st matches EconomicResolutionStatus::Resolved { resolution, .. }
                && resolution.view() == resolution_for(old(self).active()[dispute_id@])),
    {
        let now = unix_seconds();
        self.resolve_dispute_at(dispute_id, resolver, now)
    }

    /// Time out, at time `now`, the active disputes whose investigation or
    /// mediation outlasted its timeout (escalated to governance) or whose
    /// arbitration passed its deadline (failed). Returns their ids in order.
    pub fn process_periodic_tasks_at(&mut self, now: u64) -> (r: Result<Vec<String>, CommonError>)
        requires
            old(self).inv(),
        ensures
            final(self).inv(),
            final(self).spec_config() == old(self).spec_config(),
            forall|k: Seq<char>| #[trigger] final(self).may_resolve(k) == old(self).may_resolve(k),
            final(self).history() == old(self).history(),
            final(self).active_list().len() == old(self).active_list().len(),
            forall|i: int|
                0 <= i < old(self).active_list().len() ==> timed_out_as(
                    old(self).active_list()[i],
                    #[trigger] final(self).active_list()[i],
                    timeout_kind(old(self).active_list()[i], old(self).spec_config(), now),
                ),
            r matches Ok(ids) && texts_view(ids@) == timed_out_ids(old(self).active_list(), old(self).spec_config(), now),
    {
        let ghost start = self.active_disputes@;
        let n = self.active_disputes.len();
        let mut ids: Vec<String> = Vec::new();
        let mut i: usize = 0;
        while i < n
            invariant
                n == start.len(),
                self.active_disputes@.len() == n,
                self.spec_config() == old(self).spec_config(),
                self.resolution_history@ == old(self).resolution_history@,
                self.economic_authorities@ == old(self).economic_authorities@,
                self.qualified_arbitrators@ == old(self).qualified_arbitrators@,
                start == old(self).active_disputes@,
                keys_distinct(dispute_pairs(start)),
                i <= n,
                forall|j: int| 0 <= j < n ==> #[trigger] self.active_disputes@[j].dispute_id == start[j].dispute_id,
                forall|j: int| 0 <= j < i ==> timed_out_as(start[j], #[trigger] self.active_disputes@[j], timeout_kind(start[j], self.config, now)),
                forall|j: int| i <= j < n ==> #[trigger] self.active_disputes@[j] == start[j],
                texts_view(ids@) == timed_out_ids(start.take(i as int), self.config, now),
            decreases n - i,
        {
            proof {
                assert(start.take(i + 1).drop_last() =~= start.take(i as int));
                assert(start.take(i + 1).last() == start[i as int]);
            }
            let age = now.saturating_sub(self.active_disputes[i].filed_at);
            let kind: u8 = match &self.active_disputes[i].resolution_status {
                EconomicResolutionStatus::UnderInvestigation => if age > self.config.investigation_timeout {
                    1
                } else {
                    0
                },
                EconomicResolutionStatus::Mediation => if age > self.config.mediation_timeout {
                    1
                } else {
                    0
                },
                EconomicResolutionStatus::Arbitration { deadline, .. } => if now >= *deadline {
                    2
                } else {
                    0
                },
                _ => 0,
            };
            if kind > 0 {
                let ghost cur = self.active_disputes@;
                let mut d = self.active_disputes.remove(i);
                if kind == 1 {
                    d.resolution_status = EconomicResolutionStatus::EscalatedToGovernance;
                } else {
                    d.resolution_status = EconomicResolutionStatus::Failed { reason: String::from_str("Arbitration timed out") };
                }
                let ghost dv = d;
                let ghost before_ids = ids@;
                ids.push(d.dispute_id.clone());
                self.active_disputes.insert(i, d);
                proof {
                    assert(self.active_disputes@ =~= cur.update(i as int, dv));
                    assert(texts_view(ids@) =~= texts_view(before_ids).push(dv.dispute_id@));
                }
            }
            i = i + 1;
        }
        proof {
            assert(start.take(n as int) =~= start);
            let p = dispute_pairs(self.active_disputes@);
            assert forall|a: int, b: int| 0 <= a < b < p.len() implies #[trigger] p[a].0 != #[trigger] p[b].0 by {
                assert(dispute_pairs(start)[a].0 != dispute_pairs(start)[b].0);
            }
        }
        Ok(ids)
    }

    /// Time out the active disputes now, by the system clock, as
    /// [`Self::process_periodic_tasks_at`] does at the time the clock reads.
    pub fn process_periodic_tasks(&mut self) -> (r: Result<Vec<String>, CommonError>)
        requires
            old(self).inv(),
        ensures
            final(self).inv(),
            final(self).spec_config() == old(self).spec_config(),
            forall|k: Seq<char>| #[trigger] final(self).may_resolve(k) == old(self).may_resolve(k),
            final(self).history() == old(self).history(),
            final(self).active_list().len() == old(self).active_list().len(),
            exists|now: u64|
                #![trigger timed_out_ids(old(self).active_list(), old(self).spec_config(), now)]
                {
                    &&& forall|i: int|
                        0 <= i < old(self).active_list().len() ==> timed_out_as(
                            old(self).active_list()[i],
                            #[trigger] final(self).active_list()[i],
                            timeout_kind(old(self).active_list()[i], old(self).spec_config(), now),
                        )
                    &&& r matches Ok(ids) && texts_view(ids@) == timed_out_ids(
                        old(self).active_list(),
                        old(self).spec_config(),
                        now,
                    )
                },
    {
        let now = unix_seconds();
        let r = self.process_periodic_tasks_at(now);
        proof {
            let _ = timed_out_ids(old(self).active_list(), old(self).spec_config(), now);
        }
        r
    }

    /// Position of `did` in `accounts`.
    fn index_of(accounts: &Vec<Did>, did: &Did) -> (r: Option<usize>)
        ensures
            r matches Some(j) ==> j < accounts@.len() && accounts@[j as int]@ == did@,
            r is None ==> !ids_of(accounts@).contains(did@),
    {
        let mut i: usize = 0;
        while i < accounts.len()
            invariant
                i <= accounts@.len(),
                forall|j: int| 0 <= j < i ==> #[trigger] accounts@[j]@ != did@,
            decreases accounts@.len() - i,
        {
            if accounts[i].same_as(did) {
                return Some(i);
            }
            i = i + 1;
        }
        proof {
            if ids_of(accounts@).contains(did@) {
                let j = choose|j: int| 0 <= j < ids_of(accounts@).len() && ids_of(accounts@)[j] == did@;
                assert(accounts@[j]@ == did@);
            }
        }
        None
    }

    /// The accounts of the transactions, each once in the order they first
    /// occur, with each account's net change and debits.
    pub fn account_flows(transactions: &[ManaTransaction]) -> (r: (Vec<Did>, Vec<i128>, Vec<i128>))
        ensures
            ids_of(r.0@) == first_seen(transactions@),
            r.1@.len() == r.0@.len(),
            r.2@.len() == r.0@.len(),
            forall|j: int| 0 <= j < r.0@.len() ==> #[trigger] r.1@[j] == net_change_of(transactions@, r.0@[j]@),
            forall|j: int| 0 <= j < r.0@.len() ==> #[trigger] r.2@[j] == debits_of(transactions@, r.0@[j]@),
    {
        let ghost txs = transactions@;
        let mut accounts: Vec<Did> = Vec::new();
        let mut nets: Vec<i128> = Vec::new();
        let mut debits: Vec<i128> = Vec::new();
        let mut i: usize = 0;
        proof {
            assert(txs.take(0) =~= Seq::<ManaTransaction>::empty());
            assert(ids_of(accounts@) =~= Seq::<Seq<char>>::empty());
        }
        while i < transactions.len()
            invariant
                txs == transactions@,
                i <= txs.len(),
                ids_of(accounts@) == first_seen(txs.take(i as int)),
                nets@.len() == accounts@.len(),
                debits@.len() == accounts@.len(),
                forall|j: int| 0 <= j < accounts@.len() ==> #[trigger] nets@[j] == net_change_of(txs.take(i as int), accounts@[j]@),
                forall|j: int| 0 <= j < accounts@.len() ==> #[trigger] debits@[j] == debits_of(txs.take(i as int), accounts@[j]@),
            decreases txs.len() - i,
        {
            let ghost s0 = txs.take(i as int);
            let ghost s1 = txs.take(i + 1);
            proof {
                assert(s1.drop_last() =~= s0);
                assert(s1.last() == txs[i as int]);
            }
            let tx = &transactions[i];
            let debit: i128 = if tx.amount < 0 {
                -(tx.amount as i128)
            } else {
                0
            };
            match Self::index_of(&accounts, &tx.did) {
                Some(j) => {
                    proof {
                        lemma_flow_bounds(s1, tx.did@);
                        assert(s1.len() <= usize::MAX);
                        assert(s1.len() * 0x8000_0000_0000_0000int <= 0xffff_ffff_ffff_ffffint * 0x8000_0000_0000_0000int)
                            by (nonlinear_arith)
                            requires
                                s1.len() <= 0xffff_ffff_ffff_ffffint,
                        ;
                        assert(ids_of(accounts@)[j as int] == tx.did@);
                        assert(first_seen(s0).contains(tx.did@));
                    }
                    let n = nets[j] + tx.amount as i128;
                    let d = debits[j] + debit;
                    nets.set(j, n);
                    debits.set(j, d);
                    proof {
                        lemma_first_seen_distinct(s0);
                        assert forall|x: int| #![trigger nets@[x]] #![trigger debits@[x]] 0 <= x < accounts@.len() implies nets@[x] == net_change_of(s1, accounts@[x]@)
                            && debits@[x] == debits_of(s1, accounts@[x]@) by {
                            assert(ids_of(accounts@)[x] == accounts@[x]@);
                            if x != j {
                                assert(ids_of(accounts@)[x] != ids_of(accounts@)[j as int]);
                            }
                        }
                    }
                },
                None => {
                    proof {
                        lemma_unseen_account(s0, tx.did@);
                    }
                    let ghost old_len = accounts@.len();
                    accounts.push(tx.did.duplicate());
                    nets.push(tx.amount as i128);
                    debits.push(debit);
                    proof {
                        assert(ids_of(accounts@) =~= first_seen(s0).push(tx.did@));
                        assert forall|x: int| #![trigger nets@[x]] #![trigger debits@[x]] 0 <= x < accounts@.len() implies nets@[x] == net_change_of(s1, accounts@[x]@)
                            && debits@[x] == debits_of(s1, accounts@[x]@) by {
                            assert(ids_of(accounts@)[x] == accounts@[x]@);
                            if x < old_len {
                                assert(first_seen(s0).contains(accounts@[x]@));
                            }
                        }
                    }
                },
            }
            i = i + 1;
        }
        proof {
            assert(txs.take(txs.len() as int) =~= txs);
        }
        (accounts, nets, debits)
    }

    /// A dispute reporting an account found suspicious at `now`.
    fn discrepancy_dispute(
        account: &Did,
        pattern: u8,
        balance: u64,
        net: i128,
        debits: i128,
        amount: u64,
        now: u64,
    ) -> (r: EconomicDispute)
        requires
            1 <= pattern <= 3,
            pattern == 2 ==> 0 < net <= i64::MAX,
            pattern == 3 ==> 0 < -net <= u64::MAX,
            pattern == 1 ==> balance < debits <= u64::MAX,
        ensures
            discrepancy_report(r, account@, pattern as int, amount as int, balance, net as int, debits as int, now),
    {
        let (prefix, description, expected): (&str, String, u64) = if pattern == 1 {
            let d = debits as u64;
            (
                "excessive_debits_",
                text_two_numbers(
                    "Suspicious transaction pattern (excessive debits): total debits (",
                    d,
                    ") exceed reasonable balance limit for account with balance ",
                    balance,
                ),
                balance.saturating_sub(d),
            )
        } else if pattern == 2 {
            (
                "missing_credits_",
                text_with_number(
                    "Account has zero balance but recent transactions show net positive change of ",
                    net as u64,
                ),
                net as u64,
            )
        } else {
            let loss = (-net) as u64;
            (
                "excessive_negative_change_",
                text_two_numbers("Excessive negative transaction flow: ", loss, " debits for account with balance ", balance),
                balance,
            )
        };
        let dispute_id = text_with_number(join2(prefix, account.as_str()).concat("_").as_str(), now);
        let mut parties: Vec<Did> = Vec::new();
        parties.push(account.duplicate());
        let mut evidence: Vec<EconomicEvidence> = Vec::new();
        evidence.push(
            EconomicEvidence::BalanceDiscrepancy {
                account: account.duplicate(),
                expected_balance: expected,
                actual_balance: balance,
                asset_type: String::from_str("mana"),
            },
        );
        proof {
            assert(ids_of(parties@) =~= seq![account@]);
        }
        EconomicDispute {
            dispute_id,
            dispute_type: EconomicDisputeType::ManaDispute,
            parties,
            disputed_amount: Some(amount),
            disputed_asset: String::from_str("mana"),
            filed_at: now,
            resolution_status: EconomicResolutionStatus::Filed,
            evidence,
            description,
            severity: if pattern == 2 {
                DisputeSeverity::Medium
            } else {
                DisputeSeverity::High
            },
            scope: None,
        }
    }

    /// Disputes for accounts whose transactions, at time `now`, look
    /// inconsistent with their balance, one per account in the order the
    /// accounts first occur.
    pub fn detect_balance_discrepancies_at<M: ManaLedger>(
        &self,
        mana_ledger: &M,
        transactions: &[ManaTransaction],
        now: u64,
    ) -> (r: Result<Vec<EconomicDispute>, CommonError>)
        requires
            mana_ledger.well_formed(),
            flows_fit(transactions@),
        ensures
            discrepancies_reported(
                r,
                transactions@,
                mana_ledger.balances(),
                self.spec_config().minimum_dispute_amount,
                now,
            ),
    {
        let ghost txs = transactions@;
        let ghost min = self.config.minimum_dispute_amount;
        let ghost bals = mana_ledger.balances();
        let (accounts, nets, debits) = Self::account_flows(transactions);
        let ghost accts = ids_of(accounts@);
        let mut out: Vec<EconomicDispute> = Vec::new();
        let mut j: usize = 0;
        proof {
            assert(accts.take(0) =~= Seq::<Seq<char>>::empty());
        }
        while j < accounts.len()
            invariant
                mana_ledger.well_formed(),
                flows_fit(txs),
                txs == transactions@,
                min == self.config.minimum_dispute_amount,
                bals == mana_ledger.balances(),
                accts == ids_of(accounts@),
                j <= accounts@.len(),
                nets@.len() == accounts@.len(),
                debits@.len() == accounts@.len(),
                forall|x: int| 0 <= x < accounts@.len() ==> #[trigger] nets@[x] == net_change_of(txs, accounts@[x]@),
                forall|x: int| 0 <= x < accounts@.len() ==> #[trigger] debits@[x] == debits_of(txs, accounts@[x]@),
                out@.len() == discrepancies(accts.take(j as int), txs, bals, min).len(),
                forall|i: int|
                    0 <= i < out@.len() ==> reports_discrepancy(
                        #[trigger] out@[i],
                        discrepancies(accts.take(j as int), txs, bals, min)[i],
                        txs,
                        bals,
                        now,
                    ),
            decreases accounts@.len() - j,
        {
            let ghost k = accounts@[j as int]@;
            proof {
                assert(accts.take(j + 1).drop_last() =~= accts.take(j as int));
                assert(accts.take(j + 1).last() == k);
                assert(i64::MIN <= net_change_of(txs, k) <= i64::MAX && debits_of(txs, k) <= u64::MAX);
            }
            let balance = mana_ledger.get_balance(&accounts[j]);
            let net = nets[j];
            let deb = debits[j];
            let min_amount = self.config.minimum_dispute_amount;
            let pattern: u8 = if deb > (balance as i128) + (min_amount as i128) * 10 && deb > (balance as i128) * 3 {
                1
            } else if balance == 0 && net > 0 {
                2
            } else if net < 0 && -net > (balance as i128) * 2 && balance > 0 {
                3
            } else {
                0
            };
            proof {
                assert(pattern as int == discrepancy_pattern(balance, net_change_of(txs, k), debits_of(txs, k), min));
            }
            if pattern > 0 {
                let amount: u64 = if pattern == 1 {
                    (deb - balance as i128) as u64
                } else if pattern == 2 {
                    net as u64
                } else {
                    (-net) as u64
                };
                let d = Self::discrepancy_dispute(&accounts[j], pattern, balance, net, deb, amount, now);
                let ghost before = out@;
                out.push(d);
                proof {
                    let full = discrepancies(accts.take(j + 1), txs, bals, min);
                    let prev = discrepancies(accts.take(j as int), txs, bals, min);
                    assert(full == prev + seq![(k, pattern as int, amount as int)]);
                    assert forall|i: int| 0 <= i < out@.len() implies reports_discrepancy(#[trigger] out@[i], full[i], txs, bals, now) by {
                        if i < before.len() {
                            assert(out@[i] == before[i]);
                            assert(full[i] == prev[i]);
                        }
                    }
                }
            } else {
                proof {
                    assert(discrepancies(accts.take(j + 1), txs, bals, min) =~= discrepancies(accts.take(j as int), txs, bals, min));
                }
            }
            j = j + 1;
        }
        proof {
            assert(accts.take(accts.len() as int) =~= accts);
        }
        Ok(out)
    }

    /// Disputes for suspicious accounts, detected now by the system clock.
    pub fn detect_balance_discrepancies<M: ManaLedger>(&self, mana_ledger: &M, transactions: &[ManaTransaction]) -> (r: Result<
        Vec<EconomicDispute>,
        CommonError,
    >)
        requires
            mana_ledger.well_formed(),
            flows_fit(transactions@),
        ensures
            exists|now: u64|
                #[trigger] discrepancies_reported(
                    r,
                    transactions@,
                    mana_ledger.balances(),
                    self.spec_config().minimum_dispute_amount,
                    now,
                ),
    {
        let now = unix_seconds();
        self.detect_balance_discrepancies_at(mana_ledger, transactions, now)
    }

    /// Position of the pair (`did`, `t`) in `keys`.
    fn index_of_pair(keys: &Vec<(Did, u64)>, did: &Did, t: u64) -> (r: Option<usize>)
        ensures
            r matches Some(j) ==> j < keys@.len() && keys@[j as int].0@ == did@ && keys@[j as int].1 == t,
            r is None ==> !keys@.map_values(|p: (Did, u64)| (p.0@, p.1)).contains((did@, t)),
    {
        let mut i: usize = 0;
        while i < keys.len()
            invariant
                i <= keys@.len(),
                forall|j: int| 0 <= j < i ==> !(#[trigger] keys@[j].0@ == did@ && keys@[j].1 == t),
            decreases keys@.len() - i,
        {
            if keys[i].0.same_as(did) && keys[i].1 == t {
                return Some(i);
            }
            i = i + 1;
        }
        proof {
            let v = keys@.map_values(|p: (Did, u64)| (p.0@, p.1));
            if v.contains((did@, t)) {
                let j = choose|j: int| 0 <= j < v.len() && v[j] == (did@, t);
                assert(keys@[j].0@ == did@ && keys@[j].1 == t);
            }
        }
        None
    }

    /// The (account, time) groups of the transactions, each once in the order
    /// they first occur, with each group's size and total.
    pub fn group_flows(transactions: &[ManaTransaction]) -> (r: (Vec<(Did, u64)>, Vec<usize>, Vec<i128>))
        ensures
            r.0@.map_values(|p: (Did, u64)| (p.0@, p.1)) == first_seen_at(transactions@),
            r.1@.len() == r.0@.len(),
            r.2@.len() == r.0@.len(),
            forall|j: int| 0 <= j < r.0@.len() ==> #[trigger] r.1@[j] == group_ids(transactions@, r.0@[j].0@, r.0@[j].1).len(),
            forall|j: int| 0 <= j < r.0@.len() ==> #[trigger] r.2@[j] == group_total(transactions@, r.0@[j].0@, r.0@[j].1),
    {
        let ghost txs = transactions@;
        let mut keys: Vec<(Did, u64)> = Vec::new();
        let mut counts: Vec<usize> = Vec::new();
        let mut totals: Vec<i128> = Vec::new();
        let mut i: usize = 0;
        proof {
            assert(txs.take(0) =~= Seq::<ManaTransaction>::empty());
            assert(keys@.map_values(|p: (Did, u64)| (p.0@, p.1)) =~= Seq::<(Seq<char>, u64)>::empty());
        }
        while i < transactions.len()
            invariant
                txs == transactions@,
                i <= txs.len(),
                keys@.map_values(|p: (Did, u64)| (p.0@, p.1)) == first_seen_at(txs.take(i as int)),
                counts@.len() == keys@.len(),
                totals@.len() == keys@.len(),
                forall|j: int| 0 <= j < keys@.len() ==> #[trigger] counts@[j] == group_ids(txs.take(i as int), keys@[j].0@, keys@[j].1).len(),
                forall|j: int| 0 <= j < keys@.len() ==> #[trigger] totals@[j] == group_total(txs.take(i as int), keys@[j].0@, keys@[j].1),
            decreases txs.len() - i,
        {
            let ghost s0 = txs.take(i as int);
            let ghost s1 = txs.take(i + 1);
            let ghost kv = keys@.map_values(|p: (Did, u64)| (p.0@, p.1));
            proof {
                assert(s1.drop_last() =~= s0);
                assert(s1.last() == txs[i as int]);
                lemma_first_seen_at_distinct(s0);
            }
            let tx = &transactions[i];
            match Self::index_of_pair(&keys, &tx.did, tx.timestamp) {
                Some(j) => {
                    proof {
                        lemma_group_bounds(s1, tx.did@, tx.timestamp);
                        assert(s1.len() * 0x8000_0000_0000_0000int <= 0xffff_ffff_ffff_ffffint * 0x8000_0000_0000_0000int)
                            by (nonlinear_arith)
                            requires
                                s1.len() <= 0xffff_ffff_ffff_ffffint,
                        ;
                        assert(kv[j as int] == (tx.did@, tx.timestamp));
                    }
                    let c = counts[j] + 1;
                    let t = totals[j] + tx.amount as i128;
                    counts.set(j, c);
                    totals.set(j, t);
                    proof {
                        assert forall|x: int| #![trigger counts@[x]] #![trigger totals@[x]] 0 <= x < keys@.len() implies counts@[x]
                            == group_ids(s1, keys@[x].0@, keys@[x].1).len() && totals@[x] == group_total(
                            s1,
                            keys@[x].0@,
                            keys@[x].1,
                        ) by {
                            assert(kv[x] == (keys@[x].0@, keys@[x].1));
                            if x != j {
                                assert(kv[x] != kv[j as int]);
                            }
                        }
                    }
                },
                None => {
                    proof {
                        lemma_unseen_group(s0, tx.did@, tx.timestamp);
                    }
                    let ghost old_len = keys@.len();
                    keys.push((tx.did.duplicate(), tx.timestamp));
                    counts.push(1);
                    totals.push(tx.amount as i128);
                    proof {
                        assert(keys@.map_values(|p: (Did, u64)| (p.0@, p.1)) =~= kv.push((tx.did@, tx.timestamp)));
                        assert forall|x: int| #![trigger counts@[x]] #![trigger totals@[x]] 0 <= x < keys@.len() implies counts@[x]
                            == group_ids(s1, keys@[x].0@, keys@[x].1).len() && totals@[x] == group_total(
                            s1,
                            keys@[x].0@,
                            keys@[x].1,
                        ) by {
                            if x < old_len {
                                assert(kv[x] == (keys@[x].0@, keys@[x].1));
                                assert(first_seen_at(s0).contains(kv[x]));
                            }
                        }
                    }
                },
            }
            i = i + 1;
        }
        proof {
            assert(txs.take(txs.len() as int) =~= txs);
        }
        (keys, counts, totals)
    }

    /// The ids of the transactions by `did` at time `t`, in order.
    fn collect_group_ids(transactions: &[ManaTransaction], did: &Did, t: u64) -> (r: Vec<String>)
        ensures
            texts_view(r@) == group_ids(transactions@, did@, t),
    {
        let ghost txs = transactions@;
        let mut out: Vec<String> = Vec::new();
        let mut i: usize = 0;
        proof {
            assert(txs.take(0) =~= Seq::<ManaTransaction>::empty());
        }
        while i < transactions.len()
            invariant
                txs == transactions@,
                i <= txs.len(),
                texts_view(out@) == group_ids(txs.take(i as int), did@, t),
            decreases txs.len() - i,
        {
            proof {
                assert(txs.take(i + 1).drop_last() =~= txs.take(i as int));
                assert(txs.take(i + 1).last() == txs[i as int]);
            }
            if transactions[i].did.same_as(did) && transactions[i].timestamp == t {
                let ghost before = out@;
                out.push(transactions[i].transaction_id.clone());
                proof {
                    assert(texts_view(out@) =~= texts_view(before).push(txs[i as int].transaction_id@));
                }
            }
            i = i + 1;
        }
        proof {
            assert(txs.take(txs.len() as int) =~= txs);
        }
        out
    }

    /// Disputes, at time `now`, for groups of transactions by one account at
    /// one time whose total moves more mana than the account holds, one per
    /// group in the order the groups first occur.
    pub fn detect_double_spending_at<M: ManaLedger>(
        &self,
        mana_ledger: &M,
        transactions: &[ManaTransaction],
        now: u64,
    ) -> (r: Result<Vec<EconomicDispute>, CommonError>)
        requires
            mana_ledger.well_formed(),
            groups_fit(transactions@),
        ensures
            r matches Ok(v) && v@.len() == double_spends(first_seen_at(transactions@), transactions@, mana_ledger.balances()).len()
                && forall|i: int|
                0 <= i < v@.len() ==> reports_double_spend(
                    #[trigger] v@[i],
                    double_spends(first_seen_at(transactions@), transactions@, mana_ledger.balances())[i],
                    transactions@,
                    now,
                ),
    {
        let ghost txs = transactions@;
        let ghost bals = mana_ledger.balances();
        let (keys, counts, totals) = Self::group_flows(transactions);
        let ghost kv = keys@.map_values(|p: (Did, u64)| (p.0@, p.1));
        let mut out: Vec<EconomicDispute> = Vec::new();
        let mut j: usize = 0;
        proof {
            assert(kv.take(0) =~= Seq::<(Seq<char>, u64)>::empty());
        }
        while j < keys.len()
            invariant
                mana_ledger.well_formed(),
                groups_fit(txs),
                txs == transactions@,
                bals == mana_ledger.balances(),
                kv == keys@.map_values(|p: (Did, u64)| (p.0@, p.1)),
                j <= keys@.len(),
                counts@.len() == keys@.len(),
                totals@.len() == keys@.len(),
                forall|x: int| 0 <= x < keys@.len() ==> #[trigger] counts@[x] == group_ids(txs, keys@[x].0@, keys@[x].1).len(),
                forall|x: int| 0 <= x < keys@.len() ==> #[trigger] totals@[x] == group_total(txs, keys@[x].0@, keys@[x].1),
                out@.len() == double_spends(kv.take(j as int), txs, bals).len(),
                forall|i: int|
                    0 <= i < out@.len() ==> reports_double_spend(
                        #[trigger] out@[i],
                        double_spends(kv.take(j as int), txs, bals)[i],
                        txs,
                        now,
                    ),
            decreases keys@.len() - j,
        {
            let ghost k = keys@[j as int].0@;
            let ghost t = keys@[j as int].1;
            proof {
                assert(kv.take(j + 1).drop_last() =~= kv.take(j as int));
                assert(kv.take(j + 1).last() == (k, t));
                assert(i64::MIN <= group_total(txs, k, t) <= i64::MAX);
            }
            let total = totals[j];
            let magnitude: i128 = if total < 0 {
                -total
            } else {
                total
            };
            let balance = mana_ledger.get_balance(&keys[j].0);
            if counts[j] > 1 && magnitude > balance as i128 {
                let ids = Self::collect_group_ids(transactions, &keys[j].0, keys[j].1);
                let dispute_id = text_with_number(
                    text_with_number(join2("double_spend_", keys[j].0.as_str()).concat("_").as_str(), keys[j].1).concat(
                        "_",
                    ).as_str(),
                    now,
                );
                let mut parties: Vec<Did> = Vec::new();
                parties.push(keys[j].0.duplicate());
                let mut evidence: Vec<EconomicEvidence> = Vec::new();
                evidence.push(EconomicEvidence::DoubleSpendingEvidence { conflicting_transactions: ids });
                proof {
                    assert(ids_of(parties@) =~= seq![k]);
                }
                let d = EconomicDispute {
                    dispute_id,
                    dispute_type: EconomicDisputeType::DoubleSpending,
                    parties,
                    disputed_amount: Some(magnitude as u64),
                    disputed_asset: String::from_str("mana"),
                    filed_at: now,
                    resolution_status: EconomicResolutionStatus::Filed,
                    evidence,
                    description: String::from_str("Potential double spending detected"),
                    severity: DisputeSeverity::High,
                    scope: None,
                };
                let ghost before = out@;
                out.push(d);
                proof {
                    let full = double_spends(kv.take(j + 1), txs, bals);
                    let prev = double_spends(kv.take(j as int), txs, bals);
                    assert(full == prev + seq![((k, t), magnitude as int)]);
                    assert forall|i: int| 0 <= i < out@.len() implies reports_double_spend(#[trigger] out@[i], full[i], txs, now) by {
                        if i < before.len() {
                            assert(out@[i] == before[i]);
                            assert(full[i] == prev[i]);
                        }
                    }
                }
            } else {
                proof {
                    assert(double_spends(kv.take(j + 1), txs, bals) =~= double_spends(kv.take(j as int), txs, bals));
                }
            }
            j = j + 1;
        }
        proof {
            assert(kv.take(kv.len() as int) =~= kv);
        }
        Ok(out)
    }

    /// Disputes for groups of transactions that spend more than the account
    /// holds, detected now by the system clock.
    pub fn detect_double_spending<M: ManaLedger>(&self, mana_ledger: &M, transactions: &[ManaTransaction]) -> (r: Result<
        Vec<EconomicDispute>,
        CommonError,
    >)
        requires
            mana_ledger.well_formed(),
            groups_fit(transactions@),
        ensures
            r matches Ok(v) && exists|now: u64| #[trigger] double_spends_reported(v@, transactions@, mana_ledger.balances(), now),
    {
        let now = unix_seconds();
        let r = self.detect_double_spending_at(mana_ledger, transactions, now);
        proof {
            if let Ok(ref v) = r {
                assert(double_spends_reported(v@, transactions@, mana_ledger.balances(), now));
            }
        }
        r
    }

    /// Detection at time `now`: when automatic detection is on, the double
    /// spends, then the balance discrepancies, then the given price
    /// manipulation findings, each made active under its id.
    pub fn detect_disputes_at<M: ManaLedger, R: ResourceLedger>(
        &mut self,
        mana_ledger: &M,
        resource_ledger: &R,
        recent_transactions: &[ManaTransaction],
        price_disputes: Vec<EconomicDispute>,
        now: u64,
    ) -> (r: Result<Vec<EconomicDispute>, CommonError>)
        requires
            old(self).inv(),
            mana_ledger.well_formed(),
            groups_fit(recent_transactions@),
            flows_fit(recent_transactions@),
        ensures
            final(self).inv(),
            final(self).history() == old(self).history(),
            final(self).spec_config() == old(self).spec_config(),
            forall|k: Seq<char>| #[trigger] final(self).may_resolve(k) == old(self).may_resolve(k),
            !old(self).spec_config().auto_detection ==> (r matches Ok(v) && v@.len() == 0 && final(self).active()
                == old(self).active() && final(self).active_list() == old(self).active_list()),
            old(self).spec_config().auto_detection ==> detection_outcome(
                r,
                recent_transactions@,
                mana_ledger.balances(),
                old(self).spec_config().minimum_dispute_amount,
                price_disputes@,
                now,
                old(self).active(),
                final(self).active(),
            ),
    {
        if !self.config.auto_detection {
            return Ok(Vec::new());
        }
        let mut out = match self.detect_double_spending_at(mana_ledger, recent_transactions, now) {
            Ok(v) => v,
            Err(e) => return Err(e),
        };
        let mut found = match self.detect_balance_discrepancies_at(mana_ledger, recent_transactions, now) {
            Ok(v) => v,
            Err(e) => return Err(e),
        };
        let ghost ds = out@;
        let ghost bd = found@;
        let mut prices = price_disputes;
        out.append(&mut found);
        out.append(&mut prices);
        let ghost start = self.active();
        let ghost mut copies: Seq<EconomicDispute> = Seq::empty();
        let mut i: usize = 0;
        while i < out.len()
            invariant
                self.inv(),
                self.history() == old(self).history(),
                self.spec_config() == old(self).spec_config(),
                forall|k: Seq<char>| #[trigger] self.may_resolve(k) == old(self).may_resolve(k),
                i <= out@.len(),
                copies.len() == i,
                forall|j: int| 0 <= j < i ==> dispute_same(out@[j], #[trigger] copies[j]),
                self.active() == insert_all(start, copies),
            decreases out@.len() - i,
        {
            let c = out[i].duplicate();
            let ghost cg = c;
            self.put_active(c);
            proof {
                assert(copies.push(cg).drop_last() =~= copies);
                copies = copies.push(cg);
            }
            i = i + 1;
        }
        proof {
            assert(out@ =~= ds + bd + price_disputes@);
        }
        Ok(out)
    }

    /// Carry out `resolution` on the mana ledger: adjust the balances or
    /// credit the mana compensations, in order, stopping at the first
    /// operation that the ledger refuses; other resolutions move no mana.
    pub fn apply_resolution<M: ManaLedger, R: ResourceLedger>(
        &self,
        resolution: &EconomicResolution,
        mana_ledger: &mut M,
        resource_ledger: &R,
    ) -> (r: Result<(), CommonError>)
        requires
            old(mana_ledger).well_formed(),
            !(resolution is ReverseTransactions),
            resolution matches EconomicResolution::AdjustBalances { adjustments } ==> forall|i: int|
                0 <= i < adjustments@.len() ==> #[trigger] adjustments@[i].adjustment_amount != i64::MIN,
        ensures
            final(mana_ledger).well_formed(),
            applied_outcome(
                r,
                old(mana_ledger).balances(),
                final(mana_ledger).balances(),
                resolution_steps(resolution.view()),
            ),
    {
        let ghost before = mana_ledger.balances();
        let ghost steps = resolution_steps(resolution.view());
        proof {
            assert(steps.take(0) =~= Seq::<(Seq<char>, int)>::empty());
        }
        match resolution {
            EconomicResolution::AdjustBalances { adjustments } => {
                let mut i: usize = 0;
                while i < adjustments.len()
                    invariant
                        mana_ledger.well_formed(),
                        before == old(mana_ledger).balances(),
                        steps == resolution_steps(resolution.view()),
                        resolution matches EconomicResolution::AdjustBalances { adjustments: a } && a == adjustments,
                        forall|x: int| 0 <= x < adjustments@.len() ==> #[trigger] adjustments@[x].adjustment_amount != i64::MIN,
                        steps.len() == adjustments@.len(),
                        i <= adjustments@.len(),
                        steps_applied(before, mana_ledger.balances(), steps.take(i as int)),
                    decreases adjustments@.len() - i,
                {
                    let a = &adjustments[i];
                    proof {
                        assert(steps[i as int] == (a.account@, a.adjustment_amount as int));
                    }
                    match apply_step(
                        mana_ledger,
                        &a.account,
                        a.adjustment_amount as i128,
                        Ghost(before),
                        Ghost(steps),
                        Ghost(i as int),
                    ) {
                        Ok(_) => {},
                        Err(e) => {
                            proof {
                                assert(steps_applied(before, mana_ledger.balances(), steps.take(i as int)));
                                assert(exists|n: int|
                                    0 <= n < steps.len() && #[trigger] steps_applied(
                                        before,
                                        mana_ledger.balances(),
                                        steps.take(n),
                                    ));
                            }
                            return Err(e);
                        },
                    }
                    i = i + 1;
                }
                proof {
                    assert(steps.take(steps.len() as int) =~= steps);
                }
                Ok(())
            },
            EconomicResolution::Compensation { compensations } => {
                let mut i: usize = 0;
                while i < compensations.len()
                    invariant
                        mana_ledger.well_formed(),
                        before == old(mana_ledger).balances(),
                        steps == resolution_steps(resolution.view()),
                        resolution matches EconomicResolution::Compensation { compensations: c } && c == compensations,
                        steps.len() == compensations@.len(),
                        i <= compensations@.len(),
                        steps_applied(before, mana_ledger.balances(), steps.take(i as int)),
                    decreases compensations@.len() - i,
                {
                    let c = &compensations[i];
                    let delta: i128 = match c.compensation_type {
                        CompensationType::ManaCredit => c.amount as i128,
                        _ => 0,
                    };
                    proof {
                        assert(steps[i as int] == (c.recipient@, delta as int));
                    }
                    match apply_step(mana_ledger, &c.recipient, delta, Ghost(before), Ghost(steps), Ghost(i as int)) {
                        Ok(_) => {},
                        Err(e) => {
                            proof {
                                assert(steps_applied(before, mana_ledger.balances(), steps.take(i as int)));
                                assert(exists|n: int|
                                    0 <= n < steps.len() && #[trigger] steps_applied(
                                        before,
                                        mana_ledger.balances(),
                                        steps.take(n),
                                    ));
                            }
                            return Err(e);
                        },
                    }
                    i = i + 1;
                }
                proof {
                    assert(steps.take(steps.len() as int) =~= steps);
                }
                Ok(())
            },
            _ => Ok(()),
        }
    }

    /// The configuration.
    pub fn config(&self) -> (r: &EconomicDisputeConfig)
        ensures
            *r == self.spec_config(),
    {
        &self.config
    }

    /// All active disputes, in the order they were filed.
    pub fn get_active_disputes(&self) -> (r: &Vec<EconomicDispute>)
        ensures
            r@ == self.active_list(),
    {
        &self.active_disputes
    }

    /// The resolved disputes, oldest first.
    pub fn get_resolution_history(&self) -> (r: &Vec<EconomicDispute>)
        ensures
            r@ == self.history(),
    {
        &self.resolution_history
    }
}

} // verus!
