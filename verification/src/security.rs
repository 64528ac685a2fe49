//! The vocabulary in which threats to the economy are classified and
//! answered: how identities connect and cluster, how far they are verified,
//! how attacks escalate and how severe they are, and the actions and
//! coordination that a response takes.

use vstd::prelude::*;

verus! {

/// How two identities are connected.
#[derive(Debug, Clone, Copy, PartialEq, Eq, Structural)]
pub enum ConnectionType {
    DirectInteraction,
    MutualConnection,
    TransactionHistory,
    ReputationEndorsement,
}

/// What a cluster of identities looks like.
#[derive(Debug, Clone, Copy, PartialEq, Eq, Structural)]
pub enum ClusterType {
    NaturalCommunity,
    SuspiciousSybil,
    CoordinatedBehavior,
    Unknown,
}

/// How far an identity is verified.
#[derive(Debug, Clone, Copy, PartialEq, Eq, Structural)]
pub enum VerificationLevel {
    Unverified,
    BasicVerification,
    ExtendedVerification,
    CommunityVerification,
    InstitutionalVerification,
}

/// Countermeasures against Sybil attacks.
#[derive(Debug, Clone, Copy, PartialEq, Eq, Structural)]
pub enum SybilCountermeasure {
    IncreaseVerificationRequirements,
    FreezeNewAccountCreation { duration_hours: u64 },
    RequireIdentityProofs,
    ImplementWaitingPeriods,
    EnableManualReview,
}

/// A way in which the system can be attacked.
#[derive(Debug)]
pub struct AttackVector {
    pub vector_type: String,
    pub exploitation_method: String,
    pub target_vulnerabilities: Vec<String>,
}

/// How an attack escalates over time.
#[derive(Debug, Clone, Copy, PartialEq, Eq, Structural)]
pub enum EscalationPattern {
    Gradual,
    Sudden,
    Periodic,
    Coordinated,
}

/// How sophisticated an attacker is.
#[derive(Debug, Clone, Copy, PartialEq, Eq, Structural)]
pub enum AttackSophistication {
    Basic,
    Intermediate,
    Advanced,
    StateLevel,
}

/// How strongly the system responds.
#[derive(Debug, Clone, Copy, PartialEq, Eq, Structural)]
pub enum ResponseLevel {
    Low,
    Medium,
    High,
    Critical,
    Emergency,
}

/// How severe an attack is.
#[derive(Debug, Clone, Copy, PartialEq, Eq, Structural)]
pub enum AttackSeverity {
    Low,
    Medium,
    High,
    Critical,
}

/// An action taken at once.
#[derive(Debug)]
pub struct ImmediateAction {
    pub action: String,
    pub execution_time_seconds: u64,
    pub responsible_system: String,
}

/// An action taken within hours.
#[derive(Debug)]
pub struct ShortTermAction {
    pub action: String,
    pub execution_time_hours: u64,
    pub dependencies: Vec<String>,
}

/// An action taken within days.
#[derive(Debug)]
pub struct LongTermAction {
    pub action: String,
    pub execution_time_days: u64,
    pub governance_approval_required: bool,
}

/// The actions of a response, by how soon they are taken.
#[derive(Debug)]
pub struct ResponseTimeline {
    pub immediate_actions: Vec<ImmediateAction>,
    pub short_term_actions: Vec<ShortTermAction>,
    pub long_term_actions: Vec<LongTermAction>,
}

/// Someone to notify about a response.
#[derive(Debug)]
pub struct NotificationTarget {
    pub target_type: String,
    pub target_id: String,
    pub notification_method: String,
}

/// What a response needs beyond the system itself.
#[derive(Debug)]
pub struct CoordinationRequirements {
    pub requires_human_approval: bool,
    pub requires_governance_vote: bool,
    pub requires_external_coordination: bool,
    pub notification_targets: Vec<NotificationTarget>,
}

/// The threat level of the network.
#[derive(Debug, Clone, Copy, PartialEq, Eq, Structural)]
pub enum ThreatLevel {
    /// Normal operations.
    Green,
    /// Elevated monitoring.
    Yellow,
    /// High alert.
    Orange,
    /// Critical threat.
    Red,
    /// Maximum threat level.
    Black,
}

/// How urgent a mana spend is.
#[derive(Debug, Clone, Copy, PartialEq, Eq, Structural)]
pub enum SpendingUrgency {
    Low,
    Normal,
    High,
    Emergency,
}

} // verus!
