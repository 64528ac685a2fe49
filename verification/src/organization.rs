//! The kinds of organization a member belongs to, and the weight that each
//! gives to mana regeneration.

use vstd::prelude::*;

verus! {

/// Kinds of organization a member belongs to.
#[derive(Debug, Clone, Copy, PartialEq, Eq, Structural)]
pub enum OrganizationType {
    /// Worker cooperatives: the baseline of economic production.
    Cooperative,
    /// Civic infrastructure.
    Community,
    /// A coordination premium for bridges between organizations.
    Federation,
    /// The global baseline, with an advantage for bootstrapping.
    DefaultIcnFederation,
    /// Limited until the member joins an organization.
    Unaffiliated,
}

/// The weight, in hundredths, that an organization gives to mana
/// regeneration.
pub open spec fn organization_weight(t: OrganizationType) -> u64 {
    match t {
        OrganizationType::Cooperative => 100,
        OrganizationType::Community => 95,
        OrganizationType::Federation => 125,
        OrganizationType::DefaultIcnFederation => 110,
        OrganizationType::Unaffiliated => 70,
    }
}

impl OrganizationType {
    /// The organizational weight for mana regeneration, in hundredths.
    pub fn weight_percent(&self) -> (r: u64)
        ensures
            r == organization_weight(*self),
    {
        match self {
            OrganizationType::Cooperative => 100,
            OrganizationType::Community => 95,
            OrganizationType::Federation => 125,
            OrganizationType::DefaultIcnFederation => 110,
            OrganizationType::Unaffiliated => 70,
        }
    }
}

/// Federations weigh most and members without an organization least: every
/// weight lies between the two.
pub proof fn law_weights_ordered(t: OrganizationType)
    ensures
        organization_weight(OrganizationType::Unaffiliated) <= organization_weight(t) <= organization_weight(
            OrganizationType::Federation,
        ),
{
}

} // verus!
