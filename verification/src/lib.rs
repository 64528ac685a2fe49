//! Economic protocols of a cooperative network: mana accounting, resource
//! tokens, marketplace settlement and the policies that guard them, stated and
//! proved with Verus.

pub mod error;
pub mod did;
pub mod assoc;
pub mod mana_ledger;
pub mod text;
pub mod clock;
pub mod events;
pub mod reputation;
pub mod policy;
pub mod resource_ledger;
pub mod repository;
pub mod sorting;
pub mod marketplace;
pub mod validation;
pub mod operations;
pub mod crdt;
pub mod computational;
pub mod automation;
pub mod disputes;
pub mod budget;
pub mod dividends;
pub mod mutual_aid;
pub mod balance_codec;
pub mod bounty;
pub mod emergency;
pub mod resilience;
pub mod bonuses;
pub mod security;
pub mod organization;
pub mod byzantine_mana;
