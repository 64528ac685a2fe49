//! The integer steps of Byzantine-resistant mana regeneration: how many
//! validator signatures a regeneration needs, the state of an account, and
//! the capped credit that a confirmed regeneration applies.
//!
//! The amount regenerated comes from capacity metrics and gaming scores in
//! floating point, which are computed elsewhere; here it is an input.

use vstd::prelude::*;
use crate::did::Did;
use crate::error::CommonError;

verus! {

/// The state of an account for adversarial protection. A penalty factor is
/// kept in thousandths.
#[derive(Debug, Clone, PartialEq, Eq)]
pub enum ManaAccountStatus {
    Active,
    UnderReview,
    Frozen { reason: String, until: u64 },
    Penalized { penalty_permille: u32, until: u64 },
}

/// The integer state of a mana account: its balance, its capacity, when it
/// last regenerated, and its status.
#[derive(Debug)]
pub struct ManaAccountState {
    pub did: Did,
    pub current_balance: u64,
    pub max_capacity: u64,
    pub last_regeneration: u64,
    pub status: ManaAccountStatus,
}

/// Capacity of an account that regenerates for the first time.
pub const DEFAULT_CAPACITY: u64 = 10000;

/// Signatures a regeneration needs among `validators` validators: more than
/// two thirds, that is two thirds rounded down, plus one.
pub open spec fn consensus_needed(validators: nat) -> nat {
    validators * 2 / 3 + 1
}

/// The signatures a regeneration needs among `validators` validators.
pub fn consensus_threshold(validators: usize) -> (r: usize)
    requires
        validators <= usize::MAX / 2,
    ensures
        r == consensus_needed(validators as nat),
{
    validators * 2 / 3 + 1
}

/// The balance after regenerating `amount` into `balance`, capped at
/// `capacity`.
pub open spec fn regenerated_balance(balance: u64, amount: u64, capacity: u64) -> u64 {
    if balance + amount <= capacity {
        (balance + amount) as u64
    } else {
        capacity
    }
}

impl ManaAccountState {
    /// The account that `did` gets when it first regenerates at `now`: empty,
    /// active, with the default capacity.
    pub fn fresh(did: Did, now: u64) -> (r: ManaAccountState)
        ensures
            r.did == did,
            r.current_balance == 0,
            r.max_capacity == DEFAULT_CAPACITY,
            r.last_regeneration == now,
            r.status == ManaAccountStatus::Active,
    {
        ManaAccountState {
            did,
            current_balance: 0,
            max_capacity: DEFAULT_CAPACITY,
            last_regeneration: now,
            status: ManaAccountStatus::Active,
        }
    }
}

/// Apply a regeneration of `amount` to `account` at time `now`, confirmed by
/// `signatures` validator signatures of the `threshold` needed. Too few
/// signatures is `InsufficientConsensus` and an account that is not active
/// is `AccountNotActive`, in that order, and then the account is unchanged.
/// Otherwise the balance rises by `amount` up to the capacity, the account
/// is stamped with `now`, and `amount` is returned.
pub fn apply_regeneration(
    account: &mut ManaAccountState,
    signatures: usize,
    threshold: usize,
    amount: u64,
    now: u64,
) -> (r: Result<u64, CommonError>)
    ensures
        signatures < threshold ==> r matches Err(CommonError::InsufficientConsensus),
        signatures >= threshold && old(account).status != ManaAccountStatus::Active ==> r matches Err(
            CommonError::AccountNotActive,
        ),
        r is Err ==> *final(account) == *old(account),
        r is Ok <==> signatures >= threshold && old(account).status == ManaAccountStatus::Active,
        r matches Ok(a) ==> {
            &&& a == amount
            &&& final(account).current_balance == regenerated_balance(
                old(account).current_balance,
                amount,
                old(account).max_capacity,
            )
            &&& final(account).last_regeneration == now
            &&& final(account).did == old(account).did
            &&& final(account).max_capacity == old(account).max_capacity
            &&& final(account).status == old(account).status
        },
{
    if signatures < threshold {
        return Err(CommonError::InsufficientConsensus);
    }
    let active = match account.status {
        ManaAccountStatus::Active => true,
        _ => false,
    };
    if !active {
        return Err(CommonError::AccountNotActive);
    }
    let fits = account.current_balance <= account.max_capacity && amount <= account.max_capacity
        - account.current_balance;
    account.current_balance = if fits {
        account.current_balance + amount
    } else {
        account.max_capacity
    };
    account.last_regeneration = now;
    Ok(amount)
}

} // verus!
