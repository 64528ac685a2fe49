//! Emergency protocols: a global freeze stops every economic operation, an
//! account freeze stops those of the named accounts, and each protocol can
//! be lifted again by kind.

use vstd::prelude::*;
use vstd::string::*;
use crate::did::Did;
use crate::error::CommonError;
use crate::text::join2;

verus! {

/// Emergency response protocols.
#[derive(Debug)]
pub enum EmergencyProtocol {
    /// Freeze all economic operations.
    GlobalFreeze,
    /// Freeze specific accounts.
    AccountFreeze { accounts: Vec<Did> },
    /// Rollback to a previous state.
    Rollback { to_timestamp: u64 },
    /// Rate limit all operations.
    RateLimit { max_operations_per_hour: u64 },
    /// Enhanced validation mode.
    EnhancedValidation,
}

/// The kind of a protocol: 0 global freeze, 1 account freeze, 2 rollback,
/// 3 rate limit, 4 enhanced validation.
pub open spec fn protocol_kind(p: EmergencyProtocol) -> int {
    match p {
        EmergencyProtocol::GlobalFreeze => 0,
        EmergencyProtocol::AccountFreeze { .. } => 1,
        EmergencyProtocol::Rollback { .. } => 2,
        EmergencyProtocol::RateLimit { .. } => 3,
        EmergencyProtocol::EnhancedValidation => 4,
    }
}

/// The kind that a name given to [`EmergencyCoordinator::deactivate_protocol`]
/// stands for, if it names one that can be lifted.
pub open spec fn named_kind(name: Seq<char>) -> Option<int> {
    if name == "global_freeze"@ {
        Some(0)
    } else if name == "account_freeze"@ {
        Some(1)
    } else if name == "rate_limit"@ {
        Some(3)
    } else {
        None
    }
}

/// The protocols of `s` that are not of kind `k`, in order.
pub open spec fn without_kind(s: Seq<EmergencyProtocol>, k: int) -> Seq<EmergencyProtocol>
    decreases s.len(),
{
    if s.len() == 0 {
        Seq::empty()
    } else if protocol_kind(s.last()) == k {
        without_kind(s.drop_last(), k)
    } else {
        without_kind(s.drop_last(), k).push(s.last())
    }
}

/// The identifiers of a list of accounts.
pub open spec fn account_ids(s: Seq<Did>) -> Set<Seq<char>> {
    Set::new(|k: Seq<char>| exists|i: int| 0 <= i < s.len() && (#[trigger] s[i])@ == k)
}

/// Coordinates the emergency protocols in force.
///
/// Rate limits apply to the accounts the coordinator knows of, and it knows
/// of none: a rate limit is recorded among the protocols but limits no
/// account.
#[derive(Debug)]
pub struct EmergencyCoordinator {
    active_protocols: Vec<EmergencyProtocol>,
    frozen_accounts: Vec<Did>,
    global_freeze: bool,
}

impl EmergencyCoordinator {
    /// The protocols in force, in the order they were activated.
    pub closed spec fn protocols(&self) -> Seq<EmergencyProtocol> {
        self.active_protocols@
    }

    /// The frozen accounts.
    pub closed spec fn frozen(&self) -> Set<Seq<char>> {
        account_ids(self.frozen_accounts@)
    }

    /// Whether every operation is frozen.
    pub closed spec fn globally_frozen(&self) -> bool {
        self.global_freeze
    }

    /// A coordinator with no protocol in force.
    pub fn new() -> (r: EmergencyCoordinator)
        ensures
            r.protocols().len() == 0,
            r.frozen() == Set::<Seq<char>>::empty(),
            !r.globally_frozen(),
    {
        let r = EmergencyCoordinator { active_protocols: Vec::new(), frozen_accounts: Vec::new(), global_freeze: false };
        proof {
            assert(r.frozen() =~= Set::<Seq<char>>::empty());
        }
        r
    }

    /// Put `protocol` in force: a global freeze freezes everything, an
    /// account freeze freezes its accounts; every protocol is recorded.
    pub fn activate_protocol(&mut self, protocol: EmergencyProtocol) -> (r: Result<(), CommonError>)
        ensures
            r is Ok,
            final(self).protocols() == old(self).protocols().push(protocol),
            final(self).globally_frozen() == (old(self).globally_frozen() || protocol is GlobalFreeze),
            final(self).frozen() == match protocol {
                EmergencyProtocol::AccountFreeze { accounts } => old(self).frozen().union(account_ids(accounts@)),
                _ => old(self).frozen(),
            },
    {
        let ghost before = self.frozen_accounts@;
        match &protocol {
            EmergencyProtocol::GlobalFreeze => {
                self.global_freeze = true;
            },
            EmergencyProtocol::AccountFreeze { accounts } => {
                let mut i: usize = 0;
                while i < accounts.len()
                    invariant
                        i <= accounts@.len(),
                        self.active_protocols@ == old(self).active_protocols@,
                        self.global_freeze == old(self).global_freeze,
                        account_ids(self.frozen_accounts@) == account_ids(before).union(account_ids(accounts@.take(i as int))),
                    decreases accounts@.len() - i,
                {
                    let ghost prev = self.frozen_accounts@;
                    self.frozen_accounts.push(accounts[i].duplicate());
                    proof {
                        assert(account_ids(self.frozen_accounts@) =~= account_ids(prev).insert(accounts@[i as int]@)) by {
                            assert forall|k: Seq<char>| account_ids(self.frozen_accounts@).contains(k) implies account_ids(
                                prev,
                            ).insert(accounts@[i as int]@).contains(k) by {
                                let j = choose|j: int| 0 <= j < self.frozen_accounts@.len() && (#[trigger] self.frozen_accounts@[j])@ == k;
                                if j < prev.len() {
                                    assert(prev[j] == self.frozen_accounts@[j]);
                                }
                            }
                            assert forall|k: Seq<char>| account_ids(prev).insert(accounts@[i as int]@).contains(k) implies account_ids(
                                self.frozen_accounts@,
                            ).contains(k) by {
                                if k == accounts@[i as int]@ {
                                    assert(self.frozen_accounts@[prev.len() as int]@ == k);
                                } else {
                                    let j = choose|j: int| 0 <= j < prev.len() && (#[trigger] prev[j])@ == k;
                                    assert(self.frozen_accounts@[j] == prev[j]);
                                }
                            }
                        }
                        assert(account_ids(accounts@.take(i + 1)) =~= account_ids(accounts@.take(i as int)).insert(
                            accounts@[i as int]@,
                        )) by {
                            assert forall|k: Seq<char>| account_ids(accounts@.take(i + 1)).contains(k) implies account_ids(
                                accounts@.take(i as int),
                            ).insert(accounts@[i as int]@).contains(k) by {
                                let j = choose|j: int| 0 <= j < accounts@.take(i + 1).len() && (#[trigger] accounts@.take(i + 1)[j])@ == k;
                                if j < i {
                                    assert(accounts@.take(i as int)[j] == accounts@.take(i + 1)[j]);
                                }
                            }
                            assert forall|k: Seq<char>| account_ids(accounts@.take(i as int)).insert(accounts@[i as int]@).contains(k) implies account_ids(
                                accounts@.take(i + 1),
                            ).contains(k) by {
                                if k == accounts@[i as int]@ {
                                    assert(accounts@.take(i + 1)[i as int]@ == k);
                                } else {
                                    let j = choose|j: int| 0 <= j < accounts@.take(i as int).len() && (#[trigger] accounts@.take(i as int)[j])@ == k;
                                    assert(accounts@.take(i + 1)[j] == accounts@.take(i as int)[j]);
                                }
                            }
                        }
                    }
                    i = i + 1;
                }
                proof {
                    assert(accounts@.take(accounts@.len() as int) =~= accounts@);
                }
            },
            _ => {},
        }
        proof {
            if !(protocol is AccountFreeze) {
                assert(account_ids(self.frozen_accounts@) =~= account_ids(before));
            }
        }
        self.active_protocols.push(protocol);
        Ok(())
    }

    /// Whether `account` may operate: not while everything is frozen, nor
    /// while the account is.
    pub fn is_operation_allowed(&mut self, account: &Did) -> (r: bool)
        ensures
            r == (!old(self).globally_frozen() && !old(self).frozen().contains(account@)),
            *final(self) == *old(self),
    {
        if self.global_freeze {
            return false;
        }
        let mut i: usize = 0;
        while i < self.frozen_accounts.len()
            invariant
                i <= self.frozen_accounts@.len(),
                forall|j: int| 0 <= j < i ==> (#[trigger] self.frozen_accounts@[j])@ != account@,
            decreases self.frozen_accounts@.len() - i,
        {
            if self.frozen_accounts[i].same_as(account) {
                proof {
                    assert(self.frozen().contains(account@));
                }
                return false;
            }
            i = i + 1;
        }
        true
    }

    /// Lift the protocols of the kind named by `protocol_type` (one of
    /// `global_freeze`, `account_freeze`, `rate_limit`): its effect ends and
    /// its protocols are no longer in force. Another name is refused with
    /// `InvalidInputError`.
    pub fn deactivate_protocol(&mut self, protocol_type: &str) -> (r: Result<(), CommonError>)
        ensures
            named_kind(protocol_type@) is None ==> (r matches Err(CommonError::InvalidInputError(_))) && *final(self)
                == *old(self),
            named_kind(protocol_type@) matches Some(k) ==> {
                &&& r is Ok
                &&& final(self).protocols() == without_kind(old(self).protocols(), k)
                &&& final(self).globally_frozen() == (old(self).globally_frozen() && k != 0)
                &&& final(self).frozen() == if k == 1 {
                    Set::<Seq<char>>::empty()
                } else {
                    old(self).frozen()
                }
            },
    {
        let name = protocol_type.to_owned();
        let kind: u8 = if name == String::from_str("global_freeze") {
            0
        } else if name == String::from_str("account_freeze") {
            1
        } else if name == String::from_str("rate_limit") {
            3
        } else {
            return Err(CommonError::InvalidInputError(join2("Unknown protocol type: ", protocol_type)));
        };
        proof {
            reveal_strlit("global_freeze");
            reveal_strlit("account_freeze");
            reveal_strlit("rate_limit");
            assert(named_kind(protocol_type@) == Some(kind as int));
        }
        if kind == 0 {
            self.global_freeze = false;
        } else if kind == 1 {
            self.frozen_accounts = Vec::new();
            proof {
                assert(self.frozen() =~= Set::<Seq<char>>::empty());
            }
        }
        let ghost before = self.active_protocols@;
        let ghost frozen_now = self.frozen_accounts@;
        let ghost global_now = self.global_freeze;
        let mut kept: Vec<EmergencyProtocol> = Vec::new();
        let n = self.active_protocols.len();
        let mut i: usize = 0;
        proof {
            assert(before.take(0) =~= Seq::<EmergencyProtocol>::empty());
            assert(before.subrange(0, n as int) =~= before);
        }
        while self.active_protocols.len() > 0
            invariant
                self.active_protocols@.len() + i == n,
                n == before.len(),
                self.active_protocols@ == before.subrange(i as int, n as int),
                kept@ == without_kind(before.take(i as int), kind as int),
                self.frozen_accounts@ == frozen_now,
                self.global_freeze == global_now,
            decreases self.active_protocols@.len(),
        {
            let p = self.active_protocols.remove(0);
            proof {
                assert(before.take(i + 1).drop_last() =~= before.take(i as int));
                assert(before.take(i + 1).last() == p);
            }
            let pk: u8 = match &p {
                EmergencyProtocol::GlobalFreeze => 0,
                EmergencyProtocol::AccountFreeze { .. } => 1,
                EmergencyProtocol::Rollback { .. } => 2,
                EmergencyProtocol::RateLimit { .. } => 3,
                EmergencyProtocol::EnhancedValidation => 4,
            };
            if pk != kind {
                kept.push(p);
            }
            proof {
                assert(self.active_protocols@ =~= before.subrange(i + 1, n as int));
            }
            i = i + 1;
        }
        proof {
            assert(before.take(n as int) =~= before);
        }
        self.active_protocols = kept;
        Ok(())
    }
}

/// Lifting a kind of protocol leaves none of that kind in force, and keeps
/// every other protocol, in order.
pub proof fn law_lifted_kind_is_gone(s: Seq<EmergencyProtocol>, k: int)
    ensures
        forall|i: int| 0 <= i < without_kind(s, k).len() ==> protocol_kind(#[trigger] without_kind(s, k)[i]) != k,
        without_kind(s, k).len() <= s.len(),
        (forall|i: int| 0 <= i < s.len() ==> protocol_kind(#[trigger] s[i]) != k) ==> without_kind(s, k) == s,
    decreases s.len(),
{
    if s.len() > 0 {
        law_lifted_kind_is_gone(s.drop_last(), k);
        let prev = without_kind(s.drop_last(), k);
        assert forall|i: int| 0 <= i < without_kind(s, k).len() implies protocol_kind(#[trigger] without_kind(s, k)[i]) != k by {
            if i < prev.len() {
                assert(without_kind(s, k)[i] == prev[i]);
            }
        }
        if forall|i: int| 0 <= i < s.len() ==> protocol_kind(#[trigger] s[i]) != k {
            assert forall|i: int| 0 <= i < s.drop_last().len() implies protocol_kind(#[trigger] s.drop_last()[i]) != k by {
                assert(s.drop_last()[i] == s[i]);
            }
            assert(protocol_kind(s[s.len() - 1]) != k);
            assert(s.drop_last().push(s.last()) =~= s);
        }
    }
}

} // verus!
