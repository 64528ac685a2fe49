//! Resilience of economic operations against adversaries: a quorum of known
//! validators must confirm an operation, the velocity of each account's
//! operations is watched, repeated operation identifiers are caught, and an
//! operation reaches the mana ledger only after all of these let it through.

use vstd::prelude::*;
use vstd::string::*;
use crate::did::Did;
use crate::error::CommonError;
use crate::assoc::{keys_distinct, assoc_map, lemma_assoc_update, lemma_assoc_push, lemma_assoc_index, lemma_assoc_absent};
use crate::assoc::lookup_or;
use crate::clock::unix_seconds;
use crate::emergency::{EmergencyCoordinator, EmergencyProtocol, account_ids};
use crate::mana_ledger::{ManaLedger, did_views, balance_in, balance_updated, sat_add};
use crate::text::{decimal, join2, text_with_number, u64_to_decimal, u128_to_decimal};

verus! {

/// Share of the validators, in hundredths, that must confirm an operation
/// (the set is assumed to hold less than a third of malicious members).
pub const BYZANTINE_THRESHOLD_PERCENT: u64 = 67;

/// Bytes that a signature must have to count as valid.
pub const MIN_SIGNATURE_BYTES: usize = 64;

/// The number of confirmations that a set of `n` validators asks for:
/// 67 hundredths of `n`, rounded up, and never less than one.
pub open spec fn confirmations_needed(n: nat) -> nat {
    let c = (n * 67 + 99) / 100;
    if c < 1 {
        1
    } else {
        c
    }
}

/// The views of the validators among `ids` that are in `known`, counted for
/// each signature with enough bytes.
pub open spec fn valid_count(sigs: Seq<(Did, Vec<u8>)>, known: Seq<Seq<char>>) -> nat
    decreases sigs.len(),
{
    if sigs.len() == 0 {
        0
    } else {
        let last = sigs.last();
        valid_count(sigs.drop_last(), known) + if known.contains(last.0@) && last.1@.len() >= 64 {
            1nat
        } else {
            0nat
        }
    }
}

/// Whether signatures `sigs` confirm an operation for the validators
/// `known`, of whom `required` must confirm: there must be at least that many
/// signatures, and at least that many valid ones by known validators.
pub open spec fn quorum_reached(required: nat, sigs: Seq<(Did, Vec<u8>)>, known: Seq<Seq<char>>) -> bool {
    sigs.len() >= required && valid_count(sigs, known) >= required
}

/// What a validation record holds: validator, operation, signature, time,
/// and whether the signature was valid.
pub type RecordView = (Seq<char>, Seq<char>, Seq<u8>, u64, bool);

/// The records that a validation of `op` at time `now` keeps: one for each
/// signature by a known validator, in order.
pub open spec fn expected_records(
    sigs: Seq<(Did, Vec<u8>)>,
    known: Seq<Seq<char>>,
    op: Seq<char>,
    now: u64,
) -> Seq<RecordView>
    decreases sigs.len(),
{
    if sigs.len() == 0 {
        Seq::empty()
    } else {
        let prev = expected_records(sigs.drop_last(), known, op, now);
        let last = sigs.last();
        if known.contains(last.0@) {
            prev.push((last.0@, op, last.1@, now, last.1@.len() >= 64))
        } else {
            prev
        }
    }
}

/// Appending `a` to a sequence adds `a` to its set of elements.
pub proof fn lemma_push_to_set<A>(s: Seq<A>, a: A)
    ensures
        s.push(a).to_set() == s.to_set().insert(a),
{
    assert forall|x: A| s.push(a).to_set().contains(x) <==> s.to_set().insert(a).contains(x) by {
        if s.push(a).contains(x) && x != a {
            let k = choose|k: int| 0 <= k < s.push(a).len() && s.push(a)[k] == x;
            assert(s[k] == x);
        }
        if s.contains(x) {
            let k = choose|k: int| 0 <= k < s.len() && s[k] == x;
            assert(s.push(a)[k] == x);
        }
        if x == a {
            assert(s.push(a)[s.len() as int] == a);
        }
    }
    assert(s.push(a).to_set() =~= s.to_set().insert(a));
}

/// One validator's verdict on an operation.
#[derive(Debug)]
pub struct ValidationRecord {
    pub validator: Did,
    pub operation_id: String,
    pub signature: Vec<u8>,
    pub timestamp: u64,
    pub valid: bool,
}

/// The view of a list of records.
pub open spec fn records_view(s: Seq<ValidationRecord>) -> Seq<RecordView> {
    s.map_values(|r: ValidationRecord| (r.validator@, r.operation_id@, r.signature@, r.timestamp, r.valid))
}

/// The (operation, records) pairs of a validation history.
pub open spec fn history_pairs(h: Seq<(String, Vec<ValidationRecord>)>) -> Seq<(Seq<char>, Seq<RecordView>)> {
    h.map_values(|p: (String, Vec<ValidationRecord>)| (p.0@, records_view(p.1@)))
}

/// Validates economic operations by a quorum of known validators.
#[derive(Debug)]
pub struct ByzantineValidator {
    validators: Vec<Did>,
    required_confirmations: usize,
    operation_history: Vec<(String, Vec<ValidationRecord>)>,
}

impl ByzantineValidator {
    /// The known validators, each once.
    pub closed spec fn validator_ids(&self) -> Seq<Seq<char>> {
        did_views(self.validators@)
    }

    /// The confirmations that an operation needs.
    pub closed spec fn required(&self) -> nat {
        self.required_confirmations as nat
    }

    /// The records kept for each validated operation.
    pub closed spec fn history(&self) -> Map<Seq<char>, Seq<RecordView>> {
        assoc_map(history_pairs(self.operation_history@))
    }

    /// The validator's internal invariant.
    pub closed spec fn inv(&self) -> bool {
        &&& did_views(self.validators@).no_duplicates()
        &&& self.required_confirmations == confirmations_needed(self.validators@.len())
        &&& keys_distinct(history_pairs(self.operation_history@))
    }

    /// A validator over the distinct members of `validators`.
    pub fn new(validators: Vec<Did>) -> (r: ByzantineValidator)
        ensures
            r.inv(),
            r.validator_ids().to_set() == did_views(validators@).to_set(),
            r.required() == confirmations_needed(did_views(validators@).to_set().len()),
            r.history() == Map::<Seq<char>, Seq<RecordView>>::empty(),
    {
        let mut distinct: Vec<Did> = Vec::new();
        let mut i: usize = 0;
        while i < validators.len()
            invariant
                i <= validators@.len(),
                did_views(distinct@).no_duplicates(),
                did_views(distinct@).to_set() == did_views(validators@.take(i as int)).to_set(),
            decreases validators@.len() - i,
        {
            let mut j: usize = 0;
            let mut seen = false;
            while j < distinct.len()
                invariant
                    i < validators@.len(),
                    j <= distinct@.len(),
                    !seen ==> forall|k: int| 0 <= k < j ==> (#[trigger] distinct@[k])@ != validators@[i as int]@,
                    seen ==> did_views(distinct@).contains(validators@[i as int]@),
                decreases distinct@.len() - j,
            {
                if distinct[j].same_as(&validators[i]) {
                    seen = true;
                    proof {
                        assert(did_views(distinct@)[j as int] == validators@[i as int]@);
                    }
                }
                j = j + 1;
            }
            proof {
                assert(did_views(validators@.take(i + 1)) =~= did_views(validators@.take(i as int)).push(
                    validators@[i as int]@,
                ));
            }
            if !seen {
                let ghost before = distinct@;
                distinct.push(validators[i].duplicate());
                proof {
                    assert(did_views(distinct@) =~= did_views(before).push(validators@[i as int]@));
                    assert(!did_views(before).contains(validators@[i as int]@)) by {
                        if did_views(before).contains(validators@[i as int]@) {
                            let k = choose|k: int| 0 <= k < did_views(before).len() && did_views(before)[k] == validators@[i as int]@;
                            assert(before[k]@ == validators@[i as int]@);
                        }
                    }
                    lemma_push_to_set(did_views(before), validators@[i as int]@);
                    lemma_push_to_set(did_views(validators@.take(i as int)), validators@[i as int]@);
                }
            } else {
                proof {
                    lemma_push_to_set(did_views(validators@.take(i as int)), validators@[i as int]@);
                    assert(did_views(distinct@).to_set().insert(validators@[i as int]@) =~= did_views(distinct@).to_set());
                }
            }
            i = i + 1;
        }
        proof {
            assert(validators@.take(validators@.len() as int) =~= validators@);
            did_views(distinct@).unique_seq_to_set();
        }
        let n = distinct.len();
        let c: u128 = (n as u128 * 67 + 99) / 100;
        let required: usize = if c < 1 {
            1
        } else {
            proof {
                assert(c <= n) by (nonlinear_arith)
                    requires
                        c == (n * 67 + 99) / 100,
                        c >= 1,
                ;
            }
            c as usize
        };
        let r = ByzantineValidator { validators: distinct, required_confirmations: required, operation_history: Vec::new() };
        proof {
            assert(history_pairs(r.operation_history@) =~= Seq::<(Seq<char>, Seq<RecordView>)>::empty());
        }
        r
    }

    /// Whether `validator` is one of the known validators.
    fn is_known(&self, validator: &Did) -> (r: bool)
        ensures
            r == self.validator_ids().contains(validator@),
    {
        let mut k: usize = 0;
        while k < self.validators.len()
            invariant
                k <= self.validators@.len(),
                forall|j: int| 0 <= j < k ==> (#[trigger] self.validators@[j])@ != validator@,
            decreases self.validators@.len() - k,
        {
            if self.validators[k].same_as(validator) {
                proof {
                    assert(did_views(self.validators@)[k as int] == validator@);
                }
                return true;
            }
            k = k + 1;
        }
        proof {
            if did_views(self.validators@).contains(validator@) {
                let j = choose|j: int| 0 <= j < did_views(self.validators@).len() && did_views(self.validators@)[j] == validator@;
                assert(self.validators@[j]@ == validator@);
            }
        }
        false
    }

    /// Verify a signature: it must have enough bytes and come from a known
    /// validator. The signed data is not inspected.
    fn verify_signature(&self, validator: &Did, data: &[u8], signature: &[u8]) -> (r: Result<bool, CommonError>)
        ensures
            r == Ok::<bool, CommonError>(signature@.len() >= 64 && self.validator_ids().contains(validator@)),
    {
        let known = self.is_known(validator);
        Ok(signature.len() >= MIN_SIGNATURE_BYTES && known)
    }

    /// Where the history holds `operation_id`, if it does.
    fn history_position(&self, operation_id: &String) -> (r: Option<usize>)
        ensures
            r matches Some(k) ==> k < self.operation_history@.len() && history_pairs(self.operation_history@)[k as int].0
                == operation_id@,
            r is None ==> forall|k: int|
                0 <= k < self.operation_history@.len() ==> #[trigger] history_pairs(self.operation_history@)[k].0
                    != operation_id@,
    {
        let mut k: usize = 0;
        while k < self.operation_history.len()
            invariant
                k <= self.operation_history@.len(),
                forall|j: int| 0 <= j < k ==> #[trigger] history_pairs(self.operation_history@)[j].0 != operation_id@,
            decreases self.operation_history@.len() - k,
        {
            if self.operation_history[k].0 == *operation_id {
                return Some(k);
            }
            k = k + 1;
        }
        None
    }

    /// Validate an operation at time `now`: with fewer signatures than
    /// confirmations needed it is refused at once and nothing is recorded;
    /// otherwise each signature by a known validator is verified and
    /// recorded (the records replace those of an earlier validation of the
    /// same operation), and the operation is accepted when enough signatures
    /// were valid. A validator who signs twice is counted twice.
    pub fn validate_operation_at(
        &mut self,
        operation_id: String,
        operation_data: &[u8],
        validator_signatures: Vec<(Did, Vec<u8>)>,
        now: u64,
    ) -> (r: Result<bool, CommonError>)
        requires
            old(self).inv(),
        ensures
            final(self).inv(),
            final(self).validator_ids() == old(self).validator_ids(),
            final(self).required() == old(self).required(),
            r == Ok::<bool, CommonError>(
                quorum_reached(old(self).required(), validator_signatures@, old(self).validator_ids()),
            ),
            validator_signatures@.len() < old(self).required() ==> final(self).history() == old(self).history(),
            validator_signatures@.len() >= old(self).required() ==> final(self).history() == old(self).history().insert(
                operation_id@,
                expected_records(validator_signatures@, old(self).validator_ids(), operation_id@, now),
            ),
    {
        if validator_signatures.len() < self.required_confirmations {
            return Ok(false);
        }
        let ghost sigs = validator_signatures@;
        let ghost ids = self.validator_ids();
        let mut valid_confirmations: usize = 0;
        let mut records: Vec<ValidationRecord> = Vec::new();
        let mut rest = validator_signatures;
        let n = rest.len();
        let mut i: usize = 0;
        proof {
            assert(sigs.subrange(0, n as int) =~= sigs);
            assert(sigs.take(0) =~= Seq::<(Did, Vec<u8>)>::empty());
            assert(records_view(records@) =~= Seq::<RecordView>::empty());
        }
        while rest.len() > 0
            invariant
                rest@.len() + i == n,
                n == sigs.len(),
                rest@ == sigs.subrange(i as int, n as int),
                records_view(records@) == expected_records(sigs.take(i as int), ids, operation_id@, now),
                valid_confirmations == valid_count(sigs.take(i as int), ids),
                valid_confirmations <= i,
                *self == *old(self),
                ids == self.validator_ids(),
            decreases rest@.len(),
        {
            let (validator, signature) = rest.remove(0);
            proof {
                assert(sigs.take(i + 1).drop_last() =~= sigs.take(i as int));
                assert(sigs.take(i + 1).last() == (validator, signature));
                assert(rest@ =~= sigs.subrange(i + 1, n as int));
            }
            let known = self.is_known(&validator);
            if known {
                let verdict = self.verify_signature(&validator, operation_data, signature.as_slice());
                let is_valid = match verdict {
                    Ok(v) => v,
                    Err(_) => false,
                };
                let ghost before = records@;
                records.push(
                    ValidationRecord {
                        validator,
                        operation_id: operation_id.clone(),
                        signature,
                        timestamp: now,
                        valid: is_valid,
                    },
                );
                proof {
                    assert(records_view(records@) =~= records_view(before).push(
                        (sigs.take(i + 1).last().0@, operation_id@, sigs.take(i + 1).last().1@, now, is_valid),
                    ));
                }
                if is_valid {
                    valid_confirmations = valid_confirmations + 1;
                }
            }
            i = i + 1;
        }
        proof {
            assert(sigs.take(n as int) =~= sigs);
        }
        let accepted = valid_confirmations >= self.required_confirmations;
        let ghost old_pairs = history_pairs(self.operation_history@);
        match self.history_position(&operation_id) {
            Some(k) => {
                self.operation_history.set(k, (operation_id, records));
                proof {
                    assert(history_pairs(self.operation_history@) =~= old_pairs.update(
                        k as int,
                        (old_pairs[k as int].0, expected_records(sigs, ids, old_pairs[k as int].0, now)),
                    ));
                    lemma_assoc_update(old_pairs, k as int, expected_records(sigs, ids, old_pairs[k as int].0, now));
                }
            },
            None => {
                self.operation_history.push((operation_id, records));
                proof {
                    assert(history_pairs(self.operation_history@) =~= old_pairs.push(
                        (operation_id@, expected_records(sigs, ids, operation_id@, now)),
                    ));
                    lemma_assoc_push(old_pairs, operation_id@, expected_records(sigs, ids, operation_id@, now));
                }
            },
        }
        Ok(accepted)
    }

    /// Validate an operation now, as [`Self::validate_operation_at`] does at
    /// the time the system clock reads.
    pub fn validate_operation(
        &mut self,
        operation_id: String,
        operation_data: &[u8],
        validator_signatures: Vec<(Did, Vec<u8>)>,
    ) -> (r: Result<bool, CommonError>)
        requires
            old(self).inv(),
        ensures
            final(self).inv(),
            final(self).validator_ids() == old(self).validator_ids(),
            final(self).required() == old(self).required(),
            r == Ok::<bool, CommonError>(
                quorum_reached(old(self).required(), validator_signatures@, old(self).validator_ids()),
            ),
            validator_signatures@.len() < old(self).required() ==> final(self).history() == old(self).history(),
            validator_signatures@.len() >= old(self).required() ==> exists|now: u64|
                final(self).history() == old(self).history().insert(
                    operation_id@,
                    #[trigger] expected_records(validator_signatures@, old(self).validator_ids(), operation_id@, now),
                ),
    {
        let now = unix_seconds();
        let r = self.validate_operation_at(operation_id, operation_data, validator_signatures, now);
        proof {
            let _ = expected_records(validator_signatures@, old(self).validator_ids(), operation_id@, now);
        }
        r
    }

    /// The records of the last validation of `operation_id`, if it was
    /// validated.
    pub fn get_validation_history(&self, operation_id: &str) -> (r: Option<&Vec<ValidationRecord>>)
        requires
            self.inv(),
        ensures
            match r {
                Some(v) => self.history().contains_key(operation_id@) && records_view(v@) == self.history()[operation_id@],
                None => !self.history().contains_key(operation_id@),
            },
    {
        let key = operation_id.to_owned();
        match self.history_position(&key) {
            Some(k) => {
                proof {
                    lemma_assoc_index(history_pairs(self.operation_history@), k as int);
                }
                Some(&self.operation_history[k].1)
            },
            None => {
                proof {
                    lemma_assoc_absent(history_pairs(self.operation_history@), operation_id@);
                }
                None
            },
        }
    }

    /// The confirmations that an operation needs.
    pub fn required_confirmations(&self) -> (r: usize)
        ensures
            r == self.required(),
    {
        self.required_confirmations
    }
}


/// Seconds of history over which the velocity of an account is measured.
pub const GAMING_DETECTION_WINDOW: u64 = 3600;

/// Highest economic velocity, in mana per second, that is no attack.
pub const MAX_ECONOMIC_VELOCITY: u64 = 1000;

/// Confidence, in thousandths, of a velocity detection.
pub const VELOCITY_CONFIDENCE_PERMILLE: u64 = 800;

/// Kinds of economic attack.
#[derive(Debug)]
pub enum AttackType {
    /// `amount` moved in `seconds`, faster than `threshold` per second.
    VelocityAttack { amount: u128, seconds: u64, threshold: u64 },
    /// Coordinated behaviour between accounts.
    CoordinatedAttack { participants: Vec<Did> },
    /// Double spending or another integrity violation.
    IntegrityAttack { description: String },
    /// Many identities under one control.
    SybilAttack { suspected_accounts: Vec<Did> },
    /// A resource drained at `drain_rate` per second.
    DrainAttack { target_resource: String, drain_rate: u64 },
}

/// A detected attack and the protocol recommended against it.
#[derive(Debug)]
pub struct AttackDetection {
    pub attack_type: AttackType,
    /// Confidence in thousandths.
    pub confidence_permille: u64,
    pub timestamp: u64,
    pub affected_accounts: Vec<Did>,
    pub recommended_response: EmergencyProtocol,
}

/// One economic operation of an account.
#[derive(Debug)]
pub struct OperationRecord {
    pub timestamp: u64,
    pub amount: u64,
    pub operation_type: String,
}

/// What an operation record holds: time, amount and kind.
pub type OpView = (u64, u64, Seq<char>);

/// The views of a list of operation records.
pub open spec fn ops_view(s: Seq<OperationRecord>) -> Seq<OpView> {
    s.map_values(|o: OperationRecord| (o.timestamp, o.amount, o.operation_type@))
}

/// The earliest time that the window ending at `now` covers.
pub open spec fn window_floor(now: u64) -> int {
    if now >= 3600 {
        now - 3600
    } else {
        0
    }
}

/// The operations of `s` that fall in the window ending at `now`, in order.
pub open spec fn kept_ops(s: Seq<OpView>, now: u64) -> Seq<OpView>
    decreases s.len(),
{
    if s.len() == 0 {
        Seq::empty()
    } else if s.last().0 >= window_floor(now) {
        kept_ops(s.drop_last(), now).push(s.last())
    } else {
        kept_ops(s.drop_last(), now)
    }
}

/// The total amount of a list of operations.
pub open spec fn ops_total(s: Seq<OpView>) -> nat
    decreases s.len(),
{
    if s.len() == 0 {
        0
    } else {
        ops_total(s.drop_last()) + s.last().1 as nat
    }
}

/// The seconds from the first operation of a list to its last (none where
/// the last is earlier).
pub open spec fn ops_span(s: Seq<OpView>) -> nat {
    if s.len() > 0 && s.last().0 >= s[0].0 {
        (s.last().0 - s[0].0) as nat
    } else {
        0
    }
}

/// Whether a list of operations moved more than the highest velocity allows.
pub open spec fn velocity_exceeded(s: Seq<OpView>) -> bool {
    ops_span(s) > 0 && ops_total(s) > 1000 * ops_span(s)
}

/// The operations tracked for an account once an operation of `amount` and
/// kind `ty` is recorded at `now`: those still in the window, then the new one.
pub open spec fn tracked_after(before: Seq<OpView>, now: u64, amount: u64, ty: Seq<char>) -> Seq<OpView> {
    kept_ops(before, now).push((now, amount, ty))
}

/// `d` reports a velocity attack by `who`, whose operations are `ops`, at `now`,
/// and recommends freezing that account.
pub open spec fn is_velocity_detection(d: AttackDetection, who: Seq<char>, ops: Seq<OpView>, now: u64) -> bool {
    &&& d.attack_type matches AttackType::VelocityAttack { amount, seconds, threshold } && amount == ops_total(ops)
        && seconds == ops_span(ops) && threshold == 1000
    &&& d.confidence_permille == 800
    &&& d.timestamp == now
    &&& did_views(d.affected_accounts@) == seq![who]
    &&& d.recommended_response matches EmergencyProtocol::AccountFreeze { accounts } && did_views(accounts@) == seq![who]
}

/// The velocity record of one account.
#[derive(Debug)]
struct VelocityTracker {
    operations: Vec<OperationRecord>,
    window_start: u64,
}

/// The (account, (window start, operations)) pairs of a velocity table.
spec fn tracker_pairs(t: Seq<(Did, VelocityTracker)>) -> Seq<(Seq<char>, (u64, Seq<OpView>))> {
    t.map_values(|p: (Did, VelocityTracker)| (p.0@, (p.1.window_start, ops_view(p.1.operations@))))
}

/// The ((from, to), count) pairs of an interaction table.
pub open spec fn interaction_pairs(g: Seq<(Did, Did, u32)>) -> Seq<((Seq<char>, Seq<char>), u32)> {
    g.map_values(|e: (Did, Did, u32)| ((e.0@, e.1@), e.2))
}

/// Counts the interactions between accounts.
#[derive(Debug)]
struct CoordinationDetector {
    interaction_graph: Vec<(Did, Did, u32)>,
}

/// Detects gaming of the economic rules.
#[derive(Debug)]
pub struct AntiGamingDetector {
    velocity_tracker: Vec<(Did, VelocityTracker)>,
    coordination_detector: CoordinationDetector,
    integrity_monitor: IntegrityMonitor,
}

/// Whether the monitor table `m` has seen `account` under `op`.
pub open spec fn attempt_seen(m: Map<Seq<char>, Seq<Seq<char>>>, op: Seq<char>, account: Seq<char>) -> bool {
    m.contains_key(op) && m[op].contains(account)
}

/// The monitor table after `account` tries operation `op`.
pub open spec fn after_attempt(m: Map<Seq<char>, Seq<Seq<char>>>, op: Seq<char>, account: Seq<char>) -> Map<
    Seq<char>,
    Seq<Seq<char>>,
> {
    if attempt_seen(m, op, account) {
        m
    } else {
        m.insert(op, lookup_or(m, op, Seq::<Seq<char>>::empty()).push(account))
    }
}

/// A balance that differed from the expected one.
#[derive(Debug)]
struct BalanceInconsistency {
    account: Did,
    expected_balance: u64,
    actual_balance: u64,
    timestamp: u64,
}

/// The (operation, accounts) pairs of a table of spend attempts.
pub open spec fn attempt_pairs(t: Seq<(String, Vec<Did>)>) -> Seq<(Seq<char>, Seq<Seq<char>>)> {
    t.map_values(|p: (String, Vec<Did>)| (p.0@, did_views(p.1@)))
}

/// Watches for integrity violations: an operation tried twice by one account,
/// and balances that differ from what was expected.
#[derive(Debug)]
pub struct IntegrityMonitor {
    double_spend_attempts: Vec<(String, Vec<Did>)>,
    balance_inconsistencies: Vec<BalanceInconsistency>,
}

impl IntegrityMonitor {
    /// The accounts that tried each operation, in order.
    pub closed spec fn attempts(&self) -> Map<Seq<char>, Seq<Seq<char>>> {
        assoc_map(attempt_pairs(self.double_spend_attempts@))
    }

    /// The recorded inconsistencies: account, expected, actual, time.
    pub closed spec fn inconsistencies(&self) -> Seq<(Seq<char>, u64, u64, u64)> {
        self.balance_inconsistencies@.map_values(
            |b: BalanceInconsistency| (b.account@, b.expected_balance, b.actual_balance, b.timestamp),
        )
    }

    /// The monitor's internal invariant.
    pub closed spec fn inv(&self) -> bool {
        keys_distinct(attempt_pairs(self.double_spend_attempts@))
    }

    /// A monitor that has seen nothing.
    pub fn new() -> (r: IntegrityMonitor)
        ensures
            r.inv(),
            r.attempts() == Map::<Seq<char>, Seq<Seq<char>>>::empty(),
            r.inconsistencies() == Seq::<(Seq<char>, u64, u64, u64)>::empty(),
    {
        let r = IntegrityMonitor { double_spend_attempts: Vec::new(), balance_inconsistencies: Vec::new() };
        proof {
            assert(attempt_pairs(r.double_spend_attempts@) =~= Seq::<(Seq<char>, Seq<Seq<char>>)>::empty());
            assert(r.inconsistencies() =~= Seq::<(Seq<char>, u64, u64, u64)>::empty());
        }
        r
    }

    /// Where the table of attempts holds `operation_id`, if it does.
    fn attempt_position(&self, operation_id: &String) -> (r: Option<usize>)
        ensures
            r matches Some(k) ==> k < self.double_spend_attempts@.len() && attempt_pairs(
                self.double_spend_attempts@,
            )[k as int].0 == operation_id@,
            r is None ==> forall|k: int|
                0 <= k < self.double_spend_attempts@.len() ==> #[trigger] attempt_pairs(
                    self.double_spend_attempts@,
                )[k].0 != operation_id@,
    {
        let mut k: usize = 0;
        while k < self.double_spend_attempts.len()
            invariant
                k <= self.double_spend_attempts@.len(),
                forall|j: int| 0 <= j < k ==> #[trigger] attempt_pairs(self.double_spend_attempts@)[j].0 != operation_id@,
            decreases self.double_spend_attempts@.len() - k,
        {
            if self.double_spend_attempts[k].0 == *operation_id {
                return Some(k);
            }
            k = k + 1;
        }
        None
    }

    /// Whether `account` already tried `operation_id`: a double spend. The
    /// first try of an account is recorded.
    pub fn check_double_spend(&mut self, operation_id: String, account: Did) -> (r: bool)
        requires
            old(self).inv(),
        ensures
            final(self).inv(),
            r == attempt_seen(old(self).attempts(), operation_id@, account@),
            final(self).attempts() == after_attempt(old(self).attempts(), operation_id@, account@),
            final(self).inconsistencies() == old(self).inconsistencies(),
    {
        let ghost pairs = attempt_pairs(self.double_spend_attempts@);
        let found = self.attempt_position(&operation_id);
        if let Some(k) = found {
            proof {
                lemma_assoc_index(pairs, k as int);
            }
            let mut j: usize = 0;
            let n = self.double_spend_attempts[k].1.len();
            while j < n
                invariant
                    k < self.double_spend_attempts@.len(),
                    pairs == attempt_pairs(self.double_spend_attempts@),
                    *self == *old(self),
                    self.inv(),
                    pairs[k as int].0 == operation_id@,
                    assoc_map(pairs).contains_key(pairs[k as int].0),
                    assoc_map(pairs)[pairs[k as int].0] == pairs[k as int].1,
                    n == self.double_spend_attempts@[k as int].1@.len(),
                    j <= n,
                    forall|t: int| 0 <= t < j ==> (#[trigger] self.double_spend_attempts@[k as int].1@[t])@ != account@,
                decreases n - j,
            {
                if self.double_spend_attempts[k].1[j].same_as(&account) {
                    proof {
                        assert(pairs[k as int].1[j as int] == account@);
                    }
                    return true;
                }
                j = j + 1;
            }
            proof {
                assert(!pairs[k as int].1.contains(account@)) by {
                    if pairs[k as int].1.contains(account@) {
                        let t = choose|t: int| 0 <= t < pairs[k as int].1.len() && pairs[k as int].1[t] == account@;
                        assert(self.double_spend_attempts@[k as int].1@[t]@ == account@);
                    }
                }
            }
            let (op, mut accounts) = self.double_spend_attempts.remove(k);
            let ghost before = accounts@;
            accounts.push(account);
            self.double_spend_attempts.insert(k, (op, accounts));
            proof {
                assert(did_views(accounts@) =~= did_views(before).push(account@));
                assert(attempt_pairs(self.double_spend_attempts@) =~= pairs.update(
                    k as int,
                    (pairs[k as int].0, pairs[k as int].1.push(account@)),
                ));
                lemma_assoc_update(pairs, k as int, pairs[k as int].1.push(account@));
            }
            false
        } else {
            proof {
                lemma_assoc_absent(pairs, operation_id@);
            }
            let ghost op_view = operation_id@;
            let mut accounts: Vec<Did> = Vec::new();
            accounts.push(account);
            self.double_spend_attempts.push((operation_id, accounts));
            proof {
                assert(did_views(accounts@) =~= Seq::<Seq<char>>::empty().push(account@));
                assert(attempt_pairs(self.double_spend_attempts@) =~= pairs.push((op_view, seq![account@])));
                lemma_assoc_push(pairs, op_view, seq![account@]);
            }
            false
        }
    }

    /// Record at `now` that `account` held `actual` where `expected` was due.
    pub fn record_balance_inconsistency_at(&mut self, account: Did, expected: u64, actual: u64, now: u64)
        ensures
            final(self).inconsistencies() == old(self).inconsistencies().push((account@, expected, actual, now)),
            final(self).attempts() == old(self).attempts(),
            final(self).inv() == old(self).inv(),
    {
        let ghost a = account@;
        self.balance_inconsistencies.push(
            BalanceInconsistency { account, expected_balance: expected, actual_balance: actual, timestamp: now },
        );
        proof {
            assert(self.inconsistencies() =~= old(self).inconsistencies().push((a, expected, actual, now)));
        }
    }

    /// Record, at the time the system clock reads, that `account` held
    /// `actual` where `expected` was due.
    pub fn record_balance_inconsistency(&mut self, account: Did, expected: u64, actual: u64)
        ensures
            final(self).inconsistencies().len() == old(self).inconsistencies().len() + 1,
            final(self).inconsistencies().drop_last() == old(self).inconsistencies(),
            final(self).inconsistencies().last().0 == account@,
            final(self).inconsistencies().last().1 == expected,
            final(self).inconsistencies().last().2 == actual,
            final(self).attempts() == old(self).attempts(),
            final(self).inv() == old(self).inv(),
    {
        let now = unix_seconds();
        self.record_balance_inconsistency_at(account, expected, actual, now);
    }
}

/// A second try of the same operation by the same account is always caught:
/// after any check of (`op`, `account`), the next check reports a double spend.
pub proof fn law_second_attempt_detected(m: Map<Seq<char>, Seq<Seq<char>>>, op: Seq<char>, account: Seq<char>)
    ensures
        attempt_seen(after_attempt(m, op, account), op, account),
{
    if !attempt_seen(m, op, account) {
        let l = lookup_or(m, op, Seq::<Seq<char>>::empty()).push(account);
        assert(l[l.len() - 1] == account);
    }
}

/// The operations that the velocity table `t` holds for `k`; none if absent.
pub open spec fn ops_of(t: Map<Seq<char>, (u64, Seq<OpView>)>, k: Seq<char>) -> Seq<OpView> {
    if t.contains_key(k) {
        t[k].1
    } else {
        Seq::empty()
    }
}

/// The start of the tracking of `k` once an operation at `now` is recorded:
/// kept where the account was tracked, `now` where it was not.
pub open spec fn window_start_after(t: Map<Seq<char>, (u64, Seq<OpView>)>, k: Seq<char>, now: u64) -> u64 {
    if t.contains_key(k) {
        t[k].0
    } else {
        now
    }
}

/// The velocity table after `k` operated `amount` of kind `ty` at `now`.
pub open spec fn tracker_after(
    t: Map<Seq<char>, (u64, Seq<OpView>)>,
    k: Seq<char>,
    amount: u64,
    ty: Seq<char>,
    now: u64,
) -> Map<Seq<char>, (u64, Seq<OpView>)> {
    t.insert(k, (window_start_after(t, k, now), tracked_after(ops_of(t, k), now, amount, ty)))
}

/// What an analysis of an operation returns: the velocity detection where the
/// account's operations, once this one is recorded, move too fast; nothing
/// otherwise.
pub open spec fn analysis_result(
    t: Map<Seq<char>, (u64, Seq<OpView>)>,
    k: Seq<char>,
    amount: u64,
    ty: Seq<char>,
    now: u64,
    r: Result<Vec<AttackDetection>, CommonError>,
) -> bool {
    let ops = tracked_after(ops_of(t, k), now, amount, ty);
    r matches Ok(v) && if velocity_exceeded(ops) {
        v@.len() == 1 && is_velocity_detection(v@[0], k, ops, now)
    } else {
        v@.len() == 0
    }
}

impl AntiGamingDetector {
    /// For each tracked account, when its tracking began and its operations
    /// within the window.
    pub closed spec fn tracker(&self) -> Map<Seq<char>, (u64, Seq<OpView>)> {
        assoc_map(tracker_pairs(self.velocity_tracker@))
    }

    /// How often each account interacted with each other.
    pub closed spec fn interaction_counts(&self) -> Map<(Seq<char>, Seq<char>), u32> {
        assoc_map(interaction_pairs(self.coordination_detector.interaction_graph@))
    }

    /// The detector's internal invariant.
    pub closed spec fn inv(&self) -> bool {
        &&& keys_distinct(tracker_pairs(self.velocity_tracker@))
        &&& keys_distinct(interaction_pairs(self.coordination_detector.interaction_graph@))
        &&& self.integrity_monitor.inv()
    }

    /// A detector that has seen nothing.
    pub fn new() -> (r: AntiGamingDetector)
        ensures
            r.inv(),
            r.tracker() == Map::<Seq<char>, (u64, Seq<OpView>)>::empty(),
            r.interaction_counts() == Map::<(Seq<char>, Seq<char>), u32>::empty(),
    {
        let r = AntiGamingDetector {
            velocity_tracker: Vec::new(),
            coordination_detector: CoordinationDetector { interaction_graph: Vec::new() },
            integrity_monitor: IntegrityMonitor::new(),
        };
        proof {
            assert(tracker_pairs(r.velocity_tracker@) =~= Seq::<(Seq<char>, (u64, Seq<OpView>))>::empty());
            assert(interaction_pairs(r.coordination_detector.interaction_graph@) =~= Seq::<
                ((Seq<char>, Seq<char>), u32),
            >::empty());
        }
        r
    }

    /// Where the velocity table holds `did`, if it does.
    fn tracker_position(&self, did: &Did) -> (r: Option<usize>)
        ensures
            r matches Some(k) ==> k < self.velocity_tracker@.len() && tracker_pairs(self.velocity_tracker@)[k as int].0
                == did@,
            r is None ==> forall|k: int|
                0 <= k < self.velocity_tracker@.len() ==> #[trigger] tracker_pairs(self.velocity_tracker@)[k].0 != did@,
    {
        let mut k: usize = 0;
        while k < self.velocity_tracker.len()
            invariant
                k <= self.velocity_tracker@.len(),
                forall|j: int| 0 <= j < k ==> #[trigger] tracker_pairs(self.velocity_tracker@)[j].0 != did@,
            decreases self.velocity_tracker@.len() - k,
        {
            if self.velocity_tracker[k].0.same_as(did) {
                return Some(k);
            }
            k = k + 1;
        }
        None
    }

    /// Record an operation of `did` at `timestamp`, dropping those that left
    /// the window.
    fn update_velocity_tracker(&mut self, did: &Did, amount: u64, operation_type: String, timestamp: u64)
        requires
            old(self).inv(),
        ensures
            final(self).inv(),
            final(self).tracker() == tracker_after(old(self).tracker(), did@, amount, operation_type@, timestamp),
            final(self).interaction_counts() == old(self).interaction_counts(),
    {
        let ghost pairs = tracker_pairs(self.velocity_tracker@);
        let ghost ty = operation_type@;
        let floor: u64 = if timestamp >= GAMING_DETECTION_WINDOW {
            timestamp - GAMING_DETECTION_WINDOW
        } else {
            0
        };
        match self.tracker_position(did) {
            Some(k) => {
                proof {
                    lemma_assoc_index(pairs, k as int);
                }
                let (key, tracker) = self.velocity_tracker.remove(k);
                let ghost ops = ops_view(tracker.operations@);
                let mut kept: Vec<OperationRecord> = Vec::new();
                let mut i: usize = 0;
                proof {
                    assert(ops_view(kept@) =~= kept_ops(ops.take(0), timestamp));
                }
                while i < tracker.operations.len()
                    invariant
                        i <= tracker.operations@.len(),
                        ops == ops_view(tracker.operations@),
                        floor == window_floor(timestamp),
                        ops_view(kept@) == kept_ops(ops.take(i as int), timestamp),
                    decreases tracker.operations@.len() - i,
                {
                    proof {
                        assert(ops.take(i + 1).drop_last() =~= ops.take(i as int));
                    }
                    if tracker.operations[i].timestamp >= floor {
                        let ghost before = kept@;
                        let rec = OperationRecord {
                            timestamp: tracker.operations[i].timestamp,
                            amount: tracker.operations[i].amount,
                            operation_type: tracker.operations[i].operation_type.clone(),
                        };
                        kept.push(rec);
                        proof {
                            assert(ops_view(kept@) =~= ops_view(before).push(ops[i as int]));
                        }
                    }
                    i = i + 1;
                }
                proof {
                    assert(ops.take(tracker.operations@.len() as int) =~= ops);
                }
                let ghost before = kept@;
                kept.push(OperationRecord { timestamp, amount, operation_type });
                proof {
                    assert(ops_view(kept@) =~= tracked_after(ops, timestamp, amount, ty));
                }
                let window_start = tracker.window_start;
                self.velocity_tracker.insert(k, (key, VelocityTracker { operations: kept, window_start }));
                proof {
                    assert(tracker_pairs(self.velocity_tracker@) =~= pairs.update(
                        k as int,
                        (pairs[k as int].0, (window_start, tracked_after(ops, timestamp, amount, ty))),
                    ));
                    lemma_assoc_update(pairs, k as int, (window_start, tracked_after(ops, timestamp, amount, ty)));
                }
            },
            None => {
                proof {
                    lemma_assoc_absent(pairs, did@);
                }
                let mut ops: Vec<OperationRecord> = Vec::new();
                ops.push(OperationRecord { timestamp, amount, operation_type });
                self.velocity_tracker.push((did.duplicate(), VelocityTracker { operations: ops, window_start: timestamp }));
                proof {
                    assert(kept_ops(Seq::<OpView>::empty(), timestamp) =~= Seq::<OpView>::empty());
                    assert(ops_view(ops@) =~= tracked_after(Seq::<OpView>::empty(), timestamp, amount, ty));
                    assert(tracker_pairs(self.velocity_tracker@) =~= pairs.push(
                        (did@, (timestamp, tracked_after(Seq::<OpView>::empty(), timestamp, amount, ty))),
                    ));
                    lemma_assoc_push(pairs, did@, (timestamp, tracked_after(Seq::<OpView>::empty(), timestamp, amount, ty)));
                }
            },
        }
    }

    /// The velocity detection for `did` at `now`, if its tracked operations
    /// move faster than the highest velocity allows.
    fn check_velocity_attack(&self, did: &Did, now: u64) -> (r: Result<Option<AttackDetection>, CommonError>)
        requires
            self.inv(),
        ensures
            r matches Ok(o) && if velocity_exceeded(ops_of(self.tracker(), did@)) {
                o matches Some(d) && is_velocity_detection(d, did@, ops_of(self.tracker(), did@), now)
            } else {
                o is None
            },
    {
        let ghost pairs = tracker_pairs(self.velocity_tracker@);
        match self.tracker_position(did) {
            None => {
                proof {
                    lemma_assoc_absent(pairs, did@);
                }
                Ok(None)
            },
            Some(k) => {
                proof {
                    lemma_assoc_index(pairs, k as int);
                }
                let ops = &self.velocity_tracker[k].1.operations;
                let ghost view = ops_view(ops@);
                if ops.len() == 0 {
                    return Ok(None);
                }
                let mut total: u128 = 0;
                let mut i: usize = 0;
                while i < ops.len()
                    invariant
                        i <= ops@.len(),
                        view == ops_view(ops@),
                        total == ops_total(view.take(i as int)),
                        total <= i * 0xffff_ffff_ffff_ffffu128,
                        ops@.len() <= usize::MAX,
                    decreases ops@.len() - i,
                {
                    proof {
                        assert(view.take(i + 1).drop_last() =~= view.take(i as int));
                        assert(total + ops@[i as int].amount <= (i + 1) * 0xffff_ffff_ffff_ffffu128) by (nonlinear_arith)
                            requires
                                total <= i * 0xffff_ffff_ffff_ffffu128,
                                ops@[i as int].amount <= 0xffff_ffff_ffff_ffffu64,
                        ;
                        assert((i + 1) * 0xffff_ffff_ffff_ffffu128 <= 0xffff_ffff_ffff_ffffu128 * 0xffff_ffff_ffff_ffffu128) by (nonlinear_arith)
                            requires
                                i + 1 <= 0xffff_ffff_ffff_ffffu128,
                        ;
                    }
                    total = total + ops[i].amount as u128;
                    i = i + 1;
                }
                proof {
                    assert(view.take(ops@.len() as int) =~= view);
                }
                let first = ops[0].timestamp;
                let last = ops[ops.len() - 1].timestamp;
                let span: u64 = if last >= first {
                    last - first
                } else {
                    0
                };
                if span > 0 && total > MAX_ECONOMIC_VELOCITY as u128 * span as u128 {
                    let mut affected: Vec<Did> = Vec::new();
                    affected.push(did.duplicate());
                    let mut frozen: Vec<Did> = Vec::new();
                    frozen.push(did.duplicate());
                    proof {
                        assert(did_views(affected@) =~= seq![did@]);
                        assert(did_views(frozen@) =~= seq![did@]);
                    }
                    Ok(
                        Some(
                            AttackDetection {
                                attack_type: AttackType::VelocityAttack {
                                    amount: total,
                                    seconds: span,
                                    threshold: MAX_ECONOMIC_VELOCITY,
                                },
                                confidence_permille: VELOCITY_CONFIDENCE_PERMILLE,
                                timestamp: now,
                                affected_accounts: affected,
                                recommended_response: EmergencyProtocol::AccountFreeze { accounts: frozen },
                            },
                        ),
                    )
                } else {
                    Ok(None)
                }
            },
        }
    }

    /// Coordinated attacks are not detected yet: nothing is reported.
    fn check_coordination_attack(&self, did: &Did) -> (r: Result<Option<AttackDetection>, CommonError>)
        ensures
            r matches Ok(o) && o is None,
    {
        Ok(None)
    }

    /// Analyse an operation of `amount` and kind `operation_type` by `did` at
    /// `now`: it is recorded, operations older than the window are dropped,
    /// and a velocity attack is reported when the account's operations in the
    /// window move more than the highest velocity allows.
    pub fn analyze_operation_at(&mut self, did: &Did, amount: u64, operation_type: String, now: u64) -> (r: Result<
        Vec<AttackDetection>,
        CommonError,
    >)
        requires
            old(self).inv(),
        ensures
            final(self).inv(),
            final(self).tracker() == tracker_after(old(self).tracker(), did@, amount, operation_type@, now),
            final(self).interaction_counts() == old(self).interaction_counts(),
            analysis_result(old(self).tracker(), did@, amount, operation_type@, now, r),
    {
        let ghost ty = operation_type@;
        let mut detections: Vec<AttackDetection> = Vec::new();
        self.update_velocity_tracker(did, amount, operation_type, now);
        proof {
            assert(ops_of(self.tracker(), did@) == tracked_after(ops_of(old(self).tracker(), did@), now, amount, ty));
        }
        match self.check_velocity_attack(did, now) {
            Ok(Some(d)) => detections.push(d),
            Ok(None) => {},
            Err(e) => return Err(e),
        }
        match self.check_coordination_attack(did) {
            Ok(Some(d)) => detections.push(d),
            Ok(None) => {},
            Err(e) => return Err(e),
        }
        Ok(detections)
    }

    /// Analyse an operation as [`Self::analyze_operation_at`] does, at the time
    /// the system clock reads.
    pub fn analyze_operation(&mut self, did: &Did, amount: u64, operation_type: String) -> (r: Result<
        Vec<AttackDetection>,
        CommonError,
    >)
        requires
            old(self).inv(),
        ensures
            final(self).inv(),
            final(self).interaction_counts() == old(self).interaction_counts(),
            exists|now: u64|
                #![trigger tracker_after(old(self).tracker(), did@, amount, operation_type@, now)]
                final(self).tracker() == tracker_after(old(self).tracker(), did@, amount, operation_type@, now)
                    && analysis_result(old(self).tracker(), did@, amount, operation_type@, now, r),
    {
        let now = unix_seconds();
        self.analyze_operation_at(did, amount, operation_type, now)
    }

    /// Where the interaction table holds (`from`, `to`), if it does.
    fn interaction_position(&self, from: &Did, to: &Did) -> (r: Option<usize>)
        ensures
            r matches Some(k) ==> k < self.coordination_detector.interaction_graph@.len() && interaction_pairs(
                self.coordination_detector.interaction_graph@,
            )[k as int].0 == (from@, to@),
            r is None ==> forall|k: int|
                0 <= k < self.coordination_detector.interaction_graph@.len() ==> #[trigger] interaction_pairs(
                    self.coordination_detector.interaction_graph@,
                )[k].0 != (from@, to@),
    {
        let mut k: usize = 0;
        while k < self.coordination_detector.interaction_graph.len()
            invariant
                k <= self.coordination_detector.interaction_graph@.len(),
                forall|j: int|
                    0 <= j < k ==> #[trigger] interaction_pairs(self.coordination_detector.interaction_graph@)[j].0 != (
                        from@,
                        to@,
                    ),
            decreases self.coordination_detector.interaction_graph@.len() - k,
        {
            let e = &self.coordination_detector.interaction_graph[k];
            if e.0.same_as(from) && e.1.same_as(to) {
                return Some(k);
            }
            k = k + 1;
        }
        None
    }

    /// The number of recorded interactions from `from` to `to`.
    pub fn interaction_count(&self, from: &Did, to: &Did) -> (r: u32)
        requires
            self.inv(),
        ensures
            r == lookup_or(self.interaction_counts(), (from@, to@), 0u32),
    {
        let ghost pairs = interaction_pairs(self.coordination_detector.interaction_graph@);
        match self.interaction_position(from, to) {
            Some(k) => {
                proof {
                    lemma_assoc_index(pairs, k as int);
                }
                self.coordination_detector.interaction_graph[k].2
            },
            None => {
                proof {
                    lemma_assoc_absent(pairs, (from@, to@));
                }
                0
            },
        }
    }

    /// Record an interaction from `from` to `to` for coordination analysis.
    pub fn record_interaction(&mut self, from: &Did, to: &Did)
        requires
            old(self).inv(),
            lookup_or(old(self).interaction_counts(), (from@, to@), 0u32) < u32::MAX,
        ensures
            final(self).inv(),
            final(self).interaction_counts() == old(self).interaction_counts().insert(
                (from@, to@),
                (lookup_or(old(self).interaction_counts(), (from@, to@), 0u32) + 1) as u32,
            ),
            final(self).tracker() == old(self).tracker(),
    {
        let ghost pairs = interaction_pairs(self.coordination_detector.interaction_graph@);
        match self.interaction_position(from, to) {
            Some(k) => {
                proof {
                    lemma_assoc_index(pairs, k as int);
                }
                let (a, b, count) = self.coordination_detector.interaction_graph.remove(k);
                self.coordination_detector.interaction_graph.insert(k, (a, b, count + 1));
                proof {
                    assert(interaction_pairs(self.coordination_detector.interaction_graph@) =~= pairs.update(
                        k as int,
                        (pairs[k as int].0, (count + 1) as u32),
                    ));
                    lemma_assoc_update(pairs, k as int, (count + 1) as u32);
                }
            },
            None => {
                proof {
                    lemma_assoc_absent(pairs, (from@, to@));
                }
                self.coordination_detector.interaction_graph.push((from.duplicate(), to.duplicate(), 1));
                proof {
                    assert(interaction_pairs(self.coordination_detector.interaction_graph@) =~= pairs.push(
                        ((from@, to@), 1u32),
                    ));
                    lemma_assoc_push(pairs, (from@, to@), 1u32);
                }
            },
        }
    }

    /// Sybil attacks are not detected yet: nothing is reported.
    pub fn detect_sybil_attack(&self, accounts: &[Did]) -> (r: Option<AttackDetection>)
        ensures
            r is None,
    {
        None
    }
}

/// Confidence, in thousandths, above which a detection stops an operation.
pub const ACTION_CONFIDENCE_PERMILLE: u64 = 700;

/// How a velocity attack is written in a message.
pub open spec fn velocity_text(amount: nat, seconds: nat, threshold: nat) -> Seq<char> {
    "VelocityAttack { amount: "@ + decimal(amount) + ", seconds: "@ + decimal(seconds) + ", threshold: "@ + decimal(
        threshold,
    ) + " }"@
}

/// How an attack is written in a message.
pub open spec fn attack_text(t: AttackType) -> Seq<char> {
    match t {
        AttackType::VelocityAttack { amount, seconds, threshold } => velocity_text(
            amount as nat,
            seconds as nat,
            threshold as nat,
        ),
        AttackType::CoordinatedAttack { .. } => "CoordinatedAttack"@,
        AttackType::IntegrityAttack { description } => "IntegrityAttack { description: "@ + description@ + " }"@,
        AttackType::SybilAttack { .. } => "SybilAttack"@,
        AttackType::DrainAttack { target_resource, drain_rate } => "DrainAttack { target_resource: "@
            + target_resource@ + ", drain_rate: "@ + decimal(drain_rate as nat) + " }"@,
    }
}

impl AttackType {
    /// The attack as a message writes it.
    pub fn describe(&self) -> (r: String)
        ensures
            r@ == attack_text(*self),
    {
        proof {
            reveal_strlit("VelocityAttack { amount: ");
            reveal_strlit(", seconds: ");
            reveal_strlit(", threshold: ");
            reveal_strlit(" }");
            reveal_strlit("CoordinatedAttack");
            reveal_strlit("IntegrityAttack { description: ");
            reveal_strlit("SybilAttack");
            reveal_strlit("DrainAttack { target_resource: ");
            reveal_strlit(", drain_rate: ");
        }
        match self {
            AttackType::VelocityAttack { amount, seconds, threshold } => {
                let a = u128_to_decimal(*amount);
                let b = u64_to_decimal(*seconds);
                let c = u64_to_decimal(*threshold);
                let t = join2("VelocityAttack { amount: ", a.as_str());
                let t = t.concat(", seconds: ");
                let t = t.concat(b.as_str());
                let t = t.concat(", threshold: ");
                let t = t.concat(c.as_str());
                t.concat(" }")
            },
            AttackType::CoordinatedAttack { .. } => String::from_str("CoordinatedAttack"),
            AttackType::IntegrityAttack { description } => {
                let t = join2("IntegrityAttack { description: ", description.as_str());
                t.concat(" }")
            },
            AttackType::SybilAttack { .. } => String::from_str("SybilAttack"),
            AttackType::DrainAttack { target_resource, drain_rate } => {
                let d = u64_to_decimal(*drain_rate);
                let t = join2("DrainAttack { target_resource: ", target_resource.as_str());
                let t = t.concat(", drain_rate: ");
                let t = t.concat(d.as_str());
                t.concat(" }")
            },
        }
    }
}

/// Economic operations that pass emergency protocols, Byzantine validation
/// and gaming detection before they reach the mana ledger.
pub struct AdversarialResilientEconomics<L: ManaLedger> {
    ledger: L,
    byzantine_validator: ByzantineValidator,
    anti_gaming_detector: AntiGamingDetector,
    emergency_coordinator: EmergencyCoordinator,
}

/// The outcome of an operation guarded at `now` on account `did`, a credit
/// where `credit` holds and a spend otherwise:
/// - refused while the account or everything is frozen, with nothing changed;
/// - otherwise validated (and, with enough signatures, recorded) and refused
///   without a quorum of valid signatures by known validators;
/// - otherwise recorded for velocity, and refused, with the account frozen,
///   when the account moves too fast;
/// - otherwise done on the ledger, whose refusal is passed on.
pub open spec fn guarded_outcome<L: ManaLedger>(
    before: AdversarialResilientEconomics<L>,
    after: AdversarialResilientEconomics<L>,
    did: Seq<char>,
    amount: u64,
    op: Seq<char>,
    sigs: Seq<(Did, Vec<u8>)>,
    now: u64,
    credit: bool,
    r: Result<(), CommonError>,
) -> bool {
    let co = before.coordinator();
    let v = before.validator();
    let kind = if credit {
        "credit"@
    } else {
        "spend"@
    };
    let ops = tracked_after(ops_of(before.detector().tracker(), did), now, amount, kind);
    let bal = before.ledger_state().balances();
    if co.globally_frozen() || co.frozen().contains(did) {
        &&& r matches Err(CommonError::PolicyDenied(m)) && m@ == "Operation blocked by emergency protocols"@
        &&& after == before
    } else {
        &&& after.validator().validator_ids() == v.validator_ids()
        &&& after.validator().required() == v.required()
        &&& after.validator().history() == if sigs.len() >= v.required() {
            v.history().insert(op, expected_records(sigs, v.validator_ids(), op, now))
        } else {
            v.history()
        }
        &&& if !quorum_reached(v.required(), sigs, v.validator_ids()) {
            &&& r matches Err(CommonError::PolicyDenied(m)) && m@ == "Byzantine validation failed"@
            &&& after.detector() == before.detector()
            &&& after.coordinator() == co
            &&& after.ledger_state() == before.ledger_state()
        } else {
            &&& after.detector().tracker() == tracker_after(before.detector().tracker(), did, amount, kind, now)
            &&& after.detector().interaction_counts() == before.detector().interaction_counts()
            &&& if velocity_exceeded(ops) {
                &&& r matches Err(CommonError::PolicyDenied(m)) && m@ == "Attack detected: "@ + velocity_text(
                    ops_total(ops),
                    ops_span(ops),
                    1000,
                )
                &&& after.coordinator().protocols().len() == co.protocols().len() + 1
                &&& after.coordinator().protocols().drop_last() == co.protocols()
                &&& after.coordinator().protocols().last() matches EmergencyProtocol::AccountFreeze { accounts }
                    && did_views(accounts@) == seq![did]
                &&& after.coordinator().frozen() == co.frozen().insert(did)
                &&& after.coordinator().globally_frozen() == co.globally_frozen()
                &&& after.ledger_state() == before.ledger_state()
            } else {
                &&& after.coordinator() == co
                &&& r is Err ==> after.ledger_state().balances() == bal
                &&& (r is Ok && credit) ==> balance_updated(
                    bal,
                    after.ledger_state().balances(),
                    did,
                    sat_add(balance_in(bal, did), amount),
                )
                &&& (r is Ok && !credit) ==> amount <= balance_in(bal, did) && balance_updated(
                    bal,
                    after.ledger_state().balances(),
                    did,
                    (balance_in(bal, did) - amount) as u64,
                )
            }
        }
    }
}

impl<L: ManaLedger> AdversarialResilientEconomics<L> {
    /// The ledger that operations reach.
    pub closed spec fn ledger_state(&self) -> L {
        self.ledger
    }

    /// The validator of operations.
    pub closed spec fn validator(&self) -> ByzantineValidator {
        self.byzantine_validator
    }

    /// The detector of gaming.
    pub closed spec fn detector(&self) -> AntiGamingDetector {
        self.anti_gaming_detector
    }

    /// The emergency protocols in force.
    pub closed spec fn coordinator(&self) -> EmergencyCoordinator {
        self.emergency_coordinator
    }

    /// The internal invariant.
    pub closed spec fn inv(&self) -> bool {
        &&& self.ledger.well_formed()
        &&& self.byzantine_validator.inv()
        &&& self.anti_gaming_detector.inv()
    }

    /// Guarded operations on `ledger`, validated by the distinct members of
    /// `validators`, with no protocol in force and nothing detected yet.
    pub fn new(ledger: L, validators: Vec<Did>) -> (r: Self)
        requires
            ledger.well_formed(),
        ensures
            r.inv(),
            r.ledger_state() == ledger,
            r.validator().validator_ids().to_set() == did_views(validators@).to_set(),
            r.validator().required() == confirmations_needed(did_views(validators@).to_set().len()),
            r.validator().history() == Map::<Seq<char>, Seq<RecordView>>::empty(),
            r.detector().tracker() == Map::<Seq<char>, (u64, Seq<OpView>)>::empty(),
            r.detector().interaction_counts() == Map::<(Seq<char>, Seq<char>), u32>::empty(),
            r.coordinator().protocols().len() == 0,
            r.coordinator().frozen() == Set::<Seq<char>>::empty(),
            !r.coordinator().globally_frozen(),
    {
        AdversarialResilientEconomics {
            ledger,
            byzantine_validator: ByzantineValidator::new(validators),
            anti_gaming_detector: AntiGamingDetector::new(),
            emergency_coordinator: EmergencyCoordinator::new(),
        }
    }

    /// The operation shared by spends and credits.
    #[verifier::loop_isolation(false)]
    fn guarded_operation(
        &mut self,
        did: &Did,
        amount: u64,
        operation_id: String,
        validator_signatures: Vec<(Did, Vec<u8>)>,
        now: u64,
        credit: bool,
    ) -> (r: Result<(), CommonError>)
        requires
            old(self).inv(),
        ensures
            final(self).inv(),
            guarded_outcome(*old(self), *final(self), did@, amount, operation_id@, validator_signatures@, now, credit, r),
    {
        proof {
            reveal_strlit("Operation blocked by emergency protocols");
            reveal_strlit("Byzantine validation failed");
            reveal_strlit("Attack detected: ");
            reveal_strlit("credit");
            reveal_strlit("spend");
        }
        if !self.emergency_coordinator.is_operation_allowed(did) {
            return Err(CommonError::PolicyDenied(String::from_str("Operation blocked by emergency protocols")));
        }
        let prefix = if credit {
            "credit:"
        } else {
            "spend:"
        };
        let head = join2(prefix, did.as_str());
        let head = head.concat(":");
        let data = text_with_number(head.as_str(), amount);
        let validation = self.byzantine_validator.validate_operation_at(
            operation_id,
            data.as_str().as_bytes(),
            validator_signatures,
            now,
        );
        let accepted = match validation {
            Ok(b) => b,
            Err(e) => return Err(e),
        };
        if !accepted {
            return Err(CommonError::PolicyDenied(String::from_str("Byzantine validation failed")));
        }
        let kind = if credit {
            String::from_str("credit")
        } else {
            String::from_str("spend")
        };
        let ghost kind_view = kind@;
        let ghost ops = tracked_after(ops_of(old(self).anti_gaming_detector.tracker(), did@), now, amount, kind_view);
        let analysis = self.anti_gaming_detector.analyze_operation_at(did, amount, kind, now);
        let mut detections = match analysis {
            Ok(v) => v,
            Err(e) => return Err(e),
        };
        let ghost mid = *self;
        while detections.len() > 0
            invariant
                detections@.len() <= 1,
                velocity_exceeded(ops) ==> detections@.len() == 1 && is_velocity_detection(detections@[0], did@, ops, now),
                !velocity_exceeded(ops) ==> detections@.len() == 0,
                *self == mid,
            decreases detections@.len(),
        {
            let ghost d0 = detections@[0];
            let detection = detections.remove(0);
            proof {
                assert(velocity_exceeded(ops));
                assert(is_velocity_detection(d0, did@, ops, now));
            }
            let AttackDetection { attack_type, confidence_permille, timestamp, affected_accounts, recommended_response } =
                detection;
            if confidence_permille > ACTION_CONFIDENCE_PERMILLE {
                let msg = join2("Attack detected: ", attack_type.describe().as_str());
                proof {
                    assert(recommended_response is AccountFreeze);
                    let accounts = recommended_response->accounts;
                    assert(did_views(accounts@) == seq![did@]);
                    assert(did_views(accounts@).len() == 1);
                    assert(did_views(accounts@)[0] == accounts@[0]@);
                    assert(accounts@.len() == 1 && accounts@[0]@ == did@);
                    assert(account_ids(accounts@) =~= Set::<Seq<char>>::empty().insert(did@)) by {
                        assert forall|k: Seq<char>| account_ids(accounts@).contains(k) implies k == did@ by {
                            let i = choose|i: int| 0 <= i < accounts@.len() && (#[trigger] accounts@[i])@ == k;
                        }
                        assert(accounts@[0]@ == did@);
                    }
                    assert(self.emergency_coordinator.frozen() == old(self).emergency_coordinator.frozen());
                }
                let ghost accs = recommended_response->accounts;
                match self.emergency_coordinator.activate_protocol(recommended_response) {
                    Ok(()) => {},
                    Err(e) => return Err(e),
                }
                proof {
                    assert(self.emergency_coordinator.frozen() == old(self).emergency_coordinator.frozen().union(
                        account_ids(accs@),
                    ));
                    assert(self.emergency_coordinator.frozen() =~= old(self).emergency_coordinator.frozen().insert(did@));
                    assert(self.emergency_coordinator.protocols().drop_last() =~= old(self).emergency_coordinator.protocols());
                }
                return Err(CommonError::PolicyDenied(msg));
            }
        }
        if credit {
            self.ledger.credit(did, amount)
        } else {
            self.ledger.spend(did, amount)
        }
    }

    /// Spend `amount` of `did`'s mana at `now`, guarded as
    /// [`guarded_outcome`] states.
    pub fn validated_spend_at(
        &mut self,
        did: &Did,
        amount: u64,
        operation_id: String,
        validator_signatures: Vec<(Did, Vec<u8>)>,
        now: u64,
    ) -> (r: Result<(), CommonError>)
        requires
            old(self).inv(),
        ensures
            final(self).inv(),
            guarded_outcome(*old(self), *final(self), did@, amount, operation_id@, validator_signatures@, now, false, r),
    {
        self.guarded_operation(did, amount, operation_id, validator_signatures, now, false)
    }

    /// Credit `amount` of mana to `did` at `now`, guarded as
    /// [`guarded_outcome`] states.
    pub fn validated_credit_at(
        &mut self,
        did: &Did,
        amount: u64,
        operation_id: String,
        validator_signatures: Vec<(Did, Vec<u8>)>,
        now: u64,
    ) -> (r: Result<(), CommonError>)
        requires
            old(self).inv(),
        ensures
            final(self).inv(),
            guarded_outcome(*old(self), *final(self), did@, amount, operation_id@, validator_signatures@, now, true, r),
    {
        self.guarded_operation(did, amount, operation_id, validator_signatures, now, true)
    }

    /// Spend at the time the system clock reads, as
    /// [`Self::validated_spend_at`] does.
    pub fn validated_spend(
        &mut self,
        did: &Did,
        amount: u64,
        operation_id: String,
        validator_signatures: Vec<(Did, Vec<u8>)>,
    ) -> (r: Result<(), CommonError>)
        requires
            old(self).inv(),
        ensures
            final(self).inv(),
            exists|now: u64|
                #[trigger] guarded_outcome(
                    *old(self),
                    *final(self),
                    did@,
                    amount,
                    operation_id@,
                    validator_signatures@,
                    now,
                    false,
                    r,
                ),
    {
        let now = unix_seconds();
        self.validated_spend_at(did, amount, operation_id, validator_signatures, now)
    }

    /// Credit at the time the system clock reads, as
    /// [`Self::validated_credit_at`] does.
    pub fn validated_credit(
        &mut self,
        did: &Did,
        amount: u64,
        operation_id: String,
        validator_signatures: Vec<(Did, Vec<u8>)>,
    ) -> (r: Result<(), CommonError>)
        requires
            old(self).inv(),
        ensures
            final(self).inv(),
            exists|now: u64|
                #[trigger] guarded_outcome(
                    *old(self),
                    *final(self),
                    did@,
                    amount,
                    operation_id@,
                    validator_signatures@,
                    now,
                    true,
                    r,
                ),
    {
        let now = unix_seconds();
        self.validated_credit_at(did, amount, operation_id, validator_signatures, now)
    }

    /// The underlying ledger.
    pub fn ledger(&self) -> (r: &L)
        ensures
            *r == self.ledger_state(),
    {
        &self.ledger
    }

    /// Attack detections still active: none are kept.
    pub fn get_active_detections(&self) -> (r: Vec<AttackDetection>)
        ensures
            r@.len() == 0,
    {
        Vec::new()
    }

    /// The emergency protocols in force.
    pub fn get_emergency_status(&self) -> (r: &EmergencyCoordinator)
        ensures
            *r == self.coordinator(),
    {
        &self.emergency_coordinator
    }
}

/// The ledger moves only for an operation that every guard let through: if a
/// guarded operation changed any balance, the account was not frozen, a
/// quorum of known validators confirmed it, and no attack was detected.
pub proof fn law_ledger_moves_only_when_all_guards_pass<L: ManaLedger>(
    before: AdversarialResilientEconomics<L>,
    after: AdversarialResilientEconomics<L>,
    did: Seq<char>,
    amount: u64,
    op: Seq<char>,
    sigs: Seq<(Did, Vec<u8>)>,
    now: u64,
    credit: bool,
    r: Result<(), CommonError>,
)
    requires
        guarded_outcome(before, after, did, amount, op, sigs, now, credit, r),
        after.ledger_state().balances() != before.ledger_state().balances(),
    ensures
        !before.coordinator().globally_frozen(),
        !before.coordinator().frozen().contains(did),
        quorum_reached(before.validator().required(), sigs, before.validator().validator_ids()),
        !velocity_exceeded(
            tracked_after(
                ops_of(before.detector().tracker(), did),
                now,
                amount,
                if credit {
                    "credit"@
                } else {
                    "spend"@
                },
            ),
        ),
        r is Ok,
{
}

/// The quorum is a two-thirds majority: for a non-empty set of validators it
/// asks for at least 67 hundredths of them, at least one, and no more than
/// there are.
pub proof fn law_quorum_is_two_thirds(n: nat)
    requires
        n >= 1,
    ensures
        1 <= confirmations_needed(n) <= n,
        100 * confirmations_needed(n) >= 67 * n,
{
    let c = (n * 67 + 99) / 100;
    assert(c <= n && 100 * c >= 67 * n && c >= 1) by (nonlinear_arith)
        requires
            c == (n * 67 + 99) / 100,
            n >= 1,
    ;
}

} // verus!
