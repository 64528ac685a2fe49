//! Collective bonus programs: programs that members join, and the bonuses
//! that a program pays its participants through the mana ledger.

use vstd::prelude::*;
use vstd::string::*;
use crate::assoc::{keys_distinct, assoc_map, lookup_or, lemma_assoc_index, lemma_assoc_absent, lemma_assoc_update, lemma_assoc_push};
use crate::clock::unix_seconds;
use crate::did::Did;
use crate::error::CommonError;
use crate::mutual_aid::GeographicalScope;
use crate::mana_ledger::{ManaLedger, did_views};
use crate::disputes::{apply_step, steps_applied};
use crate::text::join2;

verus! {

/// Types of bonus programs.
#[derive(Debug)]
pub enum BonusProgramType {
    CollectiveGoal { goal_description: String, target_metric: String },
    CooperationIncentive { cooperation_type: String },
    MutualAidBonus { aid_category: String },
    InnovationReward { innovation_areas: Vec<String> },
    SustainabilityBonus { sustainability_metrics: Vec<String> },
    CommunityBuilding { community_activities: Vec<String> },
    CrisisResponse { response_type: String },
}

/// Eligibility criteria of a bonus program; levels and scores are in
/// thousandths.
#[derive(Debug)]
pub enum EligibilityCriterion {
    MinimumParticipation { participation_type: String, minimum_level_permille: u64 },
    TrustThreshold { minimum_trust_permille: u64 },
    ContributionHistory { minimum_contributions: u64, time_period_days: u32 },
    CommunityMembership { required_communities: Vec<String> },
    SkillRequirement { required_skills: Vec<String> },
    GeographicalRequirement { geographical_scope: GeographicalScope },
}

/// A tier of a tier-based bonus; threshold and multiplier in thousandths.
#[derive(Debug)]
pub struct BonusTier {
    pub tier_name: String,
    pub threshold_permille: u64,
    pub bonus_multiplier_permille: u64,
}

/// A component of a hybrid bonus; its weight in thousandths.
#[derive(Debug)]
pub struct CalculationComponent {
    pub component_name: String,
    pub weight_permille: u64,
    pub calculation_method: String,
}

/// How a program's bonus pool is divided.
#[derive(Debug)]
pub enum BonusCalculation {
    /// The same bonus for every participant.
    EqualShare,
    ProportionalContribution { contribution_metric: String },
    TierBased { tiers: Vec<BonusTier> },
    PerformanceBased { performance_metrics: Vec<String> },
    Hybrid { calculation_components: Vec<CalculationComponent> },
}

/// How long a program runs.
#[derive(Debug)]
pub enum ProgramDuration {
    Fixed { duration_days: u32 },
    Ongoing,
    GoalBased { completion_criteria: Vec<String> },
    SeasonalRecurring { season_pattern: String },
}

/// Status of a bonus program.
#[derive(Debug, Clone, Copy, PartialEq, Eq, Structural)]
pub enum ProgramStatus {
    Planning,
    Active,
    Paused,
    Completed,
    Cancelled,
}

/// A bonus program.
#[derive(Debug)]
pub struct BonusProgram {
    pub program_id: String,
    pub program_name: String,
    pub program_type: BonusProgramType,
    pub eligibility_criteria: Vec<EligibilityCriterion>,
    pub bonus_calculation: BonusCalculation,
    pub duration: ProgramDuration,
    pub max_participants: Option<u32>,
    pub total_bonus_pool: u64,
    pub status: ProgramStatus,
}

/// Participation in one program; measures in thousandths.
#[derive(Debug)]
pub struct ProgramParticipation {
    pub program_id: String,
    pub joined_at: u64,
    pub contribution_metrics: Vec<(String, u64)>,
    pub milestone_achievements: Vec<String>,
    pub collaboration_partners: Vec<Did>,
    pub impact_measurement_permille: u64,
}

/// A bonus earned.
#[derive(Debug)]
pub struct BonusEarning {
    pub program_id: String,
    pub earning_period: (u64, u64),
    pub bonus_amount: u64,
    pub earning_reason: String,
    pub awarded_at: u64,
}

/// The participation of one member; scores in thousandths.
#[derive(Debug)]
pub struct ParticipationRecord {
    pub participant: Did,
    pub program_participations: Vec<ProgramParticipation>,
    pub overall_cooperation_score_permille: u64,
    pub bonus_earnings_history: Vec<BonusEarning>,
    pub reputation_bonuses_permille: u64,
}

/// Rules for calculating collective bonuses, each value in thousandths.
#[derive(Debug)]
struct BonusCalculationRules {
    cooperation_multipliers: Vec<(String, u64)>,
    achievement_bonuses: Vec<(String, u64)>,
    network_effect_bonuses: Vec<(String, u64)>,
    solidarity_multipliers: Vec<(String, u64)>,
}

/// Mechanisms for distributing bonuses.
#[derive(Debug)]
pub enum DistributionMechanism {
    /// Direct mana transfer.
    DirectDistribution,
    /// Bonuses staked for future release.
    StakedRewards { staking_period: u64 },
    /// Bonuses invested in community projects.
    InvestmentOptions { investment_types: Vec<String> },
    /// Participants choose how they are paid.
    ChoiceBasedDistribution { options: Vec<String> },
}

/// A bonus paid to a participant.
#[derive(Debug)]
pub struct BonusDistribution {
    pub recipient: Did,
    pub bonus_amount: u64,
    pub earning_reason: String,
    pub period_start: u64,
    pub period_end: u64,
}

/// What an earning records: program, period, amount, reason, award time.
pub type EarningView = (Seq<char>, (u64, u64), u64, Seq<char>, u64);

/// The view of an earning.
pub open spec fn earning_view(e: BonusEarning) -> EarningView {
    (e.program_id@, e.earning_period, e.bonus_amount, e.earning_reason@, e.awarded_at)
}

/// The (program, time joined) pairs of a list of participations.
pub open spec fn joined_pairs(s: Seq<ProgramParticipation>) -> Seq<(Seq<char>, u64)> {
    s.map_values(|p: ProgramParticipation| (p.program_id@, p.joined_at))
}

/// The programs a member joined, with the time of joining.
pub open spec fn joined_of(r: ParticipationRecord) -> Map<Seq<char>, u64> {
    assoc_map(joined_pairs(r.program_participations@))
}

/// The earnings of a member, oldest first.
pub open spec fn earnings_of(r: ParticipationRecord) -> Seq<EarningView> {
    r.bonus_earnings_history@.map_values(|e: BonusEarning| earning_view(e))
}

/// The (member, programs joined) pairs of a tracking table.
pub open spec fn joined_table(s: Seq<ParticipationRecord>) -> Seq<(Seq<char>, Map<Seq<char>, u64>)> {
    s.map_values(|r: ParticipationRecord| (r.participant@, joined_of(r)))
}

/// The (member, earnings) pairs of a tracking table.
pub open spec fn earnings_table(s: Seq<ParticipationRecord>) -> Seq<(Seq<char>, Seq<EarningView>)> {
    s.map_values(|r: ParticipationRecord| (r.participant@, earnings_of(r)))
}

/// No two programs of `s` share an identifier.
pub open spec fn program_ids_distinct(s: Seq<BonusProgram>) -> bool {
    forall|i: int, j: int| 0 <= i < j < s.len() ==> #[trigger] s[i].program_id@ != #[trigger] s[j].program_id@
}

/// The program of `s` with identifier `id`, if there is one.
pub open spec fn program_with_id(s: Seq<BonusProgram>, id: Seq<char>) -> Option<BonusProgram> {
    if exists|i: int| 0 <= i < s.len() && #[trigger] s[i].program_id@ == id {
        Some(s[choose|i: int| 0 <= i < s.len() && #[trigger] s[i].program_id@ == id])
    } else {
        None
    }
}

/// The programs joined once `p` joins `program` at `now`: the time of joining
/// is set, or reset where `p` had joined before.
pub open spec fn registered(
    joined: Map<Seq<char>, Map<Seq<char>, u64>>,
    p: Seq<char>,
    program: Seq<char>,
    now: u64,
) -> Map<Seq<char>, Map<Seq<char>, u64>> {
    joined.insert(p, lookup_or(joined, p, Map::<Seq<char>, u64>::empty()).insert(program, now))
}

/// Where `parts` holds program `id`, if it does.
fn participation_position(parts: &Vec<ProgramParticipation>, id: &String) -> (r: Option<usize>)
    ensures
        r matches Some(k) ==> k < parts@.len() && joined_pairs(parts@)[k as int].0 == id@,
        r is None ==> forall|k: int| 0 <= k < parts@.len() ==> #[trigger] joined_pairs(parts@)[k].0 != id@,
{
    let mut k: usize = 0;
    while k < parts.len()
        invariant
            k <= parts@.len(),
            forall|j: int| 0 <= j < k ==> #[trigger] joined_pairs(parts@)[j].0 != id@,
        decreases parts@.len() - k,
    {
        if parts[k].program_id == *id {
            return Some(k);
        }
        k = k + 1;
    }
    None
}

/// What a bonus distribution holds: recipient, amount, reason, and the
/// period it covers.
pub type DistView = (Seq<char>, u64, Seq<char>, u64, u64);

/// The views of a list of distributions.
pub open spec fn dist_views(v: Seq<BonusDistribution>) -> Seq<DistView> {
    v.map_values(
        |d: BonusDistribution| (d.recipient@, d.bonus_amount, d.earning_reason@, d.period_start, d.period_end),
    )
}

/// The members of `ps`, in order, who joined `program`.
pub open spec fn joined_in_order(
    ps: Seq<Seq<char>>,
    joined: Map<Seq<char>, Map<Seq<char>, u64>>,
    program: Seq<char>,
) -> Seq<Seq<char>>
    decreases ps.len(),
{
    if ps.len() == 0 {
        Seq::empty()
    } else {
        let prev = joined_in_order(ps.drop_last(), joined, program);
        if joined.contains_key(ps.last()) && joined[ps.last()].contains_key(program) {
            prev.push(ps.last())
        } else {
            prev
        }
    }
}

/// An hour before `now`, or zero for an earlier clock.
pub open spec fn hour_before(now: u64) -> u64 {
    if now >= 3600 {
        (now - 3600) as u64
    } else {
        0
    }
}

/// The bonuses that `program` pays to `recipients` at `now`, for the hour
/// before: an equal share of the pool each (rounded down); or, for a
/// proportional program, where every member counts as contributing 10 of a
/// total of 100, a tenth of the pool each (rounded down). Other methods are
/// not available.
pub open spec fn distribution_plan(program: BonusProgram, recipients: Seq<Seq<char>>, now: u64) -> Option<Seq<DistView>> {
    match program.bonus_calculation {
        BonusCalculation::EqualShare => Some(
            recipients.map_values(
                |p: Seq<char>|
                    (
                        p,
                        (program.total_bonus_pool as nat / recipients.len()) as u64,
                        "Equal share participation"@,
                        hour_before(now),
                        now,
                    ),
            ),
        ),
        BonusCalculation::ProportionalContribution { contribution_metric } => Some(
            recipients.map_values(
                |p: Seq<char>|
                    (
                        p,
                        (program.total_bonus_pool / 10) as u64,
                        "Proportional contribution: "@ + contribution_metric@,
                        hour_before(now),
                        now,
                    ),
            ),
        ),
        _ => None,
    }
}

/// The ledger credits that distributions make, in order.
pub open spec fn credit_steps(ds: Seq<DistView>) -> Seq<(Seq<char>, int)> {
    ds.map_values(|d: DistView| (d.0, d.1 as int))
}

/// The earnings once distributions `ds` of `program` are awarded at `now`:
/// each is added to its recipient's earnings, where the recipient is tracked.
pub open spec fn earnings_after(
    m: Map<Seq<char>, Seq<EarningView>>,
    ds: Seq<DistView>,
    program: Seq<char>,
    now: u64,
) -> Map<Seq<char>, Seq<EarningView>>
    decreases ds.len(),
{
    if ds.len() == 0 {
        m
    } else {
        let m1 = earnings_after(m, ds.drop_last(), program, now);
        let d = ds.last();
        if m1.contains_key(d.0) {
            m1.insert(d.0, m1[d.0].push((program, (d.3, d.4), d.1, d.2, now)))
        } else {
            m1
        }
    }
}

/// A program that shares its pool equally has someone to share it with.
pub open spec fn payable(s: CollectiveBonusSystem, program_id: Seq<char>) -> bool {
    program_with_id(s.programs(), program_id) matches Some(p) && p.bonus_calculation is EqualShare ==> joined_in_order(
        s.participants(),
        s.joined(),
        program_id,
    ).len() > 0
}

/// The outcome of paying program `program_id` at `now`, the system going
/// from `s` to `t` and the ledger's balances from `before` to `after`: an
/// unknown program or an unavailable method is refused with nothing paid;
/// otherwise each participant of the program, in order, is credited its
/// bonus and the earning recorded, until the ledger refuses a credit, whose
/// refusal is passed on with the earlier credits standing.
pub open spec fn bonus_outcome(
    s: CollectiveBonusSystem,
    t: CollectiveBonusSystem,
    program_id: Seq<char>,
    before: Map<Seq<char>, u64>,
    after: Map<Seq<char>, u64>,
    now: u64,
    r: Result<Vec<BonusDistribution>, CommonError>,
) -> bool {
    &&& t.programs() == s.programs()
    &&& t.participants() == s.participants()
    &&& t.joined() == s.joined()
    &&& match program_with_id(s.programs(), program_id) {
        None => (r matches Err(CommonError::InvalidInputError(m)) && m@ == "Program not found"@) && after == before
            && t.earnings() == s.earnings(),
        Some(p) => match distribution_plan(p, joined_in_order(s.participants(), s.joined(), program_id), now) {
            None => (r matches Err(CommonError::NotImplementedError(m)) && m@
                == "Bonus calculation method not implemented"@) && after == before && t.earnings() == s.earnings(),
            Some(ds) => {
                &&& r matches Ok(v) ==> dist_views(v@) == ds && steps_applied(before, after, credit_steps(ds))
                    && t.earnings() == earnings_after(s.earnings(), ds, program_id, now)
                &&& r is Err ==> exists|n: int|
                    0 <= n < ds.len() && #[trigger] steps_applied(before, after, credit_steps(ds).take(n))
                        && t.earnings() == earnings_after(s.earnings(), ds.take(n), program_id, now)
            },
        },
    }
}

/// Runs collective bonus programs.
#[derive(Debug)]
pub struct CollectiveBonusSystem {
    active_bonus_programs: Vec<BonusProgram>,
    participation_tracking: Vec<ParticipationRecord>,
    bonus_calculation_rules: BonusCalculationRules,
    distribution_mechanisms: Vec<DistributionMechanism>,
}

impl CollectiveBonusSystem {
    /// The programs, in the order they were created.
    pub closed spec fn programs(&self) -> Seq<BonusProgram> {
        self.active_bonus_programs@
    }

    /// The tracked members, in the order they first joined a program.
    pub closed spec fn participants(&self) -> Seq<Seq<char>> {
        joined_table(self.participation_tracking@).map_values(|p: (Seq<char>, Map<Seq<char>, u64>)| p.0)
    }

    /// For each tracked member, the programs joined and when.
    pub closed spec fn joined(&self) -> Map<Seq<char>, Map<Seq<char>, u64>> {
        assoc_map(joined_table(self.participation_tracking@))
    }

    /// For each tracked member, the bonuses earned.
    pub closed spec fn earnings(&self) -> Map<Seq<char>, Seq<EarningView>> {
        assoc_map(earnings_table(self.participation_tracking@))
    }

    /// The internal invariant: identifiers of programs and of members are
    /// unique, and so are the programs in each member's record.
    pub closed spec fn inv(&self) -> bool {
        &&& program_ids_distinct(self.active_bonus_programs@)
        &&& keys_distinct(joined_table(self.participation_tracking@))
        &&& forall|i: int|
            0 <= i < self.participation_tracking@.len() ==> keys_distinct(
                joined_pairs(#[trigger] self.participation_tracking@[i].program_participations@),
            )
    }

    /// A system with no program, paying bonuses directly.
    pub fn new() -> (r: CollectiveBonusSystem)
        ensures
            r.inv(),
            r.programs().len() == 0,
            r.participants().len() == 0,
            r.joined() == Map::<Seq<char>, Map<Seq<char>, u64>>::empty(),
            r.earnings() == Map::<Seq<char>, Seq<EarningView>>::empty(),
    {
        let mut mechanisms: Vec<DistributionMechanism> = Vec::new();
        mechanisms.push(DistributionMechanism::DirectDistribution);
        let r = CollectiveBonusSystem {
            active_bonus_programs: Vec::new(),
            participation_tracking: Vec::new(),
            bonus_calculation_rules: BonusCalculationRules {
                cooperation_multipliers: Vec::new(),
                achievement_bonuses: Vec::new(),
                network_effect_bonuses: Vec::new(),
                solidarity_multipliers: Vec::new(),
            },
            distribution_mechanisms: mechanisms,
        };
        proof {
            assert(joined_table(r.participation_tracking@) =~= Seq::<(Seq<char>, Map<Seq<char>, u64>)>::empty());
            assert(earnings_table(r.participation_tracking@) =~= Seq::<(Seq<char>, Seq<EarningView>)>::empty());
            assert(r.participants() =~= Seq::<Seq<char>>::empty());
        }
        r
    }

    /// Where the programs hold `id`, if they do.
    fn program_position(&self, id: &String) -> (r: Option<usize>)
        ensures
            r matches Some(k) ==> k < self.active_bonus_programs@.len() && self.active_bonus_programs@[k as int].program_id@
                == id@,
            r is None ==> forall|k: int|
                0 <= k < self.active_bonus_programs@.len() ==> #[trigger] self.active_bonus_programs@[k].program_id@ != id@,
    {
        let mut k: usize = 0;
        while k < self.active_bonus_programs.len()
            invariant
                k <= self.active_bonus_programs@.len(),
                forall|j: int| 0 <= j < k ==> #[trigger] self.active_bonus_programs@[j].program_id@ != id@,
            decreases self.active_bonus_programs@.len() - k,
        {
            if self.active_bonus_programs[k].program_id == *id {
                return Some(k);
            }
            k = k + 1;
        }
        None
    }

    /// Where the tracking table holds `participant`, if it does.
    fn record_position(&self, participant: &Did) -> (r: Option<usize>)
        ensures
            r matches Some(k) ==> k < self.participation_tracking@.len() && joined_table(self.participation_tracking@)[k as int].0
                == participant@,
            r is None ==> forall|k: int|
                0 <= k < self.participation_tracking@.len() ==> #[trigger] joined_table(self.participation_tracking@)[k].0
                    != participant@,
    {
        let mut k: usize = 0;
        while k < self.participation_tracking.len()
            invariant
                k <= self.participation_tracking@.len(),
                forall|j: int| 0 <= j < k ==> #[trigger] joined_table(self.participation_tracking@)[j].0 != participant@,
            decreases self.participation_tracking@.len() - k,
        {
            if self.participation_tracking[k].participant.same_as(participant) {
                return Some(k);
            }
            k = k + 1;
        }
        None
    }

    /// Create a program. An identifier already in use is refused with
    /// `InvalidInputError`.
    pub fn create_bonus_program(&mut self, program: BonusProgram) -> (r: Result<(), CommonError>)
        requires
            old(self).inv(),
        ensures
            final(self).inv(),
            final(self).participants() == old(self).participants(),
            final(self).joined() == old(self).joined(),
            final(self).earnings() == old(self).earnings(),
            program_with_id(old(self).programs(), program.program_id@) is Some ==> (r matches Err(
                CommonError::InvalidInputError(m),
            ) && m@ == "Program ID already exists"@) && final(self).programs() == old(self).programs(),
            program_with_id(old(self).programs(), program.program_id@) is None ==> r is Ok && final(self).programs()
                == old(self).programs().push(program),
    {
        match self.program_position(&program.program_id) {
            Some(k) => {
                proof {
                    reveal_strlit("Program ID already exists");
                    assert(self.active_bonus_programs@[k as int].program_id@ == program.program_id@);
                }
                Err(CommonError::InvalidInputError(String::from_str("Program ID already exists")))
            },
            None => {
                let ghost before = self.active_bonus_programs@;
                let ghost p = program;
                self.active_bonus_programs.push(program);
                proof {
                    assert(program_ids_distinct(self.active_bonus_programs@)) by {
                        assert forall|i: int, j: int| 0 <= i < j < self.active_bonus_programs@.len() implies #[trigger] self.active_bonus_programs@[i].program_id@
                            != #[trigger] self.active_bonus_programs@[j].program_id@ by {
                            assert(self.active_bonus_programs@[i] == before[i]);
                            if j < before.len() {
                                assert(self.active_bonus_programs@[j] == before[j]);
                            }
                        }
                    }
                }
                Ok(())
            },
        }
    }

    /// Whether a member meets a program's eligibility criteria: every member
    /// is taken as eligible.
    fn check_eligibility(&self, criteria: &Vec<EligibilityCriterion>, participant: &Did) -> (r: bool)
        ensures
            r,
    {
        true
    }

    /// Whether `participant` is tracked: has joined some program.
    pub fn is_tracked(&self, participant: &Did) -> (r: bool)
        ensures
            r == self.participants().contains(participant@),
    {
        match self.record_position(participant) {
            Some(k) => {
                proof {
                    assert(self.participants()[k as int] == participant@);
                }
                true
            },
            None => {
                proof {
                    if self.participants().contains(participant@) {
                        let k = choose|k: int| 0 <= k < self.participants().len() && self.participants()[k] == participant@;
                        assert(joined_table(self.participation_tracking@)[k].0 == participant@);
                    }
                }
                false
            },
        }
    }

    /// Register `participant` in program `program_id` at `now`. An unknown
    /// program is refused with `InvalidInputError`, one that is not active
    /// with `PolicyDenied`; otherwise the member's record (created on first
    /// joining) notes the program and the time of joining.
    pub fn register_participant_at(&mut self, program_id: &str, participant: &Did, now: u64) -> (r: Result<(), CommonError>)
        requires
            old(self).inv(),
        ensures
            final(self).inv(),
            final(self).programs() == old(self).programs(),
            match program_with_id(old(self).programs(), program_id@) {
                None => (r matches Err(CommonError::InvalidInputError(m)) && m@ == "Program not found"@) && *final(self)
                    == *old(self),
                Some(p) => if p.status != ProgramStatus::Active {
                    (r matches Err(CommonError::PolicyDenied(m)) && m@ == "Program is not active"@) && *final(self)
                        == *old(self)
                } else {
                    &&& r is Ok
                    &&& final(self).joined() == registered(old(self).joined(), participant@, program_id@, now)
                    &&& final(self).participants() == if old(self).participants().contains(participant@) {
                        old(self).participants()
                    } else {
                        old(self).participants().push(participant@)
                    }
                    &&& final(self).earnings() == if old(self).joined().contains_key(participant@) {
                        old(self).earnings()
                    } else {
                        old(self).earnings().insert(participant@, Seq::<EarningView>::empty())
                    }
                },
            },
    {
        proof {
            reveal_strlit("Program not found");
            reveal_strlit("Program is not active");
        }
        let key = program_id.to_owned();
        let ghost programs = self.active_bonus_programs@;
        let pk = match self.program_position(&key) {
            Some(k) => k,
            None => {
                return Err(CommonError::InvalidInputError(String::from_str("Program not found")));
            },
        };
        proof {
            assert(programs[pk as int].program_id@ == program_id@);
            let c = choose|i: int| 0 <= i < programs.len() && #[trigger] programs[i].program_id@ == program_id@;
            assert(c == pk);
        }
        if self.active_bonus_programs[pk].status != ProgramStatus::Active {
            return Err(CommonError::PolicyDenied(String::from_str("Program is not active")));
        }
        if !self.check_eligibility(&self.active_bonus_programs[pk].eligibility_criteria, participant) {
            return Err(CommonError::PolicyDenied(String::from_str("Participant not eligible")));
        }
        let participation = ProgramParticipation {
            program_id: key.clone(),
            joined_at: now,
            contribution_metrics: Vec::new(),
            milestone_achievements: Vec::new(),
            collaboration_partners: Vec::new(),
            impact_measurement_permille: 0,
        };
        let ghost records = self.participation_tracking@;
        let ghost jt = joined_table(records);
        let ghost et = earnings_table(records);
        proof {
            lemma_participants_are_keys(records);
        }
        match self.record_position(participant) {
            Some(k) => {
                proof {
                    lemma_assoc_index(jt, k as int);
                }
                let mut record = self.participation_tracking.remove(k);
                let ghost parts = joined_pairs(record.program_participations@);
                proof {
                    assert(keys_distinct(parts)) by {
                        assert(record == records[k as int]);
                    }
                }
                match participation_position(&record.program_participations, &key) {
                    Some(j) => {
                        record.program_participations.set(j, participation);
                        proof {
                            assert(joined_pairs(record.program_participations@) =~= parts.update(
                                j as int,
                                (parts[j as int].0, now),
                            ));
                            lemma_assoc_update(parts, j as int, now);
                        }
                    },
                    None => {
                        record.program_participations.push(participation);
                        proof {
                            assert(joined_pairs(record.program_participations@) =~= parts.push((program_id@, now)));
                            lemma_assoc_push(parts, program_id@, now);
                        }
                    },
                }
                self.participation_tracking.insert(k, record);
                proof {
                    let new_records = self.participation_tracking@;
                    assert(new_records =~= records.update(k as int, record));
                    assert(joined_table(new_records) =~= jt.update(k as int, (jt[k as int].0, joined_of(record))));
                    lemma_assoc_update(jt, k as int, joined_of(record));
                    assert(earnings_table(new_records) =~= et);
                    assert(self.participants() =~= old(self).participants());
                    assert forall|i: int| 0 <= i < new_records.len() implies keys_distinct(
                        joined_pairs(#[trigger] new_records[i].program_participations@),
                    ) by {
                        if i != k {
                            assert(new_records[i] == records[i]);
                        }
                    }
                    assert(old(self).participants().contains(participant@)) by {
                        assert(old(self).participants()[k as int] == participant@);
                    }
                }
            },
            None => {
                proof {
                    lemma_assoc_absent(jt, participant@);
                    assert forall|i: int| 0 <= i < et.len() implies #[trigger] et[i].0 != participant@ by {
                        assert(jt[i].0 == et[i].0);
                    }
                    lemma_assoc_absent(et, participant@);
                }
                let mut parts: Vec<ProgramParticipation> = Vec::new();
                parts.push(participation);
                let record = ParticipationRecord {
                    participant: participant.duplicate(),
                    program_participations: parts,
                    overall_cooperation_score_permille: 0,
                    bonus_earnings_history: Vec::new(),
                    reputation_bonuses_permille: 0,
                };
                proof {
                    assert(joined_pairs(record.program_participations@) =~= Seq::<(Seq<char>, u64)>::empty().push(
                        (program_id@, now),
                    ));
                    lemma_assoc_push(Seq::<(Seq<char>, u64)>::empty(), program_id@, now);
                    assert(assoc_map(Seq::<(Seq<char>, u64)>::empty()) =~= Map::<Seq<char>, u64>::empty());
                    assert(earnings_of(record) =~= Seq::<EarningView>::empty());
                }
                self.participation_tracking.push(record);
                proof {
                    let new_records = self.participation_tracking@;
                    assert(joined_table(new_records) =~= jt.push((participant@, joined_of(record))));
                    lemma_assoc_push(jt, participant@, joined_of(record));
                    assert(earnings_table(new_records) =~= et.push((participant@, earnings_of(record))));
                    lemma_assoc_push(et, participant@, earnings_of(record));
                    assert(self.participants() =~= old(self).participants().push(participant@));
                    assert(!old(self).participants().contains(participant@)) by {
                        if old(self).participants().contains(participant@) {
                            let i = choose|i: int| 0 <= i < old(self).participants().len() && old(self).participants()[i] == participant@;
                            assert(jt[i].0 == participant@);
                        }
                    }
                    assert forall|i: int| 0 <= i < new_records.len() implies keys_distinct(
                        joined_pairs(#[trigger] new_records[i].program_participations@),
                    ) by {
                        if i < records.len() {
                            assert(new_records[i] == records[i]);
                        }
                    }
                }
            },
        }
        Ok(())
    }

    /// Register a member at the time the system clock reads, as
    /// [`Self::register_participant_at`] does.
    pub fn register_participant(&mut self, program_id: &str, participant: &Did) -> (r: Result<(), CommonError>)
        requires
            old(self).inv(),
        ensures
            final(self).inv(),
            final(self).programs() == old(self).programs(),
            match program_with_id(old(self).programs(), program_id@) {
                None => (r matches Err(CommonError::InvalidInputError(m)) && m@ == "Program not found"@) && *final(self)
                    == *old(self),
                Some(p) => if p.status != ProgramStatus::Active {
                    (r matches Err(CommonError::PolicyDenied(m)) && m@ == "Program is not active"@) && *final(self)
                        == *old(self)
                } else {
                    &&& r is Ok
                    &&& exists|now: u64| final(self).joined() == #[trigger] registered(old(self).joined(), participant@, program_id@, now)
                    &&& final(self).participants() == if old(self).participants().contains(participant@) {
                        old(self).participants()
                    } else {
                        old(self).participants().push(participant@)
                    }
                    &&& final(self).earnings() == if old(self).joined().contains_key(participant@) {
                        old(self).earnings()
                    } else {
                        old(self).earnings().insert(participant@, Seq::<EarningView>::empty())
                    }
                },
            },
    {
        let now = unix_seconds();
        self.register_participant_at(program_id, participant, now)
    }

    /// The total contribution of the participants to a metric: counted as 100.
    fn calculate_total_contributions(&self, participants: &[Did], metric: &String) -> (r: u64)
        ensures
            r == 100,
    {
        100
    }

    /// One participant's contribution to a metric: counted as 10.
    fn get_participant_contribution(&self, participant: &Did, metric: &String) -> (r: u64)
        ensures
            r == 10,
    {
        10
    }

    /// The bonuses that `program` pays to `participants` at `now`, as
    /// [`distribution_plan`] states; an unavailable method is refused with
    /// `NotImplementedError`.
    fn calculate_bonus_distributions(&self, program: &BonusProgram, participants: &[Did], now: u64) -> (r: Result<
        Vec<BonusDistribution>,
        CommonError,
    >)
        requires
            program.bonus_calculation is EqualShare ==> participants@.len() > 0,
        ensures
            match distribution_plan(*program, did_views(participants@), now) {
                None => r matches Err(CommonError::NotImplementedError(m)) && m@
                    == "Bonus calculation method not implemented"@,
                Some(ds) => r matches Ok(v) && dist_views(v@) == ds,
            },
    {
        proof {
            reveal_strlit("Equal share participation");
            reveal_strlit("Proportional contribution: ");
            reveal_strlit("Bonus calculation method not implemented");
        }
        let mut distributions: Vec<BonusDistribution> = Vec::new();
        let current_time = now;
        let period_start: u64 = if current_time >= 3600 {
            current_time - 3600
        } else {
            0
        };
        let ghost ps = did_views(participants@);
        match &program.bonus_calculation {
            BonusCalculation::EqualShare => {
                let bonus_per_participant = program.total_bonus_pool / (participants.len() as u64);
                let ghost ds = distribution_plan(*program, ps, now)->Some_0;
                let mut i: usize = 0;
                while i < participants.len()
                    invariant
                        i <= participants@.len(),
                        ps == did_views(participants@),
                        ps.len() > 0,
                        ds == distribution_plan(*program, ps, now)->Some_0,
                        program.bonus_calculation is EqualShare,
                        bonus_per_participant == program.total_bonus_pool as nat / ps.len(),
                        period_start == hour_before(now),
                        current_time == now,
                        dist_views(distributions@) == ds.take(i as int),
                    decreases participants@.len() - i,
                {
                    let ghost before = distributions@;
                    distributions.push(
                        BonusDistribution {
                            recipient: participants[i].duplicate(),
                            bonus_amount: bonus_per_participant,
                            earning_reason: String::from_str("Equal share participation"),
                            period_start,
                            period_end: current_time,
                        },
                    );
                    proof {
                        assert(ps[i as int] == participants@[i as int]@);
                        assert(ds[i as int] == (
                            ps[i as int],
                            bonus_per_participant,
                            "Equal share participation"@,
                            period_start,
                            now,
                        ));
                        assert(dist_views(distributions@) =~= dist_views(before).push(ds[i as int]));
                        assert(ds.take(i + 1) =~= ds.take(i as int).push(ds[i as int]));
                    }
                    i = i + 1;
                }
                proof {
                    assert(ds.take(participants@.len() as int) =~= ds);
                }
            },
            BonusCalculation::ProportionalContribution { contribution_metric } => {
                let total_contributions = self.calculate_total_contributions(participants, contribution_metric);
                let ghost ds = distribution_plan(*program, ps, now)->Some_0;
                let mut i: usize = 0;
                proof {
                    assert(dist_views(distributions@) =~= ds.take(0));
                }
                while i < participants.len()
                    invariant
                        i <= participants@.len(),
                        ps == did_views(participants@),
                        ds == distribution_plan(*program, ps, now)->Some_0,
                        program.bonus_calculation == (BonusCalculation::ProportionalContribution {
                            contribution_metric: *contribution_metric,
                        }),
                        total_contributions == 100,
                        period_start == hour_before(now),
                        current_time == now,
                        dist_views(distributions@) == ds.take(i as int),
                    decreases participants@.len() - i,
                {
                    let contribution = self.get_participant_contribution(&participants[i], contribution_metric);
                    let bonus_share: u64 = if total_contributions > 0 {
                        let share = contribution as u128 * program.total_bonus_pool as u128 / total_contributions as u128;
                        proof {
                            let pool = program.total_bonus_pool;
                            assert(share == pool / 10) by (nonlinear_arith)
                                requires
                                    share == (10 * pool) / 100,
                            ;
                        }
                        share as u64
                    } else {
                        0
                    };
                    let ghost before = distributions@;
                    distributions.push(
                        BonusDistribution {
                            recipient: participants[i].duplicate(),
                            bonus_amount: bonus_share,
                            earning_reason: join2("Proportional contribution: ", contribution_metric.as_str()),
                            period_start,
                            period_end: current_time,
                        },
                    );
                    proof {
                        assert(ps[i as int] == participants@[i as int]@);
                        assert(ds[i as int] == (
                            ps[i as int],
                            bonus_share,
                            "Proportional contribution: "@ + contribution_metric@,
                            period_start,
                            now,
                        ));
                        assert(dist_views(distributions@) =~= dist_views(before).push(ds[i as int]));
                        assert(ds.take(i + 1) =~= ds.take(i as int).push(ds[i as int]));
                    }
                    i = i + 1;
                }
                proof {
                    assert(ds.take(participants@.len() as int) =~= ds);
                }
            },
            _ => {
                return Err(CommonError::NotImplementedError(String::from_str("Bonus calculation method not implemented")));
            },
        }
        Ok(distributions)
    }
    /// The tracked members, in order, who joined program `program`.
    fn participants_in(&self, program: &String) -> (r: Vec<Did>)
        requires
            self.inv(),
        ensures
            did_views(r@) == joined_in_order(self.participants(), self.joined(), program@),
    {
        let ghost records = self.participation_tracking@;
        let ghost jt = joined_table(records);
        let ghost ps = self.participants();
        let mut out: Vec<Did> = Vec::new();
        let mut i: usize = 0;
        proof {
            assert(did_views(out@) =~= joined_in_order(ps.take(0), self.joined(), program@));
        }
        while i < self.participation_tracking.len()
            invariant
                i <= records.len(),
                records == self.participation_tracking@,
                jt == joined_table(records),
                ps == self.participants(),
                self.inv(),
                did_views(out@) == joined_in_order(ps.take(i as int), self.joined(), program@),
            decreases records.len() - i,
        {
            proof {
                assert(ps.take(i + 1).drop_last() =~= ps.take(i as int));
                assert(ps.take(i + 1).last() == ps[i as int]);
                assert(ps[i as int] == jt[i as int].0);
                lemma_assoc_index(jt, i as int);
                assert(keys_distinct(joined_pairs(records[i as int].program_participations@)));
                crate::assoc::lemma_assoc_dom(joined_pairs(records[i as int].program_participations@));
            }
            let found = participation_position(&self.participation_tracking[i].program_participations, program);
            if found.is_some() {
                let ghost before = out@;
                out.push(self.participation_tracking[i].participant.duplicate());
                proof {
                    let j = found->Some_0;
                    let parts = joined_pairs(records[i as int].program_participations@);
                    assert(parts[j as int].0 == program@);
                    assert(crate::assoc::assoc_keys(parts).contains(program@));
                    assert(did_views(out@) =~= did_views(before).push(ps[i as int]));
                }
            } else {
                proof {
                    let parts = joined_pairs(records[i as int].program_participations@);
                    assert(!crate::assoc::assoc_keys(parts).contains(program@)) by {
                        if crate::assoc::assoc_keys(parts).contains(program@) {
                            let j = choose|j: int| 0 <= j < parts.len() && #[trigger] parts[j].0 == program@;
                        }
                    }
                }
            }
            i = i + 1;
        }
        proof {
            assert(ps.take(records.len() as int) =~= ps);
        }
        out
    }

    /// Add `earning` to the earnings of `recipient`, if tracked.
    fn record_earning(&mut self, recipient: &Did, earning: BonusEarning)
        requires
            old(self).inv(),
        ensures
            final(self).inv(),
            final(self).programs() == old(self).programs(),
            final(self).participants() == old(self).participants(),
            final(self).joined() == old(self).joined(),
            final(self).earnings() == if old(self).earnings().contains_key(recipient@) {
                old(self).earnings().insert(recipient@, old(self).earnings()[recipient@].push(earning_view(earning)))
            } else {
                old(self).earnings()
            },
    {
        let ghost records = self.participation_tracking@;
        let ghost jt = joined_table(records);
        let ghost et = earnings_table(records);
        proof {
            lemma_participants_are_keys(records);
        }
        match self.record_position(recipient) {
            Some(k) => {
                proof {
                    lemma_assoc_index(et, k as int);
                }
                let ghost e = earning;
                let mut record = self.participation_tracking.remove(k);
                let ghost old_record = record;
                record.bonus_earnings_history.push(earning);
                self.participation_tracking.insert(k, record);
                proof {
                    let new_records = self.participation_tracking@;
                    assert(new_records =~= records.update(k as int, record));
                    assert(earnings_of(record) =~= earnings_of(old_record).push(earning_view(e)));
                    assert(earnings_table(new_records) =~= et.update(k as int, (et[k as int].0, earnings_of(record))));
                    lemma_assoc_update(et, k as int, earnings_of(record));
                    assert(joined_of(record) == joined_of(old_record));
                    assert(joined_table(new_records) =~= jt);
                    assert(self.participants() =~= old(self).participants());
                    assert forall|i: int| 0 <= i < new_records.len() implies keys_distinct(
                        joined_pairs(#[trigger] new_records[i].program_participations@),
                    ) by {
                        if i != k {
                            assert(new_records[i] == records[i]);
                        }
                    }
                }
            },
            None => {
                proof {
                    assert forall|i: int| 0 <= i < et.len() implies #[trigger] et[i].0 != recipient@ by {
                        assert(jt[i].0 == et[i].0);
                    }
                    lemma_assoc_absent(et, recipient@);
                }
            },
        }
    }

    /// Pay the bonuses of program `program_id` at `now` through `ledger`, as
    /// [`bonus_outcome`] states.
    #[verifier::loop_isolation(false)]
    pub fn distribute_program_bonuses_at<L: ManaLedger>(&mut self, program_id: &str, ledger: &mut L, now: u64) -> (r: Result<
        Vec<BonusDistribution>,
        CommonError,
    >)
        requires
            old(self).inv(),
            old(ledger).well_formed(),
            payable(*old(self), program_id@),
        ensures
            final(self).inv(),
            final(ledger).well_formed(),
            bonus_outcome(*old(self), *final(self), program_id@, old(ledger).balances(), final(ledger).balances(), now, r),
    {
        proof {
            reveal_strlit("Program not found");
        }
        let key = program_id.to_owned();
        let ghost programs = self.active_bonus_programs@;
        let pk = match self.program_position(&key) {
            Some(k) => k,
            None => {
                return Err(CommonError::InvalidInputError(String::from_str("Program not found")));
            },
        };
        proof {
            assert(programs[pk as int].program_id@ == program_id@);
            let c = choose|i: int| 0 <= i < programs.len() && #[trigger] programs[i].program_id@ == program_id@;
            assert(c == pk);
        }
        let participants = self.participants_in(&key);
        let computed = self.calculate_bonus_distributions(&self.active_bonus_programs[pk], participants.as_slice(), now);
        let distributions = match computed {
            Ok(v) => v,
            Err(e) => return Err(e),
        };
        let ghost ds = dist_views(distributions@);
        let ghost steps = credit_steps(ds);
        let ghost before = ledger.balances();
        let ghost earnings0 = self.earnings();
        let mut i: usize = 0;
        proof {
            lemma_joined_in_order_members(self.participants(), self.joined(), program_id@);
            lemma_participants_are_keys(self.participation_tracking@);
            assert forall|k: int| 0 <= k < ds.len() implies earnings0.contains_key(#[trigger] ds[k].0) by {
                assert(ds[k].0 == did_views(participants@)[k]);
            }
            assert(steps.take(0) =~= Seq::<(Seq<char>, int)>::empty());
            assert forall|j: Seq<char>| #[trigger] crate::mana_ledger::balance_in(before, j)
                == crate::disputes::balance_after(before, steps.take(0), j) by {}
            assert(ds.take(0) =~= Seq::<DistView>::empty());
        }
        while i < distributions.len()
            invariant
                i <= distributions@.len(),
                ds == dist_views(distributions@),
                steps == credit_steps(ds),
                ledger.well_formed(),
                self.inv(),
                self.programs() == old(self).programs(),
                self.participants() == old(self).participants(),
                self.joined() == old(self).joined(),
                earnings0 == old(self).earnings(),
                steps_applied(before, ledger.balances(), steps.take(i as int)),
                self.earnings() == earnings_after(earnings0, ds.take(i as int), program_id@, now),
                forall|k: int| 0 <= k < ds.len() ==> earnings0.contains_key(#[trigger] ds[k].0),
                key@ == program_id@,
            decreases distributions@.len() - i,
        {
            let d = &distributions[i];
            proof {
                assert(steps[i as int] == (d.recipient@, d.bonus_amount as int));
            }
            match apply_step(ledger, &d.recipient, d.bonus_amount as i128, Ghost(before), Ghost(steps), Ghost(i as int)) {
                Ok(()) => {},
                Err(e) => {
                    proof {
                        assert(credit_steps(ds).take(i as int) == steps.take(i as int));
                        assert(steps_applied(before, ledger.balances(), credit_steps(ds).take(i as int)));
                        assert(0 <= i < ds.len() && steps_applied(before, ledger.balances(), credit_steps(ds).take(i as int))
                            && self.earnings() == earnings_after(earnings0, ds.take(i as int), program_id@, now));
                    }
                    return Err(e);
                },
            }
            let earning = BonusEarning {
                program_id: key.clone(),
                earning_period: (d.period_start, d.period_end),
                bonus_amount: d.bonus_amount,
                earning_reason: d.earning_reason.clone(),
                awarded_at: now,
            };
            proof {
                assert(ds.take(i + 1).drop_last() =~= ds.take(i as int));
                assert(ds.take(i + 1).last() == ds[i as int]);
                lemma_earnings_after_keys(earnings0, ds.take(i as int), program_id@, now);
                assert(self.earnings().contains_key(ds[i as int].0));
            }
            self.record_earning(&d.recipient, earning);
            i = i + 1;
        }
        proof {
            assert(ds.take(distributions@.len() as int) =~= ds);
            assert(steps.take(distributions@.len() as int) =~= steps);
        }
        Ok(distributions)
    }

    /// Pay the bonuses of a program at the time the system clock reads, as
    /// [`Self::distribute_program_bonuses_at`] does.
    pub fn distribute_program_bonuses<L: ManaLedger>(&mut self, program_id: &str, ledger: &mut L) -> (r: Result<
        Vec<BonusDistribution>,
        CommonError,
    >)
        requires
            old(self).inv(),
            old(ledger).well_formed(),
            payable(*old(self), program_id@),
        ensures
            final(self).inv(),
            final(ledger).well_formed(),
            exists|now: u64|
                #[trigger] bonus_outcome(
                    *old(self),
                    *final(self),
                    program_id@,
                    old(ledger).balances(),
                    final(ledger).balances(),
                    now,
                    r,
                ),
    {
        let now = unix_seconds();
        self.distribute_program_bonuses_at(program_id, ledger, now)
    }
}

/// The members of a tracking table are the keys of its map of programs
/// joined, and the keys of its map of earnings.
proof fn lemma_participants_are_keys(records: Seq<ParticipationRecord>)
    ensures
        assoc_map(joined_table(records)).dom() == assoc_map(earnings_table(records)).dom(),
        forall|i: int| 0 <= i < records.len() ==> #[trigger] joined_table(records)[i].0 == earnings_table(records)[i].0,
        keys_distinct(joined_table(records)) ==> keys_distinct(earnings_table(records)),
{
    assert forall|i: int, j: int| 0 <= i < j < records.len() && keys_distinct(joined_table(records)) implies #[trigger] earnings_table(
        records,
    )[i].0 != #[trigger] earnings_table(records)[j].0 by {
        assert(joined_table(records)[i].0 != joined_table(records)[j].0);
    }
    crate::assoc::lemma_assoc_dom(joined_table(records));
    crate::assoc::lemma_assoc_dom(earnings_table(records));
    assert forall|k: Seq<char>| crate::assoc::assoc_keys(joined_table(records)).contains(k) <==> crate::assoc::assoc_keys(
        earnings_table(records),
    ).contains(k) by {
        if crate::assoc::assoc_keys(joined_table(records)).contains(k) {
            let i = choose|i: int| 0 <= i < joined_table(records).len() && #[trigger] joined_table(records)[i].0 == k;
            assert(earnings_table(records)[i].0 == k);
        }
        if crate::assoc::assoc_keys(earnings_table(records)).contains(k) {
            let i = choose|i: int| 0 <= i < earnings_table(records).len() && #[trigger] earnings_table(records)[i].0 == k;
            assert(joined_table(records)[i].0 == k);
        }
    }
    assert(assoc_map(joined_table(records)).dom() =~= assoc_map(earnings_table(records)).dom());


}

/// Awarding earnings keeps the set of tracked members.
pub proof fn lemma_earnings_after_keys(
    m: Map<Seq<char>, Seq<EarningView>>,
    ds: Seq<DistView>,
    program: Seq<char>,
    now: u64,
)
    ensures
        earnings_after(m, ds, program, now).dom() == m.dom(),
    decreases ds.len(),
{
    if ds.len() > 0 {
        lemma_earnings_after_keys(m, ds.drop_last(), program, now);
        let m1 = earnings_after(m, ds.drop_last(), program, now);
        if m1.contains_key(ds.last().0) {
            assert(m1.insert(ds.last().0, m1[ds.last().0].push((program, (ds.last().3, ds.last().4), ds.last().1, ds.last().2, now))).dom() =~= m1.dom());
        }
    }
}

/// Every member listed as having joined a program is tracked.
pub proof fn lemma_joined_in_order_members(
    ps: Seq<Seq<char>>,
    joined: Map<Seq<char>, Map<Seq<char>, u64>>,
    program: Seq<char>,
)
    ensures
        forall|k: int|
            0 <= k < joined_in_order(ps, joined, program).len() ==> joined.contains_key(
                #[trigger] joined_in_order(ps, joined, program)[k],
            ),
    decreases ps.len(),
{
    if ps.len() > 0 {
        lemma_joined_in_order_members(ps.drop_last(), joined, program);
        let prev = joined_in_order(ps.drop_last(), joined, program);
        assert forall|k: int| 0 <= k < joined_in_order(ps, joined, program).len() implies joined.contains_key(
            #[trigger] joined_in_order(ps, joined, program)[k],
        ) by {
            if k < prev.len() {
                assert(joined_in_order(ps, joined, program)[k] == prev[k]);
            }
        }
    }
}

/// The total that distributions pay.
pub open spec fn plan_total(ds: Seq<DistView>) -> nat
    decreases ds.len(),
{
    if ds.len() == 0 {
        0
    } else {
        plan_total(ds.drop_last()) + ds.last().1 as nat
    }
}

/// Distributions that all pay `c` pay `c` times their number.
proof fn lemma_plan_total_constant(ds: Seq<DistView>, c: u64)
    requires
        forall|i: int| 0 <= i < ds.len() ==> (#[trigger] ds[i]).1 == c,
    ensures
        plan_total(ds) == ds.len() * c,
    decreases ds.len(),
{
    if ds.len() > 0 {
        lemma_plan_total_constant(ds.drop_last(), c);
        assert(ds.last() == ds[ds.len() - 1]);
        assert((ds.len() - 1) * c + c == ds.len() * c) by (nonlinear_arith);
    }
}

/// An equal-share program pays every participant the same, and never more
/// in all than its pool.
pub proof fn law_equal_share_within_pool(program: BonusProgram, recipients: Seq<Seq<char>>, now: u64)
    requires
        program.bonus_calculation is EqualShare,
        recipients.len() > 0,
    ensures
        distribution_plan(program, recipients, now) matches Some(ds) && ds.len() == recipients.len() && (forall|i: int|
            0 <= i < ds.len() ==> (#[trigger] ds[i]).1 == program.total_bonus_pool as nat / recipients.len()) && plan_total(ds)
            <= program.total_bonus_pool,
{
    let ds = distribution_plan(program, recipients, now)->Some_0;
    let n = recipients.len();
    let c = (program.total_bonus_pool as nat / n) as u64;
    assert forall|i: int| 0 <= i < ds.len() implies (#[trigger] ds[i]).1 == c by {}
    lemma_plan_total_constant(ds, c);
    let pool = program.total_bonus_pool as nat;
    assert(n * (pool / n) <= pool) by (nonlinear_arith)
        requires
            n > 0,
    ;
}

} // verus!
