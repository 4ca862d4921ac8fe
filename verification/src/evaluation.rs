//! Candidate evaluation: the staged plan a new bot is evaluated under, its
//! validation, and the choice of the next evaluation match.
use vstd::prelude::*;
use crate::config::GameConfig;
use crate::domain::ids::BotId;
use crate::db::StageProgress;
use crate::lookup::{count_of, counts_bounded};
use crate::orderings::{seat_orderings, seat_orderings_exec, bots_of};
use crate::sorting::{is_sorted_order, sort_pairs};
use crate::text::text_is_blank;
use crate::lookup::{count_by_bot, count_by_encounter, count_by_player_count, count_by_stage_candidate, count_by_stage_player_count, lemma_count_of_bounded};

verus! {

/// Where the seeds of a stage come from.
#[derive(Debug, Clone)]
pub enum SeedSourceConfig {
    /// The plan's generated seed suite.
    GeneratedStatic,
    /// A fixed list of seeds.
    Curated { seeds: Vec<i64> },
    /// A new random seed for every match.
    FreshRandom,
}

/// When a stage counts as complete. Weights are stored as the bit patterns
/// of IEEE-754 doubles, one per benchmark, in increasing benchmark order.
#[derive(Debug, Clone)]
pub enum CoveragePolicyConfig {
    /// Complete once the candidate met every benchmark `target` times.
    PerBenchmark { target: u64 },
    /// Complete once the candidate played `target` matches in the stage.
    Total { target: u64 },
    /// Like `Total`; opponents are chosen by weighted encounter counts.
    WeightedTotal { target: u64, weights: Vec<(i64, u64)> },
}

/// One stage of an evaluation plan.
#[derive(Debug, Clone)]
pub struct EvaluationStageConfig {
    pub name: String,
    pub seed_source: SeedSourceConfig,
    pub coverage: CoveragePolicyConfig,
    pub min_players: Option<u32>,
    pub max_players: Option<u32>,
}

/// The evaluation section of the arena configuration.
#[derive(Debug, Clone)]
pub struct EvaluationConfig {
    pub enabled_on_start: Option<bool>,
    pub generated_seeds: Vec<i64>,
    pub stages: Vec<EvaluationStageConfig>,
}

/// A stored, immutable revision of an evaluation plan.
#[derive(Debug, Clone)]
pub struct EvaluationPlanRevision {
    pub id: i64,
    pub generated_seeds: Vec<i64>,
    pub stages: Vec<EvaluationStageRevision>,
}

/// A stored revision of one stage.
#[derive(Debug, Clone)]
pub struct EvaluationStageRevision {
    pub id: i64,
    pub config: EvaluationStageConfig,
}

/// Why a stage configuration was refused.
#[derive(Debug, Clone, Copy, PartialEq, Eq, Structural)]
pub enum StageConfigError {
    /// The name is empty or only whitespace.
    BlankName,
    /// The player-count range leaves the game's range.
    PlayersOutsideGame,
    /// `max_players` is below `min_players`.
    MaxBelowMin,
    /// A static seed source holds no seed.
    NoStaticSeeds,
    /// The coverage target is 0.
    ZeroTarget,
    /// A weight is not a positive finite number.
    NonPositiveWeight,
}

/// Why an evaluation configuration was refused.
#[derive(Debug, Clone, Copy, PartialEq, Eq, Structural)]
pub enum EvaluationConfigError {
    /// There is no stage.
    NoStages,
    /// A generated seed occurs twice.
    DuplicateSeeds,
    /// The stage at 1-based position `stage` is invalid.
    InvalidStage { stage: usize, reason: StageConfigError },
}

impl CoveragePolicyConfig {
    pub open spec fn spec_target(&self) -> u64 {
        match self {
            CoveragePolicyConfig::PerBenchmark { target } => *target,
            CoveragePolicyConfig::Total { target } => *target,
            CoveragePolicyConfig::WeightedTotal { target, .. } => *target,
        }
    }

    /// The coverage target of the stage.
    pub fn target(&self) -> (r: u64)
        ensures
            r == self.spec_target(),
    {
        match self {
            CoveragePolicyConfig::PerBenchmark { target } => *target,
            CoveragePolicyConfig::Total { target } => *target,
            CoveragePolicyConfig::WeightedTotal { target, .. } => *target,
        }
    }
}

/// Bit patterns of the doubles that are finite and greater than zero.
pub open spec fn is_positive_finite_bits(bits: u64) -> bool {
    0 < bits && bits < 0x7ff0_0000_0000_0000
}

/// The outcome of checking one stage against the game and the plan's
/// generated seeds.
pub open spec fn stage_check(stage: EvaluationStageConfig, game: GameConfig, generated_seeds: Seq<i64>) -> Result<(), StageConfigError> {
    let min_players = match stage.min_players { Some(v) => v, None => game.min_players };
    let max_players = match stage.max_players { Some(v) => v, None => game.max_players };
    if crate::text::is_blank(stage.name@) {
        Err(StageConfigError::BlankName)
    } else if min_players < game.min_players || max_players > game.max_players {
        Err(StageConfigError::PlayersOutsideGame)
    } else if min_players > max_players {
        Err(StageConfigError::MaxBelowMin)
    } else if match stage.seed_source {
        SeedSourceConfig::GeneratedStatic => generated_seeds.len() == 0,
        SeedSourceConfig::Curated { seeds } => seeds@.len() == 0,
        SeedSourceConfig::FreshRandom => false,
    } {
        Err(StageConfigError::NoStaticSeeds)
    } else if stage.coverage.spec_target() == 0 {
        Err(StageConfigError::ZeroTarget)
    } else if match stage.coverage {
        CoveragePolicyConfig::WeightedTotal { weights, .. } => exists|i: int|
            0 <= i < weights@.len() && !is_positive_finite_bits(#[trigger] weights@[i].1),
        _ => false,
    } {
        Err(StageConfigError::NonPositiveWeight)
    } else {
        Ok(())
    }
}

/// First stage (0-based, from `from` on) that fails its check.
pub open spec fn first_invalid_stage(stages: Seq<EvaluationStageConfig>, game: GameConfig, seeds: Seq<i64>, from: int) -> Option<(int, StageConfigError)>
    decreases stages.len() - from,
{
    if from < 0 || from >= stages.len() {
        None
    } else {
        match stage_check(stages[from], game, seeds) {
            Err(e) => Some((from, e)),
            Ok(()) => first_invalid_stage(stages, game, seeds, from + 1),
        }
    }
}

/// The outcome of validating an evaluation configuration.
pub open spec fn evaluation_check(config: EvaluationConfig, game: GameConfig) -> Result<(), EvaluationConfigError> {
    if config.stages@.len() == 0 {
        Err(EvaluationConfigError::NoStages)
    } else if !config.generated_seeds@.no_duplicates() {
        Err(EvaluationConfigError::DuplicateSeeds)
    } else {
        match first_invalid_stage(config.stages@, game, config.generated_seeds@, 0) {
            Some((index, reason)) => Err(EvaluationConfigError::InvalidStage { stage: (index + 1) as usize, reason }),
            None => Ok(()),
        }
    }
}

/// Whether a list of seeds holds no value twice.
pub fn seeds_are_unique(seeds: &Vec<i64>) -> (r: bool)
    ensures
        r == seeds@.no_duplicates(),
{
    let mut i: usize = 0;
    while i < seeds.len()
        invariant
            0 <= i <= seeds.len(),
            forall|a: int, b: int| 0 <= a < b < seeds@.len() && a < i ==> seeds@[a] != seeds@[b],
        decreases seeds.len() - i,
    {
        let mut j: usize = i + 1;
        while j < seeds.len()
            invariant
                i < seeds.len(),
                i + 1 <= j <= seeds.len(),
                forall|a: int, b: int| 0 <= a < b < seeds@.len() && a < i ==> seeds@[a] != seeds@[b],
                forall|b: int| i < b < j ==> seeds@[i as int] != seeds@[b],
            decreases seeds.len() - j,
        {
            if seeds[i] == seeds[j] {
                return false;
            }
            j += 1;
        }
        i += 1;
    }
    true
}

impl EvaluationStageConfig {
    fn validate(&self, game: &GameConfig, generated_seeds: &Vec<i64>) -> (r: Result<(), StageConfigError>)
        ensures
            r == stage_check(*self, *game, generated_seeds@),
    {
        if text_is_blank(self.name.as_str()) {
            return Err(StageConfigError::BlankName);
        }
        let min_players = match self.min_players { Some(v) => v, None => game.min_players };
        let max_players = match self.max_players { Some(v) => v, None => game.max_players };
        if min_players < game.min_players || max_players > game.max_players {
            return Err(StageConfigError::PlayersOutsideGame);
        }
        if min_players > max_players {
            return Err(StageConfigError::MaxBelowMin);
        }
        let no_seeds = match &self.seed_source {
            SeedSourceConfig::GeneratedStatic => generated_seeds.len() == 0,
            SeedSourceConfig::Curated { seeds } => seeds.len() == 0,
            SeedSourceConfig::FreshRandom => false,
        };
        if no_seeds {
            return Err(StageConfigError::NoStaticSeeds);
        }
        if self.coverage.target() == 0 {
            return Err(StageConfigError::ZeroTarget);
        }
        if let CoveragePolicyConfig::WeightedTotal { weights, .. } = &self.coverage {
            let mut i: usize = 0;
            #[verifier::loop_isolation(false)]
            while i < weights.len()
                invariant
                    0 <= i <= weights.len(),
                    forall|j: int| 0 <= j < i ==> is_positive_finite_bits(#[trigger] weights@[j].1),
                decreases weights.len() - i,
            {
                let bits = weights[i].1;
                if !(0 < bits && bits < 0x7ff0_0000_0000_0000) {
                    assert(!is_positive_finite_bits(weights@[i as int].1));
                    assert(stage_check(*self, *game, generated_seeds@) == Err::<(), StageConfigError>(StageConfigError::NonPositiveWeight));
                    return Err(StageConfigError::NonPositiveWeight);
                }
                i += 1;
            }
        }
        Ok(())
    }
}

impl EvaluationConfig {
    /// Checks the configuration against the game: at least one stage,
    /// unique generated seeds, and every stage valid (the first invalid one
    /// is reported).
    pub fn validate(&self, game: &GameConfig) -> (r: Result<(), EvaluationConfigError>)
        ensures
            r == evaluation_check(*self, *game),
    {
        if self.stages.len() == 0 {
            return Err(EvaluationConfigError::NoStages);
        }
        if !seeds_are_unique(&self.generated_seeds) {
            return Err(EvaluationConfigError::DuplicateSeeds);
        }
        let mut index: usize = 0;
        while index < self.stages.len()
            invariant
                0 <= index <= self.stages@.len(),
                self.stages@.len() > 0,
                self.generated_seeds@.no_duplicates(),
                first_invalid_stage(self.stages@, *game, self.generated_seeds@, 0)
                    == first_invalid_stage(self.stages@, *game, self.generated_seeds@, index as int),
            decreases self.stages.len() - index,
        {
            match self.stages[index].validate(game, &self.generated_seeds) {
                Err(reason) => {
                    assert(first_invalid_stage(self.stages@, *game, self.generated_seeds@, index as int)
                        == Some((index as int, reason)));
                    assert(evaluation_check(*self, *game) == Err::<(), EvaluationConfigError>(EvaluationConfigError::InvalidStage { stage: (index + 1) as usize, reason }));
                    return Err(EvaluationConfigError::InvalidStage { stage: index + 1, reason });
                },
                Ok(()) => {},
            }
            index += 1;
        }
        Ok(())
    }
}


/// Evaluation matches queued but not yet played. The lists stand for maps:
/// each key occurs once.
#[derive(Debug, Clone)]
pub struct ScheduledEvaluationCounts {
    pub matches_by_stage_candidate: Vec<((i64, BotId), u64)>,
    pub encounters: Vec<((i64, BotId, BotId), u64)>,
    pub matches_by_player_count: Vec<((i64, BotId, u32), u64)>,
}

impl Default for ScheduledEvaluationCounts {
    fn default() -> (r: ScheduledEvaluationCounts)
        ensures
            r.matches_by_stage_candidate@.len() == 0,
            r.encounters@.len() == 0,
            r.matches_by_player_count@.len() == 0,
    {
        ScheduledEvaluationCounts {
            matches_by_stage_candidate: Vec::new(),
            encounters: Vec::new(),
            matches_by_player_count: Vec::new(),
        }
    }
}

/// One evaluation match to enqueue.
#[derive(Debug, Clone)]
pub struct EvaluationMatch {
    pub candidate_id: BotId,
    pub stage_revision_id: i64,
    pub bot_ids: Vec<BotId>,
    pub seed: i64,
}

/// Largest counter the scheduler adds up without overflow.
pub open spec fn counter_limit() -> u64 {
    0x3fff_ffff_ffff_ffff
}

/// Position of the first progress entry of a stage, searching from `from`.
pub open spec fn progress_index(progress: Seq<(i64, StageProgress)>, stage_id: i64, from: int) -> Option<int>
    decreases progress.len() - from,
{
    if from < 0 || from >= progress.len() {
        None
    } else if progress[from].0 == stage_id {
        Some(from)
    } else {
        progress_index(progress, stage_id, from + 1)
    }
}

/// Recorded progress of a stage; `None` reads as nothing played.
pub open spec fn progress_of(progress: Seq<(i64, StageProgress)>, stage_id: i64) -> Option<StageProgress> {
    match progress_index(progress, stage_id, 0) {
        Some(i) => Some(progress[i].1),
        None => None,
    }
}

pub open spec fn done_matches(p: Option<StageProgress>) -> u64 {
    match p {
        Some(p) => p.matches,
        None => 0,
    }
}

pub open spec fn done_encounters(p: Option<StageProgress>) -> Seq<(BotId, u64)> {
    match p {
        Some(p) => p.encounters@,
        None => Seq::empty(),
    }
}

pub open spec fn done_by_player_count(p: Option<StageProgress>) -> Seq<(u32, u64)> {
    match p {
        Some(p) => p.matches_by_player_count@,
        None => Seq::empty(),
    }
}

/// Matches of the candidate against `opponent` in a stage, played or queued.
pub open spec fn encounter_count(p: Option<StageProgress>, queued: ScheduledEvaluationCounts, stage_id: i64, candidate: BotId, opponent: BotId) -> int {
    count_of(done_encounters(p), opponent) + count_of(queued.encounters@, (stage_id, candidate, opponent))
}

/// Matches of the candidate in a stage, played or queued.
pub open spec fn stage_sequence(p: Option<StageProgress>, queued: ScheduledEvaluationCounts, stage_id: i64, candidate: BotId) -> int {
    done_matches(p) + count_of(queued.matches_by_stage_candidate@, (stage_id, candidate))
}

/// Matches of the candidate in a stage with `players` players, played or queued.
pub open spec fn player_count_load(p: Option<StageProgress>, queued: ScheduledEvaluationCounts, stage_id: i64, candidate: BotId, players: u32) -> int {
    count_of(done_by_player_count(p), players) + count_of(queued.matches_by_player_count@, (stage_id, candidate, players))
}

/// Whether a stage's coverage target is met.
pub open spec fn stage_is_complete(stage: EvaluationStageRevision, p: Option<StageProgress>, queued: ScheduledEvaluationCounts, candidate: BotId, benchmarks: Seq<BotId>) -> bool {
    match stage.config.coverage {
        CoveragePolicyConfig::PerBenchmark { target } => benchmarks.len() > 0 && forall|i: int|
            0 <= i < benchmarks.len() ==> encounter_count(p, queued, stage.id, candidate, #[trigger] benchmarks[i]) >= target,
        CoveragePolicyConfig::Total { target } => stage_sequence(p, queued, stage.id, candidate) >= target,
        CoveragePolicyConfig::WeightedTotal { target, .. } => stage_sequence(p, queued, stage.id, candidate) >= target,
    }
}

pub open spec fn stage_complete_at(plan: EvaluationPlanRevision, progress: Seq<(i64, StageProgress)>, queued: ScheduledEvaluationCounts, candidate: BotId, benchmarks: Seq<BotId>, k: int) -> bool {
    stage_is_complete(plan.stages@[k], progress_of(progress, plan.stages@[k].id), queued, candidate, benchmarks)
}

/// The first stage, from `from` on, whose coverage target is not met.
pub open spec fn first_incomplete_stage(plan: EvaluationPlanRevision, progress: Seq<(i64, StageProgress)>, queued: ScheduledEvaluationCounts, candidate: BotId, benchmarks: Seq<BotId>, from: int) -> Option<int>
    decreases plan.stages@.len() - from,
{
    if from < 0 || from >= plan.stages@.len() {
        None
    } else if !stage_complete_at(plan, progress, queued, candidate, benchmarks, from) {
        Some(from)
    } else {
        first_incomplete_stage(plan, progress, queued, candidate, benchmarks, from + 1)
    }
}

pub open spec fn stage_min_players(stage: EvaluationStageRevision, game: GameConfig) -> u32 {
    match stage.config.min_players {
        Some(v) => v,
        None => game.min_players,
    }
}

pub open spec fn stage_max_players(stage: EvaluationStageRevision, game: GameConfig) -> u32 {
    match stage.config.max_players {
        Some(v) => v,
        None => game.max_players,
    }
}

/// A match of `players` players needs that many distinct bots: the
/// candidate and its opponents.
pub open spec fn enough_bots(benchmark_count: int, players: u32) -> bool {
    benchmark_count + 1 >= players
}

/// `players` is the player count chosen for the stage: the least-played
/// count within the stage's range that enough bots can fill, the smallest
/// such count on ties.
pub open spec fn is_chosen_player_count(stage: EvaluationStageRevision, game: GameConfig, p: Option<StageProgress>, queued: ScheduledEvaluationCounts, candidate: BotId, benchmark_count: int, players: u32) -> bool {
    &&& stage_min_players(stage, game) <= players <= stage_max_players(stage, game)
    &&& enough_bots(benchmark_count, players)
    &&& forall|q: u32|
        stage_min_players(stage, game) <= q <= stage_max_players(stage, game) && enough_bots(benchmark_count, q)
            ==> player_count_load(p, queued, stage.id, candidate, players) <= #[trigger] player_count_load(p, queued, stage.id, candidate, q)
    &&& forall|q: u32|
        stage_min_players(stage, game) <= q < players && enough_bots(benchmark_count, q)
            ==> player_count_load(p, queued, stage.id, candidate, players) < #[trigger] player_count_load(p, queued, stage.id, candidate, q)
}

/// Whether the stage is a weighted-coverage stage.
pub open spec fn is_weighted(stage: EvaluationStageRevision) -> bool {
    stage.config.coverage is WeightedTotal
}

/// Each benchmark paired with the key it is ordered by: its encounter count,
/// or, in a weighted stage, the order key that the caller computed for it.
pub open spec fn opponent_keys(stage: EvaluationStageRevision, p: Option<StageProgress>, queued: ScheduledEvaluationCounts, candidate: BotId, benchmarks: Seq<BotId>, weighted_keys: Seq<i64>) -> Seq<(i128, i64)> {
    Seq::new(benchmarks.len(), |i: int| (
        if is_weighted(stage) { weighted_keys[i] as i128 } else { encounter_count(p, queued, stage.id, candidate, benchmarks[i]) as i128 },
        benchmarks[i].0,
    ))
}

/// The candidate followed by the first `players - 1` opponents of the order.
pub open spec fn lineup(candidate: BotId, sorted: Seq<(i128, i64)>, players: u32) -> Seq<BotId> {
    seq![candidate] + bots_of(sorted.map_values(|pair: (i128, i64)| pair.1)).take(players - 1)
}

/// Whether the stage's seed source has a seed to offer.
pub open spec fn has_seeds(stage: EvaluationStageRevision, plan: EvaluationPlanRevision) -> bool {
    match stage.config.seed_source {
        SeedSourceConfig::GeneratedStatic => plan.generated_seeds@.len() > 0,
        SeedSourceConfig::Curated { seeds } => seeds@.len() > 0,
        SeedSourceConfig::FreshRandom => true,
    }
}

/// The seed of the `sequence`-th match of a stage: static sources cycle
/// through their seeds, a fresh-random source uses `fresh_seed`.
pub open spec fn stage_seed(stage: EvaluationStageRevision, plan: EvaluationPlanRevision, sequence: u64, fresh_seed: i64) -> i64 {
    match stage.config.seed_source {
        SeedSourceConfig::GeneratedStatic => plan.generated_seeds@[((sequence as usize) as int) % (plan.generated_seeds@.len() as int)],
        SeedSourceConfig::Curated { seeds } => seeds@[((sequence as usize) as int) % (seeds@.len() as int)],
        SeedSourceConfig::FreshRandom => fresh_seed,
    }
}

/// `r` holds the matches of `lineup`: the lineup itself in a symmetric
/// game, one match per seat ordering otherwise.
pub open spec fn matches_of_lineup(r: Seq<EvaluationMatch>, candidate: BotId, stage_id: i64, lineup: Seq<BotId>, seed: i64, symmetric: bool) -> bool {
    &&& forall|i: int| 0 <= i < r.len() ==> (#[trigger] r[i]).candidate_id == candidate && r[i].stage_revision_id == stage_id && r[i].seed == seed
    &&& if symmetric {
        r.len() == 1 && r[0].bot_ids@ == lineup
    } else {
        &&& r.len() == seat_orderings(lineup).len()
        &&& forall|i: int| 0 <= i < r.len() ==> (#[trigger] r[i]).bot_ids@ == seat_orderings(lineup)[i]
        &&& lineup.no_duplicates() ==> crate::orderings::all_seat_orderings(seat_orderings(lineup), lineup)
    }
}

/// Every counter the scheduler reads stays within `counter_limit()`.
pub open spec fn counters_bounded(progress: Seq<(i64, StageProgress)>, queued: ScheduledEvaluationCounts) -> bool {
    &&& forall|i: int| 0 <= i < progress.len() ==> {
        &&& (#[trigger] progress[i]).1.matches <= counter_limit()
        &&& counts_bounded(progress[i].1.encounters@, counter_limit())
        &&& counts_bounded(progress[i].1.matches_by_player_count@, counter_limit())
    }
    &&& counts_bounded(queued.matches_by_stage_candidate@, counter_limit())
    &&& counts_bounded(queued.encounters@, counter_limit())
    &&& counts_bounded(queued.matches_by_player_count@, counter_limit())
}

/// The inputs on which scheduling does not panic: the chosen player count
/// leaves room for the candidate and the chosen stage has a seed to use.
pub open spec fn scheduling_defined(game: GameConfig, plan: EvaluationPlanRevision, candidate: BotId, benchmarks: Seq<BotId>, progress: Seq<(i64, StageProgress)>, queued: ScheduledEvaluationCounts) -> bool {
    match first_incomplete_stage(plan, progress, queued, candidate, benchmarks, 0) {
        None => true,
        Some(k) => forall|players: u32|
            is_chosen_player_count(plan.stages@[k], game, progress_of(progress, plan.stages@[k].id), queued, candidate, benchmarks.len() as int, players)
                ==> players >= 1 && has_seeds(plan.stages@[k], plan),
    }
}

proof fn lemma_progress_index_range(progress: Seq<(i64, StageProgress)>, stage_id: i64, from: int)
    ensures
        progress_index(progress, stage_id, from) matches Some(i) ==> from <= i < progress.len() && progress[i].0 == stage_id,
    decreases progress.len() - from,
{
    if from >= 0 && from < progress.len() && progress[from].0 != stage_id {
        lemma_progress_index_range(progress, stage_id, from + 1);
    }
}

/// Position of the recorded progress of a stage.
fn find_progress(progress: &Vec<(i64, StageProgress)>, stage_id: i64) -> (r: Option<usize>)
    ensures
        r matches Some(i) ==> progress_index(progress@, stage_id, 0) == Some(i as int) && i < progress@.len(),
        r is None ==> progress_index(progress@, stage_id, 0) is None,
{
    let mut i: usize = 0;
    while i < progress.len()
        invariant
            0 <= i <= progress.len(),
            progress_index(progress@, stage_id, 0) == progress_index(progress@, stage_id, i as int),
        decreases progress.len() - i,
    {
        if progress[i].0 == stage_id {
            return Some(i);
        }
        i += 1;
    }
    None
}

fn stage_entry<'a>(progress: &'a Vec<(i64, StageProgress)>, stage_id: i64) -> (r: Option<&'a StageProgress>)
    ensures
        (match r { Some(p) => Some(*p), None => None::<StageProgress> }) == progress_of(progress@, stage_id),
        r matches Some(p) ==> exists|i: int| 0 <= i < progress@.len() && progress@[i].1 == *p,
{
    proof {
        lemma_progress_index_range(progress@, stage_id, 0);
    }
    match find_progress(progress, stage_id) {
        Some(i) => {
            assert(progress_index(progress@, stage_id, 0) == Some(i as int));
            assert(progress_of(progress@, stage_id) == Some(progress@[i as int].1));
            Some(&progress[i].1)
        },
        None => {
            assert(progress_index(progress@, stage_id, 0) is None);
            None
        },
    }
}

/// The recorded progress of a stage has bounded counters.
pub open spec fn entry_bounded(p: Option<StageProgress>) -> bool {
    &&& done_matches(p) <= counter_limit()
    &&& counts_bounded(done_encounters(p), counter_limit())
    &&& counts_bounded(done_by_player_count(p), counter_limit())
}

fn encounters_with(p: Option<&StageProgress>, queued: &ScheduledEvaluationCounts, stage_id: i64, candidate: BotId, opponent: BotId) -> (r: u64)
    requires
        entry_bounded(match p { Some(p) => Some(*p), None => None::<StageProgress> }),
        counts_bounded(queued.encounters@, counter_limit()),
    ensures
        r == encounter_count(match p { Some(p) => Some(*p), None => None::<StageProgress> }, *queued, stage_id, candidate, opponent),
        r <= 2 * counter_limit(),
{
    let ghost pe = match p { Some(p) => Some(*p), None => None::<StageProgress> };
    let done = match p {
        Some(p) => count_by_bot(&p.encounters, opponent),
        None => 0,
    };
    let pending = count_by_encounter(&queued.encounters, stage_id, candidate, opponent);
    proof {
        lemma_count_of_bounded(done_encounters(pe), opponent, counter_limit());
        lemma_count_of_bounded(queued.encounters@, (stage_id, candidate, opponent), counter_limit());
    }
    done + pending
}

fn sequence_of(p: Option<&StageProgress>, queued: &ScheduledEvaluationCounts, stage_id: i64, candidate: BotId) -> (r: u64)
    requires
        entry_bounded(match p { Some(p) => Some(*p), None => None::<StageProgress> }),
        counts_bounded(queued.matches_by_stage_candidate@, counter_limit()),
    ensures
        r == stage_sequence(match p { Some(p) => Some(*p), None => None::<StageProgress> }, *queued, stage_id, candidate),
{
    let done = match p {
        Some(p) => p.matches,
        None => 0,
    };
    let pending = count_by_stage_candidate(&queued.matches_by_stage_candidate, stage_id, candidate);
    proof {
        lemma_count_of_bounded(queued.matches_by_stage_candidate@, (stage_id, candidate), counter_limit());
    }
    done + pending
}

fn load_of(p: Option<&StageProgress>, queued: &ScheduledEvaluationCounts, stage_id: i64, candidate: BotId, players: u32) -> (r: u64)
    requires
        entry_bounded(match p { Some(p) => Some(*p), None => None::<StageProgress> }),
        counts_bounded(queued.matches_by_player_count@, counter_limit()),
    ensures
        r == player_count_load(match p { Some(p) => Some(*p), None => None::<StageProgress> }, *queued, stage_id, candidate, players),
{
    let ghost pe = match p { Some(p) => Some(*p), None => None::<StageProgress> };
    let done = match p {
        Some(p) => count_by_player_count(&p.matches_by_player_count, players),
        None => 0,
    };
    let pending = count_by_stage_player_count(&queued.matches_by_player_count, stage_id, candidate, players);
    proof {
        lemma_count_of_bounded(done_by_player_count(pe), players, counter_limit());
        lemma_count_of_bounded(queued.matches_by_player_count@, (stage_id, candidate, players), counter_limit());
    }
    done + pending
}

#[verifier::loop_isolation(false)]
fn stage_complete(stage: &EvaluationStageRevision, p: Option<&StageProgress>, queued: &ScheduledEvaluationCounts, candidate: BotId, benchmarks: &[BotId]) -> (r: bool)
    requires
        entry_bounded(match p { Some(p) => Some(*p), None => None::<StageProgress> }),
        counters_bounded(Seq::empty(), *queued),
    ensures
        r == stage_is_complete(*stage, match p { Some(p) => Some(*p), None => None::<StageProgress> }, *queued, candidate, benchmarks@),
{
    match &stage.config.coverage {
        CoveragePolicyConfig::PerBenchmark { target } => {
            if benchmarks.len() == 0 {
                return false;
            }
            let mut i: usize = 0;
            while i < benchmarks.len()
                invariant
                    0 <= i <= benchmarks.len(),
                    entry_bounded(match p { Some(p) => Some(*p), None => None::<StageProgress> }),
                    counters_bounded(Seq::empty(), *queued),
                    forall|j: int| 0 <= j < i ==> encounter_count(match p { Some(p) => Some(*p), None => None::<StageProgress> }, *queued, stage.id, candidate, #[trigger] benchmarks@[j]) >= *target,
                decreases benchmarks.len() - i,
            {
                if encounters_with(p, queued, stage.id, candidate, benchmarks[i]) < *target {
                    let ghost pe = match p { Some(p) => Some(*p), None => None::<StageProgress> };
                    assert(!(encounter_count(pe, *queued, stage.id, candidate, benchmarks@[i as int]) >= *target));
                    assert(!stage_is_complete(*stage, pe, *queued, candidate, benchmarks@));
                    return false;
                }
                i += 1;
            }
            true
        },
        CoveragePolicyConfig::Total { target } => sequence_of(p, queued, stage.id, candidate) >= *target,
        CoveragePolicyConfig::WeightedTotal { target, .. } => sequence_of(p, queued, stage.id, candidate) >= *target,
    }
}

proof fn lemma_entry_bounded(progress: Seq<(i64, StageProgress)>, queued: ScheduledEvaluationCounts, stage_id: i64)
    requires
        counters_bounded(progress, queued),
    ensures
        entry_bounded(progress_of(progress, stage_id)),
{
    lemma_progress_index_range(progress, stage_id, 0);
}

/// Chooses the player count of the next match of a stage.
fn choose_player_count(stage: &EvaluationStageRevision, game: &GameConfig, p: Option<&StageProgress>, queued: &ScheduledEvaluationCounts, candidate: BotId, benchmark_count: usize) -> (r: Option<u32>)
    requires
        entry_bounded(match p { Some(p) => Some(*p), None => None::<StageProgress> }),
        counters_bounded(Seq::empty(), *queued),
    ensures
        match r {
            Some(players) => is_chosen_player_count(*stage, *game, match p { Some(p) => Some(*p), None => None::<StageProgress> }, *queued, candidate, benchmark_count as int, players),
            None => forall|q: u32| stage_min_players(*stage, *game) <= q <= stage_max_players(*stage, *game) ==> !enough_bots(benchmark_count as int, q),
        },
{
    let ghost pe = match p { Some(p) => Some(*p), None => None::<StageProgress> };
    let min_players = match stage.config.min_players { Some(v) => v, None => game.min_players };
    let max_players = match stage.config.max_players { Some(v) => v, None => game.max_players };
    let mut best: Option<(u32, u64)> = None;
    let mut q: u64 = min_players as u64;
    while q <= max_players as u64
        invariant
            min_players == stage_min_players(*stage, *game),
            max_players == stage_max_players(*stage, *game),
            min_players <= q,
            entry_bounded(pe),
            counters_bounded(Seq::empty(), *queued),
            pe == (match p { Some(p) => Some(*p), None => None::<StageProgress> }),
            match best {
                None => forall|x: u32| min_players <= x < q ==> !enough_bots(benchmark_count as int, x),
                Some((b, load)) => {
                    &&& load == player_count_load(pe, *queued, stage.id, candidate, b)
                    &&& min_players <= b < q
                    &&& b <= max_players
                    &&& enough_bots(benchmark_count as int, b)
                    &&& forall|x: u32| min_players <= x < q && enough_bots(benchmark_count as int, x)
                        ==> load <= #[trigger] player_count_load(pe, *queued, stage.id, candidate, x)
                    &&& forall|x: u32| min_players <= x < b && enough_bots(benchmark_count as int, x)
                        ==> load < #[trigger] player_count_load(pe, *queued, stage.id, candidate, x)
                },
            },
        decreases max_players as u64 + 1 - q,
    {
        let players = q as u32;
        if players == 0 || ((players - 1) as usize) <= benchmark_count {
            let load = load_of(p, queued, stage.id, candidate, players);
            match best {
                None => {
                    best = Some((players, load));
                },
                Some((_, best_load)) => {
                    if load < best_load {
                        best = Some((players, load));
                    }
                },
            }
        }
        q += 1;
    }
    match best {
        Some((b, _)) => Some(b),
        None => None,
    }
}

/// Each benchmark keyed for ordering (see `opponent_keys`).
fn key_opponents(stage: &EvaluationStageRevision, p: Option<&StageProgress>, queued: &ScheduledEvaluationCounts, candidate: BotId, benchmarks: &[BotId], weighted_keys: &Vec<i64>) -> (r: Vec<(i128, i64)>)
    requires
        weighted_keys@.len() == benchmarks@.len(),
        entry_bounded(match p { Some(p) => Some(*p), None => None::<StageProgress> }),
        counters_bounded(Seq::empty(), *queued),
    ensures
        r@ == opponent_keys(*stage, match p { Some(p) => Some(*p), None => None::<StageProgress> }, *queued, candidate, benchmarks@, weighted_keys@),
{
    let ghost pe = match p { Some(p) => Some(*p), None => None::<StageProgress> };
    let weighted = matches!(stage.config.coverage, CoveragePolicyConfig::WeightedTotal { .. });
    let mut r: Vec<(i128, i64)> = Vec::new();
    let mut i: usize = 0;
    while i < benchmarks.len()
        invariant
            0 <= i <= benchmarks.len(),
            weighted_keys@.len() == benchmarks@.len(),
            weighted == is_weighted(*stage),
            entry_bounded(pe),
            counters_bounded(Seq::empty(), *queued),
            pe == (match p { Some(p) => Some(*p), None => None::<StageProgress> }),
            r@ == opponent_keys(*stage, pe, *queued, candidate, benchmarks@, weighted_keys@).subrange(0, i as int),
        decreases benchmarks.len() - i,
    {
        let key: i128 = if weighted {
            weighted_keys[i] as i128
        } else {
            encounters_with(p, queued, stage.id, candidate, benchmarks[i]) as i128
        };
        r.push((key, benchmarks[i].0));
        i += 1;
        assert(r@ =~= opponent_keys(*stage, pe, *queued, candidate, benchmarks@, weighted_keys@).subrange(0, i as int));
    }
    assert(opponent_keys(*stage, pe, *queued, candidate, benchmarks@, weighted_keys@).subrange(0, i as int)
        =~= opponent_keys(*stage, pe, *queued, candidate, benchmarks@, weighted_keys@));
    r
}

/// The candidate followed by the first `players - 1` sorted opponents.
fn make_lineup(candidate: BotId, sorted: &Vec<(i128, i64)>, players: u32) -> (r: Vec<BotId>)
    requires
        1 <= players,
        players - 1 <= sorted@.len(),
    ensures
        r@ == lineup(candidate, sorted@, players),
{
    let mut r: Vec<BotId> = Vec::new();
    r.push(candidate);
    let count = (players - 1) as usize;
    let mut i: usize = 0;
    while i < count
        invariant
            count == players - 1,
            count <= sorted@.len(),
            0 <= i <= count,
            r@ == seq![candidate] + bots_of(sorted@.map_values(|pair: (i128, i64)| pair.1)).take(i as int),
        decreases count - i,
    {
        r.push(BotId(sorted[i].1));
        i += 1;
        assert(r@ =~= seq![candidate] + bots_of(sorted@.map_values(|pair: (i128, i64)| pair.1)).take(i as int));
    }
    r
}

fn seed_for(stage: &EvaluationStageRevision, plan: &EvaluationPlanRevision, sequence: u64, fresh_seed: i64) -> (r: i64)
    requires
        has_seeds(*stage, *plan),
    ensures
        r == stage_seed(*stage, *plan, sequence, fresh_seed),
{
    match &stage.config.seed_source {
        SeedSourceConfig::GeneratedStatic => {
            plan.generated_seeds[(sequence as usize) % plan.generated_seeds.len()]
        },
        SeedSourceConfig::Curated { seeds } => seeds[(sequence as usize) % seeds.len()],
        SeedSourceConfig::FreshRandom => fresh_seed,
    }
}

/// The matches of a lineup: the lineup itself in a symmetric game, one
/// match per seat ordering otherwise.
fn lineup_matches(candidate: BotId, stage_id: i64, lineup: Vec<BotId>, seed: i64, symmetric: bool) -> (r: Vec<EvaluationMatch>)
    ensures
        matches_of_lineup(r@, candidate, stage_id, lineup@, seed, symmetric),
{
    if symmetric {
        let mut r: Vec<EvaluationMatch> = Vec::new();
        r.push(EvaluationMatch { candidate_id: candidate, stage_revision_id: stage_id, bot_ids: lineup, seed });
        return r;
    }
    let orderings = seat_orderings_exec(&lineup);
    let mut r: Vec<EvaluationMatch> = Vec::new();
    let mut orderings = orderings;
    let n = orderings.len();
    let ghost all = orderings@;
    let mut i: usize = 0;
    while orderings.len() > 0
        invariant
            all.map_values(|v: Vec<BotId>| v@) == seat_orderings(lineup@),
            i + orderings@.len() == all.len(),
            all.len() == n,
            forall|j: int| 0 <= j < orderings@.len() ==> orderings@[j] == all[all.len() - orderings@.len() + j],
            r@.len() == i,
            forall|j: int| 0 <= j < i ==> (#[trigger] r@[j]).candidate_id == candidate && r@[j].stage_revision_id == stage_id && r@[j].seed == seed && r@[j].bot_ids@ == all[j]@,
        decreases orderings.len(),
    {
        let one = orderings.remove(0);
        r.push(EvaluationMatch { candidate_id: candidate, stage_revision_id: stage_id, bot_ids: one, seed });
        i += 1;
    }
    proof {
        assert forall|j: int| 0 <= j < r@.len() implies (#[trigger] r@[j]).bot_ids@ == seat_orderings(lineup@)[j] by {
            assert(all.map_values(|v: Vec<BotId>| v@)[j] == all[j]@);
        }
    }
    r
}

/// Chooses the next evaluation matches of a candidate: the first stage whose
/// coverage target is not met, the least-played player count that enough
/// bots can fill, the opponents with the fewest encounters (in a weighted
/// stage, the smallest `weighted_keys`; ties by identifier), and the next
/// seed of the stage. An empty result means nothing is left to schedule.
/// `weighted_keys[i]` orders benchmark `i` in a weighted stage: it is the
/// total-order key of the double `(encounters + 1) / weight`, computed by
/// the caller; `fresh_seed` is used by a fresh-random seed source.
pub fn schedule_candidate(
    game: &GameConfig,
    plan: &EvaluationPlanRevision,
    candidate_id: BotId,
    benchmarks: &[BotId],
    progress: &Vec<(i64, StageProgress)>,
    queued: &ScheduledEvaluationCounts,
    weighted_keys: &Vec<i64>,
    fresh_seed: i64,
) -> (r: Vec<EvaluationMatch>)
    requires
        weighted_keys@.len() == benchmarks@.len(),
        counters_bounded(progress@, *queued),
        scheduling_defined(*game, *plan, candidate_id, benchmarks@, progress@, *queued),
    ensures
        match first_incomplete_stage(*plan, progress@, *queued, candidate_id, benchmarks@, 0) {
            None => r@.len() == 0,
            Some(k) => {
                let stage = plan.stages@[k];
                let p = progress_of(progress@, stage.id);
                &&& (forall|q: u32| stage_min_players(stage, *game) <= q <= stage_max_players(stage, *game)
                    ==> !enough_bots(benchmarks@.len() as int, q)) ==> r@.len() == 0
                &&& forall|players: u32, sorted: Seq<(i128, i64)>|
                    is_chosen_player_count(stage, *game, p, *queued, candidate_id, benchmarks@.len() as int, players)
                    && is_sorted_order(sorted, opponent_keys(stage, p, *queued, candidate_id, benchmarks@, weighted_keys@))
                    ==> matches_of_lineup(r@, candidate_id, stage.id, lineup(candidate_id, sorted, players),
                        stage_seed(stage, *plan, stage_sequence(p, *queued, stage.id, candidate_id) as u64, fresh_seed), game.symmetric)
                &&& forall|i: int| 0 <= i < r@.len() ==> {
                    let sequence = ((done_matches(p) + count_of(queued.matches_by_stage_candidate@, (stage.id, candidate_id))) as u64) as usize;
                    &&& (#[trigger] r@[i]).seed == stage_seed(stage, *plan, sequence as u64, fresh_seed)
                    &&& stage.config.seed_source is GeneratedStatic ==> r@[i].seed
                        == plan.generated_seeds@[sequence as int % plan.generated_seeds@.len() as int]
                    &&& stage.config.seed_source matches SeedSourceConfig::Curated { seeds } ==> r@[i].seed
                        == seeds@[sequence as int % seeds@.len() as int]
                    &&& stage.config.seed_source is FreshRandom ==> r@[i].seed == fresh_seed
                }
                &&& r@.len() > 0 ==> exists|players: u32, sorted: Seq<(i128, i64)>|
                    is_chosen_player_count(stage, *game, p, *queued, candidate_id, benchmarks@.len() as int, players)
                    && is_sorted_order(sorted, opponent_keys(stage, p, *queued, candidate_id, benchmarks@, weighted_keys@))
                    && matches_of_lineup(r@, candidate_id, stage.id, lineup(candidate_id, sorted, players),
                        stage_seed(stage, *plan, stage_sequence(p, *queued, stage.id, candidate_id) as u64, fresh_seed), game.symmetric)
            },
        },
{
    let mut k: usize = 0;
    while k < plan.stages.len()
        invariant
            0 <= k <= plan.stages@.len(),
            counters_bounded(progress@, *queued),
            weighted_keys@.len() == benchmarks@.len(),
            scheduling_defined(*game, *plan, candidate_id, benchmarks@, progress@, *queued),
            first_incomplete_stage(*plan, progress@, *queued, candidate_id, benchmarks@, 0)
                == first_incomplete_stage(*plan, progress@, *queued, candidate_id, benchmarks@, k as int),
        decreases plan.stages.len() - k,
    {
        let stage = &plan.stages[k];
        let p = stage_entry(progress, stage.id);
        proof {
            lemma_entry_bounded(progress@, *queued, stage.id);
        }
        if !stage_complete(stage, p, queued, candidate_id, benchmarks) {
            let ghost pe = progress_of(progress@, stage.id);
            assert(first_incomplete_stage(*plan, progress@, *queued, candidate_id, benchmarks@, k as int) == Some(k as int));
            let players = match choose_player_count(stage, game, p, queued, candidate_id, benchmarks.len()) {
                Some(players) => players,
                None => {
                    return Vec::new();
                },
            };
            let keyed = key_opponents(stage, p, queued, candidate_id, benchmarks, weighted_keys);
            let sorted = sort_pairs(&keyed);
            proof {
                assert(sorted@.to_multiset().len() == keyed@.to_multiset().len());
                vstd::seq_lib::to_multiset_len(sorted@);
                vstd::seq_lib::to_multiset_len(keyed@);
            }
            let chosen = make_lineup(candidate_id, &sorted, players);
            let sequence = sequence_of(p, queued, stage.id, candidate_id);
            let seed = seed_for(stage, plan, sequence, fresh_seed);
            let r = lineup_matches(candidate_id, stage.id, chosen, seed, game.symmetric);
            proof {
                assert forall|players2: u32, sorted2: Seq<(i128, i64)>|
                    is_chosen_player_count(*stage, *game, pe, *queued, candidate_id, benchmarks@.len() as int, players2)
                    && is_sorted_order(sorted2, opponent_keys(*stage, pe, *queued, candidate_id, benchmarks@, weighted_keys@))
                    implies matches_of_lineup(r@, candidate_id, stage.id, lineup(candidate_id, sorted2, players2),
                        stage_seed(*stage, *plan, stage_sequence(pe, *queued, stage.id, candidate_id) as u64, fresh_seed), game.symmetric) by {
                    lemma_chosen_player_count_unique(*stage, *game, pe, *queued, candidate_id, benchmarks@.len() as int, players, players2);
                    crate::sorting::lemma_sorted_order_unique(sorted@, sorted2, keyed@);
                }
            }
            return r;
        }
        k += 1;
    }
    Vec::new()
}

/// A stage whose coverage counts matches (a total, weighted or not) counts
/// the queued matches of the candidate as well as the played ones: it is
/// complete exactly when played plus queued reach its target.
pub proof fn lemma_total_coverage_counts_queued(plan: EvaluationPlanRevision, progress: Seq<(i64, StageProgress)>, queued: ScheduledEvaluationCounts, candidate: BotId, benchmarks: Seq<BotId>, k: int)
    requires
        0 <= k < plan.stages@.len(),
        !(plan.stages@[k].config.coverage is PerBenchmark),
    ensures
        stage_complete_at(plan, progress, queued, candidate, benchmarks, k) == (
            done_matches(progress_of(progress, plan.stages@[k].id))
                + count_of(queued.matches_by_stage_candidate@, (plan.stages@[k].id, candidate))
                >= plan.stages@[k].config.coverage.spec_target()),
{
}

/// A per-benchmark stage counts queued encounters as well as played ones:
/// it is complete exactly when there are benchmarks and the candidate has
/// played or queued at least the target against each of them.
pub proof fn lemma_per_benchmark_coverage_counts_queued(plan: EvaluationPlanRevision, progress: Seq<(i64, StageProgress)>, queued: ScheduledEvaluationCounts, candidate: BotId, benchmarks: Seq<BotId>, k: int)
    requires
        0 <= k < plan.stages@.len(),
        plan.stages@[k].config.coverage is PerBenchmark,
    ensures
        stage_complete_at(plan, progress, queued, candidate, benchmarks, k) == (benchmarks.len() > 0
            && forall|b: int| 0 <= b < benchmarks.len() ==> count_of(done_encounters(progress_of(progress, plan.stages@[k].id)), #[trigger] benchmarks[b])
                + count_of(queued.encounters@, (plan.stages@[k].id, candidate, benchmarks[b]))
                >= plan.stages@[k].config.coverage.spec_target()),
{
}

proof fn lemma_covered_from(plan: EvaluationPlanRevision, progress: Seq<(i64, StageProgress)>, queued: ScheduledEvaluationCounts, candidate: BotId, benchmarks: Seq<BotId>, from: int)
    requires
        0 <= from,
        forall|k: int| 0 <= k < plan.stages@.len() ==> {
            &&& !((#[trigger] plan.stages@[k]).config.coverage is PerBenchmark)
            &&& done_matches(progress_of(progress, plan.stages@[k].id))
                + count_of(queued.matches_by_stage_candidate@, (plan.stages@[k].id, candidate))
                >= plan.stages@[k].config.coverage.spec_target()
        },
    ensures
        first_incomplete_stage(plan, progress, queued, candidate, benchmarks, from) is None,
    decreases plan.stages@.len() - from,
{
    if from < plan.stages@.len() {
        lemma_total_coverage_counts_queued(plan, progress, queued, candidate, benchmarks, from);
        lemma_covered_from(plan, progress, queued, candidate, benchmarks, from + 1);
    }
}

/// When every stage counts matches and the candidate's played plus queued
/// matches reach each stage's target, no stage is left to schedule, so
/// scheduling gives nothing: queued matches are never scheduled again.
pub proof fn lemma_covered_plan_is_finished(plan: EvaluationPlanRevision, progress: Seq<(i64, StageProgress)>, queued: ScheduledEvaluationCounts, candidate: BotId, benchmarks: Seq<BotId>)
    requires
        forall|k: int| 0 <= k < plan.stages@.len() ==> {
            &&& !((#[trigger] plan.stages@[k]).config.coverage is PerBenchmark)
            &&& done_matches(progress_of(progress, plan.stages@[k].id))
                + count_of(queued.matches_by_stage_candidate@, (plan.stages@[k].id, candidate))
                >= plan.stages@[k].config.coverage.spec_target()
        },
    ensures
        first_incomplete_stage(plan, progress, queued, candidate, benchmarks, 0) is None,
{
    lemma_covered_from(plan, progress, queued, candidate, benchmarks, 0);
}

/// Only one player count fits the choice rule.
pub proof fn lemma_chosen_player_count_unique(stage: EvaluationStageRevision, game: GameConfig, p: Option<StageProgress>, queued: ScheduledEvaluationCounts, candidate: BotId, benchmark_count: int, a: u32, b: u32)
    requires
        is_chosen_player_count(stage, game, p, queued, candidate, benchmark_count, a),
        is_chosen_player_count(stage, game, p, queued, candidate, benchmark_count, b),
    ensures
        a == b,
{
    if a < b {
        assert(player_count_load(p, queued, stage.id, candidate, b) < player_count_load(p, queued, stage.id, candidate, a));
    } else if b < a {
        assert(player_count_load(p, queued, stage.id, candidate, a) < player_count_load(p, queued, stage.id, candidate, b));
    }
}

/// Whether every counter of the list is within `counter_limit()`.
fn list_bounded<K>(entries: &Vec<(K, u64)>) -> (r: bool)
    ensures
        r == counts_bounded(entries@, counter_limit()),
{
    let mut i: usize = 0;
    while i < entries.len()
        invariant
            0 <= i <= entries.len(),
            forall|j: int| 0 <= j < i ==> entries@[j].1 <= counter_limit(),
        decreases entries.len() - i,
    {
        if entries[i].1 > 0x3fff_ffff_ffff_ffff {
            return false;
        }
        i += 1;
    }
    true
}

/// Whether the scheduler's counters are within `counter_limit()`.
pub fn counters_within_limit(progress: &Vec<(i64, StageProgress)>, queued: &ScheduledEvaluationCounts) -> (r: bool)
    ensures
        r == counters_bounded(progress@, *queued),
{
    let mut i: usize = 0;
    while i < progress.len()
        invariant
            0 <= i <= progress.len(),
            forall|j: int| 0 <= j < i ==> {
                &&& (#[trigger] progress@[j]).1.matches <= counter_limit()
                &&& counts_bounded(progress@[j].1.encounters@, counter_limit())
                &&& counts_bounded(progress@[j].1.matches_by_player_count@, counter_limit())
            },
        decreases progress.len() - i,
    {
        let entry = &progress[i].1;
        if entry.matches > 0x3fff_ffff_ffff_ffff || !list_bounded(&entry.encounters) || !list_bounded(&entry.matches_by_player_count) {
            return false;
        }
        i += 1;
    }
    list_bounded(&queued.matches_by_stage_candidate) && list_bounded(&queued.encounters) && list_bounded(&queued.matches_by_player_count)
}

/// The first stage of the plan whose coverage target is not met.
pub fn next_incomplete_stage(plan: &EvaluationPlanRevision, candidate_id: BotId, benchmarks: &[BotId], progress: &Vec<(i64, StageProgress)>, queued: &ScheduledEvaluationCounts) -> (r: Option<usize>)
    requires
        counters_bounded(progress@, *queued),
    ensures
        r matches Some(k) ==> first_incomplete_stage(*plan, progress@, *queued, candidate_id, benchmarks@, 0) == Some(k as int) && k < plan.stages@.len(),
        r is None ==> first_incomplete_stage(*plan, progress@, *queued, candidate_id, benchmarks@, 0) is None,
{
    let mut k: usize = 0;
    while k < plan.stages.len()
        invariant
            0 <= k <= plan.stages@.len(),
            counters_bounded(progress@, *queued),
            first_incomplete_stage(*plan, progress@, *queued, candidate_id, benchmarks@, 0)
                == first_incomplete_stage(*plan, progress@, *queued, candidate_id, benchmarks@, k as int),
        decreases plan.stages.len() - k,
    {
        let stage = &plan.stages[k];
        let p = stage_entry(progress, stage.id);
        proof {
            lemma_entry_bounded(progress@, *queued, stage.id);
        }
        if !stage_complete(stage, p, queued, candidate_id, benchmarks) {
            return Some(k);
        }
        k += 1;
    }
    None
}

/// Encounter counts of the candidate with each benchmark in a stage,
/// played or queued, in the order of `benchmarks`.
pub fn stage_encounter_counts(stage_id: i64, candidate_id: BotId, benchmarks: &[BotId], progress: &Vec<(i64, StageProgress)>, queued: &ScheduledEvaluationCounts) -> (r: Vec<u64>)
    requires
        counters_bounded(progress@, *queued),
    ensures
        r@.len() == benchmarks@.len(),
        forall|i: int| 0 <= i < r@.len() ==> r@[i] == encounter_count(progress_of(progress@, stage_id), *queued, stage_id, candidate_id, benchmarks@[i]),
{
    let p = stage_entry(progress, stage_id);
    proof {
        lemma_entry_bounded(progress@, *queued, stage_id);
    }
    let mut r: Vec<u64> = Vec::new();
    let mut i: usize = 0;
    while i < benchmarks.len()
        invariant
            0 <= i <= benchmarks.len(),
            r@.len() == i,
            counters_bounded(progress@, *queued),
            entry_bounded(progress_of(progress@, stage_id)),
            (match p { Some(p) => Some(*p), None => None::<StageProgress> }) == progress_of(progress@, stage_id),
            forall|j: int| 0 <= j < i ==> r@[j] == encounter_count(progress_of(progress@, stage_id), *queued, stage_id, candidate_id, benchmarks@[j]),
        decreases benchmarks.len() - i,
    {
        r.push(encounters_with(p, queued, stage_id, candidate_id, benchmarks[i]));
        i += 1;
    }
    r
}

/// Whether `schedule_candidate` may be called on these inputs: the counters
/// are within `counter_limit()` and scheduling is defined (see
/// `scheduling_defined`).
pub fn scheduling_inputs_valid(game: &GameConfig, plan: &EvaluationPlanRevision, candidate_id: BotId, benchmarks: &[BotId], progress: &Vec<(i64, StageProgress)>, queued: &ScheduledEvaluationCounts) -> (r: bool)
    ensures
        r == (counters_bounded(progress@, *queued) && scheduling_defined(*game, *plan, candidate_id, benchmarks@, progress@, *queued)),
{
    if !counters_within_limit(progress, queued) {
        return false;
    }
    match next_incomplete_stage(plan, candidate_id, benchmarks, progress, queued) {
        None => true,
        Some(k) => {
            let stage = &plan.stages[k];
            let p = stage_entry(progress, stage.id);
            proof {
                lemma_entry_bounded(progress@, *queued, stage.id);
            }
            let ghost pe = progress_of(progress@, stage.id);
            match choose_player_count(stage, game, p, queued, candidate_id, benchmarks.len()) {
                None => {
                    assert forall|players: u32| is_chosen_player_count(*stage, *game, pe, *queued, candidate_id, benchmarks@.len() as int, players)
                        implies players >= 1 && has_seeds(*stage, *plan) by {
                        assert(!enough_bots(benchmarks@.len() as int, players));
                    }
                    true
                },
                Some(players) => {
                    let seeded = match &stage.config.seed_source {
                        SeedSourceConfig::GeneratedStatic => plan.generated_seeds.len() > 0,
                        SeedSourceConfig::Curated { seeds } => seeds.len() > 0,
                        SeedSourceConfig::FreshRandom => true,
                    };
                    proof {
                        assert forall|other: u32| is_chosen_player_count(*stage, *game, pe, *queued, candidate_id, benchmarks@.len() as int, other)
                            implies other == players by {
                            lemma_chosen_player_count_unique(*stage, *game, pe, *queued, candidate_id, benchmarks@.len() as int, players, other);
                        }
                    }
                    players >= 1 && seeded
                },
            }
        },
    }
}

/// Number of seeds in a generated suite.
pub const SEED_SUITE_SIZE: usize = 100;

/// Most random draws spent on one suite; with 64-bit seeds a repeated draw
/// is so unlikely that the suite is full long before.
pub const SEED_SUITE_DRAW_LIMIT: usize = 100000;

/// Whether `seed` occurs in `seeds`.
pub fn contains_seed(seeds: &Vec<i64>, seed: i64) -> (r: bool)
    ensures
        r == seeds@.contains(seed),
{
    let mut i: usize = 0;
    while i < seeds.len()
        invariant
            0 <= i <= seeds.len(),
            forall|j: int| 0 <= j < i ==> seeds@[j] != seed,
        decreases seeds.len() - i,
    {
        if seeds[i] == seed {
            return true;
        }
        i += 1;
    }
    false
}

/// A seed that `seeds` does not hold: the least of 0..99 that it lacks.
fn unused_seed(seeds: &Vec<i64>) -> (r: i64)
    requires
        seeds@.len() < SEED_SUITE_SIZE,
    ensures
        !seeds@.contains(r),
{
    let mut c: i64 = 0;
    while c < 100 && contains_seed(seeds, c)
        invariant
            0 <= c <= 100,
            seeds@.len() < SEED_SUITE_SIZE,
            forall|k: int| 0 <= k < c ==> seeds@.contains(#[trigger] (k as i64)),
        decreases 100 - c,
    {
        c = c + 1;
    }
    if c == 100 {
        proof {
            let ints = seeds@.map_values(|x: i64| x as int);
            let range = vstd::set_lib::set_int_range(0, 100);
            assert forall|k: int| #[trigger] range.contains(k) implies ints.to_set().contains(k) by {
                assert(seeds@.contains(k as i64));
                let j = choose|j: int| 0 <= j < seeds@.len() && seeds@[j] == k as i64;
                assert(ints[j] == k);
            }
            vstd::set_lib::lemma_int_range(0, 100);
            ints.lemma_cardinality_of_set();
            vstd::seq_lib::seq_to_set_is_finite(ints);
            vstd::set_lib::lemma_len_subset(range, ints.to_set());
            assert(false);
        }
    }
    c
}

/// A suite of 100 distinct random seeds: random draws until it holds 100
/// of them. Should a long run of draws still leave it short, which 64-bit
/// random seeds make practically impossible, the least unused small
/// numbers complete it.
pub fn generate_seed_suite() -> (r: Vec<i64>)
    ensures
        r@.no_duplicates(),
        r@.len() == SEED_SUITE_SIZE,
{
    let mut seeds: Vec<i64> = Vec::new();
    let mut draws: usize = 0;
    while seeds.len() < SEED_SUITE_SIZE && draws < SEED_SUITE_DRAW_LIMIT
        invariant
            seeds@.no_duplicates(),
            seeds@.len() <= SEED_SUITE_SIZE,
            draws <= SEED_SUITE_DRAW_LIMIT,
        decreases SEED_SUITE_DRAW_LIMIT - draws,
    {
        let seed = crate::random::random_i64();
        draws += 1;
        if !contains_seed(&seeds, seed) {
            seeds.push(seed);
        }
    }
    while seeds.len() < SEED_SUITE_SIZE
        invariant
            seeds@.no_duplicates(),
            seeds@.len() <= SEED_SUITE_SIZE,
        decreases SEED_SUITE_SIZE - seeds@.len(),
    {
        let seed = unused_seed(&seeds);
        seeds.push(seed);
    }
    seeds
}

impl Default for EvaluationConfig {
    /// One per-benchmark stage over a freshly generated seed suite, enabled
    /// on start.
    fn default() -> (r: EvaluationConfig)
        ensures
            r.enabled_on_start == Some(true),
            r.generated_seeds@.no_duplicates(),
            r.stages@.len() == 1,
            r.stages@[0].seed_source is GeneratedStatic,
            r.stages@[0].coverage == (CoveragePolicyConfig::PerBenchmark { target: 100 }),
            r.stages@[0].min_players is None,
            r.stages@[0].max_players is None,
            r.stages@[0].name@ == "Generated suite"@,
    {
        let mut stages: Vec<EvaluationStageConfig> = Vec::new();
        stages.push(EvaluationStageConfig {
            name: "Generated suite".to_owned(),
            seed_source: SeedSourceConfig::GeneratedStatic,
            coverage: CoveragePolicyConfig::PerBenchmark { target: 100 },
            min_players: None,
            max_players: None,
        });
        EvaluationConfig {
            enabled_on_start: Some(true),
            generated_seeds: generate_seed_suite(),
            stages,
        }
    }
}

} // verus!
