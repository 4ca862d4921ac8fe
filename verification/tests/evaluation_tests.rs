use cgarena::config::GameConfig;
use cgarena::db::StageProgress;
use cgarena::domain::ids::BotId;
use cgarena::evaluation::{
    schedule_candidate, scheduling_inputs_valid, CoveragePolicyConfig, EvaluationConfig,
    EvaluationConfigError, EvaluationPlanRevision, EvaluationStageConfig, EvaluationStageRevision,
    ScheduledEvaluationCounts, SeedSourceConfig,
};

fn stage(id: i64, coverage: CoveragePolicyConfig) -> EvaluationStageRevision {
    EvaluationStageRevision {
        id,
        config: EvaluationStageConfig {
            name: format!("Stage {id}"),
            seed_source: SeedSourceConfig::GeneratedStatic,
            coverage,
            min_players: None,
            max_players: None,
        },
    }
}

fn game(symmetric: bool, max_players: u32) -> GameConfig {
    GameConfig {
        min_players: 2,
        max_players,
        symmetric,
    }
}

fn progress(matches: u64, encounters: Vec<(BotId, u64)>, by_players: Vec<(u32, u64)>) -> StageProgress {
    StageProgress {
        matches,
        encounters,
        matches_by_player_count: by_players,
        candidate_errors: 0,
    }
}

#[test]
fn per_benchmark_coverage_schedules_the_largest_deficit() {
    let candidate = BotId::from(1);
    let benchmarks = [BotId::from(2), BotId::from(3)];
    let plan = EvaluationPlanRevision {
        id: 1,
        generated_seeds: vec![11, 22],
        stages: vec![stage(10, CoveragePolicyConfig::PerBenchmark { target: 2 })],
    };
    let progress = vec![(10, progress(0, vec![(benchmarks[0], 1)], vec![]))];
    let queued = ScheduledEvaluationCounts::default();
    assert!(scheduling_inputs_valid(&game(true, 2), &plan, candidate, &benchmarks, &progress, &queued));

    let scheduled = schedule_candidate(
        &game(true, 2),
        &plan,
        candidate,
        &benchmarks,
        &progress,
        &queued,
        &vec![0; benchmarks.len()],
        0,
    );

    assert_eq!(scheduled.len(), 1);
    assert_eq!(scheduled[0].bot_ids, vec![candidate, benchmarks[1]]);
    assert_eq!(scheduled[0].stage_revision_id, 10);
}

#[test]
fn completed_stage_advances_and_balances_player_counts() {
    let candidate = BotId::from(1);
    let benchmarks = [BotId::from(2), BotId::from(3)];
    let plan = EvaluationPlanRevision {
        id: 1,
        generated_seeds: vec![11, 22, 33],
        stages: vec![
            stage(10, CoveragePolicyConfig::Total { target: 1 }),
            stage(20, CoveragePolicyConfig::Total { target: 10 }),
        ],
    };
    let progress = vec![
        (10, progress(1, vec![], vec![])),
        (20, progress(0, vec![], vec![(2, 5), (3, 1)])),
    ];
    let queued = ScheduledEvaluationCounts::default();
    assert!(scheduling_inputs_valid(&game(true, 3), &plan, candidate, &benchmarks, &progress, &queued));

    let scheduled = schedule_candidate(
        &game(true, 3),
        &plan,
        candidate,
        &benchmarks,
        &progress,
        &queued,
        &vec![0; benchmarks.len()],
        0,
    );

    assert_eq!(scheduled[0].stage_revision_id, 20);
    assert_eq!(scheduled[0].bot_ids.len(), 3);
    assert_eq!(
        scheduled[0]
            .bot_ids
            .iter()
            .filter(|id| **id == candidate)
            .count(),
        1
    );
}

#[test]
fn asymmetric_games_schedule_every_position_permutation() {
    let candidate = BotId::from(1);
    let benchmarks = [BotId::from(2), BotId::from(3)];
    let plan = EvaluationPlanRevision {
        id: 1,
        generated_seeds: vec![11],
        stages: vec![stage(10, CoveragePolicyConfig::Total { target: 1 })],
    };
    let queued = ScheduledEvaluationCounts::default();
    assert!(scheduling_inputs_valid(&game(false, 3), &plan, candidate, &benchmarks, &vec![], &queued));

    let scheduled = schedule_candidate(
        &game(false, 3),
        &plan,
        candidate,
        &benchmarks,
        &vec![],
        &queued,
        &vec![0; benchmarks.len()],
        0,
    );

    assert_eq!(scheduled.len(), 2);
    assert!(scheduled.iter().all(|scheduled| {
        scheduled
            .bot_ids
            .iter()
            .filter(|id| **id == candidate)
            .count()
            == 1
    }));
}

#[test]
fn a_complete_plan_schedules_nothing() {
    let candidate = BotId::from(1);
    let benchmarks = [BotId::from(2)];
    let plan = EvaluationPlanRevision {
        id: 1,
        generated_seeds: vec![11],
        stages: vec![stage(10, CoveragePolicyConfig::Total { target: 1 })],
    };
    let progress = vec![(10, progress(1, vec![], vec![]))];
    let scheduled = schedule_candidate(
        &game(true, 2),
        &plan,
        candidate,
        &benchmarks,
        &progress,
        &ScheduledEvaluationCounts::default(),
        &vec![0],
        0,
    );
    assert!(scheduled.is_empty());
}

#[test]
fn evaluation_config_needs_stages() {
    let config = EvaluationConfig { enabled_on_start: None, generated_seeds: vec![1], stages: vec![] };
    assert!(matches!(config.validate(&game(true, 2)), Err(EvaluationConfigError::NoStages)));
    let config = EvaluationConfig {
        enabled_on_start: None,
        generated_seeds: vec![1, 1],
        stages: vec![stage(1, CoveragePolicyConfig::Total { target: 1 }).config],
    };
    assert!(matches!(config.validate(&game(true, 2)), Err(EvaluationConfigError::DuplicateSeeds)));
}
