use cgarena::domain::bot_role::BotRole;
use cgarena::domain::builds::{Build, BuildResult, BuildStatus};
use cgarena::domain::ids::BotId;
use cgarena::domain::leaderboard::{Leaderboard, MatchFilter};
use cgarena::domain::names::{BotName, LeaderboardName, NameError, SourceCode, WorkerName};
use cgarena::db::{build_from_row, build_row, leaderboard_from_row, BuildsRow, LeaderboardsRow, RowError};
use cgarena::models::Language;

#[test]
fn accepts_source_code_over_previous_limit() {
    let source = "a".repeat(100_001);

    let source_code = SourceCode::from(source.clone());

    assert_eq!(&*source_code, source);
}

#[test]
fn bot_names_must_be_non_empty_and_short() {
    assert_eq!(BotName::try_from(String::new()).err(), Some(NameError::Empty));
    assert!(BotName::try_from("x".repeat(31)).is_ok());
    assert_eq!(
        BotName::try_from("x".repeat(32)).err(),
        Some(NameError::TooLong { limit: 32 })
    );
    // The limit counts bytes, not characters.
    assert!(BotName::try_from("é".repeat(16)).is_err());
}

#[test]
fn leaderboard_names_allow_longer_text() {
    assert!(LeaderboardName::try_from("x".repeat(63)).is_ok());
    assert!(LeaderboardName::try_from("x".repeat(64)).is_err());
    assert_eq!(LeaderboardName::global().as_str(), "Global");
}

#[test]
fn roles_round_trip_through_text() {
    for role in [BotRole::Candidate, BotRole::Benchmark, BotRole::ArchivedBenchmark] {
        assert_eq!(BotRole::parse(role.as_str()), Some(role));
    }
    assert_eq!(BotRole::ArchivedBenchmark.to_string(), "archived_benchmark");
    assert_eq!(BotRole::parse("unknown"), None);
    assert!(BotRole::Candidate.is_active());
    assert!(BotRole::Benchmark.is_active());
    assert!(!BotRole::ArchivedBenchmark.is_active());
    assert_eq!(BotRole::default(), BotRole::Candidate);
}

#[test]
fn bot_ids_print_as_decimal() {
    assert_eq!(BotId(-42).to_string(), "-42");
    assert_eq!(BotId(0).to_string(), "0");
    assert_eq!(i64::from(BotId::from(7)), 7);
    assert_eq!(BotId::uninitialized(), BotId(0));
}

#[test]
fn builds_move_from_pending_to_finished() {
    let mut build = Build::new(BotId(3), WorkerName::embedded());
    assert!(build.is_pending());
    build.make_running();
    assert!(build.is_running());
    build.make_finished(BuildResult::Success);
    assert!(build.was_finished_successfully());
    build.reset();
    assert!(build.is_pending());
}

#[test]
fn build_rows_round_trip() {
    let mut build = Build::new(BotId(9), WorkerName::embedded());
    build.make_running();
    build.make_finished(BuildResult::Failure { stderr: "boom".to_string() });
    let row = build_row(&build);
    assert_eq!((row.status, row.result, row.error.clone()), (2, Some(1), Some("boom".to_string())));
    let back = build_from_row(row).unwrap();
    assert_eq!(back.bot_id, BotId(9));
    assert!(matches!(back.status, BuildStatus::Finished(BuildResult::Failure { ref stderr }) if stderr == "boom"));
}

#[test]
fn unexpected_build_rows_are_refused() {
    let row = BuildsRow { bot_id: 1, worker_name: "embedded".to_string(), status: 2, result: Some(1), error: None };
    assert!(matches!(build_from_row(row), Err(RowError::UnexpectedBuildStatus)));
    let row = BuildsRow { bot_id: 1, worker_name: String::new(), status: 0, result: None, error: None };
    assert!(matches!(build_from_row(row), Err(RowError::InvalidName(NameError::Empty))));
}

#[test]
fn leaderboards_read_from_rows() {
    let row = LeaderboardsRow { id: 5, name: "Top".to_string(), filter: "anything".to_string() };
    let leaderboard = leaderboard_from_row(row).unwrap();
    assert_eq!(leaderboard.id.0, 5);
    assert_eq!(leaderboard.name.as_str(), "Top");
    assert!(matches!(leaderboard.filter, MatchFilter::Empty));
    let global = Leaderboard::global();
    assert_eq!(global.id.0, 0);
    assert_eq!(global.name.as_str(), "Global");
}

#[test]
fn languages_name_their_source_files() {
    assert_eq!(Language::Cpp.file_extension(), "cpp.txt");
    assert_eq!(Language::Rust.file_extension(), "rust.txt");
    assert_eq!(Language::Python3.file_extension(), "python3.txt");
}

#[test]
fn stage_progress_from_database_counts() {
    let progress = cgarena::db::StageProgress::from_counts(5, vec![(3, 2), (4, 3)], vec![(2, 4), (3, 1)], 1);
    assert_eq!(progress.matches, 5);
    assert_eq!(progress.encounters, vec![(cgarena::domain::ids::BotId(3), 2), (cgarena::domain::ids::BotId(4), 3)]);
    assert_eq!(progress.matches_by_player_count, vec![(2, 4), (3, 1)]);
    assert_eq!(progress.candidate_errors, 1);
}

#[test]
fn role_from_str_reads_stored_text() {
    use_role_parse();
}

fn use_role_parse() {
    let role: cgarena::domain::bot_role::BotRole = "benchmark".parse().unwrap();
    assert_eq!(role, cgarena::domain::bot_role::BotRole::Benchmark);
    let refused = "Benchmark".parse::<cgarena::domain::bot_role::BotRole>().unwrap_err();
    assert_eq!(refused.value, "Benchmark");
}

#[test]
fn seed_suites_hold_100_distinct_seeds() {
    let suite = cgarena::evaluation::generate_seed_suite();
    assert_eq!(suite.len(), 100);
    let mut sorted = suite.clone();
    sorted.sort();
    sorted.dedup();
    assert_eq!(sorted.len(), 100);
}
