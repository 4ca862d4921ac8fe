use cgarena::config::{ArenaConfig, EmbeddedWorkerConfig, GameConfig, ManagedCodingameRefereeConfig, RefereeConfig, WorkerConfig};
use cgarena::domain::ids::BotId;
use cgarena::embedded_worker::{
    bot_directory, build_command_parts, play_match_command_parts, play_match_output, run_command,
    CmdPlayMatchStdout, PlayMatchBot, PlayMatchInput,
};
use cgarena::domain::names::Language;
use cgarena::managed_referee::{
    check_summary, choose_jar, clone_arguments, local_status_from, parse_divergence, replacement_required,
    update_status, update_target, BuiltJar, DivergenceError, JarError, LocalStatus, ManagedMetadata,
    ManagedReferee, OperationStatus, RefereeAction, UpdateRefusal, UpdateStatus,
};
use cgarena::matchmaking::{MatchmakingAlgorithmConfig, MatchmakingAlgorithmV2Config, MatchmakingConfig};
use cgarena::replay_artifact::{
    accept_replay_file, amount_to_delete, locate_replay, resolve, ArtifactInspection, FinishOutcome,
    ProvisionalReplay, ReplayLookupError, ReplayPathError,
};
use cgarena::replay_viewer::{asset_path, check_exposed_directory, exposed_directory, expired_sessions, served_asset, started_replay, with_renderer_stderr, ReplayError};
use cgarena::runtime::{activation_plan, apply_plan, replace_outcome, ApplyPlan, ReplaceOutcome, cleanup, managed_configuration, recovery, set_matchmaking_intent, ActivationFailure, RecoveryStep};
use cgarena::scheduling::ScheduledMatch;
use cgarena::text::{lines_of, replace_text};

fn strings(words: &[&str]) -> Vec<String> {
    words.iter().map(|w| w.to_string()).collect()
}

#[test]
fn replay_paths_stay_in_the_replay_directory() {
    assert_eq!(resolve("/arena", "replays/a.json").unwrap(), "/arena/replays/a.json");
    assert_eq!(resolve("/arena", "/etc/passwd"), Err(ReplayPathError::NotRelative));
    assert_eq!(resolve("/arena", "replays/../db"), Err(ReplayPathError::OutsideReplayDirectory));
    assert_eq!(resolve("/arena", "other/a.json"), Err(ReplayPathError::OutsideReplayDirectory));
    assert_eq!(resolve("/arena", ""), Err(ReplayPathError::OutsideReplayDirectory));
}

#[test]
fn provisional_replays_are_discarded_unless_produced() {
    let provisional = ProvisionalReplay::reserve("/arena", "abc").unwrap();
    assert_eq!(provisional.command_path(), "replays/abc.json");
    match provisional.finish(ArtifactInspection::NotFound) {
        FinishOutcome::Discard(owned) => {
            assert!(owned.removes_on_drop());
            assert_eq!(owned.absolute_path(), "/arena/replays/abc.json");
        }
        _ => panic!("a missing artifact must be discarded"),
    }
    let provisional = ProvisionalReplay::reserve("/arena", "def").unwrap();
    match provisional.finish(ArtifactInspection::NonEmptyFile) {
        FinishOutcome::Accepted(pending) => {
            let mut owned = pending.into_artifact().unwrap();
            owned.commit();
            assert!(!owned.removes_on_drop());
        }
        _ => panic!("a produced artifact must be accepted"),
    }
    let random = ProvisionalReplay::create("/arena").unwrap();
    let path = random.command_path();
    assert!(path.starts_with("replays/"));
    assert!(path.ends_with(".json"));
    assert_eq!(path.len(), "replays/".len() + 36 + ".json".len());
    assert!(path["replays/".len()..path.len() - 5].chars().all(|c| c.is_ascii_hexdigit() || c == '-'));
}

#[test]
fn replay_lookup_decisions() {
    assert_eq!(locate_replay("/a", None).err(), Some(ReplayLookupError::MatchNotFound));
    assert_eq!(locate_replay("/a", Some((None, 2))).err(), Some(ReplayLookupError::Unavailable));
    assert!(matches!(locate_replay("/a", Some((Some("x/y".to_string()), 2))), Err(ReplayLookupError::InvalidArtifact(_))));
    let found = locate_replay("/a", Some((Some("replays/y".to_string()), 2))).unwrap();
    assert_eq!(found.path(), "/a/replays/y");
    assert_eq!(found.participant_count(), 2);
    assert!(matches!(accept_replay_file(found, true, 0), Err(ReplayLookupError::InvalidArtifact(_))));
    assert_eq!(amount_to_delete(7, 50), 3);
    assert_eq!(amount_to_delete(7, 200), 7);
    assert_eq!(amount_to_delete(0, 50), 0);
}

#[test]
fn replay_viewer_decisions() {
    assert_eq!(asset_path("").unwrap(), "test.html");
    assert_eq!(asset_path("assets/a.png").unwrap(), "assets/a.png");
    assert_eq!(asset_path("../secret"), Err(ReplayError::AssetNotFound));
    assert_eq!(asset_path("/etc"), Err(ReplayError::AssetNotFound));
    assert_eq!(exposed_directory("Exposed web server dir: /tmp/x  ").unwrap(), "/tmp/x");
    assert!(exposed_directory("other").is_none());
    assert_eq!(started_replay("s1".to_string()).viewer_url, "/api/replays/s1/test.html");
    assert_eq!(
        with_renderer_stderr(ReplayError::StartupFailed("exit".to_string()), b"  boom \n"),
        ReplayError::StartupFailed("exit: boom".to_string())
    );
    assert_eq!(
        with_renderer_stderr(ReplayError::StartupTimeout(String::new()), b"late"),
        ReplayError::StartupTimeout("late".to_string())
    );
    assert_eq!(with_renderer_stderr(ReplayError::AssetNotFound, b"x"), ReplayError::AssetNotFound);
    let expired = expired_sessions(&vec![("a".to_string(), 5), ("b".to_string(), 10)], 10);
    assert_eq!(expired, strings(&["b"]));
}

fn metadata(upstream: &str, observed: Option<&str>, behind: Option<u32>) -> ManagedMetadata {
    ManagedMetadata {
        repository_url: "https://example.com/r.git".to_string(),
        branch: "main".to_string(),
        upstream_commit: upstream.to_string(),
        adaptation_commit: "c".to_string(),
        last_successful_check: None,
        observed_remote_commit: observed.map(str::to_string),
        observed_ahead: None,
        observed_behind: behind,
    }
}

fn selected(branch: Option<&str>) -> ManagedCodingameRefereeConfig {
    ManagedCodingameRefereeConfig {
        repository_url: "https://example.com/r.git".to_string(),
        branch: branch.map(str::to_string),
        maven: None,
        java: None,
    }
}

#[test]
fn managed_referee_decisions() {
    let mut status = OperationStatus::default();
    assert!(status.reserve(RefereeAction::Check).is_ok());
    assert_eq!(status.reserve(RefereeAction::Update), Err(RefereeAction::Check));
    status.finish("done".to_string());
    assert!(status.action.is_none());
    assert_eq!(status.diagnostic.as_deref(), Some("done"));

    assert_eq!(update_status(None), UpdateStatus::Unavailable);
    assert_eq!(update_status(Some(&metadata("a", Some("a"), Some(3)))), UpdateStatus::UpToDate);
    assert_eq!(update_status(Some(&metadata("a", Some("b"), Some(3)))), UpdateStatus::UpdateAvailable);
    assert_eq!(update_status(Some(&metadata("a", Some("b"), Some(0)))), UpdateStatus::UpToDate);
    assert_eq!(update_status(Some(&metadata("a", None, Some(3)))), UpdateStatus::Unavailable);

    assert!(!replacement_required(Some(&selected(None)), Some(&metadata("a", None, None))));
    assert!(replacement_required(Some(&selected(Some("dev"))), Some(&metadata("a", None, None))));
    assert_eq!(update_target(&metadata("a", None, None), &selected(None)), Err(UpdateRefusal::NotChecked));
    assert_eq!(update_target(&metadata("a", Some("a"), None), &selected(None)), Err(UpdateRefusal::AlreadyUpToDate));
    assert_eq!(update_target(&metadata("a", Some("b"), None), &selected(Some("x"))), Err(UpdateRefusal::SelectionDiffers));
    assert_eq!(update_target(&metadata("a", Some("b"), None), &selected(Some("main"))).unwrap(), "b");

    assert_eq!(parse_divergence("3\t5\n"), Ok((5, 3)));
    assert_eq!(parse_divergence(""), Err(DivergenceError::MissingLeft));
    assert_eq!(parse_divergence("3"), Err(DivergenceError::MissingRight));
    assert_eq!(parse_divergence("x 1"), Err(DivergenceError::InvalidCount));

    let local = local_status_from(" M a\n?? b\n", Some((2, 0)));
    assert!(local.unstaged && local.untracked && !local.staged);
    assert!(local.has_worktree_changes());
    assert!(local.has_user_changes());
    let clean = LocalStatus { ahead: Some(1), behind: Some(0), staged: false, unstaged: false, untracked: false };
    assert!(!clean.has_user_changes());

    assert_eq!(
        clone_arguments(&selected(Some("dev")), "/c"),
        strings(&["clone", "--origin", "upstream", "--branch", "dev", "--single-branch", "--", "https://example.com/r.git", "/c"])
    );
    assert_eq!(check_summary(1, 2, "abc"), "Update available: installed base is 1 ahead and 2 behind abc");
    assert_eq!(check_summary(1, 0, "abc"), "Referee is up to date at abc");

    assert!(matches!(choose_jar(true, &vec![]), Ok(BuiltJar::Maintained)));
    let names = strings(&["summer-challenge-2025-super-soaker-1.0-SNAPSHOT.jar", "original-x.jar", "x-sources.jar", ".jar", "notes.txt"]);
    assert!(matches!(choose_jar(false, &names), Ok(BuiltJar::Single(n)) if n == "summer-challenge-2025-super-soaker-1.0-SNAPSHOT.jar"));
    assert!(matches!(choose_jar(false, &strings(&["a.jar", "b.jar"])), Err(JarError::Several(all)) if all.len() == 2));
    assert!(matches!(
        choose_jar(false, &strings(&["zeta.jar", "original-zeta.jar", "Beta.jar", "alpha-1.0.jar", "alpha.jar"])),
        Err(JarError::Several(all)) if all == strings(&["Beta.jar", "alpha-1.0.jar", "alpha.jar", "zeta.jar"])
    ));
    assert!(matches!(choose_jar(false, &vec![]), Err(JarError::NoJar)));
}

fn worker(referee: RefereeConfig) -> WorkerConfig {
    WorkerConfig::Embedded(EmbeddedWorkerConfig {
        threads: 1,
        cmd_build: "build {DIR} {LANG}".to_string(),
        cmd_run: "run {DIR}/bot --lang={LANG}".to_string(),
        cmd_play_match: "play {SEED} {P2} {PLAYERS}".to_string(),
        referee,
    })
}

#[test]
fn runtime_decisions() {
    let mut config = ArenaConfig {
        workers: vec![worker(RefereeConfig::ManagedCodingame(selected(None)))],
        game: GameConfig { min_players: 2, max_players: 2, symmetric: true },
        matchmaking: MatchmakingConfig {
            enabled_on_start: None,
            algorithm: MatchmakingAlgorithmConfig::V2(MatchmakingAlgorithmV2Config {
                min_matches_against_best: None,
                min_matches_per_pair: 1,
                max_matches: None,
            }),
        },
    };
    assert!(managed_configuration(&config).is_some());
    set_matchmaking_intent(&mut config, false);
    assert_eq!(config.matchmaking.enabled_on_start, Some(false));
    config.workers.push(worker(RefereeConfig::ManagedCodingame(selected(None))));
    assert!(managed_configuration(&config).is_none());

    let plan = activation_plan(true, true, true, true);
    assert_eq!(
        recovery(plan, ActivationFailure::PublishArtifact),
        vec![RecoveryStep::ReturnCheckoutToCandidate, RecoveryStep::RestoreCheckoutBackup, RecoveryStep::RestoreArtifactBackup]
    );
    let plan = activation_plan(false, false, false, false);
    assert_eq!(recovery(plan, ActivationFailure::StageCheckout), vec![]);
}

#[test]
fn every_failure_restores_exactly_the_backups() {
    let failures = [
        ActivationFailure::StageCheckout,
        ActivationFailure::PublishCheckout,
        ActivationFailure::PublishArtifact,
        ActivationFailure::Activate,
        ActivationFailure::Persist,
    ];
    for artifact in [false, true] {
        for checkout in [false, true] {
            let plan = activation_plan(artifact, true, checkout, true);
            for failure in failures {
                let steps = recovery(plan, failure);
                assert_eq!(steps.contains(&RecoveryStep::RestoreArtifactBackup), artifact);
                if failure != ActivationFailure::StageCheckout {
                    assert_eq!(steps.contains(&RecoveryStep::RestoreCheckoutBackup), checkout);
                }
                assert!(!steps.contains(&RecoveryStep::DiscardArtifactBackup));
                assert!(!steps.contains(&RecoveryStep::DiscardCheckoutBackup));
            }
            let done = cleanup(plan);
            assert_eq!(done.contains(&RecoveryStep::DiscardArtifactBackup), artifact);
            assert!(!done.contains(&RecoveryStep::RestoreArtifactBackup));
        }
    }
    assert_eq!(
        recovery(activation_plan(true, true, true, true), ActivationFailure::Persist),
        vec![
            RecoveryStep::ShutDownNewRuntime,
            RecoveryStep::RemovePublishedArtifact,
            RecoveryStep::RestoreArtifactBackup,
            RecoveryStep::RemovePublishedCheckout,
            RecoveryStep::RestoreCheckoutBackup,
            RecoveryStep::RestoreMetadata,
            RecoveryStep::RestorePreviousRuntime,
            RecoveryStep::RemoveCandidateRoot,
        ]
    );
}

#[test]
fn embedded_worker_commands() {
    let dir = bot_directory(BotId(12));
    assert_eq!(dir, "bots/12");
    assert_eq!(build_command_parts("build  {DIR}\t{LANG}", &dir, "rust"), strings(&["build", "bots/12", "rust"]));
    assert_eq!(run_command("run {DIR}/{DIR} {LANG}", &dir, "cpp"), "run bots/12/bots/12 cpp");
    let commands = strings(&["run a", "run b"]);
    assert_eq!(
        play_match_command_parts("play {SEED} {P2} {PLAYERS}", 9, &commands),
        strings(&["play", "9", "run b", "run a run b"])
    );
    let language = Language::try_from("rust".to_string()).unwrap();
    let input = PlayMatchInput {
        bots: vec![
            PlayMatchBot { bot_id: BotId(1), language: language.duplicate() },
            PlayMatchBot { bot_id: BotId(2), language },
        ],
        seed: 4,
    };
    let output = play_match_output(&input, &CmdPlayMatchStdout { ranks: vec![1, 0], errors: vec![0, 1] });
    assert_eq!(output.seed, 4);
    assert_eq!(output.participants[0].rank, 1);
    assert!(output.participants[1].error);
}

#[test]
fn text_helpers_follow_std() {
    let text = "a\r\nb\n\nc\r";
    let expected: Vec<String> = text.lines().map(str::to_string).collect();
    assert_eq!(lines_of(text), expected);
    assert_eq!(replace_text("from '../config.js'", "from '../config.js'", "from './config.js'"), "from './config.js'");
    assert_eq!(replace_text("aaa", "aa", "b"), "aaa".replace("aa", "b"));
}

#[test]
fn scheduled_matches_expand_to_every_seat_order() {
    let scheduled = ScheduledMatch { seed: 3, bot_ids: vec![BotId(1), BotId(2), BotId(3)] };
    let all = scheduled.into_permutations();
    assert_eq!(all.len(), 6);
    assert_eq!(all[0].bot_ids, vec![BotId(1), BotId(2), BotId(3)]);
    assert!(all.iter().all(|m| m.seed == 3));
}

#[test]
fn managed_referee_status_report() {
    let referee = ManagedReferee::new("/arena".to_string());
    let local = LocalStatus { ahead: Some(1), behind: Some(2), staged: true, unstaged: false, untracked: true };
    let status = referee.status(
        Some(selected(Some("other"))),
        OperationStatus::default(),
        Some(metadata("u", Some("v"), Some(3))),
        true,
        true,
        Some(local),
    );
    assert!(status.installed);
    assert!(status.replacement_required);
    assert_eq!(status.checkout_path, "/arena/referee");
    assert_eq!(status.artifact_path, "/arena/.cgarena/referee/referee.jar");
    assert_eq!(status.branch.as_deref(), Some("main"));
    assert_eq!(status.upstream_commit.as_deref(), Some("u"));
    assert_eq!(status.committed_ahead, Some(1));
    assert_eq!(status.committed_behind, Some(2));
    assert!(status.staged && !status.unstaged && status.untracked);
    assert_eq!(status.update_status, UpdateStatus::UpdateAvailable);
    assert_eq!(status.observed_remote_commit.as_deref(), Some("v"));

    let mut busy = OperationStatus::default();
    busy.reserve(RefereeAction::Update).unwrap();
    let status = referee.status(None, busy, None, true, false, Some(local));
    assert!(!status.installed);
    assert!(!status.replacement_required);
    assert_eq!(status.committed_ahead, None);
    assert!(!status.staged && !status.untracked);
    assert_eq!(status.update_status, UpdateStatus::Unavailable);
    assert!(matches!(status.operation.action, Some(RefereeAction::Update)));
}

#[test]
fn applying_a_configuration() {
    assert_eq!(apply_plan(false, Some(false)), ApplyPlan::FirstActivation);
    assert_eq!(apply_plan(false, None), ApplyPlan::FirstActivation);
    assert_eq!(apply_plan(true, Some(false)), ApplyPlan::AwaitInstallation);
    assert_eq!(apply_plan(true, Some(true)), ApplyPlan::Replace);
    assert_eq!(apply_plan(true, None), ApplyPlan::Replace);
    assert_eq!(replace_outcome(false, false), ReplaceOutcome::Restore);
    assert_eq!(replace_outcome(true, false), ReplaceOutcome::ShutDownAndRestore);
    assert_eq!(replace_outcome(true, true), ReplaceOutcome::Activated);
}

#[test]
fn served_assets_carry_their_media_type() {
    let page = served_asset("test.html", Ok(vec![60, 104])).unwrap();
    assert_eq!(page.bytes, vec![60, 104]);
    assert_eq!(page.content_type, "text/html");
    let image = served_asset("assets/sprite.png", Ok(vec![])).unwrap();
    assert_eq!(image.content_type, "image/png");
    let unknown = served_asset("data.unknownext", Ok(vec![1])).unwrap();
    assert_eq!(unknown.content_type, "application/octet-stream");
    assert!(matches!(served_asset("x.js", Err(None)), Err(ReplayError::AssetNotFound)));
    assert!(matches!(served_asset("x.js", Err(Some("denied".to_string()))), Err(ReplayError::Internal(m)) if m == "denied"));
}

#[test]
fn codingame_renderer_rejects_exposed_directory_escape() {
    match check_exposed_directory("/work/outside", "/tmp/render") {
        Err(ReplayError::StartupFailed(message)) => assert!(message.contains("outside")),
        _ => panic!("an escaping directory must be refused"),
    }
    assert!(matches!(check_exposed_directory("/tmp/render", "/tmp/render"), Err(ReplayError::StartupFailed(_))));
    assert!(check_exposed_directory("/tmp/render/bundle", "/tmp/render").is_ok());
}
