use cgarena::config::{CodingameJarRefereeConfig, CommandRefereeConfig, RefereeConfig};
use cgarena::referee_adapter::{
    check_replay_participants, codingame_match_result, normalized_app_script, referee_compatible, startup_diagnostic, expand_match_template, fill_replay_template,
    parse_codingame_attribute, strip_prefix_ignore_ascii_case, validate_match_result,
    CodingameReplay, CodingameReplayError, MatchCommandAttribute, MatchCommandOutput,
    MatchResultError, MatchResultSource, RefereeAdapter, RefereeError, ReplayCheckError,
};

fn command(play_match: &str, watch_replay: &str) -> RefereeConfig {
    RefereeConfig::Command(CommandRefereeConfig {
        play_match: play_match.to_string(),
        watch_replay: watch_replay.to_string(),
        legacy: false,
    })
}

fn strings(words: &[&str]) -> Vec<String> {
    words.iter().map(|w| w.to_string()).collect()
}

#[test]
fn replay_command_preserves_quoted_paths_and_requires_contract() {
    let config = command(
        "true",
        "\"renderer path\" {REPLAY_PATH} {REPLAY_DIR} {PORT} {PLAYER_COUNT}",
    );
    let command = RefereeAdapter::from_config(&config)
        .prepare_replay_command("/artifact path/replay.json", "/session path", "/unused", 12345, 4)
        .unwrap();
    assert_eq!(command.program, "renderer path");
    assert_eq!(
        command.args,
        ["/artifact path/replay.json", "/session path", "12345", "4",]
    );

    let incomplete = command_config_incomplete();
    let result = RefereeAdapter::from_config(&incomplete).prepare_replay_command(
        "replay.json",
        "session",
        "unused",
        1,
        2,
    );
    let Err(error) = result else {
        panic!("incomplete replay command must be rejected");
    };
    assert!(error.to_string().contains("{REPLAY_DIR}"));
}

fn command_config_incomplete() -> RefereeConfig {
    command("true", "renderer {REPLAY_PATH}")
}

#[test]
fn command_referee_fills_match_placeholders() {
    let config = command("referee --seed {SEED} {PLAYERS} --first {P1} --zero {P0} -o {REPLAY_PATH}", "x");
    let players = strings(&["./a", "./b c"]);
    let prepared = RefereeAdapter::from_config(&config)
        .prepare_match_command(-5, &players, Some("replays/x.json"))
        .unwrap();
    assert_eq!(
        prepared.argv,
        strings(&["referee", "--seed", "-5", "./a", "./b c", "--first", "./a", "--zero", "./a", "-o", "replays/x.json"])
    );
    assert_eq!(prepared.result_source, MatchResultSource::CommandStdout);
}

#[test]
fn command_referee_errors() {
    let players = strings(&["./a"]);
    let missing_player = command("referee {P2}", "x");
    assert!(matches!(
        RefereeAdapter::from_config(&missing_player).prepare_match_command(1, &players, None),
        Err(RefereeError::MissingPlayer(part)) if part == "{P2}"
    ));
    let missing_replay = command("referee {REPLAY_PATH}", "x");
    assert!(matches!(
        RefereeAdapter::from_config(&missing_replay).prepare_match_command(1, &players, None),
        Err(RefereeError::CommandReplayPathMissing)
    ));
    let quoting = command("referee \"open", "x");
    assert!(matches!(
        RefereeAdapter::from_config(&quoting).prepare_match_command(1, &players, None),
        Err(RefereeError::PlayMatchQuoting)
    ));
    let blank = command("   ", "x");
    assert!(matches!(
        RefereeAdapter::from_config(&blank).prepare_match_command(1, &players, None),
        Err(RefereeError::BlankPlayMatch)
    ));
    assert_eq!(RefereeError::BlankPlayMatch.to_string(), "command referee play_match must not be blank");
}

#[test]
fn replay_placeholders_are_required_in_order() {
    assert!(matches!(fill_replay_template(vec![], "a", "b", 1, 2), Err(RefereeError::BlankWatchReplay)));
    let parts = strings(&["r", "{REPLAY_DIR}"]);
    assert!(matches!(
        fill_replay_template(parts, "a", "b", 1, 2),
        Err(RefereeError::MissingPlaceholder(p)) if p == "{REPLAY_PATH}"
    ));
}

#[test]
fn play_template_words_expand_alone() {
    let template = strings(&["{PLAYERS}", "{P+1}", "{P}", "x"]);
    let players = strings(&["p1", "p2"]);
    let argv = expand_match_template(&template, 3, &players, None).unwrap();
    assert_eq!(argv, strings(&["p1", "p2", "p1", "{P}", "x"]));
}

#[test]
fn codingame_referee_command_line() {
    let config = RefereeConfig::CodingameJar(CodingameJarRefereeConfig {
        java: None,
        path: "referee.jar".to_string(),
        league: None,
    });
    let adapter = RefereeAdapter::from_config(&config);
    assert!(adapter.match_replay_required());
    assert!(matches!(
        adapter.prepare_match_command(7, &strings(&["a", "b"]), None),
        Err(RefereeError::CodingameReplayPathMissing)
    ));
    let prepared = adapter.prepare_match_command(7, &strings(&["a", "b"]), Some("r.json")).unwrap();
    assert_eq!(
        prepared.argv,
        strings(&[
            "java", "--add-opens", "java.base/java.lang=ALL-UNNAMED", "-jar", "referee.jar", "-p1", "a", "-p2",
            "b", "-seed", "7", "-league", "19", "-l", "r.json"
        ])
    );
    assert_eq!(prepared.result_source, MatchResultSource::CodingameReplay);
    let replay = adapter.prepare_replay_command("art.json", "s", "/tmp/x", 80, 2).unwrap();
    assert_eq!(replay.program, "java");
    assert_eq!(replay.args[0], "-Djava.io.tmpdir=/tmp/x");
    assert_eq!(replay.args[8], "80");
}

#[test]
fn command_referee_replay_requirement_follows_its_template() {
    assert!(RefereeAdapter::from_config(&command("r {REPLAY_PATH}", "x")).match_replay_required());
    assert!(!RefereeAdapter::from_config(&command("r {SEED}", "x")).match_replay_required());
}

#[test]
fn attribute_lines_are_parsed() {
    let attribute = parse_codingame_attribute("  [pdata] [12] score = 42 ", 3).unwrap();
    assert_eq!(attribute.name, "score");
    assert_eq!(attribute.player, Some(3));
    assert_eq!(attribute.turn, Some(12));
    assert_eq!(attribute.value, "42");
    let attribute = parse_codingame_attribute("[TDATA]winner=blue", 0).unwrap();
    assert_eq!(attribute.player, None);
    assert_eq!(attribute.turn, None);
    assert!(parse_codingame_attribute("[TDATA] bad name = 1", 0).is_none());
    assert!(parse_codingame_attribute("[TDATA] [x] a = 1", 0).is_none());
    assert!(parse_codingame_attribute("plain output", 0).is_none());
    assert_eq!(strip_prefix_ignore_ascii_case("[TdAtA]rest", "[TDATA]"), Some("rest"));
    assert_eq!(strip_prefix_ignore_ascii_case("[T", "[TDATA]"), None);
}

fn output(ranks: Vec<u8>, errors: Vec<u8>, scores: Vec<i32>, attributes: Vec<MatchCommandAttribute>) -> MatchCommandOutput {
    MatchCommandOutput { scores, ranks, errors, attributes }
}

#[test]
fn match_results_are_validated() {
    assert_eq!(validate_match_result(&output(vec![0, 1], vec![0, 0], vec![], vec![]), 2), Ok(()));
    assert_eq!(
        validate_match_result(&output(vec![0], vec![0, 0], vec![], vec![]), 2),
        Err(MatchResultError::WrongLength { bot_count: 2 })
    );
    assert_eq!(
        validate_match_result(&output(vec![0, 1], vec![0, 0], vec![5], vec![]), 2),
        Err(MatchResultError::WrongScoreCount { scores: 1, bot_count: 2 })
    );
    let stray = MatchCommandAttribute { player: Some(2), ..Default::default() };
    assert_eq!(
        validate_match_result(&output(vec![0, 1], vec![0, 0], vec![], vec![stray]), 2),
        Err(MatchResultError::MissingPlayer { player: 2 })
    );
}

#[test]
fn codingame_results_rank_by_score() {
    let replay = CodingameReplay {
        scores: Some(vec![("1".to_string(), Some(10)), ("0".to_string(), Some(-1)), ("2".to_string(), Some(10))]),
        errors: Some(vec![(
            "2".to_string(),
            vec![Some("noise\n[PDATA] hp = 3\r\n[TDATA][4] round=2".to_string()), None],
        )]),
    };
    let result = codingame_match_result(&replay, 3).unwrap();
    assert_eq!(result.scores, vec![-1, 10, 10]);
    assert_eq!(result.ranks, vec![2, 0, 0]);
    assert_eq!(result.errors, vec![1, 0, 0]);
    assert_eq!(result.attributes.len(), 2);
    assert_eq!(result.attributes[0].name, "hp");
    assert_eq!(result.attributes[0].player, Some(2));
    assert_eq!(result.attributes[1].turn, Some(4));
}

#[test]
fn codingame_results_need_every_score() {
    let no_scores = CodingameReplay { scores: None, errors: None };
    assert_eq!(codingame_match_result(&no_scores, 2).err(), Some(CodingameReplayError::NoScores));
    let short = CodingameReplay { scores: Some(vec![("0".to_string(), Some(1))]), errors: None };
    assert_eq!(
        codingame_match_result(&short, 2).err(),
        Some(CodingameReplayError::ScoreCount { scores: 1, players: 2 })
    );
    let not_integer = CodingameReplay {
        scores: Some(vec![("0".to_string(), None), ("1".to_string(), Some(1))]),
        errors: None,
    };
    assert_eq!(codingame_match_result(&not_integer, 2).err(), Some(CodingameReplayError::ScoreNotInteger));
    let too_big = CodingameReplay {
        scores: Some(vec![("0".to_string(), Some(1 << 40)), ("1".to_string(), Some(1))]),
        errors: None,
    };
    assert_eq!(codingame_match_result(&too_big, 2).err(), Some(CodingameReplayError::ScoreOutOfRange));
}

#[test]
fn replay_participants_must_match() {
    assert_eq!(check_replay_participants(Some(2), 2), Ok(()));
    assert_eq!(check_replay_participants(None, 2), Err(ReplayCheckError::NoAgents));
    assert_eq!(
        check_replay_participants(Some(1), 2),
        Err(ReplayCheckError::ParticipantMismatch { agents: 1, participants: 2 })
    );
}

#[test]
fn compatibility_needs_success_and_the_version_line() {
    assert!(referee_compatible(true, "starting\n  cgarena-referee-v1  \n"));
    assert!(!referee_compatible(false, "cgarena-referee-v1\n"));
    assert!(!referee_compatible(true, "cgarena-referee-v2\n"));
    assert!(!referee_compatible(true, "xcgarena-referee-v1\n"));
    assert_eq!(startup_diagnostic(" out \n", "  \n"), "out");
    assert_eq!(startup_diagnostic(" out ", " err\n"), "err");
}

#[test]
fn renderer_script_loads_from_its_bundle() {
    let script = "import { config } from '../config.js';\nimport { demo } from '../demo.js';\nconst options = { viewerUrl: '/core/Drawer.js' };\nimport x from '../config.js'";
    assert_eq!(
        normalized_app_script(script),
        "import { config } from './config.js';\nimport { demo } from './demo.js';\nconst options = { viewerUrl: './core/Drawer.js' };\nimport x from './config.js'"
    );
    assert_eq!(normalized_app_script("plain"), "plain");
}

#[test]
fn replay_files_are_read_from_json() {
    use_replay_files();
}

fn use_replay_files() {
    let bytes = br#"{"scores":{"0":5,"1":7},"errors":{"1":["[PDATA] hp = 3", 4]},"agents":[1,2]}"#;
    let result = cgarena::referee_adapter::read_codingame_match_result(bytes, 2).unwrap();
    assert_eq!(result.scores, vec![5, 7]);
    assert_eq!(result.ranks, vec![1, 0]);
    assert_eq!(result.attributes.len(), 1);
    assert_eq!(result.attributes[0].player, Some(1));
    let short = cgarena::referee_adapter::read_codingame_match_result(br#"{"scores":{"0":1}}"#, 2).unwrap_err();
    assert_eq!(short.to_string(), "codingame replay has 1 scores for 2 bots");
    let broken = cgarena::referee_adapter::read_codingame_match_result(b"not json", 2).unwrap_err();
    assert_eq!(broken.to_string(), "codingame replay artifact must be valid JSON");
    assert_eq!(cgarena::referee_adapter::validate_codingame_replay(bytes, 2), Some(Ok(())));
    let mismatch = cgarena::referee_adapter::validate_codingame_replay(bytes, 3).unwrap().unwrap_err();
    assert_eq!(mismatch.to_string(), "artifact has 2 participants, match has 3");
    assert_eq!(
        cgarena::referee_adapter::validate_codingame_replay(b"{}", 2).unwrap().unwrap_err().to_string(),
        "artifact has no agents array"
    );
    assert_eq!(cgarena::referee_adapter::validate_codingame_replay(b"[", 2), None);
}

#[test]
fn match_result_errors_have_messages() {
    let output = MatchCommandOutput {
        scores: vec![],
        ranks: vec![0, 1],
        errors: vec![0, 0],
        attributes: vec![MatchCommandAttribute { name: "x".into(), player: Some(2), turn: None, value: "1".into() }],
    };
    let error = validate_match_result(&output, 2).unwrap_err();
    assert_eq!(error.to_string(), "play match output references missing player 2");
    assert_eq!(
        MatchResultError::WrongScoreCount { scores: 1, bot_count: 2 }.to_string(),
        "play match output has 1 scores for 2 bots"
    );
    assert_eq!(
        MatchResultError::WrongLength { bot_count: 3 }.to_string(),
        "play match output must contain ranks and errors for 3 bots"
    );
    assert_eq!(CodingameReplayError::ScoreNotInteger.to_string(), "codingame replay score is not an integer");
}
