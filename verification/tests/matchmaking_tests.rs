use cgarena::config::GameConfig;
use cgarena::domain::ids::BotId;
use cgarena::matchmaking::{
    create_match, pick_participants_v2, v2_inputs_are_valid, Candidate, MatchmakingAlgorithmConfig,
    MatchmakingAlgorithmV2Config, MatchmakingConfig,
};

fn candidate(id: i64, rating: f64, matches_total: u64, matches_vs: Vec<(i64, u64)>) -> Candidate {
    Candidate {
        id: BotId::from(id),
        rating: rating.to_bits(),
        matches_total,
        matches_vs: matches_vs.into_iter().map(|(opp, n)| (BotId::from(opp), n)).collect(),
    }
}

fn three_candidates() -> Vec<Candidate> {
    vec![
        candidate(1, 2.0, 5, vec![(2, 3), (3, 2)]),
        candidate(2, 1.0, 3, vec![(1, 3), (3, 0)]),
        candidate(3, 1.0, 2, vec![(1, 2), (2, 0)]),
    ]
}

fn sorted_ids(ids: Vec<BotId>) -> Vec<i64> {
    let mut ids: Vec<i64> = ids.into_iter().map(i64::from).collect();
    ids.sort();
    ids
}

#[test]
fn v2_prio_best() {
    let config = MatchmakingAlgorithmV2Config {
        min_matches_against_best: Some(3),
        min_matches_per_pair: 5,
        max_matches: None,
    };
    let candidates = three_candidates();
    assert!(v2_inputs_are_valid(&config, &candidates));

    let bot_ids = sorted_ids(pick_participants_v2(2, &config, &candidates).unwrap());

    assert_eq!(&bot_ids, &[1, 3]);
}

#[test]
fn v2_lower_pair() {
    let config = MatchmakingAlgorithmV2Config {
        min_matches_against_best: None,
        min_matches_per_pair: 5,
        max_matches: None,
    };
    let candidates = three_candidates();
    assert!(v2_inputs_are_valid(&config, &candidates));

    let bot_ids = sorted_ids(pick_participants_v2(2, &config, &candidates).unwrap());

    assert_eq!(&bot_ids, &[2, 3]);
}

#[test]
fn v2_stops_when_every_bot_reached_the_cap() {
    let config = MatchmakingAlgorithmV2Config {
        min_matches_against_best: None,
        min_matches_per_pair: 0,
        max_matches: Some(2),
    };
    let candidates = three_candidates();
    assert!(pick_participants_v2(2, &config, &candidates).is_none());
}

#[test]
fn too_few_candidates_create_no_match() {
    let game = GameConfig { min_players: 2, max_players: 2, symmetric: true };
    let config = MatchmakingConfig {
        enabled_on_start: None,
        algorithm: MatchmakingAlgorithmConfig::V2(MatchmakingAlgorithmV2Config {
            min_matches_against_best: None,
            min_matches_per_pair: 5,
            max_matches: None,
        }),
    };
    let one = vec![candidate(1, 1.0, 0, vec![])];
    assert!(create_match(&game, &config, &one, false).is_empty());
}

#[test]
fn v2_matches_hold_the_decided_pair() {
    let game = GameConfig { min_players: 2, max_players: 3, symmetric: false };
    let config = MatchmakingConfig {
        enabled_on_start: None,
        algorithm: MatchmakingAlgorithmConfig::V2(MatchmakingAlgorithmV2Config {
            min_matches_against_best: Some(3),
            min_matches_per_pair: 5,
            max_matches: None,
        }),
    };
    let matches = create_match(&game, &config, &three_candidates(), false);
    assert!(!matches.is_empty());
    let first = &matches[0].bot_ids;
    assert!(first.contains(&BotId::from(1)) && first.contains(&BotId::from(3)));
    assert!(first.len() >= 2 && first.len() <= 3);
    let factorial: usize = (1..=first.len()).product();
    assert_eq!(matches.len(), factorial);
    assert!(matches.iter().all(|m| m.seed == matches[0].seed && m.bot_ids.len() == first.len()));
}
