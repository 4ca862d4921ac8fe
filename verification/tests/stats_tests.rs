use cgarena::computed_stats::{ComputedStats, WinrateStats};
use cgarena::domain::ids::BotId;
use cgarena::domain::matches::{Match, Participant};

fn seat(bot: i64, rank: u8, error: bool) -> Participant {
    Participant { bot_id: BotId(bot), rank, error }
}

fn played(seed: i64, seats: Vec<Participant>) -> Match {
    Match::new(seed, seats, vec![], None)
}

#[test]
fn winrate_total_adds_all_outcomes() {
    let stats = WinrateStats { wins: 2, draws: 3, loses: 4 };
    assert_eq!(stats.total(), 9);
    let empty = WinrateStats::default();
    assert_eq!(empty.total(), 0);
}

#[test]
fn tallies_mirror_between_opponents() {
    let mut stats = ComputedStats::new();
    stats.recalc_after_matches(&vec![
        played(1, vec![seat(1, 0, false), seat(2, 1, true)]),
        played(2, vec![seat(1, 0, false), seat(2, 0, false)]),
        played(3, vec![seat(2, 0, false), seat(1, 1, false), seat(3, 2, true)]),
    ]);
    assert_eq!(stats.total_matches(), 3);
    assert_eq!(stats.matches_played_vs(BotId(1), BotId(2)), 3);
    assert_eq!(stats.matches_played_vs(BotId(2), BotId(1)), 3);
    assert_eq!(stats.matches_played_vs(BotId(1), BotId(1)), 0);
    assert_eq!(stats.matches_played(BotId(1)), 4);
    assert_eq!(stats.matches_with_error(BotId(2)), 1);
    assert_eq!(stats.matches_with_error(BotId(3)), 1);
    assert_eq!(stats.matches_with_error(BotId(1)), 0);
    let snapshot = stats.winrate_stats_snapshot();
    let one_two = snapshot.iter().find(|(k, _)| *k == (BotId(1), BotId(2))).unwrap().1;
    let two_one = snapshot.iter().find(|(k, _)| *k == (BotId(2), BotId(1))).unwrap().1;
    assert_eq!(one_two, WinrateStats { wins: 1, draws: 1, loses: 1 });
    assert_eq!(two_one, WinrateStats { wins: one_two.loses, draws: one_two.draws, loses: one_two.wins });
}

#[test]
fn example_seeds_keep_ten_distinct_newest_first() {
    let mut stats = ComputedStats::new();
    let matches: Vec<Match> = (0..12).map(|seed| played(seed, vec![seat(1, 0, false), seat(2, 1, false)])).collect();
    stats.recalc_after_matches(&matches);
    stats.recalc_after_matches(&vec![played(5, vec![seat(1, 0, false), seat(2, 1, false)])]);
    assert_eq!(stats.example_seeds(), vec![11, 10, 9, 8, 7, 6, 5, 4, 3, 2]);
    assert_eq!(stats.total_matches(), 13);
}
