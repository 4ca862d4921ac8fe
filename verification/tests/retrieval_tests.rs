use cgarena::domain::ids::{BotId, MatchId};
use cgarena::domain::matches::{Match, MatchAttributeValue};
use cgarena::domain::names::BotName;
use cgarena::match_retrieval::{
    attribute_from_row, attributes_of_match, hydrate_attributes, included_bot_ids, match_from_rows, match_overview, requested_matches, split_page,
    MatchAttributesJoinedRow, MatchCollection, MatchRowError, MatchesRow, ParticipationsRow,
};

fn seat(index: u8, bot: i64) -> ParticipationsRow {
    ParticipationsRow { match_id: 1, bot_id: bot, index, rank: index, error: false }
}

fn attribute_row(name: &str, int: Option<i64>, float: Option<f64>, text: Option<&str>) -> MatchAttributesJoinedRow {
    MatchAttributesJoinedRow {
        name: name.to_string(),
        match_id: 1,
        bot_id: None,
        turn: None,
        value_int: int,
        value_float: float.map(f64::to_bits),
        value_string: text.map(str::to_string),
    }
}

fn row(count: u8) -> MatchesRow {
    MatchesRow { id: 4, seed: 9, participant_cnt: count, replay_path: None }
}

#[test]
fn rows_become_matches_in_seat_order() {
    let m = match_from_rows(
        row(2),
        vec![seat(1, 20), seat(0, 10)],
        vec![attribute_row("a", Some(1), None, None), attribute_row("bad", Some(1), Some(2.0), None), attribute_row("c", None, None, Some("x"))],
    )
    .unwrap();
    assert_eq!(m.id, MatchId(4));
    assert_eq!(m.participants[0].bot_id, BotId(10));
    assert_eq!(m.participants[1].bot_id, BotId(20));
    assert_eq!(m.attributes.len(), 2);
    assert_eq!(m.attributes[0].name, "a");
    assert!(matches!(m.attributes[1].value, MatchAttributeValue::String(ref s) if s == "x"));
    assert_eq!(
        match_from_rows(row(3), vec![seat(0, 1)], vec![]).err(),
        Some(MatchRowError::ParticipantCountMismatch)
    );
    assert_eq!(
        match_from_rows(row(2), vec![seat(0, 1), seat(0, 2)], vec![]).err(),
        Some(MatchRowError::ParticipationIndexMissing)
    );
    assert_eq!(
        match_from_rows(row(2), vec![seat(0, 1), seat(2, 2)], vec![]).err(),
        Some(MatchRowError::ParticipationIndexMissing)
    );
    assert!(attribute_from_row(attribute_row("none", None, None, None)).is_none());
}

fn stored(seed: i64) -> Match {
    Match::new(seed, vec![], vec![], None)
}

#[test]
fn scans_skip_the_offset_and_stop_at_the_maximum() {
    let mut scan = MatchCollection::new();
    scan.absorb_batch(vec![(9, Some(stored(9))), (8, None), (7, Some(stored(7))), (6, Some(stored(6)))], 1, Some(2));
    assert_eq!(scan.skipped, 1);
    assert_eq!(scan.matches.iter().map(|m| m.seed).collect::<Vec<_>>(), vec![7, 6]);
    assert!(scan.done);
    assert_eq!(scan.before_id, Some(6));

    let mut scan = MatchCollection::new();
    scan.absorb_batch(vec![], 0, None);
    assert!(scan.done);
}

#[test]
fn pages_look_ahead_by_one() {
    assert_eq!(requested_matches(10), 11);
    assert_eq!(requested_matches(usize::MAX), usize::MAX);
    let (page, more) = split_page(vec![stored(1), stored(2), stored(3)], 2);
    assert!(more);
    assert_eq!(page.len(), 2);
    let (page, more) = split_page(vec![stored(1)], 2);
    assert!(!more);
    assert_eq!(page.len(), 1);
}

#[test]
fn overviews_name_every_bot() {
    let names = vec![(BotId(1), BotName::try_from("one".to_string()).unwrap())];
    let m = match_from_rows(row(1), vec![seat(0, 1)], vec![]).unwrap();
    let overview = match_overview(m, &names).unwrap();
    assert_eq!(overview.participants[0].bot_name.as_str(), "one");
    assert_eq!(overview.participants[0].index, 0);
    let m = match_from_rows(row(1), vec![seat(0, 2)], vec![]).unwrap();
    assert_eq!(match_overview(m, &names).err(), Some(BotId(2)));
}

#[test]
fn included_bots_are_sorted_and_unique() {
    assert_eq!(included_bot_ids(vec![BotId(3), BotId(1), BotId(3), BotId(2)]), vec![1, 2, 3]);
    assert!(included_bot_ids(vec![]).is_empty());
}

fn bare_match(id: i64) -> Match {
    Match {
        id: MatchId(id),
        seed: id * 10,
        participants: vec![],
        attributes: vec![],
        replay_path: None,
        candidate_bot_id: None,
        evaluation_stage_revision_id: None,
    }
}

fn row_of(match_id: i64, name: &str, value: Option<i64>) -> MatchAttributesJoinedRow {
    let mut row = attribute_row(name, value, None, None);
    row.match_id = match_id;
    row
}

#[test]
fn attributes_go_to_their_match() {
    let rows = vec![row_of(1, "a", Some(1)), row_of(2, "b", Some(2)), row_of(1, "bad", None), row_of(1, "c", Some(3))];
    let names: Vec<String> = attributes_of_match(&rows, 1).into_iter().map(|a| a.name).collect();
    assert_eq!(names, vec!["a".to_string(), "c".to_string()]);
    assert!(attributes_of_match(&rows, 3).is_empty());

    let hydrated = hydrate_attributes(vec![bare_match(2), bare_match(1), bare_match(2), bare_match(5)], &rows);
    assert_eq!(hydrated.len(), 4);
    assert_eq!(hydrated[0].attributes.len(), 1);
    assert_eq!(hydrated[0].attributes[0].name, "b");
    assert_eq!(hydrated[1].attributes.len(), 2);
    assert_eq!(hydrated[1].seed, 10);
    assert!(hydrated[2].attributes.is_empty());
    assert!(hydrated[3].attributes.is_empty());
    assert_eq!(hydrated[3].id, MatchId(5));
}
