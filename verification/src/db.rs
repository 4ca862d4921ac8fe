//! Rows and counters exchanged with the arena database, and the decoding
//! and encoding rules between rows and domain values.
use vstd::prelude::*;
use crate::domain::builds::{Build, BuildResult, BuildStatus};
use crate::domain::ids::{BotId, LeaderboardId};
use crate::domain::leaderboard::{Leaderboard, MatchFilter};
use crate::domain::names::{LeaderboardName, NameError, WorkerName};

verus! {

/// Progress of one candidate in one evaluation stage, as counted from the
/// stored matches. The lists stand for maps: each key occurs once.
#[derive(Debug, Clone)]
pub struct StageProgress {
    /// Matches played in the stage.
    pub matches: u64,
    /// Matches played against each benchmark.
    pub encounters: Vec<(BotId, u64)>,
    /// Matches played with each number of players.
    pub matches_by_player_count: Vec<(u32, u64)>,
    /// Matches in which the candidate reported an error.
    pub candidate_errors: u64,
}

impl StageProgress {
    /// A stage nothing has been played in.
    pub fn empty() -> (r: StageProgress)
        ensures
            r.matches == 0,
            r.encounters@.len() == 0,
            r.matches_by_player_count@.len() == 0,
            r.candidate_errors == 0,
    {
        StageProgress {
            matches: 0,
            encounters: Vec::new(),
            matches_by_player_count: Vec::new(),
            candidate_errors: 0,
        }
    }

    /// The progress from the stage's counts as the database reports them:
    /// the number of matches, (bot, matches) for each other participant,
    /// (player count, matches) for each player count, and the number of
    /// matches in which the candidate failed; each count is taken as
    /// unsigned, the player count as `u32`.
    pub fn from_counts(
        matches: i64,
        encounter_rows: Vec<(i64, i64)>,
        player_count_rows: Vec<(i64, i64)>,
        candidate_errors: i64,
    ) -> (r: StageProgress)
        ensures
            r.matches == matches as u64,
            r.candidate_errors == candidate_errors as u64,
            r.encounters@.len() == encounter_rows@.len(),
            forall|i: int| 0 <= i < encounter_rows@.len() ==> #[trigger] r.encounters@[i] == (
                BotId(encounter_rows@[i].0),
                encounter_rows@[i].1 as u64,
            ),
            r.matches_by_player_count@.len() == player_count_rows@.len(),
            forall|i: int| 0 <= i < player_count_rows@.len() ==> #[trigger] r.matches_by_player_count@[i] == (
                player_count_rows@[i].0 as u32,
                player_count_rows@[i].1 as u64,
            ),
    {
        let mut encounters: Vec<(BotId, u64)> = Vec::new();
        let mut i: usize = 0;
        while i < encounter_rows.len()
            invariant
                0 <= i <= encounter_rows@.len(),
                encounters@.len() == i,
                forall|j: int| 0 <= j < i ==> #[trigger] encounters@[j] == (
                    BotId(encounter_rows@[j].0),
                    encounter_rows@[j].1 as u64,
                ),
            decreases encounter_rows@.len() - i,
        {
            let (id, count) = encounter_rows[i];
            encounters.push((BotId(id), count as u64));
            i = i + 1;
        }
        let mut by_player_count: Vec<(u32, u64)> = Vec::new();
        let mut k: usize = 0;
        while k < player_count_rows.len()
            invariant
                0 <= k <= player_count_rows@.len(),
                by_player_count@.len() == k,
                forall|j: int| 0 <= j < k ==> #[trigger] by_player_count@[j] == (
                    player_count_rows@[j].0 as u32,
                    player_count_rows@[j].1 as u64,
                ),
            decreases player_count_rows@.len() - k,
        {
            let (players, count) = player_count_rows[k];
            by_player_count.push((players as u32, count as u64));
            k = k + 1;
        }
        StageProgress {
            matches: matches as u64,
            encounters,
            matches_by_player_count: by_player_count,
            candidate_errors: candidate_errors as u64,
        }
    }
}


/// A stored build: status 0 pending, 1 running, 2 finished; a finished
/// build's result 0 for success and 1 for failure, with the error output.
#[derive(Debug, Clone)]
pub struct BuildsRow {
    pub bot_id: i64,
    pub worker_name: String,
    pub status: u8,
    pub result: Option<u8>,
    pub error: Option<String>,
}

/// A stored leaderboard; the filter in its text form.
#[derive(Debug, Clone)]
pub struct LeaderboardsRow {
    pub id: i64,
    pub name: String,
    pub filter: String,
}

/// Why a stored row is not a domain value.
#[derive(Debug, Clone, Copy, PartialEq, Eq, Structural)]
pub enum RowError {
    /// The status columns of a build do not form a build status.
    UnexpectedBuildStatus,
    /// A stored name breaks the rules of names.
    InvalidName(NameError),
}

/// The build status the status columns encode, if any.
pub open spec fn decoded_status(status: u8, result: Option<u8>, error: Option<String>) -> Option<BuildStatus> {
    match (status, result, error) {
        (0, None, None) => Some(BuildStatus::Pending),
        (1, None, None) => Some(BuildStatus::Running),
        (2, Some(0), None) => Some(BuildStatus::Finished(BuildResult::Success)),
        (2, Some(1), Some(stderr)) => Some(BuildStatus::Finished(BuildResult::Failure { stderr })),
        _ => None,
    }
}

/// The status columns of a build status.
pub open spec fn encoded_status(status: BuildStatus) -> (u8, Option<u8>, Option<String>) {
    match status {
        BuildStatus::Pending => (0, None, None),
        BuildStatus::Running => (1, None, None),
        BuildStatus::Finished(BuildResult::Success) => (2, Some(0), None),
        BuildStatus::Finished(BuildResult::Failure { stderr }) => (2, Some(1), Some(stderr)),
    }
}

/// The row that stores a build.
pub fn build_row(build: &Build) -> (r: BuildsRow)
    ensures
        r.bot_id == build.bot_id.0,
        r.worker_name@ == build.worker_name@,
        (r.status, r.result, r.error) == encoded_status(build.status),
{
    let (status, result, error): (u8, Option<u8>, Option<String>) = match &build.status {
        BuildStatus::Pending => (0, None, None),
        BuildStatus::Running => (1, None, None),
        BuildStatus::Finished(BuildResult::Success) => (2, Some(0), None),
        BuildStatus::Finished(BuildResult::Failure { stderr }) => (2, Some(1), Some(stderr.clone())),
    };
    BuildsRow {
        bot_id: build.bot_id.0,
        worker_name: build.worker_name.as_str().to_owned(),
        status,
        result,
        error,
    }
}

/// The build a row stores: refused when its status columns do not form a
/// status, then when its worker name is not a name.
pub fn build_from_row(row: BuildsRow) -> (r: Result<Build, RowError>)
    ensures
        match decoded_status(row.status, row.result, row.error) {
            None => r == Err::<Build, RowError>(RowError::UnexpectedBuildStatus),
            Some(status) => match crate::domain::names::name_check(row.worker_name@, crate::domain::names::WORKER_NAME_LIMIT) {
                Err(e) => r == Err::<Build, RowError>(RowError::InvalidName(e)),
                Ok(()) => r matches Ok(b) && b.bot_id.0 == row.bot_id && b.worker_name@ == row.worker_name@
                    && b.status == status,
            },
        },
{
    let BuildsRow { bot_id, worker_name, status, result, error } = row;
    let decoded = match (status, result, error) {
        (0, None, None) => BuildStatus::Pending,
        (1, None, None) => BuildStatus::Running,
        (2, Some(0), None) => BuildStatus::Finished(BuildResult::Success),
        (2, Some(1), Some(stderr)) => BuildStatus::Finished(BuildResult::Failure { stderr }),
        _ => return Err(RowError::UnexpectedBuildStatus),
    };
    match WorkerName::try_from(worker_name) {
        Ok(name) => Ok(Build { bot_id: BotId(bot_id), worker_name: name, status: decoded }),
        Err(e) => Err(RowError::InvalidName(e)),
    }
}

/// A stored build reads back as the build that was stored.
pub proof fn lemma_build_row_round_trip(status: BuildStatus)
    ensures
        decoded_status(encoded_status(status).0, encoded_status(status).1, encoded_status(status).2) == Some(status),
{
}

/// The leaderboard a row stores: refused when its name is not a name; any
/// filter text reads as the accepting filter.
pub fn leaderboard_from_row(row: LeaderboardsRow) -> (r: Result<Leaderboard, RowError>)
    ensures
        match crate::domain::names::name_check(row.name@, crate::domain::names::LEADERBOARD_NAME_LIMIT) {
            Err(e) => r == Err::<Leaderboard, RowError>(RowError::InvalidName(e)),
            Ok(()) => r matches Ok(l) && l.id.0 == row.id && l.name@ == row.name@ && l.filter is Empty,
        },
{
    let LeaderboardsRow { id, name, filter } = row;
    match LeaderboardName::try_from(name) {
        Ok(name) => Ok(Leaderboard { id: LeaderboardId(id), name, filter: MatchFilter::parse(filter.as_str()) }),
        Err(e) => Err(RowError::InvalidName(e)),
    }
}

} // verus!
