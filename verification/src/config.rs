use vstd::prelude::*;

verus! {

/// The player-count range of the game and whether seat order matters.
#[derive(Clone, Copy, Debug, PartialEq, Eq, Structural)]
pub struct GameConfig {
    pub min_players: u32,
    pub max_players: u32,
    /// In a symmetric game every seat order plays the same.
    pub symmetric: bool,
}


/// A referee packaged as a CodinGame game-engine JAR.
#[derive(Clone, Debug)]
pub struct CodingameJarRefereeConfig {
    /// The Java launcher; `java` when absent.
    pub java: Option<String>,
    /// Path of the JAR, relative to the arena unless absolute.
    pub path: String,
    /// League to play; 19 when absent.
    pub league: Option<u32>,
}

/// A referee run as a command line of its own.
#[derive(Clone, Debug)]
pub struct CommandRefereeConfig {
    /// Command line that plays a match; it may hold `{SEED}`, `{PLAYERS}`,
    /// `{REPLAY_PATH}` and `{P1}`, `{P2}`, ... placeholders.
    pub play_match: String,
    /// Command line that serves a replay; it must hold `{REPLAY_PATH}`,
    /// `{REPLAY_DIR}`, `{PORT}` and `{PLAYER_COUNT}`.
    pub watch_replay: String,
    pub legacy: bool,
}



/// A CodinGame referee that the arena clones, adapts and builds itself.
#[derive(Clone, Debug, PartialEq, Eq)]
pub struct ManagedCodingameRefereeConfig {
    pub repository_url: String,
    /// Branch to follow; the remote's default branch when absent.
    pub branch: Option<String>,
    /// Maven launcher used when the checkout has no wrapper; `mvn` when absent.
    pub maven: Option<String>,
    /// Java launcher; `java` when absent.
    pub java: Option<String>,
}

/// How matches are refereed.
#[derive(Clone, Debug)]
pub enum RefereeConfig {
    CodingameJar(CodingameJarRefereeConfig),
    Command(CommandRefereeConfig),
    ManagedCodingame(ManagedCodingameRefereeConfig),
}

/// The worker the arena runs in its own process.
#[derive(Clone, Debug)]
pub struct EmbeddedWorkerConfig {
    /// How many matches run at once.
    pub threads: u32,
    /// Builds a bot; `{DIR}` and `{LANG}` stand for its directory and language.
    pub cmd_build: String,
    /// Runs a bot; `{DIR}` and `{LANG}` as for building.
    pub cmd_run: String,
    /// Plays a match; `{SEED}`, `{PLAYERS}` and `{P1}` to `{P8}` stand for
    /// the seed, every bot's run command and one bot's.
    pub cmd_play_match: String,
    pub referee: RefereeConfig,
}

/// A worker that builds bots and plays matches.
#[derive(Clone, Debug)]
pub enum WorkerConfig {
    Embedded(EmbeddedWorkerConfig),
}

/// The parts of the arena configuration that the library decides on: the
/// workers, the game and matchmaking. Ratings, leaderboards and the
/// evaluation plan are configured beside them.
#[derive(Clone, Debug)]
pub struct ArenaConfig {
    pub workers: Vec<WorkerConfig>,
    pub game: GameConfig,
    pub matchmaking: crate::matchmaking::MatchmakingConfig,
}

} // verus!
