//! The languages bots are written in, and the states of a bot's build.
use vstd::prelude::*;

verus! {

/// A language of a bot's source.
#[derive(Debug, Clone, Copy, PartialEq, Eq, Structural)]
pub enum Language {
    Cpp,
    Rust,
    Python3,
}

impl Language {
    /// The name of the file a bot's source is stored in.
    pub fn file_extension(&self) -> (r: &'static str)
        ensures
            r@ == match self {
                Language::Cpp => "cpp.txt"@,
                Language::Rust => "rust.txt"@,
                Language::Python3 => "python3.txt"@,
            },
    {
        match self {
            Language::Cpp => "cpp.txt",
            Language::Rust => "rust.txt",
            Language::Python3 => "python3.txt",
        }
    }
}

/// Where a bot is in its life.
#[derive(Debug, Clone, Copy, PartialEq, Eq, Structural)]
pub enum BotStatus {
    Pending,
    Building,
    Ready,
}

/// How ratings are computed: match by match, or from all the win rates at
/// once.
#[derive(Debug, Clone, Copy, PartialEq, Eq, Structural)]
pub enum RankingStrategyKind {
    Online,
    Batch,
}

/// The TrueSkill rating system.
pub struct TrueSkill {}

impl TrueSkill {
    /// The name of the system.
    pub fn name() -> (r: &'static str)
        ensures
            r@ == "true_skill"@,
    {
        "true_skill"
    }
}

} // verus!
