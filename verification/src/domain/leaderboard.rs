use vstd::prelude::*;
use crate::domain::ids::LeaderboardId;
use crate::domain::matches::Match;
use crate::domain::names::LeaderboardName;

verus! {

/// Which matches a leaderboard counts. Only the filter that accepts every
/// match is implemented; the text form of every filter is empty.
#[derive(Debug, Clone)]
pub enum MatchFilter {
    Empty,
    Eq(String, String),
}

impl MatchFilter {
    /// The filter that accepts every match.
    pub fn accept_all() -> (r: MatchFilter)
        ensures
            r is Empty,
    {
        MatchFilter::Empty
    }

    /// Whether the filter accepts the match; only the accepting filter can
    /// be asked.
    pub fn matches(&self, _m: &Match) -> (r: bool)
        requires
            self is Empty,
        ensures
            r,
    {
        true
    }

    /// Reads a filter from its text form: every text gives the accepting
    /// filter.
    pub fn parse(_text: &str) -> (r: MatchFilter)
        ensures
            r is Empty,
    {
        MatchFilter::Empty
    }

    /// The text form of the filter, which is empty.
    pub fn to_string(&self) -> (r: String)
        ensures
            r@ == Seq::<char>::empty(),
    {
        String::new()
    }
}

/// A ranking of the bots over the matches a filter accepts.
#[derive(Debug, Clone)]
pub struct Leaderboard {
    pub id: LeaderboardId,
    pub name: LeaderboardName,
    pub filter: MatchFilter,
}

impl Leaderboard {
    /// A leaderboard not stored yet.
    pub fn new(name: LeaderboardName, filter: MatchFilter) -> (r: Leaderboard)
        ensures
            r.id.0 == 0,
            r.name == name,
            r.filter == filter,
    {
        Leaderboard { id: LeaderboardId::uninitialized(), name, filter }
    }

    /// The leaderboard of every match, not stored yet.
    pub fn global() -> (r: Leaderboard)
        ensures
            r.id.0 == 0,
            r.name@ == seq!['G', 'l', 'o', 'b', 'a', 'l'],
            r.filter is Empty,
    {
        Leaderboard { id: LeaderboardId::uninitialized(), name: LeaderboardName::global(), filter: MatchFilter::accept_all() }
    }
}

/// Something that happened in the domain.
#[derive(Debug, Clone, Copy, PartialEq, Eq, Structural)]
pub enum DomainEvent {
    BotCreated(crate::domain::ids::BotId),
}

} // verus!
