use vstd::prelude::*;
use crate::text::decimal_string;

verus! {

/// Identifier of a bot; `BotId::uninitialized()` marks a bot not yet stored.
#[derive(Copy, Clone, Debug, Hash, PartialEq, Eq, Structural)]
pub struct BotId(pub i64);

impl BotId {
    /// The identifier of a record that has not been stored yet.
    pub fn uninitialized() -> (r: BotId)
        ensures
            r.raw() == 0,
    {
        BotId(0)
    }

    pub open spec fn raw(self) -> i64 {
        self.0
    }

    /// The identifier as a decimal number.
    pub fn to_string(&self) -> (s: String)
        ensures
            s@ == crate::text::decimal(self.raw() as int),
    {
        decimal_string(self.0)
    }
}

impl From<i64> for BotId {
    fn from(id: i64) -> (r: BotId)
        ensures
            r.raw() == id,
    {
        BotId(id)
    }
}

impl vstd::std_specs::convert::FromSpecImpl<i64> for BotId {
    open spec fn obeys_from_spec() -> bool {
        true
    }

    open spec fn from_spec(v: i64) -> BotId {
        BotId(v)
    }
}

impl From<BotId> for i64 {
    fn from(id: BotId) -> (r: i64)
        ensures
            r == id.raw(),
    {
        id.0
    }
}

impl vstd::std_specs::convert::FromSpecImpl<BotId> for i64 {
    open spec fn obeys_from_spec() -> bool {
        true
    }

    open spec fn from_spec(v: BotId) -> i64 {
        v.raw()
    }
}


/// Identifier of a match; `MatchId::uninitialized()` marks a match not yet stored.
#[derive(Copy, Clone, Debug, Hash, PartialEq, Eq, Structural)]
pub struct MatchId(pub i64);

impl MatchId {
    /// The identifier of a record that has not been stored yet.
    pub fn uninitialized() -> (r: MatchId)
        ensures
            r.raw() == 0,
    {
        MatchId(0)
    }

    pub open spec fn raw(self) -> i64 {
        self.0
    }

    /// The identifier as a decimal number.
    pub fn to_string(&self) -> (s: String)
        ensures
            s@ == crate::text::decimal(self.raw() as int),
    {
        decimal_string(self.0)
    }
}

impl From<i64> for MatchId {
    fn from(id: i64) -> (r: MatchId)
        ensures
            r.raw() == id,
    {
        MatchId(id)
    }
}

impl vstd::std_specs::convert::FromSpecImpl<i64> for MatchId {
    open spec fn obeys_from_spec() -> bool {
        true
    }

    open spec fn from_spec(v: i64) -> MatchId {
        MatchId(v)
    }
}

impl From<MatchId> for i64 {
    fn from(id: MatchId) -> (r: i64)
        ensures
            r == id.raw(),
    {
        id.0
    }
}

impl vstd::std_specs::convert::FromSpecImpl<MatchId> for i64 {
    open spec fn obeys_from_spec() -> bool {
        true
    }

    open spec fn from_spec(v: MatchId) -> i64 {
        v.raw()
    }
}


/// Identifier of a leaderboard; `LeaderboardId::uninitialized()` marks one not yet stored.
#[derive(Copy, Clone, Debug, Hash, PartialEq, Eq, Structural)]
pub struct LeaderboardId(pub i64);

impl LeaderboardId {
    /// The identifier of a record that has not been stored yet.
    pub fn uninitialized() -> (r: LeaderboardId)
        ensures
            r.raw() == 0,
    {
        LeaderboardId(0)
    }

    pub open spec fn raw(self) -> i64 {
        self.0
    }

    /// The identifier as a decimal number.
    pub fn to_string(&self) -> (s: String)
        ensures
            s@ == crate::text::decimal(self.raw() as int),
    {
        decimal_string(self.0)
    }
}

impl From<i64> for LeaderboardId {
    fn from(id: i64) -> (r: LeaderboardId)
        ensures
            r.raw() == id,
    {
        LeaderboardId(id)
    }
}

impl vstd::std_specs::convert::FromSpecImpl<i64> for LeaderboardId {
    open spec fn obeys_from_spec() -> bool {
        true
    }

    open spec fn from_spec(v: i64) -> LeaderboardId {
        LeaderboardId(v)
    }
}

impl From<LeaderboardId> for i64 {
    fn from(id: LeaderboardId) -> (r: i64)
        ensures
            r == id.raw(),
    {
        id.0
    }
}

impl vstd::std_specs::convert::FromSpecImpl<LeaderboardId> for i64 {
    open spec fn obeys_from_spec() -> bool {
        true
    }

    open spec fn from_spec(v: LeaderboardId) -> i64 {
        v.raw()
    }
}

} // verus!
