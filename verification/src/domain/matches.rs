use vstd::prelude::*;
use crate::domain::ids::{BotId, MatchId};

verus! {

/// One bot's seat in a finished match: its rank (0 is best) and whether it
/// reported an error.
#[derive(Debug, Clone, Copy, PartialEq, Eq, Structural)]
pub struct Participant {
    pub bot_id: BotId,
    pub rank: u8,
    pub error: bool,
}

/// Value of a match attribute.
#[derive(Debug, Clone)]
pub enum MatchAttributeValue {
    Integer(i64),
    /// A double, stored as its IEEE-754 bit pattern.
    Float(u64),
    String(String),
}

/// A named value a referee reported for a match, optionally for one bot
/// and one turn.
#[derive(Debug, Clone)]
pub struct MatchAttribute {
    pub name: String,
    pub bot_id: Option<BotId>,
    pub turn: Option<u16>,
    pub value: MatchAttributeValue,
}

/// A finished match; only finished matches are stored.
#[derive(Debug, Clone)]
pub struct Match {
    pub id: MatchId,
    pub seed: i64,
    pub participants: Vec<Participant>,
    pub attributes: Vec<MatchAttribute>,
    /// Path of the replay artifact, relative to the arena.
    pub replay_path: Option<String>,
    pub candidate_bot_id: Option<BotId>,
    pub evaluation_stage_revision_id: Option<i64>,
}

impl MatchAttributeValue {
    pub fn integer_value(&self) -> (r: Option<i64>)
        ensures
            r == (match self { MatchAttributeValue::Integer(v) => Some(*v), _ => None::<i64> }),
    {
        match self {
            MatchAttributeValue::Integer(v) => Some(*v),
            _ => None,
        }
    }

    /// The bit pattern of a float value.
    pub fn float_value(&self) -> (r: Option<u64>)
        ensures
            r == (match self { MatchAttributeValue::Float(v) => Some(*v), _ => None::<u64> }),
    {
        match self {
            MatchAttributeValue::Float(v) => Some(*v),
            _ => None,
        }
    }

    pub fn string_value(&self) -> (r: Option<&str>)
        ensures
            r is Some <==> self is String,
            r matches Some(s) ==> self matches MatchAttributeValue::String(v) && s@ == v@,
    {
        match self {
            MatchAttributeValue::String(v) => Some(v.as_str()),
            _ => None,
        }
    }
}

impl Match {
    /// A match not stored yet.
    pub fn new(seed: i64, participants: Vec<Participant>, attributes: Vec<MatchAttribute>, replay_path: Option<String>) -> (r: Match)
        ensures
            r.id.0 == 0,
            r.seed == seed,
            r.participants == participants,
            r.attributes == attributes,
            r.replay_path == replay_path,
            r.candidate_bot_id is None,
            r.evaluation_stage_revision_id is None,
    {
        Match {
            id: MatchId::uninitialized(),
            seed,
            participants,
            attributes,
            replay_path,
            candidate_bot_id: None,
            evaluation_stage_revision_id: None,
        }
    }
}

} // verus!
