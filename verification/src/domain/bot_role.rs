use vstd::prelude::*;
use crate::text::str_equal;

verus! {

/// Role of a bot in candidate evaluation.
#[derive(Clone, Copy, Debug, PartialEq, Eq, Structural)]
pub enum BotRole {
    Candidate,
    Benchmark,
    ArchivedBenchmark,
}

/// The stored text of a role.
pub open spec fn role_text(role: BotRole) -> Seq<char> {
    match role {
        BotRole::Candidate => seq!['c', 'a', 'n', 'd', 'i', 'd', 'a', 't', 'e'],
        BotRole::Benchmark => seq!['b', 'e', 'n', 'c', 'h', 'm', 'a', 'r', 'k'],
        BotRole::ArchivedBenchmark => seq![
            'a', 'r', 'c', 'h', 'i', 'v', 'e', 'd', '_', 'b', 'e', 'n', 'c', 'h', 'm', 'a', 'r', 'k'
        ],
    }
}

/// The role whose stored text is `text`, if any.
pub open spec fn role_from_text(text: Seq<char>) -> Option<BotRole> {
    if text == role_text(BotRole::Candidate) {
        Some(BotRole::Candidate)
    } else if text == role_text(BotRole::Benchmark) {
        Some(BotRole::Benchmark)
    } else if text == role_text(BotRole::ArchivedBenchmark) {
        Some(BotRole::ArchivedBenchmark)
    } else {
        None
    }
}

/// A text that names no role.
#[derive(Debug, Clone)]
pub struct UnknownBotRole {
    pub value: String,
}

impl Default for BotRole {
    fn default() -> (r: BotRole)
        ensures
            r == BotRole::Candidate,
    {
        BotRole::Candidate
    }
}

impl BotRole {
    /// Active roles take part in evaluation; archived benchmarks do not.
    pub fn is_active(self) -> (r: bool)
        ensures
            r == (self != BotRole::ArchivedBenchmark),
    {
        !matches!(self, BotRole::ArchivedBenchmark)
    }

    /// The text under which the role is stored and displayed.
    pub fn as_str(self) -> (r: &'static str)
        ensures
            r@ == role_text(self),
    {
        match self {
            BotRole::Candidate => {
                proof {
                    reveal_strlit("candidate");
                    assert("candidate"@ =~= role_text(BotRole::Candidate));
                }
                "candidate"
            },
            BotRole::Benchmark => {
                proof {
                    reveal_strlit("benchmark");
                    assert("benchmark"@ =~= role_text(BotRole::Benchmark));
                }
                "benchmark"
            },
            BotRole::ArchivedBenchmark => {
                proof {
                    reveal_strlit("archived_benchmark");
                    assert("archived_benchmark"@ =~= role_text(BotRole::ArchivedBenchmark));
                }
                "archived_benchmark"
            },
        }
    }

    /// The displayed text of the role as an owned string.
    pub fn to_string(self) -> (r: String)
        ensures
            r@ == role_text(self),
    {
        self.as_str().to_owned()
    }

    /// Reads a role from its stored text.
    pub fn parse(value: &str) -> (r: Option<BotRole>)
        ensures
            r == role_from_text(value@),
    {
        proof {
            reveal_strlit("candidate");
            reveal_strlit("benchmark");
            reveal_strlit("archived_benchmark");
            assert("candidate"@ =~= role_text(BotRole::Candidate));
            assert("benchmark"@ =~= role_text(BotRole::Benchmark));
            assert("archived_benchmark"@ =~= role_text(BotRole::ArchivedBenchmark));
        }
        if str_equal(value, "candidate") {
            Some(BotRole::Candidate)
        } else if str_equal(value, "benchmark") {
            Some(BotRole::Benchmark)
        } else if str_equal(value, "archived_benchmark") {
            Some(BotRole::ArchivedBenchmark)
        } else {
            None
        }
    }
}

impl core::str::FromStr for BotRole {
    type Err = UnknownBotRole;

    fn from_str(value: &str) -> (r: Result<BotRole, UnknownBotRole>)
        ensures
            match role_from_text(value@) {
                Some(role) => r == Ok::<BotRole, UnknownBotRole>(role),
                None => r matches Err(e) && e.value@ == value@,
            },
    {
        match BotRole::parse(value) {
            Some(role) => Ok(role),
            None => Err(UnknownBotRole { value: value.to_owned() }),
        }
    }
}

/// Reading back the stored text of a role gives the role.
pub proof fn lemma_role_text_round_trip(role: BotRole)
    ensures
        role_from_text(role_text(role)) == Some(role),
{
    assert(role_text(BotRole::Candidate) != role_text(BotRole::Benchmark));
    assert(role_text(BotRole::Candidate)[0] != role_text(BotRole::ArchivedBenchmark)[0]);
    assert(role_text(BotRole::Benchmark)[0] != role_text(BotRole::ArchivedBenchmark)[0]);
    assert(role_text(BotRole::Candidate)[0] != role_text(BotRole::Benchmark)[0]);
}

} // verus!
