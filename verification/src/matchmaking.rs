//! Continuous matchmaking: which bots play the next match.
use vstd::prelude::*;
use crate::config::GameConfig;
use crate::domain::ids::BotId;
use crate::lookup::count_of;
use crate::total_order::{total_key, total_order_key};
use crate::orderings::seat_orderings;

verus! {

/// First version: favour bots with few matches.
#[derive(Debug, Clone, Copy, PartialEq, Eq, Structural)]
pub struct MatchmakingAlgorithmV1Config {
    pub min_matches: u64,
    /// Probability of starting from a bot below `min_matches`, stored as the
    /// bit pattern of an IEEE-754 double.
    pub min_matches_preference: u64,
}

/// Second version: top pair, under-played pairs, then bots below a cap.
#[derive(Debug, Clone, Copy, PartialEq, Eq, Structural)]
pub struct MatchmakingAlgorithmV2Config {
    pub min_matches_against_best: Option<u64>,
    pub min_matches_per_pair: u64,
    pub max_matches: Option<u64>,
}

/// The matchmaking algorithm; `Legacy` is the first version as older
/// configurations spell it.
#[derive(Debug, Clone, Copy, PartialEq, Eq, Structural)]
pub enum MatchmakingAlgorithmConfig {
    V1(MatchmakingAlgorithmV1Config),
    V2(MatchmakingAlgorithmV2Config),
    Legacy(MatchmakingAlgorithmV1Config),
}

/// The matchmaking section of the arena configuration.
#[derive(Debug, Clone, Copy, PartialEq, Eq, Structural)]
pub struct MatchmakingConfig {
    pub enabled_on_start: Option<bool>,
    pub algorithm: MatchmakingAlgorithmConfig,
}

/// A bot that may be matched. Counts include queued matches; `matches_vs`
/// stands for a map from opponent to matches played against it, listed in
/// the order in which the map is walked.
#[derive(Debug, Clone)]
pub struct Candidate {
    pub id: BotId,
    /// The rating as the bit pattern of an IEEE-754 double.
    pub rating: u64,
    pub matches_total: u64,
    pub matches_vs: Vec<(BotId, u64)>,
}

/// A match to play.
#[derive(Debug, Clone)]
pub struct MatchConfig {
    pub bot_ids: Vec<BotId>,
    pub seed: i64,
}

pub open spec fn rating_key(c: Candidate) -> i64 {
    total_key(c.rating)
}

/// `i` is the best candidate: highest rating, earliest on ties.
pub open spec fn is_best(cands: Seq<Candidate>, i: int) -> bool {
    &&& 0 <= i < cands.len()
    &&& forall|j: int| 0 <= j < cands.len() ==> rating_key(#[trigger] cands[j]) <= rating_key(cands[i])
    &&& forall|j: int| 0 <= j < i ==> rating_key(#[trigger] cands[j]) < rating_key(cands[i])
}

/// `i` is the second best candidate after `first`.
pub open spec fn is_second(cands: Seq<Candidate>, first: int, i: int) -> bool {
    &&& 0 <= i < cands.len()
    &&& i != first
    &&& forall|j: int| 0 <= j < cands.len() && j != first ==> rating_key(#[trigger] cands[j]) <= rating_key(cands[i])
    &&& forall|j: int| 0 <= j < i && j != first ==> rating_key(#[trigger] cands[j]) < rating_key(cands[i])
}

/// The two best candidates, as a stable sort by descending rating lists
/// them.
fn best_two(cands: &[Candidate]) -> (r: (usize, usize))
    requires
        cands@.len() >= 2,
    ensures
        is_best(cands@, r.0 as int),
        is_second(cands@, r.0 as int, r.1 as int),
{
    let mut first: usize = 0;
    let mut first_key = total_order_key(cands[0].rating);
    let mut i: usize = 1;
    while i < cands.len()
        invariant
            1 <= i <= cands@.len(),
            0 <= first < i,
            first_key == rating_key(cands@[first as int]),
            forall|j: int| 0 <= j < i ==> rating_key(#[trigger] cands@[j]) <= first_key,
            forall|j: int| 0 <= j < first ==> rating_key(#[trigger] cands@[j]) < first_key,
        decreases cands@.len() - i,
    {
        let key = total_order_key(cands[i].rating);
        if key > first_key {
            first = i;
            first_key = key;
        }
        i += 1;
    }
    let mut second: usize = if first == 0 { 1 } else { 0 };
    let mut second_key = total_order_key(cands[second].rating);
    let mut i: usize = second + 1;
    while i < cands.len()
        invariant
            0 <= second < i <= cands@.len(),
            second != first,
            first < cands@.len(),
            second_key == rating_key(cands@[second as int]),
            forall|j: int| 0 <= j < i && j != first ==> rating_key(#[trigger] cands@[j]) <= second_key,
            forall|j: int| 0 <= j < second && j != first ==> rating_key(#[trigger] cands@[j]) < second_key,
        decreases cands@.len() - i,
    {
        if i != first {
            let key = total_order_key(cands[i].rating);
            if key > second_key {
                second = i;
                second_key = key;
            }
        }
        i += 1;
    }
    (first, second)
}

/// `k` is the first position of a smallest value of `s`.
pub open spec fn is_first_min(s: Seq<u64>, k: int) -> bool {
    &&& 0 <= k < s.len()
    &&& forall|j: int| 0 <= j < s.len() ==> s[k] <= #[trigger] s[j]
    &&& forall|j: int| 0 <= j < k ==> s[k] < #[trigger] s[j]
}

/// First position of a smallest value (what `min_by_key` picks).
pub open spec fn first_min_index(s: Seq<u64>) -> int {
    choose|k: int| is_first_min(s, k)
}

pub proof fn lemma_first_min_unique(s: Seq<u64>, a: int, b: int)
    requires
        is_first_min(s, a),
        is_first_min(s, b),
    ensures
        a == b,
{
    if a < b {
        assert(s[b] < s[a]);
    } else if b < a {
        assert(s[a] < s[b]);
    }
}

/// Finds the first position of a smallest value.
pub fn first_min_position(s: &Vec<u64>) -> (r: usize)
    requires
        s@.len() > 0,
    ensures
        is_first_min(s@, r as int),
        r as int == first_min_index(s@),
{
    let mut best: usize = 0;
    let mut i: usize = 1;
    while i < s.len()
        invariant
            1 <= i <= s@.len(),
            best < i,
            forall|j: int| 0 <= j < i ==> s@[best as int] <= #[trigger] s@[j],
            forall|j: int| 0 <= j < best ==> s@[best as int] < #[trigger] s@[j],
        decreases s@.len() - i,
    {
        if s[i] < s[best] {
            best = i;
        }
        i += 1;
    }
    proof {
        assert(is_first_min(s@, best as int));
        lemma_first_min_unique(s@, best as int, first_min_index(s@));
    }
    best
}

pub open spec fn best_index(cands: Seq<Candidate>) -> int {
    choose|i: int| is_best(cands, i)
}

pub open spec fn second_index(cands: Seq<Candidate>) -> int {
    choose|i: int| is_second(cands, best_index(cands), i)
}

pub proof fn lemma_best_unique(cands: Seq<Candidate>, a: int, b: int)
    requires
        is_best(cands, a),
        is_best(cands, b),
    ensures
        a == b,
{
    if a < b {
        assert(rating_key(cands[a]) < rating_key(cands[b]));
    } else if b < a {
        assert(rating_key(cands[b]) < rating_key(cands[a]));
    }
}

pub proof fn lemma_second_unique(cands: Seq<Candidate>, first: int, a: int, b: int)
    requires
        is_second(cands, first, a),
        is_second(cands, first, b),
    ensures
        a == b,
{
    if a < b {
        assert(rating_key(cands[a]) < rating_key(cands[b]));
    } else if b < a {
        assert(rating_key(cands[b]) < rating_key(cands[a]));
    }
}

/// The opponent a bot is measured against: the best bot, or the second
/// best for the best bot itself.
pub open spec fn best_opponent(cands: Seq<Candidate>, id: BotId) -> BotId {
    if cands[best_index(cands)].id == id {
        cands[second_index(cands)].id
    } else {
        cands[best_index(cands)].id
    }
}

/// The configured minimum of matches between the two best bots.
pub open spec fn min_against_best(config: MatchmakingAlgorithmV2Config) -> u64 {
    match config.min_matches_against_best {
        Some(v) => v,
        None => 0,
    }
}

/// The two best bots have met fewer times than required.
pub open spec fn top_pair_due(config: MatchmakingAlgorithmV2Config, cands: Seq<Candidate>) -> bool {
    count_of(cands[best_index(cands)].matches_vs@, cands[second_index(cands)].id) < min_against_best(config)
}

/// Matches of each bot against its best opponent.
pub open spec fn counts_vs_best(cands: Seq<Candidate>) -> Seq<u64> {
    Seq::new(cands.len(), |i: int| count_of(cands[i].matches_vs@, best_opponent(cands, cands[i].id)))
}

/// Counters of a bot's opponent list, in list order.
pub open spec fn entry_counts(entries: Seq<(BotId, u64)>) -> Seq<u64> {
    entries.map_values(|e: (BotId, u64)| e.1)
}

/// A bot's least-played opponent entry (the first on ties).
pub open spec fn least_played(c: Candidate) -> (BotId, u64) {
    c.matches_vs@[first_min_index(entry_counts(c.matches_vs@))]
}

/// Each bot's count against its least-played opponent.
pub open spec fn least_played_counts(cands: Seq<Candidate>) -> Seq<u64> {
    Seq::new(cands.len(), |i: int| least_played(cands[i]).1)
}

/// The bots below the match cap.
pub open spec fn below_cap(config: MatchmakingAlgorithmV2Config, cands: Seq<Candidate>) -> Seq<BotId> {
    cands.filter(|c: Candidate| c.matches_total < match_cap(config)).map_values(|c: Candidate| c.id)
}

/// The match cap: `max_matches`, or no cap.
pub open spec fn match_cap(config: MatchmakingAlgorithmV2Config) -> u64 {
    match config.max_matches {
        Some(m) => m,
        None => u64::MAX,
    }
}

/// What the second version decides before any random choice.
#[derive(Debug, Clone)]
pub enum V2Choice {
    /// Start the match with these two bots.
    Pair(BotId, BotId),
    /// Start the match with a random one of these bots.
    Among(Vec<BotId>),
    /// Schedule nothing.
    NoMatch,
}

/// The decision of the second version: the two best bots when they are
/// below their required encounters; otherwise the bot least played against
/// its best opponent, with it, when below that requirement; otherwise the
/// least-played pair, when below `min_matches_per_pair`; otherwise any bot
/// below the match cap; otherwise nothing.
pub open spec fn v2_decision(config: MatchmakingAlgorithmV2Config, cands: Seq<Candidate>) -> (int, BotId, BotId, Seq<BotId>) {
    let first = best_index(cands);
    let second = second_index(cands);
    let k = first_min_index(counts_vs_best(cands));
    let m = first_min_index(least_played_counts(cands));
    if top_pair_due(config, cands) {
        (0, cands[first].id, cands[second].id, Seq::empty())
    } else if counts_vs_best(cands)[k] < min_against_best(config) {
        (0, cands[k].id, best_opponent(cands, cands[k].id), Seq::empty())
    } else if least_played_counts(cands)[m] < config.min_matches_per_pair {
        (0, cands[m].id, least_played(cands[m]).0, Seq::empty())
    } else if below_cap(config, cands).len() > 0 {
        (1, cands[0].id, cands[0].id, below_cap(config, cands))
    } else {
        (2, cands[0].id, cands[0].id, Seq::empty())
    }
}

/// The two best bots come first: when the best-rated bot (the earliest on
/// ties) has met the second best fewer times than `min_matches_against_best`
/// requires, the decision is to pair exactly those two, whatever the other
/// bots have played.
pub proof fn lemma_v2_top_pair_first(config: MatchmakingAlgorithmV2Config, cands: Seq<Candidate>, first: int, second: int)
    requires
        is_best(cands, first),
        is_second(cands, first, second),
        config.min_matches_against_best matches Some(m) && count_of(cands[first].matches_vs@, cands[second].id) < m,
    ensures
        v2_decision(config, cands) == (0int, cands[first].id, cands[second].id, Seq::<BotId>::empty()),
{
    lemma_best_unique(cands, first, best_index(cands));
    lemma_second_unique(cands, first, second, second_index(cands));
    assert(top_pair_due(config, cands));
}

/// The opponent a bot is measured against, given the best bot `first` and
/// the second best `second`.
pub open spec fn measured_opponent(cands: Seq<Candidate>, first: int, second: int, id: BotId) -> BotId {
    if id == cands[first].id { cands[second].id } else { cands[first].id }
}

/// Matches of a bot against the opponent it is measured against.
pub open spec fn met_measured(cands: Seq<Candidate>, first: int, second: int, c: Candidate) -> u64 {
    count_of(c.matches_vs@, measured_opponent(cands, first, second, c.id))
}

/// The filtered elements of `s` are elements of `s`.
proof fn lemma_filter_within(s: Seq<Candidate>, pred: spec_fn(Candidate) -> bool)
    ensures
        forall|t: int| 0 <= t < s.filter(pred).len() ==> s.contains(#[trigger] s.filter(pred)[t]),
    decreases s.len(),
{
    reveal(Seq::filter);
    if s.len() > 0 {
        let before = s.drop_last();
        lemma_filter_within(before, pred);
        let sub = before.filter(pred);
        assert forall|t: int| 0 <= t < s.filter(pred).len() implies s.contains(#[trigger] s.filter(pred)[t]) by {
            if t < sub.len() {
                assert(s.filter(pred)[t] == sub[t]);
                assert(before.contains(sub[t]));
                let j = choose|j: int| 0 <= j < before.len() && before[j] == sub[t];
                assert(s[j] == sub[t]);
            } else {
                assert(s.filter(pred)[t] == s[s.len() - 1]);
            }
        }
    }
}

/// What the second version decides, rule by rule, given the best bot
/// `first` and the second best `second`:
/// - when the top pair is not due but some bot has met the opponent it is
///   measured against (the best bot, or the second best for the best bot)
///   fewer times than `min_matches_against_best`, a bot that has met it the
///   fewest times is paired with that opponent;
/// - when no bot is below that requirement but some pair has met fewer than
///   `min_matches_per_pair` times, a bot with the least-played entry of all
///   is paired with that entry's opponent;
/// - when neither applies, the bots below the match cap, in order, are
///   offered, and nothing is scheduled exactly when every bot is at the cap.
pub proof fn lemma_v2_outcomes(config: MatchmakingAlgorithmV2Config, cands: Seq<Candidate>, first: int, second: int)
    requires
        is_best(cands, first),
        is_second(cands, first, second),
        forall|i: int| 0 <= i < cands.len() ==> (#[trigger] cands[i]).matches_vs@.len() > 0,
    ensures
        ({
            let d = v2_decision(config, cands);
            let min_ab = min_against_best(config);
            &&& (met_measured(cands, first, second, cands[first]) >= min_ab
                && exists|i: int| 0 <= i < cands.len() && met_measured(cands, first, second, #[trigger] cands[i]) < min_ab)
                ==> {
                &&& d.0 == 0
                &&& exists|i: int| 0 <= i < cands.len() && d.1 == (#[trigger] cands[i]).id
                    && d.2 == measured_opponent(cands, first, second, cands[i].id)
                    && met_measured(cands, first, second, cands[i]) < min_ab
                    && forall|j: int| 0 <= j < cands.len() ==> met_measured(cands, first, second, cands[i])
                        <= met_measured(cands, first, second, #[trigger] cands[j])
            }
            &&& ((forall|i: int| 0 <= i < cands.len() ==> met_measured(cands, first, second, #[trigger] cands[i]) >= min_ab)
                && exists|i: int, e: int| 0 <= i < cands.len() && 0 <= e < cands[i].matches_vs@.len()
                    && (#[trigger] cands[i].matches_vs@[e]).1 < config.min_matches_per_pair)
                ==> {
                &&& d.0 == 0
                &&& exists|i: int, e: int| 0 <= i < cands.len() && 0 <= e < cands[i].matches_vs@.len()
                    && d.1 == cands[i].id && d.2 == (#[trigger] cands[i].matches_vs@[e]).0
                    && cands[i].matches_vs@[e].1 < config.min_matches_per_pair
                    && forall|j: int, f: int| 0 <= j < cands.len() && 0 <= f < cands[j].matches_vs@.len()
                        ==> cands[i].matches_vs@[e].1 <= (#[trigger] cands[j].matches_vs@[f]).1
            }
            &&& ((forall|i: int| 0 <= i < cands.len() ==> met_measured(cands, first, second, #[trigger] cands[i]) >= min_ab)
                && forall|i: int, e: int| 0 <= i < cands.len() && 0 <= e < cands[i].matches_vs@.len()
                    ==> (#[trigger] cands[i].matches_vs@[e]).1 >= config.min_matches_per_pair)
                ==> {
                &&& d.0 != 0
                &&& d.0 == 2 <==> forall|i: int| 0 <= i < cands.len() ==> (#[trigger] cands[i]).matches_total >= match_cap(config)
                &&& d.0 == 1 ==> forall|x: BotId| d.3.contains(x) <==> exists|i: int| 0 <= i < cands.len()
                    && (#[trigger] cands[i]).id == x && cands[i].matches_total < match_cap(config)
            }
        }),
{
    lemma_best_unique(cands, first, best_index(cands));
    lemma_second_unique(cands, first, second, second_index(cands));
    let min_ab = min_against_best(config);
    let vs = counts_vs_best(cands);
    assert forall|i: int| 0 <= i < cands.len() implies vs[i] == met_measured(cands, first, second, #[trigger] cands[i]) by {}
    lemma_first_min_exists(vs);
    let k = first_min_index(vs);
    assert(is_first_min(vs, k));
    let lp = least_played_counts(cands);
    lemma_first_min_exists(lp);
    let m = first_min_index(lp);
    assert(is_first_min(lp, m));
    assert forall|i: int| 0 <= i < cands.len() implies {
        &&& 0 <= first_min_index(entry_counts((#[trigger] cands[i]).matches_vs@)) < cands[i].matches_vs@.len()
        &&& lp[i] == cands[i].matches_vs@[first_min_index(entry_counts(cands[i].matches_vs@))].1
        &&& forall|f: int| 0 <= f < cands[i].matches_vs@.len() ==> lp[i] <= (#[trigger] cands[i].matches_vs@[f]).1
    } by {
        let ec = entry_counts(cands[i].matches_vs@);
        lemma_first_min_exists(ec);
        assert(is_first_min(ec, first_min_index(ec)));
        assert forall|f: int| 0 <= f < cands[i].matches_vs@.len() implies lp[i] <= (#[trigger] cands[i].matches_vs@[f]).1 by {
            assert(ec[f] == cands[i].matches_vs@[f].1);
        }
    }
    if met_measured(cands, first, second, cands[first]) >= min_ab
        && exists|i: int| 0 <= i < cands.len() && met_measured(cands, first, second, #[trigger] cands[i]) < min_ab {
        let i0 = choose|i: int| 0 <= i < cands.len() && met_measured(cands, first, second, #[trigger] cands[i]) < min_ab;
        assert(vs[k] <= vs[i0]);
        assert(!top_pair_due(config, cands));
        assert(vs[k] < min_ab);
        assert(forall|j: int| 0 <= j < cands.len() ==> vs[k] <= #[trigger] vs[j]);
    }
    if (forall|i: int| 0 <= i < cands.len() ==> met_measured(cands, first, second, #[trigger] cands[i]) >= min_ab) {
        assert(!top_pair_due(config, cands)) by {
            assert(met_measured(cands, first, second, cands[first]) >= min_ab);
        }
        assert(!(vs[k] < min_ab)) by {
            assert(met_measured(cands, first, second, cands[k]) >= min_ab);
        }
        let me = first_min_index(entry_counts(cands[m].matches_vs@));
        assert(lp[m] == cands[m].matches_vs@[me].1);
        if exists|i: int, e: int| 0 <= i < cands.len() && 0 <= e < cands[i].matches_vs@.len()
            && (#[trigger] cands[i].matches_vs@[e]).1 < config.min_matches_per_pair {
            let (i0, e0) = choose|i: int, e: int| 0 <= i < cands.len() && 0 <= e < cands[i].matches_vs@.len()
                && (#[trigger] cands[i].matches_vs@[e]).1 < config.min_matches_per_pair;
            assert(lp[i0] <= cands[i0].matches_vs@[e0].1);
            assert(lp[m] <= lp[i0]);
            assert forall|j: int, f: int| 0 <= j < cands.len() && 0 <= f < cands[j].matches_vs@.len()
                implies cands[m].matches_vs@[me].1 <= (#[trigger] cands[j].matches_vs@[f]).1 by {
                assert(lp[m] <= lp[j]);
            }
            assert(least_played(cands[m]) == cands[m].matches_vs@[me]);
        } else {
            assert(!(lp[m] < config.min_matches_per_pair)) by {
                assert(cands[m].matches_vs@[me].1 >= config.min_matches_per_pair);
            }
            let pred = |c: Candidate| c.matches_total < match_cap(config);
            let kept = cands.filter(pred);
            lemma_filter_within(cands, pred);
            assert(below_cap(config, cands) == kept.map_values(|c: Candidate| c.id));
            assert forall|x: BotId| below_cap(config, cands).contains(x) <==> exists|i: int| 0 <= i < cands.len()
                && (#[trigger] cands[i]).id == x && cands[i].matches_total < match_cap(config) by {
                if below_cap(config, cands).contains(x) {
                    let t = choose|t: int| 0 <= t < below_cap(config, cands).len() && below_cap(config, cands)[t] == x;
                    cands.lemma_filter_pred(pred, t);
                    let i = choose|i: int| 0 <= i < cands.len() && cands[i] == kept[t];
                    assert(cands[i].id == x);
                }
                if exists|i: int| 0 <= i < cands.len() && (#[trigger] cands[i]).id == x && cands[i].matches_total < match_cap(config) {
                    let i = choose|i: int| 0 <= i < cands.len() && (#[trigger] cands[i]).id == x && cands[i].matches_total < match_cap(config);
                    cands.lemma_filter_contains(pred, i);
                    let t = choose|t: int| 0 <= t < kept.len() && kept[t] == cands[i];
                    assert(below_cap(config, cands)[t] == x);
                }
            }
            if forall|i: int| 0 <= i < cands.len() ==> (#[trigger] cands[i]).matches_total >= match_cap(config) {
                if below_cap(config, cands).len() > 0 {
                    assert(below_cap(config, cands).contains(below_cap(config, cands)[0]));
                }
            } else {
                let i = choose|i: int| !(0 <= i < cands.len() ==> (#[trigger] cands[i]).matches_total >= match_cap(config));
                assert(below_cap(config, cands).contains(cands[i].id));
            }
        }
    }
}

pub open spec fn ids_unique(cands: Seq<Candidate>) -> bool {
    forall|i: int, j: int| 0 <= i < j < cands.len() ==> cands[i].id != cands[j].id
}

/// The inputs on which the second version neither panics nor pairs a bot
/// with itself: at least two bots with distinct identifiers, each with at
/// least one opponent entry and none naming itself, and, unless the top pair
/// is due, each with an entry for its best opponent.
pub open spec fn v2_inputs_valid(config: MatchmakingAlgorithmV2Config, cands: Seq<Candidate>) -> bool {
    &&& cands.len() >= 2
    &&& ids_unique(cands)
    &&& forall|i: int| 0 <= i < cands.len() ==> (#[trigger] cands[i]).matches_vs@.len() > 0
    &&& forall|i: int, e: int| 0 <= i < cands.len() && 0 <= e < cands[i].matches_vs@.len() ==> (#[trigger] cands[i].matches_vs@[e]).0 != cands[i].id
    &&& !top_pair_due(config, cands) ==> forall|i: int| 0 <= i < cands.len() ==> crate::lookup::has_key((#[trigger] cands[i]).matches_vs@, best_opponent(cands, cands[i].id))
}

/// Counters of an opponent list.
fn counts_of_entries(entries: &Vec<(BotId, u64)>) -> (r: Vec<u64>)
    ensures
        r@ == entry_counts(entries@),
{
    let mut r: Vec<u64> = Vec::new();
    let mut i: usize = 0;
    while i < entries.len()
        invariant
            0 <= i <= entries.len(),
            r@ == entry_counts(entries@).subrange(0, i as int),
        decreases entries.len() - i,
    {
        r.push(entries[i].1);
        i += 1;
        assert(r@ =~= entry_counts(entries@).subrange(0, i as int));
    }
    assert(entry_counts(entries@).subrange(0, i as int) =~= entry_counts(entries@));
    r
}

/// The decision of the second version (see `v2_decision`).
pub fn v2_choice(config: &MatchmakingAlgorithmV2Config, cands: &[Candidate]) -> (r: V2Choice)
    requires
        v2_inputs_valid(*config, cands@),
    ensures
        match r {
            V2Choice::Pair(a, b) => v2_decision(*config, cands@).0 == 0 && a == v2_decision(*config, cands@).1
                && b == v2_decision(*config, cands@).2 && a != b,
            V2Choice::Among(v) => v2_decision(*config, cands@).0 == 1 && v@ == v2_decision(*config, cands@).3,
            V2Choice::NoMatch => v2_decision(*config, cands@).0 == 2,
        },
        forall|first: int, second: int|
            is_best(cands@, first) && is_second(cands@, first, second)
                && (config.min_matches_against_best matches Some(m)
                && count_of(cands@[first].matches_vs@, cands@[second].id) < m)
                ==> (r matches V2Choice::Pair(a, b) && a == cands@[first].id && b == cands@[second].id),
{
    let (first, second) = best_two(cands);
    proof {
        lemma_best_unique(cands@, first as int, best_index(cands@));
        lemma_second_unique(cands@, first as int, second as int, second_index(cands@));
    }
    let first_id = cands[first].id;
    let second_id = cands[second].id;
    let min_ab = match config.min_matches_against_best { Some(v) => v, None => 0 };
    if crate::lookup::count_by_bot(&cands[first].matches_vs, second_id) < min_ab {
        assert(first != second);
        return V2Choice::Pair(first_id, second_id);
    }
    let mut vs_best: Vec<u64> = Vec::new();
    let mut i: usize = 0;
    while i < cands.len()
        invariant
            0 <= i <= cands@.len(),
            first == best_index(cands@),
            second == second_index(cands@),
            first < cands@.len(),
            second < cands@.len(),
            first_id == cands@[first as int].id,
            second_id == cands@[second as int].id,
            vs_best@ == counts_vs_best(cands@).subrange(0, i as int),
        decreases cands@.len() - i,
    {
        let opponent = if cands[i].id == first_id { second_id } else { first_id };
        vs_best.push(crate::lookup::count_by_bot(&cands[i].matches_vs, opponent));
        i += 1;
        assert(vs_best@ =~= counts_vs_best(cands@).subrange(0, i as int));
    }
    assert(counts_vs_best(cands@).subrange(0, i as int) =~= counts_vs_best(cands@));
    let k = first_min_position(&vs_best);
    if vs_best[k] < min_ab {
        let opponent = if cands[k].id == first_id { second_id } else { first_id };
        return V2Choice::Pair(cands[k].id, opponent);
    }
    let mut least: Vec<u64> = Vec::new();
    let mut least_opponents: Vec<BotId> = Vec::new();
    let mut i: usize = 0;
    while i < cands.len()
        invariant
            0 <= i <= cands@.len(),
            forall|j: int| 0 <= j < cands@.len() ==> (#[trigger] cands@[j]).matches_vs@.len() > 0,
            least@ == least_played_counts(cands@).subrange(0, i as int),
            least_opponents@.len() == i,
            forall|j: int| 0 <= j < i ==> #[trigger] least_opponents@[j] == least_played(cands@[j]).0,
        decreases cands@.len() - i,
    {
        let counts = counts_of_entries(&cands[i].matches_vs);
        let e = first_min_position(&counts);
        least.push(cands[i].matches_vs[e].1);
        least_opponents.push(cands[i].matches_vs[e].0);
        i += 1;
        assert(least@ =~= least_played_counts(cands@).subrange(0, i as int));
    }
    assert(least_played_counts(cands@).subrange(0, i as int) =~= least_played_counts(cands@));
    let m = first_min_position(&least);
    if least[m] < config.min_matches_per_pair {
        proof {
            let entries = cands@[m as int].matches_vs@;
            let e = first_min_index(entry_counts(entries));
            assert(entry_counts(entries).len() == entries.len());
            assert(exists|x: int| is_first_min(entry_counts(entries), x)) by {
                let counts = entry_counts(entries);
                assert(counts.len() > 0);
                lemma_first_min_exists(counts);
            }
            assert(0 <= e < entries.len());
            assert(entries[e].0 != cands@[m as int].id);
        }
        return V2Choice::Pair(cands[m].id, least_opponents[m]);
    }
    let cap = match config.max_matches { Some(v) => v, None => u64::MAX };
    let mut eligible: Vec<BotId> = Vec::new();
    let mut i: usize = 0;
    let ghost pred = |c: Candidate| c.matches_total < cap;
    while i < cands.len()
        invariant
            0 <= i <= cands@.len(),
            cap == (match config.max_matches { Some(m) => m, None => u64::MAX }),
            pred == (|c: Candidate| c.matches_total < cap),
            eligible@ == cands@.subrange(0, i as int).filter(pred).map_values(|c: Candidate| c.id),
        decreases cands@.len() - i,
    {
        proof {
            let prefix = cands@.subrange(0, i as int);
            assert(cands@.subrange(0, i + 1 as int) =~= prefix.push(cands@[i as int]));
            prefix.lemma_filter_push(cands@[i as int], pred);
        }
        if cands[i].matches_total < cap {
            eligible.push(cands[i].id);
        }
        i += 1;
        assert(eligible@ =~= cands@.subrange(0, i as int).filter(pred).map_values(|c: Candidate| c.id));
    }
    assert(cands@.subrange(0, i as int) =~= cands@);
    assert(pred =~= (|c: Candidate| c.matches_total < match_cap(*config)));
    assert(below_cap(*config, cands@) =~= eligible@);
    if eligible.len() > 0 {
        V2Choice::Among(eligible)
    } else {
        V2Choice::NoMatch
    }
}

pub proof fn lemma_first_min_exists(s: Seq<u64>)
    requires
        s.len() > 0,
    ensures
        exists|k: int| is_first_min(s, k),
    decreases s.len(),
{
    if s.len() == 1 {
        assert(is_first_min(s, 0));
    } else {
        let t = s.drop_last();
        lemma_first_min_exists(t);
        let k = choose|k: int| is_first_min(t, k);
        let last = s.len() - 1;
        if s[last] < s[k] {
            assert forall|j: int| 0 <= j < last implies s[last] < #[trigger] s[j] by {
                assert(t[j] == s[j]);
                assert(t[k] <= t[j]);
            }
            assert(is_first_min(s, last));
        } else {
            assert forall|j: int| 0 <= j < s.len() implies s[k] <= #[trigger] s[j] by {
                if j < last {
                    assert(t[j] == s[j]);
                }
            }
            assert forall|j: int| 0 <= j < k implies s[k] < #[trigger] s[j] by {
                assert(t[j] == s[j]);
            }
            assert(is_first_min(s, k));
        }
    }
}

/// Whether `players` already holds `id`.
pub fn holds_bot(players: &Vec<BotId>, id: BotId) -> (r: bool)
    ensures
        r == players@.contains(id),
{
    let mut i: usize = 0;
    while i < players.len()
        invariant
            0 <= i <= players.len(),
            forall|j: int| 0 <= j < i ==> players@[j] != id,
        decreases players.len() - i,
    {
        if players[i] == id {
            return true;
        }
        i += 1;
    }
    false
}

/// Some candidate has this identifier.
pub open spec fn is_candidate_id(cands: Seq<Candidate>, id: BotId) -> bool {
    exists|i: int| 0 <= i < cands.len() && cands[i].id == id
}

/// Adds random candidates not yet playing until there are `n_players`
/// players or no candidate is left.
pub fn backfill_random(n_players: usize, players: &mut Vec<BotId>, cands: &[Candidate])
    ensures
        final(players)@.subrange(0, old(players)@.len() as int) == old(players)@,
        final(players)@.len() >= old(players)@.len(),
        final(players)@.len() <= if old(players)@.len() < n_players { n_players as int } else { old(players)@.len() as int },
        forall|j: int| old(players)@.len() <= j < final(players)@.len() ==> is_candidate_id(cands@, #[trigger] final(players)@[j])
            && !final(players)@.subrange(0, j).contains(final(players)@[j]),
        final(players)@.len() < n_players ==> forall|i: int| 0 <= i < cands@.len() ==> final(players)@.contains(#[trigger] cands@[i].id),
{
    let ghost start = players@;
    while players.len() < n_players
        invariant
            players@.len() >= start.len(),
            players@.subrange(0, start.len() as int) == start,
            players@.len() <= if start.len() < n_players { n_players as int } else { start.len() as int },
            forall|j: int| start.len() <= j < players@.len() ==> is_candidate_id(cands@, #[trigger] players@[j])
                && !players@.subrange(0, j).contains(players@[j]),
        ensures
            players@.len() >= start.len(),
            players@.subrange(0, start.len() as int) == start,
            players@.len() <= if start.len() < n_players { n_players as int } else { start.len() as int },
            forall|j: int| start.len() <= j < players@.len() ==> is_candidate_id(cands@, #[trigger] players@[j])
                && !players@.subrange(0, j).contains(players@[j]),
            players@.len() < n_players ==> forall|i: int| 0 <= i < cands@.len() ==> players@.contains(#[trigger] cands@[i].id),
        decreases n_players - players@.len(),
    {
        let mut free: Vec<usize> = Vec::new();
        let mut i: usize = 0;
        while i < cands.len()
            invariant
                0 <= i <= cands@.len(),
                forall|j: int| 0 <= j < free@.len() ==> (#[trigger] free@[j]) < cands@.len() && !players@.contains(cands@[free@[j] as int].id),
                forall|j: int| 0 <= j < i && !players@.contains(#[trigger] cands@[j].id) ==> free@.contains(j as usize),
            decreases cands@.len() - i,
        {
            let ghost old_free = free@;
            if !holds_bot(players, cands[i].id) {
                free.push(i);
                proof {
                    assert(free@[free@.len() - 1] == i);
                }
            }
            proof {
                assert forall|j: int| 0 <= j < i + 1 && !players@.contains(#[trigger] cands@[j].id) implies free@.contains(j as usize) by {
                    if j < i {
                        assert(old_free.contains(j as usize));
                        let k = choose|k: int| 0 <= k < old_free.len() && old_free[k] == j as usize;
                        assert(free@[k] == old_free[k]);
                    } else {
                        assert(free@[free@.len() - 1] == i);
                    }
                }
            }
            i += 1;
        }
        if free.len() == 0 {
            assert forall|i: int| 0 <= i < cands@.len() implies players@.contains(#[trigger] cands@[i].id) by {
                if !players@.contains(cands@[i].id) {
                    assert(free@.contains(i as usize));
                }
            }
            break;
        }
        let pick = free[crate::random::random_below(free.len())];
        let ghost before = players@;
        players.push(cands[pick].id);
        proof {
            assert forall|j: int| start.len() <= j < players@.len() implies is_candidate_id(cands@, #[trigger] players@[j])
                && !players@.subrange(0, j).contains(players@[j]) by {
                if j < before.len() {
                    assert(players@.subrange(0, j) =~= before.subrange(0, j));
                } else {
                    assert(players@.subrange(0, j) =~= before);
                    assert(is_candidate_id(cands@, cands@[pick as int].id));
                }
            }
            assert(players@.subrange(0, start.len() as int) =~= before.subrange(0, start.len() as int));
        }
    }
}

/// A rearrangement of a list without repeats has no repeats.
pub proof fn lemma_rearrangement_keeps_distinct(s: Seq<BotId>, t: Seq<BotId>)
    requires
        s.no_duplicates(),
        t.to_multiset() == s.to_multiset(),
    ensures
        t.no_duplicates(),
{
    s.lemma_multiset_has_no_duplicates();
    t.lemma_multiset_has_no_duplicates_conv();
}

/// A rearrangement holds the same bots.
pub proof fn lemma_rearrangement_contains(s: Seq<BotId>, t: Seq<BotId>, x: BotId)
    requires
        t.to_multiset() == s.to_multiset(),
    ensures
        s.contains(x) <==> t.contains(x),
{
    vstd::seq_lib::to_multiset_contains(s, x);
    vstd::seq_lib::to_multiset_contains(t, x);
}

/// A list whose later elements each differ from all earlier ones, after a
/// start without repeats, has no repeats.
proof fn lemma_extension_distinct(v: Seq<BotId>, start_len: int)
    requires
        0 <= start_len <= v.len(),
        v.subrange(0, start_len).no_duplicates(),
        forall|j: int| start_len <= j < v.len() ==> !v.subrange(0, j).contains(#[trigger] v[j]),
    ensures
        v.no_duplicates(),
{
    assert forall|a: int, b: int| 0 <= a < v.len() && 0 <= b < v.len() && a != b implies v[a] != v[b] by {
        let lo = if a < b { a } else { b };
        let hi = if a < b { b } else { a };
        if hi < start_len {
            assert(v.subrange(0, start_len)[lo] == v[lo]);
            assert(v.subrange(0, start_len)[hi] == v[hi]);
        } else {
            assert(v.subrange(0, hi)[lo] == v[lo]);
            assert(!v.subrange(0, hi).contains(v[hi]));
        }
    }
}

/// Players of the second version: the decided pair, or one random bot
/// below the cap, filled up with random candidates, in random seat order.
/// `None` when the decision is to schedule nothing.
pub fn pick_participants_v2(n_players: usize, config: &MatchmakingAlgorithmV2Config, cands: &[Candidate]) -> (r: Option<Vec<BotId>>)
    requires
        v2_inputs_valid(*config, cands@),
    ensures
        r is None <==> v2_decision(*config, cands@).0 == 2,
        r matches Some(v) ==> {
            &&& v@.no_duplicates()
            &&& v@.len() >= 1
            &&& v2_decision(*config, cands@).0 == 0 ==> v@.contains(v2_decision(*config, cands@).1) && v@.contains(v2_decision(*config, cands@).2)
            &&& v2_decision(*config, cands@).0 == 1 ==> exists|i: int| 0 <= i < v2_decision(*config, cands@).3.len() && v@.contains(#[trigger] v2_decision(*config, cands@).3[i])
            &&& v@.len() <= n_players || v@.len() <= 2
            &&& v2_decision(*config, cands@).0 == 0 ==> v@.len() >= 2
            &&& forall|i: int| 0 <= i < v@.len() ==> is_candidate_id(cands@, #[trigger] v@[i])
                || (v2_decision(*config, cands@).0 == 0 && (v@[i] == v2_decision(*config, cands@).1
                    || v@[i] == v2_decision(*config, cands@).2))
                || (v2_decision(*config, cands@).0 == 1 && v2_decision(*config, cands@).3.contains(v@[i]))
            &&& v@.len() < n_players ==> forall|i: int| 0 <= i < cands@.len() ==> v@.contains(#[trigger] cands@[i].id)
        },
{
    let mut players: Vec<BotId> = Vec::new();
    match v2_choice(config, cands) {
        V2Choice::Pair(a, b) => {
            players.push(a);
            players.push(b);
        },
        V2Choice::Among(v) => {
            let pick = crate::random::random_below(v.len());
            players.push(v[pick]);
        },
        V2Choice::NoMatch => {
            return None;
        },
    }
    let ghost start = players@;
    assert(start.no_duplicates());
    backfill_random(n_players, &mut players, cands);
    proof {
        lemma_extension_distinct(players@, start.len() as int);
    }
    let ghost filled = players@;
    crate::random::shuffle_bots(&mut players);
    proof {
        lemma_rearrangement_keeps_distinct(filled, players@);
        vstd::seq_lib::to_multiset_len(filled);
        vstd::seq_lib::to_multiset_len(players@);
        assert(filled.subrange(0, start.len() as int) == start);
        assert(filled[0] == start[0]);
        lemma_rearrangement_contains(filled, players@, start[0]);
        if start.len() == 2 {
            assert(filled[1] == start[1]);
            lemma_rearrangement_contains(filled, players@, start[1]);
        }
        let d = v2_decision(*config, cands@);
        assert forall|i: int| 0 <= i < players@.len() implies is_candidate_id(cands@, #[trigger] players@[i])
            || (d.0 == 0 && (players@[i] == d.1 || players@[i] == d.2))
            || (d.0 == 1 && d.3.contains(players@[i])) by {
            lemma_rearrangement_contains(filled, players@, players@[i]);
            assert(players@.contains(players@[i]));
            let j = choose|j: int| 0 <= j < filled.len() && filled[j] == players@[i];
            if j < start.len() {
                assert(filled[j] == start[j]);
            }
        }
        if players@.len() < n_players {
            assert forall|i: int| 0 <= i < cands@.len() implies players@.contains(#[trigger] cands@[i].id) by {
                assert(filled.contains(cands@[i].id));
                lemma_rearrangement_contains(filled, players@, cands@[i].id);
            }
        }
    }
    Some(players)
}

/// Players of the first version: a random bot, taken from the bots below
/// `min_matches` when `prefer_min_matches` and there are any, filled up
/// with random candidates, in random seat order. `prefer_min_matches` is the
/// outcome of the random draw against the configured preference.
pub fn pick_participants_v1(n_players: usize, config: &MatchmakingAlgorithmV1Config, cands: &[Candidate], prefer_min_matches: bool) -> (r: Option<Vec<BotId>>)
    requires
        cands@.len() > 0,
    ensures
        r matches Some(v) && {
            &&& v@.no_duplicates()
            &&& v@.len() >= 1
            &&& v@.len() <= n_players || v@.len() == 1
            &&& forall|i: int| 0 <= i < v@.len() ==> is_candidate_id(cands@, #[trigger] v@[i])
            &&& v@.len() < n_players ==> forall|i: int| 0 <= i < cands@.len() ==> v@.contains(#[trigger] cands@[i].id)
            &&& (prefer_min_matches && exists|i: int| 0 <= i < cands@.len() && (#[trigger] cands@[i]).matches_total < config.min_matches)
                ==> exists|i: int| 0 <= i < cands@.len() && (#[trigger] cands@[i]).matches_total < config.min_matches && v@.contains(cands@[i].id)
        },
{
    let mut below: Vec<usize> = Vec::new();
    let mut i: usize = 0;
    while i < cands.len()
        invariant
            0 <= i <= cands@.len(),
            forall|j: int| 0 <= j < below@.len() ==> (#[trigger] below@[j]) < cands@.len() && cands@[below@[j] as int].matches_total < config.min_matches,
            forall|j: int| 0 <= j < i && (#[trigger] cands@[j]).matches_total < config.min_matches ==> below@.len() > 0,
        decreases cands@.len() - i,
    {
        if cands[i].matches_total < config.min_matches {
            below.push(i);
        }
        i += 1;
    }
    let first_index = if below.len() > 0 && prefer_min_matches {
        below[crate::random::random_below(below.len())]
    } else {
        crate::random::random_below(cands.len())
    };
    let mut players: Vec<BotId> = Vec::new();
    players.push(cands[first_index].id);
    let ghost start = players@;
    backfill_random(n_players, &mut players, cands);
    proof {
        lemma_extension_distinct(players@, 1);
    }
    let ghost filled = players@;
    crate::random::shuffle_bots(&mut players);
    proof {
        lemma_rearrangement_keeps_distinct(filled, players@);
        vstd::seq_lib::to_multiset_len(filled);
        vstd::seq_lib::to_multiset_len(players@);
        assert(start[0] == cands@[first_index as int].id);
        assert(filled.subrange(0, 1) == start);
        assert(filled.subrange(0, 1)[0] == filled[0]);
        assert(filled[0] == cands@[first_index as int].id);
        lemma_rearrangement_contains(filled, players@, filled[0]);
        assert forall|i: int| 0 <= i < players@.len() implies is_candidate_id(cands@, #[trigger] players@[i]) by {
            lemma_rearrangement_contains(filled, players@, players@[i]);
            assert(players@.contains(players@[i]));
            let j = choose|j: int| 0 <= j < filled.len() && filled[j] == players@[i];
            if j == 0 {
                assert(is_candidate_id(cands@, cands@[first_index as int].id));
            }
        }
        if players@.len() < n_players {
            assert forall|i: int| 0 <= i < cands@.len() implies players@.contains(#[trigger] cands@[i].id) by {
                assert(filled.contains(cands@[i].id));
                lemma_rearrangement_contains(filled, players@, cands@[i].id);
            }
        }
    }
    Some(players)
}

/// Bots that include every candidate, all with distinct identifiers, are at
/// least as many as the candidates.
proof fn lemma_holds_all_ids(v: Seq<BotId>, cands: Seq<Candidate>)
    requires
        ids_unique(cands),
        forall|i: int| 0 <= i < cands.len() ==> v.contains(#[trigger] cands[i].id),
    ensures
        v.len() >= cands.len(),
{
    let ids = cands.map_values(|c: Candidate| c.id);
    assert(ids.no_duplicates()) by {
        assert forall|i: int, j: int| 0 <= i < ids.len() && 0 <= j < ids.len() && i != j implies ids[i] != ids[j] by {
            if i < j {
                assert(cands[i].id != cands[j].id);
            } else {
                assert(cands[j].id != cands[i].id);
            }
        }
    }
    ids.unique_seq_to_set();
    assert(ids.to_set().subset_of(v.to_set())) by {
        assert forall|x: BotId| ids.to_set().contains(x) implies v.to_set().contains(x) by {
            let k = choose|k: int| 0 <= k < ids.len() && ids[k] == x;
            assert(v.contains(cands[k].id));
        }
    }
    v.lemma_cardinality_of_set();
    vstd::seq_lib::seq_to_set_is_finite(v);
    vstd::set_lib::lemma_len_subset(ids.to_set(), v.to_set());
}

/// Schedules the next match: `None`-like empty result when there are fewer
/// candidates than the game needs or the algorithm decides on nothing;
/// otherwise one match with a random seed, or, in an asymmetric game, one
/// match per seat ordering of the players, all with that seed.
pub fn create_match(game: &GameConfig, config: &MatchmakingConfig, cands: &[Candidate], prefer_min_matches: bool) -> (r: Vec<MatchConfig>)
    requires
        cands@.len() >= game.min_players ==> {
            &&& game.min_players <= game.max_players
            &&& cands@.len() > 0
            &&& config.algorithm matches MatchmakingAlgorithmConfig::V2(v2) ==> v2_inputs_valid(v2, cands@)
        },
    ensures
        cands@.len() < game.min_players ==> r@.len() == 0,
        r@.len() > 0 ==> {
            &&& r@[0].bot_ids@.no_duplicates()
            &&& r@[0].bot_ids@.len() >= 1
            &&& forall|i: int| 0 <= i < r@.len() ==> (#[trigger] r@[i]).seed == r@[0].seed
            &&& game.symmetric ==> r@.len() == 1
            &&& !game.symmetric ==> r@.len() == crate::orderings::factorial(r@[0].bot_ids@.len())
                && forall|i: int| 0 <= i < r@.len() ==> r@[i].bot_ids@ == seat_orderings(r@[0].bot_ids@)[i]
            &&& !game.symmetric ==> crate::orderings::all_seat_orderings(seat_orderings(r@[0].bot_ids@), r@[0].bot_ids@)
        },
        config.algorithm matches MatchmakingAlgorithmConfig::V2(v2)
            ==> (cands@.len() >= game.min_players ==> (r@.len() == 0 <==> v2_decision(v2, cands@).0 == 2)),
        !(config.algorithm is V2) && cands@.len() >= game.min_players ==> r@.len() > 0,
        config.algorithm matches MatchmakingAlgorithmConfig::V2(v2) ==> r@.len() > 0 ==> {
            let d = v2_decision(v2, cands@);
            let bots = r@[0].bot_ids@;
            &&& d.0 == 0 ==> bots.contains(d.1) && bots.contains(d.2)
            &&& d.0 == 1 ==> exists|i: int| 0 <= i < d.3.len() && bots.contains(#[trigger] d.3[i])
            &&& forall|i: int| 0 <= i < bots.len() ==> is_candidate_id(cands@, #[trigger] bots[i])
                || (d.0 == 0 && (bots[i] == d.1 || bots[i] == d.2))
                || (d.0 == 1 && d.3.contains(bots[i]))
        },
        r@.len() > 0 ==> {
            &&& r@[0].bot_ids@.len() <= game.max_players || r@[0].bot_ids@.len() <= 2
            &&& r@[0].bot_ids@.len() < game.min_players ==> forall|i: int| 0 <= i < cands@.len() ==> r@[0].bot_ids@.contains(
                #[trigger] cands@[i].id,
            )
            &&& ids_unique(cands@) ==> r@[0].bot_ids@.len() >= game.min_players
            &&& !(config.algorithm is V2) ==> forall|i: int| 0 <= i < r@[0].bot_ids@.len() ==> is_candidate_id(
                cands@,
                #[trigger] r@[0].bot_ids@[i],
            )
        },
{
    if cands.len() < game.min_players as usize {
        return Vec::new();
    }
    let n_players = crate::random::random_in_range(game.min_players, game.max_players) as usize;
    let picked = match &config.algorithm {
        MatchmakingAlgorithmConfig::V1(v1) => pick_participants_v1(n_players, v1, cands, prefer_min_matches),
        MatchmakingAlgorithmConfig::V2(v2) => pick_participants_v2(n_players, v2, cands),
        MatchmakingAlgorithmConfig::Legacy(v1) => pick_participants_v1(n_players, v1, cands, prefer_min_matches),
    };
    let bot_ids = match picked {
        Some(bot_ids) => bot_ids,
        None => {
            return Vec::new();
        },
    };
    proof {
        if bot_ids@.len() < n_players && ids_unique(cands@) {
            lemma_holds_all_ids(bot_ids@, cands@);
        }
    }
    let seed = crate::random::random_i64();
    let mut r: Vec<MatchConfig> = Vec::new();
    if game.symmetric {
        r.push(MatchConfig { bot_ids, seed });
        return r;
    }
    let orderings = crate::orderings::seat_orderings_exec(&bot_ids);
    let n = orderings.len();
    let mut i: usize = 0;
    while i < n
        invariant
            n == orderings@.len(),
            orderings@.map_values(|v: Vec<BotId>| v@) == seat_orderings(bot_ids@),
            orderings@.len() == crate::orderings::factorial(bot_ids@.len()),
            orderings@.len() > 0 ==> orderings@[0]@ == bot_ids@,
            0 <= i <= n,
            r@.len() == i,
            forall|j: int| 0 <= j < i ==> (#[trigger] r@[j]).seed == seed && r@[j].bot_ids@ == orderings@[j]@,
        decreases n - i,
    {
        let copy = copy_bots(&orderings[i]);
        r.push(MatchConfig { bot_ids: copy, seed });
        i += 1;
    }
    proof {
        crate::orderings::lemma_factorial_positive(bot_ids@.len());
        assert forall|j: int| 0 <= j < r@.len() implies r@[j].bot_ids@ == seat_orderings(r@[0].bot_ids@)[j] by {
            assert(orderings@.map_values(|v: Vec<BotId>| v@)[j] == orderings@[j]@);
        }
    }
    r
}

/// A copy of a list of bots.
pub fn copy_bots(bots: &Vec<BotId>) -> (r: Vec<BotId>)
    ensures
        r@ == bots@,
{
    let mut r: Vec<BotId> = Vec::new();
    let mut i: usize = 0;
    while i < bots.len()
        invariant
            0 <= i <= bots.len(),
            r@ == bots@.subrange(0, i as int),
        decreases bots.len() - i,
    {
        r.push(bots[i]);
        i += 1;
        assert(r@ =~= bots@.subrange(0, i as int));
    }
    assert(bots@.subrange(0, i as int) =~= bots@);
    r
}

/// Whether an opponent list has an entry for `key`.
fn has_entry(entries: &Vec<(BotId, u64)>, key: BotId) -> (r: bool)
    ensures
        r == crate::lookup::has_key(entries@, key),
{
    let mut i: usize = 0;
    while i < entries.len()
        invariant
            0 <= i <= entries.len(),
            forall|j: int| 0 <= j < i ==> entries@[j].0 != key,
        decreases entries.len() - i,
    {
        if entries[i].0 == key {
            return true;
        }
        i += 1;
    }
    false
}

/// Whether the second version may run on these candidates (see
/// `v2_inputs_valid`).
pub fn v2_inputs_are_valid(config: &MatchmakingAlgorithmV2Config, cands: &[Candidate]) -> (r: bool)
    ensures
        r == v2_inputs_valid(*config, cands@),
{
    if cands.len() < 2 {
        return false;
    }
    let mut i: usize = 0;
    while i < cands.len()
        invariant
            0 <= i <= cands@.len(),
            forall|a: int, b: int| 0 <= a < b < cands@.len() && a < i ==> cands@[a].id != cands@[b].id,
            forall|a: int| 0 <= a < i ==> (#[trigger] cands@[a]).matches_vs@.len() > 0,
            forall|a: int, e: int| 0 <= a < i && 0 <= e < cands@[a].matches_vs@.len() ==> (#[trigger] cands@[a].matches_vs@[e]).0 != cands@[a].id,
        decreases cands@.len() - i,
    {
        if cands[i].matches_vs.len() == 0 {
            return false;
        }
        let mut e: usize = 0;
        while e < cands[i].matches_vs.len()
            invariant
                i < cands@.len(),
                0 <= e <= cands@[i as int].matches_vs@.len(),
                forall|x: int| 0 <= x < e ==> (#[trigger] cands@[i as int].matches_vs@[x]).0 != cands@[i as int].id,
            decreases cands@[i as int].matches_vs@.len() - e,
        {
            if cands[i].matches_vs[e].0 == cands[i].id {
                assert(cands@[i as int].matches_vs@[e as int].0 == cands@[i as int].id);
                return false;
            }
            e += 1;
        }
        let mut j: usize = i + 1;
        while j < cands.len()
            invariant
                i < cands@.len(),
                i + 1 <= j <= cands@.len(),
                forall|b: int| i < b < j ==> cands@[i as int].id != cands@[b].id,
            decreases cands@.len() - j,
        {
            if cands[i].id == cands[j].id {
                return false;
            }
            j += 1;
        }
        i += 1;
    }
    let (first, second) = best_two(cands);
    proof {
        lemma_best_unique(cands@, first as int, best_index(cands@));
        lemma_second_unique(cands@, first as int, second as int, second_index(cands@));
    }
    let min_ab = match config.min_matches_against_best { Some(v) => v, None => 0 };
    if crate::lookup::count_by_bot(&cands[first].matches_vs, cands[second].id) < min_ab {
        return true;
    }
    let mut i: usize = 0;
    while i < cands.len()
        invariant
            0 <= i <= cands@.len(),
            first == best_index(cands@),
            second == second_index(cands@),
            first < cands@.len(),
            second < cands@.len(),
            !top_pair_due(*config, cands@),
            forall|a: int| 0 <= a < i ==> crate::lookup::has_key((#[trigger] cands@[a]).matches_vs@, best_opponent(cands@, cands@[a].id)),
        decreases cands@.len() - i,
    {
        let opponent = if cands[i].id == cands[first].id { cands[second].id } else { cands[first].id };
        if !has_entry(&cands[i].matches_vs, opponent) {
            assert(!crate::lookup::has_key(cands@[i as int].matches_vs@, best_opponent(cands@, cands@[i as int].id)));
            return false;
        }
        i += 1;
    }
    true
}

} // verus!
