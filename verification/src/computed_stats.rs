//! Statistics computed from the stored matches: per pair of bots the wins,
//! draws and losses of the first against the second, the matches in which a
//! bot reported an error, the number of matches and the most recent seeds.
//! Ratings are computed in floating point and are kept elsewhere.
use vstd::prelude::*;
use crate::domain::ids::BotId;
use crate::domain::matches::{Match, Participant};
use crate::lookup::{count_by_bot, position_of_bot, position_of_pair};

verus! {

/// How many distinct seeds are kept as examples.
pub const EXAMPLE_SEEDS_LIMIT: usize = 10;

/// Wins, draws and losses of one bot against another.
#[derive(Debug, Clone, Copy, PartialEq, Eq, Structural)]
pub struct WinrateStats {
    pub wins: u64,
    pub draws: u64,
    pub loses: u64,
}

impl WinrateStats {
    pub open spec fn sum(self) -> int {
        self.wins + self.loses + self.draws
    }

    pub open spec fn tally(self) -> (nat, nat, nat) {
        (self.wins as nat, self.draws as nat, self.loses as nat)
    }

    /// Number of encounters.
    pub fn total(&self) -> (r: u64)
        requires
            self.sum() <= u64::MAX,
        ensures
            r == self.sum(),
    {
        self.wins + self.loses + self.draws
    }
}

impl Default for WinrateStats {
    fn default() -> (r: WinrateStats)
        ensures
            r.wins == 0 && r.draws == 0 && r.loses == 0,
    {
        WinrateStats { wins: 0, draws: 0, loses: 0 }
    }
}

/// A tally of (wins, draws, losses).
pub open spec fn zero3() -> (nat, nat, nat) {
    (0, 0, 0)
}

pub open spec fn add3(x: (nat, nat, nat), y: (nat, nat, nat)) -> (nat, nat, nat) {
    (x.0 + y.0, x.1 + y.1, x.2 + y.2)
}

pub open spec fn total3(x: (nat, nat, nat)) -> nat {
    x.0 + x.1 + x.2
}

pub open spec fn le3(x: (nat, nat, nat), y: (nat, nat, nat)) -> bool {
    x.0 <= y.0 && x.1 <= y.1 && x.2 <= y.2
}

/// Wins and losses exchanged.
pub open spec fn mirror3(x: (nat, nat, nat)) -> (nat, nat, nat) {
    (x.2, x.1, x.0)
}

/// A seat of rank `r1` against a seat of rank `r2`: a lower rank wins.
pub open spec fn outcome(r1: u8, r2: u8) -> (nat, nat, nat) {
    if r1 < r2 {
        (1, 0, 0)
    } else if r1 == r2 {
        (0, 1, 0)
    } else {
        (0, 0, 1)
    }
}

/// A seat of rank `r1` against every seat of bot `b` among the first `n`.
pub open spec fn row_tally(parts: Seq<Participant>, r1: u8, b: BotId, n: int) -> (nat, nat, nat)
    decreases n,
{
    if n <= 0 {
        zero3()
    } else if parts[n - 1].bot_id == b {
        add3(row_tally(parts, r1, b, n - 1), outcome(r1, parts[n - 1].rank))
    } else {
        row_tally(parts, r1, b, n - 1)
    }
}

/// The seats of bot `a` among the first `n` against every seat of bot `b`;
/// nothing when `a` and `b` are the same bot.
pub open spec fn block_tally(parts: Seq<Participant>, a: BotId, b: BotId, n: int) -> (nat, nat, nat)
    decreases n,
{
    if n <= 0 {
        zero3()
    } else if parts[n - 1].bot_id == a && a != b {
        add3(block_tally(parts, a, b, n - 1), row_tally(parts, parts[n - 1].rank, b, parts.len() as int))
    } else {
        block_tally(parts, a, b, n - 1)
    }
}

/// Bot `a` against bot `b` in one match.
pub open spec fn match_tally(parts: Seq<Participant>, a: BotId, b: BotId) -> (nat, nat, nat) {
    block_tally(parts, a, b, parts.len() as int)
}

/// Bot `a` against bot `b` over a history of matches, given by their seats.
pub open spec fn history_tally(h: Seq<Seq<Participant>>, a: BotId, b: BotId) -> (nat, nat, nat)
    decreases h.len(),
{
    if h.len() == 0 {
        zero3()
    } else {
        add3(history_tally(h.drop_last(), a, b), match_tally(h.last(), a, b))
    }
}

/// Seats of bot `id` among the first `n` that reported an error.
pub open spec fn seat_errors(parts: Seq<Participant>, id: BotId, n: int) -> nat
    decreases n,
{
    if n <= 0 {
        0
    } else if parts[n - 1].bot_id == id && parts[n - 1].error {
        seat_errors(parts, id, n - 1) + 1
    } else {
        seat_errors(parts, id, n - 1)
    }
}

/// Errors of bot `id` over a history of matches.
pub open spec fn history_errors(h: Seq<Seq<Participant>>, id: BotId) -> nat
    decreases h.len(),
{
    if h.len() == 0 {
        0
    } else {
        history_errors(h.drop_last(), id) + seat_errors(h.last(), id, h.last().len() as int)
    }
}

/// The example seeds after a match with `seed`: a seed seen already leaves
/// them as they are; a new one goes first, and the oldest beyond the limit
/// leave.
pub open spec fn seeds_step(seeds: Seq<i64>, seed: i64) -> Seq<i64> {
    if seeds.contains(seed) {
        seeds
    } else {
        let s = seq![seed] + seeds;
        if s.len() > EXAMPLE_SEEDS_LIMIT {
            s.take(EXAMPLE_SEEDS_LIMIT as int)
        } else {
            s
        }
    }
}

/// The example seeds after a sequence of matches with the given seeds.
pub open spec fn seeds_after(seeds: Seq<i64>) -> Seq<i64>
    decreases seeds.len(),
{
    if seeds.len() == 0 {
        Seq::empty()
    } else {
        seeds_step(seeds_after(seeds.drop_last()), seeds.last())
    }
}

/// Seats of each match of a history.
pub open spec fn seats_of(h: Seq<(i64, Seq<Participant>)>) -> Seq<Seq<Participant>> {
    h.map_values(|e: (i64, Seq<Participant>)| e.1)
}

/// Seeds of each match of a history.
pub open spec fn seeds_of(h: Seq<(i64, Seq<Participant>)>) -> Seq<i64> {
    h.map_values(|e: (i64, Seq<Participant>)| e.0)
}

/// A match as the history records it.
pub open spec fn recorded(m: Match) -> (i64, Seq<Participant>) {
    (m.seed, m.participants@)
}

/// Every tally and error count of the history fits in a `u64`.
pub open spec fn counts_fit(h: Seq<Seq<Participant>>) -> bool {
    &&& forall|a: BotId, b: BotId| total3(#[trigger] history_tally(h, a, b)) <= u64::MAX
    &&& forall|id: BotId| #[trigger] history_errors(h, id) <= u64::MAX
}

/// Sum of the encounters recorded for pairs whose first bot is `id`.
pub open spec fn played_sum(entries: Seq<((BotId, BotId), WinrateStats)>, id: BotId) -> int
    decreases entries.len(),
{
    if entries.len() == 0 {
        0
    } else {
        played_sum(entries.drop_last(), id) + (if entries.last().0.0 == id {
            entries.last().1.sum()
        } else {
            0
        })
    }
}

/// Keys of an association list are pairwise distinct.
pub open spec fn keys_unique<K, V>(entries: Seq<(K, V)>) -> bool {
    forall|i: int, j: int| 0 <= i < j < entries.len() ==> entries[i].0 != entries[j].0
}

/// The statistics of all matches recorded so far.
pub struct ComputedStats {
    winrate_stats: Vec<((BotId, BotId), WinrateStats)>,
    matches_with_error: Vec<(BotId, u64)>,
    total_matches: u64,
    example_seeds: Vec<i64>,
    history: Ghost<Seq<(i64, Seq<Participant>)>>,
}

/// The tallies of `entries` are those of history `h`, one entry per pair
/// of distinct bots that met.
pub open spec fn tallies_agree(entries: Seq<((BotId, BotId), WinrateStats)>, h: Seq<Seq<Participant>>) -> bool {
    &&& keys_unique(entries)
    &&& forall|k: int| 0 <= k < entries.len() ==> (#[trigger] entries[k]).0.0 != entries[k].0.1
        && entries[k].1.tally() == history_tally(h, entries[k].0.0, entries[k].0.1)
        && total3(entries[k].1.tally()) > 0
    &&& forall|a: BotId, b: BotId| a != b && total3(#[trigger] history_tally(h, a, b)) > 0 ==> crate::lookup::has_key(entries, (a, b))
}

/// The error counts of `entries` are those of history `h`.
pub open spec fn errors_agree(entries: Seq<(BotId, u64)>, h: Seq<Seq<Participant>>) -> bool {
    &&& keys_unique(entries)
    &&& forall|k: int| 0 <= k < entries.len() ==> (#[trigger] entries[k]).1 == history_errors(h, entries[k].0)
    &&& forall|id: BotId| #[trigger] history_errors(h, id) > 0 ==> crate::lookup::has_key(entries, id)
}

impl ComputedStats {
    /// The matches recorded so far, in order: seed and seats.
    pub closed spec fn history(self) -> Seq<(i64, Seq<Participant>)> {
        self.history@
    }

    /// The tallies per ordered pair of bots, as stored.
    pub closed spec fn pair_entries(self) -> Seq<((BotId, BotId), WinrateStats)> {
        self.winrate_stats@
    }

    pub closed spec fn wf(self) -> bool {
        let h = seats_of(self.history@);
        &&& counts_fit(h)
        &&& tallies_agree(self.winrate_stats@, h)
        &&& errors_agree(self.matches_with_error@, h)
        &&& self.total_matches == self.history@.len()
        &&& self.example_seeds@ == seeds_after(seeds_of(self.history@))
    }

    /// Statistics of no match at all.
    pub fn new() -> (r: ComputedStats)
        ensures
            r.wf(),
            r.history() == Seq::<(i64, Seq<Participant>)>::empty(),
    {
        let r = ComputedStats {
            winrate_stats: Vec::new(),
            matches_with_error: Vec::new(),
            total_matches: 0,
            example_seeds: Vec::new(),
            history: Ghost(Seq::empty()),
        };
        proof {
            let h = seats_of(r.history@);
            assert(h =~= Seq::<Seq<Participant>>::empty());
            assert(seeds_of(r.history@) =~= Seq::<i64>::empty());
        }
        r
    }
}


/// Bot `x` against bot `y` once the seats before `i` have met every seat
/// and seat `i` has met the seats before `j`.
pub open spec fn partial_tally(parts: Seq<Participant>, x: BotId, y: BotId, i: int, j: int) -> (nat, nat, nat) {
    add3(
        block_tally(parts, x, y, i),
        if 0 <= i < parts.len() && parts[i].bot_id == x && x != y {
            row_tally(parts, parts[i].rank, y, j)
        } else {
            zero3()
        },
    )
}

pub proof fn lemma_row_monotone(parts: Seq<Participant>, r1: u8, b: BotId, n: int, m: int)
    requires
        0 <= n <= m,
    ensures
        le3(row_tally(parts, r1, b, n), row_tally(parts, r1, b, m)),
    decreases m - n,
{
    if n < m {
        lemma_row_monotone(parts, r1, b, n, m - 1);
    }
}

pub proof fn lemma_block_monotone(parts: Seq<Participant>, a: BotId, b: BotId, n: int, m: int)
    requires
        0 <= n <= m,
    ensures
        le3(block_tally(parts, a, b, n), block_tally(parts, a, b, m)),
    decreases m - n,
{
    if n < m {
        lemma_block_monotone(parts, a, b, n, m - 1);
    }
}

pub proof fn lemma_seat_errors_monotone(parts: Seq<Participant>, id: BotId, n: int, m: int)
    requires
        0 <= n <= m,
    ensures
        seat_errors(parts, id, n) <= seat_errors(parts, id, m),
    decreases m - n,
{
    if n < m {
        lemma_seat_errors_monotone(parts, id, n, m - 1);
    }
}

proof fn lemma_partial_within_match(parts: Seq<Participant>, x: BotId, y: BotId, i: int, j: int)
    requires
        0 <= i < parts.len(),
        0 <= j <= parts.len(),
    ensures
        le3(partial_tally(parts, x, y, i, j), match_tally(parts, x, y)),
        partial_tally(parts, x, y, i, parts.len() as int) == partial_tally(parts, x, y, i + 1, 0),
{
    lemma_row_monotone(parts, parts[i].rank, y, j, parts.len() as int);
    lemma_block_monotone(parts, x, y, i + 1, parts.len() as int);
}

pub proof fn lemma_history_push(h: Seq<Seq<Participant>>, parts: Seq<Participant>, a: BotId, b: BotId)
    ensures
        history_tally(h.push(parts), a, b) == add3(history_tally(h, a, b), match_tally(parts, a, b)),
        history_errors(h.push(parts), a) == history_errors(h, a) + seat_errors(parts, a, parts.len() as int),
{
    assert(h.push(parts).drop_last() =~= h);
}

/// Adds to `entries` every encounter of two distinct bots in a match.
fn record_tallies(
    entries: &mut Vec<((BotId, BotId), WinrateStats)>,
    parts: &Vec<Participant>,
    Ghost(h): Ghost<Seq<Seq<Participant>>>,
)
    requires
        tallies_agree(old(entries)@, h),
        counts_fit(h.push(parts@)),
    ensures
        tallies_agree(final(entries)@, h.push(parts@)),
{
    let n = parts.len();
    let mut i: usize = 0;
    while i < n
        invariant
            n == parts@.len(),
            0 <= i <= n,
            counts_fit(h.push(parts@)),
            keys_unique(entries@),
            forall|k: int| 0 <= k < entries@.len() ==> (#[trigger] entries@[k]).0.0 != entries@[k].0.1
                && entries@[k].1.tally() == add3(history_tally(h, entries@[k].0.0, entries@[k].0.1),
                    partial_tally(parts@, entries@[k].0.0, entries@[k].0.1, i as int, 0))
                && total3(entries@[k].1.tally()) > 0,
            forall|x: BotId, y: BotId| x != y && total3(add3(history_tally(h, x, y), #[trigger] partial_tally(parts@, x, y, i as int, 0))) > 0
                ==> crate::lookup::has_key(entries@, (x, y)),
        decreases n - i,
    {
        let a = parts[i].bot_id;
        let ri = parts[i].rank;
        let mut j: usize = 0;
        while j < n
            invariant
                n == parts@.len(),
                0 <= i < n,
                0 <= j <= n,
                a == parts@[i as int].bot_id,
                ri == parts@[i as int].rank,
                counts_fit(h.push(parts@)),
                keys_unique(entries@),
                forall|k: int| 0 <= k < entries@.len() ==> (#[trigger] entries@[k]).0.0 != entries@[k].0.1
                    && entries@[k].1.tally() == add3(history_tally(h, entries@[k].0.0, entries@[k].0.1),
                        partial_tally(parts@, entries@[k].0.0, entries@[k].0.1, i as int, j as int))
                    && total3(entries@[k].1.tally()) > 0,
                forall|x: BotId, y: BotId| x != y && total3(add3(history_tally(h, x, y), #[trigger] partial_tally(parts@, x, y, i as int, j as int))) > 0
                    ==> crate::lookup::has_key(entries@, (x, y)),
            decreases n - j,
        {
            let b = parts[j].bot_id;
            let rj = parts[j].rank;
            let ghost old_entries = entries@;
            proof {
                assert forall|x: BotId, y: BotId| !(x == a && y == b && a != b) implies
                    #[trigger] partial_tally(parts@, x, y, i as int, j + 1) == partial_tally(parts@, x, y, i as int, j as int) by {
                }
                if a != b {
                    assert(partial_tally(parts@, a, b, i as int, j + 1) == add3(partial_tally(parts@, a, b, i as int, j as int), outcome(ri, rj)));
                }
            }
            if a.0 != b.0 {
                proof {
                    lemma_partial_within_match(parts@, a, b, i as int, j + 1);
                    lemma_history_push(h, parts@, a, b);
                    assert(total3(history_tally(h.push(parts@), a, b)) <= u64::MAX);
                }
                match position_of_pair(entries, a, b) {
                    Some(k) => {
                        let old_stats = entries[k].1;
                        let new_stats = if ri < rj {
                            WinrateStats { wins: old_stats.wins + 1, draws: old_stats.draws, loses: old_stats.loses }
                        } else if ri == rj {
                            WinrateStats { wins: old_stats.wins, draws: old_stats.draws + 1, loses: old_stats.loses }
                        } else {
                            WinrateStats { wins: old_stats.wins, draws: old_stats.draws, loses: old_stats.loses + 1 }
                        };
                        entries.set(k, ((a, b), new_stats));
                        proof {
                            assert forall|p: int, q: int| 0 <= p < q < entries@.len() implies entries@[p].0 != entries@[q].0 by {
                                assert(old_entries[p].0 != old_entries[q].0);
                            }
                            assert forall|x: BotId, y: BotId| x != y && total3(add3(history_tally(h, x, y), #[trigger] partial_tally(parts@, x, y, i as int, j + 1))) > 0
                                implies crate::lookup::has_key(entries@, (x, y)) by {
                                if x == a && y == b {
                                    assert(entries@[k as int].0 == (x, y));
                                } else {
                                    assert(crate::lookup::has_key(old_entries, (x, y)));
                                    let w = choose|w: int| 0 <= w < old_entries.len() && old_entries[w].0 == (x, y);
                                    assert(entries@[w].0 == (x, y));
                                }
                            }
                        }
                    },
                    None => {
                        let one = if ri < rj {
                            WinrateStats { wins: 1, draws: 0, loses: 0 }
                        } else if ri == rj {
                            WinrateStats { wins: 0, draws: 1, loses: 0 }
                        } else {
                            WinrateStats { wins: 0, draws: 0, loses: 1 }
                        };
                        proof {
                            if total3(add3(history_tally(h, a, b), partial_tally(parts@, a, b, i as int, j as int))) > 0 {
                                assert(crate::lookup::has_key(old_entries, (a, b)));
                            }
                        }
                        entries.push(((a, b), one));
                        proof {
                            assert forall|p: int, q: int| 0 <= p < q < entries@.len() implies entries@[p].0 != entries@[q].0 by {
                                if q == old_entries.len() {
                                    assert(old_entries[p].0 != (a, b));
                                } else {
                                    assert(old_entries[p].0 != old_entries[q].0);
                                }
                            }
                            assert forall|x: BotId, y: BotId| x != y && total3(add3(history_tally(h, x, y), #[trigger] partial_tally(parts@, x, y, i as int, j + 1))) > 0
                                implies crate::lookup::has_key(entries@, (x, y)) by {
                                if x == a && y == b {
                                    assert(entries@[old_entries.len() as int].0 == (x, y));
                                } else {
                                    assert(crate::lookup::has_key(old_entries, (x, y)));
                                    let w = choose|w: int| 0 <= w < old_entries.len() && old_entries[w].0 == (x, y);
                                    assert(entries@[w].0 == (x, y));
                                }
                            }
                            assert(entries@[old_entries.len() as int].1.tally() == add3(history_tally(h, a, b),
                                partial_tally(parts@, a, b, i as int, j + 1)));
                        }
                    },
                }
            }
            j += 1;
        }
        proof {
            assert forall|x: BotId, y: BotId| #[trigger] partial_tally(parts@, x, y, i + 1, 0) == partial_tally(parts@, x, y, i as int, n as int) by {
                lemma_partial_within_match(parts@, x, y, i as int, 0);
            }
        }
        i += 1;
    }
    proof {
        assert forall|x: BotId, y: BotId| #[trigger] history_tally(h.push(parts@), x, y) == add3(history_tally(h, x, y), partial_tally(parts@, x, y, n as int, 0)) by {
            lemma_history_push(h, parts@, x, y);
        }
    }
}


/// Adds to `entries` the seats of a match that reported an error.
fn record_errors(entries: &mut Vec<(BotId, u64)>, parts: &Vec<Participant>, Ghost(h): Ghost<Seq<Seq<Participant>>>)
    requires
        errors_agree(old(entries)@, h),
        counts_fit(h.push(parts@)),
    ensures
        errors_agree(final(entries)@, h.push(parts@)),
{
    let n = parts.len();
    let mut i: usize = 0;
    while i < n
        invariant
            n == parts@.len(),
            0 <= i <= n,
            counts_fit(h.push(parts@)),
            keys_unique(entries@),
            forall|k: int| 0 <= k < entries@.len() ==> (#[trigger] entries@[k]).1
                == history_errors(h, entries@[k].0) + seat_errors(parts@, entries@[k].0, i as int),
            forall|id: BotId| history_errors(h, id) + #[trigger] seat_errors(parts@, id, i as int) > 0 ==> crate::lookup::has_key(entries@, id),
        decreases n - i,
    {
        let ghost old_entries = entries@;
        if parts[i].error {
            let id = parts[i].bot_id;
            proof {
                lemma_seat_errors_monotone(parts@, id, i + 1, n as int);
                lemma_history_push(h, parts@, id, id);
                assert(history_errors(h.push(parts@), id) <= u64::MAX);
            }
            match position_of_bot(entries, id) {
                Some(k) => {
                    let count = entries[k].1;
                    entries.set(k, (id, count + 1));
                    proof {
                        assert forall|p: int, q: int| 0 <= p < q < entries@.len() implies entries@[p].0 != entries@[q].0 by {
                            assert(old_entries[p].0 != old_entries[q].0);
                        }
                        assert forall|x: BotId| history_errors(h, x) + #[trigger] seat_errors(parts@, x, i + 1) > 0 implies crate::lookup::has_key(entries@, x) by {
                            if x == id {
                                assert(entries@[k as int].0 == x);
                            } else {
                                assert(seat_errors(parts@, x, i + 1) == seat_errors(parts@, x, i as int));
                                assert(crate::lookup::has_key(old_entries, x));
                                let w = choose|w: int| 0 <= w < old_entries.len() && old_entries[w].0 == x;
                                assert(entries@[w].0 == x);
                            }
                        }
                    }
                },
                None => {
                    proof {
                        if history_errors(h, id) + seat_errors(parts@, id, i as int) > 0 {
                            assert(crate::lookup::has_key(old_entries, id));
                        }
                    }
                    entries.push((id, 1));
                    proof {
                        assert forall|p: int, q: int| 0 <= p < q < entries@.len() implies entries@[p].0 != entries@[q].0 by {
                            if q == old_entries.len() {
                                assert(old_entries[p].0 != id);
                            } else {
                                assert(old_entries[p].0 != old_entries[q].0);
                            }
                        }
                        assert forall|x: BotId| history_errors(h, x) + #[trigger] seat_errors(parts@, x, i + 1) > 0 implies crate::lookup::has_key(entries@, x) by {
                            if x == id {
                                assert(entries@[old_entries.len() as int].0 == x);
                            } else {
                                assert(seat_errors(parts@, x, i + 1) == seat_errors(parts@, x, i as int));
                                assert(crate::lookup::has_key(old_entries, x));
                                let w = choose|w: int| 0 <= w < old_entries.len() && old_entries[w].0 == x;
                                assert(entries@[w].0 == x);
                            }
                        }
                    }
                },
            }
        } else {
            proof {
                assert forall|x: BotId| history_errors(h, x) + #[trigger] seat_errors(parts@, x, i + 1) > 0 implies crate::lookup::has_key(entries@, x) by {
                    assert(seat_errors(parts@, x, i + 1) == seat_errors(parts@, x, i as int));
                }
            }
        }
        i += 1;
    }
    proof {
        assert forall|x: BotId| #[trigger] history_errors(h.push(parts@), x) == history_errors(h, x) + seat_errors(parts@, x, n as int) by {
            lemma_history_push(h, parts@, x, x);
        }
    }
}

/// Whether `seed` occurs among `seeds`.
fn contains_seed(seeds: &Vec<i64>, seed: i64) -> (r: bool)
    ensures
        r == seeds@.contains(seed),
{
    let mut i: usize = 0;
    while i < seeds.len()
        invariant
            0 <= i <= seeds.len(),
            forall|j: int| 0 <= j < i ==> seeds@[j] != seed,
        decreases seeds.len() - i,
    {
        if seeds[i] == seed {
            assert(seeds@[i as int] == seed);
            return true;
        }
        i += 1;
    }
    false
}

/// The example seeds after a match with `seed`.
fn next_example_seeds(seeds: &Vec<i64>, seed: i64) -> (r: Vec<i64>)
    ensures
        r@ == seeds_step(seeds@, seed),
{
    if contains_seed(seeds, seed) {
        return seeds.clone();
    }
    let ghost s = seq![seed] + seeds@;
    let mut r: Vec<i64> = Vec::new();
    r.push(seed);
    let mut i: usize = 0;
    while i < seeds.len() && r.len() < EXAMPLE_SEEDS_LIMIT
        invariant
            s == seq![seed] + seeds@,
            0 <= i <= seeds.len(),
            r.len() == i + 1,
            r.len() <= EXAMPLE_SEEDS_LIMIT,
            r@ == s.take(i + 1),
        decreases seeds.len() - i,
    {
        r.push(seeds[i]);
        i += 1;
        assert(r@ =~= s.take(i + 1));
    }
    proof {
        if s.len() > EXAMPLE_SEEDS_LIMIT {
            assert(r@ =~= s.take(EXAMPLE_SEEDS_LIMIT as int));
        } else {
            assert(r@ =~= s);
        }
    }
    r
}

pub proof fn lemma_history_prefix_fits(h: Seq<Seq<Participant>>, rest: Seq<Seq<Participant>>)
    requires
        counts_fit(h + rest),
    ensures
        counts_fit(h),
    decreases rest.len(),
{
    if rest.len() > 0 {
        let shorter = h + rest.drop_last();
        assert((h + rest).drop_last() =~= shorter);
        assert forall|a: BotId, b: BotId| total3(#[trigger] history_tally(shorter, a, b)) <= u64::MAX by {
            assert(total3(history_tally(h + rest, a, b)) <= u64::MAX);
        }
        assert forall|id: BotId| #[trigger] history_errors(shorter, id) <= u64::MAX by {
            assert(history_errors(h + rest, id) <= u64::MAX);
        }
        lemma_history_prefix_fits(h, rest.drop_last());
    } else {
        assert(h + rest =~= h);
    }
}

impl ComputedStats {
    /// Records one more match.
    fn record_match(&mut self, m: &Match)
        requires
            old(self).wf(),
            old(self).history().len() < u64::MAX,
            counts_fit(seats_of(old(self).history().push(recorded(*m)))),
        ensures
            final(self).wf(),
            final(self).history() == old(self).history().push(recorded(*m)),
    {
        let ghost h = self.history@;
        let ghost seats = seats_of(h);
        proof {
            assert(seats_of(h.push(recorded(*m))) =~= seats.push(m.participants@));
            assert(seeds_of(h.push(recorded(*m))) =~= seeds_of(h).push(m.seed));
            assert(seeds_of(h.push(recorded(*m))).drop_last() =~= seeds_of(h));
        }
        self.example_seeds = next_example_seeds(&self.example_seeds, m.seed);
        record_errors(&mut self.matches_with_error, &m.participants, Ghost(seats));
        record_tallies(&mut self.winrate_stats, &m.participants, Ghost(seats));
        self.total_matches = self.total_matches + 1;
        self.history = Ghost(h.push(recorded(*m)));
    }

    /// Records the matches, in order (ratings are recomputed elsewhere).
    pub fn recalc_after_matches(&mut self, matches: &Vec<Match>)
        requires
            old(self).wf(),
            old(self).history().len() + matches@.len() <= u64::MAX,
            counts_fit(seats_of(old(self).history() + matches@.map_values(|m: Match| recorded(m)))),
        ensures
            final(self).wf(),
            final(self).history() == old(self).history() + matches@.map_values(|m: Match| recorded(m)),
    {
        let ghost h0 = self.history();
        let ghost all = h0 + matches@.map_values(|m: Match| recorded(m));
        let mut i: usize = 0;
        while i < matches.len()
            invariant
                0 <= i <= matches@.len(),
                self.wf(),
                all == h0 + matches@.map_values(|m: Match| recorded(m)),
                h0.len() + matches@.len() <= u64::MAX,
                counts_fit(seats_of(all)),
                self.history() == h0 + matches@.subrange(0, i as int).map_values(|m: Match| recorded(m)),
            decreases matches.len() - i,
        {
            proof {
                let next = h0 + matches@.subrange(0, i + 1).map_values(|m: Match| recorded(m));
                let rest = matches@.subrange(i + 1, matches@.len() as int).map_values(|m: Match| recorded(m));
                assert(all =~= next + rest);
                assert(seats_of(next + rest) =~= seats_of(next) + seats_of(rest));
                lemma_history_prefix_fits(seats_of(next), seats_of(rest));
                assert(next =~= self.history().push(recorded(matches@[i as int])));
            }
            self.record_match(&matches[i]);
            i += 1;
        }
        proof {
            assert(matches@.subrange(0, matches@.len() as int) =~= matches@);
        }
    }

    /// Encounters of bot `id` with bot `opp`; 0 for a bot with itself.
    pub fn matches_played_vs(&self, id: BotId, opp: BotId) -> (r: u64)
        requires
            self.wf(),
        ensures
            r == total3(history_tally(seats_of(self.history()), id, opp)),
    {
        let ghost seats = seats_of(self.history@);
        match position_of_pair(&self.winrate_stats, id, opp) {
            Some(k) => {
                proof {
                    assert(self.winrate_stats@[k as int].1.tally() == history_tally(seats, id, opp));
                    assert(counts_fit(seats));
                    assert(total3(history_tally(seats, id, opp)) <= u64::MAX);
                }
                self.winrate_stats[k].1.total()
            },
            None => {
                proof {
                    if id != opp && total3(history_tally(seats, id, opp)) > 0 {
                        assert(crate::lookup::has_key(self.winrate_stats@, (id, opp)));
                    }
                    if id == opp {
                        lemma_same_bot_tally_zero(seats, id);
                    }
                }
                0
            },
        }
    }

    /// Encounters of bot `id` with any other bot: the sum over the stored
    /// pairs whose first bot is `id`.
    pub fn matches_played(&self, id: BotId) -> (r: u64)
        requires
            self.wf(),
            played_sum(self.pair_entries(), id) <= u64::MAX,
        ensures
            r == played_sum(self.pair_entries(), id),
    {
        let ghost seats = seats_of(self.history@);
        let entries = &self.winrate_stats;
        let mut sum: u64 = 0;
        let mut i: usize = 0;
        while i < entries.len()
            invariant
                0 <= i <= entries@.len(),
                entries@ == self.pair_entries(),
                played_sum(entries@, id) <= u64::MAX,
                counts_fit(seats),
                tallies_agree(entries@, seats),
                sum == played_sum(entries@.subrange(0, i as int), id),
            decreases entries.len() - i,
        {
            proof {
                let next = entries@.subrange(0, i + 1);
                assert(next.drop_last() =~= entries@.subrange(0, i as int));
                lemma_played_sum_prefix(entries@, id, i + 1);
                assert(entries@[i as int].1.tally() == history_tally(seats, entries@[i as int].0.0, entries@[i as int].0.1));
            }
            if entries[i].0.0 == id {
                sum = sum + entries[i].1.total();
            }
            i += 1;
        }
        proof {
            assert(entries@.subrange(0, entries@.len() as int) =~= entries@);
        }
        sum
    }

    /// The stored tallies, one per ordered pair of distinct bots that met.
    pub fn winrate_stats_snapshot(&self) -> (r: Vec<((BotId, BotId), WinrateStats)>)
        ensures
            r@ == self.pair_entries(),
    {
        let mut r: Vec<((BotId, BotId), WinrateStats)> = Vec::new();
        let mut i: usize = 0;
        while i < self.winrate_stats.len()
            invariant
                0 <= i <= self.winrate_stats@.len(),
                r@ == self.winrate_stats@.subrange(0, i as int),
            decreases self.winrate_stats.len() - i,
        {
            r.push(self.winrate_stats[i]);
            i += 1;
            assert(r@ =~= self.winrate_stats@.subrange(0, i as int));
        }
        assert(r@ =~= self.winrate_stats@);
        r
    }

    /// Matches in which bot `id` reported an error (each erring seat counts).
    pub fn matches_with_error(&self, id: BotId) -> (r: u64)
        requires
            self.wf(),
        ensures
            r == history_errors(seats_of(self.history()), id),
    {
        let r = count_by_bot(&self.matches_with_error, id);
        proof {
            let entries = self.matches_with_error@;
            let seats = seats_of(self.history@);
            crate::lookup::lemma_count_of_find_first(entries, id);
            crate::lookup::lemma_find_first_none(entries, id);
            lemma_find_first_is_first(entries, id);
            if history_errors(seats, id) > 0 {
                assert(crate::lookup::has_key(entries, id));
            }
        }
        r
    }

    /// Number of recorded matches.
    pub fn total_matches(&self) -> (r: u64)
        requires
            self.wf(),
        ensures
            r == self.history().len(),
    {
        self.total_matches
    }

    /// The distinct seeds of the most recent matches, newest first.
    pub fn example_seeds(&self) -> (r: Vec<i64>)
        requires
            self.wf(),
        ensures
            r@ == seeds_after(seeds_of(self.history())),
    {
        self.example_seeds.clone()
    }
}

proof fn lemma_played_sum_prefix(entries: Seq<((BotId, BotId), WinrateStats)>, id: BotId, n: int)
    requires
        0 <= n <= entries.len(),
    ensures
        played_sum(entries.subrange(0, n), id) == played_sum(entries.subrange(0, n - 1), id) + (if n > 0 && entries[n - 1].0.0 == id {
            entries[n - 1].1.sum()
        } else {
            0
        }) || n == 0,
        played_sum(entries.subrange(0, n), id) <= played_sum(entries, id),
    decreases entries.len() - n,
{
    if n > 0 {
        assert(entries.subrange(0, n).drop_last() =~= entries.subrange(0, n - 1));
    }
    if n < entries.len() {
        lemma_played_sum_prefix(entries, id, n + 1);
        assert(entries.subrange(0, n + 1).drop_last() =~= entries.subrange(0, n));
    } else {
        assert(entries.subrange(0, n) =~= entries);
    }
}

proof fn lemma_find_first_is_first<K, V>(entries: Seq<(K, V)>, key: K)
    requires
        keys_unique(entries),
    ensures
        forall|k: int| 0 <= k < entries.len() && entries[k].0 == key ==> crate::lookup::find_first(entries, key) == Some(entries[k].1),
    decreases entries.len(),
{
    if entries.len() > 0 {
        let rest = entries.drop_first();
        assert forall|p: int, q: int| 0 <= p < q < rest.len() implies rest[p].0 != rest[q].0 by {
            assert(entries[p + 1].0 != entries[q + 1].0);
        }
        lemma_find_first_is_first(rest, key);
        assert forall|k: int| 0 <= k < entries.len() && entries[k].0 == key implies crate::lookup::find_first(entries, key) == Some(entries[k].1) by {
            if k > 0 {
                assert(entries[0].0 != entries[k].0);
                assert(rest[k - 1] == entries[k]);
            }
        }
    }
}

pub proof fn lemma_same_bot_tally_zero(h: Seq<Seq<Participant>>, id: BotId)
    ensures
        history_tally(h, id, id) == zero3(),
    decreases h.len(),
{
    if h.len() > 0 {
        lemma_same_bot_tally_zero(h.drop_last(), id);
        lemma_block_same_bot(h.last(), id, h.last().len() as int);
    }
}

proof fn lemma_block_same_bot(parts: Seq<Participant>, id: BotId, n: int)
    ensures
        block_tally(parts, id, id, n) == zero3(),
    decreases n,
{
    if n > 0 {
        lemma_block_same_bot(parts, id, n - 1);
    }
}


/// The example seeds hold at most `EXAMPLE_SEEDS_LIMIT` seeds, none twice,
/// and, after any match, that match's seed comes first unless it was kept
/// already.
pub proof fn lemma_example_seeds_shape(seeds: Seq<i64>)
    ensures
        seeds_after(seeds).len() <= EXAMPLE_SEEDS_LIMIT,
        seeds_after(seeds).no_duplicates(),
        seeds.len() > 0 ==> seeds_after(seeds).contains(seeds.last()),
        seeds.len() > 0 && !seeds_after(seeds.drop_last()).contains(seeds.last())
            ==> seeds_after(seeds)[0] == seeds.last(),
    decreases seeds.len(),
{
    if seeds.len() > 0 {
        let before = seeds_after(seeds.drop_last());
        lemma_example_seeds_shape(seeds.drop_last());
        let x = seeds.last();
        if !before.contains(x) {
            let s = seq![x] + before;
            assert(s[0] == x);
            assert forall|p: int, q: int| 0 <= p < q < s.len() implies s[p] != s[q] by {
                if p == 0 {
                    assert(s[q] == before[q - 1]);
                } else {
                    assert(s[p] == before[p - 1] && s[q] == before[q - 1]);
                }
            }
            if s.len() > EXAMPLE_SEEDS_LIMIT {
                let t = s.take(EXAMPLE_SEEDS_LIMIT as int);
                assert(t[0] == x);
                assert forall|p: int, q: int| 0 <= p < q < t.len() implies t[p] != t[q] by {
                    assert(t[p] == s[p] && t[q] == s[q]);
                }
            }
        }
    }
}


/// Every seat of bot `a` among the first `n` against a seat of rank `r2`.
pub open spec fn col_tally(parts: Seq<Participant>, a: BotId, r2: u8, n: int) -> (nat, nat, nat)
    decreases n,
{
    if n <= 0 {
        zero3()
    } else if parts[n - 1].bot_id == a {
        add3(col_tally(parts, a, r2, n - 1), outcome(parts[n - 1].rank, r2))
    } else {
        col_tally(parts, a, r2, n - 1)
    }
}

/// The seats of `a` among the first `n` against the seats of `b` among the
/// first `m`, summed seat of `a` by seat of `a`.
pub open spec fn rows_sum(parts: Seq<Participant>, a: BotId, b: BotId, n: int, m: int) -> (nat, nat, nat)
    decreases n,
{
    if n <= 0 {
        zero3()
    } else if parts[n - 1].bot_id == a {
        add3(rows_sum(parts, a, b, n - 1, m), row_tally(parts, parts[n - 1].rank, b, m))
    } else {
        rows_sum(parts, a, b, n - 1, m)
    }
}

/// The same encounters summed seat of `b` by seat of `b`.
pub open spec fn cols_sum(parts: Seq<Participant>, a: BotId, b: BotId, n: int, m: int) -> (nat, nat, nat)
    decreases m,
{
    if m <= 0 {
        zero3()
    } else if parts[m - 1].bot_id == b {
        add3(cols_sum(parts, a, b, n, m - 1), col_tally(parts, a, parts[m - 1].rank, n))
    } else {
        cols_sum(parts, a, b, n, m - 1)
    }
}

proof fn lemma_outcome_mirror(r1: u8, r2: u8)
    ensures
        mirror3(outcome(r1, r2)) == outcome(r2, r1),
{
}

proof fn lemma_row_mirror(parts: Seq<Participant>, r: u8, a: BotId, n: int)
    ensures
        mirror3(row_tally(parts, r, a, n)) == col_tally(parts, a, r, n),
    decreases n,
{
    if n > 0 {
        lemma_row_mirror(parts, r, a, n - 1);
        lemma_outcome_mirror(r, parts[n - 1].rank);
    }
}

/// Adding one more seat of `a` (seat `n`) adds its row to every column sum.
proof fn lemma_cols_step(parts: Seq<Participant>, a: BotId, b: BotId, n: int, m: int)
    requires
        0 <= n < parts.len(),
    ensures
        cols_sum(parts, a, b, n + 1, m) == add3(cols_sum(parts, a, b, n, m),
            if parts[n].bot_id == a { row_tally(parts, parts[n].rank, b, m) } else { zero3() }),
    decreases m,
{
    if m > 0 {
        lemma_cols_step(parts, a, b, n, m - 1);
    }
}

proof fn lemma_rows_cols(parts: Seq<Participant>, a: BotId, b: BotId, n: int, m: int)
    requires
        0 <= n <= parts.len(),
    ensures
        rows_sum(parts, a, b, n, m) == cols_sum(parts, a, b, n, m),
    decreases n,
{
    if n <= 0 {
        lemma_cols_zero(parts, a, b, m);
    } else {
        lemma_rows_cols(parts, a, b, n - 1, m);
        lemma_cols_step(parts, a, b, n - 1, m);
    }
}

proof fn lemma_cols_zero(parts: Seq<Participant>, a: BotId, b: BotId, m: int)
    ensures
        cols_sum(parts, a, b, 0, m) == zero3(),
    decreases m,
{
    if m > 0 {
        lemma_cols_zero(parts, a, b, m - 1);
    }
}

proof fn lemma_block_rows(parts: Seq<Participant>, a: BotId, b: BotId, n: int)
    requires
        a != b,
    ensures
        block_tally(parts, a, b, n) == rows_sum(parts, a, b, n, parts.len() as int),
    decreases n,
{
    if n > 0 {
        lemma_block_rows(parts, a, b, n - 1);
    }
}

proof fn lemma_block_mirror_cols(parts: Seq<Participant>, a: BotId, b: BotId, m: int)
    requires
        a != b,
    ensures
        mirror3(block_tally(parts, b, a, m)) == cols_sum(parts, a, b, parts.len() as int, m),
    decreases m,
{
    if m > 0 {
        lemma_block_mirror_cols(parts, a, b, m - 1);
        lemma_row_mirror(parts, parts[m - 1].rank, a, parts.len() as int);
    }
}

/// In one match, what bot `a` won against bot `b` is what `b` lost against
/// `a`, and their draws are the same.
pub proof fn lemma_match_tally_mirror(parts: Seq<Participant>, a: BotId, b: BotId)
    ensures
        match_tally(parts, a, b) == mirror3(match_tally(parts, b, a)),
{
    if a == b {
        lemma_block_same_bot(parts, a, parts.len() as int);
    } else {
        lemma_block_rows(parts, a, b, parts.len() as int);
        lemma_rows_cols(parts, a, b, parts.len() as int, parts.len() as int);
        lemma_block_mirror_cols(parts, a, b, parts.len() as int);
    }
}

/// Over any history of matches, the wins of `a` against `b` are the losses
/// of `b` against `a`, the draws are shared, and the encounters are the
/// same from both sides.
pub proof fn lemma_history_tally_mirror(h: Seq<Seq<Participant>>, a: BotId, b: BotId)
    ensures
        history_tally(h, a, b) == mirror3(history_tally(h, b, a)),
        total3(history_tally(h, a, b)) == total3(history_tally(h, b, a)),
    decreases h.len(),
{
    if h.len() > 0 {
        lemma_history_tally_mirror(h.drop_last(), a, b);
        lemma_match_tally_mirror(h.last(), a, b);
    }
}

/// What the statistics report of two bots mirrors: encounters of `a` with
/// `b` are those of `b` with `a`.
pub proof fn lemma_played_vs_symmetric(stats: ComputedStats, a: BotId, b: BotId)
    ensures
        total3(history_tally(seats_of(stats.history()), a, b)) == total3(history_tally(seats_of(stats.history()), b, a)),
{
    lemma_history_tally_mirror(seats_of(stats.history()), a, b);
}

/// What well-formed statistics hold: the stored tallies are those of the
/// recorded matches (one entry per ordered pair of distinct bots that met,
/// no pair twice, each with the wins, draws and losses of the first bot
/// against the second over those matches), and every count fits.
pub proof fn lemma_stats_agree_with_history(stats: ComputedStats)
    requires
        stats.wf(),
    ensures
        tallies_agree(stats.pair_entries(), seats_of(stats.history())),
        counts_fit(seats_of(stats.history())),
{
}

/// The stored tallies mirror each other: a pair is stored only once it has
/// met, and an entry for `(a, b)` comes with one for `(b, a)` whose wins
/// are its losses, whose losses are its wins and whose draws are its draws.
pub proof fn lemma_pair_entries_mirror(stats: ComputedStats, k: int)
    requires
        stats.wf(),
        0 <= k < stats.pair_entries().len(),
    ensures
        ({
            let ((a, b), t) = stats.pair_entries()[k];
            &&& history_tally(seats_of(stats.history()), b, a) == mirror3(t.tally())
            &&& total3(t.tally()) > 0
            &&& exists|j: int| 0 <= j < stats.pair_entries().len()
                && #[trigger] stats.pair_entries()[j].0 == (b, a) && stats.pair_entries()[j].1.tally() == mirror3(t.tally())
        }),
{
    let entries = stats.pair_entries();
    let h = seats_of(stats.history());
    let ((a, b), t) = entries[k];
    lemma_history_tally_mirror(h, b, a);
    lemma_history_tally_mirror(h, a, b);
    assert(t.tally() == history_tally(h, a, b));
    if total3(t.tally()) > 0 {
        assert(crate::lookup::has_key(entries, (b, a)));
        let j = choose|j: int| 0 <= j < entries.len() && entries[j].0 == (b, a);
        assert(entries[j].1.tally() == history_tally(h, b, a));
    }
}

/// A pair of bots is stored one way exactly when it is stored the other
/// way, and no bot is paired with itself.
pub proof fn lemma_pair_keys_symmetric(stats: ComputedStats, a: BotId, b: BotId)
    requires
        stats.wf(),
    ensures
        crate::lookup::has_key(stats.pair_entries(), (a, b)) == crate::lookup::has_key(stats.pair_entries(), (b, a)),
        !crate::lookup::has_key(stats.pair_entries(), (a, a)),
{
    let entries = stats.pair_entries();
    if crate::lookup::has_key(entries, (a, b)) {
        let k = choose|k: int| 0 <= k < entries.len() && entries[k].0 == (a, b);
        lemma_pair_entries_mirror(stats, k);
    }
    if crate::lookup::has_key(entries, (b, a)) {
        let k = choose|k: int| 0 <= k < entries.len() && entries[k].0 == (b, a);
        lemma_pair_entries_mirror(stats, k);
    }
    if crate::lookup::has_key(entries, (a, a)) {
        let k = choose|k: int| 0 <= k < entries.len() && entries[k].0 == (a, a);
        assert(entries[k].0.0 != entries[k].0.1);
    }
}

} // verus!
