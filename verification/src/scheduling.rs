//! Matches handed to a worker, and the seat orderings of a match.
use vstd::prelude::*;
use crate::domain::ids::BotId;
use crate::orderings::{seat_orderings, seat_orderings_exec};

verus! {

/// A match to play: its seed and its bots in seat order.
pub struct ScheduledMatch {
    pub seed: i64,
    pub bot_ids: Vec<BotId>,
}

impl ScheduledMatch {
    /// One match per seat ordering of the bots, all with the same seed, in
    /// itertools' order, the given order first.
    pub fn into_permutations(self) -> (r: Vec<ScheduledMatch>)
        ensures
            r@.len() == seat_orderings(self.bot_ids@).len(),
            forall|i: int| 0 <= i < r@.len() ==> (#[trigger] r@[i]).seed == self.seed
                && r@[i].bot_ids@ == seat_orderings(self.bot_ids@)[i],
            r@.len() == crate::orderings::factorial(self.bot_ids@.len()),
            r@.len() > 0 ==> r@[0].bot_ids@ == self.bot_ids@,
            self.bot_ids@.no_duplicates() ==> crate::orderings::all_seat_orderings(seat_orderings(self.bot_ids@), self.bot_ids@),
    {
        let orderings = seat_orderings_exec(&self.bot_ids);
        let ghost named = seat_orderings(self.bot_ids@);
        proof {
            assert(orderings@.map_values(|v: Vec<BotId>| v@).len() == orderings@.len());
        }
        let mut out: Vec<ScheduledMatch> = Vec::new();
        let mut i: usize = 0;
        while i < orderings.len()
            invariant
                0 <= i <= orderings@.len(),
                named == seat_orderings(self.bot_ids@),
                orderings@.map_values(|v: Vec<BotId>| v@) == named,
                out@.len() == i,
                forall|j: int| 0 <= j < i ==> (#[trigger] out@[j]).seed == self.seed && out@[j].bot_ids@ == named[j],
            decreases orderings.len() - i,
        {
            let mut bots: Vec<BotId> = Vec::new();
            let mut k: usize = 0;
            while k < orderings[i].len()
                invariant
                    0 <= i < orderings@.len(),
                    0 <= k <= orderings@[i as int]@.len(),
                    bots@ == orderings@[i as int]@.take(k as int),
                decreases orderings@[i as int]@.len() - k,
            {
                bots.push(orderings[i][k]);
                k += 1;
                assert(bots@ =~= orderings@[i as int]@.take(k as int));
            }
            proof {
                assert(orderings@[i as int]@.take(orderings@[i as int]@.len() as int) =~= orderings@[i as int]@);
                assert(named[i as int] == orderings@[i as int]@);
            }
            out.push(ScheduledMatch { seed: self.seed, bot_ids: bots });
            i += 1;
        }
        out
    }
}

} // verus!
