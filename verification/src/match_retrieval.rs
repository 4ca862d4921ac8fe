//! Reading stored matches: rows into matches, the scan over batches of
//! candidates with an offset and a maximum, pages with lookahead, and the
//! participants' names. The queries themselves run in the application.
use vstd::prelude::*;
use crate::domain::ids::{BotId, MatchId};
use crate::domain::matches::{Match, MatchAttribute, MatchAttributeValue, Participant};
use crate::domain::names::BotName;

verus! {

/// How many candidates one scan step reads.
pub const CANDIDATE_BATCH_SIZE: usize = 256;
/// How many matches a chart covers.
pub const MATCHES_PER_CHART: usize = 1000;

/// A stored match.
#[derive(Debug, Clone)]
pub struct MatchesRow {
    pub id: i64,
    pub seed: i64,
    pub participant_cnt: u8,
    pub replay_path: Option<String>,
}

/// A stored seat: the bot at position `index` of a match.
#[derive(Debug, Clone, Copy, PartialEq, Eq, Structural)]
pub struct ParticipationsRow {
    pub match_id: i64,
    pub bot_id: i64,
    pub index: u8,
    pub rank: u8,
    pub error: bool,
}

/// A stored attribute with its name; exactly one value column is set. A
/// float is kept as its IEEE-754 bit pattern.
#[derive(Debug, Clone)]
pub struct MatchAttributesJoinedRow {
    pub name: String,
    pub match_id: i64,
    pub bot_id: Option<i64>,
    pub turn: Option<u16>,
    pub value_int: Option<i64>,
    pub value_float: Option<u64>,
    pub value_string: Option<String>,
}

/// The seat a participation row stores.
pub open spec fn participant_of(row: ParticipationsRow) -> Participant {
    Participant { bot_id: BotId(row.bot_id), rank: row.rank, error: row.error }
}

impl From<ParticipationsRow> for Participant {
    fn from(row: ParticipationsRow) -> (r: Participant)
        ensures
            r == participant_of(row),
    {
        Participant { bot_id: BotId(row.bot_id), rank: row.rank, error: row.error }
    }
}

impl vstd::std_specs::convert::FromSpecImpl<ParticipationsRow> for Participant {
    open spec fn obeys_from_spec() -> bool {
        true
    }

    open spec fn from_spec(v: ParticipationsRow) -> Participant {
        participant_of(v)
    }
}

/// An attribute row holds exactly one value.
pub open spec fn attribute_row_valid(row: MatchAttributesJoinedRow) -> bool {
    match (row.value_int, row.value_float, row.value_string) {
        (Some(_), None, None) => true,
        (None, Some(_), None) => true,
        (None, None, Some(_)) => true,
        _ => false,
    }
}

/// `a` is the attribute the row stores.
pub open spec fn attribute_of_row(a: MatchAttribute, row: MatchAttributesJoinedRow) -> bool {
    &&& a.name@ == row.name@
    &&& a.bot_id == (match row.bot_id { Some(b) => Some(BotId(b)), None => None::<BotId> })
    &&& a.turn == row.turn
    &&& match (row.value_int, row.value_float, row.value_string) {
        (Some(v), None, None) => a.value == MatchAttributeValue::Integer(v),
        (None, Some(v), None) => a.value == MatchAttributeValue::Float(v),
        (None, None, Some(v)) => a.value matches MatchAttributeValue::String(s) && s@ == v@,
        _ => false,
    }
}

/// The attribute a row stores; `None` when it holds no value or several.
pub fn attribute_from_row(row: MatchAttributesJoinedRow) -> (r: Option<MatchAttribute>)
    ensures
        r is Some <==> attribute_row_valid(row),
        r matches Some(a) ==> attribute_of_row(a, row),
{
    let ghost original = row;
    let MatchAttributesJoinedRow { name, match_id: _, bot_id, turn, value_int, value_float, value_string } = row;
    let value = match (value_int, value_float, value_string) {
        (Some(v), None, None) => MatchAttributeValue::Integer(v),
        (None, Some(v), None) => MatchAttributeValue::Float(v),
        (None, None, Some(v)) => MatchAttributeValue::String(v),
        _ => return None,
    };
    let bot_id = match bot_id {
        Some(b) => Some(BotId(b)),
        None => None,
    };
    Some(MatchAttribute { name, bot_id, turn, value })
}

/// The attributes of the valid rows, in order.
pub open spec fn valid_attributes(a: Seq<MatchAttribute>, rows: Seq<MatchAttributesJoinedRow>) -> bool
    decreases rows.len(),
{
    if rows.len() == 0 {
        a.len() == 0
    } else if attribute_row_valid(rows.last()) {
        a.len() > 0 && attribute_of_row(a.last(), rows.last()) && valid_attributes(a.drop_last(), rows.drop_last())
    } else {
        valid_attributes(a, rows.drop_last())
    }
}

/// Why rows do not form a match.
#[derive(Debug, Clone, Copy, PartialEq, Eq, Structural)]
pub enum MatchRowError {
    /// The match row's participant count is not the number of seats.
    ParticipantCountMismatch,
    /// The seat positions are not `0..n` each once.
    ParticipationIndexMissing,
}

/// The seat positions are `0..n`, each once.
pub open spec fn indices_are_positions(parts: Seq<ParticipationsRow>) -> bool {
    &&& forall|j: int| 0 <= j < parts.len() ==> (#[trigger] parts[j]).index < parts.len()
    &&& forall|i: int, j: int| 0 <= i < j < parts.len() ==> parts[i].index != parts[j].index
}

/// The match the rows store: the seats in position order, the attributes
/// of the valid attribute rows (the others are skipped).
pub fn match_from_rows(
    item: MatchesRow,
    participations: Vec<ParticipationsRow>,
    attributes: Vec<MatchAttributesJoinedRow>,
) -> (r: Result<Match, MatchRowError>)
    ensures
        item.participant_cnt as int != participations@.len() ==> r == Err::<Match, MatchRowError>(MatchRowError::ParticipantCountMismatch),
        item.participant_cnt as int == participations@.len() && !indices_are_positions(participations@)
            ==> r == Err::<Match, MatchRowError>(MatchRowError::ParticipationIndexMissing),
        item.participant_cnt as int == participations@.len() && indices_are_positions(participations@) ==> (r matches Ok(m)
            && m.id == MatchId(item.id) && m.seed == item.seed && m.replay_path == item.replay_path
            && m.candidate_bot_id is None && m.evaluation_stage_revision_id is None
            && m.participants@.len() == participations@.len()
            && (forall|j: int| 0 <= j < participations@.len()
                ==> m.participants@[(#[trigger] participations@[j]).index as int] == participant_of(participations@[j]))
            && valid_attributes(m.attributes@, attributes@)),
{
    let n = participations.len();
    if item.participant_cnt as usize != n {
        return Err(MatchRowError::ParticipantCountMismatch);
    }
    let mut seen: Vec<bool> = Vec::new();
    let mut k: usize = 0;
    while k < n
        invariant
            0 <= k <= n,
            seen@.len() == k,
            forall|i: int| 0 <= i < k ==> !seen@[i],
        decreases n - k,
    {
        seen.push(false);
        k += 1;
    }
    let mut j: usize = 0;
    while j < n
        invariant
            n == participations@.len(),
            item.participant_cnt as int == participations@.len(),
            0 <= j <= n,
            seen@.len() == n,
            forall|i: int| 0 <= i < j ==> (#[trigger] participations@[i]).index < n && seen@[participations@[i].index as int],
            forall|i: int, l: int| 0 <= i < l < j ==> participations@[i].index != participations@[l].index,
            forall|p: int| 0 <= p < n && seen@[p] ==> exists|i: int| 0 <= i < j && participations@[i].index == p,
        decreases n - j,
    {
        let idx = participations[j].index as usize;
        if idx >= n || seen[idx] {
            proof {
                if idx < n {
                    let i = choose|i: int| 0 <= i < j && participations@[i].index == idx;
                    assert(participations@[i].index == participations@[j as int].index);
                }
            }
            return Err(MatchRowError::ParticipationIndexMissing);
        }
        seen.set(idx, true);
        proof {
            assert forall|p: int| 0 <= p < n && seen@[p] implies exists|i: int| 0 <= i < j + 1 && participations@[i].index == p by {
                if p != idx {
                    let i = choose|i: int| 0 <= i < j && participations@[i].index == p;
                    assert(0 <= i < j + 1 && participations@[i].index == p);
                } else {
                    assert(participations@[j as int].index == p);
                }
            }
        }
        j += 1;
    }
    let mut participants: Vec<Participant> = Vec::new();
    let mut k: usize = 0;
    while k < n
        invariant
            0 <= k <= n,
            participants@.len() == k,
        decreases n - k,
    {
        participants.push(Participant { bot_id: BotId(0), rank: 0, error: false });
        k += 1;
    }
    let mut j: usize = 0;
    while j < n
        invariant
            n == participations@.len(),
            0 <= j <= n,
            participants@.len() == n,
            indices_are_positions(participations@),
            forall|i: int| 0 <= i < j ==> participants@[(#[trigger] participations@[i]).index as int] == participant_of(participations@[i]),
        decreases n - j,
    {
        let row = participations[j];
        let ghost before = participants@;
        participants.set(row.index as usize, Participant::from(row));
        proof {
            assert forall|i: int| 0 <= i < j + 1 implies participants@[(#[trigger] participations@[i]).index as int] == participant_of(participations@[i]) by {
                if i < j {
                    assert(participations@[i].index != participations@[j as int].index);
                    assert(participants@[participations@[i].index as int] == before[participations@[i].index as int]);
                }
            }
        }
        j += 1;
    }
    let mut kept: Vec<MatchAttribute> = Vec::new();
    let ghost rows = attributes@;
    let mut attributes = attributes;
    let mut remaining: Vec<MatchAttributesJoinedRow> = Vec::new();
    assert(rows =~= attributes@ + remaining@.reverse());
    while attributes.len() > 0
        invariant
            rows == attributes@ + remaining@.reverse(),
        decreases attributes.len(),
    {
        let ghost before_a = attributes@;
        let ghost before_r = remaining@;
        let last = attributes.pop().unwrap();
        remaining.push(last);
        proof {
            assert(before_a =~= attributes@.push(last));
            assert(remaining@.reverse() =~= seq![last] + before_r.reverse());
            assert(rows =~= attributes@ + remaining@.reverse());
        }
    }
    assert(remaining@.reverse() =~= rows);
    while remaining.len() > 0
        invariant
            remaining@.len() <= rows.len(),
            remaining@.reverse() == rows.skip(rows.len() - remaining@.len()),
            valid_attributes(kept@, rows.take(rows.len() - remaining@.len())),
        decreases remaining.len(),
    {
        let ghost done = rows.len() - remaining@.len();
        let ghost before_r = remaining@;
        let row = remaining.pop().unwrap();
        proof {
            assert(before_r =~= remaining@.push(row));
            assert(before_r.reverse() =~= seq![row] + remaining@.reverse());
            assert(before_r.reverse() == rows.skip(done));
            assert(rows.skip(done)[0] == rows[done]);
            assert(rows[done] == row);
            assert(rows.skip(done).drop_first() =~= rows.skip(done + 1));
            assert((seq![row] + remaining@.reverse()).drop_first() =~= remaining@.reverse());
            assert(remaining@.reverse() =~= rows.skip(done + 1));
            assert(rows.take(done + 1).drop_last() =~= rows.take(done));
            assert(rows.take(done + 1).last() == row);
        }
        let ghost before = kept@;
        match attribute_from_row(row) {
            Some(attribute) => {
                kept.push(attribute);
                proof {
                    assert(kept@.drop_last() =~= before);
                }
            },
            None => {},
        }
    }
    proof {
        assert(rows.take(rows.len() as int) =~= rows);
    }
    Ok(Match {
        id: MatchId(item.id),
        seed: item.seed,
        participants,
        attributes: kept,
        replay_path: item.replay_path,
        candidate_bot_id: None,
        evaluation_stage_revision_id: None,
    })
}


/// The scan so far: where the next batch starts (below this identifier),
/// how many matching matches were skipped for the offset, the matches
/// kept, and whether the scan is over.
pub struct MatchCollection {
    pub before_id: Option<i64>,
    pub skipped: usize,
    pub matches: Vec<Match>,
    pub done: bool,
}

/// Keeping the accepted matches of `items` (`None` for a candidate that is
/// invalid or that the filter refuses), after `skipped` were skipped: the
/// first ones up to `offset` are skipped, then matches are kept until
/// `max_matches` are. Gives the kept matches, the skipped count, and whether
/// the maximum was reached.
pub open spec fn absorb(
    kept: Seq<Match>,
    skipped: nat,
    items: Seq<Option<Match>>,
    offset: nat,
    max_matches: Option<usize>,
) -> (Seq<Match>, nat, bool)
    decreases items.len(),
{
    if items.len() == 0 {
        (kept, skipped, false)
    } else {
        let prev = absorb(kept, skipped, items.drop_last(), offset, max_matches);
        if prev.2 {
            prev
        } else {
            match items.last() {
                None => prev,
                Some(m) => if prev.1 < offset {
                    (prev.0, prev.1 + 1, false)
                } else {
                    let next = prev.0.push(m);
                    (next, prev.1, max_matches matches Some(mx) && next.len() >= mx)
                },
            }
        }
    }
}

/// The accepted matches of `items`, in order: a refused or invalid
/// candidate (`None`) contributes nothing.
pub open spec fn accepted(items: Seq<Option<Match>>) -> Seq<Match>
    decreases items.len(),
{
    if items.len() == 0 {
        Seq::empty()
    } else {
        let before = accepted(items.drop_last());
        match items.last() {
            None => before,
            Some(m) => before.push(m),
        }
    }
}

/// How many of `available` accepted matches still go to the offset when
/// `skipped` were skipped already.
pub open spec fn offset_share(skipped: nat, offset: nat, available: nat) -> nat {
    if skipped < offset {
        if offset - skipped <= available { (offset - skipped) as nat } else { available }
    } else {
        0
    }
}

/// Only accepted matches count toward the offset: of the accepted matches of
/// a batch, the first ones go to the offset until `offset` were skipped in
/// all (the skipped count becomes `min(offset, skipped + accepted)` when it
/// was below the offset); the rest are kept in order after the matches kept
/// before. With a maximum, keeping stops at the first match that brings the
/// kept count to the maximum (or at the first match kept, when the maximum
/// was already reached), and the scan reports that it stopped exactly then.
/// A refused or invalid candidate changes neither the kept matches nor the
/// skipped count.
pub proof fn lemma_absorb_counts_accepted_only(
    kept: Seq<Match>,
    skipped: nat,
    items: Seq<Option<Match>>,
    offset: nat,
    max_matches: Option<usize>,
)
    ensures
        ({
            let acc = accepted(items);
            let k = offset_share(skipped, offset, acc.len());
            let rest = acc.skip(k as int);
            let r = absorb(kept, skipped, items, offset, max_matches);
            &&& r.1 == skipped + k
            &&& r.2 == (max_matches is Some && rest.len() > 0 && kept.len() + rest.len() >= max_matches.unwrap())
            &&& !r.2 ==> r.0 == kept + rest
            &&& r.2 ==> {
                &&& r.0 == (kept + rest).take(r.0.len() as int)
                &&& r.0.len() == (if kept.len() >= max_matches.unwrap() {
                    kept.len() + 1int
                } else {
                    max_matches.unwrap() as int
                })
            }
        }),
    decreases items.len(),
{
    let acc = accepted(items);
    let k = offset_share(skipped, offset, acc.len());
    let rest = acc.skip(k as int);
    if items.len() == 0 {
        assert(rest =~= Seq::<Match>::empty());
        assert(kept + rest =~= kept);
    } else {
        let before = items.drop_last();
        lemma_absorb_counts_accepted_only(kept, skipped, before, offset, max_matches);
        let acc0 = accepted(before);
        let k0 = offset_share(skipped, offset, acc0.len());
        let rest0 = acc0.skip(k0 as int);
        let prev = absorb(kept, skipped, before, offset, max_matches);
        match items.last() {
            None => {
                assert(acc == acc0);
            },
            Some(m) => {
                assert(acc == acc0.push(m));
                if prev.2 {
                    assert(k == k0);
                    assert(rest =~= rest0.push(m));
                    assert((kept + rest).take(prev.0.len() as int) =~= (kept + rest0).take(prev.0.len() as int));
                } else if prev.1 < offset {
                    assert(k0 == acc0.len());
                    assert(k == k0 + 1);
                    assert(rest0 =~= Seq::<Match>::empty());
                    assert(rest =~= Seq::<Match>::empty());
                    assert(kept + rest =~= kept);
                    assert(kept + rest0 =~= kept);
                } else {
                    assert(k == k0);
                    assert(k0 <= acc0.len());
                    assert(rest =~= rest0.push(m));
                    assert(kept + rest =~= (kept + rest0).push(m));
                }
            },
        }
    }
}

impl MatchCollection {
    /// A scan that has read nothing.
    pub fn new() -> (r: MatchCollection)
        ensures
            r.before_id is None,
            r.skipped == 0,
            r.matches@.len() == 0,
            !r.done,
    {
        MatchCollection { before_id: None, skipped: 0, matches: Vec::new(), done: false }
    }

    /// Takes in one batch of candidates, newest first: each candidate's
    /// identifier and the match, where it is valid and accepted. An empty
    /// batch, a reached maximum, or a short batch ends the scan.
    pub fn absorb_batch(&mut self, candidates: Vec<(i64, Option<Match>)>, offset: usize, max_matches: Option<usize>)
        requires
            !old(self).done,
        ensures
            candidates@.len() == 0 ==> final(self).done && final(self).matches@ == old(self).matches@
                && final(self).skipped == old(self).skipped && final(self).before_id == old(self).before_id,
            candidates@.len() > 0 ==> {
                let items = candidates@.map_values(|c: (i64, Option<Match>)| c.1);
                let outcome = absorb(old(self).matches@, old(self).skipped as nat, items, offset as nat, max_matches);
                &&& final(self).before_id == Some(candidates@.last().0)
                &&& final(self).matches@ == outcome.0
                &&& final(self).skipped == outcome.1
                &&& final(self).done == (outcome.2 || candidates@.len() < CANDIDATE_BATCH_SIZE)
            },
            candidates@.len() > 0 ==> {
                let acc = accepted(candidates@.map_values(|c: (i64, Option<Match>)| c.1));
                let k = offset_share(old(self).skipped as nat, offset as nat, acc.len());
                &&& final(self).skipped == old(self).skipped + k
                &&& final(self).matches@ == (old(self).matches@ + acc.skip(k as int)).take(
                    final(self).matches@.len() as int,
                )
            },
    {
        if candidates.len() == 0 {
            self.done = true;
            return;
        }
        let ghost items = candidates@.map_values(|c: (i64, Option<Match>)| c.1);
        let ghost kept0 = self.matches@;
        let ghost skipped0 = self.skipped as nat;
        let count = candidates.len();
        self.before_id = Some(candidates[count - 1].0);
        let mut stopped = false;
        let mut candidates = candidates;
        let mut rest: Vec<(i64, Option<Match>)> = Vec::new();
        let ghost all = candidates@;
        while candidates.len() > 0
            invariant
                all == candidates@ + rest@.reverse(),
            decreases candidates.len(),
        {
            let ghost before_c = candidates@;
            let ghost before_r = rest@;
            let last = candidates.pop().unwrap();
            rest.push(last);
            proof {
                assert(before_c =~= candidates@.push(last));
                assert(rest@.reverse() =~= seq![last] + before_r.reverse());
                assert(all =~= candidates@ + rest@.reverse());
            }
        }
        assert(rest@.reverse() =~= all);
        while rest.len() > 0
            invariant
                all.len() == count,
                items == all.map_values(|c: (i64, Option<Match>)| c.1),
                rest@.len() <= all.len(),
                rest@.reverse() == all.skip(all.len() - rest@.len()),
                (self.matches@, self.skipped as nat, stopped)
                    == absorb(kept0, skipped0, items.take(all.len() - rest@.len()), offset as nat, max_matches),
                self.skipped <= skipped0 + (all.len() - rest@.len()),
                skipped0 == old(self).skipped,
                kept0 == old(self).matches@,
                self.before_id == Some(all.last().0),
                !self.done,
            decreases rest.len(),
        {
            let ghost done_count = all.len() - rest@.len();
            let ghost before_r = rest@;
            let item = rest.pop().unwrap();
            proof {
                assert(before_r =~= rest@.push(item));
                assert(before_r.reverse() =~= seq![item] + rest@.reverse());
                assert(all.skip(done_count)[0] == all[done_count]);
                assert(all.skip(done_count).drop_first() =~= all.skip(done_count + 1));
                assert((seq![item] + rest@.reverse()).drop_first() =~= rest@.reverse());
                assert(items.take(done_count + 1).drop_last() =~= items.take(done_count));
                assert(items.take(done_count + 1).last() == item.1);
            }
            if !stopped {
                match item.1 {
                    None => {},
                    Some(m) => {
                        if self.skipped < offset {
                            self.skipped = self.skipped + 1;
                        } else {
                            self.matches.push(m);
                            match max_matches {
                                Some(mx) => {
                                    if self.matches.len() >= mx {
                                        stopped = true;
                                    }
                                },
                                None => {},
                            }
                        }
                    },
                }
            }
        }
        proof {
            assert(items.take(all.len() as int) =~= items);
            lemma_absorb_counts_accepted_only(kept0, skipped0, items, offset as nat, max_matches);
            let acc = accepted(items);
            let k = offset_share(skipped0, offset as nat, acc.len());
            if !stopped {
                assert((kept0 + acc.skip(k as int)).take(self.matches@.len() as int) =~= self.matches@);
            }
        }
        self.done = stopped || count < CANDIDATE_BATCH_SIZE;
    }
}

/// A page of at most `limit` matches from a scan that read one more: the
/// first `limit`, and whether there were more.
pub fn split_page(matches: Vec<Match>, limit: usize) -> (r: (Vec<Match>, bool))
    ensures
        r.1 == (matches@.len() > limit),
        r.0@ == (if matches@.len() > limit { matches@.take(limit as int) } else { matches@ }),
{
    let has_more = matches.len() > limit;
    let mut page = matches;
    while page.len() > limit
        invariant
            page@.len() >= limit ==> page@ == matches@.take(page@.len() as int),
            page@.len() < limit ==> page@ == matches@,
            page@.len() <= matches@.len(),
            matches@.len() <= limit ==> page@ == matches@,
        decreases page.len(),
    {
        let ghost before = page@;
        page.pop();
        proof {
            assert(page@ =~= before.drop_last());
            assert(matches@.take(page@.len() as int) =~= matches@.take(before.len() as int).drop_last());
        }
    }
    proof {
        if matches@.len() <= limit {
            assert(matches@.take(matches@.len() as int) =~= matches@);
        }
    }
    (page, has_more)
}

/// The number of matches a page scan asks for: one more than the page, for
/// the lookahead.
pub fn requested_matches(limit: usize) -> (r: usize)
    ensures
        r == (if limit < usize::MAX { limit + 1 } else { limit as int }),
{
    limit.saturating_add(1)
}

/// A seat of a match as a page shows it.
pub struct ParticipantOverview {
    pub bot_id: BotId,
    pub bot_name: BotName,
    pub rank: u8,
    pub index: usize,
    pub error: bool,
}

/// A match as a page shows it.
pub struct MatchOverview {
    pub id: MatchId,
    pub participants: Vec<ParticipantOverview>,
    pub seed: i64,
    pub attributes: Vec<MatchAttribute>,
}

/// One page of matches, newest first, and whether more follow.
pub struct MatchPage {
    pub matches: Vec<MatchOverview>,
    pub has_more: bool,
}

/// The attributes of a chart and the number of matches it covers.
pub struct ChartInput {
    pub attributes: Vec<MatchAttribute>,
    pub total_matches: u64,
}

/// The name of the first entry for the bot.
pub open spec fn name_of(names: Seq<(BotId, BotName)>, id: BotId) -> Option<Seq<char>>
    decreases names.len(),
{
    if names.len() == 0 {
        None
    } else if names[0].0 == id {
        Some(names[0].1@)
    } else {
        name_of(names.drop_first(), id)
    }
}

fn find_name(names: &Vec<(BotId, BotName)>, id: BotId) -> (r: Option<BotName>)
    ensures
        match name_of(names@, id) {
            Some(n) => r matches Some(found) && found@ == n,
            None => r is None,
        },
{
    let mut i: usize = 0;
    assert(names@.skip(0) =~= names@);
    while i < names.len()
        invariant
            0 <= i <= names@.len(),
            name_of(names@, id) == name_of(names@.skip(i as int), id),
        decreases names.len() - i,
    {
        proof {
            assert(names@.skip(i as int).drop_first() =~= names@.skip(i + 1));
            assert(names@.skip(i as int)[0] == names@[i as int]);
        }
        if names[i].0 == id {
            return Some(names[i].1.duplicate());
        }
        i += 1;
    }
    None
}

/// A stored match as a page shows it: each seat with its position and its
/// bot's name; refused, naming the bot, when a name is missing.
pub fn match_overview(item: Match, bot_names: &Vec<(BotId, BotName)>) -> (r: Result<MatchOverview, BotId>)
    ensures
        (forall|k: int| 0 <= k < item.participants@.len() ==> name_of(bot_names@, (#[trigger] item.participants@[k]).bot_id) is Some)
            ==> (r matches Ok(o) && o.id == item.id && o.seed == item.seed && o.attributes == item.attributes
                && o.participants@.len() == item.participants@.len()
                && forall|k: int| 0 <= k < item.participants@.len() ==> {
                    let p = #[trigger] o.participants@[k];
                    &&& p.bot_id == item.participants@[k].bot_id
                    &&& Some(p.bot_name@) == name_of(bot_names@, item.participants@[k].bot_id)
                    &&& p.rank == item.participants@[k].rank
                    &&& p.index == k
                    &&& p.error == item.participants@[k].error
                }),
        r matches Err(id) ==> exists|k: int| 0 <= k < item.participants@.len()
            && (#[trigger] item.participants@[k]).bot_id == id && name_of(bot_names@, id) is None
            && forall|l: int| 0 <= l < k ==> name_of(bot_names@, (#[trigger] item.participants@[l]).bot_id) is Some,
{
    let mut participants: Vec<ParticipantOverview> = Vec::new();
    let mut k: usize = 0;
    while k < item.participants.len()
        invariant
            0 <= k <= item.participants@.len(),
            participants@.len() == k,
            forall|l: int| 0 <= l < k ==> name_of(bot_names@, (#[trigger] item.participants@[l]).bot_id) is Some,
            forall|l: int| 0 <= l < k ==> {
                let p = #[trigger] participants@[l];
                &&& p.bot_id == item.participants@[l].bot_id
                &&& Some(p.bot_name@) == name_of(bot_names@, item.participants@[l].bot_id)
                &&& p.rank == item.participants@[l].rank
                &&& p.index == l
                &&& p.error == item.participants@[l].error
            },
        decreases item.participants.len() - k,
    {
        let seat = item.participants[k];
        match find_name(bot_names, seat.bot_id) {
            None => {
                return Err(seat.bot_id);
            },
            Some(name) => {
                participants.push(ParticipantOverview {
                    bot_id: seat.bot_id,
                    bot_name: name,
                    rank: seat.rank,
                    index: k,
                    error: seat.error,
                });
            },
        }
        k += 1;
    }
    Ok(MatchOverview { id: item.id, participants, seed: item.seed, attributes: item.attributes })
}

/// The identifiers of the bots a page must include, each once, increasing.
pub fn included_bot_ids(bot_ids: Vec<BotId>) -> (r: Vec<i64>)
    ensures
        forall|i: int, j: int| 0 <= i < j < r@.len() ==> r@[i] < r@[j],
        forall|x: i64| r@.contains(x) <==> exists|k: int| 0 <= k < bot_ids@.len() && (#[trigger] bot_ids@[k]).0 == x,
{
    let mut out: Vec<i64> = Vec::new();
    let mut i: usize = 0;
    while i < bot_ids.len()
        invariant
            0 <= i <= bot_ids@.len(),
            forall|a: int, b: int| 0 <= a < b < out@.len() ==> out@[a] < out@[b],
            forall|x: i64| out@.contains(x) <==> exists|k: int| 0 <= k < i && (#[trigger] bot_ids@[k]).0 == x,
        decreases bot_ids.len() - i,
    {
        let x = bot_ids[i].0;
        let mut pos: usize = 0;
        while pos < out.len() && out[pos] < x
            invariant
                0 <= pos <= out@.len(),
                forall|a: int| 0 <= a < pos ==> out@[a] < x,
            decreases out.len() - pos,
        {
            pos += 1;
        }
        let ghost before = out@;
        if pos < out.len() && out[pos] == x {
            proof {
                assert forall|y: i64| out@.contains(y) <==> exists|k: int| 0 <= k < i + 1 && (#[trigger] bot_ids@[k]).0 == y by {
                    if y == x {
                        assert(out@[pos as int] == y);
                        assert(bot_ids@[i as int].0 == y);
                    }
                    if exists|k: int| 0 <= k < i + 1 && (#[trigger] bot_ids@[k]).0 == y {
                        let k = choose|k: int| 0 <= k < i + 1 && (#[trigger] bot_ids@[k]).0 == y;
                        if k < i {
                            assert(exists|k: int| 0 <= k < i && (#[trigger] bot_ids@[k]).0 == y);
                        } else {
                            assert(out@[pos as int] == y);
                        }
                    }
                }
            }
        } else {
            out.insert(pos, x);
            proof {
                assert(out@ == before.insert(pos as int, x));
                assert forall|a: int, b: int| 0 <= a < b < out@.len() implies out@[a] < out@[b] by {
                    if b < pos {
                        assert(out@[a] == before[a] && out@[b] == before[b]);
                    } else if b == pos {
                        assert(out@[a] == before[a]);
                    } else if a < pos {
                        assert(out@[a] == before[a] && out@[b] == before[b - 1]);
                        assert(before[pos as int] > x || before[pos as int] >= x);
                        if b - 1 > pos {
                            assert(before[pos as int] < before[b - 1]);
                        }
                    } else if a == pos {
                        assert(out@[b] == before[b - 1]);
                        if b - 1 > pos {
                            assert(before[pos as int] < before[b - 1]);
                        }
                    } else {
                        assert(out@[a] == before[a - 1] && out@[b] == before[b - 1]);
                    }
                }
                assert forall|y: i64| out@.contains(y) <==> exists|k: int| 0 <= k < i + 1 && (#[trigger] bot_ids@[k]).0 == y by {
                    if out@.contains(y) {
                        let w = choose|w: int| 0 <= w < out@.len() && out@[w] == y;
                        if w < pos {
                            assert(before[w] == y);
                            assert(before.contains(y));
                        } else if w > pos {
                            assert(before[w - 1] == y);
                            assert(before.contains(y));
                        } else {
                            assert(bot_ids@[i as int].0 == y);
                        }
                    }
                    if exists|k: int| 0 <= k < i + 1 && (#[trigger] bot_ids@[k]).0 == y {
                        let k = choose|k: int| 0 <= k < i + 1 && (#[trigger] bot_ids@[k]).0 == y;
                        if k < i {
                            assert(exists|k: int| 0 <= k < i && (#[trigger] bot_ids@[k]).0 == y);
                            assert(before.contains(y));
                            let w = choose|w: int| 0 <= w < before.len() && before[w] == y;
                            if w < pos {
                                assert(out@[w] == y);
                            } else {
                                assert(out@[w + 1] == y);
                            }
                        } else {
                            assert(out@[pos as int] == y);
                        }
                    }
                }
            }
        }
        i += 1;
    }
    out
}

/// The rows of match `id`, in order.
pub open spec fn rows_of_match(rows: Seq<MatchAttributesJoinedRow>, id: i64) -> Seq<MatchAttributesJoinedRow>
    decreases rows.len(),
{
    if rows.len() == 0 {
        Seq::empty()
    } else if rows.last().match_id == id {
        rows_of_match(rows.drop_last(), id).push(rows.last())
    } else {
        rows_of_match(rows.drop_last(), id)
    }
}

fn copy_row(row: &MatchAttributesJoinedRow) -> (r: MatchAttributesJoinedRow)
    ensures
        r == *row,
{
    MatchAttributesJoinedRow {
        name: row.name.clone(),
        match_id: row.match_id,
        bot_id: row.bot_id,
        turn: row.turn,
        value_int: row.value_int,
        value_float: row.value_float,
        value_string: match &row.value_string {
            Some(v) => Some(v.clone()),
            None => None,
        },
    }
}

/// The attributes that the rows of match `id` store, in order; rows that
/// hold no value or several are skipped.
pub fn attributes_of_match(rows: &Vec<MatchAttributesJoinedRow>, id: i64) -> (r: Vec<MatchAttribute>)
    ensures
        valid_attributes(r@, rows_of_match(rows@, id)),
{
    let mut out: Vec<MatchAttribute> = Vec::new();
    let mut k: usize = 0;
    while k < rows.len()
        invariant
            0 <= k <= rows@.len(),
            valid_attributes(out@, rows_of_match(rows@.take(k as int), id)),
        decreases rows@.len() - k,
    {
        let ghost before = out@;
        let ghost prefix = rows@.take(k as int);
        assert(rows@.take(k as int + 1).drop_last() =~= prefix);
        assert(rows@.take(k as int + 1).last() == rows@[k as int]);
        if rows[k].match_id == id {
            let ghost kept = rows_of_match(prefix, id);
            assert(kept.push(rows@[k as int]).drop_last() =~= kept);
            match attribute_from_row(copy_row(&rows[k])) {
                Some(a) => {
                    out.push(a);
                    assert(out@.drop_last() =~= before);
                },
                None => {},
            }
        }
        k = k + 1;
    }
    assert(rows@.take(rows@.len() as int) =~= rows@);
    out
}

/// Match `matches[i]` is the first of its identifier.
pub open spec fn first_of_id(matches: Seq<Match>, i: int) -> bool {
    forall|j: int| 0 <= j < i ==> (#[trigger] matches[j]).id != matches[i].id
}

/// The matches with their attributes from `rows`: each match gets the
/// attributes of the rows of its identifier, unless an earlier match has
/// that identifier (it has taken them); everything else is kept.
pub fn hydrate_attributes(matches: Vec<Match>, rows: &Vec<MatchAttributesJoinedRow>) -> (r: Vec<Match>)
    ensures
        r@.len() == matches@.len(),
        forall|i: int| 0 <= i < matches@.len() ==> {
            let before = #[trigger] matches@[i];
            let after = r@[i];
            &&& after.id == before.id
            &&& after.seed == before.seed
            &&& after.participants == before.participants
            &&& after.replay_path == before.replay_path
            &&& after.candidate_bot_id == before.candidate_bot_id
            &&& after.evaluation_stage_revision_id == before.evaluation_stage_revision_id
            &&& first_of_id(matches@, i) ==> valid_attributes(after.attributes@, rows_of_match(rows@, before.id.0))
            &&& !first_of_id(matches@, i) ==> after.attributes@.len() == 0
        },
{
    let ghost all = matches@;
    let mut rest = matches;
    let mut out: Vec<Match> = Vec::new();
    let mut i: usize = 0;
    let total = rest.len();
    assert(all.skip(0) =~= all);
    while rest.len() > 0
        invariant
            total == all.len(),
            i + rest@.len() == all.len(),
            rest@ == all.skip(i as int),
            out@.len() == i,
            forall|j: int| 0 <= j < i ==> {
                let before = #[trigger] all[j];
                let after = out@[j];
                &&& after.id == before.id
                &&& after.seed == before.seed
                &&& after.participants == before.participants
                &&& after.replay_path == before.replay_path
                &&& after.candidate_bot_id == before.candidate_bot_id
                &&& after.evaluation_stage_revision_id == before.evaluation_stage_revision_id
                &&& first_of_id(all, j) ==> valid_attributes(after.attributes@, rows_of_match(rows@, before.id.0))
                &&& !first_of_id(all, j) ==> after.attributes@.len() == 0
            },
        decreases rest@.len(),
    {
        let item = rest.remove(0);
        assert(item == all[i as int]);
        let mut seen = false;
        let mut j: usize = 0;
        while j < out.len()
            invariant
                0 <= j <= out@.len(),
                out@.len() == i,
                i < all.len(),
                item == all[i as int],
                forall|k: int| 0 <= k < i ==> (#[trigger] out@[k]).id == all[k].id,
                !seen <==> forall|k: int| 0 <= k < j ==> (#[trigger] all[k]).id != item.id,
            decreases out@.len() - j,
        {
            if out[j].id.0 == item.id.0 {
                seen = true;
            }
            j = j + 1;
        }
        let Match { id, seed, participants, attributes: _, replay_path, candidate_bot_id, evaluation_stage_revision_id } = item;
        let attributes = if seen {
            Vec::new()
        } else {
            attributes_of_match(rows, id.0)
        };
        out.push(Match { id, seed, participants, attributes, replay_path, candidate_bot_id, evaluation_stage_revision_id });
        i = i + 1;
        assert(rest@ =~= all.skip(i as int));
    }
    out
}

} // verus!
