//! Association lists standing for the hash maps of counters that the
//! scheduler reads. A list converted from a map holds each key once; a lookup
//! answers the first entry whose key matches, and 0 when there is none.
use vstd::prelude::*;
use crate::domain::ids::BotId;

verus! {

/// Counter stored under `key`, or 0.
pub open spec fn count_of<K>(entries: Seq<(K, u64)>, key: K) -> u64
    decreases entries.len(),
{
    if entries.len() == 0 {
        0
    } else if entries[0].0 == key {
        entries[0].1
    } else {
        count_of(entries.drop_first(), key)
    }
}

/// Whether some entry has key `key`.
pub open spec fn has_key<K, V>(entries: Seq<(K, V)>, key: K) -> bool {
    exists|i: int| 0 <= i < entries.len() && entries[i].0 == key
}

/// Every counter of the list is at most `bound`.
pub open spec fn counts_bounded<K>(entries: Seq<(K, u64)>, bound: u64) -> bool {
    forall|i: int| 0 <= i < entries.len() ==> entries[i].1 <= bound
}

pub proof fn lemma_count_of_skip<K>(entries: Seq<(K, u64)>, key: K, i: int)
    requires
        0 <= i <= entries.len(),
        forall|j: int| 0 <= j < i ==> entries[j].0 != key,
    ensures
        count_of(entries, key) == count_of(entries.subrange(i, entries.len() as int), key),
    decreases i,
{
    if i > 0 {
        assert(entries[0].0 != key);
        let rest = entries.drop_first();
        assert forall|j: int| 0 <= j < i - 1 implies rest[j].0 != key by {
            assert(rest[j] == entries[j + 1]);
        }
        lemma_count_of_skip(rest, key, i - 1);
        assert(rest.subrange(i - 1, rest.len() as int) =~= entries.subrange(i, entries.len() as int));
    } else {
        assert(entries.subrange(0, entries.len() as int) =~= entries);
    }
}

pub proof fn lemma_count_of_bounded<K>(entries: Seq<(K, u64)>, key: K, bound: u64)
    requires
        counts_bounded(entries, bound),
    ensures
        count_of(entries, key) <= bound,
    decreases entries.len(),
{
    if entries.len() > 0 && entries[0].0 != key {
        let rest = entries.drop_first();
        assert forall|j: int| 0 <= j < rest.len() implies rest[j].1 <= bound by {
            assert(rest[j] == entries[j + 1]);
        }
        lemma_count_of_bounded(rest, key, bound);
    }
}

/// Counter of a bot, or 0.
pub fn count_by_bot(entries: &Vec<(BotId, u64)>, key: BotId) -> (r: u64)
    ensures
        r == count_of(entries@, key),
{
    let mut i: usize = 0;
    while i < entries.len()
        invariant
            0 <= i <= entries.len(),
            forall|j: int| 0 <= j < i ==> entries@[j].0 != key,
        decreases entries.len() - i,
    {
        if entries[i].0 == key {
            proof {
                lemma_count_of_skip(entries@, key, i as int);
            }
            return entries[i].1;
        }
        i += 1;
    }
    proof {
        lemma_count_of_skip(entries@, key, i as int);
    }
    0
}

/// Counter of a player count, or 0.
pub fn count_by_player_count(entries: &Vec<(u32, u64)>, key: u32) -> (r: u64)
    ensures
        r == count_of(entries@, key),
{
    let mut i: usize = 0;
    while i < entries.len()
        invariant
            0 <= i <= entries.len(),
            forall|j: int| 0 <= j < i ==> entries@[j].0 != key,
        decreases entries.len() - i,
    {
        if entries[i].0 == key {
            proof {
                lemma_count_of_skip(entries@, key, i as int);
            }
            return entries[i].1;
        }
        i += 1;
    }
    proof {
        lemma_count_of_skip(entries@, key, i as int);
    }
    0
}

/// Counter of a (stage, candidate) pair, or 0.
pub fn count_by_stage_candidate(entries: &Vec<((i64, BotId), u64)>, stage: i64, candidate: BotId) -> (r: u64)
    ensures
        r == count_of(entries@, (stage, candidate)),
{
    let mut i: usize = 0;
    while i < entries.len()
        invariant
            0 <= i <= entries.len(),
            forall|j: int| 0 <= j < i ==> entries@[j].0 != (stage, candidate),
        decreases entries.len() - i,
    {
        let k = entries[i].0;
        if k.0 == stage && k.1 == candidate {
            proof {
                lemma_count_of_skip(entries@, (stage, candidate), i as int);
            }
            return entries[i].1;
        }
        i += 1;
    }
    proof {
        lemma_count_of_skip(entries@, (stage, candidate), i as int);
    }
    0
}

/// Counter of a (stage, candidate, opponent) triple, or 0.
pub fn count_by_encounter(
    entries: &Vec<((i64, BotId, BotId), u64)>,
    stage: i64,
    candidate: BotId,
    opponent: BotId,
) -> (r: u64)
    ensures
        r == count_of(entries@, (stage, candidate, opponent)),
{
    let mut i: usize = 0;
    while i < entries.len()
        invariant
            0 <= i <= entries.len(),
            forall|j: int| 0 <= j < i ==> entries@[j].0 != (stage, candidate, opponent),
        decreases entries.len() - i,
    {
        let k = entries[i].0;
        if k.0 == stage && k.1 == candidate && k.2 == opponent {
            proof {
                lemma_count_of_skip(entries@, (stage, candidate, opponent), i as int);
            }
            return entries[i].1;
        }
        i += 1;
    }
    proof {
        lemma_count_of_skip(entries@, (stage, candidate, opponent), i as int);
    }
    0
}

/// Counter of a (stage, candidate, player count) triple, or 0.
pub fn count_by_stage_player_count(
    entries: &Vec<((i64, BotId, u32), u64)>,
    stage: i64,
    candidate: BotId,
    players: u32,
) -> (r: u64)
    ensures
        r == count_of(entries@, (stage, candidate, players)),
{
    let mut i: usize = 0;
    while i < entries.len()
        invariant
            0 <= i <= entries.len(),
            forall|j: int| 0 <= j < i ==> entries@[j].0 != (stage, candidate, players),
        decreases entries.len() - i,
    {
        let k = entries[i].0;
        if k.0 == stage && k.1 == candidate && k.2 == players {
            proof {
                lemma_count_of_skip(entries@, (stage, candidate, players), i as int);
            }
            return entries[i].1;
        }
        i += 1;
    }
    proof {
        lemma_count_of_skip(entries@, (stage, candidate, players), i as int);
    }
    0
}

/// Value of the first entry with key `key`.
pub open spec fn find_first<K, V>(entries: Seq<(K, V)>, key: K) -> Option<V>
    decreases entries.len(),
{
    if entries.len() == 0 {
        None
    } else if entries[0].0 == key {
        Some(entries[0].1)
    } else {
        find_first(entries.drop_first(), key)
    }
}

pub proof fn lemma_count_of_find_first<K>(entries: Seq<(K, u64)>, key: K)
    ensures
        count_of(entries, key) == (match find_first(entries, key) { Some(v) => v, None => 0 }),
    decreases entries.len(),
{
    if entries.len() > 0 && entries[0].0 != key {
        lemma_count_of_find_first(entries.drop_first(), key);
    }
}

pub proof fn lemma_find_first_none<K, V>(entries: Seq<(K, V)>, key: K)
    ensures
        find_first(entries, key) is None <==> !has_key(entries, key),
    decreases entries.len(),
{
    if entries.len() > 0 {
        lemma_find_first_none(entries.drop_first(), key);
        if entries[0].0 != key {
            if has_key(entries, key) {
                let i = choose|i: int| 0 <= i < entries.len() && entries[i].0 == key;
                assert(entries.drop_first()[i - 1].0 == key);
            }
            if has_key(entries.drop_first(), key) {
                let i = choose|i: int| 0 <= i < entries.drop_first().len() && entries.drop_first()[i].0 == key;
                assert(entries[i + 1].0 == key);
            }
        }
    }
}

pub proof fn lemma_find_first_push<K, V>(entries: Seq<(K, V)>, key: K, value: V, query: K)
    ensures
        find_first(entries.push((key, value)), query) == (if find_first(entries, query) is Some {
            find_first(entries, query)
        } else if query == key {
            Some(value)
        } else {
            None
        }),
    decreases entries.len(),
{
    if entries.len() > 0 {
        assert(entries.push((key, value)).drop_first() =~= entries.drop_first().push((key, value)));
        lemma_find_first_push(entries.drop_first(), key, value, query);
        assert(entries.push((key, value))[0] == entries[0]);
    } else {
        assert(find_first(Seq::<(K, V)>::empty(), query) is None);
        assert(entries.push((key, value)).drop_first() =~= Seq::<(K, V)>::empty());
        assert(entries.push((key, value))[0] == (key, value));
    }
}

pub proof fn lemma_find_first_update<K, V>(entries: Seq<(K, V)>, i: int, value: V, query: K)
    requires
        0 <= i < entries.len(),
        forall|j: int| 0 <= j < i ==> entries[j].0 != entries[i].0,
    ensures
        find_first(entries.update(i, (entries[i].0, value)), query) == (if query == entries[i].0 {
            Some(value)
        } else {
            find_first(entries, query)
        }),
    decreases i,
{
    if i > 0 {
        let rest = entries.drop_first();
        assert(entries.update(i, (entries[i].0, value)).drop_first() =~= rest.update(i - 1, (rest[i - 1].0, value)));
        assert forall|j: int| 0 <= j < i - 1 implies (#[trigger] rest[j]).0 != rest[i - 1].0 by {
            assert(rest[j] == entries[j + 1]);
        }
        lemma_find_first_update(rest, i - 1, value, query);
        assert(entries[0].0 != entries[i].0);
    } else {
        assert(entries.update(0, (entries[0].0, value)).drop_first() =~= entries.drop_first());
    }
}

/// Position of the first entry whose key is the given bot.
pub fn position_of_bot<V>(entries: &Vec<(BotId, V)>, key: BotId) -> (r: Option<usize>)
    ensures
        r matches Some(i) ==> i < entries@.len() && entries@[i as int].0 == key
            && forall|j: int| 0 <= j < i ==> entries@[j].0 != key,
        r is None ==> !has_key(entries@, key),
{
    let mut i: usize = 0;
    while i < entries.len()
        invariant
            0 <= i <= entries.len(),
            forall|j: int| 0 <= j < i ==> entries@[j].0 != key,
        decreases entries.len() - i,
    {
        if entries[i].0 == key {
            return Some(i);
        }
        i += 1;
    }
    None
}

/// Position of the first entry whose key is the given pair of bots.
pub fn position_of_pair<V>(entries: &Vec<((BotId, BotId), V)>, a: BotId, b: BotId) -> (r: Option<usize>)
    ensures
        r matches Some(i) ==> i < entries@.len() && entries@[i as int].0 == (a, b)
            && forall|j: int| 0 <= j < i ==> entries@[j].0 != (a, b),
        r is None ==> !has_key(entries@, (a, b)),
{
    let mut i: usize = 0;
    while i < entries.len()
        invariant
            0 <= i <= entries.len(),
            forall|j: int| 0 <= j < i ==> entries@[j].0 != (a, b),
        decreases entries.len() - i,
    {
        let k = entries[i].0;
        if k.0 == a && k.1 == b {
            return Some(i);
        }
        i += 1;
    }
    None
}

} // verus!
