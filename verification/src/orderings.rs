//! Seat orderings of a match, generated by itertools.
use vstd::prelude::*;
use itertools::Itertools;
use crate::domain::ids::BotId;

verus! {

pub open spec fn factorial(n: nat) -> nat
    decreases n,
{
    if n == 0 {
        1
    } else {
        n * factorial((n - 1) as nat)
    }
}

/// The orderings of `items` in the order in which itertools'
/// `permutations(items.len())` yields them.
pub uninterp spec fn itertools_orderings(items: Seq<i64>) -> Seq<Seq<i64>>;

/// Calls itertools' `permutations` with `k` equal to the number of items.
/// The contract claims what its documentation and source show: one vector
/// per ordering of the positions (n! of them), each a rearrangement of the
/// items, the first one the items in their given order, and no two equal
/// when the items are distinct. The order of the rest is only named.
#[verifier::external_body]
fn itertools_permutations(items: Vec<i64>) -> (r: Vec<Vec<i64>>)
    ensures
        r@.map_values(|v: Vec<i64>| v@) == itertools_orderings(items@),
        r@.len() == factorial(items@.len()),
        forall|i: int| 0 <= i < r@.len() ==> #[trigger] r@[i]@.to_multiset() == items@.to_multiset(),
        r@.len() > 0 ==> r@[0]@ == items@,
        items@.no_duplicates() ==> r@.map_values(|v: Vec<i64>| v@).no_duplicates(),
{
    let n = items.len();
    items.into_iter().permutations(n).collect()
}

/// Raw identifiers of a list of bots.
pub open spec fn raw_ids(ids: Seq<BotId>) -> Seq<i64> {
    ids.map_values(|b: BotId| b.0)
}

/// Bots with the given raw identifiers.
pub open spec fn bots_of(raw: Seq<i64>) -> Seq<BotId> {
    raw.map_values(|r: i64| BotId(r))
}

pub fn raw_ids_exec(ids: &Vec<BotId>) -> (r: Vec<i64>)
    ensures
        r@ == raw_ids(ids@),
{
    let mut r: Vec<i64> = Vec::new();
    let mut i: usize = 0;
    while i < ids.len()
        invariant
            0 <= i <= ids.len(),
            r@ == raw_ids(ids@.subrange(0, i as int)),
        decreases ids.len() - i,
    {
        r.push(ids[i].0);
        i += 1;
        assert(raw_ids(ids@.subrange(0, i as int)) =~= raw_ids(ids@.subrange(0, i - 1 as int)).push(ids@[i - 1].0));
    }
    assert(ids@.subrange(0, ids@.len() as int) =~= ids@);
    r
}

pub fn bots_of_exec(raw: &Vec<i64>) -> (r: Vec<BotId>)
    ensures
        r@ == bots_of(raw@),
{
    let mut r: Vec<BotId> = Vec::new();
    let mut i: usize = 0;
    while i < raw.len()
        invariant
            0 <= i <= raw.len(),
            r@ == bots_of(raw@.subrange(0, i as int)),
        decreases raw.len() - i,
    {
        r.push(BotId(raw[i]));
        i += 1;
        assert(bots_of(raw@.subrange(0, i as int)) =~= bots_of(raw@.subrange(0, i - 1 as int)).push(BotId(raw@[i - 1])));
    }
    assert(raw@.subrange(0, raw@.len() as int) =~= raw@);
    r
}

pub proof fn lemma_bots_of_raw_ids(ids: Seq<BotId>)
    ensures
        bots_of(raw_ids(ids)) == ids,
{
    assert(bots_of(raw_ids(ids)) =~= ids);
}

/// Every seat ordering of `bot_ids`, in itertools' order.
pub open spec fn seat_orderings(bot_ids: Seq<BotId>) -> Seq<Seq<BotId>> {
    itertools_orderings(raw_ids(bot_ids)).map_values(|o: Seq<i64>| bots_of(o))
}

/// `t` holds the bots of `s`, each once, in some order.
pub open spec fn is_rearrangement(t: Seq<BotId>, s: Seq<BotId>) -> bool {
    &&& t.len() == s.len()
    &&& t.no_duplicates()
    &&& forall|x: BotId| t.contains(x) <==> s.contains(x)
}

/// `orders` are all the seat orderings of the distinct bots `lineup`: n! of
/// them, each a rearrangement of the lineup, no two equal, the lineup's own
/// order first.
pub open spec fn all_seat_orderings(orders: Seq<Seq<BotId>>, lineup: Seq<BotId>) -> bool {
    &&& orders.len() == factorial(lineup.len())
    &&& orders.no_duplicates()
    &&& forall|i: int| 0 <= i < orders.len() ==> is_rearrangement(#[trigger] orders[i], lineup)
    &&& orders.len() > 0 && orders[0] == lineup
}

proof fn lemma_raw_ids_distinct(s: Seq<BotId>)
    requires
        s.no_duplicates(),
    ensures
        raw_ids(s).no_duplicates(),
{
    assert forall|i: int, j: int| 0 <= i < raw_ids(s).len() && 0 <= j < raw_ids(s).len() && i != j implies raw_ids(s)[i]
        != raw_ids(s)[j] by {
        assert(s[i] != s[j]);
    }
}

proof fn lemma_bot_rearrangement(t: Seq<BotId>, s: Seq<BotId>)
    requires
        raw_ids(t).to_multiset() == raw_ids(s).to_multiset(),
        s.no_duplicates(),
    ensures
        is_rearrangement(t, s),
{
    let rt = raw_ids(t);
    let rs = raw_ids(s);
    lemma_raw_ids_distinct(s);
    rs.lemma_multiset_has_no_duplicates();
    rt.lemma_multiset_has_no_duplicates_conv();
    vstd::seq_lib::to_multiset_len(rt);
    vstd::seq_lib::to_multiset_len(rs);
    assert forall|i: int, j: int| 0 <= i < t.len() && 0 <= j < t.len() && i != j implies t[i] != t[j] by {
        assert(rt[i] != rt[j]);
    }
    assert forall|x: BotId| t.contains(x) <==> s.contains(x) by {
        vstd::seq_lib::to_multiset_contains(rt, x.0);
        vstd::seq_lib::to_multiset_contains(rs, x.0);
        if t.contains(x) {
            let k = choose|k: int| 0 <= k < t.len() && t[k] == x;
            assert(rt[k] == x.0);
            let m = choose|m: int| 0 <= m < rs.len() && rs[m] == x.0;
            assert(s[m] == x);
        }
        if s.contains(x) {
            let k = choose|k: int| 0 <= k < s.len() && s[k] == x;
            assert(rs[k] == x.0);
            let m = choose|m: int| 0 <= m < rt.len() && rt[m] == x.0;
            assert(t[m] == x);
        }
    }
}

/// Every seat ordering of `bot_ids`: n! of them, each a rearrangement of
/// the bots, the given order first, and, when the bots are distinct, no two
/// equal.
pub fn seat_orderings_exec(bot_ids: &Vec<BotId>) -> (r: Vec<Vec<BotId>>)
    ensures
        r@.map_values(|v: Vec<BotId>| v@) == seat_orderings(bot_ids@),
        bot_ids@.no_duplicates() ==> all_seat_orderings(seat_orderings(bot_ids@), bot_ids@),
        r@.len() == factorial(bot_ids@.len()),
        forall|i: int| 0 <= i < r@.len() ==> #[trigger] raw_ids(r@[i]@).to_multiset() == raw_ids(bot_ids@).to_multiset(),
        r@.len() > 0 ==> r@[0]@ == bot_ids@,
{
    let raw = raw_ids_exec(bot_ids);
    let orderings = itertools_permutations(raw);
    let ghost named = itertools_orderings(raw_ids(bot_ids@));
    let mut r: Vec<Vec<BotId>> = Vec::new();
    let mut i: usize = 0;
    while i < orderings.len()
        invariant
            0 <= i <= orderings.len(),
            orderings@.map_values(|v: Vec<i64>| v@) == named,
            named == itertools_orderings(raw_ids(bot_ids@)),
            r@.len() == i,
            forall|j: int| 0 <= j < i ==> #[trigger] r@[j]@ == bots_of(orderings@[j]@),
        decreases orderings.len() - i,
    {
        let one = bots_of_exec(&orderings[i]);
        r.push(one);
        i += 1;
    }
    proof {
        assert(named.len() == orderings@.len());
        assert(r@.map_values(|v: Vec<BotId>| v@) =~= seat_orderings(bot_ids@)) by {
            assert forall|j: int| 0 <= j < r@.len() implies r@.map_values(|v: Vec<BotId>| v@)[j] == seat_orderings(bot_ids@)[j] by {
                assert(named[j] == orderings@[j]@);
            }
        }
        assert forall|j: int| 0 <= j < r@.len() implies #[trigger] raw_ids(r@[j]@).to_multiset() == raw_ids(bot_ids@).to_multiset() by {
            assert(raw_ids(bots_of(orderings@[j]@)) =~= orderings@[j]@);
        }
        if r@.len() > 0 {
            lemma_bots_of_raw_ids(bot_ids@);
        }
        if bot_ids@.no_duplicates() {
            lemma_raw_ids_distinct(bot_ids@);
            let so = seat_orderings(bot_ids@);
            assert forall|i: int| 0 <= i < so.len() implies is_rearrangement(#[trigger] so[i], bot_ids@) by {
                assert(so[i] == r@[i]@);
                lemma_bot_rearrangement(r@[i]@, bot_ids@);
            }
            assert forall|i: int, j: int| 0 <= i < so.len() && 0 <= j < so.len() && i != j implies so[i] != so[j] by {
                assert(named[i] != named[j]);
                assert(so[i] == bots_of(named[i]));
                assert(so[j] == bots_of(named[j]));
                if so[i] == so[j] {
                    assert(raw_ids(bots_of(named[i])) =~= named[i]);
                    assert(raw_ids(bots_of(named[j])) =~= named[j]);
                }
            }
            lemma_factorial_positive(bot_ids@.len());
            assert(so[0] == r@[0]@);
        }
    }
    r
}

pub proof fn lemma_factorial_positive(n: nat)
    ensures
        factorial(n) >= 1,
    decreases n,
{
    if n > 0 {
        lemma_factorial_positive((n - 1) as nat);
        assert(n * factorial((n - 1) as nat) >= 1) by (nonlinear_arith)
            requires
                n >= 1,
                factorial((n - 1) as nat) >= 1;
    }
}

} // verus!
