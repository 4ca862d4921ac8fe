//! Ordering of keyed bots: by key, then by identifier.
use vstd::prelude::*;

verus! {

broadcast use vstd::seq_lib::to_multiset_build, vstd::seq_lib::to_multiset_insert;

/// Lexicographic order of (key, identifier) pairs.
pub open spec fn pair_le(a: (i128, i64), b: (i128, i64)) -> bool {
    a.0 < b.0 || (a.0 == b.0 && a.1 <= b.1)
}

/// The pairs are in nondecreasing lexicographic order.
pub open spec fn pairs_sorted(s: Seq<(i128, i64)>) -> bool {
    forall|i: int, j: int| 0 <= i < j < s.len() ==> pair_le(s[i], s[j])
}

/// `sorted` holds the pairs of `keyed` in lexicographic order.
pub open spec fn is_sorted_order(sorted: Seq<(i128, i64)>, keyed: Seq<(i128, i64)>) -> bool {
    pairs_sorted(sorted) && sorted.to_multiset() == keyed.to_multiset()
}

/// Sorts the pairs by key, then identifier.
pub fn sort_pairs(pairs: &Vec<(i128, i64)>) -> (r: Vec<(i128, i64)>)
    ensures
        is_sorted_order(r@, pairs@),
{
    let mut out: Vec<(i128, i64)> = Vec::new();
    let mut i: usize = 0;
    assert(pairs@.subrange(0, 0) =~= Seq::<(i128, i64)>::empty());
    assert(out@ =~= Seq::<(i128, i64)>::empty());
    while i < pairs.len()
        invariant
            0 <= i <= pairs.len(),
            pairs_sorted(out@),
            out@.to_multiset() == pairs@.subrange(0, i as int).to_multiset(),
        decreases pairs.len() - i,
    {
        let x = pairs[i];
        let mut pos: usize = 0;
        while pos < out.len() && (out[pos].0 < x.0 || (out[pos].0 == x.0 && out[pos].1 <= x.1))
            invariant
                0 <= pos <= out.len(),
                forall|j: int| 0 <= j < pos ==> pair_le(#[trigger] out@[j], x),
            decreases out.len() - pos,
        {
            pos += 1;
        }
        let ghost before = out@;
        out.insert(pos, x);
        proof {
            assert(out@ == before.insert(pos as int, x));
            assert forall|a: int, b: int| 0 <= a < b < out@.len() implies pair_le(out@[a], out@[b]) by {
                if b < pos {
                    assert(out@[a] == before[a] && out@[b] == before[b]);
                } else if b == pos {
                    assert(out@[a] == before[a]);
                } else if a < pos {
                    assert(out@[a] == before[a] && out@[b] == before[b - 1]);
                    assert(pair_le(before[a], x));
                    assert(!pair_le(before[pos as int], x));
                    if b - 1 > pos {
                        assert(pair_le(before[pos as int], before[b - 1]));
                    }
                } else if a == pos {
                    assert(out@[b] == before[b - 1]);
                    assert(!pair_le(before[pos as int], x));
                    if b - 1 > pos {
                        assert(pair_le(before[pos as int], before[b - 1]));
                    }
                } else {
                    assert(out@[a] == before[a - 1] && out@[b] == before[b - 1]);
                }
            }
            assert(pairs@.subrange(0, i + 1 as int) =~= pairs@.subrange(0, i as int).push(x));
        }
        i += 1;
    }
    assert(pairs@.subrange(0, pairs@.len() as int) =~= pairs@);
    out
}

/// The sorted order of a list of pairs is unique.
pub proof fn lemma_sorted_order_unique(a: Seq<(i128, i64)>, b: Seq<(i128, i64)>, keyed: Seq<(i128, i64)>)
    requires
        is_sorted_order(a, keyed),
        is_sorted_order(b, keyed),
    ensures
        a == b,
    decreases a.len(),
{
    vstd::seq_lib::to_multiset_len(a);
    vstd::seq_lib::to_multiset_len(b);
    if a.len() > 0 {
        vstd::seq_lib::to_multiset_contains(b, a[0]);
        vstd::seq_lib::to_multiset_contains(a, b[0]);
        vstd::seq_lib::to_multiset_contains(a, a[0]);
        vstd::seq_lib::to_multiset_contains(b, b[0]);
        assert(a.contains(a[0]));
        assert(b.contains(b[0]));
        assert(a.to_multiset().count(a[0]) > 0);
        assert(b.contains(a[0]));
        assert(a.contains(b[0]));
        let j = choose|j: int| 0 <= j < b.len() && b[j] == a[0];
        let i = choose|i: int| 0 <= i < a.len() && a[i] == b[0];
        if j > 0 {
            assert(pair_le(b[0], b[j]));
        }
        if i > 0 {
            assert(pair_le(a[0], a[i]));
        }
        assert(a[0] == b[0]);
        vstd::seq_lib::to_multiset_remove(a, 0);
        vstd::seq_lib::to_multiset_remove(b, 0);
        assert(a.remove(0) =~= a.drop_first());
        assert(b.remove(0) =~= b.drop_first());
        let keyed2 = a.drop_first();
        assert(is_sorted_order(a.drop_first(), keyed2)) by {
            assert forall|x: int, y: int| 0 <= x < y < a.drop_first().len() implies pair_le(a.drop_first()[x], a.drop_first()[y]) by {
                assert(pair_le(a[x + 1], a[y + 1]));
            }
        }
        assert(is_sorted_order(b.drop_first(), keyed2)) by {
            assert forall|x: int, y: int| 0 <= x < y < b.drop_first().len() implies pair_le(b.drop_first()[x], b.drop_first()[y]) by {
                assert(pair_le(b[x + 1], b[y + 1]));
            }
        }
        lemma_sorted_order_unique(a.drop_first(), b.drop_first(), keyed2);
        assert(a =~= b) by {
            assert forall|x: int| 0 <= x < a.len() implies a[x] == b[x] by {
                if x > 0 {
                    assert(a[x] == a.drop_first()[x - 1]);
                    assert(b[x] == b.drop_first()[x - 1]);
                }
            }
        }
    } else {
        assert(b.len() == 0);
        assert(a =~= b);
    }
}

} // verus!
