//! Stable re-ranking of the candidate pool by score.
//!
//! `rerank` copies the full candidate pool and stably sorts it by the
//! scorer's dissimilarity, ascending: candidates with equal score keep
//! the relative order they had in the pool.  The result is characterized
//! by a permutation of pool indices that is strictly sorted by the pair
//! (score, original index), which pins the output down uniquely: it is a
//! re-sort, never a filter.

use crate::scorer::score_spec;
use crate::scorer::str_chars;
use crate::scorer::wagner_fischer;
use vstd::prelude::*;

verus! {

/// The scores of a vector, as mathematical integers.
pub open spec fn keys_of(scores: Seq<u128>) -> Seq<int> {
    scores.map_values(|v: u128| v as int)
}

/// Index sequence as mathematical integers.
pub open spec fn nat_view(perm: Seq<usize>) -> Seq<int> {
    perm.map_values(|u: usize| u as int)
}

/// Pool index `i` ranks strictly before pool index `j`: its key is
/// smaller, or the keys tie and `i` came first in the pool.  This is a
/// strict total order on distinct indices, so a ranking is unique and
/// ties are broken by original order (stability).
pub open spec fn rank_before(keys: Seq<int>, i: int, j: int) -> bool {
    keys[i] < keys[j] || (keys[i] == keys[j] && i < j)
}

/// `perm` is the ranking permutation for `keys`: a permutation of the
/// pool indices, strictly sorted by `rank_before`.
pub open spec fn is_ranking_perm(keys: Seq<int>, perm: Seq<int>) -> bool {
    &&& perm.len() == keys.len()
    &&& (forall|k: int| 0 <= k < perm.len() ==> 0 <= #[trigger] perm[k] < keys.len())
    &&& (forall|v: int| 0 <= v < keys.len() ==> perm.contains(v))
    &&& (forall|k1: int, k2: int|
        0 <= k1 < k2 < perm.len() ==> rank_before(keys, #[trigger] perm[k1], #[trigger] perm[k2]))
}

/// The scores of every candidate of the pool under query `q`.
pub open spec fn score_keys(q: Seq<char>, pool: Seq<Seq<char>>) -> Seq<int> {
    pool.map_values(|t: Seq<char>| score_spec(q, t))
}

/// `view` is the ranked view of `pool` under query `q`, witnessed by the
/// ranking permutation `perm`.
pub open spec fn is_ranked_view_by(
    pool: Seq<Seq<char>>,
    q: Seq<char>,
    view: Seq<Seq<char>>,
    perm: Seq<int>,
) -> bool {
    &&& is_ranking_perm(score_keys(q, pool), perm)
    &&& view.len() == pool.len()
    &&& (forall|k: int| 0 <= k < view.len() ==> #[trigger] view[k] == pool[perm[k]])
}

/// `view` is the ranked view of `pool` under query `q`: some ranking
/// permutation witnesses it.
pub open spec fn is_ranked_view(pool: Seq<Seq<char>>, q: Seq<char>, view: Seq<Seq<char>>) -> bool {
    exists|perm: Seq<int>| is_ranked_view_by(pool, q, view, perm)
}

/// Whether candidate `i` ranks strictly before candidate `j`.
fn rank_before_exec(scores: &Vec<u128>, i: usize, j: usize) -> (r: bool)
    requires
        i < scores@.len(),
        j < scores@.len(),
    ensures
        r == rank_before(keys_of(scores@), i as int, j as int),
{
    scores[i] < scores[j] || (scores[i] == scores[j] && i < j)
}

/// The ranking permutation for `scores`, by insertion sort: each index is
/// inserted behind every index that ranks before it, which keeps the sort
/// stable.
pub fn rank_indices(scores: &Vec<u128>) -> (perm: Vec<usize>)
    ensures
        is_ranking_perm(keys_of(scores@), nat_view(perm@)),
{
    let ghost keys = keys_of(scores@);
    let n: usize = scores.len();
    let mut perm: Vec<usize> = Vec::new();
    let mut i: usize = 0;
    while i < n
        invariant
            i <= n,
            n == scores@.len(),
            keys == keys_of(scores@),
            perm@.len() == i,
            forall|k: int| 0 <= k < perm@.len() ==> (#[trigger] perm@[k]) < i,
            forall|v: usize| v < i ==> perm@.contains(v),
            forall|k1: int, k2: int|
                0 <= k1 < k2 < perm@.len() ==> rank_before(
                    keys,
                    #[trigger] perm@[k1] as int,
                    #[trigger] perm@[k2] as int,
                ),
        decreases n - i,
    {
        let mut pos: usize = perm.len();
        while pos > 0 && rank_before_exec(scores, i, perm[pos - 1])
            invariant
                pos <= perm@.len(),
                perm@.len() == i,
                i < n,
                n == scores@.len(),
                keys == keys_of(scores@),
                forall|k: int| 0 <= k < perm@.len() ==> (#[trigger] perm@[k]) < i,
                forall|k: int|
                    pos <= k < perm@.len() ==> rank_before(
                        keys,
                        i as int,
                        #[trigger] perm@[k] as int,
                    ),
                forall|k1: int, k2: int|
                    0 <= k1 < k2 < perm@.len() ==> rank_before(
                        keys,
                        #[trigger] perm@[k1] as int,
                        #[trigger] perm@[k2] as int,
                    ),
            decreases pos,
        {
            pos = pos - 1;
        }
        proof {
            let pv = perm@;
            assert forall|k: int| 0 <= k < pos implies rank_before(
                keys,
                #[trigger] pv[k] as int,
                i as int,
            ) by {
                // the scan stopped: the index just left of the slot does not
                // rank after the new one, so by totality it ranks before, and
                // everything further left ranks before it in turn
                assert(!rank_before(keys, i as int, pv[pos - 1] as int));
                assert(pv[pos - 1] != i);
                assert(rank_before(keys, pv[pos - 1] as int, i as int));
                if k < pos - 1 {
                    assert(rank_before(keys, pv[k] as int, pv[pos - 1] as int));
                }
            }
        }
        let ghost before = perm@;
        perm.insert(pos, i);
        proof {
            before.insert_ensures(pos as int, i);
            let pv2 = perm@;
            assert forall|k1: int, k2: int| 0 <= k1 < k2 < pv2.len() implies rank_before(
                keys,
                #[trigger] pv2[k1] as int,
                #[trigger] pv2[k2] as int,
            ) by {
                if k1 < pos {
                    assert(pv2[k1] == before[k1]);
                }
                if k2 < pos {
                    assert(pv2[k2] == before[k2]);
                }
                if k1 > pos {
                    assert(pv2[k1] == before[k1 - 1]);
                }
                if k2 > pos {
                    assert(pv2[k2] == before[k2 - 1]);
                }
            }
            assert forall|v: usize| v < i + 1 implies pv2.contains(v) by {
                if v == i {
                    assert(pv2[pos as int] == v);
                } else {
                    assert(before.contains(v));
                    let k = choose|k: int| 0 <= k < before.len() && before[k] == v;
                    if k < pos {
                        assert(pv2[k] == v);
                    } else {
                        assert(pv2[k + 1] == v);
                    }
                }
            }
        }
        i = i + 1;
    }
    proof {
        let pv = perm@;
        let nv = nat_view(pv);
        assert forall|v: int| 0 <= v < keys.len() implies nv.contains(v) by {
            let vu = v as usize;
            assert(pv.contains(vu));
            let k = choose|k: int| 0 <= k < pv.len() && pv[k] == vu;
            assert(nv[k] == v);
        }
    }
    perm
}

/// The ranked view of the pool under `query`: a copy of the pool, stably
/// sorted by score ascending.  Never a filter: the view holds exactly the
/// candidates of the pool, only re-ordered.
pub fn rerank(all: &Vec<String>, query: &Vec<char>) -> (view: Vec<String>)
    ensures
        view@.len() == all@.len(),
        is_ranked_view(all.deep_view(), query@, view.deep_view()),
{
    let ghost pool = all.deep_view();
    let mut scores: Vec<u128> = Vec::new();
    let mut i: usize = 0;
    while i < all.len()
        invariant
            i <= all@.len(),
            pool == all.deep_view(),
            scores@.len() == i,
            forall|k: int|
                0 <= k < i ==> (#[trigger] scores@[k]) as int == score_spec(query@, pool[k]),
        decreases all@.len() - i,
    {
        let cand: Vec<char> = str_chars(all[i].as_str());
        let s: u128 = wagner_fischer(query, &cand);
        scores.push(s);
        i = i + 1;
    }
    let perm: Vec<usize> = rank_indices(&scores);
    proof {
        assert(keys_of(scores@) =~= score_keys(query@, pool));
    }
    let mut view: Vec<String> = Vec::new();
    let mut k: usize = 0;
    while k < perm.len()
        invariant
            k <= perm@.len(),
            pool == all.deep_view(),
            is_ranking_perm(score_keys(query@, pool), nat_view(perm@)),
            perm@.len() == all@.len(),
            view@.len() == k,
            forall|j: int| 0 <= j < k ==> #[trigger] view@[j]@ == pool[perm@[j] as int],
        decreases perm@.len() - k,
    {
        let idx: usize = perm[k];
        proof {
            assert(nat_view(perm@)[k as int] == idx as int);
        }
        view.push(all[idx].clone());
        k = k + 1;
    }
    proof {
        let pi = nat_view(perm@);
        assert forall|j: int| 0 <= j < view.deep_view().len() implies #[trigger] view.deep_view()[j]
            == pool[pi[j]] by {
            assert(view@[j]@ == pool[perm@[j] as int]);
        }
        assert(is_ranked_view_by(pool, query@, view.deep_view(), pi));
    }
    view
}

/// In a strictly increasing integer sequence, values grow at least as
/// fast as positions.
proof fn lemma_inc_chain(s: Seq<int>, a: int, b: int)
    requires
        forall|k1: int, k2: int| 0 <= k1 < k2 < s.len() ==> #[trigger] s[k1] < #[trigger] s[k2],
        0 <= a <= b < s.len(),
    ensures
        s[b] - s[a] >= b - a,
    decreases b - a,
{
    if a < b {
        lemma_inc_chain(s, a, b - 1);
    }
}

/// Identity under the empty query: the ranked view of any pool under the
/// empty query is the pool itself, in the original order.
pub proof fn lemma_empty_query_identity(pool: Seq<Seq<char>>, q: Seq<char>, view: Seq<Seq<char>>)
    requires
        q.len() == 0,
        is_ranked_view(pool, q, view),
    ensures
        view == pool,
{
    let perm = choose|perm: Seq<int>| is_ranked_view_by(pool, q, view, perm);
    let keys = score_keys(q, pool);
    let n = pool.len() as int;
    assert forall|k1: int, k2: int| 0 <= k1 < k2 < n implies #[trigger] perm[k1]
        < #[trigger] perm[k2] by {
        assert(rank_before(keys, perm[k1], perm[k2]));
        assert(keys[perm[k1]] == 0 && keys[perm[k2]] == 0);
    }
    assert forall|k: int| 0 <= k < n implies #[trigger] perm[k] == k by {
        lemma_inc_chain(perm, 0, k);
        lemma_inc_chain(perm, k, n - 1);
    }
    assert(view =~= pool);
}

/// Re-indexing a sequence by an injective in-range index map preserves
/// the multiset of elements.
proof fn lemma_perm_multiset<A>(s: Seq<A>, t: Seq<A>, perm: Seq<int>)
    requires
        perm.len() == t.len(),
        t.len() == s.len(),
        forall|k: int| 0 <= k < perm.len() ==> 0 <= #[trigger] perm[k] < s.len(),
        forall|k1: int, k2: int| 0 <= k1 < k2 < perm.len() ==> #[trigger] perm[k1] != #[trigger] perm[k2],
        forall|k: int| 0 <= k < t.len() ==> #[trigger] t[k] == s[perm[k]],
    ensures
        t.to_multiset() == s.to_multiset(),
    decreases t.len(),
{
    broadcast use vstd::seq_lib::group_to_multiset_ensures;

    let n = t.len() as int;
    if n == 0 {
        assert(t =~= s);
    } else {
        let pl = perm[n - 1];
        let x = s[pl];
        let t2 = t.drop_last();
        let s2 = s.remove(pl);
        let perm2 = Seq::new((n - 1) as nat, |k: int| if perm[k] > pl { perm[k] - 1 } else { perm[k] });
        s.remove_ensures(pl);
        assert forall|k: int| 0 <= k < t2.len() implies #[trigger] t2[k] == s2[perm2[k]] by {
            assert(perm[k] != pl);
            assert(t[k] == s[perm[k]]);
            if perm[k] > pl {
                assert(s2[perm[k] - 1] == s[perm[k]]);
            } else {
                assert(s2[perm[k]] == s[perm[k]]);
            }
        }
        assert forall|k1: int, k2: int| 0 <= k1 < k2 < perm2.len() implies #[trigger] perm2[k1]
            != #[trigger] perm2[k2] by {
            assert(perm[k1] != perm[k2]);
            assert(perm[k1] != pl && perm[k2] != pl);
        }
        lemma_perm_multiset(s2, t2, perm2);
        assert(t =~= t2.push(t.last()));
        assert(t.to_multiset() =~= t2.to_multiset().insert(x));
        assert(s2.to_multiset() =~= s.to_multiset().remove(x));
        assert(s.contains(x));
        assert(s.to_multiset().count(x) > 0);
        assert(t.to_multiset() =~= s.to_multiset().remove(x).insert(x));
        assert(s.to_multiset().remove(x).insert(x) =~= s.to_multiset());
    }
}

/// A ranking permutation never repeats an index.
proof fn lemma_ranking_perm_injective(keys: Seq<int>, perm: Seq<int>)
    requires
        is_ranking_perm(keys, perm),
    ensures
        forall|k1: int, k2: int|
            0 <= k1 < k2 < perm.len() ==> #[trigger] perm[k1] != #[trigger] perm[k2],
{
    assert forall|k1: int, k2: int|
        0 <= k1 < k2 < perm.len() implies #[trigger] perm[k1] != #[trigger] perm[k2] by {
        assert(rank_before(keys, perm[k1], perm[k2]));
    }
}

/// Multiset preservation: the ranked view is a permutation of the pool —
/// same candidates, same counts, whatever the query.
pub proof fn lemma_multiset_preserved(pool: Seq<Seq<char>>, q: Seq<char>, view: Seq<Seq<char>>)
    requires
        is_ranked_view(pool, q, view),
    ensures
        view.to_multiset() == pool.to_multiset(),
{
    let perm = choose|perm: Seq<int>| is_ranked_view_by(pool, q, view, perm);
    lemma_ranking_perm_injective(score_keys(q, pool), perm);
    lemma_perm_multiset(pool, view, perm);
}

/// Stability: candidates with equal score appear in the ranked view in
/// the same relative order they had in the pool.
pub proof fn lemma_stability(
    pool: Seq<Seq<char>>,
    q: Seq<char>,
    view: Seq<Seq<char>>,
    perm: Seq<int>,
)
    requires
        is_ranked_view_by(pool, q, view, perm),
    ensures
        forall|k1: int, k2: int|
            0 <= k1 < k2 < view.len() && score_spec(q, view[k1]) == score_spec(q, view[k2])
                ==> #[trigger] perm[k1] < #[trigger] perm[k2],
{
    let keys = score_keys(q, pool);
    assert forall|k1: int, k2: int|
        0 <= k1 < k2 < view.len() && score_spec(q, view[k1]) == score_spec(q, view[k2])
        implies #[trigger] perm[k1] < #[trigger] perm[k2] by {
        assert(rank_before(keys, perm[k1], perm[k2]));
        assert(keys[perm[k1]] == score_spec(q, view[k1]));
        assert(keys[perm[k2]] == score_spec(q, view[k2]));
    }
}

/// Two sequences strictly sorted by `rank_before` over the same keys and
/// holding the same multiset of indices are equal.
proof fn lemma_strictly_sorted_unique(keys: Seq<int>, p1: Seq<int>, p2: Seq<int>)
    requires
        p1.to_multiset() == p2.to_multiset(),
        forall|k1: int, k2: int|
            0 <= k1 < k2 < p1.len() ==> rank_before(keys, #[trigger] p1[k1], #[trigger] p1[k2]),
        forall|k1: int, k2: int|
            0 <= k1 < k2 < p2.len() ==> rank_before(keys, #[trigger] p2[k1], #[trigger] p2[k2]),
    ensures
        p1 == p2,
    decreases p1.len(),
{
    broadcast use vstd::seq_lib::group_to_multiset_ensures;

    assert(p1.to_multiset().len() == p1.len());
    assert(p2.to_multiset().len() == p2.len());
    assert(p1.len() == p2.len());
    if p1.len() == 0 {
        assert(p1 =~= p2);
    } else {
        if p1[0] != p2[0] {
            assert(p1.contains(p1[0]));
            assert(p2.to_multiset().count(p1[0]) > 0);
            assert(p2.contains(p1[0]));
            let m = choose|m: int| 0 <= m < p2.len() && p2[m] == p1[0];
            assert(rank_before(keys, p2[0], p1[0]));
            assert(p2.contains(p2[0]));
            assert(p1.to_multiset().count(p2[0]) > 0);
            assert(p1.contains(p2[0]));
            let m2 = choose|m2: int| 0 <= m2 < p1.len() && p1[m2] == p2[0];
            assert(rank_before(keys, p1[0], p2[0]));
            assert(false);
        }
        let t1 = p1.drop_first();
        let t2 = p2.drop_first();
        assert(p1.remove(0) =~= t1);
        assert(p2.remove(0) =~= t2);
        assert(t1.to_multiset() =~= p1.to_multiset().remove(p1[0]));
        assert(t2.to_multiset() =~= p2.to_multiset().remove(p2[0]));
        lemma_strictly_sorted_unique(keys, t1, t2);
        assert forall|k: int| 0 <= k < p1.len() implies p1[k] == p2[k] by {
            if k > 0 {
                assert(p1[k] == t1[k - 1]);
                assert(p2[k] == t2[k - 1]);
            }
        }
        assert(p1 =~= p2);
    }
}

/// Reproducibility: the ranked view of a pool under a query is unique,
/// so identical inputs always rank identically.
pub proof fn lemma_ranked_view_unique(
    pool: Seq<Seq<char>>,
    q: Seq<char>,
    v1: Seq<Seq<char>>,
    v2: Seq<Seq<char>>,
)
    requires
        is_ranked_view(pool, q, v1),
        is_ranked_view(pool, q, v2),
    ensures
        v1 == v2,
{
    let keys = score_keys(q, pool);
    let p1 = choose|p: Seq<int>| is_ranked_view_by(pool, q, v1, p);
    let p2 = choose|p: Seq<int>| is_ranked_view_by(pool, q, v2, p);
    let n = pool.len();
    let iota = Seq::new(n, |i: int| i);
    lemma_ranking_perm_injective(keys, p1);
    lemma_ranking_perm_injective(keys, p2);
    assert forall|k: int| 0 <= k < n implies #[trigger] p1[k] == iota[p1[k]] by {}
    lemma_perm_multiset(iota, p1, p1);
    lemma_perm_multiset(iota, p2, p2);
    lemma_strictly_sorted_unique(keys, p1, p2);
    assert(v1 =~= v2);
}

} // verus!
