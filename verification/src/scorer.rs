//! Edit-distance scoring of a candidate against a query.
//!
//! The score is the classic Levenshtein distance (unit-cost insert, delete
//! and substitute), length-normalized so that distances are comparable
//! across candidates of different length: the raw distance is divided by
//! the candidate length (clamped to at least 1) and scaled by 1000,
//! rounded to the nearest integer with halves rounding up.  Lower means
//! more similar.  An empty query scores every candidate 0, so that an
//! empty query leaves the ranking in the original order.
//!
//! The score gives no bonus for contiguous runs of matching characters —
//! a known ranking weakness, deliberately left as is; ties between
//! equally-distant candidates are broken only by original pool order,
//! since the re-sort is stable.

use vstd::prelude::*;

verus! {

/// Minimum of three integers.
pub open spec fn min3(a: int, b: int, c: int) -> int {
    if a <= b && a <= c {
        a
    } else if b <= c {
        b
    } else {
        c
    }
}

/// Levenshtein distance between the length-`i` prefix of `p` and the
/// length-`j` prefix of `t`: the least number of unit-cost insertions,
/// deletions and substitutions that turn the one into the other.
pub open spec fn lev(p: Seq<char>, t: Seq<char>, i: int, j: int) -> int
    recommends
        0 <= i <= p.len(),
        0 <= j <= t.len(),
    decreases i + j,
{
    if i <= 0 {
        j
    } else if j <= 0 {
        i
    } else {
        let sub_cost: int = if p[i - 1] == t[j - 1] {
            0
        } else {
            1
        };
        min3(lev(p, t, i - 1, j - 1) + sub_cost, lev(p, t, i - 1, j) + 1, lev(p, t, i, j - 1) + 1)
    }
}

/// The dissimilarity score of candidate `t` under query `q`: the
/// Levenshtein distance normalized by the candidate length (clamped to 1)
/// and scaled by 1000, rounded to nearest with halves up.  An empty query
/// scores every candidate 0.
pub open spec fn score_spec(q: Seq<char>, t: Seq<char>) -> int {
    if q.len() == 0 {
        0
    } else {
        let d: int = if t.len() == 0 {
            1
        } else {
            t.len() as int
        };
        (lev(q, t, q.len() as int, t.len() as int) * 1000 + d / 2) / d
    }
}

/// The distance over prefixes of lengths `i` and `j` is at least 0 and at
/// most `i + j` (delete every character of the one, insert every character
/// of the other).
pub proof fn lemma_lev_bounds(p: Seq<char>, t: Seq<char>, i: int, j: int)
    requires
        0 <= i,
        0 <= j,
    ensures
        0 <= lev(p, t, i, j) <= i + j,
    decreases i + j,
{
    if i <= 0 || j <= 0 {
    } else {
        lemma_lev_bounds(p, t, i - 1, j - 1);
        lemma_lev_bounds(p, t, i - 1, j);
        lemma_lev_bounds(p, t, i, j - 1);
    }
}

/// A sequence is at distance 0 from itself: over equal prefixes of `q`
/// the distance vanishes.
pub proof fn lemma_lev_self(q: Seq<char>, i: int)
    requires
        0 <= i <= q.len(),
    ensures
        lev(q, q, i, i) == 0,
    decreases i,
{
    if i > 0 {
        lemma_lev_self(q, i - 1);
        lemma_lev_bounds(q, q, i - 1, i);
        lemma_lev_bounds(q, q, i, i - 1);
    }
}

/// Zero self-distance: a non-empty string used as both query and
/// candidate scores 0.
pub proof fn lemma_score_self(q: Seq<char>)
    requires
        q.len() > 0,
    ensures
        score_spec(q, q) == 0,
{
    lemma_lev_self(q, q.len() as int);
    let d: int = q.len() as int;
    vstd::arithmetic::div_mod::lemma_basic_div(d / 2, d);
}

/// The characters of a string slice, collected one by one.
pub fn str_chars(s: &str) -> (r: Vec<char>)
    ensures
        r@ == s@,
{
    let n: usize = s.unicode_len();
    let mut r: Vec<char> = Vec::new();
    let mut i: usize = 0;
    while i < n
        invariant
            i <= n,
            n == s@.len(),
            r@.len() == i,
            forall|k: int| 0 <= k < i ==> r@[k] == s@[k],
        decreases n - i,
    {
        r.push(s.get_char(i));
        i = i + 1;
    }
    proof {
        assert(r@ =~= s@);
    }
    r
}

/// Score of candidate `text` under query `pattern`, by the classic
/// dynamic program over a single rolling row of `text.len() + 1` cells:
/// after processing row `y`, cell `x` holds the distance between the
/// length-`y` prefix of the query and the length-`x` prefix of the
/// candidate.  The raw distance is then length-normalized.
pub fn wagner_fischer(pattern: &Vec<char>, text: &Vec<char>) -> (score: u128)
    ensures
        score as int == score_spec(pattern@, text@),
{
    let plen: usize = pattern.len();
    let tlen: usize = text.len();
    if plen == 0 {
        return 0;
    }
    let mut table: Vec<u128> = Vec::new();
    table.push(0);
    let mut x: usize = 0;
    while x < tlen
        invariant
            x <= tlen,
            table@.len() == x + 1,
            forall|k: int| 0 <= k <= x ==> #[trigger] table@[k] == k,
        decreases tlen - x,
    {
        x = x + 1;
        table.push(x as u128);
    }
    let mut y: usize = 0;
    while y < plen
        invariant
            y <= plen,
            plen == pattern@.len(),
            tlen == text@.len(),
            table@.len() == tlen + 1,
            forall|k: int|
                0 <= k <= tlen ==> #[trigger] table@[k] as int == lev(
                    pattern@,
                    text@,
                    y as int,
                    k,
                ),
        decreases plen - y,
    {
        let yi: usize = y + 1;
        let mut top_left: u128 = table[0];
        table.set(0, yi as u128);
        let mut x2: usize = 0;
        while x2 < tlen
            invariant
                x2 <= tlen,
                yi == y + 1,
                y < plen,
                plen == pattern@.len(),
                tlen == text@.len(),
                table@.len() == tlen + 1,
                top_left as int == lev(pattern@, text@, y as int, x2 as int),
                forall|k: int|
                    0 <= k <= x2 ==> #[trigger] table@[k] as int == lev(
                        pattern@,
                        text@,
                        yi as int,
                        k,
                    ),
                forall|k: int|
                    x2 < k <= tlen ==> #[trigger] table@[k] as int == lev(
                        pattern@,
                        text@,
                        y as int,
                        k,
                    ),
            decreases tlen - x2,
        {
            let xi: usize = x2 + 1;
            proof {
                lemma_lev_bounds(pattern@, text@, y as int, x2 as int);
                lemma_lev_bounds(pattern@, text@, yi as int, x2 as int);
                lemma_lev_bounds(pattern@, text@, y as int, xi as int);
            }
            let cost: u128 = if pattern[yi - 1] == text[xi - 1] {
                0
            } else {
                1
            };
            let new_top_left: u128 = table[xi];
            let through_sub: u128 = top_left + cost;
            let through_ins: u128 = table[xi - 1] + 1;
            let through_del: u128 = table[xi] + 1;
            let best: u128 = if through_sub <= through_ins && through_sub <= through_del {
                through_sub
            } else if through_ins <= through_del {
                through_ins
            } else {
                through_del
            };
            table.set(xi, best);
            proof {
                assert(best as int == lev(pattern@, text@, yi as int, xi as int));
            }
            top_left = new_top_left;
            x2 = xi;
        }
        y = yi;
    }
    let raw: u128 = table[tlen];
    proof {
        lemma_lev_bounds(pattern@, text@, plen as int, tlen as int);
    }
    let d: u128 = if tlen == 0 {
        1
    } else {
        tlen as u128
    };
    (raw * 1000 + d / 2) / d
}

} // verus!
