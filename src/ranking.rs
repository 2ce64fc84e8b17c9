use vstd::prelude::*;
use vstd::seq_lib::*;

use crate::order_book::Level;

verus! {

broadcast use group_to_multiset_ensures;

/// The side of a book a sequence of levels belongs to.
#[derive(Clone, Copy, Debug, PartialEq, Eq, Structural)]
pub enum Side {
    Bid,
    Ask,
}

/// `a` is at least as good as `b` on `side`: bids rank by price descending,
/// asks by price ascending, and on either side an equal price ranks the larger
/// amount first.
pub open spec fn ranks_before(side: Side, a: Level, b: Level) -> bool {
    match side {
        Side::Bid => a.price > b.price || (a.price == b.price && a.amount >= b.amount),
        Side::Ask => a.price < b.price || (a.price == b.price && a.amount >= b.amount),
    }
}

/// Every level of `s` ranks at least as well as every level after it.
pub open spec fn is_ranked(side: Side, s: Seq<Level>) -> bool {
    forall|i: int, j: int| 0 <= i < j < s.len() ==> #[trigger] ranks_before(side, s[i], s[j])
}

pub open spec fn min_nat(a: nat, b: nat) -> nat {
    if a <= b {
        a
    } else {
        b
    }
}

/// `r` is a best `n` levels of `pool`, best first: it is ranked, holds
/// `min(n, |pool|)` levels taken from `pool`, and every level of `pool` that
/// was left out ranks no better than any level that was kept.
pub open spec fn is_top(side: Side, pool: Seq<Level>, r: Seq<Level>, n: nat) -> bool {
    &&& is_ranked(side, r)
    &&& r.len() == min_nat(n, pool.len())
    &&& r.to_multiset().subset_of(pool.to_multiset())
    &&& forall|x: Level, i: int|
        #![trigger r.to_multiset().count(x), r[i]]
        r.to_multiset().count(x) < pool.to_multiset().count(x) && 0 <= i < r.len()
            ==> ranks_before(side, r[i], x)
}

/// Whether `a` ranks at least as well as `b` on `side`.
pub fn level_ranks_before(side: Side, a: &Level, b: &Level) -> (r: bool)
    ensures
        r == ranks_before(side, *a, *b),
{
    match side {
        Side::Bid => a.price > b.price || (a.price == b.price && a.amount >= b.amount),
        Side::Ask => a.price < b.price || (a.price == b.price && a.amount >= b.amount),
    }
}

/// Sorts `levels` best first for `side`. Levels that rank equally keep their
/// relative order.
pub fn rank_levels(side: Side, levels: &Vec<Level>) -> (r: Vec<Level>)
    ensures
        is_ranked(side, r@),
        r@.to_multiset() == levels@.to_multiset(),
{
    let mut out: Vec<Level> = Vec::new();
    let mut i: usize = 0;
    while i < levels.len()
        invariant
            i <= levels.len(),
            is_ranked(side, out@),
            out@.to_multiset() == levels@.take(i as int).to_multiset(),
        decreases levels.len() - i,
    {
        let x = levels[i];
        // Insert after every level that ranks at least as well as `x`.
        let mut p: usize = 0;
        while p < out.len() && level_ranks_before(side, &out[p], &x)
            invariant
                p <= out.len(),
                forall|k: int| 0 <= k < p ==> ranks_before(side, out@[k], x),
            decreases out.len() - p,
        {
            p = p + 1;
        }
        let ghost before = out@;
        out.insert(p, x);
        proof {
            assert(p < before.len() ==> !ranks_before(side, before[p as int], x));
            assert forall|a: int, b: int| 0 <= a < b < out@.len() implies #[trigger] ranks_before(
                side,
                out@[a],
                out@[b],
            ) by {
                if b < p {
                } else if a < p && b == p {
                } else if a < p {
                    assert(ranks_before(side, before[a], before[b - 1]));
                } else if a == p {
                    assert(ranks_before(side, before[p as int], before[b - 1]));
                } else {
                    assert(ranks_before(side, before[a - 1], before[b - 1]));
                }
            }
            assert(levels@.take(i + 1) =~= levels@.take(i as int).push(x));
        }
        i = i + 1;
    }
    assert(levels@.take(i as int) =~= levels@);
    out
}

/// The first `min(n, |s|)` levels of `s`.
pub fn first_levels(s: &Vec<Level>, n: usize) -> (r: Vec<Level>)
    ensures
        r@ == s@.take(min_nat(n as nat, s@.len()) as int),
{
    let mut out: Vec<Level> = Vec::new();
    let mut i: usize = 0;
    while i < s.len() && i < n
        invariant
            i <= s.len(),
            i <= n,
            out@ == s@.take(i as int),
        decreases s.len() - i,
    {
        out.push(s[i]);
        assert(s@.take(i + 1) =~= s@.take(i as int).push(s@[i as int]));
        i = i + 1;
    }
    out
}

/// A prefix of a ranked arrangement of `pool` is a best selection from it.
pub proof fn lemma_prefix_is_top(side: Side, pool: Seq<Level>, p: Seq<Level>, n: nat)
    requires
        is_ranked(side, p),
        p.to_multiset() == pool.to_multiset(),
    ensures
        is_top(side, pool, p.take(min_nat(n, p.len()) as int), n),
{
    let k = min_nat(n, p.len()) as int;
    let r = p.take(k);
    let rest = p.skip(k);
    assert(p =~= r + rest);
    lemma_multiset_commutative(r, rest);
    assert(pool.len() == p.len()) by {
        to_multiset_len(pool);
        to_multiset_len(p);
    }
    assert forall|x: Level, i: int|
        #![trigger r.to_multiset().count(x), r[i]]
        r.to_multiset().count(x) < pool.to_multiset().count(x) && 0 <= i < r.len() implies
        ranks_before(side, r[i], x) by {
        assert(rest.to_multiset().count(x) > 0);
        to_multiset_contains(rest, x);
        let j = choose|j: int| 0 <= j < rest.len() && rest[j] == x;
        assert(p[i] == r[i]);
        assert(p[k + j] == x);
    }
}

} // verus!
