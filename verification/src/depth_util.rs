//! Pure algorithms over sequences of liquidity levels: adjacent-level (L2)
//! aggregation, worth-based noise removal, and worst-execution-price
//! projection under a slippage budget.

use vstd::prelude::*;

use crate::amount::Amount;
use crate::liq::{spec_liq, Liq};
use crate::price::Price;
use crate::worth::Worth;

verus! {

/// Sum of the amounts of all levels of `s`.
pub open spec fn sum_amounts(s: Seq<Liq>) -> int
    decreases s.len(),
{
    if s.len() == 0 {
        0
    } else {
        s[0].a.0 + sum_amounts(s.skip(1))
    }
}

proof fn lemma_sum_amounts_nonneg(s: Seq<Liq>)
    ensures
        sum_amounts(s) >= 0,
    decreases s.len(),
{
    if s.len() > 0 {
        lemma_sum_amounts_nonneg(s.skip(1));
    }
}

proof fn lemma_sum_amounts_skip(s: Seq<Liq>, i: int)
    requires
        0 <= i < s.len(),
    ensures
        sum_amounts(s.skip(i)) == s[i].a.0 + sum_amounts(s.skip(i + 1)),
{
    assert(s.skip(i).len() > 0);
    assert(s.skip(i)[0] == s[i]);
    assert(s.skip(i).skip(1) =~= s.skip(i + 1));
}

/// Two adjacent levels at one price merged into one: the amounts are summed
/// and the worth is re-derived from the shared price.
pub open spec fn spec_merge(x: Liq, y: Liq) -> Liq {
    spec_liq(x.p.0 as int, x.a.0 + y.a.0)
}

/// L2 aggregation: each adjacent run of equal-price levels collapses into a
/// single level whose amount is the run's sum; as soon as a different price
/// is seen a new run starts, so non-adjacent equal prices are not merged.
pub open spec fn spec_l2(s: Seq<Liq>) -> Seq<Liq>
    decreases s.len(),
{
    if s.len() <= 1 {
        s
    } else if s[0].p == s[1].p {
        spec_l2(seq![spec_merge(s[0], s[1])] + s.skip(2))
    } else {
        seq![s[0]] + spec_l2(s.skip(1))
    }
}

/// Merges adjacent levels that share one price (L2 aggregation). The input
/// order is the caller's; the function never re-sorts.
pub fn liqs_l2(liqs: &Vec<Liq>) -> (r: Vec<Liq>)
    requires
        sum_amounts(liqs@) <= u64::MAX,
    ensures
        r@ == spec_l2(liqs@),
{
    let mut out: Vec<Liq> = Vec::new();
    let mut prev_opt: Option<Liq> = None;
    let n: usize = liqs.len();
    let mut i: usize = 0;
    while i < n
        invariant
            i <= n,
            n == liqs@.len(),
            sum_amounts(liqs@) <= u64::MAX,
            i == 0 ==> prev_opt is None && out@ == Seq::<Liq>::empty(),
            i > 0 ==> prev_opt is Some,
            i > 0 ==> spec_l2(liqs@) == out@ + spec_l2(
                seq![prev_opt->Some_0] + liqs@.skip(i as int),
            ),
            i > 0 ==> prev_opt->Some_0.a.0 + sum_amounts(liqs@.skip(i as int)) <= sum_amounts(
                liqs@,
            ),
        decreases n - i,
    {
        let l = liqs[i];
        proof {
            lemma_sum_amounts_skip(liqs@, i as int);
            lemma_sum_amounts_nonneg(liqs@.skip(i + 1));
        }
        match prev_opt {
            None => {
                proof {
                    assert(seq![liqs@[0]] + liqs@.skip(1) =~= liqs@);
                }
                prev_opt = Some(l);
            },
            Some(prev) => {
                proof {
                    let t = seq![prev] + liqs@.skip(i as int);
                    assert(t[0] == prev);
                    assert(t[1] == liqs@[i as int]);
                }
                if prev.p.0 == l.p.0 {
                    proof {
                        let t = seq![prev] + liqs@.skip(i as int);
                        assert(t.skip(2) =~= liqs@.skip(i + 1));
                        assert(seq![spec_merge(prev, l)] + t.skip(2) =~= seq![
                            spec_merge(prev, l),
                        ] + liqs@.skip(i + 1));
                        assert(spec_l2(t) == spec_l2(seq![spec_merge(prev, l)] + liqs@.skip(i + 1)));
                    }
                    let merged = Liq::from_pa(prev.p, Amount(prev.a.0 + l.a.0));
                    prev_opt = Some(merged);
                } else {
                    proof {
                        let t = seq![prev] + liqs@.skip(i as int);
                        assert(t.skip(1) =~= liqs@.skip(i as int));
                        assert(spec_l2(t) == seq![prev] + spec_l2(liqs@.skip(i as int)));
                        assert(seq![l] + liqs@.skip(i + 1) =~= liqs@.skip(i as int));
                        assert(out@ + (seq![prev] + spec_l2(liqs@.skip(i as int))) =~= out@.push(
                            prev,
                        ) + spec_l2(liqs@.skip(i as int)));
                    }
                    out.push(prev);
                    prev_opt = Some(l);
                }
            },
        }
        i += 1;
    }
    match prev_opt {
        None => {
            assert(liqs@.len() == 0);
        },
        Some(prev) => {
            proof {
                assert(liqs@.skip(n as int) =~= Seq::<Liq>::empty());
                assert(seq![prev] + liqs@.skip(n as int) =~= seq![prev]);
                assert(spec_l2(seq![prev]) == seq![prev]);
                assert(out@ + seq![prev] =~= out@.push(prev));
            }
            out.push(prev);
        },
    }
    proof {
        assert(out@ =~= spec_l2(liqs@));
    }
    out
}

/// The per-level subtraction pass of noise removal: each drop level at the
/// same price whose amount does not exceed the level's remaining amount is
/// subtracted in turn, the worth re-derived each time.
pub open spec fn spec_drop_level(l: Liq, drops: Seq<Liq>) -> Liq
    decreases drops.len(),
{
    if drops.len() == 0 {
        l
    } else {
        let d = drops[0];
        let next = if d.p == l.p && d.a.0 <= l.a.0 {
            spec_liq(l.p.0 as int, l.a.0 - d.a.0)
        } else {
            l
        };
        spec_drop_level(next, drops.skip(1))
    }
}

/// The subtraction stage of noise removal over a whole side: subtract the
/// aggregated drop levels from each aggregated level and discard the levels
/// with no amount left.
pub open spec fn spec_sub_drops(ls: Seq<Liq>, drops: Seq<Liq>) -> Seq<Liq> {
    ls.map_values(|l: Liq| spec_drop_level(l, drops)).filter(|l: Liq| l.a.0 > 0)
}

/// How many leading levels a worth budget fully covers, a level counting as
/// covered while the remaining budget is at least its worth.
pub open spec fn spec_covered_ge(s: Seq<Liq>, budget: int) -> int
    decreases s.len(),
{
    if s.len() == 0 {
        0
    } else if budget >= s[0].w.0 {
        1 + spec_covered_ge(s.skip(1), budget - s[0].w.0)
    } else {
        0
    }
}

/// How many leading levels a worth budget fully crosses, a level counting as
/// crossed only while the remaining budget strictly exceeds its worth.
pub open spec fn spec_crossed_gt(s: Seq<Liq>, budget: int) -> int
    decreases s.len(),
{
    if s.len() == 0 {
        0
    } else if budget > s[0].w.0 {
        1 + spec_crossed_gt(s.skip(1), budget - s[0].w.0)
    } else {
        0
    }
}

/// What noise removal returns: the subtraction stage's levels with the
/// budget-covered leading levels discarded; the first level whose worth
/// exceeds the remaining budget is kept whole, as are all after it.
pub open spec fn spec_drop_worth(ll: Seq<Liq>, ll_must_drop: Seq<Liq>, budget: int) -> Seq<Liq> {
    let kept = spec_sub_drops(spec_l2(ll), spec_l2(ll_must_drop));
    kept.skip(spec_covered_ge(kept, budget))
}

proof fn lemma_filter_push(s: Seq<Liq>, x: Liq, pred: spec_fn(Liq) -> bool)
    ensures
        s.push(x).filter(pred) == if pred(x) {
            s.filter(pred).push(x)
        } else {
            s.filter(pred)
        },
{
    reveal(Seq::filter);
    assert(s.push(x).drop_last() =~= s);
    assert(s.push(x).last() == x);
}

/// Drops a target worth from the side as noise: aggregates both inputs,
/// subtracts the drop levels price by price, discards emptied levels, then
/// discards the leading levels that the worth budget still covers.
pub fn drop_worth(ll: &Vec<Liq>, ll_must_drop: &Vec<Liq>, w_drop: Worth) -> (r: Vec<Liq>)
    requires
        sum_amounts(ll@) <= u64::MAX,
        sum_amounts(ll_must_drop@) <= u64::MAX,
    ensures
        r@ == spec_drop_worth(ll@, ll_must_drop@, w_drop.0 as int),
{
    let dl2 = liqs_l2(ll_must_drop);
    let al2 = liqs_l2(ll);
    let ghost f = |l: Liq| spec_drop_level(l, dl2@);
    let ghost keep = |l: Liq| l.a.0 > 0;
    let mut kept: Vec<Liq> = Vec::new();
    let na: usize = al2.len();
    let mut i: usize = 0;
    while i < na
        invariant
            i <= na,
            na == al2@.len(),
            dl2@ == spec_l2(ll_must_drop@),
            f == (|l: Liq| spec_drop_level(l, dl2@)),
            keep == (|l: Liq| l.a.0 > 0),
            kept@ == al2@.take(i as int).map_values(f).filter(keep),
        decreases na - i,
    {
        let mut cur: Liq = al2[i];
        proof {
            assert(dl2@.skip(0) =~= dl2@);
        }
        let nd: usize = dl2.len();
        let mut j: usize = 0;
        while j < nd
            invariant
                j <= nd,
                nd == dl2@.len(),
                i < na,
                na == al2@.len(),
                spec_drop_level(al2@[i as int], dl2@) == spec_drop_level(
                    cur,
                    dl2@.skip(j as int),
                ),
            decreases nd - j,
        {
            proof {
                assert(dl2@.skip(j as int)[0] == dl2@[j as int]);
                assert(dl2@.skip(j as int).skip(1) =~= dl2@.skip(j + 1));
            }
            let d = dl2[j];
            if d.p.0 == cur.p.0 && d.a.0 <= cur.a.0 {
                cur = Liq::from_pa(cur.p, Amount(cur.a.0 - d.a.0));
            }
            j += 1;
        }
        proof {
            assert(dl2@.skip(nd as int) =~= Seq::<Liq>::empty());
            assert(spec_drop_level(al2@[i as int], dl2@) == cur);
            let prefix = al2@.take(i as int);
            assert(al2@.take(i + 1) =~= prefix.push(al2@[i as int]));
            assert(al2@.take(i + 1).map_values(f) =~= prefix.map_values(f).push(f(al2@[i as int])));
            lemma_filter_push(prefix.map_values(f), cur, keep);
        }
        if cur.a.0 > 0 {
            kept.push(cur);
        }
        i += 1;
    }
    proof {
        assert(al2@.take(na as int) =~= al2@);
        assert(kept@ == spec_sub_drops(spec_l2(ll@), spec_l2(ll_must_drop@)));
    }
    let ghost budget0 = w_drop.0 as int;
    proof {
        assert(kept@.skip(0) =~= kept@);
    }
    let nk: usize = kept.len();
    let mut k: usize = 0;
    let mut remaining: u128 = w_drop.0;
    while k < nk && remaining >= kept[k].w.0
        invariant
            k <= nk,
            nk == kept@.len(),
            spec_covered_ge(kept@, budget0) == k + spec_covered_ge(
                kept@.skip(k as int),
                remaining as int,
            ),
        decreases nk - k,
    {
        proof {
            assert(kept@.skip(k as int)[0] == kept@[k as int]);
            assert(kept@.skip(k as int).skip(1) =~= kept@.skip(k + 1));
        }
        remaining = remaining - kept[k].w.0;
        k += 1;
    }
    proof {
        if k < nk {
            assert(kept@.skip(k as int)[0] == kept@[k as int]);
        }
        assert(spec_covered_ge(kept@, budget0) == k);
    }
    let mut r: Vec<Liq> = Vec::new();
    let mut m: usize = k;
    while m < nk
        invariant
            k <= m <= nk,
            nk == kept@.len(),
            r@ == kept@.subrange(k as int, m as int),
        decreases nk - m,
    {
        r.push(kept[m]);
        proof {
            assert(r@ =~= kept@.subrange(k as int, m + 1));
        }
        m += 1;
    }
    proof {
        assert(r@ =~= kept@.skip(k as int));
    }
    r
}

/// The worst (least favourable) price needed to fill a worth budget against
/// the side `ll`: leading levels are fully crossed while the remaining budget
/// strictly exceeds their worth, and the first level that can absorb the rest
/// gives the answer. Returns nothing when the whole side is crossed, the book
/// being too shallow for the budget; an empty side always returns nothing.
pub fn worst_execution_price(ll: &Vec<Liq>, w: Worth) -> (r: Option<Price>)
    ensures
        ({
            let k = spec_crossed_gt(ll@, w.0 as int);
            if k == ll@.len() {
                r is None
            } else {
                r == Some(ll@[k].p)
            }
        }),
{
    let ghost budget0 = w.0 as int;
    proof {
        assert(ll@.skip(0) =~= ll@);
    }
    let n: usize = ll.len();
    let mut k: usize = 0;
    let mut remaining: u128 = w.0;
    while k < n && remaining > ll[k].w.0
        invariant
            k <= n,
            n == ll@.len(),
            spec_crossed_gt(ll@, budget0) == k + spec_crossed_gt(
                ll@.skip(k as int),
                remaining as int,
            ),
        decreases n - k,
    {
        proof {
            assert(ll@.skip(k as int)[0] == ll@[k as int]);
            assert(ll@.skip(k as int).skip(1) =~= ll@.skip(k + 1));
        }
        remaining = remaining - ll[k].w.0;
        k += 1;
    }
    proof {
        if k < n {
            assert(ll@.skip(k as int)[0] == ll@[k as int]);
        }
        assert(spec_crossed_gt(ll@, budget0) == k);
    }
    if k == n {
        None
    } else {
        Some(ll[k].p)
    }
}

} // verus!
