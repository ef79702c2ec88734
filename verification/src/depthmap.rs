//! The price-keyed form of a book side pair, kept as per-side level lists
//! with pairwise distinct prices, viewed in specifications as a map from
//! price to level.

use vstd::prelude::*;
use vstd::seq_lib::lemma_multiset_commutative;

use crate::depth::Depth;
use crate::liq::Liq;
use crate::price::Price;

verus! {

broadcast use vstd::seq_lib::group_to_multiset_ensures;

/// Whether the levels of `s` have pairwise distinct prices.
pub open spec fn distinct_prices(s: Seq<Liq>) -> bool {
    forall|i: int, j: int| 0 <= i < j < s.len() ==> s[i].p != s[j].p
}

/// The price-keyed mapping a sequence of levels describes; on a duplicate
/// price the later level wins.
pub open spec fn seq_to_map(s: Seq<Liq>) -> Map<int, Liq>
    decreases s.len(),
{
    if s.len() == 0 {
        Map::empty()
    } else {
        seq_to_map(s.drop_last()).insert(s.last().p.0 as int, s.last())
    }
}

/// A key is present in the mapping exactly when some level has that price.
pub proof fn lemma_seq_to_map_contains(s: Seq<Liq>, k: int)
    ensures
        seq_to_map(s).contains_key(k) <==> exists|i: int| 0 <= i < s.len() && s[i].p.0 == k,
    decreases s.len(),
{
    if s.len() > 0 {
        lemma_seq_to_map_contains(s.drop_last(), k);
        if s.last().p.0 == k {
            assert(s[s.len() - 1].p.0 == k);
        } else if seq_to_map(s).contains_key(k) {
            let i = choose|i: int| 0 <= i < s.drop_last().len() && s.drop_last()[i].p.0 == k;
            assert(s[i].p.0 == k);
        } else if exists|i: int| 0 <= i < s.len() && s[i].p.0 == k {
            let i = choose|i: int| 0 <= i < s.len() && s[i].p.0 == k;
            assert(i < s.len() - 1);
            assert(s.drop_last()[i].p.0 == k);
        }
    }
}

/// With distinct prices, each level is what its price maps to.
pub proof fn lemma_seq_to_map_at(s: Seq<Liq>, i: int)
    requires
        distinct_prices(s),
        0 <= i < s.len(),
    ensures
        seq_to_map(s).contains_key(s[i].p.0 as int),
        seq_to_map(s)[s[i].p.0 as int] == s[i],
    decreases s.len(),
{
    if i < s.len() - 1 {
        assert(distinct_prices(s.drop_last())) by {
            assert(forall|a: int, b: int|
                0 <= a < b < s.drop_last().len() ==> s.drop_last()[a] == s[a] && s.drop_last()[b]
                    == s[b]);
        }
        lemma_seq_to_map_at(s.drop_last(), i);
        assert(s.drop_last()[i] == s[i]);
        assert(s[i].p != s[s.len() - 1].p);
    }
}

proof fn lemma_distinct_remove(s: Seq<Liq>, i: int)
    requires
        distinct_prices(s),
        0 <= i < s.len(),
    ensures
        distinct_prices(s.remove(i)),
        forall|j: int| 0 <= j < s.remove(i).len() ==> s.remove(i)[j].p != s[i].p,
{
    s.remove_ensures(i);
    assert forall|j: int| 0 <= j < s.remove(i).len() implies s.remove(i)[j].p != s[i].p by {
        if j < i {
            assert(s.remove(i)[j] == s[j]);
        } else {
            assert(s.remove(i)[j] == s[j + 1]);
        }
    }
    assert forall|a: int, b: int|
        0 <= a < b < s.remove(i).len() implies s.remove(i)[a].p != s.remove(i)[b].p by {
        if a < i {
            assert(s.remove(i)[a] == s[a]);
        } else {
            assert(s.remove(i)[a] == s[a + 1]);
        }
        if b < i {
            assert(s.remove(i)[b] == s[b]);
        } else {
            assert(s.remove(i)[b] == s[b + 1]);
        }
    }
}

/// Removing the level at index `i` removes exactly its price's key.
pub proof fn lemma_seq_to_map_remove(s: Seq<Liq>, i: int)
    requires
        distinct_prices(s),
        0 <= i < s.len(),
    ensures
        seq_to_map(s.remove(i)) =~= seq_to_map(s).remove(s[i].p.0 as int),
    decreases s.len(),
{
    let k = s[i].p.0 as int;
    assert(distinct_prices(s.drop_last())) by {
        assert(forall|a: int, b: int|
            0 <= a < b < s.drop_last().len() ==> s.drop_last()[a] == s[a] && s.drop_last()[b]
                == s[b]);
    }
    if i == s.len() - 1 {
        assert(s.remove(i) =~= s.drop_last());
        lemma_seq_to_map_contains(s.drop_last(), k);
        assert(forall|j: int| 0 <= j < s.drop_last().len() ==> s.drop_last()[j] == s[j]);
        assert(!seq_to_map(s.drop_last()).contains_key(k));
        assert(seq_to_map(s.drop_last()).insert(k, s.last()).remove(k) =~= seq_to_map(
            s.drop_last(),
        ));
    } else {
        assert(s.remove(i).drop_last() =~= s.drop_last().remove(i));
        assert(s.remove(i).last() == s.last());
        lemma_seq_to_map_remove(s.drop_last(), i);
        assert(s.drop_last()[i] == s[i]);
        assert(s[i].p != s.last().p);
        assert(seq_to_map(s.drop_last()).remove(k).insert(s.last().p.0 as int, s.last())
            =~= seq_to_map(s.drop_last()).insert(s.last().p.0 as int, s.last()).remove(k));
    }
}

/// Two distinct-price level sequences that describe the same price-keyed
/// mapping hold exactly the same levels. In particular a snapshot installed
/// by the registry's rebuild path survives the round trip through its
/// price-keyed form: converting the stored map back to an ordered depth
/// reproduces the snapshot's levels, with the order re-derived by sorting.
pub proof fn lemma_map_round_trip(s: Seq<Liq>, t: Seq<Liq>)
    requires
        distinct_prices(s),
        distinct_prices(t),
        seq_to_map(s) == seq_to_map(t),
    ensures
        s.to_multiset() =~= t.to_multiset(),
    decreases s.len(),
{
    if s.len() == 0 {
        if t.len() > 0 {
            lemma_seq_to_map_at(t, 0);
            lemma_seq_to_map_contains(s, t[0].p.0 as int);
        }
        assert(t.len() == 0);
    } else {
        let last = s.last();
        let k = last.p.0 as int;
        lemma_seq_to_map_at(s, s.len() - 1);
        lemma_seq_to_map_contains(t, k);
        assert(seq_to_map(t).contains_key(k));
        let j = choose|j: int| 0 <= j < t.len() && t[j].p.0 == k;
        lemma_seq_to_map_at(t, j);
        assert(t[j] == last);
        assert(s.remove(s.len() - 1) =~= s.drop_last());
        lemma_seq_to_map_remove(s, s.len() - 1);
        lemma_seq_to_map_remove(t, j);
        lemma_distinct_remove(s, s.len() - 1);
        lemma_distinct_remove(t, j);
        lemma_map_round_trip(s.drop_last(), t.remove(j));
        assert(s =~= s.drop_last().push(last));
        assert(s.to_multiset() =~= s.drop_last().to_multiset().insert(last));
        assert(t.remove(j).to_multiset() =~= t.to_multiset().remove(t[j]));
        assert(t.to_multiset().contains(t[j])) by {
            assert(t.contains(t[j]));
        }
        assert(t.to_multiset() =~= t.to_multiset().remove(t[j]).insert(t[j]));
    }
}

proof fn lemma_two_indices_count(t: Seq<Liq>, i: int, j: int)
    requires
        0 <= i < j < t.len(),
        t[i] == t[j],
    ensures
        t.to_multiset().count(t[i]) >= 2,
{
    assert(t.remove(i)[j - 1] == t[j]);
    assert(t.remove(i).contains(t[j]));
    assert(t.remove(i).to_multiset() =~= t.to_multiset().remove(t[i]));
    assert(t.remove(i).to_multiset().count(t[j]) > 0);
}

/// Holding the same levels as a distinct-price sequence forces prices to be
/// distinct too.
pub proof fn lemma_multiset_distinct_prices(s: Seq<Liq>, t: Seq<Liq>)
    requires
        distinct_prices(s),
        s.to_multiset() == t.to_multiset(),
    ensures
        distinct_prices(t),
{
    assert forall|i: int, j: int| 0 <= i < j < t.len() implies t[i].p != t[j].p by {
        if t[i].p == t[j].p {
            assert(t.contains(t[i]));
            assert(t.contains(t[j]));
            assert(s.to_multiset().count(t[i]) > 0);
            assert(s.to_multiset().count(t[j]) > 0);
            assert(s.contains(t[i]));
            assert(s.contains(t[j]));
            let a = choose|a: int| 0 <= a < s.len() && s[a] == t[i];
            let b = choose|b: int| 0 <= b < s.len() && s[b] == t[j];
            if t[i] == t[j] {
                lemma_two_indices_count(t, i, j);
                assert(s.to_multiset().count(t[i]) >= 2);
                assert(s.remove(a).to_multiset() =~= s.to_multiset().remove(s[a]));
                assert(s.remove(a).to_multiset().count(t[i]) >= 1);
                assert(s.remove(a).contains(t[i]));
                let c = choose|c: int| 0 <= c < s.remove(a).len() && s.remove(a)[c] == t[i];
                if c < a {
                    assert(s[c] == t[i]);
                    assert(s[c].p == s[a].p);
                } else {
                    assert(s[c + 1] == t[i]);
                    assert(s[c + 1].p == s[a].p);
                }
            } else {
                assert(a != b);
                assert(s[a].p == s[b].p);
            }
        }
    }
}

/// Two distinct-price sequences holding the same levels describe the same
/// price-keyed mapping.
pub proof fn lemma_same_levels_same_map(s: Seq<Liq>, t: Seq<Liq>)
    requires
        distinct_prices(s),
        distinct_prices(t),
        s.to_multiset() == t.to_multiset(),
    ensures
        seq_to_map(s) =~= seq_to_map(t),
{
    assert forall|k: int|
        #![trigger seq_to_map(s).contains_key(k)]
        #![trigger seq_to_map(t).contains_key(k)]
        (seq_to_map(s).contains_key(k) == seq_to_map(t).contains_key(k)) && (seq_to_map(
            s,
        ).contains_key(k) ==> seq_to_map(s)[k] == seq_to_map(t)[k]) by {
        lemma_seq_to_map_contains(s, k);
        lemma_seq_to_map_contains(t, k);
        if seq_to_map(s).contains_key(k) {
            let i = choose|i: int| 0 <= i < s.len() && s[i].p.0 == k;
            lemma_seq_to_map_at(s, i);
            assert(s.contains(s[i]));
            assert(t.to_multiset().count(s[i]) > 0);
            assert(t.contains(s[i]));
            let j = choose|j: int| 0 <= j < t.len() && t[j] == s[i];
            lemma_seq_to_map_at(t, j);
        }
        if seq_to_map(t).contains_key(k) {
            let i = choose|i: int| 0 <= i < t.len() && t[i].p.0 == k;
            assert(t.contains(t[i]));
            assert(s.to_multiset().count(t[i]) > 0);
            assert(s.contains(t[i]));
        }
    }
}

/// What merging a delta map into a book side leaves at each price: a
/// zero-amount delta level removes its price's key, any other delta level is
/// stored verbatim at its price (overwriting, not summing), and every price
/// the delta does not mention keeps its prior binding.
pub open spec fn spec_merge_maps(m: Map<int, Liq>, d: Map<int, Liq>) -> Map<int, Liq> {
    Map::new(
        |k: int| (d.contains_key(k) && d[k].a.0 != 0) || (!d.contains_key(k) && m.contains_key(k)),
        |k: int| if d.contains_key(k) {
            d[k]
        } else {
            m[k]
        },
    )
}

/// The effect of merging a delta, level by level from the front: a level
/// with amount 0 removes its price's key, any other level is stored at its
/// price, replacing whatever was there.
spec fn spec_apply_delta(m: Map<int, Liq>, delta: Seq<Liq>) -> Map<int, Liq>
    decreases delta.len(),
{
    if delta.len() == 0 {
        m
    } else {
        let l = delta[0];
        let m2 = if l.a.0 == 0 {
            m.remove(l.p.0 as int)
        } else {
            m.insert(l.p.0 as int, l)
        };
        spec_apply_delta(m2, delta.skip(1))
    }
}

/// Whether some level of `delta` has price `k`.
spec fn spec_delta_mentions(delta: Seq<Liq>, k: int) -> bool {
    exists|i: int| 0 <= i < delta.len() && delta[i].p.0 == k
}

/// Point-wise reading of a merged delta with distinct prices: a zero-amount
/// level removes its price's key, a nonzero-amount level is stored verbatim
/// at its price (overwriting, not summing), and every unmentioned price
/// keeps its prior binding.
proof fn lemma_apply_delta_pointwise(m: Map<int, Liq>, delta: Seq<Liq>)
    requires
        distinct_prices(delta),
    ensures
        forall|i: int|
            0 <= i < delta.len() && delta[i].a.0 != 0 ==> spec_apply_delta(m, delta).contains_key(
                #[trigger] delta[i].p.0 as int,
            ) && spec_apply_delta(m, delta)[delta[i].p.0 as int] == delta[i],
        forall|i: int|
            0 <= i < delta.len() && delta[i].a.0 == 0 ==> !spec_apply_delta(m, delta).contains_key(
                #[trigger] delta[i].p.0 as int,
            ),
        forall|k: int|
            !spec_delta_mentions(delta, k) ==> (spec_apply_delta(m, delta).contains_key(k)
                == m.contains_key(k) && (m.contains_key(k) ==> spec_apply_delta(m, delta)[k]
                == m[k])),
    decreases delta.len(),
{
    if delta.len() > 0 {
        let l = delta[0];
        let k0 = l.p.0 as int;
        let m2 = if l.a.0 == 0 {
            m.remove(k0)
        } else {
            m.insert(k0, l)
        };
        let rest = delta.skip(1);
        assert(distinct_prices(rest)) by {
            assert(forall|a: int, b: int|
                0 <= a < b < rest.len() ==> rest[a] == delta[a + 1] && rest[b] == delta[b + 1]);
        }
        lemma_apply_delta_pointwise(m2, rest);
        assert(!spec_delta_mentions(rest, k0)) by {
            if exists|i: int| 0 <= i < rest.len() && rest[i].p.0 == k0 {
                let i = choose|i: int| 0 <= i < rest.len() && rest[i].p.0 == k0;
                assert(delta[i + 1].p.0 == k0);
                assert(delta[0].p != delta[i + 1].p || true);
                assert(delta[0].p.0 == k0);
                assert(false);
            }
        }
        assert forall|i: int|
            0 <= i < delta.len() && delta[i].a.0 != 0 implies spec_apply_delta(
            m,
            delta,
        ).contains_key(#[trigger] delta[i].p.0 as int) && spec_apply_delta(m, delta)[delta[i].p.0
            as int] == delta[i] by {
            if i == 0 {
                assert(m2.contains_key(k0) && m2[k0] == l);
            } else {
                assert(rest[i - 1] == delta[i]);
            }
        }
        assert forall|i: int|
            0 <= i < delta.len() && delta[i].a.0 == 0 implies !spec_apply_delta(
            m,
            delta,
        ).contains_key(#[trigger] delta[i].p.0 as int) by {
            if i == 0 {
                assert(!m2.contains_key(k0));
            } else {
                assert(rest[i - 1] == delta[i]);
            }
        }
        assert forall|k: int|
            !spec_delta_mentions(delta, k) implies (spec_apply_delta(m, delta).contains_key(k)
            == m.contains_key(k) && (m.contains_key(k) ==> spec_apply_delta(m, delta)[k]
            == m[k])) by {
            assert(delta[0].p.0 != k);
            assert(!spec_delta_mentions(rest, k)) by {
                if exists|i: int| 0 <= i < rest.len() && rest[i].p.0 == k {
                    let i = choose|i: int| 0 <= i < rest.len() && rest[i].p.0 == k;
                    assert(delta[i + 1].p.0 == k);
                    assert(false);
                }
            }
        }
    }
}

proof fn lemma_apply_delta_is_merge(m: Map<int, Liq>, delta: Seq<Liq>)
    requires
        distinct_prices(delta),
    ensures
        spec_apply_delta(m, delta) =~= spec_merge_maps(m, seq_to_map(delta)),
{
    lemma_apply_delta_pointwise(m, delta);
    let lhs = spec_apply_delta(m, delta);
    let d = seq_to_map(delta);
    assert forall|k: int|
        #![trigger lhs.contains_key(k)]
        #![trigger d.contains_key(k)]
        (lhs.contains_key(k) == spec_merge_maps(m, d).contains_key(k)) && (lhs.contains_key(k)
            ==> lhs[k] == spec_merge_maps(m, d)[k]) by {
        lemma_seq_to_map_contains(delta, k);
        if d.contains_key(k) {
            let i = choose|i: int| 0 <= i < delta.len() && delta[i].p.0 == k;
            lemma_seq_to_map_at(delta, i);
            assert(d[k] == delta[i]);
        } else {
            assert(!spec_delta_mentions(delta, k));
        }
    }
}

/// Prices never descending along the sequence.
pub open spec fn sorted_asc(s: Seq<Liq>) -> bool {
    forall|i: int, j: int| 0 <= i < j < s.len() ==> s[i].p.0 <= s[j].p.0
}

/// Prices never ascending along the sequence.
pub open spec fn sorted_desc(s: Seq<Liq>) -> bool {
    forall|i: int, j: int| 0 <= i < j < s.len() ==> s[i].p.0 >= s[j].p.0
}

proof fn lemma_to_multiset_insert(s: Seq<Liq>, i: int, x: Liq)
    requires
        0 <= i <= s.len(),
    ensures
        s.insert(i, x).to_multiset() =~= s.to_multiset().insert(x),
{
    let a = s.subrange(0, i);
    let b = s.subrange(i, s.len() as int);
    assert(s.insert(i, x) == a.push(x) + b);
    assert(s =~= a + b);
    lemma_multiset_commutative(a.push(x), b);
    lemma_multiset_commutative(a, b);
    assert(a.push(x).to_multiset() =~= a.to_multiset().insert(x));
}

fn side_find(side: &Vec<Liq>, p: Price) -> (r: Option<usize>)
    ensures
        match r {
            Some(i) => i < side@.len() && side@[i as int].p == p,
            None => forall|i: int| 0 <= i < side@.len() ==> side@[i].p != p,
        },
{
    let n: usize = side.len();
    let mut i: usize = 0;
    while i < n
        invariant
            i <= n,
            n == side@.len(),
            forall|j: int| 0 <= j < i ==> side@[j].p != p,
        decreases n - i,
    {
        if side[i].p.0 == p.0 {
            return Some(i);
        }
        i += 1;
    }
    None
}

fn side_put(side: &mut Vec<Liq>, l: Liq)
    requires
        distinct_prices(old(side)@),
    ensures
        distinct_prices(final(side)@),
        seq_to_map(final(side)@) == seq_to_map(old(side)@).insert(l.p.0 as int, l),
{
    let ghost s0 = side@;
    let found = side_find(side, l.p);
    if let Some(i) = found {
        side.remove(i);
        proof {
            lemma_seq_to_map_remove(s0, i as int);
            lemma_distinct_remove(s0, i as int);
        }
    }
    let ghost s1 = side@;
    proof {
        assert(forall|j: int| 0 <= j < s1.len() ==> s1[j].p != l.p);
    }
    side.push(l);
    proof {
        assert(s1.push(l).drop_last() =~= s1);
        assert(seq_to_map(side@) == seq_to_map(s1).insert(l.p.0 as int, l));
        if let Some(i) = found {
            assert(seq_to_map(s0).remove(s0[i as int].p.0 as int).insert(l.p.0 as int, l)
                =~= seq_to_map(s0).insert(l.p.0 as int, l));
        }
        assert(distinct_prices(side@)) by {
            assert(forall|j: int| 0 <= j < side@.len() - 1 ==> side@[j] == s1[j]);
            assert(side@[side@.len() - 1] == l);
        }
    }
}

fn side_remove(side: &mut Vec<Liq>, p: Price)
    requires
        distinct_prices(old(side)@),
    ensures
        distinct_prices(final(side)@),
        seq_to_map(final(side)@) == seq_to_map(old(side)@).remove(p.0 as int),
{
    let ghost s0 = side@;
    let found = side_find(side, p);
    match found {
        Some(i) => {
            side.remove(i);
            proof {
                lemma_seq_to_map_remove(s0, i as int);
                lemma_distinct_remove(s0, i as int);
            }
        },
        None => {
            proof {
                lemma_seq_to_map_contains(s0, p.0 as int);
                assert(!seq_to_map(s0).contains_key(p.0 as int));
                assert(seq_to_map(s0).remove(p.0 as int) =~= seq_to_map(s0));
            }
        },
    }
}

fn side_apply(side: &mut Vec<Liq>, delta: &Vec<Liq>)
    requires
        distinct_prices(old(side)@),
    ensures
        distinct_prices(final(side)@),
        seq_to_map(final(side)@) == spec_apply_delta(seq_to_map(old(side)@), delta@),
{
    let ghost m0 = seq_to_map(side@);
    proof {
        assert(delta@.skip(0) =~= delta@);
    }
    let nd: usize = delta.len();
    let mut i: usize = 0;
    while i < nd
        invariant
            i <= nd,
            nd == delta@.len(),
            distinct_prices(side@),
            spec_apply_delta(m0, delta@) == spec_apply_delta(
                seq_to_map(side@),
                delta@.skip(i as int),
            ),
        decreases nd - i,
    {
        proof {
            assert(delta@.skip(i as int)[0] == delta@[i as int]);
            assert(delta@.skip(i as int).skip(1) =~= delta@.skip(i + 1));
        }
        let l = delta[i];
        if l.a.0 == 0 {
            side_remove(side, l.p);
        } else {
            side_put(side, l);
        }
        i += 1;
    }
    proof {
        assert(delta@.skip(nd as int) =~= Seq::<Liq>::empty());
    }
}

fn side_build(src: &Vec<Liq>) -> (r: Vec<Liq>)
    ensures
        distinct_prices(r@),
        seq_to_map(r@) == seq_to_map(src@),
{
    let mut out: Vec<Liq> = Vec::new();
    proof {
        assert(src@.take(0) =~= Seq::<Liq>::empty());
    }
    let n: usize = src.len();
    let mut i: usize = 0;
    while i < n
        invariant
            i <= n,
            n == src@.len(),
            distinct_prices(out@),
            seq_to_map(out@) == seq_to_map(src@.take(i as int)),
        decreases n - i,
    {
        side_put(&mut out, src[i]);
        proof {
            assert(src@.take(i + 1).drop_last() =~= src@.take(i as int));
            assert(src@.take(i + 1).last() == src@[i as int]);
        }
        i += 1;
    }
    proof {
        assert(src@.take(n as int) =~= src@);
    }
    out
}

fn sort_levels_asc(src: &Vec<Liq>) -> (r: Vec<Liq>)
    ensures
        r@.to_multiset() == src@.to_multiset(),
        sorted_asc(r@),
{
    let mut out: Vec<Liq> = Vec::new();
    proof {
        assert(src@.take(0) =~= Seq::<Liq>::empty());
        assert(out@.to_multiset() =~= src@.take(0).to_multiset());
    }
    let n: usize = src.len();
    let mut i: usize = 0;
    while i < n
        invariant
            i <= n,
            n == src@.len(),
            out@.to_multiset() == src@.take(i as int).to_multiset(),
            sorted_asc(out@),
        decreases n - i,
    {
        let x = src[i];
        let m: usize = out.len();
        let mut j: usize = 0;
        while j < m && out[j].p.0 <= x.p.0
            invariant
                j <= m,
                m == out@.len(),
                forall|t: int| 0 <= t < j ==> out@[t].p.0 <= x.p.0,
            decreases m - j,
        {
            j += 1;
        }
        let ghost before = out@;
        out.insert(j, x);
        proof {
            before.insert_ensures(j as int, x);
            lemma_to_multiset_insert(before, j as int, x);
            assert(src@.take(i + 1) =~= src@.take(i as int).push(x));
            assert(out@.to_multiset() == src@.take(i + 1).to_multiset());
            assert forall|a: int, b: int|
                0 <= a < b < out@.len() implies out@[a].p.0 <= out@[b].p.0 by {
                if a < j {
                    assert(out@[a] == before[a]);
                } else if a == j {
                    assert(out@[a] == x);
                } else {
                    assert(out@[a] == before[a - 1]);
                }
                if b < j {
                    assert(out@[b] == before[b]);
                } else if b == j {
                    assert(out@[b] == x);
                } else {
                    assert(out@[b] == before[b - 1]);
                    if (j as int) < before.len() && a >= j {
                        assert(before[j as int].p.0 > x.p.0);
                    }
                }
            }
        }
        i += 1;
    }
    proof {
        assert(src@.take(n as int) =~= src@);
    }
    out
}

fn sort_levels_desc(src: &Vec<Liq>) -> (r: Vec<Liq>)
    ensures
        r@.to_multiset() == src@.to_multiset(),
        sorted_desc(r@),
{
    let mut out: Vec<Liq> = Vec::new();
    proof {
        assert(src@.take(0) =~= Seq::<Liq>::empty());
        assert(out@.to_multiset() =~= src@.take(0).to_multiset());
    }
    let n: usize = src.len();
    let mut i: usize = 0;
    while i < n
        invariant
            i <= n,
            n == src@.len(),
            out@.to_multiset() == src@.take(i as int).to_multiset(),
            sorted_desc(out@),
        decreases n - i,
    {
        let x = src[i];
        let m: usize = out.len();
        let mut j: usize = 0;
        while j < m && out[j].p.0 >= x.p.0
            invariant
                j <= m,
                m == out@.len(),
                forall|t: int| 0 <= t < j ==> out@[t].p.0 >= x.p.0,
            decreases m - j,
        {
            j += 1;
        }
        let ghost before = out@;
        out.insert(j, x);
        proof {
            before.insert_ensures(j as int, x);
            lemma_to_multiset_insert(before, j as int, x);
            assert(src@.take(i + 1) =~= src@.take(i as int).push(x));
            assert(out@.to_multiset() == src@.take(i + 1).to_multiset());
            assert forall|a: int, b: int|
                0 <= a < b < out@.len() implies out@[a].p.0 >= out@[b].p.0 by {
                if a < j {
                    assert(out@[a] == before[a]);
                } else if a == j {
                    assert(out@[a] == x);
                } else {
                    assert(out@[a] == before[a - 1]);
                }
                if b < j {
                    assert(out@[b] == before[b]);
                } else if b == j {
                    assert(out@[b] == x);
                } else {
                    assert(out@[b] == before[b - 1]);
                    if (j as int) < before.len() && a >= j {
                        assert(before[j as int].p.0 < x.p.0);
                    }
                }
            }
        }
        i += 1;
    }
    proof {
        assert(src@.take(n as int) =~= src@);
    }
    out
}

/// The incremental per-symbol book state: at most one level per distinct
/// price and side, keyed by price.
pub struct DepthMap {
    asks: Vec<Liq>,
    bids: Vec<Liq>,
}

impl DepthMap {
    /// The stored ask levels, in storage order.
    pub closed spec fn asks_levels(self) -> Seq<Liq> {
        self.asks@
    }

    /// The stored bid levels, in storage order.
    pub closed spec fn bids_levels(self) -> Seq<Liq> {
        self.bids@
    }

    /// The ask side as a price-keyed map.
    pub open spec fn asks_map(self) -> Map<int, Liq> {
        seq_to_map(self.asks_levels())
    }

    /// The bid side as a price-keyed map.
    pub open spec fn bids_map(self) -> Map<int, Liq> {
        seq_to_map(self.bids_levels())
    }

    /// Each side holds at most one level per price.
    pub open spec fn wf(self) -> bool {
        distinct_prices(self.asks_levels()) && distinct_prices(self.bids_levels())
    }

    /// An empty book state.
    pub fn new() -> (r: DepthMap)
        ensures
            r.wf(),
            r.asks_levels() == Seq::<Liq>::empty(),
            r.bids_levels() == Seq::<Liq>::empty(),
    {
        DepthMap { asks: Vec::new(), bids: Vec::new() }
    }

    /// Swaps in a whole new book state.
    pub fn replace(&mut self, other: DepthMap)
        ensures
            *final(self) == other,
    {
        *self = other;
    }

    /// Builds the price-keyed form of a snapshot; on a duplicate price
    /// within a side the later level wins.
    pub(crate) fn build_from(d: &Depth) -> (m: DepthMap)
        ensures
            m.wf(),
            m.asks_map() == seq_to_map(d.asks@),
            m.bids_map() == seq_to_map(d.bids@),
    {
        DepthMap { asks: side_build(&d.asks), bids: side_build(&d.bids) }
    }

    /// Merges a delta: a level of `other` with amount 0 removes its price's
    /// key, any other level replaces whatever is stored at its price, and
    /// unmentioned prices keep their levels. Amounts are never summed.
    pub fn update(&mut self, other: &DepthMap)
        requires
            old(self).wf(),
            other.wf(),
        ensures
            final(self).wf(),
            final(self).asks_map() == spec_merge_maps(old(self).asks_map(), other.asks_map()),
            final(self).bids_map() == spec_merge_maps(old(self).bids_map(), other.bids_map()),
    {
        proof {
            lemma_apply_delta_is_merge(old(self).asks_map(), other.asks_levels());
            lemma_apply_delta_is_merge(old(self).bids_map(), other.bids_levels());
        }
        side_apply(&mut self.asks, &other.asks);
        side_apply(&mut self.bids, &other.bids);
    }

    /// The stored ask level at a price, if any.
    pub fn get_ask(&self, p: Price) -> (r: Option<Liq>)
        requires
            self.wf(),
        ensures
            match r {
                Some(l) => self.asks_map().contains_key(p.0 as int) && l == self.asks_map()[p.0
                    as int],
                None => !self.asks_map().contains_key(p.0 as int),
            },
    {
        let found = side_find(&self.asks, p);
        match found {
            Some(i) => {
                proof {
                    lemma_seq_to_map_at(self.asks@, i as int);
                }
                Some(self.asks[i])
            },
            None => {
                proof {
                    lemma_seq_to_map_contains(self.asks@, p.0 as int);
                }
                None
            },
        }
    }

    /// The stored bid level at a price, if any.
    pub fn get_bid(&self, p: Price) -> (r: Option<Liq>)
        requires
            self.wf(),
        ensures
            match r {
                Some(l) => self.bids_map().contains_key(p.0 as int) && l == self.bids_map()[p.0
                    as int],
                None => !self.bids_map().contains_key(p.0 as int),
            },
    {
        let found = side_find(&self.bids, p);
        match found {
            Some(i) => {
                proof {
                    lemma_seq_to_map_at(self.bids@, i as int);
                }
                Some(self.bids[i])
            },
            None => {
                proof {
                    lemma_seq_to_map_contains(self.bids@, p.0 as int);
                }
                None
            },
        }
    }

    /// The ordered form of this book state: exactly the stored levels, asks
    /// sorted ascending and bids sorted descending by price. This is the one
    /// place the ordering is enforced.
    pub fn to_depth(&self) -> (r: Depth)
        requires
            self.wf(),
        ensures
            r.asks@.to_multiset() == self.asks_levels().to_multiset(),
            r.bids@.to_multiset() == self.bids_levels().to_multiset(),
            sorted_asc(r.asks@),
            sorted_desc(r.bids@),
            distinct_prices(r.asks@),
            distinct_prices(r.bids@),
            seq_to_map(r.asks@) == self.asks_map(),
            seq_to_map(r.bids@) == self.bids_map(),
    {
        let r = Depth { asks: sort_levels_asc(&self.asks), bids: sort_levels_desc(&self.bids) };
        proof {
            lemma_multiset_distinct_prices(self.asks@, r.asks@);
            lemma_multiset_distinct_prices(self.bids@, r.bids@);
            lemma_same_levels_same_map(self.asks@, r.asks@);
            lemma_same_levels_same_map(self.bids@, r.bids@);
        }
        r
    }

    /// As [`DepthMap::to_depth`], consuming the book state.
    pub fn into_depth(self) -> (r: Depth)
        requires
            self.wf(),
        ensures
            r.asks@.to_multiset() == self.asks_levels().to_multiset(),
            r.bids@.to_multiset() == self.bids_levels().to_multiset(),
            sorted_asc(r.asks@),
            sorted_desc(r.bids@),
            distinct_prices(r.asks@),
            distinct_prices(r.bids@),
            seq_to_map(r.asks@) == self.asks_map(),
            seq_to_map(r.bids@) == self.bids_map(),
    {
        self.to_depth()
    }
}

} // verus!
