use vstd::prelude::*;

use crate::amount::Amount;
use crate::depthmap::{seq_to_map, DepthMap};
use crate::liq::{spec_liq, Liq};
use crate::price::Price;

verus! {

/// Depth (order book): one full snapshot of a side pair. Asks are meant to
/// ascend and bids to descend by price, but the order is the caller's to
/// supply; only conversion out of a [`DepthMap`] enforces it.
pub struct Depth {
    pub asks: Vec<Liq>,
    pub bids: Vec<Liq>,
}

impl Depth {
    /// An empty snapshot.
    pub fn new() -> (r: Depth)
        ensures
            r.asks@ == Seq::<Liq>::empty(),
            r.bids@ == Seq::<Liq>::empty(),
    {
        Depth { asks: Vec::new(), bids: Vec::new() }
    }

    /// Swaps in a whole new snapshot.
    pub fn replace(&mut self, other: Depth)
        ensures
            *final(self) == other,
    {
        *self = other;
    }

    /// Builds the price-keyed form of this snapshot; on a duplicate price
    /// within a side the later level wins.
    pub fn into_depthmap(self) -> (m: DepthMap)
        ensures
            m.wf(),
            m.asks_map() == seq_to_map(self.asks@),
            m.bids_map() == seq_to_map(self.bids@),
    {
        DepthMap::build_from(&self)
    }

    /// Builds a snapshot from raw price/amount rows, one level per row; the
    /// worth of each level is derived from its row.
    pub fn from_pairs(aa: &Vec<(Price, Amount)>, bb: &Vec<(Price, Amount)>) -> (r: Depth)
        ensures
            r.asks@.len() == aa@.len(),
            r.bids@.len() == bb@.len(),
            forall|i: int|
                0 <= i < aa@.len() ==> r.asks@[i] == spec_liq(
                    aa@[i].0.0 as int,
                    aa@[i].1.0 as int,
                ),
            forall|i: int|
                0 <= i < bb@.len() ==> r.bids@[i] == spec_liq(
                    bb@[i].0.0 as int,
                    bb@[i].1.0 as int,
                ),
    {
        Depth { asks: rows_to_levels(aa), bids: rows_to_levels(bb) }
    }
}

fn rows_to_levels(rows: &Vec<(Price, Amount)>) -> (r: Vec<Liq>)
    ensures
        r@.len() == rows@.len(),
        forall|i: int|
            0 <= i < rows@.len() ==> r@[i] == spec_liq(rows@[i].0.0 as int, rows@[i].1.0 as int),
{
    let mut out: Vec<Liq> = Vec::new();
    let n: usize = rows.len();
    let mut i: usize = 0;
    while i < n
        invariant
            i <= n,
            n == rows@.len(),
            out@.len() == i,
            forall|j: int|
                0 <= j < i ==> out@[j] == spec_liq(rows@[j].0.0 as int, rows@[j].1.0 as int),
        decreases n - i,
    {
        let (p, a) = rows[i];
        out.push(Liq::from_pa(p, a));
        i += 1;
    }
    out
}

} // verus!
