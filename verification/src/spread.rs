use vstd::prelude::*;

use crate::depth::Depth;
use crate::liq::Liq;
use crate::price::Price;
use crate::ratio::Ratio;

verus! {

/// Spread of a depth: the best ask and bid levels with the gap between
/// them, absolute and relative to the mid price. Well suited to a depth
/// cleaned by the worth-dropping noise removal.
#[derive(Clone, Copy, Debug)]
pub struct Spread {
    pub best_ask: Liq,
    pub best_bid: Liq,
    pub delta_abs: Price,
    pub delta_rel: Ratio,
}

/// Failure of deriving a spread: one of the sides was empty.
#[derive(Clone, Copy, Debug, PartialEq, Eq, Structural)]
pub enum SpreadError {
    EmptyDepth,
}

impl Spread {
    /// The absolute gap: ask price minus bid price.
    pub open spec fn spec_delta_abs(self) -> Price {
        self.delta_abs
    }

    /// The relative gap: the absolute gap divided by the mid price
    /// `(ask + bid) / 2`, kept exact as the ratio `2 * gap / (ask + bid)`.
    pub open spec fn spec_delta_rel(self) -> Ratio {
        self.delta_rel
    }

    /// Builds the spread of a best ask/bid pair. The book must not be
    /// crossed (bid at most ask), and the mid price must not be zero.
    pub fn new(best_ask: Liq, best_bid: Liq) -> (r: Spread)
        requires
            best_bid.p.0 <= best_ask.p.0,
            best_ask.p.0 + best_bid.p.0 > 0,
        ensures
            r.best_ask == best_ask,
            r.best_bid == best_bid,
            r.spec_delta_abs() == Price((best_ask.p.0 - best_bid.p.0) as u64),
            r.spec_delta_rel() == (Ratio {
                num: (2 * (best_ask.p.0 - best_bid.p.0)) as u128,
                den: (best_ask.p.0 + best_bid.p.0) as u128,
            }),
    {
        let gap: u64 = best_ask.p.0 - best_bid.p.0;
        let delta_abs = Price(gap);
        let delta_rel = Ratio {
            num: 2 * (gap as u128),
            den: (best_ask.p.0 as u128) + (best_bid.p.0 as u128),
        };
        Spread { best_ask, best_bid, delta_abs, delta_rel }
    }

    /// The spread of a depth's best levels: nothing when either side is
    /// empty, else the spread of the two index-0 levels. The caller's
    /// pre-established order decides which levels are best; nothing is
    /// re-sorted here.
    pub fn from_depth(depth: &Depth) -> (r: Option<Spread>)
        requires
            depth.asks@.len() > 0 && depth.bids@.len() > 0 ==> depth.bids@[0].p.0
                <= depth.asks@[0].p.0 && depth.asks@[0].p.0 + depth.bids@[0].p.0 > 0,
        ensures
            r is Some <==> depth.asks@.len() > 0 && depth.bids@.len() > 0,
            r is Some ==> ({
                let s = r->Some_0;
                &&& s.best_ask == depth.asks@[0]
                &&& s.best_bid == depth.bids@[0]
                &&& s.spec_delta_abs() == Price(
                    (depth.asks@[0].p.0 - depth.bids@[0].p.0) as u64,
                )
                &&& s.spec_delta_rel() == (Ratio {
                    num: (2 * (depth.asks@[0].p.0 - depth.bids@[0].p.0)) as u128,
                    den: (depth.asks@[0].p.0 + depth.bids@[0].p.0) as u128,
                })
            }),
    {
        if depth.asks.is_empty() || depth.bids.is_empty() {
            return None;
        }
        let best_ask = depth.asks[0];
        let best_bid = depth.bids[0];
        Some(Self::new(best_ask, best_bid))
    }

    /// As [`Spread::from_depth`], but an empty side is an explicit
    /// `EmptyDepth` failure.
    pub fn try_from_depth(depth: &Depth) -> (r: Result<Spread, SpreadError>)
        requires
            depth.asks@.len() > 0 && depth.bids@.len() > 0 ==> depth.bids@[0].p.0
                <= depth.asks@[0].p.0 && depth.asks@[0].p.0 + depth.bids@[0].p.0 > 0,
        ensures
            r is Ok <==> depth.asks@.len() > 0 && depth.bids@.len() > 0,
            r is Ok ==> ({
                let s = r->Ok_0;
                &&& s.best_ask == depth.asks@[0]
                &&& s.best_bid == depth.bids@[0]
                &&& s.spec_delta_abs() == Price(
                    (depth.asks@[0].p.0 - depth.bids@[0].p.0) as u64,
                )
                &&& s.spec_delta_rel() == (Ratio {
                    num: (2 * (depth.asks@[0].p.0 - depth.bids@[0].p.0)) as u128,
                    den: (depth.asks@[0].p.0 + depth.bids@[0].p.0) as u128,
                })
            }),
            r is Err ==> r->Err_0 == SpreadError::EmptyDepth,
    {
        match Self::from_depth(depth) {
            Some(s) => Ok(s),
            None => Err(SpreadError::EmptyDepth),
        }
    }

    /// The absolute gap between the best ask and bid prices.
    pub fn delta_abs(&self) -> (r: Price)
        ensures
            r == self.spec_delta_abs(),
    {
        self.delta_abs
    }

    /// The gap relative to the mid price, as an exact ratio.
    pub fn delta_rel(&self) -> (r: Ratio)
        ensures
            r == self.spec_delta_rel(),
    {
        self.delta_rel
    }
}

} // verus!
