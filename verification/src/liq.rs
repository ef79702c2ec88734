use vstd::arithmetic::div_mod::lemma_fundamental_div_mod;
use vstd::prelude::*;

use crate::amount::Amount;
use crate::price::Price;
use crate::worth::Worth;

verus! {

/// Liq (liquidity level): one price point of an order book side, together
/// with the amount offered there and the derived worth. A depth (order book
/// side) is a sequence of these.
#[derive(Clone, Copy, Debug, PartialEq, Eq, Structural)]
pub struct Liq {
    pub p: Price,
    pub a: Amount,
    pub w: Worth,
}

/// The level with price `p` and amount `a`, its worth derived as `p * a`.
pub open spec fn spec_liq(p: int, a: int) -> Liq {
    Liq { p: Price(p as u64), a: Amount(a as u64), w: Worth((p * a) as u128) }
}

impl Liq {
    /// The defining identity of a level: its worth is its price times its
    /// amount. Every constructor establishes it.
    pub open spec fn wf(self) -> bool {
        self.w.0 == self.p.0 * self.a.0
    }

    /// Build a level from price and amount; the worth is derived.
    pub fn from_pa(p: Price, a: Amount) -> (r: Liq)
        ensures
            r == spec_liq(p.0 as int, a.0 as int),
            r.wf(),
    {
        Liq { p, a, w: Worth::from_pa(p, a) }
    }

    /// Build a level from price and worth; the amount is derived. Defined
    /// when the worth is an exact multiple of the price and the derived
    /// amount is representable.
    pub fn from_pw(p: Price, w: Worth) -> (r: Liq)
        requires
            p.0 > 0,
            w.0 % (p.0 as u128) == 0,
            w.0 / (p.0 as u128) <= u64::MAX,
        ensures
            r.p == p,
            r.w == w,
            r.a.0 == w.0 / (p.0 as u128),
            r.wf(),
    {
        proof {
            lemma_fundamental_div_mod(w.0 as int, p.0 as int);
        }
        Liq { p, a: Amount::from_pw(p, w), w }
    }

    /// The level's price.
    pub fn price(&self) -> (r: Price)
        ensures
            r == self.p,
    {
        self.p
    }

    /// The level's amount.
    pub fn amount(&self) -> (r: Amount)
        ensures
            r == self.a,
    {
        self.a
    }

    /// The level's worth.
    pub fn worth(&self) -> (r: Worth)
        ensures
            r == self.w,
    {
        self.w
    }
}

} // verus!
