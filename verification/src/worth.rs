use vstd::prelude::*;

use crate::amount::Amount;
use crate::price::Price;
use crate::ratio::Ratio;

verus! {

/// Worth (notional cost) of a liquidity level: price times amount, held in
/// price units times amount units, so the product is exact.
#[derive(Clone, Copy, Debug, PartialEq, Eq, Structural)]
pub struct Worth(pub u128);

impl Worth {
    /// The worth of `a` base units offered at price `p`.
    pub fn from_pa(p: Price, a: Amount) -> (r: Worth)
        ensures
            r.0 == p.0 * a.0,
    {
        proof {
            assert((p.0 as u128) * (a.0 as u128) <= u128::MAX) by (nonlinear_arith)
                requires
                    p.0 <= u64::MAX && a.0 <= u64::MAX,
            ;
        }
        Worth((p.0 as u128) * (a.0 as u128))
    }

    /// Sum of two worths.
    pub fn add(self, rhs: Worth) -> (r: Worth)
        requires
            self.0 + rhs.0 <= u128::MAX,
        ensures
            r.0 == self.0 + rhs.0,
    {
        Worth(self.0 + rhs.0)
    }

    /// Difference of two worths.
    pub fn subtract(self, rhs: Worth) -> (r: Worth)
        requires
            rhs.0 <= self.0,
        ensures
            r.0 == self.0 - rhs.0,
    {
        Worth(self.0 - rhs.0)
    }

    /// Worth scaled by a plain factor.
    pub fn scale(self, k: u64) -> (r: Worth)
        requires
            self.0 * k <= u128::MAX,
        ensures
            r.0 == self.0 * k,
    {
        Worth(self.0 * (k as u128))
    }

    /// Worth divided by a plain nonzero factor, rounding down.
    pub fn divide(self, k: u64) -> (r: Worth)
        requires
            k > 0,
        ensures
            r.0 == self.0 / (k as u128),
    {
        Worth(self.0 / (k as u128))
    }

    /// Exact quotient of two worths, as a plain ratio.
    pub fn ratio_to(self, rhs: Worth) -> (r: Ratio)
        requires
            rhs.0 > 0,
        ensures
            r == (Ratio { num: self.0, den: rhs.0 }),
    {
        Ratio { num: self.0, den: rhs.0 }
    }
}

} // verus!
