use vstd::prelude::*;

use crate::ratio::Ratio;

verus! {

/// Price (exchange rate) of the base currency, in quote units per base unit,
/// held as a whole number of price units. Prices key the per-side maps, so
/// equality is exact equality of the stored value.
#[derive(Clone, Copy, Debug, PartialEq, Eq, Structural, Hash)]
pub struct Price(pub u64);

impl Price {
    /// Sum of two prices.
    pub fn add(self, rhs: Price) -> (r: Price)
        requires
            self.0 + rhs.0 <= u64::MAX,
        ensures
            r.0 == self.0 + rhs.0,
    {
        Price(self.0 + rhs.0)
    }

    /// Difference of two prices.
    pub fn subtract(self, rhs: Price) -> (r: Price)
        requires
            rhs.0 <= self.0,
        ensures
            r.0 == self.0 - rhs.0,
    {
        Price(self.0 - rhs.0)
    }

    /// Price scaled by a plain factor.
    pub fn scale(self, k: u64) -> (r: Price)
        requires
            self.0 * k <= u64::MAX,
        ensures
            r.0 == self.0 * k,
    {
        Price(self.0 * k)
    }

    /// Price divided by a plain nonzero factor, rounding down.
    pub fn divide(self, k: u64) -> (r: Price)
        requires
            k > 0,
        ensures
            r.0 == self.0 / k,
    {
        Price(self.0 / k)
    }

    /// Exact quotient of two prices, as a plain ratio.
    pub fn ratio_to(self, rhs: Price) -> (r: Ratio)
        requires
            rhs.0 > 0,
        ensures
            r == (Ratio { num: self.0 as u128, den: rhs.0 as u128 }),
    {
        Ratio { num: self.0 as u128, den: rhs.0 as u128 }
    }
}

} // verus!
