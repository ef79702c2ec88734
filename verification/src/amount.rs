use vstd::arithmetic::div_mod::lemma_fundamental_div_mod;
use vstd::prelude::*;

use crate::price::Price;
use crate::ratio::Ratio;
use crate::worth::Worth;

verus! {

/// Amount (quantity) of the base currency, held as a whole number of amount
/// units. An amount of exactly 0 means "no liquidity" at the level.
#[derive(Clone, Copy, Debug, PartialEq, Eq, Structural)]
pub struct Amount(pub u64);

impl Amount {
    /// The amount bought by spending worth `w` at price `p`. Defined when the
    /// worth is an exact multiple of the price and the quotient is
    /// representable, so that `p * result == w` holds exactly.
    pub fn from_pw(p: Price, w: Worth) -> (r: Amount)
        requires
            p.0 > 0,
            w.0 % (p.0 as u128) == 0,
            w.0 / (p.0 as u128) <= u64::MAX,
        ensures
            r.0 == w.0 / (p.0 as u128),
            p.0 * r.0 == w.0,
    {
        proof {
            lemma_fundamental_div_mod(w.0 as int, p.0 as int);
        }
        Amount((w.0 / (p.0 as u128)) as u64)
    }

    /// Sum of two amounts.
    pub fn add(self, rhs: Amount) -> (r: Amount)
        requires
            self.0 + rhs.0 <= u64::MAX,
        ensures
            r.0 == self.0 + rhs.0,
    {
        Amount(self.0 + rhs.0)
    }

    /// Difference of two amounts.
    pub fn subtract(self, rhs: Amount) -> (r: Amount)
        requires
            rhs.0 <= self.0,
        ensures
            r.0 == self.0 - rhs.0,
    {
        Amount(self.0 - rhs.0)
    }

    /// Amount scaled by a plain factor.
    pub fn scale(self, k: u64) -> (r: Amount)
        requires
            self.0 * k <= u64::MAX,
        ensures
            r.0 == self.0 * k,
    {
        Amount(self.0 * k)
    }

    /// Amount divided by a plain nonzero factor, rounding down.
    pub fn divide(self, k: u64) -> (r: Amount)
        requires
            k > 0,
        ensures
            r.0 == self.0 / k,
    {
        Amount(self.0 / k)
    }

    /// Exact quotient of two amounts, as a plain ratio.
    pub fn ratio_to(self, rhs: Amount) -> (r: Ratio)
        requires
            rhs.0 > 0,
        ensures
            r == (Ratio { num: self.0 as u128, den: rhs.0 as u128 }),
    {
        Ratio { num: self.0 as u128, den: rhs.0 as u128 }
    }
}

} // verus!
