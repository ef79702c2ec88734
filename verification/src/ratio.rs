use vstd::prelude::*;

verus! {

/// A plain quotient of two quantities of the same kind, kept as an exact
/// numerator/denominator pair instead of a rounded number.
#[derive(Clone, Copy, Debug, PartialEq, Eq, Structural)]
pub struct Ratio {
    pub num: u128,
    pub den: u128,
}

} // verus!
