use vstd::prelude::*;

use crate::liq::Liq;
use crate::side::Side;
use crate::symbol::Symbol;

verus! {

/// An order acknowledged by the exchange: its identifier, the symbol it was
/// placed on, the level, the side, and the exchange's timestamp in Unix
/// seconds.
#[derive(Debug)]
pub struct OrderPlaced {
    pub id: String,
    pub symbol: Symbol,
    pub liq: Liq,
    pub side: Side,
    pub ts: i64,
}

} // verus!
