use vstd::prelude::*;

use crate::liq::Liq;
use crate::side::Side;
use crate::symbol::Symbol;

verus! {

/// An executed trade: its identifier, the symbol it traded on, the level it
/// filled, the side, and the exchange's timestamp in Unix seconds.
#[derive(Debug)]
pub struct Trade {
    pub id: String,
    pub symbol: Symbol,
    pub liq: Liq,
    pub side: Side,
    pub ts: i64,
}

} // verus!
