use vstd::prelude::*;

use crate::liq::Liq;
use crate::side::Side;

verus! {

/// Relies on chrono's Utc::now and DateTime::timestamp: the current wall
/// clock as whole seconds since the Unix epoch. The value depends on when
/// the call runs, so nothing is promised of it.
#[verifier::external_body]
fn now_unix_seconds() -> i64 {
    chrono::Utc::now().timestamp()
}

/// An order prepared for placement: the level to place, the side, and the
/// creation time in Unix seconds.
#[derive(Clone, Copy, Debug, PartialEq, Eq, Structural)]
pub struct OrderToPlace {
    pub liq: Liq,
    pub side: Side,
    pub ts: i64,
}

impl OrderToPlace {
    /// Builds an order stamped with the current wall-clock time; the
    /// timestamp's value is whatever the clock returned.
    pub fn new(liq: Liq, side: Side) -> (r: OrderToPlace)
        ensures
            r.liq == liq,
            r.side == side,
    {
        OrderToPlace { liq, side, ts: now_unix_seconds() }
    }
}

} // verus!
