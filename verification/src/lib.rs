//! An order-book (market depth) model with verified liquidity algorithms.
//!
//! Prices and amounts are fixed-point quantities: each is a whole number of
//! units, with the unit's magnitude left to the caller's convention. A worth
//! is measured in price units times amount units, so that the defining
//! identity `worth == price * amount` is exact.

mod amount;
mod depth;
mod depthmap;
mod depths;
mod liq;
mod order_placed;
mod order_to_place;
mod price;
mod ratio;
mod side;
mod spread;
mod symbol;
mod text;
mod trade;
mod worth;

pub mod depth_util;

use vstd::prelude::*;

pub use amount::Amount;
pub use depth::Depth;
pub use depthmap::{
    distinct_prices, lemma_map_round_trip, lemma_multiset_distinct_prices,
    lemma_same_levels_same_map, seq_to_map, sorted_asc, sorted_desc, spec_merge_maps, DepthMap,
};
pub use depths::{lemma_upsert_round_trip, Depths};
pub use liq::{spec_liq, Liq};
pub use order_placed::OrderPlaced;
pub use order_to_place::OrderToPlace;
pub use price::Price;
pub use ratio::Ratio;
pub use spread::{Spread, SpreadError};
pub use symbol::{spec_pair_ok, spec_symbol_ok, uppercase_of, Symbol, SymbolError};
pub use side::{spec_side_parse, spec_side_strict, spec_side_text, lemma_side_text_round_trip, Side, SideError};
pub use trade::Trade;
pub use worth::Worth;

verus! {

/// An exchange name, an opaque text identifier.
pub type Exchange = String;

/// A currency code, an opaque text identifier; uppercased inside a Symbol.
pub type Currency = String;

} // verus!
