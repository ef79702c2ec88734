use vstd::prelude::*;
use vstd::string::StringExecFns;

use crate::text::{eq_ignore_ascii_case, matches_ci, str_eq};

verus! {

/// Side of an order or trade: buying or selling the base currency.
#[derive(Clone, Copy, Debug, PartialEq, Eq, Structural)]
pub enum Side {
    Buy,
    Sell,
}

/// Failure of reading a side from text: the text, carried back to the
/// caller.
#[derive(Debug)]
pub enum SideError {
    BadSide(String),
}

/// The text encoding of a side: `"buy"` or `"sell"`.
pub open spec fn spec_side_text(side: Side) -> Seq<char> {
    match side {
        Side::Buy => "buy"@,
        Side::Sell => "sell"@,
    }
}

/// What the strict decoder accepts: exactly `"buy"`/`"sell"` and the
/// capitalised aliases `"Buy"`/`"Sell"`; anything else is rejected.
pub open spec fn spec_side_strict(s: Seq<char>) -> Option<Side> {
    if s == "buy"@ || s == "Buy"@ {
        Some(Side::Buy)
    } else if s == "sell"@ || s == "Sell"@ {
        Some(Side::Sell)
    } else {
        None
    }
}

/// What the permissive parser accepts: `"buy"`/`"bid"` and `"sell"`/`"ask"`,
/// each up to ASCII case; anything else is rejected.
pub open spec fn spec_side_parse(s: Seq<char>) -> Option<Side> {
    if matches_ci(s, "buy"@) || matches_ci(s, "bid"@) {
        Some(Side::Buy)
    } else if matches_ci(s, "sell"@) || matches_ci(s, "ask"@) {
        Some(Side::Sell)
    } else {
        None
    }
}

impl Side {
    /// Whether this is the buying side.
    pub fn is_buy(&self) -> (r: bool)
        ensures
            r == (*self is Buy),
    {
        matches!(*self, Side::Buy)
    }

    /// Whether this is the selling side.
    pub fn is_sell(&self) -> (r: bool)
        ensures
            r == (*self is Sell),
    {
        matches!(*self, Side::Sell)
    }

    /// The permissive text parser: accepts `buy`/`bid` as the buying side
    /// and `sell`/`ask` as the selling side, case-insensitively; any other
    /// text is a `BadSide` failure carrying the text.
    pub fn try_from_str(s: &str) -> (r: Result<Side, SideError>)
        ensures
            r is Ok <==> spec_side_parse(s@) is Some,
            r is Ok ==> r->Ok_0 == spec_side_parse(s@)->Some_0,
            r is Err ==> (r->Err_0 matches SideError::BadSide(t) && t@ == s@),
    {
        if eq_ignore_ascii_case(s, "buy") || eq_ignore_ascii_case(s, "bid") {
            Ok(Side::Buy)
        } else if eq_ignore_ascii_case(s, "sell") || eq_ignore_ascii_case(s, "ask") {
            Ok(Side::Sell)
        } else {
            Err(SideError::BadSide(s.to_owned()))
        }
    }

    /// The strict text decoder: accepts exactly `buy`/`sell` and the
    /// capitalised aliases `Buy`/`Sell`, and nothing else.
    pub fn from_text_strict(s: &str) -> (r: Option<Side>)
        ensures
            r == spec_side_strict(s@),
    {
        if str_eq(s, "buy") || str_eq(s, "Buy") {
            Some(Side::Buy)
        } else if str_eq(s, "sell") || str_eq(s, "Sell") {
            Some(Side::Sell)
        } else {
            None
        }
    }

    /// The text encoding of this side: `buy` or `sell`.
    pub fn to_text(&self) -> (r: String)
        ensures
            r@ == spec_side_text(*self),
    {
        match *self {
            Side::Buy => String::from_str("buy"),
            Side::Sell => String::from_str("sell"),
        }
    }

    /// The opposite side.
    pub fn invert(&self) -> (r: Side)
        ensures
            *self is Buy ==> r is Sell,
            *self is Sell ==> r is Buy,
    {
        match self {
            Side::Buy => Side::Sell,
            Side::Sell => Side::Buy,
        }
    }
}

/// A side's text encoding round-trips: the strict decoder and the permissive
/// parser both take `buy` back to the buying side and `sell` back to the
/// selling side.
pub proof fn lemma_side_text_round_trip(side: Side)
    ensures
        spec_side_strict(spec_side_text(side)) == Some(side),
        spec_side_parse(spec_side_text(side)) == Some(side),
{
    reveal_strlit("buy");
    reveal_strlit("Buy");
    reveal_strlit("sell");
    reveal_strlit("Sell");
    reveal_strlit("bid");
    reveal_strlit("ask");
    match side {
        Side::Buy => {
            assert(matches_ci("buy"@, "buy"@));
        },
        Side::Sell => {
            assert("sell"@.len() == 4);
            assert("buy"@.len() == 3);
            assert("Buy"@.len() == 3);
            assert("sell"@ != "buy"@);
            assert("sell"@ != "Buy"@);
            assert(!matches_ci("sell"@, "buy"@));
            assert(!matches_ci("sell"@, "bid"@));
            assert(matches_ci("sell"@, "sell"@));
        },
    }
}

} // verus!
