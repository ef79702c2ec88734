use vstd::prelude::*;
use vstd::string::{StrSliceExecFns, StringExecFns};

use crate::text::{char_index, count_char, lemma_count_char_one};
use crate::{Currency, Exchange};

verus! {

/// The uppercase form of a text, a function of the characters alone.
pub uninterp spec fn uppercase_of(s: Seq<char>) -> Seq<char>;

/// Relies on str::to_uppercase: returns the Unicode uppercase equivalent of
/// the text, which depends on the characters alone.
#[verifier::external_body]
fn to_upper(s: &str) -> (r: String)
    ensures
        r@ == uppercase_of(s@),
{
    s.to_uppercase()
}

/// Symbol: a traded pair together with the exchange it trades on, kept as
/// opaque validated text identifiers. The currency parts are uppercased.
#[derive(Debug)]
pub struct Symbol {
    pub eg: Exchange,
    pub bs: Currency,
    pub qt: Currency,
}

/// Failure of reading a symbol from text: the text, carried back to the
/// caller.
#[derive(Debug)]
pub enum SymbolError {
    BadSymbol(String),
}

/// Whether a pair text splits on exactly one `/`.
pub open spec fn spec_pair_ok(s: Seq<char>) -> bool {
    count_char(s, '/') == 1
}

/// Whether a full symbol text splits on exactly one `:` and its pair part on
/// exactly one `/`.
pub open spec fn spec_symbol_ok(s: Seq<char>) -> bool {
    count_char(s, ':') == 1 && spec_pair_ok(s.skip(char_index(s, ':') + 1))
}

impl Symbol {
    /// Builds a symbol from its three parts, uppercasing the currencies.
    pub fn new(eg: Exchange, cb: Currency, cq: Currency) -> (r: Symbol)
        ensures
            r.eg == eg,
            r.bs@ == uppercase_of(cb@),
            r.qt@ == uppercase_of(cq@),
    {
        let bs = to_upper(cb.as_str());
        let qt = to_upper(cq.as_str());
        Symbol { eg, bs, qt }
    }

    /// Parses the pair part: `BASE/QUOTE` with exactly one `/`; any other
    /// text is a `BadSymbol` failure carrying the text.
    pub fn try_from_exchange_text(eg: Exchange, text: &str) -> (r: Result<Symbol, SymbolError>)
        ensures
            r is Ok <==> spec_pair_ok(text@),
            r is Ok ==> ({
                let j = char_index(text@, '/');
                &&& r->Ok_0.eg == eg
                &&& r->Ok_0.bs@ == uppercase_of(text@.take(j))
                &&& r->Ok_0.qt@ == uppercase_of(text@.skip(j + 1))
            }),
            r is Err ==> (r->Err_0 matches SymbolError::BadSymbol(t) && t@ == text@),
    {
        let found = crate::text::find_single(text, '/');
        match found {
            Some(j) => {
                proof {
                    lemma_count_char_one(text@, '/');
                    assert(char_index(text@, '/') == j);
                    assert(text@.subrange(0, j as int) =~= text@.take(j as int));
                    assert(text@.subrange(j + 1, text@.len() as int) =~= text@.skip(j + 1));
                }
                let n = text.unicode_len();
                let cb = text.substring_char(0, j);
                let cq = text.substring_char(j + 1, n);
                Ok(Symbol::new(eg, cb.to_owned(), cq.to_owned()))
            },
            None => Err(SymbolError::BadSymbol(text.to_owned())),
        }
    }

    /// Parses a full symbol text: `EXCHANGE:BASE/QUOTE`, with exactly one
    /// `:` and, after it, exactly one `/`; any other text is a `BadSymbol`
    /// failure carrying the text.
    pub fn try_from_text(text: &str) -> (r: Result<Symbol, SymbolError>)
        ensures
            r is Ok <==> spec_symbol_ok(text@),
            r is Ok ==> ({
                let i = char_index(text@, ':');
                let rest = text@.skip(i + 1);
                let j = char_index(rest, '/');
                &&& r->Ok_0.eg@ == text@.take(i)
                &&& r->Ok_0.bs@ == uppercase_of(rest.take(j))
                &&& r->Ok_0.qt@ == uppercase_of(rest.skip(j + 1))
            }),
            r is Err ==> (r->Err_0 matches SymbolError::BadSymbol(t) && t@ == text@),
    {
        let found = crate::text::find_single(text, ':');
        match found {
            Some(i) => {
                proof {
                    lemma_count_char_one(text@, ':');
                    assert(char_index(text@, ':') == i);
                    assert(text@.subrange(0, i as int) =~= text@.take(i as int));
                    assert(text@.subrange(i + 1, text@.len() as int) =~= text@.skip(i + 1));
                }
                let n = text.unicode_len();
                let eg = text.substring_char(0, i);
                let rest = text.substring_char(i + 1, n);
                let inner = Symbol::try_from_exchange_text(eg.to_owned(), rest);
                match inner {
                    Ok(sym) => Ok(sym),
                    Err(_discarded) => Err(SymbolError::BadSymbol(text.to_owned())),
                }
            },
            None => Err(SymbolError::BadSymbol(text.to_owned())),
        }
    }

    /// The text form of the symbol: `EXCHANGE:BASE/QUOTE`.
    pub fn to_text(&self) -> (r: String)
        ensures
            r@ == self.eg@ + seq![':'] + self.bs@ + seq!['/'] + self.qt@,
    {
        proof {
            reveal_strlit(":");
            reveal_strlit("/");
            assert(":"@ =~= seq![':']);
            assert("/"@ =~= seq!['/']);
        }
        let mut out = self.eg.clone();
        out.append(":");
        out.append(self.bs.as_str());
        out.append("/");
        out.append(self.qt.as_str());
        out
    }
}

} // verus!
