//! Side and symbol text handling.

use market_depth::{Side, SideError, Symbol, SymbolError};

#[test]
fn side_text_round_trip() {
    for side in [Side::Buy, Side::Sell] {
        let text = side.to_text();
        assert_eq!(Side::from_text_strict(text.as_str()), Some(side));
        assert_eq!(Side::try_from_str(text.as_str()).unwrap(), side);
    }
    assert_eq!(Side::Buy.to_text(), "buy");
    assert_eq!(Side::Sell.to_text(), "sell");
}

#[test]
fn side_strict_accepts_aliases_only() {
    assert_eq!(Side::from_text_strict("Buy"), Some(Side::Buy));
    assert_eq!(Side::from_text_strict("Sell"), Some(Side::Sell));
    assert_eq!(Side::from_text_strict("BUY"), None);
    assert_eq!(Side::from_text_strict("bid"), None);
    assert_eq!(Side::from_text_strict("WTF"), None);
}

#[test]
fn side_permissive_parser_accepts_bid_ask_and_mixed_case() {
    assert_eq!(Side::try_from_str("bid").unwrap(), Side::Buy);
    assert_eq!(Side::try_from_str("BID").unwrap(), Side::Buy);
    assert_eq!(Side::try_from_str("Ask").unwrap(), Side::Sell);
    assert_eq!(Side::try_from_str("SeLl").unwrap(), Side::Sell);
    assert_eq!(Side::try_from_str("BUY").unwrap(), Side::Buy);
}

#[test]
fn side_parser_rejects_unknown_text() {
    let r = Side::try_from_str("WTF");
    assert!(matches!(r, Err(SideError::BadSide(t)) if t == "WTF"));
}

#[test]
fn side_predicates_and_invert() {
    assert!(Side::Buy.is_buy());
    assert!(!Side::Buy.is_sell());
    assert!(Side::Sell.is_sell());
    assert_eq!(Side::Buy.invert(), Side::Sell);
    assert_eq!(Side::Sell.invert(), Side::Buy);
    assert_eq!(Side::Buy.invert().invert(), Side::Buy);
}

#[test]
fn symbol_new_uppercases_currencies() {
    let s = Symbol::new("binance".to_string(), "btc".to_string(), "usdt".to_string());
    assert_eq!(s.eg, "binance");
    assert_eq!(s.bs, "BTC");
    assert_eq!(s.qt, "USDT");
}

#[test]
fn symbol_parses_full_text() {
    let s = Symbol::try_from_text("binance:btc/usdt").unwrap();
    assert_eq!(s.eg, "binance");
    assert_eq!(s.bs, "BTC");
    assert_eq!(s.qt, "USDT");
    assert_eq!(s.to_text(), "binance:BTC/USDT");
}

#[test]
fn symbol_parses_pair_with_exchange() {
    let s = Symbol::try_from_exchange_text("kraken".to_string(), "eth/eur").unwrap();
    assert_eq!(s.eg, "kraken");
    assert_eq!(s.bs, "ETH");
    assert_eq!(s.qt, "EUR");
}

#[test]
fn symbol_rejects_malformed_text() {
    let r = Symbol::try_from_text("nocolon");
    assert!(matches!(r, Err(SymbolError::BadSymbol(t)) if t == "nocolon"));
    let r = Symbol::try_from_text("a:b:c/d");
    assert!(matches!(r, Err(SymbolError::BadSymbol(_))));
    let r = Symbol::try_from_text("binance:noslash");
    assert!(matches!(r, Err(SymbolError::BadSymbol(_))));
    let r = Symbol::try_from_exchange_text("e".to_string(), "a/b/c");
    assert!(matches!(r, Err(SymbolError::BadSymbol(_))));
}
