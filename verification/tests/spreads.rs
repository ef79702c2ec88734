//! Spread derivation and the order records.

use market_depth::{
    Amount, Depth, Liq, OrderToPlace, Price, Ratio, Side, Spread, SpreadError, Worth,
};

#[test]
fn spread_of_ask_10_bid_9() {
    let s = Spread::new(
        Liq::from_pa(Price(10), Amount(1)),
        Liq::from_pa(Price(9), Amount(1)),
    );
    assert_eq!(s.delta_abs(), Price(1));
    // Relative delta: 1 / mid 9.5, kept exact as 2 / 19.
    assert_eq!(s.delta_rel(), Ratio { num: 2, den: 19 });
    let rel = s.delta_rel();
    let approx = rel.num as f64 / rel.den as f64;
    assert!((approx - 0.10526315789473684).abs() < 1e-15);
}

#[test]
fn spread_from_depth_takes_best_levels() {
    let mut d = Depth::new();
    d.asks = vec![
        Liq::from_pa(Price(10), Amount(1)),
        Liq::from_pa(Price(11), Amount(2)),
    ];
    d.bids = vec![
        Liq::from_pa(Price(9), Amount(1)),
        Liq::from_pa(Price(8), Amount(2)),
    ];
    let s = Spread::from_depth(&d).unwrap();
    assert_eq!(s.best_ask, Liq::from_pa(Price(10), Amount(1)));
    assert_eq!(s.best_bid, Liq::from_pa(Price(9), Amount(1)));
    assert_eq!(s.delta_abs(), Price(1));
}

#[test]
fn spread_absent_on_empty_side() {
    let mut d = Depth::new();
    d.asks = vec![Liq::from_pa(Price(10), Amount(1))];
    assert!(Spread::from_depth(&d).is_none());
    let r = Spread::try_from_depth(&d);
    assert_eq!(r.unwrap_err(), SpreadError::EmptyDepth);
    let empty = Depth::new();
    assert!(Spread::from_depth(&empty).is_none());
}

#[test]
fn order_to_place_keeps_level_and_side() {
    let liq = Liq::from_pa(Price(10), Amount(20));
    let order = OrderToPlace::new(liq, Side::Sell);
    assert_eq!(order.liq, liq);
    assert_eq!(order.side, Side::Sell);
    assert_eq!(order.liq.worth(), Worth(200));
}
