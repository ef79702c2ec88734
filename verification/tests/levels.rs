//! Value types and liquidity levels: one price unit is a tenth, one amount
//! unit is a tenth, so a worth unit is a hundredth.

use market_depth::{Amount, Liq, Price, Ratio, Worth};

#[test]
fn test_liq() {
    let p = Price(100);
    let a = Amount(5);
    let liq = Liq::from_pa(p, a);
    assert_eq!(liq.worth(), Worth(500));
}

#[test]
fn test_liq2() {
    let p = Price(100);
    let a = Amount(5);
    let liq = Liq::from_pa(p, a);
    assert_eq!(liq.worth(), Worth(500));
}

#[test]
fn test_show_liq() {
    let liq = Liq::from_pa(Price(100), Amount(5));
    println!("{:?}", liq);
    assert!(true);
}

#[test]
fn test_worth() {
    assert_eq!(Worth(5).0, 5);
}

#[test]
fn worth_from_pa_is_product() {
    let w = Worth::from_pa(Price(3), Amount(7));
    assert_eq!(w, Worth(21));
}

#[test]
fn liq_from_pw_divides_exactly() {
    let liq = Liq::from_pw(Price(4), Worth(20));
    assert_eq!(liq.price(), Price(4));
    assert_eq!(liq.amount(), Amount(5));
    assert_eq!(liq.worth(), Worth(20));
    assert_eq!(liq.price().0 as u128 * liq.amount().0 as u128, liq.worth().0);
}

#[test]
fn liq_from_pa_keeps_identity() {
    let liq = Liq::from_pa(Price(12), Amount(30));
    assert_eq!(liq.price().0 as u128 * liq.amount().0 as u128, liq.worth().0);
}

#[test]
fn amount_from_pw() {
    assert_eq!(Amount::from_pw(Price(10), Worth(30)), Amount(3));
}

#[test]
fn scalar_arithmetic() {
    assert_eq!(Price(3).add(Price(4)), Price(7));
    assert_eq!(Price(9).subtract(Price(4)), Price(5));
    assert_eq!(Amount(6).scale(7), Amount(42));
    assert_eq!(Worth(40).divide(8), Worth(5));
    assert_eq!(Worth(10).ratio_to(Worth(40)), Ratio { num: 10, den: 40 });
}

#[test]
fn amount_from_pw_at_the_limit() {
    assert_eq!(
        Amount::from_pw(Price(1), Worth(u64::MAX as u128)),
        Amount(u64::MAX)
    );
}
