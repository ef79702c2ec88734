//! The three depth algorithms. The worst-execution tests use whole units;
//! the aggregation tests use a tenth per unit (2.0 is 20, 0.9 is 9).

use market_depth::depth_util::{drop_worth, liqs_l2, worst_execution_price};
use market_depth::{Amount, Liq, Price, Worth};

fn ll() -> Vec<Liq> {
    vec![
        Liq::from_pa(Price(1), Amount(10)), // worth 10
        Liq::from_pa(Price(2), Amount(10)), // worth 20
    ]
}

#[test]
fn test_worst_execution_price_0() {
    let w = Worth(5);
    assert_eq!(worst_execution_price(&ll(), w), Some(Price(1)));
}

#[test]
fn test_worst_execution_price_1() {
    let w = Worth(10);
    assert_eq!(worst_execution_price(&ll(), w), Some(Price(1)));
}

#[test]
fn test_worst_execution_price_2() {
    let w = Worth(20);
    assert_eq!(worst_execution_price(&ll(), w), Some(Price(2)));
}

#[test]
fn test_worst_execution_price_3() {
    let w = Worth(30);
    assert_eq!(worst_execution_price(&ll(), w), Some(Price(2)));
}

#[test]
fn test_worst_execution_price_4() {
    let w = Worth(50);
    assert_eq!(worst_execution_price(&ll(), w), None);
}

#[test]
fn worst_execution_price_empty() {
    let empty: Vec<Liq> = Vec::new();
    assert_eq!(worst_execution_price(&empty, Worth(1)), None);
}

#[test]
fn test_l2_1() {
    let asks = vec![
        Liq::from_pa(Price(10), Amount(20)),
        Liq::from_pa(Price(10), Amount(9)),
    ];
    let asks_l2 = liqs_l2(&asks);
    assert_eq!(asks_l2[0].amount(), Amount(29))
}

#[test]
fn test_l2_2() {
    let asks = vec![
        Liq::from_pa(Price(10), Amount(20)),
        Liq::from_pa(Price(10), Amount(9)),
        Liq::from_pa(Price(20), Amount(10)),
    ];
    let asks_l2 = liqs_l2(&asks);
    assert_eq!(asks_l2[0].amount(), Amount(29));
    assert_eq!(asks_l2[1].price(), Price(20));
    assert_eq!(asks_l2[1].amount(), Amount(10));
    assert!(asks_l2.len() == 2);
}

#[test]
fn test_l2_3() {
    let asks = vec![
        Liq::from_pa(Price(10), Amount(20)),
        Liq::from_pa(Price(20), Amount(10)),
    ];
    let asks_l2 = liqs_l2(&asks);
    assert_eq!(asks_l2[0].amount(), Amount(20));
    assert_eq!(asks_l2[1].price(), Price(20));
    assert_eq!(asks_l2[1].amount(), Amount(10));
    assert!(asks_l2.len() == 2);
}

#[test]
fn test_l2_4() {
    let asks = vec![Liq::from_pa(Price(10), Amount(20))];
    let asks_l2 = liqs_l2(&asks);
    assert_eq!(asks_l2[0].price(), Price(10));
    assert_eq!(asks_l2[0].amount(), Amount(20));
    assert!(asks_l2.len() == 1);
}

#[test]
fn test_l2_5() {
    let asks: Vec<Liq> = Vec::new();
    let asks_l2 = liqs_l2(&asks);
    assert_eq!(asks_l2.is_empty(), true);
}

#[test]
fn l2_non_adjacent_equal_prices_stay_apart() {
    let asks = vec![
        Liq::from_pa(Price(10), Amount(20)),
        Liq::from_pa(Price(20), Amount(10)),
        Liq::from_pa(Price(10), Amount(30)),
    ];
    let asks_l2 = liqs_l2(&asks);
    assert_eq!(asks_l2.len(), 3);
    assert_eq!(asks_l2[0], Liq::from_pa(Price(10), Amount(20)));
    assert_eq!(asks_l2[1], Liq::from_pa(Price(20), Amount(10)));
    assert_eq!(asks_l2[2], Liq::from_pa(Price(10), Amount(30)));
}

#[test]
fn l2_recomputes_worth_of_merged_runs() {
    let asks = vec![
        Liq::from_pa(Price(10), Amount(20)),
        Liq::from_pa(Price(10), Amount(9)),
    ];
    let asks_l2 = liqs_l2(&asks);
    assert_eq!(asks_l2[0].worth(), Worth(290));
}

#[test]
fn drop_worth_subtracts_matching_levels() {
    let book = vec![
        Liq::from_pa(Price(1), Amount(10)), // worth 10
        Liq::from_pa(Price(2), Amount(10)), // worth 20
    ];
    let noise = vec![Liq::from_pa(Price(1), Amount(4))];
    // After subtraction the first level is (1, 6) with worth 6; a budget of
    // 5 cannot cover it, so both levels stay.
    let kept = drop_worth(&book, &noise, Worth(5));
    assert_eq!(kept.len(), 2);
    assert_eq!(kept[0], Liq::from_pa(Price(1), Amount(6)));
    assert_eq!(kept[1], Liq::from_pa(Price(2), Amount(10)));
}

#[test]
fn drop_worth_budget_covers_leading_levels() {
    let book = vec![
        Liq::from_pa(Price(1), Amount(10)),
        Liq::from_pa(Price(2), Amount(10)),
    ];
    let noise = vec![Liq::from_pa(Price(1), Amount(4))];
    // The subtracted first level has worth 6; a budget of 6 covers it fully
    // and stops at the second, which is kept whole.
    let kept = drop_worth(&book, &noise, Worth(6));
    assert_eq!(kept, vec![Liq::from_pa(Price(2), Amount(10))]);
}

#[test]
fn drop_worth_discards_emptied_levels() {
    let book = vec![
        Liq::from_pa(Price(1), Amount(10)),
        Liq::from_pa(Price(2), Amount(10)),
    ];
    let noise = vec![Liq::from_pa(Price(1), Amount(10))];
    let kept = drop_worth(&book, &noise, Worth(0));
    assert_eq!(kept, vec![Liq::from_pa(Price(2), Amount(10))]);
}

#[test]
fn drop_worth_ignores_oversized_drops() {
    let book = vec![Liq::from_pa(Price(1), Amount(3))];
    let noise = vec![Liq::from_pa(Price(1), Amount(4))];
    // The drop amount exceeds the level's, so nothing is subtracted.
    let kept = drop_worth(&book, &noise, Worth(0));
    assert_eq!(kept, vec![Liq::from_pa(Price(1), Amount(3))]);
}

#[test]
fn drop_worth_keeps_boundary_level_whole() {
    let book = vec![
        Liq::from_pa(Price(1), Amount(10)), // worth 10
        Liq::from_pa(Price(2), Amount(10)), // worth 20
    ];
    let none: Vec<Liq> = Vec::new();
    // A budget of 15 covers the first level and only part of the second;
    // the boundary level is kept at full size.
    let kept = drop_worth(&book, &none, Worth(15));
    assert_eq!(kept, vec![Liq::from_pa(Price(2), Amount(10))]);
}

#[test]
fn l2_merges_up_to_the_amount_limit() {
    let asks = vec![
        Liq::from_pa(Price(1), Amount(u64::MAX - 5)),
        Liq::from_pa(Price(1), Amount(5)),
    ];
    let merged = liqs_l2(&asks);
    assert_eq!(merged.len(), 1);
    assert_eq!(merged[0].amount(), Amount(u64::MAX));
}

#[test]
fn worst_execution_price_at_the_largest_level() {
    let book = vec![Liq::from_pa(Price(u64::MAX), Amount(u64::MAX))];
    assert_eq!(worst_execution_price(&book, Worth(u128::MAX)), None);
    assert_eq!(worst_execution_price(&book, Worth(1)), Some(Price(u64::MAX)));
}
