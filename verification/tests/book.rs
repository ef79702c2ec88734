//! The dual-representation book: snapshots, price-keyed state, and the
//! registry.

use market_depth::{Amount, Depth, DepthMap, Depths, Liq, Price};

fn snapshot() -> Depth {
    let mut d = Depth::new();
    d.asks = vec![
        Liq::from_pa(Price(30), Amount(1)),
        Liq::from_pa(Price(10), Amount(2)),
        Liq::from_pa(Price(20), Amount(3)),
    ];
    d.bids = vec![
        Liq::from_pa(Price(5), Amount(4)),
        Liq::from_pa(Price(9), Amount(5)),
    ];
    d
}

#[test]
fn depthmap_update_zero_amount_removes() {
    let mut m = snapshot().into_depthmap();
    assert!(m.get_ask(Price(10)).is_some());
    let mut delta = Depth::new();
    delta.asks = vec![Liq::from_pa(Price(10), Amount(0))];
    let delta_map = delta.into_depthmap();
    m.update(&delta_map);
    assert!(m.get_ask(Price(10)).is_none());
    assert!(m.get_ask(Price(20)).is_some());
}

#[test]
fn depthmap_update_new_price_inserts() {
    let mut m = snapshot().into_depthmap();
    assert!(m.get_ask(Price(40)).is_none());
    let mut delta = Depth::new();
    delta.asks = vec![Liq::from_pa(Price(40), Amount(7))];
    m.update(&delta.into_depthmap());
    assert_eq!(m.get_ask(Price(40)), Some(Liq::from_pa(Price(40), Amount(7))));
}

#[test]
fn depthmap_update_existing_price_overwrites() {
    let mut m = snapshot().into_depthmap();
    let mut delta = Depth::new();
    delta.asks = vec![Liq::from_pa(Price(10), Amount(9))];
    m.update(&delta.into_depthmap());
    // The incoming level replaces the stored one; amounts are not summed.
    assert_eq!(m.get_ask(Price(10)), Some(Liq::from_pa(Price(10), Amount(9))));
}

#[test]
fn into_depth_sorts_asks_ascending_and_bids_descending() {
    let d = snapshot().into_depthmap().into_depth();
    assert_eq!(
        d.asks,
        vec![
            Liq::from_pa(Price(10), Amount(2)),
            Liq::from_pa(Price(20), Amount(3)),
            Liq::from_pa(Price(30), Amount(1)),
        ]
    );
    assert_eq!(
        d.bids,
        vec![
            Liq::from_pa(Price(9), Amount(5)),
            Liq::from_pa(Price(5), Amount(4)),
        ]
    );
}

#[test]
fn depth_from_pairs_builds_levels() {
    let d = Depth::from_pairs(
        &vec![(Price(10), Amount(2))],
        &vec![(Price(9), Amount(3)), (Price(8), Amount(1))],
    );
    assert_eq!(d.asks, vec![Liq::from_pa(Price(10), Amount(2))]);
    assert_eq!(d.bids.len(), 2);
}

#[test]
fn upsert_then_stored_map_reproduces_snapshot_levels() {
    let mut reg = Depths::new();
    reg.upsert("binance:BTC/USDT", snapshot());
    let stored = reg.map_of("binance:BTC/USDT").unwrap();
    let regenerated = stored.to_depth();
    // Same levels as the snapshot, re-ordered by the sort.
    let mut expected_asks = snapshot().asks;
    expected_asks.sort_by(|x, y| x.price().0.cmp(&y.price().0));
    let mut expected_bids = snapshot().bids;
    expected_bids.sort_by(|x, y| y.price().0.cmp(&x.price().0));
    assert_eq!(regenerated.asks, expected_asks);
    assert_eq!(regenerated.bids, expected_bids);
}

#[test]
fn upsert_replaces_stored_snapshot() {
    let mut reg = Depths::new();
    reg.upsert("k", snapshot());
    let mut second = Depth::new();
    second.asks = vec![Liq::from_pa(Price(7), Amount(1))];
    reg.upsert("k", second);
    let stored = reg.depth_of("k").unwrap();
    assert_eq!(stored.asks, vec![Liq::from_pa(Price(7), Amount(1))]);
    assert!(stored.bids.is_empty());
}

#[test]
fn registry_keeps_other_keys() {
    let mut reg = Depths::new();
    reg.upsert("a", snapshot());
    let mut other = Depth::new();
    other.asks = vec![Liq::from_pa(Price(7), Amount(1))];
    reg.upsert("b", other);
    assert_eq!(reg.depth_of("a").unwrap().asks.len(), 3);
    assert_eq!(reg.depth_of("b").unwrap().asks.len(), 1);
    assert!(reg.depth_of("c").is_none());
}

#[test]
fn update_cold_start_stores_delta_unsorted() {
    let mut reg = Depths::new();
    let mut delta = Depth::new();
    delta.asks = vec![
        Liq::from_pa(Price(30), Amount(1)),
        Liq::from_pa(Price(10), Amount(2)),
    ];
    reg.update("k", delta);
    // First-ever delta for the key: stored as the ordered depth verbatim,
    // without the sort normalization.
    let stored = reg.depth_of("k").unwrap();
    assert_eq!(stored.asks[0].price(), Price(30));
    assert_eq!(stored.asks[1].price(), Price(10));
}

#[test]
fn update_merges_and_regenerates_sorted() {
    let mut reg = Depths::new();
    reg.upsert("k", snapshot());
    let mut delta = Depth::new();
    delta.asks = vec![
        Liq::from_pa(Price(10), Amount(0)), // deletes the 10 level
        Liq::from_pa(Price(25), Amount(8)), // inserts a new level
        Liq::from_pa(Price(20), Amount(6)), // overwrites the 20 level
    ];
    reg.update("k", delta);
    let stored = reg.depth_of("k").unwrap();
    assert_eq!(
        stored.asks,
        vec![
            Liq::from_pa(Price(20), Amount(6)),
            Liq::from_pa(Price(25), Amount(8)),
            Liq::from_pa(Price(30), Amount(1)),
        ]
    );
    let m = reg.map_of("k").unwrap();
    assert!(m.get_ask(Price(10)).is_none());
    assert_eq!(m.get_ask(Price(25)), Some(Liq::from_pa(Price(25), Amount(8))));
}

#[test]
fn into_depthmap_last_write_wins_on_duplicate_prices() {
    let mut d = Depth::new();
    d.asks = vec![
        Liq::from_pa(Price(10), Amount(2)),
        Liq::from_pa(Price(10), Amount(5)),
    ];
    let m = d.into_depthmap();
    assert_eq!(m.get_ask(Price(10)), Some(Liq::from_pa(Price(10), Amount(5))));
}

#[test]
fn depthmap_replace_swaps_whole_state() {
    let mut m = DepthMap::new();
    assert!(m.get_ask(Price(10)).is_none());
    m.replace(snapshot().into_depthmap());
    assert!(m.get_ask(Price(10)).is_some());
}
