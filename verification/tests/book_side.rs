use melin::orderbook::book_side::{BookSide, RestingOrder};
use melin::types::{
    AccountId, OrderId, Price, Quantity, ReservationSlot, Side, TimeInForce,
};

fn p(v: u64) -> Price {
    Price(v)
}

fn order(id: u64, qty: u64, side: Side) -> RestingOrder {
    RestingOrder {
        id: OrderId(id),
        account: AccountId(1),
        remaining: Quantity(qty),
        time_in_force: TimeInForce::GTC,
        expiry_ns: 0,
        side,
        reservation: ReservationSlot::dummy(),
    }
}

fn three_level_side(side: Side) -> BookSide {
    let mut s = BookSide::new(side);
    for (id, price) in [(1, 100), (2, 90), (3, 110)] {
        s.add(p(price), order(id, 1, side));
    }
    s
}

fn assert_key_sorted(s: &BookSide) {
    let keys: Vec<u64> = s.levels().iter().map(|(price, _)| s.key(*price)).collect();
    assert!(keys.is_sorted(), "levels not sorted by side key: {keys:?}");
}

#[test]
fn best_level_lives_at_the_tail_on_both_sides() {
    let bids = three_level_side(Side::Buy);
    assert_key_sorted(&bids);
    assert_eq!(bids.best_price(), Some(p(110)));
    assert_eq!(bids.levels().last().map(|(price, _)| *price), Some(p(110)));

    let asks = three_level_side(Side::Sell);
    assert_key_sorted(&asks);
    assert_eq!(asks.best_price(), Some(p(90)));
    assert_eq!(asks.levels().last().map(|(price, _)| *price), Some(p(90)));
}

#[test]
fn best_price_advances_to_next_level_after_exhaustion() {
    let mut bids = three_level_side(Side::Buy);
    bids.pop_front_best().unwrap();
    assert_eq!(bids.best_price(), Some(p(100)));

    let mut asks = three_level_side(Side::Sell);
    asks.pop_front_best().unwrap();
    assert_eq!(asks.best_price(), Some(p(100)));
    assert_key_sorted(&asks);
}

#[test]
fn pop_front_best_drains_best_to_worst_fifo() {
    for side in [Side::Buy, Side::Sell] {
        let mut s = BookSide::new(side);
        let mut id = 0;
        for price in [90, 100, 110] {
            for _ in 0..2 {
                id += 1;
                s.add(p(price), order(id, 1, side));
            }
        }
        let expected_prices: Vec<u64> = match side {
            Side::Buy => vec![110, 110, 100, 100, 90, 90],
            Side::Sell => vec![90, 90, 100, 100, 110, 110],
        };
        let expected_ids: Vec<u64> = match side {
            Side::Buy => vec![5, 6, 3, 4, 1, 2],
            Side::Sell => vec![1, 2, 3, 4, 5, 6],
        };
        let mut popped_prices = Vec::new();
        let mut popped_ids = Vec::new();
        while let Some((price, _)) = s.best_front() {
            let (_, o) = s.pop_front_best().unwrap();
            popped_prices.push(price.get());
            popped_ids.push(o.id.0);
        }
        assert_eq!(popped_prices, expected_prices, "{side:?}");
        assert_eq!(popped_ids, expected_ids, "{side:?}");
        assert!(s.is_empty(), "{side:?}");
        assert_eq!(s.pop_front_best(), None, "{side:?}");
    }
}

#[test]
fn best_front_returns_oldest_order_at_best_level() {
    for side in [Side::Buy, Side::Sell] {
        let mut s = BookSide::new(side);
        s.add(p(100), order(1, 1, side));
        s.add(p(100), order(2, 1, side));
        let (price, front_idx) = s.best_front().unwrap();
        assert_eq!(price, p(100), "{side:?}");
        assert_eq!(s.node(front_idx).order.id, OrderId(1), "{side:?}");
    }
    assert_eq!(BookSide::new(Side::Buy).best_front(), None);
}

#[test]
fn search_fast_path_and_fallback_agree() {
    for side in [Side::Buy, Side::Sell] {
        let mut s = three_level_side(side);
        for probe in [80, 85, 95, 100, 105, 110, 115, 120] {
            s.add(p(probe), order(1000 + probe, 1, side));
        }
        assert_key_sorted(&s);
        let snapshot_prices: Vec<u64> = s
            .levels_snapshot()
            .into_iter()
            .map(|(price, _)| price.get())
            .collect();
        assert_eq!(
            snapshot_prices,
            vec![80, 85, 90, 95, 100, 105, 110, 115, 120],
            "{side:?}"
        );
    }
}

#[test]
fn at_or_better_polarity() {
    let bids = BookSide::new(Side::Buy);
    assert!(bids.at_or_better(p(110), p(100)));
    assert!(bids.at_or_better(p(100), p(100)));
    assert!(!bids.at_or_better(p(90), p(100)));

    let asks = BookSide::new(Side::Sell);
    assert!(asks.at_or_better(p(90), p(100)));
    assert!(asks.at_or_better(p(100), p(100)));
    assert!(!asks.at_or_better(p(110), p(100)));
}

#[test]
fn canonical_walks_are_ascending_by_price_on_both_sides() {
    for side in [Side::Buy, Side::Sell] {
        let s = three_level_side(side);

        let snapshot_prices: Vec<Price> = s
            .levels_snapshot()
            .into_iter()
            .map(|(price, _)| price)
            .collect();
        assert_eq!(snapshot_prices, vec![p(90), p(100), p(110)], "{side:?}");

        let walked: Vec<Price> = s.for_each_order().into_iter().map(|(price, _)| price).collect();
        assert_eq!(walked, vec![p(90), p(100), p(110)], "{side:?}");
    }
}

#[test]
fn from_levels_snapshot_round_trips_both_sides() {
    for side in [Side::Buy, Side::Sell] {
        let mut original = BookSide::new(side);
        let mut id = 0;
        for price in [90, 100, 110] {
            for _ in 0..2 {
                id += 1;
                original.add(p(price), order(id, id, side));
            }
        }

        let snapshot = original.levels_snapshot();
        let (restored, mapping) = BookSide::from_levels_snapshot(side, snapshot.clone());

        assert_key_sorted(&restored);
        assert_eq!(restored.levels_snapshot(), snapshot, "{side:?}");
        assert_eq!(restored.best_price(), original.best_price(), "{side:?}");

        assert_eq!(mapping.len(), 6, "{side:?}");
        for ((account, order_id), idx) in mapping {
            let node = restored.node(idx);
            assert_eq!((node.order.account, node.order.id), (account, order_id));
        }
    }
}

#[test]
fn available_quantity_stops_at_the_limit_on_both_sides() {
    let bids = three_level_side(Side::Buy);
    assert_eq!(bids.available_quantity(Some(p(100)), None), 2); // 110 + 100
    assert_eq!(bids.available_quantity(None, None), 3);

    let asks = three_level_side(Side::Sell);
    assert_eq!(asks.available_quantity(Some(p(100)), None), 2); // 90 + 100
    assert_eq!(asks.available_quantity(None, None), 3);
}

#[test]
fn removed_order_leaves_its_neighbours() {
    let mut s = BookSide::with_capacity(Side::Sell, 16);
    s.prefault();
    let _a = s.add(p(100), order(1, 5, Side::Sell));
    let b = s.add(p(100), order(2, 6, Side::Sell));
    let _c = s.add(p(100), order(3, 7, Side::Sell));
    assert_eq!(s.depth_at(p(100)), 18);
    assert_eq!(s.remove_node(p(100), b).unwrap().id, OrderId(2));
    assert_eq!(s.depth_at(p(100)), 12);
    assert!(s.remove_node(p(101), b).is_none());
    // The freed place is used again, behind the others.
    assert_eq!(s.add(p(100), order(4, 1, Side::Sell)), b);
    let ids: Vec<u64> = s.for_each_order().iter().map(|(_, o)| o.id.0).collect();
    assert_eq!(ids, vec![1, 3, 4]);
}

#[test]
fn orders_change_in_place() {
    let mut s = three_level_side(Side::Buy);
    s.for_each_order_mut(|_, mut o| {
        o.remaining = Quantity(9);
        o
    });
    assert_eq!(s.available_quantity(None, None), 27);
    let (_, idx) = s.best_front().unwrap();
    s.node_mut(idx).remaining = Quantity(1);
    assert_eq!(s.available_quantity(None, None), 19);
    assert_eq!(s.available_quantity(None, Some(AccountId(1))), 0);
}

/// Removing an order right after adding it restores the snapshot.
#[test]
fn removal_undoes_the_add() {
    for side in [Side::Buy, Side::Sell] {
        let mut s = three_level_side(side);
        for price in [100, 95] {
            let before = s.levels_snapshot();
            let idx = s.add(p(price), order(9, 4, side));
            assert_ne!(s.levels_snapshot(), before);
            assert_eq!(s.remove_node(p(price), idx), Some(order(9, 4, side)));
            assert_eq!(s.levels_snapshot(), before);
        }
    }
}

/// Levels that no side gave out are restored as they stand.
#[test]
fn restored_levels_come_out_again() {
    for (side, best) in [(Side::Buy, 30), (Side::Sell, 10)] {
        let levels = vec![
            (p(10), vec![order(1, 1, side), order(2, 2, side)]),
            (p(20), vec![order(3, 3, side)]),
            (p(30), vec![order(4, 4, side)]),
        ];
        let (s, mapping) = BookSide::from_levels_snapshot(side, levels.clone());
        assert_eq!(s.levels_snapshot(), levels);
        assert_eq!(s.best_price(), Some(p(best)));
        assert_eq!(mapping.len(), 4);
        for ((account, id), idx) in mapping {
            assert_eq!(s.node(idx).order.account, account);
            assert_eq!(s.node(idx).order.id, id);
        }
    }
}

/// An update sees the orders lowest price first on both sides.
#[test]
fn updates_walk_in_canonical_order() {
    for side in [Side::Buy, Side::Sell] {
        let mut s = three_level_side(side);
        s.add(p(100), order(4, 1, side));
        let seen = std::cell::RefCell::new(Vec::new());
        s.for_each_order_mut(|price, o| {
            seen.borrow_mut().push((price.0, o.id.0));
            o
        });
        assert_eq!(seen.into_inner(), [(90, 2), (100, 1), (100, 4), (110, 3)]);
    }
}

/// Places are reused last in, first out.
#[test]
fn places_are_reused_last_in_first_out() {
    let mut s = BookSide::new(Side::Buy);
    let idx: Vec<u32> = (0..4)
        .map(|i| s.add(p(100 + i), order(i, 1, Side::Buy)))
        .collect();
    assert_eq!(idx, [0, 1, 2, 3]);
    s.remove_node(p(101), 1).unwrap();
    assert_eq!(s.pop_front_best().unwrap().0, 3);
    s.remove_node(p(100), 0).unwrap();
    let again: Vec<u32> = (0..4)
        .map(|i| s.add(p(200 + i), order(i, 1, Side::Buy)))
        .collect();
    assert_eq!(again, [0, 3, 1, 4]);
}
