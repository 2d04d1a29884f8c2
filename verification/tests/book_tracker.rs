use melin::bench::calibration::book::{BookTracker, TrackerError};
use melin::bench::calibration::itch::ItchEvent;
use melin::bench::calibration::walk::{Walk, PEAK_SAMPLE_EVERY};
use melin::types::Side;

#[test]
fn add_then_bbo() {
    let mut t = BookTracker::new();
    t.add(1, 7, Side::Buy, 10_000, 100).unwrap();
    t.add(2, 7, Side::Buy, 10_050, 50).unwrap();
    t.add(3, 7, Side::Sell, 10_100, 80).unwrap();
    t.add(4, 7, Side::Sell, 10_150, 30).unwrap();
    assert_eq!(t.best_bid(7), Some(10_050));
    assert_eq!(t.best_ask(7), Some(10_100));
    assert_eq!(t.live_order_count(), 4);
}

#[test]
fn delete_updates_bbo_when_top_disappears() {
    let mut t = BookTracker::new();
    t.add(1, 1, Side::Buy, 10_000, 100).unwrap();
    t.add(2, 1, Side::Buy, 10_050, 100).unwrap();
    assert_eq!(t.best_bid(1), Some(10_050));
    let prior = t.delete(2).unwrap();
    assert_eq!(prior.price, 10_050);
    assert_eq!(t.best_bid(1), Some(10_000));
}

#[test]
fn partial_cancel_keeps_order_on_book() {
    let mut t = BookTracker::new();
    t.add(1, 1, Side::Buy, 9_000, 500).unwrap();
    let state = t.cancel_partial(1, 200).unwrap();
    assert_eq!(state.remaining_shares, 300);
    assert_eq!(state.original_shares, 500);
    assert_eq!(t.best_bid(1), Some(9_000));
}

#[test]
fn execute_drains_then_removes() {
    let mut t = BookTracker::new();
    t.add(1, 1, Side::Sell, 11_000, 100).unwrap();
    let s1 = t.execute(1, 60).unwrap();
    assert_eq!(s1.remaining_shares, 40);
    assert_eq!(t.best_ask(1), Some(11_000));
    let s2 = t.execute(1, 40).unwrap();
    assert_eq!(s2.remaining_shares, 0);
    assert_eq!(t.best_ask(1), None, "level should disappear when drained");
    assert!(t.get(1).is_none());
}

#[test]
fn replace_carries_over_side_and_symbol() {
    let mut t = BookTracker::new();
    t.add(1, 5, Side::Buy, 9_000, 100).unwrap();
    let prior = t.replace(1, 2, 9_100, 80).unwrap();
    assert_eq!(prior.price, 9_000);
    assert_eq!(prior.original_shares, 100);
    let new_state = t.get(2).expect("new order present");
    assert_eq!(new_state.stock_locate, 5);
    assert_eq!(new_state.side, Side::Buy);
    assert_eq!(new_state.price, 9_100);
    assert_eq!(new_state.remaining_shares, 80);
    assert_eq!(t.best_bid(5), Some(9_100));
    assert!(t.get(1).is_none());
}

#[test]
fn unknown_order_surfaces_error_without_panicking() {
    let mut t = BookTracker::new();
    match t.delete(999) {
        Err(TrackerError::UnknownOrder { order_ref: 999 }) => {}
        other => panic!("expected UnknownOrder, got {other:?}"),
    }
}

#[test]
fn share_underflow_surfaces_error() {
    let mut t = BookTracker::new();
    t.add(1, 1, Side::Buy, 5_000, 100).unwrap();
    match t.execute(1, 200) {
        Err(TrackerError::ShareUnderflow {
            order_ref: 1,
            remaining: 100,
            requested: 200,
        }) => {}
        other => panic!("expected ShareUnderflow, got {other:?}"),
    }
}

#[test]
fn level_count_tracks_multiple_orders_at_same_price() {
    let mut t = BookTracker::new();
    t.add(1, 1, Side::Buy, 10_000, 100).unwrap();
    t.add(2, 1, Side::Buy, 10_000, 200).unwrap();
    t.add(3, 1, Side::Buy, 9_900, 50).unwrap();
    assert_eq!(t.best_bid(1), Some(10_000));
    t.delete(1).unwrap();
    assert_eq!(t.best_bid(1), Some(10_000));
    t.delete(2).unwrap();
    assert_eq!(t.best_bid(1), Some(9_900));
}

#[test]
fn a_live_reference_is_not_added_again() {
    let mut t = BookTracker::default();
    t.add(1, 1, Side::Buy, 100, 10).unwrap();
    assert!(matches!(
        t.add(1, 2, Side::Sell, 200, 20),
        Err(TrackerError::NewRefAlreadyExists { new_ref: 1 })
    ));
    assert_eq!(t.get(1).unwrap().price, 100);
}

fn add_event(order_ref: u64) -> ItchEvent {
    ItchEvent::AddOrder {
        stock_locate: 3,
        order_ref,
        side: Side::Buy,
        shares: 10,
        stock: *b"ABC     ",
        price: 100 + order_ref as u32,
    }
}

#[test]
fn events_drive_the_book() {
    let mut t = BookTracker::new();
    t.apply(&add_event(1)).unwrap();
    t.apply(&add_event(2)).unwrap();
    assert_eq!(t.best_bid(3), Some(102));
    t.apply(&ItchEvent::OrderDelete {
        stock_locate: 3,
        order_ref: 2,
    })
    .unwrap();
    assert_eq!(t.best_bid(3), Some(101));
    assert!(t
        .apply(&ItchEvent::OrderDelete {
            stock_locate: 3,
            order_ref: 2,
        })
        .is_err());
}

#[test]
fn walk_counts_events() {
    let mut walk = Walk::new();
    for i in 1..=3 {
        walk.step(&add_event(i));
    }
    walk.step(&ItchEvent::OrderDelete {
        stock_locate: 3,
        order_ref: 1,
    });
    assert_eq!(walk.counts().total(), 4);
    assert!(PEAK_SAMPLE_EVERY > 4);
}

/// A replacement whose new reference is taken changes nothing.
#[test]
fn refused_replacement_leaves_the_tracker_alone() {
    let mut t = BookTracker::new();
    t.add(1, 5, Side::Buy, 9_000, 100).unwrap();
    t.add(2, 5, Side::Sell, 9_500, 40).unwrap();
    t.cancel_partial(1, 30).unwrap();
    let before = *t.get(1).unwrap();
    assert_eq!(
        t.replace(1, 2, 9_100, 80),
        Err(TrackerError::NewRefAlreadyExists { new_ref: 2 })
    );
    assert_eq!(t.get(1), Some(&before));
    assert_eq!(t.get(2).unwrap().price, 9_500);
    assert_eq!(t.live_order_count(), 2);
    assert_eq!(t.best_bid(5), Some(9_000));
    assert_eq!(t.best_ask(5), Some(9_500));
    assert_eq!(
        t.replace(3, 4, 1, 1),
        Err(TrackerError::UnknownOrder { order_ref: 3 })
    );
    assert_eq!(t.live_order_count(), 2);
}

#[test]
fn replacement_may_keep_its_reference() {
    let mut t = BookTracker::new();
    t.add(1, 5, Side::Buy, 9_000, 100).unwrap();
    assert_eq!(t.replace(1, 1, 9_200, 10).unwrap().price, 9_000);
    assert_eq!(t.get(1).unwrap().price, 9_200);
    assert_eq!(t.best_bid(5), Some(9_200));
    assert_eq!(t.live_order_count(), 1);
}
