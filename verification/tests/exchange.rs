use melin::exchange::admission::{
    expiry_to_schedule, Exchange, ExecuteStep, InstrumentPolicy,
};
use melin::exchange::fees::{fee_from_bps, fee_from_bps_slow};
use melin::exchange::server_app::{ApplyCtx, Applied, ServerApp, TransportRejectReason};
use melin::exchange::settlement::{PlacedOrder, SettleOp, Settlement};
use melin::exchange::trading_event::{QueryResponse, TradingEvent, TradingRequest};
use melin::types::{
    AccountId, CircuitBreakerConfig, CurrencyId, ExecutionReport, FeeSchedule, InstrumentSpec,
    Order, OrderId, OrderType, Price, Quantity, RejectReason, ReservationSlot, RiskLimits,
    SelfTradeProtection, Side, Symbol, TimeInForce,
};

fn naive(value: u128, bps: i16) -> i64 {
    ((value as i128).wrapping_mul(bps as i128) / 10_000) as i64
}

#[test]
fn fee_from_bps_matches_naive_division_across_edge_grid() {
    let values: &[u128] = &[
        0,
        1,
        9_999,
        10_000,
        10_001,
        19_999,
        20_000,
        123_456_789,
        u64::MAX as u128 - 1,
        u64::MAX as u128,
    ];
    let rates: &[i16] = &[
        i16::MIN,
        -10_000,
        -9_999,
        -20,
        -1,
        0,
        1,
        20,
        9_999,
        10_000,
        i16::MAX,
    ];
    for &v in values {
        for &b in rates {
            assert_eq!(
                fee_from_bps(v, b),
                naive(v, b),
                "fee mismatch for value={v} bps={b}"
            );
        }
    }
}

#[test]
fn fee_from_bps_slow_path_above_u64_matches_naive() {
    let values: &[u128] = &[
        u64::MAX as u128 + 1,
        (u64::MAX as u128) * 2,
        u64::MAX as u128 * u64::MAX as u128,
    ];
    for &v in values {
        for &b in &[-10_000i16, -1, 1, 20, 10_000] {
            assert_eq!(
                fee_from_bps_slow(v, b),
                naive(v, b),
                "fee mismatch for value={v} bps={b}"
            );
        }
    }
}

#[test]
fn fee_from_bps_truncates_toward_zero_for_rebates() {
    assert_eq!(fee_from_bps(5_000, -1), 0);
    assert_eq!(fee_from_bps(5_000, 1), 0);
    assert_eq!(fee_from_bps(19_999, -3), -5);
    assert_eq!(fee_from_bps(19_999, 3), 5);
}

#[test]
fn rebate_mirrors_the_fee() {
    let mut v: u64 = 7;
    for _ in 0..200 {
        v = v.wrapping_mul(6364136223846793005).wrapping_add(1442695040888963407);
        let value = (v >> 20) as u128;
        let bps = (v % 10_000) as i16;
        assert_eq!(fee_from_bps(value, -bps), -fee_from_bps(value, bps));
        assert_eq!(fee_from_bps(value, bps), fee_from_bps_slow(value, bps));
    }
}

fn ctx(key_hash: u64) -> ApplyCtx {
    ApplyCtx {
        now_ns: 1_000,
        journal_sequence: 9,
        active_connections: 2,
        events_processed: 5,
        key_hash,
    }
}

fn apply_from(
    app: &mut ServerApp,
    key_hash: u64,
    request_seq: u64,
    event: TradingEvent,
    out: &mut Vec<ExecutionReport>,
) -> Applied {
    app.apply(TradingRequest { request_seq, event }, &ctx(key_hash), out)
}

fn deposit(account: u32, amount: u64) -> TradingEvent {
    TradingEvent::Deposit {
        account: AccountId(account),
        currency: CurrencyId(2),
        amount,
    }
}

fn limit(id: u64, price: u64, qty: u64) -> Order {
    Order {
        id: OrderId(id),
        account: AccountId(1),
        side: Side::Buy,
        order_type: OrderType::Limit {
            price: Price(price),
            post_only: false,
        },
        quantity: Quantity(qty),
        time_in_force: TimeInForce::GTC,
        stp: SelfTradeProtection::Allow,
        expiry_ns: 0,
    }
}

#[test]
fn apply_query_request_seq_returns_per_key_hwm() {
    let mut app = ServerApp(Exchange::new());
    let mut reports = Vec::new();

    let key_a: u64 = 0xAAAA_AAAA_AAAA_AAAA;
    let key_b: u64 = 0xBBBB_BBBB_BBBB_BBBB;
    for seq in 1..=7 {
        apply_from(&mut app, key_a, seq, deposit(1, 1), &mut reports);
    }
    for seq in 1..=3 {
        apply_from(&mut app, key_b, seq, deposit(1, 1), &mut reports);
    }
    assert!(reports.is_empty(), "every write was accepted: {reports:?}");

    let mut query = |app: &mut ServerApp, key_hash| {
        match apply_from(app, key_hash, 0, TradingEvent::QueryRequestSeq, &mut reports) {
            Applied::Answer(answer) => Some(answer),
            _ => None,
        }
    };
    assert_eq!(
        query(&mut app, key_a),
        Some(QueryResponse::RequestSeqHwm { hwm: 7 })
    );
    assert_eq!(
        query(&mut app, key_b),
        Some(QueryResponse::RequestSeqHwm { hwm: 3 })
    );
    assert_eq!(
        query(&mut app, 0xDEAD_BEEF),
        Some(QueryResponse::RequestSeqHwm { hwm: 0 })
    );

    assert_eq!(app.0.request_seq_hwm(key_a), 7);
    assert_eq!(app.0.request_seq_hwm(key_b), 3);
}

/// A repeated sequence is refused before the event reaches the engine, and
/// moves no mark.
#[test]
fn repeated_sequence_never_reaches_the_engine() {
    let mut app = ServerApp(Exchange::new());
    let mut reports = Vec::new();
    let key = 42;

    assert!(matches!(
        apply_from(&mut app, key, 1, deposit(1, 100), &mut reports),
        Applied::Engine(TradingEvent::Deposit { amount: 100, .. })
    ));
    assert!(reports.is_empty());

    for stale in [1, 0] {
        assert!(matches!(
            apply_from(&mut app, key, stale, deposit(1, 100), &mut reports),
            Applied::Refused
        ));
        assert_eq!(
            reports.pop(),
            Some(ExecutionReport::Rejected {
                order_id: OrderId(0),
                symbol: Symbol(0),
                account: AccountId(1),
                reason: RejectReason::DuplicateRequest,
            }),
            "sequence {stale} against a mark of 1"
        );
        assert!(reports.is_empty());
        assert_eq!(app.0.request_seq_hwm(key), 1, "a duplicate moves no mark");
    }

    apply_from(&mut app, key, 10, deposit(1, 100), &mut reports);
    assert!(reports.is_empty());
    assert_eq!(app.0.request_seq_hwm(key), 10);
    apply_from(&mut app, key, 5, deposit(1, 100), &mut reports);
    assert_eq!(reports.len(), 1, "5 is behind the mark of 10");
}

#[test]
fn repeated_order_is_refused_by_its_id() {
    let mut app = ServerApp(Exchange::new());
    let mut reports = Vec::new();
    let order = TradingEvent::SubmitOrder {
        symbol: Symbol(1),
        order: limit(42, 100, 10),
    };
    assert!(matches!(
        apply_from(&mut app, 7, 1, order, &mut reports),
        Applied::Engine(_)
    ));
    apply_from(&mut app, 7, 1, order, &mut reports);
    assert_eq!(
        reports,
        vec![ExecutionReport::Rejected {
            order_id: OrderId(42),
            symbol: Symbol(1),
            account: AccountId(1),
            reason: RejectReason::DuplicateRequest,
        }]
    );
}

#[test]
fn queries_and_internal_events_are_never_repetitions() {
    let mut app = ServerApp(Exchange::new());
    let mut reports = Vec::new();
    let key = 42;
    apply_from(&mut app, key, 5, deposit(1, 1), &mut reports);

    assert!(matches!(
        apply_from(&mut app, key, 0, TradingEvent::QueryStats, &mut reports),
        Applied::Answer(QueryResponse::Stats {
            active_connections: 2,
            events_processed: 5,
            journal_sequence: 9
        })
    ));
    assert_eq!(app.0.request_seq_hwm(key), 5);

    for _ in 0..2 {
        let r = app.apply(TradingRequest::internal(deposit(1, 1)), &ctx(0), &mut reports);
        assert!(matches!(r, Applied::Engine(_)));
    }
    assert!(reports.is_empty());
    assert_eq!(app.0.request_seq_hwm(0), 0, "key 0 keeps no mark");
}

#[test]
fn build_reject_maps_transport_reasons() {
    let r = ServerApp::build_reject(
        &TradingRequest {
            request_seq: 3,
            event: TradingEvent::CancelAll {
                account: AccountId(9),
            },
        },
        TransportRejectReason::ReplicaDisconnected,
    );
    match r {
        ExecutionReport::Rejected {
            order_id,
            symbol,
            account,
            reason,
        } => {
            assert_eq!(order_id, OrderId(0));
            assert_eq!(symbol, Symbol(0));
            assert_eq!(account, AccountId(9));
            assert_eq!(reason, RejectReason::ReplicaDisconnected);
        }
        other => panic!("expected Rejected, got {other:?}"),
    }
}

#[test]
fn refused_withdrawal_is_reported() {
    let event = TradingEvent::Withdraw {
        account: AccountId(999),
        currency: CurrencyId(2),
        amount: 1,
    };
    let mut reports = Vec::new();
    ServerApp::report_refusal(&event, Ok(()), &mut reports);
    assert!(reports.is_empty());
    ServerApp::report_refusal(&event, Err(RejectReason::UnknownAccount), &mut reports);
    assert_eq!(
        reports,
        vec![ExecutionReport::Rejected {
            order_id: OrderId(0),
            symbol: Symbol(0),
            account: AccountId(999),
            reason: RejectReason::UnknownAccount,
        }]
    );
}

fn policy() -> InstrumentPolicy {
    InstrumentPolicy {
        spec: InstrumentSpec {
            symbol: Symbol(1),
            base: CurrencyId(1),
            quote: CurrencyId(2),
        },
        disabled: false,
        circuit_breaker: CircuitBreakerConfig {
            price_band_lower: Some(Price(50)),
            price_band_upper: Some(Price(200)),
            halted: false,
        },
        risk_limits: RiskLimits {
            max_order_qty: Some(Quantity(1_000)),
            max_order_notional: Some(50_000),
        },
        fee_schedule: FeeSchedule {
            maker_fee_bps: -1,
            taker_fee_bps: 3,
        },
    }
}

fn reason(e: &Exchange, symbol: u32, order: Order) -> Option<RejectReason> {
    let mut reports = Vec::new();
    match e.execute(Symbol(symbol), order, &mut reports) {
        ExecuteStep::Refused => match reports.pop() {
            Some(ExecutionReport::Rejected { reason, .. }) => Some(reason),
            other => panic!("expected a rejection, got {other:?}"),
        },
        _ => None,
    }
}

#[test]
fn each_refusal_has_its_reason() {
    let mut e = Exchange::new();
    assert_eq!(
        reason(&e, 1, limit(1, 100, 10)),
        Some(RejectReason::UnknownSymbol)
    );
    e.set_instrument(Symbol(1), Some(policy()));
    assert_eq!(reason(&e, 1, limit(1, 100, 10)), None);
    assert_eq!(
        reason(&e, 1, limit(1, 49, 10)),
        Some(RejectReason::OutsidePriceBand)
    );
    assert_eq!(
        reason(&e, 1, limit(1, 201, 10)),
        Some(RejectReason::OutsidePriceBand)
    );
    assert_eq!(
        reason(&e, 1, limit(1, 60, 1_001)),
        Some(RejectReason::ExceedsMaxOrderQty)
    );
    assert_eq!(
        reason(&e, 1, limit(1, 100, 501)),
        Some(RejectReason::ExceedsMaxNotional)
    );
    let mut gtd = limit(1, 100, 10);
    gtd.time_in_force = TimeInForce::GTD;
    e.set_current_event_ts_ns(500);
    gtd.expiry_ns = 500;
    assert_eq!(reason(&e, 1, gtd), Some(RejectReason::InvalidExpiry));
    gtd.expiry_ns = 501;
    assert_eq!(reason(&e, 1, gtd), None);
    assert_eq!(expiry_to_schedule(&gtd, true), Some(501));
    assert_eq!(expiry_to_schedule(&gtd, false), None);

    let mut halted = policy();
    halted.circuit_breaker.halted = true;
    e.set_instrument(Symbol(1), Some(halted));
    assert_eq!(
        reason(&e, 1, limit(1, 100, 10)),
        Some(RejectReason::TradingHalted)
    );
    let mut disabled = policy();
    disabled.disabled = true;
    e.set_instrument(Symbol(1), Some(disabled));
    assert_eq!(
        reason(&e, 1, limit(1, 100, 10)),
        Some(RejectReason::InstrumentDisabled)
    );
    assert!(e.instrument(Symbol(1)).unwrap().disabled);
}

#[test]
fn open_orders_are_counted_until_they_close() {
    let mut e = Exchange::new();
    e.set_instrument(Symbol(1), Some(policy()));
    e.set_max_open_orders_per_account(1);
    let mut reports = Vec::new();
    let order = limit(1, 100, 10);
    let request = e
        .reserved(Symbol(1), order, Ok((1_000, ReservationSlot(3))), &mut reports)
        .expect("admitted");
    assert_eq!(request.slot, ReservationSlot(3));
    assert_eq!(e.open_order_count(AccountId(1)), 1);
    assert_eq!(
        reason(&e, 1, limit(1, 100, 10)),
        Some(RejectReason::DuplicateOrderId)
    );
    assert_eq!(
        reason(&e, 1, limit(2, 100, 10)),
        Some(RejectReason::ExceedsMaxOpenOrders)
    );
    e.close_orders(&vec![(AccountId(1), OrderId(1))]);
    assert_eq!(e.open_order_count(AccountId(1)), 0);
    assert_eq!(reason(&e, 1, limit(1, 100, 10)), None);

    assert!(e
        .reserved(
            Symbol(1),
            limit(5, 100, 10),
            Err(RejectReason::InsufficientBalance),
            &mut reports
        )
        .is_none());
    assert_eq!(reports.len(), 1);
}

#[test]
fn rate_limit_asks_for_a_token() {
    let mut e = Exchange::new();
    e.set_instrument(Symbol(1), Some(policy()));
    e.set_max_orders_per_second(10, 20);
    let mut reports = Vec::new();
    let step = e.execute(Symbol(1), limit(1, 100, 1), &mut reports);
    assert!(matches!(
        step,
        ExecuteStep::TakeToken {
            rate: 10,
            burst: 20,
            ..
        }
    ));
    assert!(matches!(
        e.rate_checked(Symbol(1), limit(1, 100, 1), true, &mut reports),
        ExecuteStep::Reserve { .. }
    ));
    assert!(reports.is_empty());
    assert!(matches!(
        e.rate_checked(Symbol(1), limit(1, 100, 1), false, &mut reports),
        ExecuteStep::Refused
    ));
    assert!(matches!(
        reports[0],
        ExecutionReport::Rejected {
            reason: RejectReason::ExceedsOrderRate,
            ..
        }
    ));
}

/// One fill that uses both orders up: the funds move once, with each side's
/// fee, and both orders close.
#[test]
fn full_fill_settles_once() {
    let fees = FeeSchedule {
        maker_fee_bps: -10,
        taker_fee_bps: 30,
    };
    let maker = PlacedOrder {
        account: AccountId(2),
        id: OrderId(7),
        side: Side::Sell,
        slot: ReservationSlot(11),
    };
    let mut reports = vec![ExecutionReport::Fill {
        maker_order_id: OrderId(7),
        taker_order_id: OrderId(1),
        symbol: Symbol(1),
        maker_account: AccountId(2),
        taker_account: AccountId(1),
        price: Price(100),
        quantity: Quantity(1_000),
        maker_fee: 0,
        taker_fee: 0,
    }];
    let mut s = Settlement::new(
        AccountId(1),
        OrderId(1),
        ReservationSlot(12),
        false,
        fees,
        vec![maker],
        vec![],
        0,
    );
    let mut fills = 0;
    let mut given_back = Vec::new();
    let mut reply = None;
    loop {
        match s.step(reply, &mut reports) {
            SettleOp::Fill {
                buyer_slot,
                seller_slot,
                buyer_base_fee,
                seller_quote_fee,
                ..
            } => {
                fills += 1;
                assert_eq!(buyer_slot, ReservationSlot(12));
                assert_eq!(seller_slot, ReservationSlot(11));
                // 30 bps of 1000 base units, -10 bps of 100000 quote units.
                assert_eq!(buyer_base_fee, 3);
                assert_eq!(seller_quote_fee, -100);
                reply = None;
            }
            SettleOp::ReadRemaining { .. } => reply = Some(0),
            SettleOp::Free { slot } | SettleOp::Release { slot } => {
                given_back.push(slot.0);
                reply = None;
            }
            SettleOp::Done => break,
        }
    }
    assert_eq!(fills, 1);
    given_back.sort();
    assert_eq!(given_back, vec![11, 12]);
    let mut freed: Vec<(u32, u64)> = s.freed().iter().map(|(a, o)| (a.0, o.0)).collect();
    freed.sort();
    assert_eq!(freed, vec![(1, 1), (2, 7)]);
    // The report tells both fees in quote currency.
    assert!(matches!(
        reports[0],
        ExecutionReport::Fill {
            maker_fee: -100,
            taker_fee: 300,
            ..
        }
    ));
}

/// Over a whole order the open counts follow the orders on the book: one maker
/// is used up, one is cancelled, and what is left of the submitted order rests.
#[test]
fn counts_follow_the_book_over_a_whole_order() {
    let mut e = Exchange::new();
    e.set_instrument(Symbol(1), Some(policy()));
    let mut reports = Vec::new();
    let on_account = |account: u32, id: u64| Order {
        account: AccountId(account),
        ..limit(id, 100, 10)
    };
    for (account, id, slot) in [(2, 7, 11), (2, 8, 12), (3, 9, 13)] {
        let outcome = Ok((1_000, ReservationSlot(slot)));
        e.reserved(Symbol(1), on_account(account, id), outcome, &mut reports)
            .expect("admitted");
    }
    let taker = on_account(1, 1);
    let outcome = Ok((1_000, ReservationSlot(14)));
    e.reserved(Symbol(1), taker, outcome, &mut reports)
        .expect("admitted");
    let placed = |account: u32, id: u64, slot: u32| PlacedOrder {
        account: AccountId(account),
        id: OrderId(id),
        side: Side::Sell,
        slot: ReservationSlot(slot),
    };
    let mut reports = vec![
        ExecutionReport::Fill {
            maker_order_id: OrderId(7),
            taker_order_id: OrderId(1),
            symbol: Symbol(1),
            maker_account: AccountId(2),
            taker_account: AccountId(1),
            price: Price(100),
            quantity: Quantity(4),
            maker_fee: 0,
            taker_fee: 0,
        },
        ExecutionReport::Cancelled {
            order_id: OrderId(9),
            symbol: Symbol(1),
            account: AccountId(3),
        },
    ];
    let mut s = Settlement::new(
        AccountId(1),
        OrderId(1),
        ReservationSlot(14),
        true,
        FeeSchedule {
            maker_fee_bps: 0,
            taker_fee_bps: 0,
        },
        vec![placed(2, 7, 11), placed(3, 9, 13)],
        vec![placed(1, 1, 14)],
        0,
    );
    let mut reply = None;
    loop {
        match s.step(reply.take(), &mut reports) {
            SettleOp::ReadRemaining { slot } => {
                reply = Some(if slot == ReservationSlot(11) { 0 } else { 600 });
            }
            SettleOp::Done => break,
            _ => {}
        }
    }
    let mut freed: Vec<(u32, u64)> = s.freed().iter().map(|(a, o)| (a.0, o.0)).collect();
    freed.sort();
    assert_eq!(freed, vec![(2, 7), (3, 9)]);
    e.close_orders(s.freed());
    assert_eq!(e.open_order_count(AccountId(1)), 1);
    assert_eq!(e.open_order_count(AccountId(2)), 1);
    assert_eq!(e.open_order_count(AccountId(3)), 0);
    for (account, id, live) in [(1, 1, true), (2, 7, false), (2, 8, true), (3, 9, false)] {
        let refused = reason(&e, 1, on_account(account, id));
        assert_eq!(refused == Some(RejectReason::DuplicateOrderId), live);
    }
}
