use melin::bench::outcomes::{
    reject_reason_index, reject_reason_name, reject_reasons, OutcomeReport,
};
use melin::bench::workload::{frame_completes, merge_all, Outcomes};
use melin::protocol::message::{ResponseKind, ServerFrame};
use melin::types::{
    AccountId, ExecutionReport, OrderId, Price, Quantity, RejectReason, Side, Symbol,
};

fn dummy_order() -> (OrderId, Symbol, AccountId) {
    (OrderId(1), Symbol(0), AccountId(7))
}

fn report(r: ExecutionReport) -> ServerFrame {
    ServerFrame::Response(ResponseKind::Report(r))
}

fn rejected(reason: RejectReason) -> ExecutionReport {
    let (order_id, symbol, account) = dummy_order();
    ExecutionReport::Rejected {
        order_id,
        symbol,
        account,
        reason,
    }
}

#[test]
fn records_each_variant_into_the_right_bucket() {
    let (oid, sym, acc) = dummy_order();
    let mut r = OutcomeReport::default();
    r.record(&ServerFrame::BatchEnd);
    r.record(&report(ExecutionReport::Placed {
        order_id: oid,
        symbol: sym,
        account: acc,
        side: Side::Buy,
        price: Price(100),
        quantity: Quantity(1),
    }));
    r.record(&report(rejected(RejectReason::InsufficientBalance)));
    r.record(&ServerFrame::EngineError);
    r.record(&ServerFrame::ServerBusy);
    // Heartbeat is intentionally untracked.
    r.record(&ServerFrame::Heartbeat);

    assert_eq!(r.batch_ends, 1);
    assert_eq!(r.placed, 1);
    assert_eq!(r.rejected, 1);
    assert_eq!(r.engine_errors, 1);
    assert_eq!(r.server_busy, 1);
    assert_eq!(
        r.reject_reasons[reject_reason_index(RejectReason::InsufficientBalance)],
        1
    );
}

#[test]
fn merge_sums_all_fields_including_reason_buckets() {
    let mut a = OutcomeReport::default();
    a.record(&report(rejected(RejectReason::NoLiquidity)));
    a.record(&ServerFrame::BatchEnd);

    let mut b = OutcomeReport::default();
    b.record(&report(rejected(RejectReason::NoLiquidity)));
    b.record(&ServerFrame::BatchEnd);
    b.record(&ServerFrame::BatchEnd);

    a.merge(&b);
    assert_eq!(a.batch_ends, 3);
    assert_eq!(a.rejected, 2);
    assert_eq!(
        a.reject_reasons[reject_reason_index(RejectReason::NoLiquidity)],
        2
    );
}

fn ratio(r: &OutcomeReport) -> f64 {
    let (num, den) = r.rejection_ratio();
    num as f64 / den as f64
}

#[test]
fn rejection_ratio_is_zero_when_no_batches_observed() {
    let r = OutcomeReport::default();
    assert_eq!(ratio(&r), 0.0);
}

#[test]
fn rejection_ratio_divides_rejected_by_batch_ends() {
    let r = OutcomeReport {
        batch_ends: 1000,
        rejected: 25,
        ..OutcomeReport::default()
    };
    assert!((ratio(&r) - 0.025).abs() < 1e-9);
}

#[test]
fn record_execution_report_and_record_agree_on_report_variants() {
    let rep = rejected(RejectReason::ExceedsMaxOrderQty);

    let mut via_direct = OutcomeReport::default();
    via_direct.record_execution_report(&rep);

    let mut via_wire = OutcomeReport::default();
    via_wire.record(&report(rep));

    assert_eq!(via_direct.rejected, via_wire.rejected);
    assert_eq!(via_direct.reject_reasons, via_wire.reject_reasons);
}

#[test]
fn reject_reasons_indices_are_unique_and_match_table_length() {
    let table = reject_reasons();
    let mut seen = vec![false; table.len()];
    for reason in table {
        let idx = reject_reason_index(reason);
        assert!(idx < table.len(), "index {idx} out of range");
        assert!(!seen[idx], "duplicate index {idx} for {reason:?}");
        seen[idx] = true;
        assert_eq!(reject_reason_name(idx), format!("{reason:?}"));
    }
    assert!(seen.iter().all(|b| *b), "missing variant in the table");
}

#[test]
fn top_reasons_come_first() {
    let mut r = OutcomeReport::default();
    for (reason, n) in [
        (RejectReason::NoLiquidity, 2),
        (RejectReason::UnknownSymbol, 5),
        (RejectReason::TradingHalted, 5),
        (RejectReason::Superseded, 1),
    ] {
        for _ in 0..n {
            r.record(&report(rejected(reason)));
        }
    }
    let names: Vec<&str> = r
        .top_reasons()
        .iter()
        .map(|(i, _)| reject_reason_name(*i))
        .collect();
    assert_eq!(
        names,
        vec!["UnknownSymbol", "TradingHalted", "NoLiquidity", "Superseded"]
    );
}

#[test]
fn json_shows_only_reasons_that_fired() {
    let mut r = OutcomeReport::default();
    r.record(&ServerFrame::BatchEnd);
    r.record(&report(rejected(RejectReason::UnknownOrder)));
    assert_eq!(
        OutcomeReport::render_json(&r),
        "{\"batch_ends\":1,\"placed\":0,\"fills\":0,\"cancelled\":0,\"triggered\":0,\
         \"replaced\":0,\"rejected\":1,\"engine_errors\":0,\"server_busy\":0,\
         \"reject_reasons\":{\"UnknownOrder\":1}}"
    );
}

#[test]
fn parts_may_end_in_any_order() {
    let mut a = OutcomeReport::default();
    a.record(&ServerFrame::BatchEnd);
    let mut b = OutcomeReport::default();
    b.record(&ServerFrame::ServerBusy);
    b.record(&report(rejected(RejectReason::NoLiquidity)));
    let ab = merge_all(&vec![a.clone(), b.clone()]).unwrap();
    let ba = merge_all(&vec![b.clone(), a.clone()]).unwrap();
    assert_eq!(
        OutcomeReport::render_json(&ab),
        OutcomeReport::render_json(&ba)
    );
    let full = OutcomeReport {
        placed: u64::MAX,
        ..OutcomeReport::default()
    };
    let mut one = OutcomeReport {
        placed: 1,
        ..OutcomeReport::default()
    };
    assert!(!full.has_room());
    assert!(!one.try_merge(&full));
    assert_eq!(one.placed, 1);
    assert!(merge_all(&vec![full, one]).is_none());
}

#[test]
fn only_the_batch_end_completes_a_request() {
    assert!(frame_completes(&ServerFrame::BatchEnd));
    assert!(!frame_completes(&ServerFrame::EngineError));
    assert!(!frame_completes(&report(rejected(RejectReason::NoLiquidity))));
}

/// The reasons add up to the rejections also once tallies came together.
#[test]
fn merged_reasons_add_up_to_the_rejections() {
    let rejected = |reason| {
        ServerFrame::Response(ResponseKind::Report(ExecutionReport::Rejected {
            order_id: OrderId(1),
            symbol: Symbol(1),
            account: AccountId(1),
            reason,
        }))
    };
    let mut a = OutcomeReport::default();
    a.record(&rejected(RejectReason::TradingHalted));
    a.record(&rejected(RejectReason::DuplicateOrderId));
    let mut b = OutcomeReport::default();
    b.record(&rejected(RejectReason::TradingHalted));
    a.merge(&b);
    assert_eq!(a.rejected, 3);
    assert_eq!(a.reject_reasons.iter().sum::<u64>(), 3);
}
