use melin::exchange::trading_event::QueryResponse;
use melin::protocol::client::{
    expect_ready, plain_step, query_stats, read_batch, transport_error, Batch, BatchStep,
    ClientError, NodeError, PlainStep, Reply, RequestSequence,
};
use melin::protocol::message::{Request, ResponseKind, ServerFrame};
use melin::protocol::response_encoder::{encode_body, Encoded, ResponseEncoder};
use melin::types::{
    AccountBalance, AccountId, CurrencyId, ExecutionReport, OrderId, Price, Quantity, Side, Symbol,
};

fn placed() -> ExecutionReport {
    ExecutionReport::Placed {
        order_id: OrderId(1),
        symbol: Symbol(1),
        account: AccountId(1),
        side: Side::Buy,
        price: Price(100),
        quantity: Quantity(10),
    }
}

/// An engine error is the node's word on one request: its batch still ends,
/// and the next request reads its own batch.
#[test]
fn engine_error_waits_for_the_end_of_its_batch() {
    let wire = [Reply::EngineError, Reply::BatchEnd, Reply::BatchEnd];
    let (first, n) = read_batch(&wire).unwrap();
    assert!(matches!(first, Err(ClientError::EngineError)));
    assert_eq!(n, 2);
    let (second, n) = read_batch(&wire[n..]).unwrap();
    assert!(second.unwrap().is_empty());
    assert_eq!(n, 1);
}

#[test]
fn busy_server_ends_the_batch() {
    let (r, n) = read_batch(&[Reply::Heartbeat, Reply::ServerBusy, Reply::BatchEnd]).unwrap();
    assert!(matches!(r, Err(ClientError::ServerBusy)));
    assert_eq!(n, 2);
}

#[test]
fn batch_without_an_end_is_not_answered() {
    assert!(read_batch(&[Reply::Heartbeat]).is_none());
    let report = ResponseKind::Report(placed());
    assert!(read_batch(&[Reply::Response(report)]).is_none());
}

#[test]
fn answers_come_in_order() {
    let a = ResponseKind::Report(placed());
    let b = ResponseKind::RequestSeqHwm { hwm: 4 };
    let mut batch = Batch::new();
    for reply in [Reply::Response(a), Reply::Heartbeat, Reply::Response(b)] {
        let (next, step) = batch.step(reply);
        assert!(matches!(step, BatchStep::ReadOn));
        batch = next;
    }
    match batch.step(Reply::BatchEnd).1 {
        BatchStep::Done(Ok(responses)) => assert_eq!(responses, vec![a, b]),
        other => panic!("expected the answers, got {other:?}"),
    }
}

#[test]
fn sequence_follows_the_engine() {
    let mut s = RequestSequence::new();
    assert_eq!(s.advance(), 1);
    let hwm = s
        .synchronize_request_seq(&[
            ResponseKind::Report(placed()),
            ResponseKind::RequestSeqHwm { hwm: 8423 },
        ])
        .unwrap();
    assert_eq!(hwm, 8423);
    assert_eq!(s.advance(), 8424);
    let again = s
        .synchronize_request_seq(&[ResponseKind::RequestSeqHwm { hwm: 12_345 }])
        .unwrap();
    assert_eq!(again, 12_345);
    match s.synchronize_request_seq(&[]) {
        Err(ClientError::Protocol(text)) => assert_eq!(text, "no RequestSeqHwm in response"),
        other => panic!("expected a protocol error, got {other:?}"),
    }
    assert_eq!(s.advance(), 12_346);
}

#[test]
fn stats_come_from_their_header() {
    let stats = query_stats(&[ResponseKind::StatsHeader {
        active_connections: 7,
        events_processed: 12345,
        journal_sequence: 999,
    }])
    .unwrap();
    assert_eq!(stats.active_connections, 7);
    assert_eq!(stats.events_processed, 12345);
    assert_eq!(stats.journal_sequence, 999);
    assert!(query_stats(&[]).is_err());
}

#[test]
fn errors_have_their_words() {
    assert_eq!(
        ClientError::Io("gone".to_string()).message(),
        "I/O error: gone"
    );
    assert_eq!(
        transport_error(NodeError::Protocol).message(),
        "protocol error: frame from the node"
    );
    assert!(matches!(
        transport_error(NodeError::AuthFailed),
        ClientError::AuthFailed
    ));
    assert!(matches!(
        transport_error(NodeError::Other("x".to_string())),
        ClientError::Io(_)
    ));
    assert_eq!(
        transport_error(NodeError::Disconnected).message(),
        "disconnected from server"
    );
}

#[test]
fn plain_client_leaves_errors_to_its_caller() {
    assert_eq!(plain_step(&ServerFrame::BatchEnd), PlainStep::Finish);
    assert_eq!(plain_step(&ServerFrame::Heartbeat), PlainStep::Skip);
    assert_eq!(plain_step(&ServerFrame::ServerReady), PlainStep::Skip);
    assert_eq!(plain_step(&ServerFrame::EngineError), PlainStep::Keep);
    assert!(expect_ready(&ServerFrame::ServerReady).is_ok());
    assert!(matches!(
        expect_ready(&ServerFrame::AuthFailed),
        Err(ClientError::Protocol(_))
    ));
}

#[test]
fn permissions_of_requests() {
    let cancel = Request::CancelOrder {
        symbol: Symbol(1),
        account: AccountId(1),
        order_id: OrderId(42),
    };
    assert!(!cancel.requires_operator());
    assert!(!cancel.is_fund_management());
}

#[test]
fn encodes_report() {
    assert!(matches!(
        ResponseEncoder.encode_report(&placed()),
        ResponseKind::Report(ExecutionReport::Placed { order_id, .. })
            if order_id == OrderId(1)
    ));
}

#[test]
fn encodes_query_stats() {
    let q = QueryResponse::Stats {
        active_connections: 7,
        events_processed: 12345,
        journal_sequence: 999,
    };
    assert!(matches!(
        ResponseEncoder.encode_query(&q),
        ResponseKind::StatsHeader {
            active_connections: 7,
            events_processed: 12345,
            journal_sequence: 999,
        }
    ));
}

#[test]
fn position_becomes_a_snapshot() {
    let balances = [AccountBalance {
        currency: CurrencyId(1),
        free: 100,
        reserved: 0,
    }; 16];
    assert_eq!(
        ResponseEncoder.encode_query(&QueryResponse::Position {
            account: AccountId(42),
            balances,
            count: 16,
        }),
        ResponseKind::PositionSnapshot {
            account: AccountId(42),
            balances,
            count: 16,
        }
    );
}

#[test]
fn encodes_query_request_seq_hwm() {
    let q = QueryResponse::RequestSeqHwm { hwm: 4242 };
    assert!(matches!(
        ResponseEncoder.encode_query(&q),
        ResponseKind::RequestSeqHwm { hwm: 4242 }
    ));
}

#[test]
fn codec_errors_lose_their_detail() {
    assert_eq!(
        encode_body::<u8>(Ok((7, 3))),
        Ok(Encoded { tag: 7, len: 3 })
    );
    assert_eq!(encode_body::<u8>(Err(1)), Err("encode error"));
}
