//! Messages between clients and the exchange.
//!
//! Trading operations are open to every client; administrative ones need the
//! operator permission, and those that move funds the custodian one.

use vstd::prelude::*;

use crate::types::{
    AccountBalance, AccountId, CircuitBreakerConfig, CurrencyId, ExecutionReport, FeeSchedule,
    InstrumentSpec, Order, OrderId, Price, Quantity, RiskLimits, Side, Symbol,
};

verus! {

/// A connection of the server. Numbers only grow and are not used again.
#[derive(Clone, Copy, Debug, PartialEq, Eq, Hash, Structural)]
pub struct ConnectionId(pub u64);

/// What a client asks for.
#[derive(Clone, Copy, Debug, PartialEq, Eq)]
pub enum Request {
    SubmitOrder { symbol: Symbol, order: Order },
    CancelOrder { symbol: Symbol, account: AccountId, order_id: OrderId },
    /// Cancels every order of an account on all instruments.
    CancelAll { account: AccountId },
    /// Amends an order, or leaves it as it is where that fails.
    CancelReplace {
        symbol: Symbol,
        account: AccountId,
        order_id: OrderId,
        new_price: Price,
        new_quantity: Quantity,
    },
    AddInstrument { spec: InstrumentSpec },
    Deposit { account: AccountId, currency: CurrencyId, amount: u64 },
    Withdraw { account: AccountId, currency: CurrencyId, amount: u64 },
    SetRiskLimits { symbol: Symbol, limits: RiskLimits },
    SetCircuitBreaker { symbol: Symbol, config: CircuitBreakerConfig },
    SetFeeSchedule { symbol: Symbol, schedule: FeeSchedule },
    /// Cancels every day order.
    EndOfDay,
    DisableInstrument { symbol: Symbol },
    EnableInstrument { symbol: Symbol },
    /// Removes a disabled instrument without orders.
    RemoveInstrument { symbol: Symbol },
    QueryStats,
    /// Keeps the connection from being idle.
    Heartbeat,
    /// Subscribes to events; no symbols stands for all of them.
    Subscribe { symbols: [Symbol; 8], count: u8 },
    QueryPosition { account: AccountId },
    /// Asks for the highest request sequence accepted for the caller's key.
    QueryRequestSeq,
}

/// Whether a request configures the exchange or asks for its statistics.
pub open spec fn is_administrative(request: Request) -> bool {
    match request {
        Request::AddInstrument { .. } => true,
        Request::SetRiskLimits { .. } => true,
        Request::SetCircuitBreaker { .. } => true,
        Request::SetFeeSchedule { .. } => true,
        Request::EndOfDay => true,
        Request::DisableInstrument { .. } => true,
        Request::EnableInstrument { .. } => true,
        Request::RemoveInstrument { .. } => true,
        Request::QueryStats => true,
        _ => false,
    }
}

/// Whether a request moves funds into or out of an account.
pub open spec fn moves_funds(request: Request) -> bool {
    request is Deposit || request is Withdraw
}

impl Request {
    /// Whether the request needs the operator permission.
    pub fn requires_operator(&self) -> (b: bool)
        ensures
            b == is_administrative(*self),
    {
        match self {
            Request::AddInstrument { .. } => true,
            Request::SetRiskLimits { .. } => true,
            Request::SetCircuitBreaker { .. } => true,
            Request::SetFeeSchedule { .. } => true,
            Request::EndOfDay => true,
            Request::DisableInstrument { .. } => true,
            Request::EnableInstrument { .. } => true,
            Request::RemoveInstrument { .. } => true,
            Request::QueryStats => true,
            _ => false,
        }
    }

    /// Whether the request needs the custodian permission.
    pub fn is_fund_management(&self) -> (b: bool)
        ensures
            b == moves_funds(*self),
    {
        match self {
            Request::Deposit { .. } => true,
            Request::Withdraw { .. } => true,
            _ => false,
        }
    }
}

/// What the exchange answers.
#[derive(Clone, Copy, Debug, PartialEq, Eq)]
pub enum ResponseKind {
    Report(ExecutionReport),
    StatsHeader { active_connections: u64, events_processed: u64, journal_sequence: u64 },
    BookSnapshotBegin { symbol: Symbol, last_applied_seq: u64 },
    BookSnapshotLevel { symbol: Symbol, side: Side, price: Price, qty: u64, order_count: u32 },
    BookSnapshotEnd { symbol: Symbol, level_count: u32 },
    SnapshotComplete { last_applied_seq: u64 },
    /// Balances of an account; entries from `count` on are unused.
    PositionSnapshot { account: AccountId, balances: [AccountBalance; 16], count: u8 },
    RequestSeqHwm { hwm: u64 },
}

/// One frame from the server: an answer of the exchange, or one of the
/// node's own.
#[derive(Clone, Copy, Debug, PartialEq, Eq)]
pub enum ServerFrame {
    Response(ResponseKind),
    /// The answers to one request are complete.
    BatchEnd,
    /// The engine failed on one request, whose batch still ends.
    EngineError,
    /// The server takes no more requests for now.
    ServerBusy,
    Heartbeat,
    /// The connection may send requests.
    ServerReady,
    AuthFailed,
    Challenge { nonce: [u8; 32] },
}

/// No request needs both the operator and the custodian permission.
pub proof fn law_operator_and_custodian_are_apart(request: Request)
    ensures
        !(is_administrative(request) && moves_funds(request)),
{
}

/// Which permission each request needs: trading, its queries and subscriptions
/// none, configuration and statistics the operator's, and what moves funds the
/// custodian's.
pub proof fn law_permission_of_each_request(request: Request)
    ensures
        match request {
            Request::SubmitOrder { .. }
            | Request::CancelOrder { .. }
            | Request::CancelAll { .. }
            | Request::CancelReplace { .. }
            | Request::Heartbeat
            | Request::Subscribe { .. }
            | Request::QueryPosition { .. }
            | Request::QueryRequestSeq => !is_administrative(request) && !moves_funds(request),
            Request::Deposit { .. } | Request::Withdraw { .. } => moves_funds(request)
                && !is_administrative(request),
            Request::AddInstrument { .. }
            | Request::SetRiskLimits { .. }
            | Request::SetCircuitBreaker { .. }
            | Request::SetFeeSchedule { .. }
            | Request::EndOfDay
            | Request::DisableInstrument { .. }
            | Request::EnableInstrument { .. }
            | Request::RemoveInstrument { .. }
            | Request::QueryStats => is_administrative(request) && !moves_funds(request),
        },
{
}

/// Funds are moved by deposits and withdrawals alone, and what an operator is
/// needed for moves none.
pub proof fn law_requests_are_permitted_by_kind(request: &Request, operator: bool, funds: bool)
    requires
        call_ensures(Request::requires_operator, (request,), operator),
        call_ensures(Request::is_fund_management, (request,), funds),
    ensures
        funds <==> *request is Deposit || *request is Withdraw,
        funds ==> !operator,
        *request is SubmitOrder || *request is CancelOrder || *request is CancelAll
            || *request is CancelReplace || *request is Heartbeat || *request is Subscribe
            || *request is QueryPosition || *request is QueryRequestSeq ==> !operator,
        *request is AddInstrument || *request is SetRiskLimits || *request is SetCircuitBreaker
            || *request is SetFeeSchedule || *request is EndOfDay || *request is DisableInstrument
            || *request is EnableInstrument || *request is RemoveInstrument
            || *request is QueryStats ==> operator,
{
    law_permission_of_each_request(*request);
}

} // verus!
