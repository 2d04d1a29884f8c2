//! Events of the trading application and the requests that carry them.

use vstd::prelude::*;

use crate::types::{
    AccountBalance, AccountId, CircuitBreakerConfig, CurrencyId, FeeSchedule, InstrumentSpec,
    Order, OrderId, Price, Quantity, RiskLimits, Symbol,
};

verus! {

/// An event to apply to the exchange.
#[derive(Clone, Copy, Debug, PartialEq, Eq, Structural)]
pub enum TradingEvent {
    AddInstrument { spec: InstrumentSpec },
    Deposit { account: AccountId, currency: CurrencyId, amount: u64 },
    SubmitOrder { symbol: Symbol, order: Order },
    CancelOrder { symbol: Symbol, account: AccountId, order_id: OrderId },
    SetRiskLimits { symbol: Symbol, limits: RiskLimits },
    CancelAll { account: AccountId },
    SetCircuitBreaker { symbol: Symbol, config: CircuitBreakerConfig },
    CancelReplace {
        symbol: Symbol,
        account: AccountId,
        order_id: OrderId,
        new_price: Price,
        new_quantity: Quantity,
    },
    SetFeeSchedule { symbol: Symbol, schedule: FeeSchedule },
    ProvisionAccount { account: AccountId, amount: u64 },
    Withdraw { account: AccountId, currency: CurrencyId, amount: u64 },
    EndOfDay,
    DisableInstrument { symbol: Symbol },
    EnableInstrument { symbol: Symbol },
    RemoveInstrument { symbol: Symbol },
    QueryStats,
    QueryPosition { account: AccountId },
    QueryRequestSeq,
    SetAccountLimits {
        max_open_orders_per_account: u32,
        max_orders_per_second: u32,
        max_orders_burst: u32,
    },
}

/// Whether an event only asks for state.
pub open spec fn is_query_spec(event: TradingEvent) -> bool {
    event is QueryStats || event is QueryPosition || event is QueryRequestSeq
}

impl TradingEvent {
    /// Whether the event only asks for state and changes none.
    pub fn is_query(&self) -> (b: bool)
        ensures
            b == is_query_spec(*self),
    {
        match self {
            TradingEvent::QueryStats => true,
            TradingEvent::QueryPosition { .. } => true,
            TradingEvent::QueryRequestSeq => true,
            _ => false,
        }
    }
}

/// An event with the sequence its sender gave it.
#[derive(Clone, Copy, Debug, PartialEq, Eq, Structural)]
pub struct TradingRequest {
    pub request_seq: u64,
    pub event: TradingEvent,
}

impl TradingRequest {
    /// A request that the node makes itself, without a sequence.
    pub fn internal(event: TradingEvent) -> (r: TradingRequest)
        ensures
            r == (TradingRequest { request_seq: 0, event }),
    {
        TradingRequest { request_seq: 0, event }
    }
}

/// The answer to a query.
#[derive(Clone, Copy, Debug, PartialEq, Eq)]
pub enum QueryResponse {
    Stats { active_connections: u64, events_processed: u64, journal_sequence: u64 },
    /// Balances of an account; entries from `count` on are unused.
    Position { account: AccountId, balances: [AccountBalance; 16], count: u8 },
    RequestSeqHwm { hwm: u64 },
}

/// The three events that ask for something are queries, and no other is; a
/// request of the node's own has no number and carries its event.
pub proof fn law_queries_are_told_apart(event: TradingEvent, query: bool, own: TradingRequest)
    requires
        call_ensures(TradingEvent::is_query, (&event,), query),
        call_ensures(TradingRequest::internal, (event,), own),
    ensures
        event is QueryStats ==> query,
        event is QueryPosition ==> query,
        event is QueryRequestSeq ==> query,
        query ==> event is QueryStats || event is QueryPosition || event is QueryRequestSeq,
        own.request_seq == 0,
        own.event == event,
{
}

} // verus!
