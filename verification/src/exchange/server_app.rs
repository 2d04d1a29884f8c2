//! The application that the sequencer drives: the check against repeated
//! requests, then dispatch to the engine.

use vstd::prelude::*;

use crate::exchange::admission::Exchange;
use crate::exchange::trading_event::{is_query_spec, QueryResponse, TradingEvent, TradingRequest};
use crate::types::{AccountId, ExecutionReport, OrderId, RejectReason, Symbol};

verus! {

/// The exchange as an application of the sequencer.
pub struct ServerApp(pub Exchange);

/// What the sequencer says about the event it applies.
#[derive(Clone, Copy, Debug)]
pub struct ApplyCtx {
    pub now_ns: u64,
    pub journal_sequence: u64,
    pub active_connections: u64,
    pub events_processed: u64,
    /// The key the request was authenticated under, zero for the node itself.
    pub key_hash: u64,
}

/// Why the sequencer refuses a request on its own.
#[derive(Clone, Copy, Debug, PartialEq, Eq, Structural)]
pub enum TransportRejectReason {
    ReplicaDisconnected,
}

/// What became of an event.
#[derive(Clone, Copy, Debug)]
pub enum Applied {
    /// Refused; the report is out.
    Refused,
    /// A query, answered.
    Answer(QueryResponse),
    /// Applied in full.
    Complete,
    /// The event is the matching engine's to carry out.
    Engine(TradingEvent),
}

/// The order an event names, zero where it names none.
pub open spec fn order_id_of(event: TradingEvent) -> OrderId {
    match event {
        TradingEvent::SubmitOrder { order, .. } => order.id,
        TradingEvent::CancelOrder { order_id, .. } => order_id,
        TradingEvent::CancelReplace { order_id, .. } => order_id,
        _ => OrderId(0),
    }
}

/// The account an event names, zero where it names none.
pub open spec fn account_of(event: TradingEvent) -> AccountId {
    match event {
        TradingEvent::SubmitOrder { order, .. } => order.account,
        TradingEvent::CancelOrder { account, .. } => account,
        TradingEvent::CancelAll { account } => account,
        TradingEvent::CancelReplace { account, .. } => account,
        TradingEvent::Deposit { account, .. } => account,
        TradingEvent::Withdraw { account, .. } => account,
        TradingEvent::ProvisionAccount { account, .. } => account,
        TradingEvent::QueryPosition { account } => account,
        _ => AccountId(0),
    }
}

/// The instrument an event names, zero where it names none. An instrument
/// that is yet to be added does not count.
pub open spec fn symbol_of(event: TradingEvent) -> Symbol {
    match event {
        TradingEvent::SubmitOrder { symbol, .. } => symbol,
        TradingEvent::CancelOrder { symbol, .. } => symbol,
        TradingEvent::CancelReplace { symbol, .. } => symbol,
        TradingEvent::SetRiskLimits { symbol, .. } => symbol,
        TradingEvent::SetCircuitBreaker { symbol, .. } => symbol,
        TradingEvent::SetFeeSchedule { symbol, .. } => symbol,
        TradingEvent::DisableInstrument { symbol } => symbol,
        TradingEvent::EnableInstrument { symbol } => symbol,
        TradingEvent::RemoveInstrument { symbol } => symbol,
        _ => Symbol(0),
    }
}

/// The rejection report of an event: it names what the event names.
pub open spec fn rejected_spec(event: TradingEvent, reason: RejectReason) -> ExecutionReport {
    ExecutionReport::Rejected {
        order_id: order_id_of(event),
        symbol: symbol_of(event),
        account: account_of(event),
        reason,
    }
}

/// Whether a request repeats one that its key had accepted before. Queries
/// and the node's own requests never do.
pub open spec fn repeats(e: &Exchange, key: u64, request: TradingRequest) -> bool {
    !is_query_spec(request.event) && key != 0 && request.request_seq <= e.mark(key)
}

/// The marks after a request that is not refused: that of its key has moved to
/// its sequence. Queries and the node's own requests move none.
pub open spec fn moved_marks(e: &Exchange, key: u64, request: TradingRequest) -> Map<u64, u64> {
    if is_query_spec(request.event) || key == 0 {
        e.marks()
    } else {
        e.marks().insert(key, request.request_seq)
    }
}

/// What becomes of an event that is not refused.
pub open spec fn dispatch(e: &Exchange, event: TradingEvent, ctx: ApplyCtx) -> Applied {
    match event {
        TradingEvent::QueryStats => Applied::Answer(
            QueryResponse::Stats {
                active_connections: ctx.active_connections,
                events_processed: ctx.events_processed,
                journal_sequence: ctx.journal_sequence,
            },
        ),
        TradingEvent::QueryRequestSeq => Applied::Answer(
            QueryResponse::RequestSeqHwm { hwm: e.mark(ctx.key_hash) },
        ),
        TradingEvent::SetAccountLimits { .. } => Applied::Complete,
        other => Applied::Engine(other),
    }
}

fn extract_order_id(event: &TradingEvent) -> (id: OrderId)
    ensures
        id == order_id_of(*event),
{
    match *event {
        TradingEvent::SubmitOrder { order, .. } => order.id,
        TradingEvent::CancelOrder { order_id, .. } => order_id,
        TradingEvent::CancelReplace { order_id, .. } => order_id,
        _ => OrderId(0),
    }
}

fn extract_account_id(event: &TradingEvent) -> (account: AccountId)
    ensures
        account == account_of(*event),
{
    match *event {
        TradingEvent::SubmitOrder { order, .. } => order.account,
        TradingEvent::CancelOrder { account, .. } => account,
        TradingEvent::CancelAll { account } => account,
        TradingEvent::CancelReplace { account, .. } => account,
        TradingEvent::Deposit { account, .. } => account,
        TradingEvent::Withdraw { account, .. } => account,
        TradingEvent::ProvisionAccount { account, .. } => account,
        TradingEvent::QueryPosition { account } => account,
        _ => AccountId(0),
    }
}

fn extract_symbol(event: &TradingEvent) -> (symbol: Symbol)
    ensures
        symbol == symbol_of(*event),
{
    match *event {
        TradingEvent::SubmitOrder { symbol, .. } => symbol,
        TradingEvent::CancelOrder { symbol, .. } => symbol,
        TradingEvent::CancelReplace { symbol, .. } => symbol,
        TradingEvent::SetRiskLimits { symbol, .. } => symbol,
        TradingEvent::SetCircuitBreaker { symbol, .. } => symbol,
        TradingEvent::SetFeeSchedule { symbol, .. } => symbol,
        TradingEvent::DisableInstrument { symbol } => symbol,
        TradingEvent::EnableInstrument { symbol } => symbol,
        TradingEvent::RemoveInstrument { symbol } => symbol,
        _ => Symbol(0),
    }
}

/// The rejection report of an event.
pub fn rejected(event: &TradingEvent, reason: RejectReason) -> (r: ExecutionReport)
    ensures
        r == rejected_spec(*event, reason),
{
    ExecutionReport::Rejected {
        order_id: extract_order_id(event),
        symbol: extract_symbol(event),
        account: extract_account_id(event),
        reason,
    }
}

impl ServerApp {
    /// Applies a request: refuses a repeated one before it touches anything,
    /// else moves the clock and the sender's mark and dispatches the event.
    pub fn apply(
        &mut self,
        request: TradingRequest,
        ctx: &ApplyCtx,
        out: &mut Vec<ExecutionReport>,
    ) -> (r: Applied)
        ensures
            repeats(&old(self).0, ctx.key_hash, request) ==> {
                &&& r is Refused
                &&& final(out)@ == old(out)@.push(
                    rejected_spec(request.event, RejectReason::DuplicateRequest),
                )
                &&& final(self).0.same_rules(&old(self).0)
                &&& final(self).0.same_orders(&old(self).0)
            },
            !repeats(&old(self).0, ctx.key_hash, request) ==> {
                &&& final(out)@ == old(out)@
                &&& r == dispatch(&final(self).0, request.event, *ctx)
                &&& final(self).0.now() == ctx.now_ns
                &&& final(self).0.marks() == moved_marks(&old(self).0, ctx.key_hash, request)
                &&& final(self).0.instruments() == old(self).0.instruments()
                &&& final(self).0.live_orders() == old(self).0.live_orders()
                &&& forall|a: AccountId| #[trigger]
                    final(self).0.open_orders(a) == old(self).0.open_orders(a)
                &&& (final(self).0.max_open(), final(self).0.order_rate()) == (
                match request.event {
                    TradingEvent::SetAccountLimits {
                        max_open_orders_per_account,
                        max_orders_per_second,
                        max_orders_burst,
                    } => (max_open_orders_per_account, (max_orders_per_second, max_orders_burst)),
                    _ => (old(self).0.max_open(), old(self).0.order_rate()),
                })
            },
            request.event is QueryStats || request.event is QueryPosition
                || request.event is QueryRequestSeq ==> {
                &&& r !is Refused
                &&& final(out)@ == old(out)@
                &&& final(self).0.marks() == old(self).0.marks()
            },
            request.event !is QueryStats && request.event !is QueryPosition
                && request.event !is QueryRequestSeq && ctx.key_hash != 0 ==> {
                &&& r is Refused <==> request.request_seq <= old(self).0.mark(ctx.key_hash)
                &&& final(self).0.mark(ctx.key_hash) == (if r is Refused {
                    old(self).0.mark(ctx.key_hash)
                } else {
                    request.request_seq
                })
                &&& forall|k: u64| k != ctx.key_hash ==> #[trigger] final(self).0.mark(k) == old(
                    self,
                ).0.mark(k)
            },
            ctx.key_hash == 0 ==> r !is Refused && final(self).0.marks() == old(self).0.marks(),
    {
        proof {
            if request.event is QueryStats || request.event is QueryPosition
                || request.event is QueryRequestSeq || ctx.key_hash == 0 {
                law_queries_are_never_refused(&self.0, ctx.key_hash, request);
            } else {
                law_mark_decides_on_every_other_event(&self.0, ctx.key_hash, request);
            }
        }
        let event: TradingEvent = request.event;
        let ghost before = *self;
        if !event.is_query() && !self.0.check_request_seq(ctx.key_hash, request.request_seq) {
            out.push(rejected(&event, RejectReason::DuplicateRequest));
            return Applied::Refused;
        }
        let ghost marked = *self;
        assert forall|a: AccountId| #[trigger]
            marked.0.open_orders(a) == before.0.open_orders(a) by {}
        self.0.set_current_event_ts_ns(ctx.now_ns);
        let ghost timed = *self;
        assert forall|a: AccountId| #[trigger]
            timed.0.open_orders(a) == before.0.open_orders(a) by {
            assert(marked.0.open_orders(a) == before.0.open_orders(a));
        }
        match event {
            TradingEvent::QueryStats => Applied::Answer(
                QueryResponse::Stats {
                    active_connections: ctx.active_connections,
                    events_processed: ctx.events_processed,
                    journal_sequence: ctx.journal_sequence,
                },
            ),
            TradingEvent::QueryRequestSeq => Applied::Answer(
                QueryResponse::RequestSeqHwm { hwm: self.0.request_seq_hwm(ctx.key_hash) },
            ),
            TradingEvent::SetAccountLimits {
                max_open_orders_per_account,
                max_orders_per_second,
                max_orders_burst,
            } => {
                self.0.set_max_open_orders_per_account(max_open_orders_per_account);
                let ghost capped = *self;
                assert forall|a: AccountId| #[trigger]
                    capped.0.open_orders(a) == before.0.open_orders(a) by {
                    assert(timed.0.open_orders(a) == before.0.open_orders(a));
                }
                self.0.set_max_orders_per_second(max_orders_per_second, max_orders_burst);
                assert forall|a: AccountId| #[trigger]
                    self.0.open_orders(a) == before.0.open_orders(a) by {
                    assert(capped.0.open_orders(a) == before.0.open_orders(a));
                }
                Applied::Complete
            },
            other => Applied::Engine(other),
        }
    }

    /// Reports that the engine refused an event, such as a withdrawal.
    pub fn report_refusal(event: &TradingEvent, outcome: Result<(), RejectReason>, out: &mut Vec<
        ExecutionReport,
    >)
        ensures
            final(out)@ == (match outcome {
                Ok(_) => old(out)@,
                Err(reason) => old(out)@.push(rejected_spec(*event, reason)),
            }),
    {
        match outcome {
            Ok(_) => {},
            Err(reason) => out.push(rejected(event, reason)),
        }
    }

    /// The rejection of a request that the sequencer refused on its own.
    pub fn build_reject(request: &TradingRequest, reason: TransportRejectReason) -> (r:
        ExecutionReport)
        ensures
            r == rejected_spec(
                request.event,
                match reason {
                    TransportRejectReason::ReplicaDisconnected => RejectReason::ReplicaDisconnected,
                },
            ),
    {
        let engine_reason: RejectReason = match reason {
            TransportRejectReason::ReplicaDisconnected => RejectReason::ReplicaDisconnected,
        };
        rejected(&request.event, engine_reason)
    }
}

/// Applying the same request twice under a key other than 0 has the effect of
/// applying it once: the second is refused, whatever came in between, since
/// marks never move back.
pub proof fn law_second_time_is_refused(
    applied: &Exchange,
    later: &Exchange,
    key: u64,
    request: TradingRequest,
)
    requires
        key != 0,
        !is_query_spec(request.event),
        applied.mark(key) == request.request_seq,
        later.mark(key) >= applied.mark(key),
    ensures
        repeats(later, key, request),
{
}

/// Queries and requests of the node itself are never refused as repeated.
pub proof fn law_queries_and_internal_events_are_exempt(e: &Exchange, key: u64, request: TradingRequest)
    requires
        is_query_spec(request.event) || key == 0,
    ensures
        !repeats(e, key, request),
{
}

/// A query is never refused, under any key and with any sequence, and leaves
/// every mark as it is.
pub proof fn law_queries_are_never_refused(e: &Exchange, key: u64, request: TradingRequest)
    requires
        request.event is QueryStats || request.event is QueryPosition
            || request.event is QueryRequestSeq || key == 0,
    ensures
        !repeats(e, key, request),
        moved_marks(e, key, request) == e.marks(),
{
}

/// Under a key other than 0 the mark decides on every event that is no query:
/// it is refused up to the mark, and beyond it the mark moves to its sequence.
pub proof fn law_mark_decides_on_every_other_event(e: &Exchange, key: u64, request: TradingRequest)
    requires
        key != 0,
        match request.event {
            TradingEvent::QueryStats => false,
            TradingEvent::QueryPosition { account } => false,
            TradingEvent::QueryRequestSeq => false,
            _ => true,
        },
    ensures
        repeats(e, key, request) <==> request.request_seq <= e.mark(key),
        moved_marks(e, key, request) == e.marks().insert(key, request.request_seq),
{
}

/// A rejection names the order, the account and the instrument that the event
/// carries, and zero for what it does not carry.
pub proof fn law_rejection_names_what_the_event_carries(event: TradingEvent, reason: RejectReason)
    ensures
        rejected_spec(event, reason) == ({
            let named = |order_id: OrderId, account: AccountId, symbol: Symbol|
                ExecutionReport::Rejected { order_id, symbol, account, reason };
            match event {
                TradingEvent::AddInstrument { spec } => named(OrderId(0), AccountId(0), Symbol(0)),
                TradingEvent::Deposit { account, currency, amount } => named(
                    OrderId(0),
                    account,
                    Symbol(0),
                ),
                TradingEvent::SubmitOrder { symbol, order } => named(
                    order.id,
                    order.account,
                    symbol,
                ),
                TradingEvent::CancelOrder { symbol, account, order_id } => named(
                    order_id,
                    account,
                    symbol,
                ),
                TradingEvent::SetRiskLimits { symbol, limits } => named(
                    OrderId(0),
                    AccountId(0),
                    symbol,
                ),
                TradingEvent::CancelAll { account } => named(OrderId(0), account, Symbol(0)),
                TradingEvent::SetCircuitBreaker { symbol, config } => named(
                    OrderId(0),
                    AccountId(0),
                    symbol,
                ),
                TradingEvent::CancelReplace {
                    symbol,
                    account,
                    order_id,
                    new_price,
                    new_quantity,
                } => named(order_id, account, symbol),
                TradingEvent::SetFeeSchedule { symbol, schedule } => named(
                    OrderId(0),
                    AccountId(0),
                    symbol,
                ),
                TradingEvent::ProvisionAccount { account, amount } => named(
                    OrderId(0),
                    account,
                    Symbol(0),
                ),
                TradingEvent::Withdraw { account, currency, amount } => named(
                    OrderId(0),
                    account,
                    Symbol(0),
                ),
                TradingEvent::EndOfDay => named(OrderId(0), AccountId(0), Symbol(0)),
                TradingEvent::DisableInstrument { symbol } => named(
                    OrderId(0),
                    AccountId(0),
                    symbol,
                ),
                TradingEvent::EnableInstrument { symbol } => named(
                    OrderId(0),
                    AccountId(0),
                    symbol,
                ),
                TradingEvent::RemoveInstrument { symbol } => named(
                    OrderId(0),
                    AccountId(0),
                    symbol,
                ),
                TradingEvent::QueryStats => named(OrderId(0), AccountId(0), Symbol(0)),
                TradingEvent::QueryPosition { account } => named(OrderId(0), account, Symbol(0)),
                TradingEvent::QueryRequestSeq => named(OrderId(0), AccountId(0), Symbol(0)),
                TradingEvent::SetAccountLimits {
                    max_open_orders_per_account,
                    max_orders_per_second,
                    max_orders_burst,
                } => named(OrderId(0), AccountId(0), Symbol(0)),
            }
        }),
{
}

/// Statistics and request marks are answered from what the sequencer and the
/// exchange know, account limits are set on the spot, and every other event
/// goes to the engine as it came.
pub proof fn law_dispatch_by_event(e: &Exchange, event: TradingEvent, ctx: ApplyCtx)
    ensures
        event is QueryStats <==> (dispatch(e, event, ctx) matches Applied::Answer(q) && q is Stats),
        event is QueryRequestSeq <==> (dispatch(e, event, ctx) matches Applied::Answer(q)
            && q is RequestSeqHwm),
        event is SetAccountLimits <==> dispatch(e, event, ctx) is Complete,
        dispatch(e, event, ctx) !is Refused,
        dispatch(e, event, ctx) matches Applied::Engine(to_engine) ==> to_engine == event,
        dispatch(e, event, ctx) matches Applied::Answer(q) ==> match q {
            QueryResponse::Stats { active_connections, events_processed, journal_sequence } => {
                &&& active_connections == ctx.active_connections
                &&& events_processed == ctx.events_processed
                &&& journal_sequence == ctx.journal_sequence
            },
            QueryResponse::RequestSeqHwm { hwm } => hwm == e.mark(ctx.key_hash),
            QueryResponse::Position { account, balances, count } => false,
        },
{
}

/// Whatever request is applied: a query is answered or handed on under every
/// key and sequence, adds no report and moves no mark. Every other event under
/// a key other than 0 is refused up to the key's mark, with one report, and
/// moves the mark beyond it.
pub proof fn law_applied_requests(
    app: &mut ServerApp,
    request: TradingRequest,
    ctx: &ApplyCtx,
    out: &mut Vec<ExecutionReport>,
    r: Applied,
)
    requires
        call_ensures(ServerApp::apply, (app, request, ctx, out), r),
    ensures
        match request.event {
            TradingEvent::QueryStats
            | TradingEvent::QueryPosition { .. }
            | TradingEvent::QueryRequestSeq => {
                &&& r !is Refused
                &&& final(out)@ == old(out)@
                &&& final(app).0.marks() == old(app).0.marks()
            },
            _ => if ctx.key_hash == 0 {
                &&& r !is Refused
                &&& final(out)@ == old(out)@
                &&& final(app).0.marks() == old(app).0.marks()
            } else if request.request_seq <= old(app).0.mark(ctx.key_hash) {
                &&& r is Refused
                &&& final(out)@.len() == old(out)@.len() + 1
                &&& final(out)@.last() matches ExecutionReport::Rejected { reason, .. }
                &&& reason == RejectReason::DuplicateRequest
                &&& final(app).0.marks() == old(app).0.marks()
                &&& final(app).0.now() == old(app).0.now()
            } else {
                &&& r !is Refused
                &&& final(out)@ == old(out)@
                &&& final(app).0.mark(ctx.key_hash) == request.request_seq
                &&& final(app).0.now() == ctx.now_ns
            },
        },
        r !is Refused ==> match request.event {
            TradingEvent::QueryStats => r matches Applied::Answer(QueryResponse::Stats {
                active_connections,
                events_processed,
                journal_sequence,
            }) && active_connections == ctx.active_connections && events_processed
                == ctx.events_processed && journal_sequence == ctx.journal_sequence,
            TradingEvent::QueryRequestSeq => r matches Applied::Answer(
                QueryResponse::RequestSeqHwm { hwm },
            ) && hwm == old(app).0.mark(ctx.key_hash),
            TradingEvent::SetAccountLimits {
                max_open_orders_per_account,
                max_orders_per_second,
                max_orders_burst,
            } => {
                &&& r is Complete
                &&& final(app).0.max_open() == max_open_orders_per_account
                &&& final(app).0.order_rate() == (max_orders_per_second, max_orders_burst)
            },
            _ => {
                &&& r matches Applied::Engine(event)
                &&& event == request.event
                &&& final(app).0.max_open() == old(app).0.max_open()
                &&& final(app).0.order_rate() == old(app).0.order_rate()
            },
        },
{
}

/// A refused event is answered with one rejection behind what was answered,
/// for its order and with the reason; one that is not refused with nothing.
pub proof fn law_refusal_is_reported_once(
    event: &TradingEvent,
    outcome: Result<(), RejectReason>,
    out: &mut Vec<ExecutionReport>,
    built: ExecutionReport,
    symbol: Symbol,
    order: crate::types::Order,
)
    requires
        call_ensures(ServerApp::report_refusal, (event, outcome, out), ()),
        outcome matches Err(reason) ==> call_ensures(rejected, (event, reason), built),
        *event == (TradingEvent::SubmitOrder { symbol, order }),
    ensures
        outcome is Ok ==> final(out)@ == old(out)@,
        outcome matches Err(given) ==> {
            &&& final(out)@ == old(out)@ + seq![built]
            &&& built == (ExecutionReport::Rejected {
                order_id: order.id,
                symbol,
                account: order.account,
                reason: given,
            })
        },
{
    if outcome is Err {
        assert(old(out)@.push(built) =~= old(out)@ + seq![built]);
    }
}

/// A request that the transport refuses is answered as the engine would
/// refuse its event, because its replica is gone.
pub proof fn law_transport_refuses_like_the_engine(
    request: &TradingRequest,
    built: ExecutionReport,
    refused: ExecutionReport,
)
    requires
        call_ensures(
            ServerApp::build_reject,
            (request, TransportRejectReason::ReplicaDisconnected),
            built,
        ),
        call_ensures(rejected, (&request.event, RejectReason::ReplicaDisconnected), refused),
    ensures
        built == refused,
        built matches ExecutionReport::Rejected { reason, .. } && reason
            == RejectReason::ReplicaDisconnected,
{
}

} // verus!
