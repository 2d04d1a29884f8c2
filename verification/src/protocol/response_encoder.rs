//! The exchange's answers as response messages.

use vstd::prelude::*;

use super::message::ResponseKind;
use crate::exchange::trading_event::QueryResponse;
use crate::types::ExecutionReport;

verus! {

/// A response body in a buffer: its tag and its length.
#[derive(Clone, Copy, Debug, PartialEq, Eq, Structural)]
pub struct Encoded {
    pub tag: u8,
    pub len: usize,
}

/// Maps answers to response messages.
#[derive(Clone, Copy, Debug)]
pub struct ResponseEncoder;

/// The response message of an answer to a query.
pub open spec fn query_message(query: QueryResponse) -> ResponseKind {
    match query {
        QueryResponse::Stats { active_connections, events_processed, journal_sequence } => {
            ResponseKind::StatsHeader { active_connections, events_processed, journal_sequence }
        },
        QueryResponse::Position { account, balances, count } => {
            ResponseKind::PositionSnapshot { account, balances, count }
        },
        QueryResponse::RequestSeqHwm { hwm } => ResponseKind::RequestSeqHwm { hwm },
    }
}

impl ResponseEncoder {
    /// The response message of an execution report.
    pub fn encode_report(&self, report: &ExecutionReport) -> (kind: ResponseKind)
        ensures
            kind == ResponseKind::Report(*report),
    {
        ResponseKind::Report(*report)
    }

    /// The response message of an answer to a query.
    pub fn encode_query(&self, query: &QueryResponse) -> (kind: ResponseKind)
        ensures
            kind == query_message(*query),
    {
        match *query {
            QueryResponse::Stats { active_connections, events_processed, journal_sequence } => {
                ResponseKind::StatsHeader { active_connections, events_processed, journal_sequence }
            },
            QueryResponse::Position { account, balances, count } => {
                ResponseKind::PositionSnapshot { account, balances, count }
            },
            QueryResponse::RequestSeqHwm { hwm } => ResponseKind::RequestSeqHwm { hwm },
        }
    }
}

/// What the wire codec's tag and length are to the runtime. An error of the
/// codec loses its detail.
pub fn encode_body<E>(written: Result<(u8, usize), E>) -> (r: Result<Encoded, &'static str>)
    ensures
        match written {
            Ok(pair) => r == Ok::<Encoded, &'static str>(Encoded { tag: pair.0, len: pair.1 }),
            Err(_) => r is Err && r->Err_0@ == "encode error"@,
        },
{
    match written {
        Ok(pair) => Ok(Encoded { tag: pair.0, len: pair.1 }),
        Err(_) => Err("encode error"),
    }
}

/// An answer goes out under its own kind with every value it carries, and no
/// two answers go out as the same message.
pub proof fn law_answer_keeps_its_values(a: QueryResponse, b: QueryResponse)
    ensures
        a matches QueryResponse::Stats { active_connections, events_processed, journal_sequence }
            ==> {
            &&& query_message(a) matches ResponseKind::StatsHeader {
                active_connections: c,
                events_processed: e,
                journal_sequence: j,
            }
            &&& c == active_connections
            &&& e == events_processed
            &&& j == journal_sequence
        },
        a matches QueryResponse::Position { account, balances, count } ==> {
            &&& query_message(a) matches ResponseKind::PositionSnapshot {
                account: owner,
                balances: all,
                count: n,
            }
            &&& owner == account
            &&& all == balances
            &&& n == count
        },
        a matches QueryResponse::RequestSeqHwm { hwm } ==> (query_message(a)
            matches ResponseKind::RequestSeqHwm { hwm: mark } && mark == hwm),
        query_message(a) == query_message(b) ==> a == b,
{
}

/// A report and an answer go out with every value they came with, each under
/// its own name; what was written is told with its tag and length.
pub proof fn law_encoded_values_are_kept(
    encoder: &ResponseEncoder,
    report: &ExecutionReport,
    of_report: ResponseKind,
    query: &QueryResponse,
    of_query: ResponseKind,
)
    requires
        call_ensures(ResponseEncoder::encode_report, (encoder, report), of_report),
        call_ensures(ResponseEncoder::encode_query, (encoder, query), of_query),
    ensures
        of_report == ResponseKind::Report(*report),
        *query matches QueryResponse::Stats {
            active_connections,
            events_processed,
            journal_sequence,
        } ==> (of_query matches ResponseKind::StatsHeader {
            active_connections: a,
            events_processed: e,
            journal_sequence: j,
        } && a == active_connections && e == events_processed && j == journal_sequence),
        *query matches QueryResponse::RequestSeqHwm { hwm } ==> of_query
            == (ResponseKind::RequestSeqHwm { hwm }),
        *query is Position ==> of_query is PositionSnapshot && of_query->PositionSnapshot_account
            == query->Position_account && of_query->PositionSnapshot_count
            == query->Position_count && of_query->PositionSnapshot_balances
            == query->Position_balances,
{
}

} // verus!
