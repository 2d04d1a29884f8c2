//! Tallies of what the server answered over a run.
//!
//! Without them a run in which every order is rejected looks like a clean
//! one: its latencies are fine.

use vstd::prelude::*;
use vstd::string::StringExecFns;

use crate::protocol::message::{ResponseKind, ServerFrame};
use crate::text::{decimal, decimal_string};
use crate::types::{ExecutionReport, RejectReason};

verus! {

/// Number of reject reasons.
pub const REJECT_REASON_COUNT: usize = 22;

/// How many reject reasons a summary shows.
pub const TOP_REASONS: usize = 5;

/// The place of a reject reason in the table.
pub open spec fn reason_index(reason: RejectReason) -> int {
    match reason {
        RejectReason::NoLiquidity => 0,
        RejectReason::FOKCannotFill => 1,
        RejectReason::InsufficientBalance => 2,
        RejectReason::UnknownAccount => 3,
        RejectReason::UnknownSymbol => 4,
        RejectReason::SelfTradePrevented => 5,
        RejectReason::DuplicateOrderId => 6,
        RejectReason::ExceedsMaxOrderQty => 7,
        RejectReason::ExceedsMaxNotional => 8,
        RejectReason::TradingHalted => 9,
        RejectReason::OutsidePriceBand => 10,
        RejectReason::UnknownOrder => 11,
        RejectReason::PriceWouldCross => 12,
        RejectReason::PostOnlyWouldCross => 13,
        RejectReason::HasRestingOrders => 14,
        RejectReason::DuplicateRequest => 15,
        RejectReason::ReplicaDisconnected => 16,
        RejectReason::InvalidExpiry => 17,
        RejectReason::InstrumentDisabled => 18,
        RejectReason::ExceedsMaxOpenOrders => 19,
        RejectReason::ExceedsOrderRate => 20,
        RejectReason::Superseded => 21,
    }
}

/// The name of the reject reason at a place of the table.
pub open spec fn reason_name(i: int) -> Seq<char> {
    if i == 0 {
        "NoLiquidity"@
    } else if i == 1 {
        "FOKCannotFill"@
    } else if i == 2 {
        "InsufficientBalance"@
    } else if i == 3 {
        "UnknownAccount"@
    } else if i == 4 {
        "UnknownSymbol"@
    } else if i == 5 {
        "SelfTradePrevented"@
    } else if i == 6 {
        "DuplicateOrderId"@
    } else if i == 7 {
        "ExceedsMaxOrderQty"@
    } else if i == 8 {
        "ExceedsMaxNotional"@
    } else if i == 9 {
        "TradingHalted"@
    } else if i == 10 {
        "OutsidePriceBand"@
    } else if i == 11 {
        "UnknownOrder"@
    } else if i == 12 {
        "PriceWouldCross"@
    } else if i == 13 {
        "PostOnlyWouldCross"@
    } else if i == 14 {
        "HasRestingOrders"@
    } else if i == 15 {
        "DuplicateRequest"@
    } else if i == 16 {
        "ReplicaDisconnected"@
    } else if i == 17 {
        "InvalidExpiry"@
    } else if i == 18 {
        "InstrumentDisabled"@
    } else if i == 19 {
        "ExceedsMaxOpenOrders"@
    } else if i == 20 {
        "ExceedsOrderRate"@
    } else {
        "Superseded"@
    }
}

/// The place of a reject reason in the table.
pub fn reject_reason_index(reason: RejectReason) -> (i: usize)
    ensures
        i == reason_index(reason),
        i < REJECT_REASON_COUNT,
{
    match reason {
        RejectReason::NoLiquidity => 0,
        RejectReason::FOKCannotFill => 1,
        RejectReason::InsufficientBalance => 2,
        RejectReason::UnknownAccount => 3,
        RejectReason::UnknownSymbol => 4,
        RejectReason::SelfTradePrevented => 5,
        RejectReason::DuplicateOrderId => 6,
        RejectReason::ExceedsMaxOrderQty => 7,
        RejectReason::ExceedsMaxNotional => 8,
        RejectReason::TradingHalted => 9,
        RejectReason::OutsidePriceBand => 10,
        RejectReason::UnknownOrder => 11,
        RejectReason::PriceWouldCross => 12,
        RejectReason::PostOnlyWouldCross => 13,
        RejectReason::HasRestingOrders => 14,
        RejectReason::DuplicateRequest => 15,
        RejectReason::ReplicaDisconnected => 16,
        RejectReason::InvalidExpiry => 17,
        RejectReason::InstrumentDisabled => 18,
        RejectReason::ExceedsMaxOpenOrders => 19,
        RejectReason::ExceedsOrderRate => 20,
        RejectReason::Superseded => 21,
    }
}

/// The table of reject reasons.
pub fn reject_reasons() -> (table: [RejectReason; 22])
    ensures
        forall|i: int| 0 <= i < 22 ==> reason_index(#[trigger] table@[i]) == i,
{
    [
        RejectReason::NoLiquidity,
        RejectReason::FOKCannotFill,
        RejectReason::InsufficientBalance,
        RejectReason::UnknownAccount,
        RejectReason::UnknownSymbol,
        RejectReason::SelfTradePrevented,
        RejectReason::DuplicateOrderId,
        RejectReason::ExceedsMaxOrderQty,
        RejectReason::ExceedsMaxNotional,
        RejectReason::TradingHalted,
        RejectReason::OutsidePriceBand,
        RejectReason::UnknownOrder,
        RejectReason::PriceWouldCross,
        RejectReason::PostOnlyWouldCross,
        RejectReason::HasRestingOrders,
        RejectReason::DuplicateRequest,
        RejectReason::ReplicaDisconnected,
        RejectReason::InvalidExpiry,
        RejectReason::InstrumentDisabled,
        RejectReason::ExceedsMaxOpenOrders,
        RejectReason::ExceedsOrderRate,
        RejectReason::Superseded,
    ]
}

/// The name of the reject reason at a place of the table.
pub fn reject_reason_name(i: usize) -> (name: &'static str)
    requires
        i < REJECT_REASON_COUNT,
    ensures
        name@ == reason_name(i as int),
{
    if i == 0 {
        "NoLiquidity"
    } else if i == 1 {
        "FOKCannotFill"
    } else if i == 2 {
        "InsufficientBalance"
    } else if i == 3 {
        "UnknownAccount"
    } else if i == 4 {
        "UnknownSymbol"
    } else if i == 5 {
        "SelfTradePrevented"
    } else if i == 6 {
        "DuplicateOrderId"
    } else if i == 7 {
        "ExceedsMaxOrderQty"
    } else if i == 8 {
        "ExceedsMaxNotional"
    } else if i == 9 {
        "TradingHalted"
    } else if i == 10 {
        "OutsidePriceBand"
    } else if i == 11 {
        "UnknownOrder"
    } else if i == 12 {
        "PriceWouldCross"
    } else if i == 13 {
        "PostOnlyWouldCross"
    } else if i == 14 {
        "HasRestingOrders"
    } else if i == 15 {
        "DuplicateRequest"
    } else if i == 16 {
        "ReplicaDisconnected"
    } else if i == 17 {
        "InvalidExpiry"
    } else if i == 18 {
        "InstrumentDisabled"
    } else if i == 19 {
        "ExceedsMaxOpenOrders"
    } else if i == 20 {
        "ExceedsOrderRate"
    } else {
        "Superseded"
    }
}

/// Number of each kind of answer over a run.
#[derive(Clone, Copy, Debug)]
pub struct OutcomeReport {
    /// Acknowledged requests.
    pub batch_ends: u64,
    pub placed: u64,
    pub fills: u64,
    pub cancelled: u64,
    pub triggered: u64,
    pub replaced: u64,
    pub instrument_status: u64,
    pub rejected: u64,
    pub engine_errors: u64,
    pub server_busy: u64,
    /// Rejections of each reason, in the order of the table.
    pub reject_reasons: [u64; 22],
}

/// Numbers of answers.
#[verifier::ext_equal]
pub ghost struct Tallies {
    pub batch_ends: int,
    pub placed: int,
    pub fills: int,
    pub cancelled: int,
    pub triggered: int,
    pub replaced: int,
    pub instrument_status: int,
    pub rejected: int,
    pub engine_errors: int,
    pub server_busy: int,
    pub reasons: Seq<int>,
}

impl Tallies {
    /// No answers.
    pub open spec fn none() -> Tallies {
        Tallies {
            batch_ends: 0,
            placed: 0,
            fills: 0,
            cancelled: 0,
            triggered: 0,
            replaced: 0,
            instrument_status: 0,
            rejected: 0,
            engine_errors: 0,
            server_busy: 0,
            reasons: Seq::new(22, |i: int| 0),
        }
    }

    /// These numbers with one report more.
    pub open spec fn with_report(self, report: ExecutionReport) -> Tallies {
        match report {
            ExecutionReport::Placed { .. } => Tallies { placed: self.placed + 1, ..self },
            ExecutionReport::Fill { .. } => Tallies { fills: self.fills + 1, ..self },
            ExecutionReport::Cancelled { .. } => Tallies { cancelled: self.cancelled + 1, ..self },
            ExecutionReport::Triggered { .. } => Tallies { triggered: self.triggered + 1, ..self },
            ExecutionReport::Replaced { .. } => Tallies { replaced: self.replaced + 1, ..self },
            ExecutionReport::InstrumentStatusChanged { .. } => Tallies {
                instrument_status: self.instrument_status + 1,
                ..self
            },
            ExecutionReport::Rejected { reason, .. } => Tallies {
                rejected: self.rejected + 1,
                reasons: self.reasons.update(
                    reason_index(reason),
                    self.reasons[reason_index(reason)] + 1,
                ),
                ..self
            },
        }
    }

    /// These numbers with one frame more. Frames that answer no request do
    /// not count.
    pub open spec fn with_frame(self, frame: ServerFrame) -> Tallies {
        match frame {
            ServerFrame::BatchEnd => Tallies { batch_ends: self.batch_ends + 1, ..self },
            ServerFrame::Response(ResponseKind::Report(report)) => self.with_report(report),
            ServerFrame::EngineError => Tallies { engine_errors: self.engine_errors + 1, ..self },
            ServerFrame::ServerBusy => Tallies { server_busy: self.server_busy + 1, ..self },
            _ => self,
        }
    }

    /// These numbers and others together.
    pub open spec fn merged(self, other: Tallies) -> Tallies {
        Tallies {
            batch_ends: self.batch_ends + other.batch_ends,
            placed: self.placed + other.placed,
            fills: self.fills + other.fills,
            cancelled: self.cancelled + other.cancelled,
            triggered: self.triggered + other.triggered,
            replaced: self.replaced + other.replaced,
            instrument_status: self.instrument_status + other.instrument_status,
            rejected: self.rejected + other.rejected,
            engine_errors: self.engine_errors + other.engine_errors,
            server_busy: self.server_busy + other.server_busy,
            reasons: Seq::new(22, |i: int| self.reasons[i] + other.reasons[i]),
        }
    }

    /// Whether every number stays within a bound.
    pub open spec fn within(self, bound: int) -> bool {
        &&& self.batch_ends <= bound
        &&& self.placed <= bound
        &&& self.fills <= bound
        &&& self.cancelled <= bound
        &&& self.triggered <= bound
        &&& self.replaced <= bound
        &&& self.instrument_status <= bound
        &&& self.rejected <= bound
        &&& self.engine_errors <= bound
        &&& self.server_busy <= bound
        &&& forall|i: int| 0 <= i < 22 ==> #[trigger] self.reasons[i] <= bound
    }
}

impl View for OutcomeReport {
    type V = Tallies;

    open spec fn view(&self) -> Tallies {
        Tallies {
            batch_ends: self.batch_ends as int,
            placed: self.placed as int,
            fills: self.fills as int,
            cancelled: self.cancelled as int,
            triggered: self.triggered as int,
            replaced: self.replaced as int,
            instrument_status: self.instrument_status as int,
            rejected: self.rejected as int,
            engine_errors: self.engine_errors as int,
            server_busy: self.server_busy as int,
            reasons: Seq::new(22, |i: int| self.reject_reasons@[i] as int),
        }
    }
}

/// Whether a reason with some count comes before another in a summary: the
/// more frequent first, those as frequent in the order of the table.
pub open spec fn outranks(i: int, n: int, j: int, m: int) -> bool {
    n > m || (n == m && i < j)
}

/// Whether some reasons are the most frequent ones, in their order.
pub open spec fn are_top_reasons(reasons: Seq<int>, top: Seq<(usize, u64)>) -> bool {
    &&& top.len() <= TOP_REASONS
    &&& forall|a: int|
        0 <= a < top.len() ==> {
            &&& (#[trigger] top[a]).0 < reasons.len()
            &&& top[a].1 == reasons[top[a].0 as int]
            &&& top[a].1 > 0
        }
    &&& forall|a: int, b: int|
        0 <= a < b < top.len() ==> outranks(
            (#[trigger] top[a]).0 as int,
            top[a].1 as int,
            (#[trigger] top[b]).0 as int,
            top[b].1 as int,
        )
    &&& forall|i: int|
        0 <= i < reasons.len() && #[trigger] reasons[i] > 0 ==> listed(top, i) || (top.len()
            == TOP_REASONS && outranks(
            top.last().0 as int,
            top.last().1 as int,
            i,
            reasons[i],
        ))
}

/// Whether a reason is among some.
pub open spec fn listed(top: Seq<(usize, u64)>, i: int) -> bool {
    exists|a: int| 0 <= a < top.len() && (#[trigger] top[a]).0 == i
}

/// Reasons that occurred, as entries of the results file.
pub open spec fn reasons_text(reasons: Seq<int>) -> Seq<char>
    decreases reasons.len(),
{
    if reasons.len() == 0 {
        Seq::empty()
    } else {
        let before = reasons_text(reasons.drop_last());
        let i = reasons.len() - 1;
        if reasons.last() == 0 {
            before
        } else {
            before + (if before.len() == 0 {
                Seq::empty()
            } else {
                ","@
            }) + "\""@ + reason_name(i) + "\":"@ + decimal(reasons.last() as nat)
        }
    }
}

/// The `outcomes` object of the results file. The reasons that did not occur
/// are left out.
pub open spec fn outcomes_text(t: Tallies) -> Seq<char> {
    "{\"batch_ends\":"@ + decimal(t.batch_ends as nat) + ",\"placed\":"@ + decimal(t.placed as nat)
        + ",\"fills\":"@ + decimal(t.fills as nat) + ",\"cancelled\":"@ + decimal(
        t.cancelled as nat,
    ) + ",\"triggered\":"@ + decimal(t.triggered as nat) + ",\"replaced\":"@ + decimal(
        t.replaced as nat,
    ) + ",\"rejected\":"@ + decimal(t.rejected as nat) + ",\"engine_errors\":"@ + decimal(
        t.engine_errors as nat,
    ) + ",\"server_busy\":"@ + decimal(t.server_busy as nat) + ",\"reject_reasons\":{"@
        + reasons_text(t.reasons) + "}}"@
}

fn append_count(s: &mut String, key: &str, n: u64)
    ensures
        final(s)@ == old(s)@ + key@ + decimal(n as nat),
{
    s.append(key);
    s.append(decimal_string(n).as_str());
}

impl Default for OutcomeReport {
    fn default() -> (r: OutcomeReport)
        ensures
            r@ == Tallies::none(),
    {
        let r = OutcomeReport {
            batch_ends: 0,
            placed: 0,
            fills: 0,
            cancelled: 0,
            triggered: 0,
            replaced: 0,
            instrument_status: 0,
            rejected: 0,
            engine_errors: 0,
            server_busy: 0,
            reject_reasons: [0; 22],
        };
        assert(r@ =~= Tallies::none());
        r
    }
}

impl OutcomeReport {
    /// Whether every counter can take one more.
    pub open spec fn room(&self) -> bool {
        self@.within(u64::MAX - 1)
    }

    /// Whether every counter can take one more.
    pub fn has_room(&self) -> (b: bool)
        ensures
            b == self.room(),
    {
        let mut i: usize = 0;
        while i < REJECT_REASON_COUNT
            invariant
                0 <= i <= REJECT_REASON_COUNT,
                forall|j: int| 0 <= j < i ==> self.reject_reasons@[j] < u64::MAX,
            decreases REJECT_REASON_COUNT - i,
        {
            if self.reject_reasons[i] == u64::MAX {
                assert(self@.reasons[i as int] == u64::MAX);
                return false;
            }
            i = i + 1;
        }
        self.batch_ends < u64::MAX && self.placed < u64::MAX && self.fills < u64::MAX
            && self.cancelled < u64::MAX && self.triggered < u64::MAX && self.replaced < u64::MAX
            && self.instrument_status < u64::MAX && self.rejected < u64::MAX
            && self.engine_errors < u64::MAX && self.server_busy < u64::MAX
    }

    /// Counts one frame.
    pub fn record(&mut self, frame: &ServerFrame)
        requires
            old(self).room(),
        ensures
            final(self)@ == old(self)@.with_frame(*frame),
    {
        match frame {
            ServerFrame::BatchEnd => {
                self.batch_ends = self.batch_ends + 1;
            },
            ServerFrame::Response(ResponseKind::Report(report)) => {
                self.record_execution_report(report);
            },
            ServerFrame::EngineError => {
                self.engine_errors = self.engine_errors + 1;
            },
            ServerFrame::ServerBusy => {
                self.server_busy = self.server_busy + 1;
            },
            _ => {},
        }
        assert(self@ =~= old(self)@.with_frame(*frame));
    }

    /// Counts one execution report.
    pub fn record_execution_report(&mut self, report: &ExecutionReport)
        requires
            old(self).room(),
        ensures
            final(self)@ == old(self)@.with_report(*report),
    {
        match report {
            ExecutionReport::Placed { .. } => {
                self.placed = self.placed + 1;
            },
            ExecutionReport::Fill { .. } => {
                self.fills = self.fills + 1;
            },
            ExecutionReport::Cancelled { .. } => {
                self.cancelled = self.cancelled + 1;
            },
            ExecutionReport::Triggered { .. } => {
                self.triggered = self.triggered + 1;
            },
            ExecutionReport::Replaced { .. } => {
                self.replaced = self.replaced + 1;
            },
            ExecutionReport::InstrumentStatusChanged { .. } => {
                self.instrument_status = self.instrument_status + 1;
            },
            ExecutionReport::Rejected { reason, .. } => {
                self.rejected = self.rejected + 1;
                let i: usize = reject_reason_index(*reason);
                assert(old(self)@.reasons[i as int] < u64::MAX);
                self.reject_reasons[i] = self.reject_reasons[i] + 1;
            },
        }
        assert(self@ =~= old(self)@.with_report(*report));
    }

    /// Whether another's tallies can be added.
    pub fn fits(&self, other: &OutcomeReport) -> (b: bool)
        ensures
            b == self@.merged(other@).within(u64::MAX as int),
    {
        let ghost sum = self@.merged(other@);
        let mut i: usize = 0;
        while i < REJECT_REASON_COUNT
            invariant
                0 <= i <= REJECT_REASON_COUNT,
                sum == self@.merged(other@),
                forall|j: int| 0 <= j < i ==> #[trigger] sum.reasons[j] <= u64::MAX,
            decreases REJECT_REASON_COUNT - i,
        {
            if other.reject_reasons[i] > u64::MAX - self.reject_reasons[i] {
                assert(sum.reasons[i as int] > u64::MAX);
                return false;
            }
            i = i + 1;
        }
        other.batch_ends <= u64::MAX - self.batch_ends && other.placed <= u64::MAX - self.placed
            && other.fills <= u64::MAX - self.fills && other.cancelled <= u64::MAX - self.cancelled
            && other.triggered <= u64::MAX - self.triggered && other.replaced <= u64::MAX
            - self.replaced && other.instrument_status <= u64::MAX - self.instrument_status
            && other.rejected <= u64::MAX - self.rejected && other.engine_errors <= u64::MAX
            - self.engine_errors && other.server_busy <= u64::MAX - self.server_busy
    }

    /// Adds the tallies of another connection or thread.
    pub fn merge(&mut self, other: &OutcomeReport)
        requires
            old(self)@.merged(other@).within(u64::MAX as int),
        ensures
            final(self)@ == old(self)@.merged(other@),
    {
        let ghost sum = self@.merged(other@);
        self.batch_ends = self.batch_ends + other.batch_ends;
        self.placed = self.placed + other.placed;
        self.fills = self.fills + other.fills;
        self.cancelled = self.cancelled + other.cancelled;
        self.triggered = self.triggered + other.triggered;
        self.replaced = self.replaced + other.replaced;
        self.instrument_status = self.instrument_status + other.instrument_status;
        self.rejected = self.rejected + other.rejected;
        self.engine_errors = self.engine_errors + other.engine_errors;
        self.server_busy = self.server_busy + other.server_busy;
        let ghost counted = *self;
        let mut i: usize = 0;
        while i < REJECT_REASON_COUNT
            invariant
                0 <= i <= REJECT_REASON_COUNT,
                sum == old(self)@.merged(other@),
                sum.within(u64::MAX as int),
                counted.reject_reasons == old(self).reject_reasons,
                *self == (OutcomeReport { reject_reasons: self.reject_reasons, ..counted }),
                forall|j: int|
                    0 <= j < 22 ==> #[trigger] self.reject_reasons@[j] == (if j < i {
                        sum.reasons[j]
                    } else {
                        counted.reject_reasons@[j] as int
                    }),
            decreases REJECT_REASON_COUNT - i,
        {
            assert(sum.reasons[i as int] <= u64::MAX);
            self.reject_reasons[i] = self.reject_reasons[i] + other.reject_reasons[i];
            i = i + 1;
        }
        assert(self@ =~= sum);
    }

    /// The rejected part of the acknowledged requests, as a fraction. A run
    /// without acknowledged requests has no rejected part.
    pub fn rejection_ratio(&self) -> (parts: (u64, u64))
        ensures
            parts == (if self.batch_ends == 0 {
                (0u64, 1u64)
            } else {
                (self.rejected, self.batch_ends)
            }),
    {
        if self.batch_ends == 0 {
            (0, 1)
        } else {
            (self.rejected, self.batch_ends)
        }
    }

    /// The most frequent reject reasons by their place in the table, the
    /// most frequent first.
    pub fn top_reasons(&self) -> (top: Vec<(usize, u64)>)
        ensures
            are_top_reasons(self@.reasons, top@),
    {
        let ghost reasons = self@.reasons;
        let mut top: Vec<(usize, u64)> = Vec::new();
        while top.len() < TOP_REASONS
            invariant
                reasons == self@.reasons,
                top@.len() <= TOP_REASONS,
                forall|a: int|
                    0 <= a < top@.len() ==> {
                        &&& (#[trigger] top@[a]).0 < 22
                        &&& top@[a].1 == reasons[top@[a].0 as int]
                        &&& top@[a].1 > 0
                    },
                forall|a: int, b: int|
                    0 <= a < b < top@.len() ==> outranks(
                        (#[trigger] top@[a]).0 as int,
                        top@[a].1 as int,
                        (#[trigger] top@[b]).0 as int,
                        top@[b].1 as int,
                    ),
                forall|i: int|
                    0 <= i < 22 && #[trigger] reasons[i] > 0 ==> listed(top@, i) || top@.len() == 0
                        || outranks(
                        top@.last().0 as int,
                        top@.last().1 as int,
                        i,
                        reasons[i],
                    ),
            decreases TOP_REASONS - top@.len(),
        {
            let best: usize = self.next_reason(&top);
            if best == REJECT_REASON_COUNT {
                return top;
            }
            let ghost before = top@;
            top.push((best, self.reject_reasons[best]));
            proof {
                assert forall|i: int| 0 <= i < 22 && #[trigger] reasons[i] > 0 implies listed(
                    top@,
                    i,
                ) || outranks(top@.last().0 as int, top@.last().1 as int, i, reasons[i]) by {
                    if listed(before, i) {
                        let a = choose|a: int| 0 <= a < before.len() && (#[trigger] before[a]).0 == i;
                        assert(top@[a].0 == i);
                    } else if i == best {
                        assert(top@[before.len() as int].0 == i);
                    }
                }
            }
        }
        top
    }

    /// The most frequent reason that is not among those before, or the end
    /// of the table.
    fn next_reason(&self, before: &Vec<(usize, u64)>) -> (best: usize)
        requires
            forall|a: int|
                0 <= a < before@.len() ==> {
                    &&& (#[trigger] before@[a]).0 < 22
                    &&& before@[a].1 == self@.reasons[before@[a].0 as int]
                },
            forall|a: int, b: int|
                0 <= a < b < before@.len() ==> outranks(
                    (#[trigger] before@[a]).0 as int,
                    before@[a].1 as int,
                    (#[trigger] before@[b]).0 as int,
                    before@[b].1 as int,
                ),
        ensures
            best <= 22,
            best < 22 ==> {
                &&& self@.reasons[best as int] > 0
                &&& !listed(before@, best as int)
                &&& before@.len() > 0 ==> outranks(
                    before@.last().0 as int,
                    before@.last().1 as int,
                    best as int,
                    self@.reasons[best as int],
                )
                &&& forall|a: int|
                    0 <= a < before@.len() ==> outranks(
                        (#[trigger] before@[a]).0 as int,
                        before@[a].1 as int,
                        best as int,
                        self@.reasons[best as int],
                    )
                &&& forall|i: int|
                    0 <= i < 22 && #[trigger] self@.reasons[i] > 0 && i != best && (before@.len()
                        == 0 || outranks(
                        before@.last().0 as int,
                        before@.last().1 as int,
                        i,
                        self@.reasons[i],
                    )) ==> outranks(best as int, self@.reasons[best as int], i, self@.reasons[i])
            },
            best == 22 ==> forall|i: int|
                0 <= i < 22 && #[trigger] self@.reasons[i] > 0 ==> before@.len() > 0 && !outranks(
                    before@.last().0 as int,
                    before@.last().1 as int,
                    i,
                    self@.reasons[i],
                ),
    {
        let ghost reasons = self@.reasons;
        let mut best: usize = REJECT_REASON_COUNT;
        let mut i: usize = 0;
        let n: usize = before.len();
        while i < REJECT_REASON_COUNT
            invariant
                reasons == self@.reasons,
                0 <= i <= 22,
                n == before@.len(),
                best == 22 || best < i,
                best < 22 ==> {
                    &&& reasons[best as int] > 0
                    &&& n > 0 ==> outranks(
                        before@.last().0 as int,
                        before@.last().1 as int,
                        best as int,
                        reasons[best as int],
                    )
                },
                forall|j: int|
                    0 <= j < i && #[trigger] reasons[j] > 0 && j != best && (n == 0 || outranks(
                        before@.last().0 as int,
                        before@.last().1 as int,
                        j,
                        reasons[j],
                    )) ==> best < 22 && outranks(best as int, reasons[best as int], j, reasons[j]),
            decreases 22 - i,
        {
            let count: u64 = self.reject_reasons[i];
            assert(count == reasons[i as int]);
            let after: bool = n == 0 || before[n - 1].1 > count || (before[n - 1].1 == count
                && before[n - 1].0 < i);
            if count > 0 && after && (best == REJECT_REASON_COUNT || count
                > self.reject_reasons[best]) {
                best = i;
            }
            i = i + 1;
        }
        proof {
            if best < 22 && n > 0 {
                assert forall|a: int| 0 <= a < n implies outranks(
                    (#[trigger] before@[a]).0 as int,
                    before@[a].1 as int,
                    best as int,
                    reasons[best as int],
                ) by {
                    if a < n - 1 {
                        let last = before@[n - 1];
                        assert(outranks(
                            before@[a].0 as int,
                            before@[a].1 as int,
                            last.0 as int,
                            last.1 as int,
                        ));
                    }
                }
            }
        }
        best
    }

    /// The `outcomes` object of the results file.
    pub fn render_json(&self) -> (json: String)
        ensures
            json@ == outcomes_text(self@),
    {
        let mut json: String = String::new();
        append_count(&mut json, "{\"batch_ends\":", self.batch_ends);
        append_count(&mut json, ",\"placed\":", self.placed);
        append_count(&mut json, ",\"fills\":", self.fills);
        append_count(&mut json, ",\"cancelled\":", self.cancelled);
        append_count(&mut json, ",\"triggered\":", self.triggered);
        append_count(&mut json, ",\"replaced\":", self.replaced);
        append_count(&mut json, ",\"rejected\":", self.rejected);
        append_count(&mut json, ",\"engine_errors\":", self.engine_errors);
        append_count(&mut json, ",\"server_busy\":", self.server_busy);
        json.append(",\"reject_reasons\":{");
        let reasons = self.render_reasons();
        json.append(reasons.as_str());
        json.append("}}");
        assert(json@ =~= outcomes_text(self@));
        json
    }

    fn render_reasons(&self) -> (text: String)
        ensures
            text@ == reasons_text(self@.reasons),
    {
        let ghost reasons = self@.reasons;
        let mut text: String = String::new();
        let mut first: bool = true;
        let mut i: usize = 0;
        assert(reasons.take(0) =~= Seq::empty());
        while i < REJECT_REASON_COUNT
            invariant
                reasons == self@.reasons,
                0 <= i <= 22,
                text@ == reasons_text(reasons.take(i as int)),
                first == (text@.len() == 0),
            decreases 22 - i,
        {
            let count: u64 = self.reject_reasons[i];
            let ghost before = text@;
            proof {
                assert(reasons.take(i + 1).drop_last() =~= reasons.take(i as int));
                assert(reasons.take(i + 1).last() == count);
            }
            if count != 0 {
                if !first {
                    text.append(",");
                }
                first = false;
                text.append("\"");
                text.append(reject_reason_name(i));
                text.append("\":");
                text.append(decimal_string(count).as_str());
                proof {
                    reveal_strlit("\"");
                    let lead = before + (if before.len() == 0 {
                        Seq::empty()
                    } else {
                        ","@
                    });
                    assert(before.len() == 0 ==> lead =~= before);
                    assert(text@ =~= lead + "\""@ + reason_name(i as int) + "\":"@ + decimal(
                        count as nat,
                    ));
                }
            }
            i = i + 1;
        }
        assert(reasons.take(22) =~= reasons);
        text
    }
}

/// Tallies come together in any order.
pub proof fn law_merge_is_commutative(a: Tallies, b: Tallies)
    ensures
        a.merged(b) == b.merged(a),
{
    assert(a.merged(b) =~= b.merged(a));
}

/// Tallies come together in any grouping.
pub proof fn law_merge_is_associative(a: Tallies, b: Tallies, c: Tallies)
    ensures
        a.merged(b).merged(c) == a.merged(b.merged(c)),
{
    assert(a.merged(b).merged(c) =~= a.merged(b.merged(c)));
}

/// No tallies change nothing.
pub proof fn law_merge_with_none(a: Tallies)
    requires
        a.reasons.len() == 22,
    ensures
        a.merged(Tallies::none()) == a,
{
    assert(a.merged(Tallies::none()) =~= a);
}

/// It does not matter which connection's tallies a frame is counted in.
pub proof fn law_frame_counts_once_wherever(a: Tallies, b: Tallies, frame: ServerFrame)
    requires
        a.reasons.len() == 22,
        b.reasons.len() == 22,
    ensures
        a.with_frame(frame).merged(b) == a.merged(b).with_frame(frame),
        a.merged(b.with_frame(frame)) == a.merged(b).with_frame(frame),
{
    assert(a.with_frame(frame).merged(b) =~= a.merged(b).with_frame(frame));
    assert(a.merged(b.with_frame(frame)) =~= a.merged(b).with_frame(frame));
}

/// Every rejection has a reason, so the reasons add up to the rejections.
pub proof fn law_reasons_add_up_to_rejections(t: Tallies, frame: ServerFrame)
    requires
        t.reasons.len() == 22,
        total(t.reasons) == t.rejected,
    ensures
        total(t.with_frame(frame).reasons) == t.with_frame(frame).rejected,
        total(Tallies::none().reasons) == Tallies::none().rejected,
{
    if let ServerFrame::Response(ResponseKind::Report(ExecutionReport::Rejected { reason, .. })) =
        frame {
        lemma_total_updated(t.reasons, reason_index(reason));
    }
    lemma_total_zero(Tallies::none().reasons);
}

/// Tallies in which the reasons add up to the rejections keep that when they
/// come together.
pub proof fn law_merge_keeps_reasons_adding_up(a: Tallies, b: Tallies)
    requires
        a.reasons.len() == 22,
        b.reasons.len() == 22,
        total(a.reasons) == a.rejected,
        total(b.reasons) == b.rejected,
    ensures
        total(a.merged(b).reasons) == a.merged(b).rejected,
        a.merged(b).reasons.len() == 22,
{
    lemma_total_merged(a.reasons, b.reasons, a.merged(b).reasons);
}

proof fn lemma_total_merged(a: Seq<int>, b: Seq<int>, sum: Seq<int>)
    requires
        a.len() == b.len() == sum.len(),
        forall|i: int| 0 <= i < sum.len() ==> sum[i] == a[i] + b[i],
    ensures
        total(sum) == total(a) + total(b),
    decreases a.len(),
{
    if a.len() > 0 {
        lemma_total_merged(a.drop_last(), b.drop_last(), sum.drop_last());
    }
}

/// The sum of some numbers.
pub open spec fn total(s: Seq<int>) -> int
    decreases s.len(),
{
    if s.len() == 0 {
        0
    } else {
        total(s.drop_last()) + s.last()
    }
}

proof fn lemma_total_updated(s: Seq<int>, i: int)
    requires
        0 <= i < s.len(),
    ensures
        total(s.update(i, s[i] + 1)) == total(s) + 1,
    decreases s.len(),
{
    let t = s.update(i, s[i] + 1);
    if i == s.len() - 1 {
        assert(t.drop_last() =~= s.drop_last());
    } else {
        lemma_total_updated(s.drop_last(), i);
        assert(t.drop_last() =~= s.drop_last().update(i, s.drop_last()[i] + 1));
    }
}

proof fn lemma_total_zero(s: Seq<int>)
    requires
        forall|i: int| 0 <= i < s.len() ==> s[i] == 0,
    ensures
        total(s) == 0,
    decreases s.len(),
{
    if s.len() > 0 {
        lemma_total_zero(s.drop_last());
    }
}

} // verus!
