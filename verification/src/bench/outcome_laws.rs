//! Laws of outcome tallies: which answer raises which counter, how reasons are
//! named and ranked, and what the results file says of them.

use vstd::prelude::*;

use crate::bench::outcomes::{
    are_top_reasons, listed, reason_index, reason_name, reasons_text, reject_reason_index,
    OutcomeReport, Tallies,
};
use crate::protocol::message::{ResponseKind, ServerFrame};
use crate::text::decimal;
use crate::text_laws::{lemma_says, lemma_says_within, says};
use crate::types::{ExecutionReport, RejectReason};

verus! {

/// One if something holds, else zero.
pub open spec fn one_if(b: bool) -> int {
    if b {
        1
    } else {
        0
    }
}

/// The report that a frame carries, if it carries one.
pub open spec fn carried(frame: ServerFrame) -> Option<ExecutionReport> {
    match frame {
        ServerFrame::Response(ResponseKind::Report(report)) => Some(report),
        _ => None,
    }
}

/// A frame raises the counter of its own kind by one and no other: a rejection
/// also that of its reason.
pub proof fn law_frame_raises_its_own_counter(t: Tallies, frame: ServerFrame, reason: RejectReason)
    requires
        t.reasons.len() == 22,
    ensures
        ({
            let after = t.with_frame(frame);
            let report = carried(frame);
            &&& after.batch_ends == t.batch_ends + one_if(frame is BatchEnd)
            &&& after.engine_errors == t.engine_errors + one_if(frame is EngineError)
            &&& after.server_busy == t.server_busy + one_if(frame is ServerBusy)
            &&& after.placed == t.placed + one_if(report matches Some(r) && r is Placed)
            &&& after.fills == t.fills + one_if(report matches Some(r) && r is Fill)
            &&& after.cancelled == t.cancelled + one_if(report matches Some(r) && r is Cancelled)
            &&& after.triggered == t.triggered + one_if(report matches Some(r) && r is Triggered)
            &&& after.replaced == t.replaced + one_if(report matches Some(r) && r is Replaced)
            &&& after.instrument_status == t.instrument_status + one_if(
                report matches Some(r) && r is InstrumentStatusChanged,
            )
            &&& after.rejected == t.rejected + one_if(report matches Some(r) && r is Rejected)
            &&& after.reasons.len() == 22
            &&& after.reasons[reason_index(reason)] == t.reasons[reason_index(reason)] + one_if(
                report matches Some(r) && r is Rejected && r->Rejected_reason == reason,
            )
        }),
{
    law_reasons_have_their_own_places(reason, reason);
    match carried(frame) {
        Some(ExecutionReport::Rejected { reason: other, .. }) => {
            law_reasons_have_their_own_places(reason, other);
            law_reasons_have_their_own_places(other, other);
        },
        _ => {},
    }
}

/// Each reject reason has a place of its own among the twenty-two.
pub proof fn law_reasons_have_their_own_places(a: RejectReason, b: RejectReason)
    ensures
        0 <= reason_index(a) < 22,
        reason_index(a) == reason_index(b) ==> a == b,
{
}

/// A reject reason is listed under its own name.
pub proof fn law_reason_goes_by_its_name(reason: RejectReason)
    ensures
        reason_name(reason_index(reason)) == (match reason {
            RejectReason::NoLiquidity => "NoLiquidity"@,
            RejectReason::FOKCannotFill => "FOKCannotFill"@,
            RejectReason::InsufficientBalance => "InsufficientBalance"@,
            RejectReason::UnknownAccount => "UnknownAccount"@,
            RejectReason::UnknownSymbol => "UnknownSymbol"@,
            RejectReason::SelfTradePrevented => "SelfTradePrevented"@,
            RejectReason::DuplicateOrderId => "DuplicateOrderId"@,
            RejectReason::ExceedsMaxOrderQty => "ExceedsMaxOrderQty"@,
            RejectReason::ExceedsMaxNotional => "ExceedsMaxNotional"@,
            RejectReason::TradingHalted => "TradingHalted"@,
            RejectReason::OutsidePriceBand => "OutsidePriceBand"@,
            RejectReason::UnknownOrder => "UnknownOrder"@,
            RejectReason::PriceWouldCross => "PriceWouldCross"@,
            RejectReason::PostOnlyWouldCross => "PostOnlyWouldCross"@,
            RejectReason::HasRestingOrders => "HasRestingOrders"@,
            RejectReason::DuplicateRequest => "DuplicateRequest"@,
            RejectReason::ReplicaDisconnected => "ReplicaDisconnected"@,
            RejectReason::InvalidExpiry => "InvalidExpiry"@,
            RejectReason::InstrumentDisabled => "InstrumentDisabled"@,
            RejectReason::ExceedsMaxOpenOrders => "ExceedsMaxOpenOrders"@,
            RejectReason::ExceedsOrderRate => "ExceedsOrderRate"@,
            RejectReason::Superseded => "Superseded"@,
        }),
{
}

/// A summary lists the more frequent reasons first, those as frequent in the
/// order of the table, at most five, none that did not occur, and leaves out
/// none that is more frequent than one it lists.
pub proof fn law_most_frequent_reasons_are_listed(reasons: Seq<int>, top: Seq<(usize, u64)>)
    requires
        are_top_reasons(reasons, top),
    ensures
        top.len() <= 5,
        forall|a: int, b: int|
            0 <= a < b < top.len() ==> (#[trigger] top[a]).1 > (#[trigger] top[b]).1 || (top[a].1
                == top[b].1 && top[a].0 < top[b].0),
        forall|a: int|
            0 <= a < top.len() ==> 0 < reasons[(#[trigger] top[a]).0 as int] == top[a].1,
        top.len() < 5 ==> forall|i: int|
            0 <= i < reasons.len() && #[trigger] reasons[i] > 0 ==> listed(top, i),
        forall|i: int, a: int|
            0 <= i < reasons.len() && !listed(top, i) && 0 <= a < top.len() && #[trigger] reasons[i]
                > 0 ==> (#[trigger] top[a]).1 >= reasons[i],
{
    assert forall|i: int, a: int|
        0 <= i < reasons.len() && !listed(top, i) && 0 <= a < top.len() && #[trigger] reasons[i]
            > 0 implies (#[trigger] top[a]).1 >= reasons[i] by {
        let last = top[top.len() - 1];
        if a < top.len() - 1 {
            assert(top[a].1 >= last.1);
        }
    }
}

/// An entry of the results file: a name in quotes and a number.
pub open spec fn entry(name: Seq<char>, n: int) -> Seq<char> {
    seq!['"'] + name + seq!['"', ':'] + decimal(n as nat)
}

/// The results file names every reason that occurred with its number, and
/// says nothing of those that did not: only they are counted.
pub proof fn law_results_name_every_reason(reasons: Seq<int>, i: int)
    requires
        0 <= i < reasons.len(),
        reasons[i] != 0,
    ensures
        says(reasons_text(reasons), entry(reason_name(i), reasons[i])),
    decreases reasons.len(),
{
    let text = reasons_text(reasons);
    let before = reasons_text(reasons.drop_last());
    let last = reasons.len() - 1;
    reveal_strlit("\"");
    reveal_strlit("\":");
    if i == last {
        let lead = before + (if before.len() == 0 {
            Seq::empty()
        } else {
            ","@
        });
        let part = entry(reason_name(i), reasons[i]);
        assert(text =~= lead + part + Seq::empty());
        lemma_says(lead, part, Seq::empty(), text);
    } else {
        law_results_name_every_reason(reasons.drop_last(), i);
        let part = entry(reason_name(i), reasons[i]);
        if reasons.last() != 0 {
            let rest = (if before.len() == 0 {
                Seq::empty()
            } else {
                ","@
            }) + "\""@ + reason_name(last) + "\":"@ + decimal(reasons.last() as nat);
            assert(text =~= Seq::<char>::empty() + before + rest);
            lemma_says_within(Seq::empty(), before, rest, text, part);
        }
    }
}

/// A reason that did not occur leaves the text as it is, and one that did
/// comes behind a comma where others stand before it.
pub proof fn law_reasons_are_listed_between_commas(reasons: Seq<int>, n: int)
    ensures
        n == 0 ==> reasons_text(reasons.push(n)) == reasons_text(reasons),
        n != 0 && reasons_text(reasons).len() == 0 ==> reasons_text(reasons.push(n)) == entry(
            reason_name(reasons.len() as int),
            n,
        ),
        n != 0 && reasons_text(reasons).len() > 0 ==> reasons_text(reasons.push(n))
            == reasons_text(reasons) + seq![','] + entry(reason_name(reasons.len() as int), n),
{
    reveal_strlit("\"");
    reveal_strlit("\":");
    reveal_strlit(",");
    let all = reasons.push(n);
    assert(all.drop_last() =~= reasons);
    let text = reasons_text(all);
    let added = entry(reason_name(reasons.len() as int), n);
    if n != 0 {
        if reasons_text(reasons).len() == 0 {
            assert(text =~= added);
        } else {
            assert(text =~= reasons_text(reasons) + seq![','] + added);
        }
    }
}

/// Two reports merged count what both counted, of every kind and for every
/// reason, and may be merged where the sums fit.
#[verifier::rlimit(40)]
pub proof fn law_merged_reports_count_both(
    a: &mut OutcomeReport,
    b: &OutcomeReport,
    fits: bool,
    i: int,
)
    requires
        call_ensures(OutcomeReport::fits, (&*old(a), b), fits),
        call_ensures(OutcomeReport::merge, (a, b), ()),
        0 <= i < 22,
    ensures
        final(a)@.batch_ends == old(a)@.batch_ends + b@.batch_ends,
        final(a)@.placed == old(a)@.placed + b@.placed,
        final(a)@.fills == old(a)@.fills + b@.fills,
        final(a)@.cancelled == old(a)@.cancelled + b@.cancelled,
        final(a)@.triggered == old(a)@.triggered + b@.triggered,
        final(a)@.replaced == old(a)@.replaced + b@.replaced,
        final(a)@.instrument_status == old(a)@.instrument_status + b@.instrument_status,
        final(a)@.rejected == old(a)@.rejected + b@.rejected,
        final(a)@.engine_errors == old(a)@.engine_errors + b@.engine_errors,
        final(a)@.server_busy == old(a)@.server_busy + b@.server_busy,
        final(a)@.reasons[i] == old(a)@.reasons[i] + b@.reasons[i],
        fits ==> old(a)@.batch_ends + b@.batch_ends <= u64::MAX && old(a)@.reasons[i]
            + b@.reasons[i] <= u64::MAX,
{
}

/// A recorded frame raises the counters of its own kind, and a recorded report
/// the same ones as the frame that carries it.
#[verifier::rlimit(40)]
pub proof fn law_recorded_frames_are_counted(
    a: &mut OutcomeReport,
    b: &mut OutcomeReport,
    frame: &ServerFrame,
    report: &ExecutionReport,
    reason: RejectReason,
    at: usize,
)
    requires
        call_ensures(OutcomeReport::record, (a, frame), ()),
        call_ensures(OutcomeReport::record_execution_report, (b, report), ()),
        call_ensures(reject_reason_index, (reason,), at),
        *old(a) == *old(b),
        old(a)@.reasons.len() == 22,
    ensures
        at < 22,
        final(a)@.batch_ends - old(a)@.batch_ends == one_if(*frame is BatchEnd),
        final(a)@.engine_errors - old(a)@.engine_errors == one_if(*frame is EngineError),
        final(a)@.server_busy - old(a)@.server_busy == one_if(*frame is ServerBusy),
        final(a)@.rejected - old(a)@.rejected == one_if(
            carried(*frame) matches Some(r) && r is Rejected,
        ),
        final(a)@.reasons[at as int] - old(a)@.reasons[at as int] == one_if(
            carried(*frame) matches Some(r) && r is Rejected && r->Rejected_reason == reason,
        ),
        *frame == ServerFrame::Response(ResponseKind::Report(*report)) ==> final(a)@ == final(b)@,
{
    law_frame_raises_its_own_counter(old(a)@, *frame, reason);
}

/// The rejection ratio is that of rejections to acknowledged requests, and
/// nothing where none was acknowledged.
pub proof fn law_rejection_ratio(a: &OutcomeReport, parts: (u64, u64), top: Vec<(usize, u64)>)
    requires
        call_ensures(OutcomeReport::rejection_ratio, (a,), parts),
        call_ensures(OutcomeReport::top_reasons, (a,), top),
    ensures
        parts.1 > 0,
        parts.0 * a.batch_ends == parts.1 * (if a.batch_ends == 0 {
            0
        } else {
            a.rejected as int
        }),
        a.batch_ends == 0 ==> parts.0 == 0,
        top@.len() <= 5,
        forall|i: int, j: int|
            0 <= i < j < top@.len() ==> (#[trigger] top@[i]).1 >= (#[trigger] top@[j]).1,
{
    law_most_frequent_reasons_are_listed(a@.reasons, top@);
    assert(parts.0 * a.batch_ends == parts.1 * (if a.batch_ends == 0 {
        0
    } else {
        a.rejected as int
    })) by (nonlinear_arith)
        requires
            a.batch_ends == 0 ==> parts.0 == 0,
            a.batch_ends > 0 ==> parts.0 == a.rejected && parts.1 == a.batch_ends,
    ;
    assert forall|i: int, j: int| 0 <= i < j < top@.len() implies (#[trigger] top@[i]).1 >= (
    #[trigger] top@[j]).1 by {}
}

} // verus!
