//! Laws of a submitted order as a whole, from its admission to the orders
//! that its settlement closes.

use vstd::prelude::*;

use super::admission::{
    count_of, law_admission_keeps_lockstep, law_close_keeps_lockstep, less, Exchange,
};
use super::settlement::{
    law_done_closes_every_order, release_consumed, report_effect, settle_inv, step_spec, walk_on,
    OrderKey, SettleContext, SettlePhase, SettleState,
};
use crate::types::{AccountId, ExecutionReport};

verus! {

/// The order of an entry that left the book.
pub open spec fn consumed_key(ctx: SettleContext, j: int) -> OrderKey {
    (ctx.consumed[j].account, ctx.consumed[j].id)
}

/// Whether an order left the book while the submitted order executed: it was
/// consumed, or it is the submitted one and does not rest.
pub open spec fn has_left(ctx: SettleContext, key: OrderKey) -> bool {
    ||| key == ctx.taker && !ctx.taker_rested
    ||| exists|j: int| 0 <= j < ctx.consumed.len() && #[trigger] consumed_key(ctx, j) == key
}

/// The orders that left the book.
pub open spec fn left_book(ctx: SettleContext) -> Set<OrderKey> {
    Set::new(|key: OrderKey| has_left(ctx, key))
}

/// The order that a report says is cancelled or rejected.
pub open spec fn reported_closed(report: ExecutionReport) -> Option<OrderKey> {
    match report {
        ExecutionReport::Cancelled { order_id, account, .. } => Some((account, order_id)),
        ExecutionReport::Rejected { order_id, account, .. } => Some((account, order_id)),
        _ => None,
    }
}

/// Whether the reports from `from` on cancel and reject only orders that left
/// the book.
pub open spec fn reports_agree(
    ctx: SettleContext,
    reports: Seq<ExecutionReport>,
    from: int,
) -> bool {
    forall|i: int|
        from <= i < reports.len() ==> (reported_closed(#[trigger] reports[i]) matches Some(key)
            ==> has_left(ctx, key))
}

/// Whether the ledger's answer agrees with the book: a reservation that is
/// used up belongs to an order that left the book, and no order is told of
/// as used up once it is closed.
pub open spec fn answer_agrees(ctx: SettleContext, st: SettleState, reply: Option<u64>) -> bool {
    match st.phase {
        SettlePhase::GotMaker(p) => reply == Some(0u64) ==> {
            &&& has_left(ctx, (p.maker_account, p.maker_id))
            &&& !st.freed.contains((p.maker_account, p.maker_id))
        },
        SettlePhase::GotTaker(p) => reply == Some(0u64) ==> {
            &&& has_left(ctx, (p.taker_account, p.taker_id))
            &&& !st.freed.contains((p.taker_account, p.taker_id))
        },
        _ => true,
    }
}

/// A settlement before its first step.
pub open spec fn settle_start(report_start: int) -> SettleState {
    SettleState { freed: Seq::empty(), next: report_start, phase: SettlePhase::Walk }
}

/// A settlement after a run of steps: its state and the reports.
pub open spec fn settle_run(
    ctx: SettleContext,
    report_start: int,
    reports: Seq<ExecutionReport>,
    replies: Seq<Option<u64>>,
) -> (SettleState, Seq<ExecutionReport>)
    decreases replies.len(),
{
    if replies.len() == 0 {
        (settle_start(report_start), reports)
    } else {
        let (st, changed) = settle_run(ctx, report_start, reports, replies.drop_last());
        let (after, written, op) = step_spec(ctx, st, changed, replies.last());
        (after, written)
    }
}

/// Whether every answer of a run agrees with the book.
pub open spec fn answers_agree(
    ctx: SettleContext,
    report_start: int,
    reports: Seq<ExecutionReport>,
    replies: Seq<Option<u64>>,
) -> bool
    decreases replies.len(),
{
    replies.len() > 0 ==> {
        &&& answers_agree(ctx, report_start, reports, replies.drop_last())
        &&& answer_agrees(
            ctx,
            settle_run(ctx, report_start, reports, replies.drop_last()).0,
            replies.last(),
        )
    }
}

/// Whether the closed orders are orders that left the book, each closed once.
pub open spec fn closed_once(ctx: SettleContext, freed: Seq<OrderKey>) -> bool {
    &&& freed.no_duplicates()
    &&& forall|i: int| 0 <= i < freed.len() ==> has_left(ctx, #[trigger] freed[i])
}

proof fn lemma_close_one(ctx: SettleContext, freed: Seq<OrderKey>, key: OrderKey)
    requires
        closed_once(ctx, freed),
        has_left(ctx, key),
        !freed.contains(key),
    ensures
        closed_once(ctx, freed.push(key)),
{
    assert forall|i: int, j: int|
        0 <= i < freed.push(key).len() && 0 <= j < freed.push(key).len() && i
            != j implies freed.push(key)[i] != freed.push(key)[j] by {
        if i == freed.len() {
            assert(freed.contains(freed[j]));
        } else if j == freed.len() {
            assert(freed.contains(freed[i]));
        }
    }
}

proof fn lemma_release_consumed_once(ctx: SettleContext, st: SettleState, i: int)
    requires
        0 <= i,
        closed_once(ctx, st.freed),
    ensures
        closed_once(ctx, release_consumed(ctx, st, i).0.freed),
        release_consumed(ctx, st, i).0.next == st.next,
    decreases ctx.consumed.len() - i,
{
    if i < ctx.consumed.len() {
        let key = consumed_key(ctx, i);
        if st.freed.contains(key) {
            lemma_release_consumed_once(ctx, st, i + 1);
        } else {
            lemma_close_one(ctx, st.freed, key);
        }
    }
}

proof fn lemma_walk_once(ctx: SettleContext, st: SettleState, reports: Seq<ExecutionReport>)
    requires
        0 <= st.next,
        closed_once(ctx, st.freed),
        reports_agree(ctx, reports, st.next),
    ensures
        ({
            let (after, changed, op) = walk_on(ctx, st, reports);
            &&& closed_once(ctx, after.freed)
            &&& st.next <= after.next
            &&& reports_agree(ctx, changed, after.next)
        }),
    decreases reports.len() - st.next,
{
    if st.next >= reports.len() {
        if !ctx.taker_rested && !st.freed.contains(ctx.taker) {
            lemma_close_one(ctx, st.freed, ctx.taker);
        } else {
            lemma_release_consumed_once(ctx, st, 0);
        }
    } else {
        let (freed, r, out) = report_effect(ctx, st.freed, reports[st.next]);
        let changed = reports.update(st.next, r);
        match reported_closed(reports[st.next]) {
            Some(key) => {
                if !st.freed.contains(key) {
                    lemma_close_one(ctx, st.freed, key);
                }
            },
            None => {},
        }
        assert(reports_agree(ctx, changed, st.next + 1)) by {
            assert forall|i: int| st.next + 1 <= i < changed.len() implies (reported_closed(
                #[trigger] changed[i],
            ) matches Some(key) ==> has_left(ctx, key)) by {
                assert(changed[i] == reports[i]);
            }
        }
        if out is None {
            lemma_walk_once(
                ctx,
                SettleState { freed, next: st.next + 1, phase: st.phase },
                changed,
            );
        }
    }
}

/// A step closes only orders that left the book, and each of them once, where
/// the reports and the ledger agree with the book.
pub proof fn law_step_closes_once(
    ctx: SettleContext,
    st: SettleState,
    reports: Seq<ExecutionReport>,
    reply: Option<u64>,
)
    requires
        0 <= st.next,
        closed_once(ctx, st.freed),
        reports_agree(ctx, reports, st.next),
        answer_agrees(ctx, st, reply),
    ensures
        ({
            let (after, changed, op) = step_spec(ctx, st, reports, reply);
            &&& closed_once(ctx, after.freed)
            &&& st.next <= after.next
            &&& reports_agree(ctx, changed, after.next)
        }),
{
    match st.phase {
        SettlePhase::Walk => {
            lemma_walk_once(ctx, st, reports);
        },
        SettlePhase::GotMaker(p) => {
            if reply == Some(0u64) {
                lemma_close_one(ctx, st.freed, (p.maker_account, p.maker_id));
            }
        },
        SettlePhase::GotTaker(p) => {
            if reply == Some(0u64) {
                lemma_close_one(ctx, st.freed, (p.taker_account, p.taker_id));
            } else {
                lemma_walk_once(ctx, SettleState { phase: SettlePhase::Walk, ..st }, reports);
            }
        },
        SettlePhase::Leftover(i) => {
            lemma_release_consumed_once(ctx, st, i as int);
        },
        _ => {},
    }
}

proof fn lemma_run(
    ctx: SettleContext,
    report_start: int,
    reports: Seq<ExecutionReport>,
    replies: Seq<Option<u64>>,
)
    requires
        0 <= report_start,
        ctx.consumed.len() <= usize::MAX,
        reports_agree(ctx, reports, report_start),
        answers_agree(ctx, report_start, reports, replies),
    ensures
        ({
            let (st, changed) = settle_run(ctx, report_start, reports, replies);
            &&& settle_inv(ctx, st)
            &&& closed_once(ctx, st.freed)
            &&& report_start <= st.next
            &&& reports_agree(ctx, changed, st.next)
        }),
    decreases replies.len(),
{
    if replies.len() > 0 {
        lemma_run(ctx, report_start, reports, replies.drop_last());
        let (st, changed) = settle_run(ctx, report_start, reports, replies.drop_last());
        law_step_closes_once(ctx, st, changed, replies.last());
        law_done_closes_every_order(ctx, st, changed, replies.last());
    }
}

/// A finished settlement has closed exactly the orders that left the book,
/// each of them once.
pub proof fn law_settlement_closes_what_left(
    ctx: SettleContext,
    report_start: int,
    reports: Seq<ExecutionReport>,
    replies: Seq<Option<u64>>,
)
    requires
        0 <= report_start,
        ctx.consumed.len() <= usize::MAX,
        reports_agree(ctx, reports, report_start),
        answers_agree(ctx, report_start, reports, replies),
        settle_run(ctx, report_start, reports, replies).0.phase is Finished,
    ensures
        settle_run(ctx, report_start, reports, replies).0.freed.no_duplicates(),
        settle_run(ctx, report_start, reports, replies).0.freed.to_set() == left_book(ctx),
{
    lemma_run(ctx, report_start, reports, replies);
    let freed = settle_run(ctx, report_start, reports, replies).0.freed;
    assert forall|key: OrderKey| has_left(ctx, key) implies #[trigger] freed.contains(key) by {
        if !(key == ctx.taker && !ctx.taker_rested) {
            let j = choose|j: int|
                0 <= j < ctx.consumed.len() && #[trigger] consumed_key(ctx, j) == key;
            assert(freed.contains((ctx.consumed[j].account, ctx.consumed[j].id)));
        }
    }
    assert(freed.to_set() =~= left_book(ctx));
}

/// A refused order leaves counts and live orders in step.
pub proof fn law_refusal_keeps_lockstep(before: &Exchange, after: &Exchange)
    requires
        before.lockstep(),
        after.live_orders() == before.live_orders(),
        forall|a: AccountId| #[trigger] after.open_orders(a) == before.open_orders(a),
    ensures
        after.lockstep(),
{
    assert forall|a: AccountId| #[trigger] after.in_step(a) by {
        assert(before.in_step(a));
    }
}

/// Over a whole submitted order, counts and live orders stay in step and the
/// live orders stay those on the books. `before` is the exchange as the order
/// comes in, `admitted` once funds are reserved, `after` once the orders that
/// the settlement closed are taken out. `on_books` are the orders that rested
/// or were pending before. Orders that were consumed are no longer live
/// afterwards, and the submitted one is live if and only if it rests.
pub proof fn law_submitted_order_keeps_lockstep(
    before: &Exchange,
    admitted: &Exchange,
    after: &Exchange,
    on_books: Set<OrderKey>,
    ctx: SettleContext,
    report_start: int,
    reports: Seq<ExecutionReport>,
    replies: Seq<Option<u64>>,
)
    requires
        before.lockstep(),
        before.live_orders() == on_books,
        !before.live_orders().contains(ctx.taker),
        // What reserving funds changes.
        admitted.live_orders() == before.live_orders().insert(ctx.taker),
        forall|a: AccountId| #[trigger]
            admitted.open_orders(a) == before.open_orders(a) + (if a == ctx.taker.0 {
                1nat
            } else {
                0
            }),
        // What the book lets go was on it, or is the submitted order.
        forall|j: int|
            0 <= j < ctx.consumed.len() ==> on_books.insert(ctx.taker).contains(
                #[trigger] consumed_key(ctx, j),
            ),
        ctx.taker_rested ==> forall|j: int|
            0 <= j < ctx.consumed.len() ==> #[trigger] consumed_key(ctx, j) != ctx.taker,
        // The settlement, from its first step to its last.
        0 <= report_start,
        ctx.consumed.len() <= usize::MAX,
        reports_agree(ctx, reports, report_start),
        answers_agree(ctx, report_start, reports, replies),
        settle_run(ctx, report_start, reports, replies).0.phase is Finished,
        // What closing its orders changes.
        ({
            let freed = settle_run(ctx, report_start, reports, replies).0.freed;
            &&& after.live_orders() == admitted.live_orders().difference(freed.to_set())
            &&& forall|a: AccountId| #[trigger]
                after.open_orders(a) == less(admitted.open_orders(a), count_of(freed, a))
        }),
    ensures
        after.lockstep(),
        after.live_orders() == on_books.insert(ctx.taker).difference(left_book(ctx)),
        after.live_orders().contains(ctx.taker) <==> ctx.taker_rested,
        forall|j: int|
            0 <= j < ctx.consumed.len() ==> !after.live_orders().contains(
                #[trigger] consumed_key(ctx, j),
            ),
{
    let freed = settle_run(ctx, report_start, reports, replies).0.freed;
    law_admission_keeps_lockstep(before, admitted, ctx.taker.0, ctx.taker.1);
    law_settlement_closes_what_left(ctx, report_start, reports, replies);
    assert forall|i: int| 0 <= i < freed.len() implies admitted.live_orders().contains(
        #[trigger] freed[i],
    ) by {
        assert(freed.to_set().contains(freed[i]));
        assert(has_left(ctx, freed[i]));
    }
    law_close_keeps_lockstep(admitted, after, freed);
    assert forall|j: int| 0 <= j < ctx.consumed.len() implies has_left(
        ctx,
        #[trigger] consumed_key(ctx, j),
    ) by {}
}

} // verus!
