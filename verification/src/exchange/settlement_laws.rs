//! What a settlement does, in terms of the orders and reports it works on.
//!
//! These laws speak of the parties of a fill by their sides, of the first
//! place of an order in a list, and of what is left of a reservation.

use vstd::prelude::*;

use crate::exchange::fees::law_fee_is_the_share;
use crate::exchange::settlement::{
    fee_on, find_order, locate, release_consumed, report_effect, step_spec,
    taker_slot, walk_on, FillParties, OrderKey, PlacedOrder, SettleContext, SettleOp, SettlePhase,
    SettleState, Settlement,
};
use crate::types::{ExecutionReport, ReservationSlot, Side};

verus! {

/// Whether an order goes by a key.
pub open spec fn goes_by(o: PlacedOrder, key: OrderKey) -> bool {
    o.account == key.0 && o.id == key.1
}

/// Whether no order in a list goes by a key.
pub open spec fn absent(list: Seq<PlacedOrder>, key: OrderKey) -> bool {
    forall|j: int| 0 <= j < list.len() ==> !goes_by(#[trigger] list[j], key)
}

/// Whether an order stands in a list under a key, with none under that key
/// before it.
pub open spec fn first_under(list: Seq<PlacedOrder>, key: OrderKey, o: PlacedOrder) -> bool {
    exists|i: int|
        0 <= i < list.len() && #[trigger] list[i] == o && goes_by(o, key) && absent(
            list.take(i),
            key,
        )
}

/// Whether an order is the one a fill means by a key: one that left the book,
/// or, where none did, one that is still on it.
pub open spec fn meant(ctx: SettleContext, key: OrderKey, o: PlacedOrder) -> bool {
    ||| first_under(ctx.consumed, key, o)
    ||| absent(ctx.consumed, key) && first_under(ctx.resting, key, o)
}

/// Whether a reservation is that of a fill's taker.
pub open spec fn taker_backed(ctx: SettleContext, key: OrderKey, slot: ReservationSlot) -> bool {
    if key == ctx.taker {
        slot == ctx.slot
    } else {
        exists|o: PlacedOrder| #[trigger] meant(ctx, key, o) && o.slot == slot
    }
}

/// Whether an operation settles a fill between the one who buys and the one
/// who sells: `maker` is on its own side and the taker on the other. The
/// buyer's base fee is taken at the buyer's rate and the seller's quote fee at
/// the seller's.
pub open spec fn settles_between(
    ctx: SettleContext,
    report: ExecutionReport,
    op: SettleOp,
    maker: PlacedOrder,
    taker: ReservationSlot,
) -> bool {
    &&& report matches ExecutionReport::Fill {
        maker_order_id,
        taker_order_id,
        maker_account,
        taker_account,
        price: at,
        quantity: lots,
        ..
    }
    &&& op matches SettleOp::Fill {
        buyer_slot,
        seller_slot,
        price,
        quantity,
        buyer_base_fee,
        seller_quote_fee,
    }
    &&& meant(ctx, (maker_account, maker_order_id), maker)
    &&& taker_backed(ctx, (taker_account, taker_order_id), taker)
    &&& price == at
    &&& quantity == lots
    &&& maker.side == Side::Buy ==> {
        &&& buyer_slot == maker.slot
        &&& seller_slot == taker
        &&& buyer_base_fee == fee_on(lots.0 as int, ctx.fees.maker_fee_bps)
        &&& seller_quote_fee == fee_on(at.0 * lots.0, ctx.fees.taker_fee_bps)
    }
    &&& maker.side == Side::Sell ==> {
        &&& buyer_slot == taker
        &&& seller_slot == maker.slot
        &&& buyer_base_fee == fee_on(lots.0 as int, ctx.fees.taker_fee_bps)
        &&& seller_quote_fee == fee_on(at.0 * lots.0, ctx.fees.maker_fee_bps)
    }
}

/// Whether some order and reservation are the two parties of a fill that an
/// operation settles.
pub open spec fn settles_fill(ctx: SettleContext, report: ExecutionReport, op: SettleOp) -> bool {
    exists|maker: PlacedOrder, taker: ReservationSlot| #[trigger]
        settles_between(ctx, report, op, maker, taker)
}

/// Whether a fill report carries the fees of both parties, each at its own
/// rate on the cost of the fill.
pub open spec fn fees_filled_in(ctx: SettleContext, report: ExecutionReport) -> bool {
    &&& report matches ExecutionReport::Fill { price, quantity, maker_fee, taker_fee, .. }
    &&& maker_fee == fee_on(price.0 * quantity.0, ctx.fees.maker_fee_bps)
    &&& taker_fee == fee_on(price.0 * quantity.0, ctx.fees.taker_fee_bps)
}

/// Whether an order left the book in this settlement, or is the submitted one.
pub open spec fn involved(ctx: SettleContext, key: OrderKey) -> bool {
    key == ctx.taker || !absent(ctx.consumed, key)
}

/// The order that a report closes, if it closes one.
pub open spec fn closes(report: ExecutionReport, key: OrderKey) -> bool {
    ||| report matches ExecutionReport::Cancelled { order_id, account, .. } && key == (
        account,
        order_id,
    )
    ||| report matches ExecutionReport::Rejected { order_id, account, .. } && key == (
        account,
        order_id,
    )
}

/// Whether a report asks nothing of the ledger: a fill with a party that
/// cannot be found, the close of an order that is closed already or was never
/// part of the settlement, or a report of another kind.
pub open spec fn idle(ctx: SettleContext, freed: Seq<OrderKey>, report: ExecutionReport) -> bool {
    &&& report matches ExecutionReport::Fill {
        maker_order_id,
        taker_order_id,
        maker_account,
        taker_account,
        ..
    } ==> {
        ||| absent(ctx.consumed, (maker_account, maker_order_id)) && absent(
            ctx.resting,
            (maker_account, maker_order_id),
        )
        ||| {
            &&& (taker_account, taker_order_id) != ctx.taker
            &&& absent(ctx.consumed, (taker_account, taker_order_id))
            &&& absent(ctx.resting, (taker_account, taker_order_id))
        }
    }
    &&& forall|key: OrderKey| #[trigger]
        closes(report, key) ==> freed.contains(key) || !involved(ctx, key)
}

/// Whether a reservation is released because a report closes its order.
pub open spec fn releases_closed(
    ctx: SettleContext,
    st: SettleState,
    report: ExecutionReport,
    after: SettleState,
    slot: ReservationSlot,
) -> bool {
    let key = after.freed.last();
    &&& closes(report, key)
    &&& !st.freed.contains(key)
    &&& key == ctx.taker ==> slot == ctx.slot
    &&& key != ctx.taker ==> exists|o: PlacedOrder| #[trigger]
        first_under(ctx.consumed, key, o) && o.slot == slot
}

/// What going through the reports from `st.next` on comes to.
pub open spec fn walked(
    ctx: SettleContext,
    st: SettleState,
    reports: Seq<ExecutionReport>,
    after: SettleState,
    changed: Seq<ExecutionReport>,
    op: SettleOp,
) -> bool {
    let at = after.next - 1;
    let stopped = op is Fill || (op is Release && after.phase is Walk);
    &&& op is Fill || op is Release || op is Done
    &&& forall|j: int|
        st.next <= j < reports.len() && (j < at || !stopped) ==> idle(
            ctx,
            st.freed,
            #[trigger] reports[j],
        )
    &&& stopped ==> st.next <= at < reports.len()
    &&& op is Fill ==> {
        &&& settles_fill(ctx, reports[at], op)
        &&& changed == reports.update(at, changed[at])
        &&& fees_filled_in(ctx, changed[at])
    }
    &&& op !is Fill ==> changed == reports
    &&& op is Release && stopped ==> releases_closed(ctx, st, reports[at], after, op->Release_slot)
    &&& !stopped && !ctx.taker_rested && !st.freed.contains(ctx.taker) ==> {
        &&& op == (SettleOp::Release { slot: ctx.slot })
        &&& after.freed.last() == ctx.taker
    }
}

/// The order found under a key is the first in the list that goes by it, and
/// none is found exactly where none goes by it.
pub proof fn law_first_order_is_found(list: Seq<PlacedOrder>, key: OrderKey)
    ensures
        match find_order(list, key.0, key.1) {
            Some(o) => first_under(list, key, o),
            None => absent(list, key),
        },
    decreases list.len(),
{
    if list.len() > 0 {
        let rest = list.skip(1);
        law_first_order_is_found(rest, key);
        if goes_by(list[0], key) {
            assert(absent(list.take(0), key));
        } else {
            match find_order(rest, key.0, key.1) {
                Some(o) => {
                    let i = choose|i: int|
                        0 <= i < rest.len() && #[trigger] rest[i] == o && goes_by(o, key) && absent(
                            rest.take(i),
                            key,
                        );
                    assert(list[i + 1] == o);
                    assert forall|j: int| 0 <= j < i + 1 implies !goes_by(
                        #[trigger] list.take(i + 1)[j],
                        key,
                    ) by {
                        if j > 0 {
                            assert(list[j] == rest[j - 1]);
                            assert(rest.take(i)[j - 1] == rest[j - 1]);
                        }
                    }
                    assert(absent(list.take(i + 1), key));
                },
                None => {
                    assert forall|j: int| 0 <= j < list.len() implies !goes_by(
                        #[trigger] list[j],
                        key,
                    ) by {
                        if j > 0 {
                            assert(list[j] == rest[j - 1]);
                        }
                    }
                },
            }
        }
    }
}

/// At most one order is the first of a list under a key.
pub proof fn law_first_order_is_one(
    list: Seq<PlacedOrder>,
    key: OrderKey,
    a: PlacedOrder,
    b: PlacedOrder,
)
    requires
        first_under(list, key, a),
        first_under(list, key, b),
    ensures
        a == b,
        !absent(list, key),
{
    let i = choose|i: int|
        0 <= i < list.len() && #[trigger] list[i] == a && goes_by(a, key) && absent(
            list.take(i),
            key,
        );
    let j = choose|j: int|
        0 <= j < list.len() && #[trigger] list[j] == b && goes_by(b, key) && absent(
            list.take(j),
            key,
        );
    assert(goes_by(list[i], key));
    if i < j {
        assert(list.take(j)[i] == a);
    }
    if j < i {
        assert(list.take(i)[j] == b);
    }
}

/// What a fill means by a key is what settlement finds under it, and the
/// reservation of its taker likewise.
proof fn lemma_parties(ctx: SettleContext, key: OrderKey)
    ensures
        match locate(ctx, key.0, key.1) {
            Some(o) => meant(ctx, key, o),
            None => absent(ctx.consumed, key) && absent(ctx.resting, key),
        },
        match taker_slot(ctx, key.0, key.1) {
            Some(slot) => taker_backed(ctx, key, slot),
            None => key != ctx.taker && absent(ctx.consumed, key) && absent(ctx.resting, key),
        },
{
    law_first_order_is_found(ctx.consumed, key);
    law_first_order_is_found(ctx.resting, key);
    match locate(ctx, key.0, key.1) {
        Some(o) => {
            assert(meant(ctx, key, o));
        },
        None => {},
    }
}

/// What one report comes to.
proof fn lemma_report(ctx: SettleContext, st: SettleState, report: ExecutionReport)
    ensures
        ({
            let (freed, changed, out) = report_effect(ctx, st.freed, report);
            match out {
                None => {
                    &&& idle(ctx, st.freed, report)
                    &&& changed == report
                    &&& freed == st.freed || (exists|key: OrderKey| #[trigger]
                        closes(report, key) && !involved(ctx, key) && freed == st.freed.push(key))
                },
                Some((op, phase)) => {
                    ||| {
                        &&& op is Fill
                        &&& settles_fill(ctx, report, op)
                        &&& fees_filled_in(ctx, changed)
                    }
                    ||| {
                        &&& op is Release
                        &&& phase is Walk
                        &&& changed == report
                        &&& releases_closed(
                            ctx,
                            st,
                            report,
                            SettleState { freed, next: st.next + 1, phase },
                            op->Release_slot,
                        )
                    }
                },
            }
        }),
{
    match report {
        ExecutionReport::Fill {
            maker_order_id,
            taker_order_id,
            maker_account,
            taker_account,
            ..
        } => {
            lemma_parties(ctx, (maker_account, maker_order_id));
            lemma_parties(ctx, (taker_account, taker_order_id));
            let (freed, changed, out) = report_effect(ctx, st.freed, report);
            match (
                locate(ctx, maker_account, maker_order_id),
                taker_slot(ctx, taker_account, taker_order_id),
            ) {
                (Some(maker), Some(slot)) => {
                    let (op, phase) = out.unwrap();
                    assert(settles_between(ctx, report, op, maker, slot));
                },
                _ => {},
            }
        },
        ExecutionReport::Cancelled { order_id, account, .. } => {
            law_first_order_is_found(ctx.consumed, (account, order_id));
            assert(closes(report, (account, order_id)));
            lemma_closed(ctx, (account, order_id));
        },
        ExecutionReport::Rejected { order_id, account, .. } => {
            law_first_order_is_found(ctx.consumed, (account, order_id));
            assert(closes(report, (account, order_id)));
            lemma_closed(ctx, (account, order_id));
        },
        _ => {},
    }
}

proof fn lemma_closed(ctx: SettleContext, key: OrderKey)
    ensures
        forall|o: PlacedOrder| #[trigger]
            first_under(ctx.consumed, key, o) ==> !absent(ctx.consumed, key),
{
    assert forall|o: PlacedOrder| #[trigger] first_under(ctx.consumed, key, o) implies !absent(
        ctx.consumed,
        key,
    ) by {
        law_first_order_is_one(ctx.consumed, key, o, o);
    }
}

proof fn lemma_walk(ctx: SettleContext, st: SettleState, reports: Seq<ExecutionReport>)
    requires
        st.phase is Walk,
        0 <= st.next,
    ensures
        ({
            let (after, changed, op) = walk_on(ctx, st, reports);
            walked(ctx, st, reports, after, changed, op)
        }),
    decreases reports.len() - st.next,
{
    let (after, changed, op) = walk_on(ctx, st, reports);
    if st.next >= reports.len() {
        lemma_leftover(ctx, st, 0);
    } else {
        let report = reports[st.next];
        let (freed, r, out) = report_effect(ctx, st.freed, report);
        lemma_report(ctx, st, report);
        match out {
            Some((_, _)) => {
                assert(op is Fill ==> changed =~= reports.update(st.next, changed[st.next]));
                assert(op !is Fill ==> changed =~= reports);
            },
            None => {
                let mid = reports.update(st.next, r);
                assert(mid =~= reports);
                let next = SettleState { freed, next: st.next + 1, phase: st.phase };
                lemma_walk(ctx, next, reports);
                assert forall|key: OrderKey| involved(ctx, key) implies (#[trigger] freed.contains(
                    key,
                ) <==> st.freed.contains(key)) by {
                    if freed != st.freed {
                        let k = choose|k: OrderKey| #[trigger]
                            closes(report, k) && !involved(ctx, k) && freed == st.freed.push(k);
                        if st.freed.contains(key) {
                            let i = st.freed.index_of(key);
                            assert(freed[i] == key);
                        }
                        if freed.contains(key) {
                            let i = freed.index_of(key);
                            assert(i < st.freed.len());
                            assert(st.freed[i] == key);
                        }
                    }
                }
                let at = after.next - 1;
                let stopped = op is Fill || (op is Release && after.phase is Walk);
                assert forall|j: int|
                    st.next <= j < reports.len() && (j < at || !stopped) implies idle(
                    ctx,
                    st.freed,
                    #[trigger] reports[j],
                ) by {
                    if j > st.next {
                        assert(idle(ctx, next.freed, reports[j]));
                        assert forall|key: OrderKey| #[trigger]
                            closes(reports[j], key) implies st.freed.contains(key) || !involved(
                            ctx,
                            key,
                        ) by {
                            if involved(ctx, key) {
                                assert(freed.contains(key));
                            }
                        }
                    }
                }
                assert(involved(ctx, ctx.taker));
                assert(freed.contains(ctx.taker) <==> st.freed.contains(ctx.taker));
                if op is Release && stopped {
                    let key = after.freed.last();
                    lemma_closed(ctx, key);
                    assert(involved(ctx, key));
                    assert(freed.contains(key) <==> st.freed.contains(key));
                }
            },
        }
    }
}

/// What releasing the leftovers from `i` on comes to.
proof fn lemma_leftover(ctx: SettleContext, st: SettleState, i: int)
    requires
        0 <= i,
    ensures
        ({
            let (after, op) = release_consumed(ctx, st, i);
            &&& after.next == st.next
            &&& op is Release || op is Done
            &&& after.phase is Leftover || after.phase is Finished
        }),
    decreases ctx.consumed.len() - i,
{
    if i < ctx.consumed.len() && st.freed.contains((ctx.consumed[i].account, ctx.consumed[i].id)) {
        lemma_leftover(ctx, st, i + 1);
    }
}

/// Whether a step goes through the reports: the settlement walks, or the
/// taker's reservation turned out not to be used up.
pub open spec fn walks(st: SettleState, reply: Option<u64>) -> bool {
    st.phase is Walk || (st.phase is GotTaker && reply != Some(0u64))
}

/// A fill moves funds between the one who buys and the one who sells. Where
/// the maker bought, the buyer's reservation is the maker's and the seller's
/// the taker's; where the maker sold, it is the other way round. Each pays at
/// its own rate, and the fees of both stand in the report.
pub proof fn law_fill_is_between_buyer_and_seller(
    ctx: SettleContext,
    st: SettleState,
    reports: Seq<ExecutionReport>,
    reply: Option<u64>,
)
    requires
        0 <= st.next,
    ensures
        ({
            let (after, changed, op) = step_spec(ctx, st, reports, reply);
            op is Fill ==> {
                &&& st.next < after.next <= reports.len()
                &&& settles_fill(ctx, reports[after.next - 1], op)
                &&& fees_filled_in(ctx, changed[after.next - 1])
            }
        }),
{
    if walks(st, reply) {
        lemma_walk(ctx, SettleState { phase: SettlePhase::Walk, ..st }, reports);
    } else if let SettlePhase::Leftover(i) = st.phase {
        lemma_leftover(ctx, st, i as int);
    }
}

/// Reports are taken in order: those passed over ask nothing of the ledger,
/// and the first that does is answered with what it asks for. Where none is
/// left, the submitted order is released unless it rests or is closed.
pub proof fn law_reports_are_taken_in_order(
    ctx: SettleContext,
    st: SettleState,
    reports: Seq<ExecutionReport>,
    reply: Option<u64>,
)
    requires
        0 <= st.next,
        walks(st, reply),
    ensures
        ({
            let (after, changed, op) = step_spec(ctx, st, reports, reply);
            walked(ctx, st, reports, after, changed, op)
        }),
{
    lemma_walk(ctx, SettleState { phase: SettlePhase::Walk, ..st }, reports);
}

/// After a fill the maker's reservation is read, then the taker's. One of
/// which nothing is left is given back and its order is closed; one of which
/// something is left stays.
#[verifier::rlimit(40)]
pub proof fn law_used_up_reservations_are_given_back(
    ctx: SettleContext,
    st: SettleState,
    reports: Seq<ExecutionReport>,
    reply: Option<u64>,
    maker_left: u64,
    taker_left: u64,
)
    requires
        0 <= st.next,
        step_spec(ctx, st, reports, reply).2 is Fill,
    ensures
        ({
            let (s1, r1, fill) = step_spec(ctx, st, reports, reply);
            let (s2, r2, read_maker) = step_spec(ctx, s1, r1, None);
            let (s3, r3, after_maker) = step_spec(ctx, s2, r2, Some(maker_left));
            let (s4, r4, read_taker) = if maker_left == 0 {
                step_spec(ctx, s3, r3, None)
            } else {
                (s3, r3, after_maker)
            };
            let (s5, r5, after_taker) = step_spec(ctx, s4, r4, Some(taker_left));
            exists|maker: PlacedOrder, taker: ReservationSlot|
                {
                    let (maker_key, taker_key) = fill_keys(reports[s1.next - 1]);
                    &&& #[trigger] settles_between(ctx, reports[s1.next - 1], fill, maker, taker)
                    &&& read_maker == (SettleOp::ReadRemaining { slot: maker.slot })
                    &&& maker_left == 0 ==> after_maker == (SettleOp::Free { slot: maker.slot })
                    &&& s4.freed == (if maker_left == 0 {
                        s1.freed.push(maker_key)
                    } else {
                        s1.freed
                    })
                    &&& read_taker == (SettleOp::ReadRemaining { slot: taker })
                    &&& taker_left == 0 ==> {
                        &&& after_taker == (SettleOp::Free { slot: taker })
                        &&& s5.freed == s4.freed.push(taker_key)
                        &&& s5.phase is Walk
                    }
                    &&& taker_left != 0 ==> after_taker !is Free
                    &&& r4 == r1
                }
        }),
{
    let (s1, r1, fill) = step_spec(ctx, st, reports, reply);
    if walks(st, reply) {
        let walking = SettleState { phase: SettlePhase::Walk, ..st };
        lemma_walk(ctx, walking, reports);
        lemma_fill_phase(ctx, walking, reports);
        let (maker, taker) = choose|maker: PlacedOrder, taker: ReservationSlot|
            #[trigger] settles_between(ctx, reports[s1.next - 1], fill, maker, taker) && s1.phase
                == read_phase(reports[s1.next - 1], maker, taker);
        let (s2, r2, read_maker) = step_spec(ctx, s1, r1, None);
        let (s3, r3, after_maker) = step_spec(ctx, s2, r2, Some(maker_left));
        let (s4, r4, read_taker) = if maker_left == 0 {
            step_spec(ctx, s3, r3, None)
        } else {
            (s3, r3, after_maker)
        };
        if taker_left != 0 {
            lemma_walk(ctx, SettleState { phase: SettlePhase::Walk, ..s4 }, r4);
        }
        assert(settles_between(ctx, reports[s1.next - 1], fill, maker, taker));
    } else if let SettlePhase::Leftover(i) = st.phase {
        lemma_leftover(ctx, st, i as int);
    }
}

/// The keys of a fill's maker and taker.
pub open spec fn fill_keys(report: ExecutionReport) -> (OrderKey, OrderKey) {
    (
        (report->Fill_maker_account, report->Fill_maker_order_id),
        (report->Fill_taker_account, report->Fill_taker_order_id),
    )
}

/// The phase in which the reservations of a fill are read.
spec fn read_phase(
    report: ExecutionReport,
    maker: PlacedOrder,
    taker: ReservationSlot,
) -> SettlePhase {
    SettlePhase::ReadMaker(
        FillParties {
            maker_account: report->Fill_maker_account,
            maker_id: report->Fill_maker_order_id,
            maker_slot: maker.slot,
            taker_account: report->Fill_taker_account,
            taker_id: report->Fill_taker_order_id,
            taker_slot: taker,
        },
    )
}

proof fn lemma_fill_phase(ctx: SettleContext, st: SettleState, reports: Seq<ExecutionReport>)
    requires
        0 <= st.next,
        st.phase is Walk,
        walk_on(ctx, st, reports).2 is Fill,
    ensures
        ({
            let (after, changed, op) = walk_on(ctx, st, reports);
            exists|maker: PlacedOrder, taker: ReservationSlot|
                #[trigger] settles_between(ctx, reports[after.next - 1], op, maker, taker)
                    && after.phase == read_phase(reports[after.next - 1], maker, taker)
        }),
    decreases reports.len() - st.next,
{
    let (after, changed, op) = walk_on(ctx, st, reports);
    if st.next >= reports.len() {
        lemma_leftover(ctx, st, 0);
    } else {
        let report = reports[st.next];
        let (freed, r, out) = report_effect(ctx, st.freed, report);
        lemma_report(ctx, st, report);
        match out {
            Some((_, _)) => {
                let (maker_key, taker_key) = fill_keys(report);
                lemma_parties(ctx, maker_key);
                lemma_parties(ctx, taker_key);
                let maker = locate(ctx, maker_key.0, maker_key.1).unwrap();
                let taker = taker_slot(ctx, taker_key.0, taker_key.1).unwrap();
                assert(settles_between(ctx, reports[after.next - 1], op, maker, taker));
            },
            None => {
                assert(reports.update(st.next, r) =~= reports);
                let next = SettleState { freed, next: st.next + 1, phase: st.phase };
                lemma_fill_phase(ctx, next, reports);
            },
        }
    }
}

/// Past the reports, consumed orders are released in the order in which they
/// left the book, each that is not closed by then, with its own reservation.
pub proof fn law_leftovers_are_released_in_order(
    ctx: SettleContext,
    st: SettleState,
    reports: Seq<ExecutionReport>,
    reply: Option<u64>,
)
    requires
        st.phase is Leftover,
    ensures
        ({
            let (after, changed, op) = step_spec(ctx, st, reports, reply);
            let from = st.phase->Leftover_0 as int;
            &&& changed == reports
            &&& op is Done ==> after.freed == st.freed && forall|j: int|
                from <= j < ctx.consumed.len() ==> st.freed.contains(
                    ((#[trigger] ctx.consumed[j]).account, ctx.consumed[j].id),
                )
            &&& op !is Done ==> exists|i: int|
                {
                    &&& from <= i < ctx.consumed.len()
                    &&& op == (SettleOp::Release { slot: (#[trigger] ctx.consumed[i]).slot })
                    &&& !st.freed.contains((ctx.consumed[i].account, ctx.consumed[i].id))
                    &&& after.freed == st.freed.push((ctx.consumed[i].account, ctx.consumed[i].id))
                    &&& forall|j: int|
                        from <= j < i ==> st.freed.contains(
                            ((#[trigger] ctx.consumed[j]).account, ctx.consumed[j].id),
                        )
                }
        }),
{
    lemma_first_leftover(ctx, st, st.phase->Leftover_0 as int);
}

proof fn lemma_first_leftover(ctx: SettleContext, st: SettleState, from: int)
    requires
        0 <= from,
    ensures
        ({
            let (after, op) = release_consumed(ctx, st, from);
            &&& op is Done ==> after.freed == st.freed && forall|j: int|
                from <= j < ctx.consumed.len() ==> st.freed.contains(
                    ((#[trigger] ctx.consumed[j]).account, ctx.consumed[j].id),
                )
            &&& op !is Done ==> exists|i: int|
                {
                    &&& from <= i < ctx.consumed.len()
                    &&& op == (SettleOp::Release { slot: (#[trigger] ctx.consumed[i]).slot })
                    &&& !st.freed.contains((ctx.consumed[i].account, ctx.consumed[i].id))
                    &&& after.freed == st.freed.push((ctx.consumed[i].account, ctx.consumed[i].id))
                    &&& forall|j: int|
                        from <= j < i ==> st.freed.contains(
                            ((#[trigger] ctx.consumed[j]).account, ctx.consumed[j].id),
                        )
                }
        }),
    decreases ctx.consumed.len() - from,
{
    if from < ctx.consumed.len() {
        let o = ctx.consumed[from];
        if st.freed.contains((o.account, o.id)) {
            lemma_first_leftover(ctx, st, from + 1);
        }
    }
}

/// The fee of a fill is the share of its amount at the party's rate, less than
/// one unit short of it, wherever it fits 64 bits.
pub proof fn law_fill_fee_is_the_share(amount: u128, bps: i16)
    requires
        -0x8000_0000_0000_0000 * 10_000 < amount * bps < 0x8000_0000_0000_0000 * 10_000,
    ensures
        bps >= 0 ==> 10_000 * fee_on(amount as int, bps) <= amount * bps < 10_000 * (fee_on(
            amount as int,
            bps,
        ) + 1),
        bps <= 0 ==> 10_000 * (fee_on(amount as int, bps) - 1) < amount * bps <= 10_000 * fee_on(
            amount as int,
            bps,
        ),
{
    law_fee_is_the_share(amount, bps, fee_on(amount as int, bps));
}

/// Whatever step a settlement takes, where it comes out as a fill, the buyer's
/// reservation is that of the order that bought and the seller's that of the
/// order that sold: the maker's and the taker's where the maker's side is
/// `Buy`, the taker's and the maker's where it is `Sell`.
pub proof fn law_step_settles_between_the_sides(
    s: &mut Settlement,
    reply: Option<u64>,
    reports: &mut Vec<ExecutionReport>,
    op: SettleOp,
)
    requires
        call_ensures(Settlement::step, (s, reply, reports), op),
        op is Fill,
    ensures
        ({
            let ctx = old(s).context();
            let at = final(s).state().next - 1;
            &&& old(s).state().next <= at < old(reports)@.len()
            &&& final(s).context() == ctx
            &&& exists|maker: PlacedOrder, taker: ReservationSlot| #[trigger]
                settles_between(ctx, old(reports)@[at], op, maker, taker) && (if maker.side
                    == Side::Buy {
                    op->Fill_buyer_slot == maker.slot && op->Fill_seller_slot == taker
                } else {
                    op->Fill_buyer_slot == taker && op->Fill_seller_slot == maker.slot
                })
            &&& fees_filled_in(ctx, final(reports)@[at])
        }),
{
}

/// Whether one of some reports closes an order.
pub open spec fn closed_among(
    reports: Seq<ExecutionReport>,
    from: int,
    to: int,
    key: OrderKey,
) -> bool {
    exists|j: int| from <= j < to && j < reports.len() && #[trigger] closes(reports[j], key)
}

proof fn lemma_leftover_key(ctx: SettleContext, st: SettleState, i: int)
    requires
        0 <= i,
    ensures
        ({
            let (after, op) = release_consumed(ctx, st, i);
            &&& after.next == st.next
            &&& after.freed == st.freed || exists|key: OrderKey|
                !absent(ctx.consumed, key) && after.freed == #[trigger] st.freed.push(key)
        }),
    decreases ctx.consumed.len() - i,
{
    if i < ctx.consumed.len() {
        let o = ctx.consumed[i];
        let key = (o.account, o.id);
        if st.freed.contains(key) {
            lemma_leftover_key(ctx, st, i + 1);
        } else {
            assert(goes_by(ctx.consumed[i], key));
            assert(release_consumed(ctx, st, i).0.freed == st.freed.push(key));
        }
    }
}

/// What one report closes: the order it names, once.
proof fn lemma_report_closes(ctx: SettleContext, freed: Seq<OrderKey>, report: ExecutionReport)
    ensures
        ({
            let (after, changed, out) = report_effect(ctx, freed, report);
            &&& forall|key: OrderKey| #[trigger] closes(report, key) ==> after.contains(key)
            &&& after == freed || exists|key: OrderKey|
                closes(report, key) && after == #[trigger] freed.push(key)
            &&& out is None ==> changed == report
        }),
{
    let (after, changed, out) = report_effect(ctx, freed, report);
    assert forall|key: OrderKey| #[trigger] closes(report, key) implies after.contains(key) by {
        if !freed.contains(key) {
            assert(after == freed.push(key));
            assert(freed.push(key)[freed.len() as int] == key);
        }
    }
    match report {
        ExecutionReport::Cancelled { order_id, account, .. } => {
            let key = (account, order_id);
            assert(closes(report, key));
            if !freed.contains(key) {
                assert(after == freed.push(key));
            }
        },
        ExecutionReport::Rejected { order_id, account, .. } => {
            let key = (account, order_id);
            assert(closes(report, key));
            if !freed.contains(key) {
                assert(after == freed.push(key));
            }
        },
        _ => {},
    }
}

#[verifier::rlimit(40)]
proof fn lemma_walk_closes(ctx: SettleContext, st: SettleState, reports: Seq<ExecutionReport>)
    requires
        0 <= st.next,
    ensures
        ({
            let (after, changed, op) = walk_on(ctx, st, reports);
            &&& st.next <= after.next
            &&& st.freed.is_prefix_of(after.freed)
            &&& forall|j: int, key: OrderKey|
                st.next <= j < after.next && j < reports.len() && #[trigger] closes(
                    reports[j],
                    key,
                ) ==> after.freed.contains(key)
            &&& forall|i: int|
                st.freed.len() <= i < after.freed.len() ==> closed_among(
                    reports,
                    st.next,
                    after.next,
                    #[trigger] after.freed[i],
                ) || after.freed[i] == ctx.taker || !absent(ctx.consumed, after.freed[i])
        }),
    decreases reports.len() - st.next,
{
    let (after, changed, op) = walk_on(ctx, st, reports);
    if st.next >= reports.len() {
        lemma_leftover_key(ctx, st, 0);
        if after.freed != st.freed && !(!ctx.taker_rested && !st.freed.contains(ctx.taker)) {
            let key = choose|key: OrderKey|
                !absent(ctx.consumed, key) && after.freed == #[trigger] st.freed.push(key);
            assert(after.freed == st.freed.push(key));
        }
    } else {
        let report = reports[st.next];
        lemma_report_closes(ctx, st.freed, report);
        let (freed, written, out) = report_effect(ctx, st.freed, report);
        if freed != st.freed {
            let key = choose|key: OrderKey|
                closes(report, key) && freed == #[trigger] st.freed.push(key);
            assert(freed[st.freed.len() as int] == key);
            assert(closes(reports[st.next], key));
            assert(closed_among(reports, st.next, after.next, key) || after.next <= st.next);
        }
        if out is None {
            assert(reports.update(st.next, written) =~= reports);
            let on = SettleState { freed, next: st.next + 1, phase: st.phase };
            lemma_walk_closes(ctx, on, reports);
            assert forall|j: int, key: OrderKey|
                st.next <= j < after.next && j < reports.len() && #[trigger] closes(
                    reports[j],
                    key,
                ) implies after.freed.contains(key) by {
                if j == st.next {
                    let k = choose|k: int| 0 <= k < freed.len() && freed[k] == key;
                    assert(freed.contains(key));
                    assert(after.freed[k] == freed[k]);
                }
            }
            assert forall|i: int| st.freed.len() <= i < after.freed.len() implies closed_among(
                reports,
                st.next,
                after.next,
                #[trigger] after.freed[i],
            ) || after.freed[i] == ctx.taker || !absent(ctx.consumed, after.freed[i]) by {
                let key = after.freed[i];
                if i < freed.len() {
                    assert(after.freed[i] == freed[i]);
                } else if closed_among(reports, st.next + 1, after.next, key) {
                    let j = choose|j: int|
                        st.next + 1 <= j < after.next && j < reports.len() && #[trigger] closes(
                            reports[j],
                            key,
                        );
                    assert(closes(reports[j], key));
                }
            }
        }
    }
}

/// Every order that a walked report cancels or rejects is closed from then on,
/// and no other is, but the submitted order and those that were used up.
pub proof fn law_walked_reports_close_their_orders(
    ctx: SettleContext,
    st: SettleState,
    reports: Seq<ExecutionReport>,
    reply: Option<u64>,
    j: int,
    key: OrderKey,
)
    requires
        0 <= st.next,
        walks(st, reply),
    ensures
        ({
            let (after, changed, op) = step_spec(ctx, st, reports, reply);
            &&& st.freed.is_prefix_of(after.freed)
            &&& st.next <= j < after.next && j < reports.len() && closes(reports[j], key)
                ==> after.freed.contains(key)
            &&& after.freed.contains(key) && !st.freed.contains(key) ==> closed_among(
                reports,
                st.next,
                after.next,
                key,
            ) || key == ctx.taker || !absent(ctx.consumed, key)
        }),
{
    let from = SettleState { phase: SettlePhase::Walk, ..st };
    lemma_walk_closes(ctx, from, reports);
    let (after, changed, op) = step_spec(ctx, st, reports, reply);
    if after.freed.contains(key) && !st.freed.contains(key) {
        let i = choose|i: int| 0 <= i < after.freed.len() && after.freed[i] == key;
        if i < st.freed.len() {
            assert(st.freed[i] == after.freed[i]);
        }
    }
}

} // verus!
