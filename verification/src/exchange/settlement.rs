//! Settlement of one executed order: from the reports of its book to the
//! operations on the account ledger, and to the list of orders that closed.
//!
//! The ledger is driven one operation at a time. `Settlement::step` hands out
//! the next operation and takes the ledger's answer to the one before.

use vstd::prelude::*;

use crate::exchange::admission::lemma_product_fits;
use crate::exchange::fees::{fee_from_bps, fee_spec, wrapped_fee_spec};
use crate::exchange::settlement_laws::{
    fees_filled_in, law_fill_is_between_buyer_and_seller, settles_fill,
};
use crate::types::{
    AccountId, ExecutionReport, FeeSchedule, OrderId, Price, Quantity, ReservationSlot, Side,
};

verus! {

/// An account and one of its order ids.
pub type OrderKey = (AccountId, OrderId);

/// An order with its side and the reservation that backs it.
#[derive(Clone, Copy, Debug, PartialEq, Eq, Structural)]
pub struct PlacedOrder {
    pub account: AccountId,
    pub id: OrderId,
    pub side: Side,
    pub slot: ReservationSlot,
}

/// The two orders of a fill and their reservations.
#[derive(Clone, Copy, Debug, PartialEq, Eq, Structural)]
pub struct FillParties {
    pub maker_account: AccountId,
    pub maker_id: OrderId,
    pub maker_slot: ReservationSlot,
    pub taker_account: AccountId,
    pub taker_id: OrderId,
    pub taker_slot: ReservationSlot,
}

/// One operation on the account ledger.
#[derive(Clone, Copy, Debug, PartialEq, Eq, Structural)]
pub enum SettleOp {
    /// Move the funds of a fill between two reservations. The buyer pays the
    /// fee in base currency and the seller in quote currency.
    Fill {
        buyer_slot: ReservationSlot,
        seller_slot: ReservationSlot,
        price: Price,
        quantity: Quantity,
        buyer_base_fee: i64,
        seller_quote_fee: i64,
    },
    /// Answer with what is left of a reservation.
    ReadRemaining { slot: ReservationSlot },
    /// Give a used-up reservation back to the slab.
    Free { slot: ReservationSlot },
    /// Return what is left of a reservation and give it back.
    Release { slot: ReservationSlot },
    /// Nothing is left to do.
    Done,
}

/// Where a settlement stands.
#[derive(Clone, Copy, Debug, PartialEq, Eq, Structural)]
pub enum SettlePhase {
    /// Going through the reports.
    Walk,
    /// A fill is out; next the maker's reservation is read.
    ReadMaker(FillParties),
    /// The answer for the maker's reservation comes in.
    GotMaker(FillParties),
    /// Next the taker's reservation is read.
    ReadTaker(FillParties),
    /// The answer for the taker's reservation comes in.
    GotTaker(FillParties),
    /// Releasing what is left over of the consumed orders from this one on.
    Leftover(usize),
    /// All done.
    Finished,
}

/// What stays the same throughout a settlement.
pub ghost struct SettleContext {
    pub taker: OrderKey,
    pub slot: ReservationSlot,
    pub taker_rested: bool,
    pub fees: FeeSchedule,
    pub consumed: Seq<PlacedOrder>,
    pub resting: Seq<PlacedOrder>,
}

/// What changes during a settlement: the closed orders, the next report, and
/// the phase.
pub ghost struct SettleState {
    pub freed: Seq<OrderKey>,
    pub next: int,
    pub phase: SettlePhase,
}

/// The first order in a list with a given account and id.
pub open spec fn find_order(list: Seq<PlacedOrder>, account: AccountId, id: OrderId) -> Option<
    PlacedOrder,
>
    decreases list.len(),
{
    if list.len() == 0 {
        None
    } else if list[0].account == account && list[0].id == id {
        Some(list[0])
    } else {
        find_order(list.skip(1), account, id)
    }
}

/// Where an order's reservation is found: among the orders that left the
/// book, else among those still on it.
pub open spec fn locate(ctx: SettleContext, account: AccountId, id: OrderId) -> Option<
    PlacedOrder,
> {
    match find_order(ctx.consumed, account, id) {
        Some(o) => Some(o),
        None => find_order(ctx.resting, account, id),
    }
}

/// The reservation of a fill's taker: the submitted order's own, or that of a
/// triggered stop.
pub open spec fn taker_slot(ctx: SettleContext, account: AccountId, id: OrderId) -> Option<
    ReservationSlot,
> {
    if (account, id) == ctx.taker {
        Some(ctx.slot)
    } else {
        match locate(ctx, account, id) {
            Some(o) => Some(o.slot),
            None => None,
        }
    }
}

/// The fee on an amount, in the arithmetic that its size calls for.
pub open spec fn fee_on(value: int, bps: i16) -> i64 {
    if value <= u64::MAX {
        fee_spec(value, bps as int)
    } else {
        wrapped_fee_spec(value as u128, bps)
    }
}

/// The ledger operation of a fill with a maker on `maker_side`.
pub open spec fn fill_op(
    fees: FeeSchedule,
    maker_side: Side,
    parties: FillParties,
    price: Price,
    quantity: Quantity,
) -> SettleOp {
    match maker_side {
        Side::Buy => SettleOp::Fill {
            buyer_slot: parties.maker_slot,
            seller_slot: parties.taker_slot,
            price,
            quantity,
            buyer_base_fee: fee_on(quantity.0 as int, fees.maker_fee_bps),
            seller_quote_fee: fee_on(price.0 * quantity.0, fees.taker_fee_bps),
        },
        Side::Sell => SettleOp::Fill {
            buyer_slot: parties.taker_slot,
            seller_slot: parties.maker_slot,
            price,
            quantity,
            buyer_base_fee: fee_on(quantity.0 as int, fees.taker_fee_bps),
            seller_quote_fee: fee_on(price.0 * quantity.0, fees.maker_fee_bps),
        },
    }
}

/// A fill report with its fees, both in quote currency: the maker's at the
/// maker rate and the taker's at the taker rate.
pub open spec fn with_fees(fees: FeeSchedule, report: ExecutionReport) -> ExecutionReport {
    match report {
        ExecutionReport::Fill {
            maker_order_id,
            taker_order_id,
            symbol,
            maker_account,
            taker_account,
            price,
            quantity,
            maker_fee,
            taker_fee,
        } => ExecutionReport::Fill {
            maker_order_id,
            taker_order_id,
            symbol,
            maker_account,
            taker_account,
            price,
            quantity,
            maker_fee: fee_on(price.0 * quantity.0, fees.maker_fee_bps),
            taker_fee: fee_on(price.0 * quantity.0, fees.taker_fee_bps),
        },
        other => other,
    }
}

/// What one report does: the closed orders after it, the report after it, and
/// the operation it calls for with the phase that follows, if any.
pub open spec fn report_effect(
    ctx: SettleContext,
    freed: Seq<OrderKey>,
    report: ExecutionReport,
) -> (Seq<OrderKey>, ExecutionReport, Option<(SettleOp, SettlePhase)>) {
    match report {
        ExecutionReport::Fill {
            maker_order_id,
            taker_order_id,
            maker_account,
            taker_account,
            price,
            quantity,
            ..
        } => match (
            locate(ctx, maker_account, maker_order_id),
            taker_slot(ctx, taker_account, taker_order_id),
        ) {
            (Some(maker), Some(slot)) => {
                let parties = FillParties {
                    maker_account,
                    maker_id: maker_order_id,
                    maker_slot: maker.slot,
                    taker_account,
                    taker_id: taker_order_id,
                    taker_slot: slot,
                };
                (
                    freed,
                    with_fees(ctx.fees, report),
                    Some(
                        (
                            fill_op(ctx.fees, maker.side, parties, price, quantity),
                            SettlePhase::ReadMaker(parties),
                        ),
                    ),
                )
            },
            _ => (freed, report, None),
        },
        ExecutionReport::Cancelled { order_id, account, .. } => closing_effect(
            ctx,
            freed,
            report,
            (account, order_id),
        ),
        ExecutionReport::Rejected { order_id, account, .. } => closing_effect(
            ctx,
            freed,
            report,
            (account, order_id),
        ),
        _ => (freed, report, None),
    }
}

/// What a report that closes an order does: nothing if the order is closed
/// already, else it closes and its reservation is released.
pub open spec fn closing_effect(
    ctx: SettleContext,
    freed: Seq<OrderKey>,
    report: ExecutionReport,
    key: OrderKey,
) -> (Seq<OrderKey>, ExecutionReport, Option<(SettleOp, SettlePhase)>) {
    if freed.contains(key) {
        (freed, report, None)
    } else if key == ctx.taker {
        (freed.push(key), report, Some((SettleOp::Release { slot: ctx.slot }, SettlePhase::Walk)))
    } else {
        match find_order(ctx.consumed, key.0, key.1) {
            Some(o) => (
                freed.push(key),
                report,
                Some((SettleOp::Release { slot: o.slot }, SettlePhase::Walk)),
            ),
            None => (freed.push(key), report, None),
        }
    }
}

/// Going through the reports from `st.next` up to the first that calls for an
/// operation, and on to the leftovers where none does.
pub open spec fn walk_on(ctx: SettleContext, st: SettleState, reports: Seq<ExecutionReport>) -> (
    SettleState,
    Seq<ExecutionReport>,
    SettleOp,
)
    decreases reports.len() - st.next,
{
    if st.next >= reports.len() || st.next < 0 {
        let (after, op) = release_taker(ctx, st);
        (after, reports, op)
    } else {
        let (freed, report, out) = report_effect(ctx, st.freed, reports[st.next]);
        let changed = reports.update(st.next, report);
        match out {
            Some((op, phase)) => (SettleState { freed, next: st.next + 1, phase }, changed, op),
            None => walk_on(
                ctx,
                SettleState { freed, next: st.next + 1, phase: st.phase },
                changed,
            ),
        }
    }
}

/// Releasing the submitted order's reservation unless it rests or is closed.
pub open spec fn release_taker(ctx: SettleContext, st: SettleState) -> (SettleState, SettleOp) {
    if !ctx.taker_rested && !st.freed.contains(ctx.taker) {
        (
            SettleState {
                freed: st.freed.push(ctx.taker),
                next: st.next,
                phase: SettlePhase::Leftover(0),
            },
            SettleOp::Release { slot: ctx.slot },
        )
    } else {
        release_consumed(ctx, st, 0)
    }
}

/// Releasing the next consumed order that is not closed yet, from `i` on.
pub open spec fn release_consumed(ctx: SettleContext, st: SettleState, i: int) -> (
    SettleState,
    SettleOp,
)
    decreases ctx.consumed.len() - i,
{
    if i >= ctx.consumed.len() || i < 0 {
        (
            SettleState { freed: st.freed, next: st.next, phase: SettlePhase::Finished },
            SettleOp::Done,
        )
    } else {
        let o = ctx.consumed[i];
        if st.freed.contains((o.account, o.id)) {
            release_consumed(ctx, st, i + 1)
        } else {
            (
                SettleState {
                    freed: st.freed.push((o.account, o.id)),
                    next: st.next,
                    phase: SettlePhase::Leftover((i + 1) as usize),
                },
                SettleOp::Release { slot: o.slot },
            )
        }
    }
}

/// Whether a phase waits for what is left of a reservation.
pub open spec fn awaits_amount(phase: SettlePhase) -> bool {
    phase is GotMaker || phase is GotTaker
}

/// One step of a settlement: the state, the reports and the operation that
/// follow on the ledger's answer.
pub open spec fn step_spec(
    ctx: SettleContext,
    st: SettleState,
    reports: Seq<ExecutionReport>,
    reply: Option<u64>,
) -> (SettleState, Seq<ExecutionReport>, SettleOp) {
    match st.phase {
        SettlePhase::Walk => walk_on(ctx, st, reports),
        SettlePhase::ReadMaker(p) => (
            SettleState { phase: SettlePhase::GotMaker(p), ..st },
            reports,
            SettleOp::ReadRemaining { slot: p.maker_slot },
        ),
        SettlePhase::GotMaker(p) => if reply == Some(0u64) {
            (
                SettleState {
                    freed: st.freed.push((p.maker_account, p.maker_id)),
                    next: st.next,
                    phase: SettlePhase::ReadTaker(p),
                },
                reports,
                SettleOp::Free { slot: p.maker_slot },
            )
        } else {
            (
                SettleState { phase: SettlePhase::GotTaker(p), ..st },
                reports,
                SettleOp::ReadRemaining { slot: p.taker_slot },
            )
        },
        SettlePhase::ReadTaker(p) => (
            SettleState { phase: SettlePhase::GotTaker(p), ..st },
            reports,
            SettleOp::ReadRemaining { slot: p.taker_slot },
        ),
        SettlePhase::GotTaker(p) => if reply == Some(0u64) {
            (
                SettleState {
                    freed: st.freed.push((p.taker_account, p.taker_id)),
                    next: st.next,
                    phase: SettlePhase::Walk,
                },
                reports,
                SettleOp::Free { slot: p.taker_slot },
            )
        } else {
            walk_on(ctx, SettleState { phase: SettlePhase::Walk, ..st }, reports)
        },
        SettlePhase::Leftover(i) => {
            let (after, op) = release_consumed(ctx, st, i as int);
            (after, reports, op)
        },
        SettlePhase::Finished => (st, reports, SettleOp::Done),
    }
}

/// The settlement of one executed order.
pub struct Settlement {
    taker_account: AccountId,
    taker_id: OrderId,
    slot: ReservationSlot,
    taker_rested: bool,
    fees: FeeSchedule,
    consumed: Vec<PlacedOrder>,
    resting: Vec<PlacedOrder>,
    freed: Vec<(AccountId, OrderId)>,
    next_report: usize,
    phase: SettlePhase,
}

fn find_placed(list: &Vec<PlacedOrder>, account: AccountId, id: OrderId) -> (r: Option<PlacedOrder>)
    ensures
        r == find_order(list@, account, id),
{
    let mut i: usize = 0;
    assert(list@.skip(0) =~= list@);
    while i < list.len()
        invariant
            0 <= i <= list@.len(),
            find_order(list@, account, id) == find_order(list@.skip(i as int), account, id),
        decreases list@.len() - i,
    {
        assert(list@.skip(i as int)[0] == list@[i as int]);
        assert(list@.skip(i as int).skip(1) =~= list@.skip(i + 1));
        if list[i].account == account && list[i].id == id {
            return Some(list[i]);
        }
        i = i + 1;
    }
    None
}

fn fee(value: u128, bps: i16) -> (f: i64)
    ensures
        f == fee_on(value as int, bps),
{
    fee_from_bps(value, bps)
}

impl Settlement {
    /// What stays the same throughout.
    pub closed spec fn context(&self) -> SettleContext {
        SettleContext {
            taker: (self.taker_account, self.taker_id),
            slot: self.slot,
            taker_rested: self.taker_rested,
            fees: self.fees,
            consumed: self.consumed@,
            resting: self.resting@,
        }
    }

    /// Where the settlement stands.
    pub closed spec fn state(&self) -> SettleState {
        SettleState { freed: self.freed@, next: self.next_report as int, phase: self.phase }
    }

    /// Starts the settlement of the reports from `report_start` on. `consumed`
    /// lists the orders that left the book while it executed, `resting` where
    /// the orders of the fills that are still on it are found.
    pub fn new(
        taker_account: AccountId,
        taker_id: OrderId,
        slot: ReservationSlot,
        taker_rested: bool,
        fees: FeeSchedule,
        consumed: Vec<PlacedOrder>,
        resting: Vec<PlacedOrder>,
        report_start: usize,
    ) -> (s: Settlement)
        ensures
            s.context() == (SettleContext {
                taker: (taker_account, taker_id),
                slot,
                taker_rested,
                fees,
                consumed: consumed@,
                resting: resting@,
            }),
            s.state() == (SettleState {
                freed: Seq::empty(),
                next: report_start as int,
                phase: SettlePhase::Walk,
            }),
    {
        let s = Settlement {
            taker_account,
            taker_id,
            slot,
            taker_rested,
            fees,
            consumed,
            resting,
            freed: Vec::new(),
            next_report: report_start,
            phase: SettlePhase::Walk,
        };
        assert(s.freed@ =~= Seq::empty());
        s
    }

    /// The orders that closed so far.
    pub fn freed(&self) -> (freed: &Vec<(AccountId, OrderId)>)
        ensures
            freed@ == self.state().freed,
    {
        &self.freed
    }

    fn is_freed(&self, account: AccountId, id: OrderId) -> (b: bool)
        ensures
            b == self.state().freed.contains((account, id)),
    {
        let mut i: usize = 0;
        while i < self.freed.len()
            invariant
                0 <= i <= self.freed@.len(),
                forall|j: int| 0 <= j < i ==> self.freed@[j] != (account, id),
            decreases self.freed@.len() - i,
        {
            if self.freed[i].0 == account && self.freed[i].1 == id {
                assert(self.freed@[i as int] == (account, id));
                return true;
            }
            i = i + 1;
        }
        false
    }

    fn locate_order(&self, account: AccountId, id: OrderId) -> (r: Option<PlacedOrder>)
        ensures
            r == locate(self.context(), account, id),
    {
        match find_placed(&self.consumed, account, id) {
            Some(o) => Some(o),
            None => find_placed(&self.resting, account, id),
        }
    }

    fn locate_taker(&self, account: AccountId, id: OrderId) -> (r: Option<ReservationSlot>)
        ensures
            r == taker_slot(self.context(), account, id),
    {
        if account == self.taker_account && id == self.taker_id {
            Some(self.slot)
        } else {
            match self.locate_order(account, id) {
                Some(o) => Some(o.slot),
                None => None,
            }
        }
    }

    /// Closes an order on a cancel or reject report, and says which
    /// reservation to release.
    fn close_reported(&mut self, account: AccountId, id: OrderId, Ghost(report): Ghost<ExecutionReport>) -> (r:
        Option<ReservationSlot>)
        ensures
            final(self).context() == old(self).context(),
            final(self).state().next == old(self).state().next,
            final(self).state().phase == old(self).state().phase,
            ({
                let (freed, same, out) = closing_effect(
                    old(self).context(),
                    old(self).state().freed,
                    report,
                    (account, id),
                );
                &&& final(self).state().freed == freed
                &&& out == (match r {
                    Some(slot) => Some((SettleOp::Release { slot }, SettlePhase::Walk)),
                    None => None,
                })
            }),
    {
        if self.is_freed(account, id) {
            return None;
        }
        let slot: Option<ReservationSlot> = if account == self.taker_account && id
            == self.taker_id {
            Some(self.slot)
        } else {
            match find_placed(&self.consumed, account, id) {
                Some(o) => Some(o.slot),
                None => None,
            }
        };
        self.freed.push((account, id));
        slot
    }

    /// Applies one report.
    fn apply_report(&mut self, report: ExecutionReport) -> (r: (
        ExecutionReport,
        Option<(SettleOp, SettlePhase)>,
    ))
        ensures
            final(self).context() == old(self).context(),
            final(self).state().next == old(self).state().next,
            final(self).state().phase == old(self).state().phase,
            (final(self).state().freed, r.0, r.1) == report_effect(
                old(self).context(),
                old(self).state().freed,
                report,
            ),
    {
        match report {
            ExecutionReport::Fill {
                maker_order_id,
                taker_order_id,
                symbol,
                maker_account,
                taker_account,
                price,
                quantity,
                maker_fee: _,
                taker_fee: _,
            } => {
                let maker: PlacedOrder = match self.locate_order(maker_account, maker_order_id) {
                    Some(maker) => maker,
                    None => return (report, None),
                };
                let taker_slot: ReservationSlot = match self.locate_taker(
                    taker_account,
                    taker_order_id,
                ) {
                    Some(slot) => slot,
                    None => return (report, None),
                };
                proof {
                    lemma_product_fits(price.0, quantity.0);
                }
                let cost: u128 = price.get() as u128 * quantity.get() as u128;
                let parties = FillParties {
                    maker_account,
                    maker_id: maker_order_id,
                    maker_slot: maker.slot,
                    taker_account,
                    taker_id: taker_order_id,
                    taker_slot,
                };
                let (buyer_slot, seller_slot, buyer_bps, seller_bps) = match maker.side {
                    Side::Buy => (
                        maker.slot,
                        taker_slot,
                        self.fees.maker_fee_bps,
                        self.fees.taker_fee_bps,
                    ),
                    Side::Sell => (
                        taker_slot,
                        maker.slot,
                        self.fees.taker_fee_bps,
                        self.fees.maker_fee_bps,
                    ),
                };
                let buyer_quote_fee: i64 = fee(cost, buyer_bps);
                let seller_quote_fee: i64 = fee(cost, seller_bps);
                let buyer_base_fee: i64 = fee(quantity.get() as u128, buyer_bps);
                let (maker_fee, taker_fee) = match maker.side {
                    Side::Buy => (buyer_quote_fee, seller_quote_fee),
                    Side::Sell => (seller_quote_fee, buyer_quote_fee),
                };
                (
                    ExecutionReport::Fill {
                        maker_order_id,
                        taker_order_id,
                        symbol,
                        maker_account,
                        taker_account,
                        price,
                        quantity,
                        maker_fee,
                        taker_fee,
                    },
                    Some(
                        (
                            SettleOp::Fill {
                                buyer_slot,
                                seller_slot,
                                price,
                                quantity,
                                buyer_base_fee,
                                seller_quote_fee,
                            },
                            SettlePhase::ReadMaker(parties),
                        ),
                    ),
                )
            },
            ExecutionReport::Cancelled { order_id, account, .. } => {
                match self.close_reported(account, order_id, Ghost(report)) {
                    Some(slot) => (report, Some((SettleOp::Release { slot }, SettlePhase::Walk))),
                    None => (report, None),
                }
            },
            ExecutionReport::Rejected { order_id, account, .. } => {
                match self.close_reported(account, order_id, Ghost(report)) {
                    Some(slot) => (report, Some((SettleOp::Release { slot }, SettlePhase::Walk))),
                    None => (report, None),
                }
            },
            _ => (report, None),
        }
    }

    /// Goes through the reports up to the next one that calls for an
    /// operation.
    fn walk(&mut self, reports: &mut Vec<ExecutionReport>) -> (op: SettleOp)
        requires
            old(self).state().phase is Walk,
        ensures
            final(self).context() == old(self).context(),
            (final(self).state(), final(reports)@, op) == walk_on(
                old(self).context(),
                old(self).state(),
                old(reports)@,
            ),
    {
        while self.next_report < reports.len()
            invariant
                self.phase is Walk,
                self.context() == old(self).context(),
                walk_on(old(self).context(), old(self).state(), old(reports)@) == walk_on(
                    self.context(),
                    self.state(),
                    reports@,
                ),
            decreases reports@.len() - self.next_report,
        {
            let i: usize = self.next_report;
            let (report, out) = self.apply_report(reports[i]);
            reports[i] = report;
            self.next_report = i + 1;
            match out {
                Some((op, phase)) => {
                    self.phase = phase;
                    return op;
                },
                None => {},
            }
        }
        self.release_submitted()
    }

    fn release_submitted(&mut self) -> (op: SettleOp)
        ensures
            final(self).context() == old(self).context(),
            (final(self).state(), op) == release_taker(old(self).context(), old(self).state()),
    {
        if !self.taker_rested && !self.is_freed(self.taker_account, self.taker_id) {
            self.freed.push((self.taker_account, self.taker_id));
            self.phase = SettlePhase::Leftover(0);
            return SettleOp::Release { slot: self.slot };
        }
        self.release_from(0)
    }

    fn release_from(&mut self, start: usize) -> (op: SettleOp)
        ensures
            final(self).context() == old(self).context(),
            (final(self).state(), op) == release_consumed(
                old(self).context(),
                old(self).state(),
                start as int,
            ),
    {
        let mut i: usize = start;
        while i < self.consumed.len()
            invariant
                *self == *old(self),
                release_consumed(old(self).context(), old(self).state(), start as int)
                    == release_consumed(self.context(), self.state(), i as int),
            decreases self.consumed@.len() - i,
        {
            let o: PlacedOrder = self.consumed[i];
            if !self.is_freed(o.account, o.id) {
                self.freed.push((o.account, o.id));
                self.phase = SettlePhase::Leftover(i + 1);
                return SettleOp::Release { slot: o.slot };
            }
            i = i + 1;
        }
        self.phase = SettlePhase::Finished;
        SettleOp::Done
    }

    /// Takes the ledger's answer to the operation before, the amount left
    /// where one was asked for, and gives the next operation. The fees of the
    /// fills it passes are written into `reports`.
    pub fn step(&mut self, reply: Option<u64>, reports: &mut Vec<ExecutionReport>) -> (op: SettleOp)
        requires
            awaits_amount(old(self).state().phase) ==> reply is Some,
        ensures
            final(self).context() == old(self).context(),
            (final(self).state(), final(reports)@, op) == step_spec(
                old(self).context(),
                old(self).state(),
                old(reports)@,
                reply,
            ),
            op is Fill ==> {
                let at = final(self).state().next - 1;
                &&& old(self).state().next <= at < old(reports)@.len()
                &&& settles_fill(old(self).context(), old(reports)@[at], op)
                &&& fees_filled_in(old(self).context(), final(reports)@[at])
            },
    {
        proof {
            law_fill_is_between_buyer_and_seller(self.context(), self.state(), reports@, reply);
        }
        match self.phase {
            SettlePhase::Walk => self.walk(reports),
            SettlePhase::ReadMaker(p) => {
                self.phase = SettlePhase::GotMaker(p);
                SettleOp::ReadRemaining { slot: p.maker_slot }
            },
            SettlePhase::GotMaker(p) => {
                if reply == Some(0u64) {
                    self.freed.push((p.maker_account, p.maker_id));
                    self.phase = SettlePhase::ReadTaker(p);
                    SettleOp::Free { slot: p.maker_slot }
                } else {
                    self.phase = SettlePhase::GotTaker(p);
                    SettleOp::ReadRemaining { slot: p.taker_slot }
                }
            },
            SettlePhase::ReadTaker(p) => {
                self.phase = SettlePhase::GotTaker(p);
                SettleOp::ReadRemaining { slot: p.taker_slot }
            },
            SettlePhase::GotTaker(p) => {
                self.phase = SettlePhase::Walk;
                if reply == Some(0u64) {
                    self.freed.push((p.taker_account, p.taker_id));
                    SettleOp::Free { slot: p.taker_slot }
                } else {
                    self.walk(reports)
                }
            },
            SettlePhase::Leftover(i) => self.release_from(i),
            SettlePhase::Finished => SettleOp::Done,
        }
    }
}

/// Whether every order that left the book is closed: the consumed ones, and
/// the submitted one unless it rests.
pub open spec fn settled(ctx: SettleContext, freed: Seq<OrderKey>) -> bool {
    &&& ctx.taker_rested || freed.contains(ctx.taker)
    &&& forall|j: int|
        0 <= j < ctx.consumed.len() ==> freed.contains(
            ((#[trigger] ctx.consumed[j]).account, ctx.consumed[j].id),
        )
}

/// What holds between steps: past the reports, the submitted order is closed
/// or rests, and so are the consumed orders passed so far.
pub open spec fn settle_inv(ctx: SettleContext, st: SettleState) -> bool {
    match st.phase {
        SettlePhase::Leftover(i) => {
            &&& ctx.taker_rested || st.freed.contains(ctx.taker)
            &&& i <= ctx.consumed.len()
            &&& forall|j: int|
                0 <= j < i ==> st.freed.contains(
                    ((#[trigger] ctx.consumed[j]).account, ctx.consumed[j].id),
                )
        },
        SettlePhase::Finished => settled(ctx, st.freed),
        _ => true,
    }
}

/// Whether a reservation backs an order of this settlement.
pub open spec fn backs(ctx: SettleContext, key: OrderKey, slot: ReservationSlot) -> bool {
    ||| key == ctx.taker && slot == ctx.slot
    ||| exists|j: int|
        0 <= j < ctx.consumed.len() && (#[trigger] ctx.consumed[j]).account == key.0
            && ctx.consumed[j].id == key.1 && ctx.consumed[j].slot == slot
}

/// Whether the last closed order is one that was open before and is backed by
/// the reservation.
pub open spec fn newly_closed(
    ctx: SettleContext,
    freed: Seq<OrderKey>,
    slot: ReservationSlot,
) -> bool {
    &&& freed.len() > 0
    &&& backs(ctx, freed.last(), slot)
    &&& !freed.drop_last().contains(freed.last())
}

/// Whether two reports are the same up to the fees of a fill.
pub open spec fn same_but_fees(a: ExecutionReport, b: ExecutionReport) -> bool {
    match (a, b) {
        (
            ExecutionReport::Fill {
                maker_order_id: m1,
                taker_order_id: t1,
                symbol: s1,
                maker_account: ma1,
                taker_account: ta1,
                price: p1,
                quantity: q1,
                ..
            },
            ExecutionReport::Fill {
                maker_order_id: m2,
                taker_order_id: t2,
                symbol: s2,
                maker_account: ma2,
                taker_account: ta2,
                price: p2,
                quantity: q2,
                ..
            },
        ) => m1 == m2 && t1 == t2 && s1 == s2 && ma1 == ma2 && ta1 == ta2 && p1 == p2 && q1 == q2,
        _ => a == b,
    }
}

/// An upper bound on the steps left.
pub open spec fn work_left(ctx: SettleContext, st: SettleState, n_reports: int) -> int {
    let reports_left = if st.next < n_reports {
        n_reports - st.next
    } else {
        0
    };
    let walking = 8 * reports_left + ctx.consumed.len() + 3;
    match st.phase {
        SettlePhase::Walk => walking,
        SettlePhase::GotTaker(_) => walking + 1,
        SettlePhase::ReadTaker(_) => walking + 2,
        SettlePhase::GotMaker(_) => walking + 3,
        SettlePhase::ReadMaker(_) => walking + 4,
        SettlePhase::Leftover(i) => ctx.consumed.len() - i + 1,
        SettlePhase::Finished => 0,
    }
}

/// What a step gives, in one place: see the laws below.
spec fn step_ok(
    ctx: SettleContext,
    st: SettleState,
    reports: Seq<ExecutionReport>,
    after: SettleState,
    changed: Seq<ExecutionReport>,
    op: SettleOp,
) -> bool {
    &&& settle_inv(ctx, after)
    &&& st.freed.is_prefix_of(after.freed)
    &&& changed.len() == reports.len()
    &&& forall|i: int|
        0 <= i < reports.len() ==> same_but_fees(reports[i], #[trigger] changed[i])
    &&& forall|i: int| 0 <= i < st.next && i < reports.len() ==> #[trigger] changed[i] == reports[i]
    &&& op is Done ==> settled(ctx, after.freed)
    &&& op matches SettleOp::Release { slot } ==> newly_closed(ctx, after.freed, slot)
    &&& op !is Done ==> work_left(ctx, after, reports.len() as int) < work_left(
        ctx,
        st,
        reports.len() as int,
    )
    &&& work_left(ctx, after, reports.len() as int) >= 0
}

proof fn lemma_found_backs(ctx: SettleContext, list: Seq<PlacedOrder>, from: int, key: OrderKey)
    requires
        list == ctx.consumed.skip(from),
        0 <= from <= ctx.consumed.len(),
    ensures
        find_order(list, key.0, key.1) matches Some(o) ==> backs(ctx, key, o.slot),
    decreases list.len(),
{
    if list.len() > 0 {
        assert(list[0] == ctx.consumed[from]);
        assert(list.skip(1) =~= ctx.consumed.skip(from + 1));
        lemma_found_backs(ctx, list.skip(1), from + 1, key);
    }
}

proof fn lemma_release_consumed(ctx: SettleContext, st: SettleState, i: int)
    requires
        0 <= i <= ctx.consumed.len() <= usize::MAX,
        ctx.taker_rested || st.freed.contains(ctx.taker),
        forall|j: int|
            0 <= j < i ==> st.freed.contains(
                ((#[trigger] ctx.consumed[j]).account, ctx.consumed[j].id),
            ),
    ensures
        ({
            let (after, op) = release_consumed(ctx, st, i);
            &&& settle_inv(ctx, after)
            &&& after.next == st.next
            &&& st.freed.is_prefix_of(after.freed)
            &&& op is Done || op is Release
            &&& op is Done ==> settled(ctx, after.freed) && after.phase is Finished
            &&& op matches SettleOp::Release { slot } ==> newly_closed(ctx, after.freed, slot)
            &&& op !is Done ==> (after.phase matches SettlePhase::Leftover(k) && i < k
                <= ctx.consumed.len())
        }),
    decreases ctx.consumed.len() - i,
{
    if i < ctx.consumed.len() {
        let o = ctx.consumed[i];
        if st.freed.contains((o.account, o.id)) {
            lemma_release_consumed(ctx, st, i + 1);
        } else {
            let freed = st.freed.push((o.account, o.id));
            assert(freed.drop_last() =~= st.freed);
            lemma_push_keeps(st.freed, (o.account, o.id));
            assert forall|j: int| 0 <= j < i + 1 implies freed.contains(
                ((#[trigger] ctx.consumed[j]).account, ctx.consumed[j].id),
            ) by {
                if j == i {
                    assert(freed[freed.len() - 1] == (o.account, o.id));
                } else {
                    assert(st.freed.contains((ctx.consumed[j].account, ctx.consumed[j].id)));
                }
            }
        }
    }
}

proof fn lemma_push_keeps(freed: Seq<OrderKey>, key: OrderKey)
    ensures
        forall|k: OrderKey| #[trigger] freed.contains(k) ==> freed.push(key).contains(k),
        freed.push(key).contains(key),
        freed.is_prefix_of(freed.push(key)),
{
    assert forall|k: OrderKey| #[trigger] freed.contains(k) implies freed.push(key).contains(
        k,
    ) by {
        let j = freed.index_of(k);
        assert(freed.push(key)[j] == k);
    }
    assert(freed.push(key)[freed.len() as int] == key);
}

proof fn lemma_release_taker(ctx: SettleContext, st: SettleState)
    requires
        ctx.consumed.len() <= usize::MAX,
    ensures
        ({
            let (after, op) = release_taker(ctx, st);
            &&& settle_inv(ctx, after)
            &&& after.next == st.next
            &&& st.freed.is_prefix_of(after.freed)
            &&& op is Done || op is Release
            &&& op is Done ==> settled(ctx, after.freed) && after.phase is Finished
            &&& op matches SettleOp::Release { slot } ==> newly_closed(ctx, after.freed, slot)
            &&& op !is Done ==> (after.phase matches SettlePhase::Leftover(k) && k
                <= ctx.consumed.len())
        }),
{
    if !ctx.taker_rested && !st.freed.contains(ctx.taker) {
        lemma_push_keeps(st.freed, ctx.taker);
        assert(st.freed.push(ctx.taker).drop_last() =~= st.freed);
    } else {
        lemma_release_consumed(ctx, st, 0);
    }
}

proof fn lemma_walk_on(ctx: SettleContext, st: SettleState, reports: Seq<ExecutionReport>)
    requires
        ctx.consumed.len() <= usize::MAX,
        st.phase is Walk,
        0 <= st.next,
    ensures
        ({
            let (after, changed, op) = walk_on(ctx, st, reports);
            step_ok(ctx, st, reports, after, changed, op)
        }),
    decreases reports.len() - st.next,
{
    if st.next >= reports.len() {
        lemma_release_taker(ctx, st);
    } else {
        let report = reports[st.next];
        let (freed, r, out) = report_effect(ctx, st.freed, report);
        let mid = reports.update(st.next, r);
        assert(same_but_fees(report, r));
        match report {
            ExecutionReport::Cancelled { order_id, account, .. } => {
                lemma_closing(ctx, st.freed, report, (account, order_id));
            },
            ExecutionReport::Rejected { order_id, account, .. } => {
                lemma_closing(ctx, st.freed, report, (account, order_id));
            },
            _ => {},
        }
        match out {
            Some((op, phase)) => {},
            None => {
                let next = SettleState { freed, next: st.next + 1, phase: st.phase };
                lemma_walk_on(ctx, next, mid);
                let (after, changed, op) = walk_on(ctx, next, mid);
                assert forall|i: int| 0 <= i < reports.len() implies same_but_fees(
                    reports[i],
                    #[trigger] changed[i],
                ) by {
                    assert(same_but_fees(mid[i], changed[i]));
                    if i <= st.next {
                        assert(changed[i] == mid[i]);
                    }
                }
                assert(st.freed.is_prefix_of(after.freed)) by {
                    assert(st.freed.is_prefix_of(freed));
                    assert(freed.is_prefix_of(after.freed));
                }
            },
        }
    }
}

proof fn lemma_closing(
    ctx: SettleContext,
    freed: Seq<OrderKey>,
    report: ExecutionReport,
    key: OrderKey,
)
    ensures
        ({
            let (after, r, out) = closing_effect(ctx, freed, report, key);
            &&& r == report
            &&& freed.is_prefix_of(after)
            &&& out matches Some((op, phase)) ==> phase is Walk && (op matches SettleOp::Release {
                slot,
            } && newly_closed(ctx, after, slot))
        }),
{
    lemma_push_keeps(freed, key);
    assert(freed.push(key).drop_last() =~= freed);
    assert(ctx.consumed.skip(0) =~= ctx.consumed);
    lemma_found_backs(ctx, ctx.consumed, 0, key);
}

proof fn lemma_step(
    ctx: SettleContext,
    st: SettleState,
    reports: Seq<ExecutionReport>,
    reply: Option<u64>,
)
    requires
        ctx.consumed.len() <= usize::MAX,
        settle_inv(ctx, st),
        0 <= st.next,
    ensures
        ({
            let (after, changed, op) = step_spec(ctx, st, reports, reply);
            step_ok(ctx, st, reports, after, changed, op)
        }),
{
    match st.phase {
        SettlePhase::Walk => {
            lemma_walk_on(ctx, st, reports);
        },
        SettlePhase::GotMaker(p) => {
            lemma_push_keeps(st.freed, (p.maker_account, p.maker_id));
        },
        SettlePhase::GotTaker(p) => {
            lemma_push_keeps(st.freed, (p.taker_account, p.taker_id));
            lemma_walk_on(ctx, SettleState { phase: SettlePhase::Walk, ..st }, reports);
        },
        SettlePhase::Leftover(i) => {
            lemma_release_consumed(ctx, st, i as int);
        },
        _ => {},
    }
}

/// A settlement that is done has closed every order that left the book: each
/// consumed order, and the submitted order unless it rests.
pub proof fn law_done_closes_every_order(
    ctx: SettleContext,
    st: SettleState,
    reports: Seq<ExecutionReport>,
    reply: Option<u64>,
)
    requires
        ctx.consumed.len() <= usize::MAX,
        settle_inv(ctx, st),
        0 <= st.next,
    ensures
        settle_inv(ctx, step_spec(ctx, st, reports, reply).0),
        step_spec(ctx, st, reports, reply).2 is Done ==> settled(
            ctx,
            step_spec(ctx, st, reports, reply).0.freed,
        ),
{
    lemma_step(ctx, st, reports, reply);
}

/// A reservation is released only for an order that was not closed before,
/// and that order is closed with it. Closed orders stay closed.
pub proof fn law_released_once(
    ctx: SettleContext,
    st: SettleState,
    reports: Seq<ExecutionReport>,
    reply: Option<u64>,
)
    requires
        ctx.consumed.len() <= usize::MAX,
        settle_inv(ctx, st),
        0 <= st.next,
    ensures
        st.freed.is_prefix_of(step_spec(ctx, st, reports, reply).0.freed),
        step_spec(ctx, st, reports, reply).2 matches SettleOp::Release { slot } ==> newly_closed(
            ctx,
            step_spec(ctx, st, reports, reply).0.freed,
            slot,
        ),
{
    lemma_step(ctx, st, reports, reply);
}

/// Settlement writes the fees of fills into the reports and changes nothing
/// else in them.
pub proof fn law_only_fees_change(
    ctx: SettleContext,
    st: SettleState,
    reports: Seq<ExecutionReport>,
    reply: Option<u64>,
)
    requires
        ctx.consumed.len() <= usize::MAX,
        settle_inv(ctx, st),
        0 <= st.next,
    ensures
        step_spec(ctx, st, reports, reply).1.len() == reports.len(),
        forall|i: int|
            0 <= i < reports.len() ==> same_but_fees(
                reports[i],
                #[trigger] step_spec(ctx, st, reports, reply).1[i],
            ),
        forall|i: int|
            0 <= i < st.next && i < reports.len() ==> #[trigger] step_spec(
                ctx,
                st,
                reports,
                reply,
            ).1[i] == reports[i],
{
    lemma_step(ctx, st, reports, reply);
}

/// Every step but the last brings a settlement nearer to its end, whatever
/// the ledger answers.
pub proof fn law_settlement_ends(
    ctx: SettleContext,
    st: SettleState,
    reports: Seq<ExecutionReport>,
    reply: Option<u64>,
)
    requires
        ctx.consumed.len() <= usize::MAX,
        settle_inv(ctx, st),
        0 <= st.next,
    ensures
        ({
            let (after, changed, op) = step_spec(ctx, st, reports, reply);
            op !is Done ==> 0 <= work_left(ctx, after, changed.len() as int) < work_left(
                ctx,
                st,
                reports.len() as int,
            )
        }),
{
    lemma_step(ctx, st, reports, reply);
}

} // verus!
