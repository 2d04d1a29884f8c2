//! Laws of the book tracker and of the tally over a stream: what one message
//! does to one order, and which counters it raises.

use vstd::prelude::*;

use crate::types::Side;

use super::book::{
    after_event, event_result, is_best_ask, is_best_bid, is_quoted, BookTracker, OrderState,
    TrackerError,
};
use super::itch::ItchEvent;
use super::walk::{Counts, Walk};

verus! {

/// What a message leaves of one order, whichever: `None` where it is not live
/// afterwards.
pub open spec fn left_of(orders: Map<u64, OrderState>, event: ItchEvent, r: u64) -> Option<
    OrderState,
> {
    if after_event(orders, event).contains_key(r) {
        Some(after_event(orders, event)[r])
    } else {
        None
    }
}

/// An order as it is live, `None` where it is not.
pub open spec fn live(orders: Map<u64, OrderState>, r: u64) -> Option<OrderState> {
    if orders.contains_key(r) {
        Some(orders[r])
    } else {
        None
    }
}

/// An added order is live with the symbol, side, price and shares it was added
/// with, all of them left; an order under a live reference is refused. Every
/// other order stays as it is.
pub proof fn law_added_order_is_live(
    orders: Map<u64, OrderState>,
    stock_locate: u16,
    order_ref: u64,
    side: Side,
    shares: u32,
    stock: [u8; 8],
    price: u32,
    r: u64,
)
    ensures
        ({
            let plain = ItchEvent::AddOrder { stock_locate, order_ref, side, shares, stock, price };
            let attributed = ItchEvent::AddOrderAttributed {
                stock_locate,
                order_ref,
                side,
                shares,
                stock,
                price,
            };
            &&& r != order_ref ==> left_of(orders, plain, r) == live(orders, r)
            &&& left_of(orders, attributed, r) == left_of(orders, plain, r)
            &&& event_result(orders, attributed) == event_result(orders, plain)
            &&& match live(orders, order_ref) {
                Some(state) => {
                    &&& left_of(orders, plain, order_ref) == Some(state)
                    &&& event_result(orders, plain) == Err::<(), TrackerError>(
                        TrackerError::NewRefAlreadyExists { new_ref: order_ref },
                    )
                },
                None => {
                    &&& event_result(orders, plain) is Ok
                    &&& left_of(orders, plain, order_ref) matches Some(state)
                    &&& state.stock_locate == stock_locate
                    &&& state.side == side
                    &&& state.price == price
                    &&& state.remaining_shares == shares
                    &&& state.original_shares == shares
                },
            }
        }),
{
}

/// What taking shares off an order comes to, whether they were executed or
/// cancelled.
pub open spec fn shares_taken(
    orders: Map<u64, OrderState>,
    event: ItchEvent,
    order_ref: u64,
    shares: u32,
    r: u64,
) -> bool {
    let answer = event_result(orders, event);
    &&& r != order_ref ==> left_of(orders, event, r) == live(orders, r)
    &&& match live(orders, order_ref) {
        None => {
            &&& answer == Err::<(), TrackerError>(TrackerError::UnknownOrder { order_ref })
            &&& left_of(orders, event, order_ref) is None
        },
        Some(state) => if shares > state.remaining_shares {
            &&& answer == Err::<(), TrackerError>(
                TrackerError::ShareUnderflow {
                    order_ref,
                    remaining: state.remaining_shares,
                    requested: shares,
                },
            )
            &&& left_of(orders, event, order_ref) == Some(state)
        } else {
            &&& answer is Ok
            &&& left_of(orders, event, order_ref) is None <==> shares == state.remaining_shares
            &&& left_of(orders, event, order_ref) matches Some(left) ==> {
                &&& left.remaining_shares + shares == state.remaining_shares
                &&& left.original_shares == state.original_shares
                &&& left.stock_locate == state.stock_locate
                &&& left.side == state.side
                &&& left.price == state.price
            }
        },
    }
}

/// An execution and a cancel take their shares off the order they name and
/// touch no other; the order goes with its last share. More shares than are
/// left are refused, and so is an unknown order.
pub proof fn law_shares_come_off_the_named_order(
    orders: Map<u64, OrderState>,
    stock_locate: u16,
    order_ref: u64,
    shares: u32,
    exec_price: u32,
    r: u64,
)
    ensures
        shares_taken(
            orders,
            ItchEvent::OrderExecuted { stock_locate, order_ref, shares },
            order_ref,
            shares,
            r,
        ),
        shares_taken(
            orders,
            ItchEvent::OrderExecutedWithPrice { stock_locate, order_ref, shares, exec_price },
            order_ref,
            shares,
            r,
        ),
        shares_taken(
            orders,
            ItchEvent::OrderCancel { stock_locate, order_ref, cancelled_shares: shares },
            order_ref,
            shares,
            r,
        ),
{
}

/// A delete takes the order it names and no other.
pub proof fn law_delete_takes_the_named_order(
    orders: Map<u64, OrderState>,
    stock_locate: u16,
    order_ref: u64,
    r: u64,
)
    ensures
        ({
            let event = ItchEvent::OrderDelete { stock_locate, order_ref };
            &&& left_of(orders, event, order_ref) is None
            &&& r != order_ref ==> left_of(orders, event, r) == live(orders, r)
            &&& event_result(orders, event) == (if live(orders, order_ref) is Some {
                Ok::<(), TrackerError>(())
            } else {
                Err(TrackerError::UnknownOrder { order_ref })
            })
        }),
{
}

/// A replacement puts an order with the new reference, price and shares, all
/// of them left, in the place of the old one, on the same side of the same
/// symbol. It is refused where the old order is unknown or the new reference
/// is another live order's, and then changes nothing.
pub proof fn law_replace_puts_a_new_order_in_place(
    orders: Map<u64, OrderState>,
    stock_locate: u16,
    old_order_ref: u64,
    new_order_ref: u64,
    shares: u32,
    price: u32,
    r: u64,
)
    ensures
        ({
            let event = ItchEvent::OrderReplace {
                stock_locate,
                old_order_ref,
                new_order_ref,
                shares,
                price,
            };
            let answer = event_result(orders, event);
            let taken = new_order_ref != old_order_ref && live(orders, new_order_ref) is Some;
            &&& match live(orders, old_order_ref) {
                None => {
                    &&& answer == Err::<(), TrackerError>(
                        TrackerError::UnknownOrder { order_ref: old_order_ref },
                    )
                    &&& left_of(orders, event, r) == live(orders, r)
                },
                Some(before) => if taken {
                    &&& answer == Err::<(), TrackerError>(
                        TrackerError::NewRefAlreadyExists { new_ref: new_order_ref },
                    )
                    &&& left_of(orders, event, r) == live(orders, r)
                } else {
                    &&& answer is Ok
                    &&& old_order_ref != new_order_ref ==> left_of(orders, event, old_order_ref)
                        is None
                    &&& r != old_order_ref && r != new_order_ref ==> left_of(orders, event, r)
                        == live(orders, r)
                    &&& left_of(orders, event, new_order_ref) matches Some(now)
                    &&& now.stock_locate == before.stock_locate
                    &&& now.side == before.side
                    &&& now.price == price
                    &&& now.remaining_shares == shares
                    &&& now.original_shares == shares
                },
            }
        }),
{
}

/// A stock directory entry and a hidden trade change no order.
pub proof fn law_other_messages_change_nothing(
    orders: Map<u64, OrderState>,
    stock_locate: u16,
    side: Side,
    shares: u32,
    stock: [u8; 8],
    price: u32,
)
    ensures
        after_event(orders, ItchEvent::StockDirectory { stock_locate, stock }) == orders,
        after_event(orders, ItchEvent::HiddenTrade { stock_locate, side, shares, stock, price })
            == orders,
        event_result(orders, ItchEvent::StockDirectory { stock_locate, stock }) is Ok,
        event_result(orders, ItchEvent::HiddenTrade { stock_locate, side, shares, stock, price })
            is Ok,
{
}

/// No live buy order of a symbol is above its best bid and no live sell order
/// below its best ask; each is the price of some live order, and there is one
/// wherever there is an order.
pub proof fn law_best_prices_bound_every_order(
    orders: Map<u64, OrderState>,
    stock_locate: u16,
    bid: Option<u32>,
    ask: Option<u32>,
    r: u64,
)
    requires
        is_best_bid(orders, stock_locate, bid),
        is_best_ask(orders, stock_locate, ask),
    ensures
        live(orders, r) matches Some(o) ==> o.stock_locate == stock_locate ==> match o.side {
            Side::Buy => bid matches Some(p) && o.price <= p,
            Side::Sell => ask matches Some(p) && p <= o.price,
        },
        bid matches Some(p) ==> exists|q: u64| #[trigger]
            orders.contains_key(q) && orders[q].stock_locate == stock_locate && orders[q].side
                == Side::Buy && orders[q].price == p,
        ask matches Some(p) ==> exists|q: u64| #[trigger]
            orders.contains_key(q) && orders[q].stock_locate == stock_locate && orders[q].side
                == Side::Sell && orders[q].price == p,
{
    if let Some(o) = live(orders, r) {
        assert(is_quoted(orders, o.stock_locate, o.side, o.price));
    }
}

/// One if something holds, else zero.
pub open spec fn one_if(b: bool) -> int {
    if b {
        1
    } else {
        0
    }
}

/// A message raises the counter of its own type by one and no other, and its
/// answer the counter of its own kind of refusal.
pub proof fn law_message_raises_its_own_counter(
    c: Counts,
    event: ItchEvent,
    answer: Result<(), TrackerError>,
)
    requires
        c.events() < u64::MAX,
        c.refusals() < u64::MAX,
    ensures
        ({
            let n = c.with_event(event).with_answer(answer);
            &&& n.stock_dir == c.stock_dir + one_if(event is StockDirectory)
            &&& n.add == c.add + one_if(event is AddOrder)
            &&& n.add_attr == c.add_attr + one_if(event is AddOrderAttributed)
            &&& n.exec_at_rest == c.exec_at_rest + one_if(event is OrderExecuted)
            &&& n.exec_price == c.exec_price + one_if(event is OrderExecutedWithPrice)
            &&& n.cancel == c.cancel + one_if(event is OrderCancel)
            &&& n.delete == c.delete + one_if(event is OrderDelete)
            &&& n.replace == c.replace + one_if(event is OrderReplace)
            &&& n.hidden == c.hidden + one_if(event is HiddenTrade)
            &&& n.unknown_order == c.unknown_order + one_if(
                answer matches Err(e) && e is UnknownOrder,
            )
            &&& n.share_underflow == c.share_underflow + one_if(
                answer matches Err(e) && e is ShareUnderflow,
            )
            &&& n.new_ref_collision == c.new_ref_collision + one_if(
                answer matches Err(e) && e is NewRefAlreadyExists,
            )
            &&& n.peak_live_orders == c.peak_live_orders
            &&& n.events() == c.events() + 1
            &&& n.refusals() == c.refusals() + one_if(answer is Err)
        }),
{
}

/// The peak never falls, reaches every sample, and is a sample or what it was.
pub proof fn law_peak_is_the_largest_sample(c: Counts, live: usize)
    ensures
        ({
            let n = c.with_sample(live as int);
            &&& n.peak_live_orders >= c.peak_live_orders
            &&& n.peak_live_orders >= live
            &&& n.peak_live_orders == live || n.peak_live_orders == c.peak_live_orders
            &&& n == (Counts { peak_live_orders: n.peak_live_orders, ..c })
        }),
{
}

/// An added order is live with what it was added with unless its reference is
/// taken, and no other order changes.
pub proof fn law_tracker_adds_one_order(
    t: &mut BookTracker,
    order_ref: u64,
    stock_locate: u16,
    side: Side,
    price: u32,
    shares: u32,
    r: Result<(), TrackerError>,
    other: u64,
)
    requires
        call_ensures(BookTracker::add, (t, order_ref, stock_locate, side, price, shares), r),
    ensures
        r is Err <==> live(old(t)@, order_ref) is Some,
        r is Err ==> final(t)@ == old(t)@ && r == Err::<(), TrackerError>(
            TrackerError::NewRefAlreadyExists { new_ref: order_ref },
        ),
        r is Ok ==> live(final(t)@, order_ref) == Some(
            OrderState {
                stock_locate,
                side,
                price,
                remaining_shares: shares,
                original_shares: shares,
            },
        ),
        other != order_ref ==> live(final(t)@, other) == live(old(t)@, other),
{
}

/// Whether a call took shares off an order: what it answered, and what is
/// left.
pub open spec fn took_shares(
    before: Map<u64, OrderState>,
    after: Map<u64, OrderState>,
    order_ref: u64,
    shares: u32,
    r: Result<OrderState, TrackerError>,
    other: u64,
) -> bool {
    &&& other != order_ref ==> live(after, other) == live(before, other)
    &&& r is Err ==> after == before
    &&& match live(before, order_ref) {
        None => r == Err::<OrderState, TrackerError>(TrackerError::UnknownOrder { order_ref }),
        Some(state) => if shares > state.remaining_shares {
            r == Err::<OrderState, TrackerError>(
                TrackerError::ShareUnderflow {
                    order_ref,
                    remaining: state.remaining_shares,
                    requested: shares,
                },
            )
        } else {
            &&& r matches Ok(left)
            &&& left.remaining_shares + shares == state.remaining_shares
            &&& left.original_shares == state.original_shares
            &&& left.stock_locate == state.stock_locate
            &&& left.side == state.side
            &&& left.price == state.price
            &&& live(after, order_ref) == (if left.remaining_shares == 0 {
                None
            } else {
                Some(left)
            })
        },
    }
}

/// An execution and a cancel answer with what they leave of the order, which
/// goes with its last share.
pub proof fn law_tracker_takes_shares(
    t: &mut BookTracker,
    u: &mut BookTracker,
    order_ref: u64,
    shares: u32,
    executed: Result<OrderState, TrackerError>,
    cancelled: Result<OrderState, TrackerError>,
    other: u64,
)
    requires
        call_ensures(BookTracker::execute, (t, order_ref, shares), executed),
        call_ensures(BookTracker::cancel_partial, (u, order_ref, shares), cancelled),
    ensures
        took_shares(old(t)@, final(t)@, order_ref, shares, executed, other),
        took_shares(old(u)@, final(u)@, order_ref, shares, cancelled, other),
{
}

/// A delete answers with the order it took; a replacement puts a new order on
/// the same side of the same symbol in the place of the old one, and answers
/// with the old one.
pub proof fn law_tracker_deletes_and_replaces(
    t: &mut BookTracker,
    u: &mut BookTracker,
    old_ref: u64,
    new_ref: u64,
    price: u32,
    shares: u32,
    deleted: Result<OrderState, TrackerError>,
    replaced: Result<OrderState, TrackerError>,
    other: u64,
)
    requires
        call_ensures(BookTracker::delete, (t, old_ref), deleted),
        call_ensures(BookTracker::replace, (u, old_ref, new_ref, price, shares), replaced),
    ensures
        deleted == (match live(old(t)@, old_ref) {
            Some(state) => Ok::<OrderState, TrackerError>(state),
            None => Err(TrackerError::UnknownOrder { order_ref: old_ref }),
        }),
        live(final(t)@, old_ref) is None,
        other != old_ref ==> live(final(t)@, other) == live(old(t)@, other),
        replaced is Err ==> final(u)@ == old(u)@,
        replaced is Ok <==> live(old(u)@, old_ref) is Some && (new_ref == old_ref || live(
            old(u)@,
            new_ref,
        ) is None),
        replaced is Ok ==> {
            let before = old(u)@[old_ref];
            &&& live(final(u)@, new_ref) == Some(
                OrderState {
                    stock_locate: before.stock_locate,
                    side: before.side,
                    price,
                    remaining_shares: shares,
                    original_shares: shares,
                },
            )
            &&& new_ref != old_ref ==> live(final(u)@, old_ref) is None
            &&& other != old_ref && other != new_ref ==> live(final(u)@, other) == live(
                old(u)@,
                other,
            )
        },
{
}

/// The best prices of a symbol bound its live orders, and the count is that of
/// the live orders.
pub proof fn law_tracker_tells_best_prices(
    t: &BookTracker,
    stock_locate: u16,
    bid: Option<u32>,
    ask: Option<u32>,
    n: usize,
    r: u64,
)
    requires
        call_ensures(BookTracker::best_bid, (t, stock_locate), bid),
        call_ensures(BookTracker::best_ask, (t, stock_locate), ask),
        call_ensures(BookTracker::live_order_count, (t,), n),
    ensures
        live(t@, r) matches Some(o) ==> o.stock_locate == stock_locate ==> match o.side {
            Side::Buy => bid matches Some(p) && o.price <= p,
            Side::Sell => ask matches Some(p) && p <= o.price,
        },
        bid matches Some(p) ==> exists|q: u64| #[trigger]
            t@.contains_key(q) && t@[q].stock_locate == stock_locate && t@[q].side == Side::Buy
                && t@[q].price == p,
        ask matches Some(p) ==> exists|q: u64| #[trigger]
            t@.contains_key(q) && t@[q].stock_locate == stock_locate && t@[q].side == Side::Sell
                && t@[q].price == p,
        n == t@.dom().len(),
{
    law_best_prices_bound_every_order(t@, stock_locate, bid, ask, r);
}

/// A step of a walk counts its event under its own type and its refusal, if it
/// was refused, under its own kind; the end of a walk tells the live orders,
/// and the peak is never below them.
#[verifier::rlimit(40)]
pub proof fn law_walk_counts_its_events(
    w: &mut Walk,
    event: &ItchEvent,
    e: &mut Walk,
    live_orders: usize,
)
    requires
        old(w).tally().events() < u64::MAX,
        old(w).tally().refusals() < u64::MAX,
        call_ensures(Walk::step, (w, event), ()),
        call_ensures(Walk::finish, (e,), live_orders),
    ensures
        ({
            let (before, after) = (old(w).tally(), final(w).tally());
            let answer = event_result(old(w).orders(), *event);
            &&& after.stock_dir - before.stock_dir == one_if(*event is StockDirectory)
            &&& after.add - before.add == one_if(*event is AddOrder)
            &&& after.add_attr - before.add_attr == one_if(*event is AddOrderAttributed)
            &&& after.exec_at_rest - before.exec_at_rest == one_if(*event is OrderExecuted)
            &&& after.exec_price - before.exec_price == one_if(*event is OrderExecutedWithPrice)
            &&& after.cancel - before.cancel == one_if(*event is OrderCancel)
            &&& after.delete - before.delete == one_if(*event is OrderDelete)
            &&& after.replace - before.replace == one_if(*event is OrderReplace)
            &&& after.hidden - before.hidden == one_if(*event is HiddenTrade)
            &&& after.refusals() - before.refusals() == one_if(answer is Err)
            &&& after.events() % 100_000 != 0 ==> after.peak_live_orders == before.peak_live_orders
            &&& after.events() % 100_000 == 0 && final(w).orders().len() <= usize::MAX ==> {
                &&& after.peak_live_orders >= before.peak_live_orders
                &&& after.peak_live_orders >= final(w).orders().len()
            }
        }),
        live_orders == old(e).orders().dom().len(),
        final(e).tally().peak_live_orders >= live_orders,
        final(e).tally().events() == old(e).tally().events(),
{
    let answer = event_result(old(w).orders(), *event);
    law_message_raises_its_own_counter(old(w).tally(), *event, answer);
    let counted = old(w).tally().with_event(*event).with_answer(answer);
    law_peak_is_the_largest_sample(counted, final(w).orders().len() as usize);
    law_peak_is_the_largest_sample(old(e).tally(), live_orders);
}

} // verus!
