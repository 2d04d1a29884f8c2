//! Laws of the operations of a book side: what one call does to the queues at
//! each price.

use vstd::prelude::*;

use super::book_side::{
    has_slot, is_best, order_view, orders, slot_position, snapshot_view, walk, without, BookSide,
    Entry, RestingOrder,
};
use super::laws::{law_canonical_walk_is_ascending, law_snapshot_round_trip, priority};
use crate::types::{AccountId, OrderId, Price, Side};

verus! {

/// Whether no price with orders is better than this one: none is higher among
/// bids, none lower among asks.
pub open spec fn none_better(b: BookSide, price: Price) -> bool {
    forall|p: Price| #[trigger]
        b@.dom().contains(p) ==> match b.side() {
            Side::Buy => p.0 <= price.0,
            Side::Sell => price.0 <= p.0,
        }
}

/// Whether the queues of two sides differ at one price at most.
pub open spec fn same_elsewhere(before: BookSide, after: BookSide, price: Price) -> bool {
    &&& after.side() == before.side()
    &&& forall|p: Price|
        p != price ==> (after@.dom().contains(p) <==> before@.dom().contains(p))
            && #[trigger] after.queue_at(p) == before.queue_at(p)
}

/// Whether a side lost one entry, at a place of the queue at a price, and
/// nothing else.
pub open spec fn loses(
    before: BookSide,
    after: BookSide,
    price: Price,
    k: int,
    entry: Entry,
) -> bool {
    &&& before@.dom().contains(price)
    &&& 0 <= k < before@[price].len()
    &&& before@[price][k] == entry
    &&& after.queue_at(price) == before@[price].take(k) + before@[price].skip(k + 1)
    &&& after@.dom().contains(price) <==> before@[price].len() > 1
    &&& same_elsewhere(before, after, price)
}

proof fn lemma_loses(before: BookSide, after: BookSide, price: Price, k: int)
    requires
        before@.dom().contains(price),
        0 <= k < before@[price].len(),
        after.side() == before.side(),
        after@ == without(before@, price, k),
    ensures
        loses(before, after, price, k, before@[price][k]),
{
    let q = before@[price];
    assert(q.remove(k) =~= q.take(k) + q.skip(k + 1));
    if q.len() == 1 {
        assert(q.take(k) + q.skip(k + 1) =~= Seq::<Entry>::empty());
    }
    assert forall|p: Price| p != price implies (after@.dom().contains(p) <==> before@.dom().contains(
        p,
    )) && #[trigger] after.queue_at(p) == before.queue_at(p) by {}
}

/// An added order stands last in the queue at its price, and no other queue
/// changes.
pub proof fn law_added_order_stands_last(
    b: &mut BookSide,
    price: Price,
    order: RestingOrder,
    idx: u32,
)
    requires
        call_ensures(BookSide::add, (b, price, order), idx),
    ensures
        final(b)@.dom().contains(price),
        final(b)@[price].last() == (Entry { slot: idx, order }),
        final(b)@[price].drop_last() == old(b).queue_at(price),
        same_elsewhere(*old(b), *final(b), price),
        final(b).live_count() == old(b).live_count() + 1,
{
    assert(old(b).queue_at(price).push(Entry { slot: idx, order }).drop_last() =~= old(b).queue_at(
        price,
    ));
}

/// A removal takes the one order with the given index out of the queue at its
/// price; the orders before and behind it keep their places, and no other
/// queue changes.
pub proof fn law_removed_order_leaves_its_queue(
    b: &mut BookSide,
    price: Price,
    node_idx: u32,
    r: Option<RestingOrder>,
)
    requires
        old(b)@.dom().contains(price) ==> has_slot(old(b)@[price], node_idx),
        call_ensures(BookSide::remove_node, (b, price, node_idx), r),
    ensures
        r is None <==> !old(b)@.dom().contains(price),
        r is None ==> final(b)@ == old(b)@,
        r matches Some(order) ==> exists|k: int| #[trigger]
            loses(*old(b), *final(b), price, k, Entry { slot: node_idx, order }),
{
    if r is Some {
        let k = slot_position(old(b)@[price], node_idx);
        assert(old(b)@[price][k].slot == node_idx);
        lemma_loses(*old(b), *final(b), price, k);
        assert(old(b)@[price][k] == (Entry { slot: node_idx, order: r->0 }));
    }
}

/// The order that is taken is the oldest at a price that no other beats; only
/// an empty side gives none.
pub proof fn law_best_and_oldest_is_taken(b: &mut BookSide, r: Option<(u32, RestingOrder)>)
    requires
        call_ensures(BookSide::pop_front_best, (b,), r),
    ensures
        r is None <==> forall|p: Price| !old(b)@.dom().contains(p),
        r is None ==> final(b)@ == old(b)@,
        r matches Some((slot, order)) ==> exists|price: Price|
            none_better(*old(b), price) && #[trigger] loses(
                *old(b),
                *final(b),
                price,
                0,
                Entry { slot, order },
            ),
{
    if r is Some {
        let (slot, order) = r.unwrap();
        let price = choose|price: Price| #[trigger]
            is_best(old(b).side(), old(b)@, price) && {
                &&& old(b)@[price].len() > 0
                &&& old(b)@[price][0] == (Entry { slot, order })
                &&& final(b)@ == without(old(b)@, price, 0)
            };
        lemma_loses(*old(b), *final(b), price, 0);
        assert(old(b)@.dom().contains(price));
        assert(none_better(*old(b), price));
    }
}

/// The front of a side is the oldest order at a price that no other beats, and
/// there is one wherever there is an order.
pub proof fn law_front_is_best_and_oldest(b: &BookSide, r: Option<(Price, u32)>, empty: bool)
    requires
        call_ensures(BookSide::best_front, (b,), r),
        call_ensures(BookSide::is_empty, (b,), empty),
    ensures
        r is None <==> forall|p: Price| !b@.dom().contains(p),
        empty <==> r is None,
        r matches Some((price, slot)) ==> b@.dom().contains(price) && none_better(*b, price)
            && b@[price][0].slot == slot,
{
    if r is Some {
        assert(b@.dom().contains(r.unwrap().0));
        assert(b@ != Map::<Price, Seq<Entry>>::empty());
    } else if !empty {
        assert(b@ =~= Map::<Price, Seq<Entry>>::empty());
    }
}

/// A side restored from the snapshot of another has the same orders, in the
/// same queues and at the same prices, and matches them in the same order;
/// the prices of a snapshot ascend.
#[verifier::rlimit(40)]
pub proof fn law_snapshot_is_restored(
    b: &BookSide,
    levels: Vec<(Price, Vec<RestingOrder>)>,
    r: (BookSide, Vec<((AccountId, OrderId), u32)>),
)
    requires
        b.wf(),
        call_ensures(BookSide::levels_snapshot, (b,), levels),
        call_ensures(BookSide::from_levels_snapshot, (b.side(), levels), r),
    ensures
        r.0.side() == b.side(),
        order_view(r.0@) == order_view(b@),
        priority(&r.0) == priority(b),
        forall|i: int, j: int|
            0 <= i < j < levels@.len() ==> (#[trigger] levels@[i]).0.0 < (#[trigger] levels@[j]).0.0,
        forall|i: int|
            0 <= i < levels@.len() ==> b@.dom().contains((#[trigger] levels@[i]).0)
                && levels@[i].1@.len() == b@[levels@[i].0].len(),
{
    law_snapshot_round_trip(b, &r.0);
    law_canonical_walk_is_ascending(b);
    let view = snapshot_view(levels@);
    assert forall|i: int, j: int| 0 <= i < j < levels@.len() implies (#[trigger] levels@[i]).0.0 < (
    #[trigger] levels@[j]).0.0 by {
        assert(view[i].0 == levels@[i].0 && view[j].0 == levels@[j].0);
    }
    assert forall|i: int| 0 <= i < levels@.len() implies b@.dom().contains(
        (#[trigger] levels@[i]).0,
    ) && levels@[i].1@.len() == b@[levels@[i].0].len() by {
        assert(view[i] == (levels@[i].0, levels@[i].1@));
    }
}

/// Of two prices the better has the larger key: the higher among bids, the
/// lower among asks.
pub proof fn law_better_price_has_the_larger_key(
    b: &BookSide,
    price: Price,
    other: Price,
    key: u64,
    other_key: u64,
)
    requires
        call_ensures(BookSide::key, (b, price), key),
        call_ensures(BookSide::key, (b, other), other_key),
    ensures
        match b.side() {
            Side::Buy => key < other_key <==> price.0 < other.0,
            Side::Sell => key < other_key <==> price.0 > other.0,
        },
{
}

/// Whether an order stands at a price in some levels.
spec fn stands_in(
    levels: Seq<(Price, Seq<RestingOrder>)>,
    price: Price,
    order: RestingOrder,
) -> bool {
    exists|i: int|
        0 <= i < levels.len() && (#[trigger] levels[i]).0 == price && levels[i].1.contains(order)
}

proof fn lemma_walk_holds(
    levels: Seq<(Price, Seq<RestingOrder>)>,
    price: Price,
    order: RestingOrder,
)
    ensures
        walk(levels).contains((price, order)) <==> stands_in(levels, price, order),
    decreases levels.len(),
{
    if levels.len() > 0 {
        let less = levels.drop_last();
        let (p, q) = levels.last();
        let tail = q.map_values(|o: RestingOrder| (p, o));
        lemma_walk_holds(less, price, order);
        if walk(levels).contains((price, order)) {
            let k = choose|k: int|
                0 <= k < walk(levels).len() && walk(levels)[k] == (price, order);
            if k < walk(less).len() {
                assert(walk(less)[k] == (price, order));
                let i = choose|i: int|
                    0 <= i < less.len() && (#[trigger] less[i]).0 == price && less[i].1.contains(
                        order,
                    );
                assert(levels[i] == less[i]);
            } else {
                assert(tail[k - walk(less).len()] == (price, order));
                assert(q[k - walk(less).len()] == order);
                assert(levels[levels.len() - 1].1.contains(order));
            }
        }
        if stands_in(levels, price, order) {
            let i = choose|i: int|
                0 <= i < levels.len() && (#[trigger] levels[i]).0 == price
                    && levels[i].1.contains(order);
            if i < less.len() {
                assert(less[i] == levels[i]);
                let k = choose|k: int| 0 <= k < walk(less).len() && walk(less)[k] == (price, order);
                assert(walk(levels)[k] == (price, order));
            } else {
                let k = choose|k: int| 0 <= k < q.len() && q[k] == order;
                assert(tail[k] == (price, order));
                assert(walk(levels)[walk(less).len() + k] == (price, order));
            }
        }
    }
}

proof fn lemma_walk_ascends(levels: Seq<(Price, Seq<RestingOrder>)>)
    requires
        forall|i: int, j: int|
            0 <= i < j < levels.len() ==> (#[trigger] levels[i]).0.0 < (#[trigger] levels[j]).0.0,
    ensures
        forall|a: int, b: int|
            0 <= a < b < walk(levels).len() ==> (#[trigger] walk(levels)[a]).0.0 <= (
            #[trigger] walk(levels)[b]).0.0,
        forall|a: int|
            0 <= a < walk(levels).len() ==> (#[trigger] walk(levels)[a]).0.0 <= levels.last().0.0,
    decreases levels.len(),
{
    if levels.len() > 0 {
        let less = levels.drop_last();
        let (p, q) = levels.last();
        let tail = q.map_values(|o: RestingOrder| (p, o));
        assert forall|i: int, j: int| 0 <= i < j < less.len() implies (#[trigger] less[i]).0.0 < (
        #[trigger] less[j]).0.0 by {
            assert(less[i] == levels[i] && less[j] == levels[j]);
        }
        lemma_walk_ascends(less);
        assert forall|a: int| 0 <= a < walk(levels).len() implies (#[trigger] walk(
            levels,
        )[a]).0.0 <= p.0 by {
            if a < walk(less).len() {
                assert(walk(levels)[a] == walk(less)[a]);
                if less.len() > 0 {
                    assert(less.last() == levels[less.len() - 1]);
                    assert(levels[less.len() - 1].0.0 < levels[levels.len() - 1].0.0);
                }
            } else {
                assert(walk(levels)[a] == tail[a - walk(less).len()]);
            }
        }
        assert forall|a: int, b: int| 0 <= a < b < walk(levels).len() implies (#[trigger] walk(
            levels,
        )[a]).0.0 <= (#[trigger] walk(levels)[b]).0.0 by {
            if b < walk(less).len() {
                assert(walk(levels)[a] == walk(less)[a] && walk(levels)[b] == walk(less)[b]);
            } else {
                assert(walk(levels)[b] == tail[b - walk(less).len()]);
            }
        }
    }
}

/// The walk over a side lists the orders that rest on it, each at its price
/// and no other, from the lowest price to the highest.
pub proof fn law_walk_lists_every_order(
    b: &BookSide,
    v: Vec<(Price, RestingOrder)>,
    price: Price,
    order: RestingOrder,
)
    requires
        b.wf(),
        call_ensures(BookSide::for_each_order, (b,), v),
    ensures
        v@.contains((price, order)) <==> exists|k: int|
            0 <= k < b.queue_at(price).len() && (#[trigger] b.queue_at(price)[k]).order == order,
        forall|i: int, j: int|
            0 <= i < j < v@.len() ==> (#[trigger] v@[i]).0.0 <= (#[trigger] v@[j]).0.0,
{
    law_canonical_walk_is_ascending(b);
    let levels = b.ascending_levels();
    lemma_walk_holds(levels, price, order);
    lemma_walk_ascends(levels);
    if v@.contains((price, order)) {
        let i = choose|i: int|
            0 <= i < levels.len() && (#[trigger] levels[i]).0 == price && levels[i].1.contains(
                order,
            );
        let q = b@[price];
        let k = choose|k: int| 0 <= k < levels[i].1.len() && levels[i].1[k] == order;
        assert(orders(q)[k] == q[k].order);
        assert(b.queue_at(price)[k].order == order);
    }
    if exists|k: int|
        0 <= k < b.queue_at(price).len() && (#[trigger] b.queue_at(price)[k]).order == order {
        let k = choose|k: int|
            0 <= k < b.queue_at(price).len() && (#[trigger] b.queue_at(price)[k]).order == order;
        assert(b@.dom().contains(price));
        let i = choose|i: int| 0 <= i < levels.len() && (#[trigger] levels[i]).0 == price;
        assert(levels[i].1[k] == order);
        assert(stands_in(levels, price, order));
    }
}

} // verus!
