//! Laws of a book side: price-time priority, canonical order and the
//! snapshot round trip.

use vstd::prelude::*;

use super::book_side::{
    has_slot, insertion_order, is_best, is_listing, maps_to, order_view, orders, rank, restored,
    slot_position, walk, without, BookSide, Entry, RestingOrder,
};
use crate::types::{AccountId, OrderId, Price, Side};

verus! {

/// The orders of a side in the order in which they match: best price first,
/// and oldest first at one price.
pub open spec fn priority(s: &BookSide) -> Seq<(Price, RestingOrder)> {
    walk(s.ranked_levels().reverse())
}

/// A book side has one listing only.
pub proof fn lemma_listing_unique(
    side: Side,
    m: Map<Price, Seq<RestingOrder>>,
    a: Seq<(Price, Seq<RestingOrder>)>,
    b: Seq<(Price, Seq<RestingOrder>)>,
)
    requires
        is_listing(side, m, a),
        is_listing(side, m, b),
    ensures
        a == b,
    decreases a.len(),
{
    if a.len() == 0 {
        if b.len() > 0 {
            assert(m.dom().contains(b[0].0));
        }
        assert(a =~= b);
    } else {
        let p = a.last().0;
        assert(m.dom().contains(a[a.len() - 1].0));
        let j = choose|j: int| 0 <= j < b.len() && (#[trigger] b[j]).0 == p;
        let q = b.last().0;
        assert(m.dom().contains(b[b.len() - 1].0));
        let i = choose|i: int| 0 <= i < a.len() && (#[trigger] a[i]).0 == q;
        assert(rank(side, p) <= rank(side, q)) by {
            if j < b.len() - 1 {
                assert(rank(side, b[j].0) < rank(side, b[b.len() - 1].0));
            }
        }
        assert(rank(side, q) <= rank(side, p)) by {
            if i < a.len() - 1 {
                assert(rank(side, a[i].0) < rank(side, a[a.len() - 1].0));
            }
        }
        assert(p == q);
        lemma_listing_without_best(side, m, a);
        lemma_listing_without_best(side, m, b);
        lemma_listing_unique(side, m.remove(p), a.drop_last(), b.drop_last());
        assert(a =~= a.drop_last().push(a.last()));
        assert(b =~= b.drop_last().push(b.last()));
    }
}

proof fn lemma_listing_without_best(
    side: Side,
    m: Map<Price, Seq<RestingOrder>>,
    a: Seq<(Price, Seq<RestingOrder>)>,
)
    requires
        is_listing(side, m, a),
        a.len() > 0,
    ensures
        is_listing(side, m.remove(a.last().0), a.drop_last()),
{
    let p = a.last().0;
    let r = m.remove(p);
    let d = a.drop_last();
    assert forall|i: int| 0 <= i < d.len() implies r.dom().contains((#[trigger] d[i]).0) && d[i].1
        == r[d[i].0] by {
        assert(d[i] == a[i]);
        assert(rank(side, a[i].0) < rank(side, a[a.len() - 1].0));
    }
    assert forall|x: Price| #[trigger] r.dom().contains(x) implies exists|i: int|
        0 <= i < d.len() && (#[trigger] d[i]).0 == x by {
        assert(m.dom().contains(x));
        let i = choose|i: int| 0 <= i < a.len() && (#[trigger] a[i]).0 == x;
        assert(d[i].0 == x);
    }
}

/// Walking one more level in front.
proof fn lemma_walk_front(levels: Seq<(Price, Seq<RestingOrder>)>)
    requires
        levels.len() > 0,
    ensures
        walk(levels) == levels[0].1.map_values(|o: RestingOrder| (levels[0].0, o)) + walk(
            levels.skip(1),
        ),
    decreases levels.len(),
{
    let (price, q) = levels[0];
    let front = q.map_values(|o: RestingOrder| (price, o));
    if levels.len() == 1 {
        assert(levels.drop_last() =~= Seq::empty());
        assert(levels.skip(1) =~= Seq::empty());
        assert(walk(levels) =~= front + walk(levels.skip(1)));
    } else {
        lemma_walk_front(levels.drop_last());
        assert(levels.drop_last().skip(1) =~= levels.skip(1).drop_last());
        assert(levels.skip(1).last() == levels.last());
        assert(walk(levels) =~= front + walk(levels.skip(1)));
    }
}

proof fn lemma_walk_concat(
    a: Seq<(Price, Seq<RestingOrder>)>,
    b: Seq<(Price, Seq<RestingOrder>)>,
)
    ensures
        walk(a + b) == walk(a) + walk(b),
    decreases b.len(),
{
    if b.len() == 0 {
        assert(a + b =~= a);
        assert(walk(a) + walk(b) =~= walk(a));
    } else {
        assert((a + b).drop_last() =~= a + b.drop_last());
        assert((a + b).last() == b.last());
        lemma_walk_concat(a, b.drop_last());
        assert(walk(a + b) =~= walk(a) + walk(b));
    }
}

/// The best level is the last one in rank order.
pub proof fn law_best_is_last(s: &BookSide, price: Price)
    requires
        s.wf(),
        is_best(s.side(), s@, price),
    ensures
        s.ranked_levels().len() > 0,
        s.ranked_levels().last() == (price, orders(s@[price])),
{
    s.lemma_ranked_levels();
    let levels = s.ranked_levels();
    let m = order_view(s@);
    assert(m.dom().contains(price));
    let i = choose|i: int| 0 <= i < levels.len() && (#[trigger] levels[i]).0 == price;
    let n = levels.len() - 1;
    assert(m.dom().contains(levels[n].0));
    assert(s@.dom().contains(levels[n].0));
    if i < n {
        assert(rank(s.side(), levels[i].0) < rank(s.side(), levels[n].0));
    }
}

/// Strict price-time priority: taking the oldest order of the best level takes
/// the first order in priority and leaves the rest as they were.
pub proof fn law_pop_takes_first(before: &BookSide, after: &BookSide, price: Price)
    requires
        before.wf(),
        after.wf(),
        after.side() == before.side(),
        is_best(before.side(), before@, price),
        after@ == without(before@, price, 0),
    ensures
        priority(before) == seq![(price, before@[price][0].order)] + priority(after),
{
    before.lemma_ranked_levels();
    after.lemma_ranked_levels();
    law_best_is_last(before, price);
    let side = before.side();
    let old_levels = before.ranked_levels();
    let m = order_view(before@);
    let q = orders(before@[price]);
    let rest = old_levels.drop_last();
    lemma_listing_without_best(side, m, old_levels);
    let want = if before@[price].len() == 1 {
        rest
    } else {
        rest.push((price, q.skip(1)))
    };
    if before@[price].len() == 1 {
        assert(order_view(after@) =~= m.remove(price));
    } else {
        assert(orders(before@[price].remove(0)) =~= q.skip(1));
        assert(order_view(after@) =~= m.insert(price, q.skip(1)));
        assert(is_listing(side, order_view(after@), want)) by {
            let n = old_levels.len() - 1;
            assert forall|i: int| 0 <= i < want.len() implies (#[trigger] want[i]).0
                == old_levels[i].0 by {}
            assert forall|i: int| 0 <= i < want.len() implies order_view(after@).dom().contains(
                (#[trigger] want[i]).0,
            ) && want[i].1 == order_view(after@)[want[i].0] by {
                assert(m.dom().contains(old_levels[i].0));
                if i < n {
                    assert(want[i] == old_levels[i]);
                    assert(rank(side, old_levels[i].0) < rank(side, old_levels[n].0));
                }
            }
            assert forall|p: Price| #[trigger] order_view(after@).dom().contains(p) implies exists|
                i: int,
            |
                0 <= i < want.len() && (#[trigger] want[i]).0 == p by {
                assert(m.dom().contains(p));
                let i = choose|i: int| 0 <= i < old_levels.len() && (#[trigger] old_levels[i]).0 == p;
                assert(want[i].0 == p);
            }
        }
    }
    lemma_listing_unique(side, order_view(after@), want, after.ranked_levels());
    lemma_walk_front(old_levels.reverse());
    assert(old_levels.reverse().skip(1) =~= rest.reverse());
    assert(before@[price].len() > 0);
    let tag = |o: RestingOrder| (price, o);
    assert(q.map_values(tag) =~= seq![(price, q[0])] + q.skip(1).map_values(tag));
    if before@[price].len() == 1 {
        assert(q.skip(1).map_values(tag) =~= Seq::empty());
        assert(priority(before) =~= seq![(price, q[0])] + priority(after));
    } else {
        lemma_walk_front(want.reverse());
        assert(want.reverse().skip(1) =~= rest.reverse());
        assert(want.reverse()[0] == (price, q.skip(1)));
        assert(priority(before) =~= seq![(price, q[0])] + priority(after));
    }
}

/// Adding an order and taking it out again leaves the side as it was.
pub proof fn law_add_then_remove(before: &BookSide, price: Price, entry: Entry)
    requires
        before.wf(),
    ensures
        without(
            before@.insert(price, before.queue_at(price).push(entry)),
            price,
            before.queue_at(price).len() as int,
        ) == before@,
{
    before.lemma_ranked_levels();
    let q = before.queue_at(price);
    let added = before@.insert(price, q.push(entry));
    assert(q.push(entry).remove(q.len() as int) =~= q);
    assert(without(added, price, q.len() as int) =~= before@);
}

proof fn lemma_slot_position(before: &BookSide, price: Price, k: int)
    requires
        before.wf(),
        before@.dom().contains(price),
        0 <= k < before@[price].len(),
    ensures
        has_slot(before@[price], before@[price][k].slot),
        slot_position(before@[price], before@[price][k].slot) == k,
{
    let slot = before@[price][k].slot;
    assert(has_slot(before@[price], slot));
    let j = slot_position(before@[price], slot);
    before.law_slots_are_unique(price, j, price, k);
}

/// Removing an order takes out that order alone: every other keeps its slab
/// index, its price and its place among the orders of its level, and the level
/// goes if and only if it was its last order.
pub proof fn law_remove_takes_one(before: &BookSide, after: &BookSide, price: Price, slot: u32)
    requires
        before.wf(),
        before@.dom().contains(price),
        has_slot(before@[price], slot),
        after@ == without(before@, price, slot_position(before@[price], slot)),
    ensures
        ({
            let k = slot_position(before@[price], slot);
            let left = before@[price].remove(k);
            &&& 0 <= k < before@[price].len()
            &&& before@[price][k].slot == slot
            &&& after@.dom().contains(price) <==> before@[price].len() > 1
            &&& after@.dom().contains(price) ==> after@[price] == left
            &&& !has_slot(left, slot)
            &&& forall|p: Price|
                p != price ==> (#[trigger] after@.dom().contains(p) <==> before@.dom().contains(p))
                    && after@[p] == before@[p]
        }),
{
    let q = before@[price];
    let k = slot_position(q, slot);
    let left = q.remove(k);
    assert(0 <= k < q.len() && q[k].slot == slot);
    if has_slot(left, slot) {
        let j = choose|j: int| 0 <= j < left.len() && (#[trigger] left[j]).slot == slot;
        let i = if j < k {
            j
        } else {
            j + 1
        };
        assert(left[j] == q[i]);
        before.law_slots_are_unique(price, i, price, k);
    }
}

/// Removing an order by the index under which it was just added restores the
/// side: its levels, its snapshot and its priority.
pub proof fn law_remove_undoes_add(
    before: &BookSide,
    between: &BookSide,
    after: &BookSide,
    price: Price,
    entry: Entry,
)
    requires
        before.wf(),
        between.wf(),
        after.wf(),
        between.side() == before.side(),
        after.side() == before.side(),
        between@ == before@.insert(price, before.queue_at(price).push(entry)),
        after@ == without(between@, price, slot_position(between@[price], entry.slot)),
    ensures
        has_slot(between@[price], entry.slot),
        between@[price][slot_position(between@[price], entry.slot)] == entry,
        after@ == before@,
        after.ascending_levels() == before.ascending_levels(),
        priority(after) == priority(before),
{
    let n = before.queue_at(price).len() as int;
    assert(between@[price][n] == entry);
    lemma_slot_position(between, price, n);
    law_add_then_remove(before, price, entry);
    before.lemma_ranked_levels();
    after.lemma_ranked_levels();
    lemma_listing_unique(
        before.side(),
        order_view(before@),
        before.ranked_levels(),
        after.ranked_levels(),
    );
}

/// Slab indices are reused last in, first out: the index that an order left
/// last is the next to be taken, and taking it leaves those that were left
/// before it.
pub proof fn law_slots_are_reused_last_in_first_out(
    before: &BookSide,
    removed: &BookSide,
    added: &BookSide,
    slot: u32,
)
    requires
        removed.left_slot(before, slot),
        added.took_slot(removed),
    ensures
        removed.next_slot() == slot,
        added.same_slab(before),
        added.next_slot() == before.next_slot(),
{
    assert((seq![slot] + before.free_slots()).skip(1) =~= before.free_slots());
}

/// Walks in canonical order see each price once, lowest first, on both sides.
pub proof fn law_canonical_walk_is_ascending(s: &BookSide)
    requires
        s.wf(),
    ensures
        forall|i: int, j: int|
            0 <= i < j < s.ascending_levels().len() ==> (#[trigger] s.ascending_levels()[i]).0.0 < (
            #[trigger] s.ascending_levels()[j]).0.0,
        forall|i: int|
            0 <= i < s.ascending_levels().len() ==> s@.dom().contains(
                (#[trigger] s.ascending_levels()[i]).0,
            ) && s.ascending_levels()[i].1 == orders(s@[s.ascending_levels()[i].0]),
        forall|p: Price| #[trigger]
            s@.dom().contains(p) ==> exists|i: int|
                0 <= i < s.ascending_levels().len() && (#[trigger] s.ascending_levels()[i]).0 == p,
{
    s.lemma_ranked_levels();
    let r = s.ranked_levels();
    let a = s.ascending_levels();
    let n = r.len();
    assert forall|i: int| 0 <= i < n implies (#[trigger] a[i]) == r[if s.side() == Side::Buy {
        i
    } else {
        n - 1 - i
    }] by {}
    assert forall|i: int, j: int| 0 <= i < j < n implies (#[trigger] a[i]).0.0 < (
    #[trigger] a[j]).0.0 by {
        if s.side() == Side::Buy {
            assert(rank(s.side(), r[i].0) < rank(s.side(), r[j].0));
        } else {
            assert(rank(s.side(), r[n - 1 - j].0) < rank(s.side(), r[n - 1 - i].0));
        }
    }
    assert forall|i: int| 0 <= i < n implies s@.dom().contains((#[trigger] a[i]).0) && a[i].1
        == orders(s@[a[i].0]) by {
        let j = if s.side() == Side::Buy {
            i
        } else {
            n - 1 - i
        };
        assert(order_view(s@).dom().contains(r[j].0));
    }
    assert forall|p: Price| #[trigger] s@.dom().contains(p) implies exists|i: int|
        0 <= i < n && (#[trigger] a[i]).0 == p by {
        assert(order_view(s@).dom().contains(p));
        let i = choose|i: int| 0 <= i < n && (#[trigger] r[i]).0 == p;
        assert(a[if s.side() == Side::Buy {
            i
        } else {
            n - 1 - i
        }].0 == p);
    }
}

/// Adding up levels of different prices gives back what they list.
proof fn lemma_restored_listing(
    side: Side,
    m: Map<Price, Seq<RestingOrder>>,
    levels: Seq<(Price, Seq<RestingOrder>)>,
)
    requires
        is_listing(side, m, levels),
        forall|p: Price| #[trigger] m.dom().contains(p) ==> m[p].len() > 0,
    ensures
        restored(levels) == m,
    decreases levels.len(),
{
    if levels.len() == 0 {
        assert forall|p: Price| !m.dom().contains(p) by {}
        assert(restored(levels) =~= m);
    } else {
        let (price, q) = levels.last();
        let n = levels.len() - 1;
        assert(m.dom().contains(levels[n].0));
        lemma_listing_without_best(side, m, levels);
        lemma_restored_listing(side, m.remove(price), levels.drop_last());
        assert(Seq::<RestingOrder>::empty() + q =~= q);
        assert(restored(levels) =~= m);
    }
}

/// A side restored from the snapshot of another holds the same orders at the
/// same prices in the same order, and gives the same snapshot again.
pub proof fn law_snapshot_round_trip(saved: &BookSide, copy: &BookSide)
    requires
        saved.wf(),
        copy.wf(),
        copy.side() == saved.side(),
        order_view(copy@) == restored(
            insertion_order(saved.side(), saved.ascending_levels()),
        ),
    ensures
        order_view(copy@) == order_view(saved@),
        copy.ascending_levels() == saved.ascending_levels(),
        priority(copy) == priority(saved),
{
    saved.lemma_ranked_levels();
    copy.lemma_ranked_levels();
    let side = saved.side();
    let r = saved.ranked_levels();
    assert(insertion_order(side, saved.ascending_levels()) =~= r);
    assert forall|p: Price| #[trigger] order_view(saved@).dom().contains(p) implies order_view(
        saved@,
    )[p].len() > 0 by {
        assert(saved@.dom().contains(p));
    }
    lemma_restored_listing(side, order_view(saved@), r);
    lemma_listing_unique(side, order_view(saved@), r, copy.ranked_levels());
}

/// Whether levels stand as in a snapshot: prices strictly ascend, and each
/// level has an order.
pub open spec fn is_snapshot(levels: Seq<(Price, Seq<RestingOrder>)>) -> bool {
    &&& forall|i: int, j: int|
        0 <= i < j < levels.len() ==> (#[trigger] levels[i]).0.0 < (#[trigger] levels[j]).0.0
    &&& forall|i: int| 0 <= i < levels.len() ==> (#[trigger] levels[i]).1.len() > 0
}

/// The orders of levels by price.
spec fn by_price(levels: Seq<(Price, Seq<RestingOrder>)>) -> Map<Price, Seq<RestingOrder>> {
    Map::new(
        |p: Price| exists|i: int| 0 <= i < levels.len() && (#[trigger] levels[i]).0 == p,
        |p: Price|
            levels[choose|i: int| 0 <= i < levels.len() && (#[trigger] levels[i]).0 == p].1,
    )
}

/// A side restored from a snapshot, its own or any other list of levels in
/// that form, lists just these levels again, oldest order first at each
/// price. Its best price is the highest of them on the buy side and the lowest
/// on the sell side.
pub proof fn law_restore_lists_the_snapshot(
    side: Side,
    levels: Seq<(Price, Seq<RestingOrder>)>,
    out: &BookSide,
)
    requires
        is_snapshot(levels),
        out.wf(),
        out.side() == side,
        order_view(out@) == restored(insertion_order(side, levels)),
    ensures
        out.ascending_levels() == levels,
        levels.len() > 0 ==> is_best(
            side,
            out@,
            match side {
                Side::Buy => levels.last().0,
                Side::Sell => levels[0].0,
            },
        ),
        levels.len() == 0 ==> out@ == Map::<Price, Seq<Entry>>::empty(),
{
    let added = insertion_order(side, levels);
    let m = by_price(added);
    let n = levels.len();
    assert forall|i: int| 0 <= i < n implies (#[trigger] added[i]) == levels[if side == Side::Buy {
        i
    } else {
        n - 1 - i
    }] by {}
    assert forall|i: int, j: int| 0 <= i < j < added.len() implies rank(
        side,
        (#[trigger] added[i]).0,
    ) < rank(side, (#[trigger] added[j]).0) by {
        if side == Side::Buy {
            assert(levels[i].0.0 < levels[j].0.0);
        } else {
            assert(levels[n - 1 - j].0.0 < levels[n - 1 - i].0.0);
        }
    }
    assert forall|i: int| 0 <= i < added.len() implies m.dom().contains((#[trigger] added[i]).0)
        && added[i].1 == m[added[i].0] by {
        let j = choose|j: int| 0 <= j < added.len() && (#[trigger] added[j]).0 == added[i].0;
        if i < j {
            assert(rank(side, added[i].0) < rank(side, added[j].0));
        } else if j < i {
            assert(rank(side, added[j].0) < rank(side, added[i].0));
        }
    }
    assert forall|p: Price| #[trigger] m.dom().contains(p) implies m[p].len() > 0 by {
        let i = choose|i: int| 0 <= i < added.len() && (#[trigger] added[i]).0 == p;
        assert(added[i].1.len() > 0);
    }
    assert(is_listing(side, m, added));
    lemma_restored_listing(side, m, added);
    out.lemma_ranked_levels();
    lemma_listing_unique(side, m, added, out.ranked_levels());
    assert(out.ascending_levels() =~= levels);
    if n > 0 {
        let best = added[n - 1].0;
        assert(m.dom().contains(best));
        assert(order_view(out@).dom().contains(best));
        assert forall|p: Price| #[trigger] out@.dom().contains(p) implies rank(side, p) <= rank(
            side,
            best,
        ) by {
            assert(m.dom().contains(p));
            let i = choose|i: int| 0 <= i < added.len() && (#[trigger] added[i]).0 == p;
            if i < n - 1 {
                assert(rank(side, added[i].0) < rank(side, added[n - 1].0));
            }
        }
    } else {
        assert forall|p: Price| !(#[trigger] out@.dom().contains(p)) by {
            assert(order_view(out@).dom().contains(p) <==> m.dom().contains(p));
        }
        assert(out@ =~= Map::<Price, Seq<Entry>>::empty());
    }
}

/// The index that a restore maps an order to names that very order: it is
/// live, and no other order of the side has it.
pub proof fn law_mapped_index_names_its_order(
    out: &BookSide,
    entry: ((AccountId, OrderId), u32),
    price: Price,
    order: RestingOrder,
)
    requires
        out.wf(),
        maps_to(out@, entry, price, order),
    ensures
        entry.0 == (order.account, order.id),
        out.is_live(entry.1),
        forall|p: Price, k: int|
            out@.dom().contains(p) && 0 <= k < out@[p].len() && (#[trigger] out@[p][k]).slot
                == entry.1 ==> p == price && out@[p][k].order == order,
{
    let c = choose|c: int|
        0 <= c < out@[price].len() && #[trigger] out@[price][c] == (Entry {
            slot: entry.1,
            order,
        });
    assert(has_slot(out@[price], entry.1));
    assert forall|p: Price, k: int|
        out@.dom().contains(p) && 0 <= k < out@[p].len() && (#[trigger] out@[p][k]).slot
            == entry.1 implies p == price && out@[p][k].order == order by {
        out.law_slots_are_unique(p, k, price, c);
    }
}

/// Time priority: a new order ranks behind every order at its price or a
/// better one, and ahead of every order at a worse price. No other order
/// moves.
pub proof fn law_add_keeps_priority(
    before: &BookSide,
    after: &BookSide,
    price: Price,
    entry: Entry,
) -> (split: int)
    requires
        before.wf(),
        after.wf(),
        after.side() == before.side(),
        after@ == before@.insert(price, before.queue_at(price).push(entry)),
    ensures
        0 <= split <= priority(before).len(),
        priority(after) == priority(before).insert(split, (price, entry.order)),
        forall|i: int|
            0 <= i < split ==> rank(before.side(), (#[trigger] priority(before)[i]).0) >= rank(
                before.side(),
                price,
            ),
        forall|i: int|
            split <= i < priority(before).len() ==> rank(
                before.side(),
                (#[trigger] priority(before)[i]).0,
            ) < rank(before.side(), price),
{
    before.lemma_ranked_levels();
    after.lemma_ranked_levels();
    let side = before.side();
    let m = order_view(before@);
    let r = before.ranked_levels();
    let c = lemma_split_at(side, m, r, price);
    let q = orders(before.queue_at(price));
    assert(orders(before.queue_at(price).push(entry)) =~= q.push(entry.order));
    assert(order_view(after@) =~= m.insert(price, q.push(entry.order)));
    lemma_listing_with(side, m, r, price, c, q.push(entry.order));
    lemma_listing_unique(
        side,
        order_view(after@),
        listing_with(m, r, price, c, q.push(entry.order)),
        after.ranked_levels(),
    );
    assert(q =~= (if m.dom().contains(price) {
        m[price]
    } else {
        Seq::empty()
    }));
    lemma_priority_insert(side, m, r, price, c, q, entry.order)
}

proof fn lemma_priority_insert(
    side: Side,
    m: Map<Price, Seq<RestingOrder>>,
    r: Seq<(Price, Seq<RestingOrder>)>,
    price: Price,
    c: int,
    q: Seq<RestingOrder>,
    order: RestingOrder,
) -> (split: int)
    requires
        0 <= c <= r.len(),
        forall|i: int| 0 <= i < c ==> rank(side, (#[trigger] r[i]).0) < rank(side, price),
        m.dom().contains(price) ==> c < r.len() && r[c] == (price, m[price]),
        q == (if m.dom().contains(price) {
            m[price]
        } else {
            Seq::empty()
        }),
        forall|i: int|
            (if m.dom().contains(price) {
                c + 1
            } else {
                c
            }) <= i < r.len() ==> rank(side, (#[trigger] r[i]).0) > rank(side, price),
    ensures
        ({
            let old_order = walk(r.reverse());
            let new_order = walk(listing_with(m, r, price, c, q.push(order)).reverse());
            &&& 0 <= split <= old_order.len()
            &&& new_order == old_order.insert(split, (price, order))
            &&& forall|i: int|
                0 <= i < split ==> rank(side, (#[trigger] old_order[i]).0) >= rank(side, price)
            &&& forall|i: int|
                split <= i < old_order.len() ==> rank(side, (#[trigger] old_order[i]).0) < rank(
                    side,
                    price,
                )
        }),
{
    lemma_priority_parts(m, r, price, c);
    lemma_priority_with(m, r, price, c, q.push(order));
    let worse = r.take(c);
    let better = r.skip(if m.dom().contains(price) {
        c + 1
    } else {
        c
    });
    let first = walk(better.reverse());
    let last = walk(worse.reverse());
    let tag = |o: RestingOrder| (price, o);
    let here = q.map_values(tag);
    assert(q.push(order).map_values(tag) =~= here.push((price, order)));
    let split = (first.len() + here.len()) as int;
    assert(first + (here.push((price, order)) + last) =~= (first + (here + last)).insert(
        split,
        (price, order),
    ));
    lemma_parts_ranked(side, price, better, here, worse);
    split
}

/// What comes before and after the split of a priority order at a price.
proof fn lemma_parts_ranked(
    side: Side,
    price: Price,
    better: Seq<(Price, Seq<RestingOrder>)>,
    here: Seq<(Price, RestingOrder)>,
    worse: Seq<(Price, Seq<RestingOrder>)>,
)
    requires
        forall|i: int|
            0 <= i < better.len() ==> rank(side, (#[trigger] better[i]).0) >= rank(side, price),
        forall|i: int| 0 <= i < here.len() ==> (#[trigger] here[i]).0 == price,
        forall|i: int|
            0 <= i < worse.len() ==> rank(side, (#[trigger] worse[i]).0) < rank(side, price),
    ensures
        ({
            let first = walk(better.reverse());
            let all = first + (here + walk(worse.reverse()));
            let split = first.len() + here.len();
            &&& forall|i: int|
                0 <= i < split ==> rank(side, (#[trigger] all[i]).0) >= rank(side, price)
            &&& forall|i: int|
                split <= i < all.len() ==> rank(side, (#[trigger] all[i]).0) < rank(side, price)
        }),
{
    let first = walk(better.reverse());
    let last = walk(worse.reverse());
    let all = first + (here + last);
    let split = first.len() + here.len();
    lemma_walk_prices(better.reverse());
    lemma_walk_prices(worse.reverse());
    assert forall|i: int| 0 <= i < split implies rank(side, (#[trigger] all[i]).0) >= rank(
        side,
        price,
    ) by {
        if i < first.len() {
            assert(all[i] == first[i]);
            let l = choose|l: int|
                0 <= l < better.reverse().len() && (#[trigger] better.reverse()[l]).0 == first[i].0;
            assert(better.reverse()[l] == better[better.len() - 1 - l]);
        } else {
            assert(all[i] == here[i - first.len()]);
        }
    }
    assert forall|i: int| split <= i < all.len() implies rank(side, (#[trigger] all[i]).0) < rank(
        side,
        price,
    ) by {
        assert(all[i] == last[i - split]);
        let l = choose|l: int|
            0 <= l < worse.reverse().len() && (#[trigger] worse.reverse()[l]).0 == last[i
                - split].0;
        assert(worse.reverse()[l] == worse[worse.len() - 1 - l]);
    }
}

/// A listing with the level at `price` holding `q`, where `c` levels are worse.
spec fn listing_with(
    m: Map<Price, Seq<RestingOrder>>,
    r: Seq<(Price, Seq<RestingOrder>)>,
    price: Price,
    c: int,
    q: Seq<RestingOrder>,
) -> Seq<(Price, Seq<RestingOrder>)> {
    r.take(c).push((price, q)) + r.skip(if m.dom().contains(price) {
        c + 1
    } else {
        c
    })
}

proof fn lemma_listing_with(
    side: Side,
    m: Map<Price, Seq<RestingOrder>>,
    r: Seq<(Price, Seq<RestingOrder>)>,
    price: Price,
    c: int,
    q: Seq<RestingOrder>,
)
    requires
        is_listing(side, m, r),
        0 <= c <= r.len(),
        forall|i: int| 0 <= i < c ==> rank(side, (#[trigger] r[i]).0) < rank(side, price),
        m.dom().contains(price) ==> c < r.len() && r[c] == (price, m[price]),
        forall|i: int|
            (if m.dom().contains(price) {
                c + 1
            } else {
                c
            }) <= i < r.len() ==> rank(side, (#[trigger] r[i]).0) > rank(side, price),
    ensures
        is_listing(side, m.insert(price, q), listing_with(m, r, price, c, q)),
{
    let want = listing_with(m, r, price, c, q);
    let d = if m.dom().contains(price) {
        c + 1
    } else {
        c
    };
    let now = m.insert(price, q);
    assert forall|i: int| 0 <= i < want.len() implies (#[trigger] want[i]) == (if i < c {
        r[i]
    } else if i == c {
        (price, q)
    } else {
        r[i - c - 1 + d]
    }) by {}
    assert forall|i: int, j: int| 0 <= i < j < want.len() implies rank(
        side,
        (#[trigger] want[i]).0,
    ) < rank(side, (#[trigger] want[j]).0) by {
        if i < c && j < c {
            assert(rank(side, r[i].0) < rank(side, r[j].0));
        } else if i > c {
            assert(rank(side, r[i - c - 1 + d].0) < rank(side, r[j - c - 1 + d].0));
        } else if i < c && j > c {
            assert(rank(side, r[i].0) < rank(side, r[j - c - 1 + d].0));
        }
    }
    assert forall|i: int| 0 <= i < want.len() implies now.dom().contains((#[trigger] want[i]).0)
        && want[i].1 == now[want[i].0] by {
        if i < c {
            assert(m.dom().contains(r[i].0));
        } else if i > c {
            assert(m.dom().contains(r[i - c - 1 + d].0));
        }
    }
    assert forall|p: Price| #[trigger] now.dom().contains(p) implies exists|i: int|
        0 <= i < want.len() && (#[trigger] want[i]).0 == p by {
        if p == price {
            assert(want[c].0 == p);
        } else {
            assert(m.dom().contains(p));
            let i = choose|i: int| 0 <= i < r.len() && (#[trigger] r[i]).0 == p;
            if i < c {
                assert(want[i].0 == p);
            } else {
                assert(want[i - d + c + 1].0 == p);
            }
        }
    }
}

/// Priority order taken apart at a price: better levels, the level, the rest.
proof fn lemma_priority_parts(
    m: Map<Price, Seq<RestingOrder>>,
    r: Seq<(Price, Seq<RestingOrder>)>,
    price: Price,
    c: int,
)
    requires
        0 <= c <= r.len(),
        m.dom().contains(price) ==> c < r.len() && r[c] == (price, m[price]),
    ensures
        ({
            let present = m.dom().contains(price);
            let q = if present {
                m[price]
            } else {
                Seq::empty()
            };
            let better = r.skip(if present {
                c + 1
            } else {
                c
            });
            walk(r.reverse()) == walk(better.reverse()) + (q.map_values(
                |o: RestingOrder| (price, o),
            ) + walk(r.take(c).reverse()))
        }),
{
    let worse = r.take(c);
    let tag = |o: RestingOrder| (price, o);
    if m.dom().contains(price) {
        let better = r.skip(c + 1);
        let here = seq![(price, m[price])];
        assert(r.reverse() =~= better.reverse() + (here + worse.reverse()));
        lemma_walk_concat(better.reverse(), here + worse.reverse());
        lemma_walk_concat(here, worse.reverse());
        lemma_walk_one(price, m[price]);
    } else {
        let better = r.skip(c);
        assert(r.reverse() =~= better.reverse() + worse.reverse());
        lemma_walk_concat(better.reverse(), worse.reverse());
        assert(Seq::<RestingOrder>::empty().map_values(tag) =~= Seq::empty());
        assert(Seq::<(Price, RestingOrder)>::empty() + walk(worse.reverse()) =~= walk(
            worse.reverse(),
        ));
    }
}

proof fn lemma_priority_with(
    m: Map<Price, Seq<RestingOrder>>,
    r: Seq<(Price, Seq<RestingOrder>)>,
    price: Price,
    c: int,
    q: Seq<RestingOrder>,
)
    requires
        0 <= c <= r.len(),
        m.dom().contains(price) ==> c < r.len(),
    ensures
        ({
            let better = r.skip(if m.dom().contains(price) {
                c + 1
            } else {
                c
            });
            walk(listing_with(m, r, price, c, q).reverse()) == walk(better.reverse()) + (
            q.map_values(|o: RestingOrder| (price, o)) + walk(r.take(c).reverse()))
        }),
{
    let better = r.skip(if m.dom().contains(price) {
        c + 1
    } else {
        c
    });
    let worse = r.take(c);
    let here = seq![(price, q)];
    assert(listing_with(m, r, price, c, q).reverse() =~= better.reverse() + (here
        + worse.reverse()));
    lemma_walk_concat(better.reverse(), here + worse.reverse());
    lemma_walk_concat(here, worse.reverse());
    lemma_walk_one(price, q);
}

proof fn lemma_walk_one(price: Price, q: Seq<RestingOrder>)
    ensures
        walk(seq![(price, q)]) == q.map_values(|o: RestingOrder| (price, o)),
{
    let l = seq![(price, q)];
    assert(l.drop_last() =~= Seq::empty());
    assert(l.last() == (price, q));
    assert(walk(l.drop_last()) =~= Seq::empty());
    assert(walk(l) =~= q.map_values(|o: RestingOrder| (price, o)));
}

/// Every walked order has the price of one of the levels.
proof fn lemma_walk_prices(levels: Seq<(Price, Seq<RestingOrder>)>)
    ensures
        forall|i: int|
            0 <= i < walk(levels).len() ==> exists|l: int|
                0 <= l < levels.len() && (#[trigger] levels[l]).0 == (#[trigger] walk(levels)[i]).0,
    decreases levels.len(),
{
    if levels.len() > 0 {
        let d = levels.drop_last();
        lemma_walk_prices(d);
        assert forall|i: int| 0 <= i < walk(levels).len() implies exists|l: int|
            0 <= l < levels.len() && (#[trigger] levels[l]).0 == (#[trigger] walk(levels)[i]).0 by {
            if i < walk(d).len() {
                assert(walk(levels)[i] == walk(d)[i]);
                let l = choose|l: int| 0 <= l < d.len() && (#[trigger] d[l]).0 == walk(d)[i].0;
                assert(levels[l].0 == walk(levels)[i].0);
            } else {
                assert(levels[levels.len() - 1].0 == walk(levels)[i].0);
            }
        }
    }
}

/// Where a price stands in a listing: the number of worse levels.
proof fn lemma_split_at(
    side: Side,
    m: Map<Price, Seq<RestingOrder>>,
    r: Seq<(Price, Seq<RestingOrder>)>,
    price: Price,
) -> (c: int)
    requires
        is_listing(side, m, r),
    ensures
        0 <= c <= r.len(),
        forall|i: int| 0 <= i < c ==> rank(side, (#[trigger] r[i]).0) < rank(side, price),
        m.dom().contains(price) ==> c < r.len() && r[c] == (price, m[price]),
        forall|i: int|
            (if m.dom().contains(price) {
                c + 1
            } else {
                c
            }) <= i < r.len() ==> rank(side, (#[trigger] r[i]).0) > rank(side, price),
{
    if m.dom().contains(price) {
        let c = choose|c: int| 0 <= c < r.len() && (#[trigger] r[c]).0 == price;
        assert forall|i: int| 0 <= i < c implies rank(side, (#[trigger] r[i]).0) < rank(
            side,
            price,
        ) by {
            assert(rank(side, r[i].0) < rank(side, r[c].0));
        }
        assert forall|i: int| c + 1 <= i < r.len() implies rank(side, (#[trigger] r[i]).0) > rank(
            side,
            price,
        ) by {
            assert(rank(side, r[c].0) < rank(side, r[i].0));
        }
        c
    } else {
        lemma_split_absent(side, m, r, price, r.len() as int)
    }
}

proof fn lemma_split_absent(
    side: Side,
    m: Map<Price, Seq<RestingOrder>>,
    r: Seq<(Price, Seq<RestingOrder>)>,
    price: Price,
    hi: int,
) -> (c: int)
    requires
        is_listing(side, m, r),
        !m.dom().contains(price),
        0 <= hi <= r.len(),
        forall|i: int| hi <= i < r.len() ==> rank(side, (#[trigger] r[i]).0) > rank(side, price),
    ensures
        0 <= c <= r.len(),
        forall|i: int| 0 <= i < c ==> rank(side, (#[trigger] r[i]).0) < rank(side, price),
        forall|i: int| c <= i < r.len() ==> rank(side, (#[trigger] r[i]).0) > rank(side, price),
    decreases hi,
{
    if hi == 0 {
        0
    } else {
        assert(m.dom().contains(r[hi - 1].0));
        if rank(side, r[hi - 1].0) < rank(side, price) {
            assert forall|i: int| 0 <= i < hi implies rank(side, (#[trigger] r[i]).0) < rank(
                side,
                price,
            ) by {
                if i < hi - 1 {
                    assert(rank(side, r[i].0) < rank(side, r[hi - 1].0));
                }
            }
            hi
        } else {
            lemma_split_absent(side, m, r, price, hi - 1)
        }
    }
}

} // verus!
