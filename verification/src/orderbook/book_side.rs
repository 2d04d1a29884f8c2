//! One side of a limit order book: price levels kept sorted in a vector,
//! each a first-in first-out queue of orders linked through a shared slab.

use vstd::prelude::*;

use super::quantity_laws::{law_available_without_account, levels_of_others};
use crate::types::{AccountId, OrderId, Price, Quantity, ReservationSlot, Side, TimeInForce};

verus! {

/// Link value that names no node.
pub const INVALID_NODE: u32 = u32::MAX;

/// The unfilled part of a limit order resting on the book.
#[derive(Clone, Copy, Debug, PartialEq, Eq, Structural)]
pub struct RestingOrder {
    pub id: OrderId,
    pub account: AccountId,
    pub remaining: Quantity,
    pub time_in_force: TimeInForce,
    /// Expiry of a GTD order, zero for all others.
    pub expiry_ns: u64,
    pub side: Side,
    /// The balance reservation that backs the order.
    pub reservation: ReservationSlot,
}

/// First and last node of one price level, and the number of orders on it.
#[derive(Clone, Copy, Debug)]
pub struct LevelHead {
    pub head: u32,
    pub tail: u32,
    pub len: u32,
}

/// A slab node: an order and its neighbours in the queue of its level.
/// A free node chains to the next free node through `next`.
#[derive(Clone, Copy, Debug)]
pub struct OrderNode {
    pub order: RestingOrder,
    pub prev: u32,
    pub next: u32,
}

/// One queued order as the model sees it: the slab index that names it and
/// the order itself.
pub struct Entry {
    pub slot: u32,
    pub order: RestingOrder,
}

/// All bids or all asks of one instrument.
///
/// Levels are sorted so that the best price is the last element on both
/// sides: ascending by price for bids, descending for asks. Both orders are
/// ascending in `price ^ key_mask`, with a mask of zero for bids and all ones
/// for asks.
///
/// The model (`view`) maps each price to its queue, oldest order first.
pub struct BookSide {
    levels: Vec<(Price, LevelHead)>,
    nodes: Vec<OrderNode>,
    free_head: u32,
    key_mask: u64,
    /// Slab indices of each level, oldest first.
    queues: Ghost<Map<Price, Seq<u32>>>,
    /// Slab indices on the free list, next to be reused first.
    free: Ghost<Seq<u32>>,
    /// The level each node is queued on, if any.
    home: Ghost<Seq<Option<Price>>>,
}

/// The mask that makes `price ^ mask` grow towards the better price.
pub open spec fn side_mask(side: Side) -> u64 {
    match side {
        Side::Buy => 0,
        Side::Sell => u64::MAX,
    }
}

/// How good a price is on a side: a higher rank is closer to the top of book.
pub open spec fn rank(side: Side, price: Price) -> int {
    match side {
        Side::Buy => price.0 as int,
        Side::Sell => u64::MAX - price.0,
    }
}

proof fn lemma_key_is_rank(side: Side, price: Price)
    ensures
        price.0 ^ side_mask(side) == rank(side, price),
{
    let p = price.0;
    assert(p ^ 0u64 == p) by (bit_vector);
    assert(p ^ 0xffff_ffff_ffff_ffffu64 == 0xffff_ffff_ffff_ffffu64 - p) by (bit_vector);
}

/// The neighbour links that the node at position `k` of a queue must hold.
spec fn linked(nodes: Seq<OrderNode>, q: Seq<u32>, k: int) -> bool {
    &&& nodes[q[k] as int].prev == (if k == 0 {
        INVALID_NODE
    } else {
        q[k - 1]
    })
    &&& nodes[q[k] as int].next == (if k == q.len() - 1 {
        INVALID_NODE
    } else {
        q[k + 1]
    })
}

/// Levels are strictly sorted by rank, there is one for each queued price and
/// no other, and each head describes its queue.
spec fn levels_ok(
    side: Side,
    levels: Seq<(Price, LevelHead)>,
    queues: Map<Price, Seq<u32>>,
) -> bool {
    &&& forall|i: int, j: int|
        0 <= i < j < levels.len() ==> rank(side, (#[trigger] levels[i]).0) < rank(
            side,
            (#[trigger] levels[j]).0,
        )
    &&& forall|i: int|
        0 <= i < levels.len() ==> {
            let (price, head) = #[trigger] levels[i];
            let q = queues[price];
            &&& queues.dom().contains(price)
            &&& q.len() == head.len
            &&& q.len() > 0 ==> head.head == q[0] && head.tail == q.last()
        }
    &&& forall|p: Price| #[trigger]
        queues.dom().contains(p) ==> exists|i: int|
            0 <= i < levels.len() && (#[trigger] levels[i]).0 == p
}

/// The position that an element has before the removal of position `k`.
spec fn after_removal(k: int, j: int) -> int {
    if j < k {
        j
    } else {
        j + 1
    }
}

/// The orders of a queue of slab indices.
spec fn entries(nodes: Seq<OrderNode>, q: Seq<u32>) -> Seq<Entry> {
    Seq::new(q.len(), |k: int| Entry { slot: q[k], order: nodes[q[k] as int].order })
}

/// The book side after the order at position `k` of a level has left: the
/// level goes with its last order.
pub open spec fn without(
    m: Map<Price, Seq<Entry>>,
    price: Price,
    k: int,
) -> Map<Price, Seq<Entry>> {
    if m[price].len() == 1 {
        m.remove(price)
    } else {
        m.insert(price, m[price].remove(k))
    }
}

/// Whether a queue holds the order named by a slab index.
pub open spec fn has_slot(q: Seq<Entry>, slot: u32) -> bool {
    exists|k: int| 0 <= k < q.len() && (#[trigger] q[k]).slot == slot
}

/// The position in a queue of the order named by a slab index.
pub open spec fn slot_position(q: Seq<Entry>, slot: u32) -> int {
    choose|k: int| 0 <= k < q.len() && (#[trigger] q[k]).slot == slot
}

/// The book side with the order named by a slab index replaced.
pub open spec fn with_order(
    m: Map<Price, Seq<Entry>>,
    slot: u32,
    order: RestingOrder,
) -> Map<Price, Seq<Entry>> {
    m.map_values(
        |q: Seq<Entry>|
            q.map_values(
                |e: Entry|
                    if e.slot == slot {
                        Entry { slot, order }
                    } else {
                        e
                    },
            ),
    )
}

/// Whether `price` is the best price with a level.
pub open spec fn is_best(side: Side, m: Map<Price, Seq<Entry>>, price: Price) -> bool {
    &&& m.dom().contains(price)
    &&& forall|p: Price| #[trigger] m.dom().contains(p) ==> rank(side, p) <= rank(side, price)
}

/// The orders of a queue, oldest first.
pub open spec fn orders(q: Seq<Entry>) -> Seq<RestingOrder> {
    q.map_values(|e: Entry| e.order)
}

/// The orders of a run of levels one after the other, each with its price.
pub open spec fn walk(levels: Seq<(Price, Seq<RestingOrder>)>) -> Seq<(Price, RestingOrder)>
    decreases levels.len(),
{
    if levels.len() == 0 {
        Seq::empty()
    } else {
        let (price, q) = levels.last();
        walk(levels.drop_last()) + q.map_values(|o: RestingOrder| (price, o))
    }
}

/// The model of a snapshot: each level with its orders.
pub open spec fn snapshot_view(levels: Seq<(Price, Vec<RestingOrder>)>) -> Seq<
    (Price, Seq<RestingOrder>),
> {
    levels.map_values(|l: (Price, Vec<RestingOrder>)| (l.0, l.1@))
}

/// Whether a run of levels lists a book side worst price first: every price
/// once, with its orders.
pub open spec fn is_listing(
    side: Side,
    m: Map<Price, Seq<RestingOrder>>,
    levels: Seq<(Price, Seq<RestingOrder>)>,
) -> bool {
    &&& forall|i: int, j: int|
        0 <= i < j < levels.len() ==> rank(side, (#[trigger] levels[i]).0) < rank(
            side,
            (#[trigger] levels[j]).0,
        )
    &&& forall|i: int|
        0 <= i < levels.len() ==> m.dom().contains((#[trigger] levels[i]).0) && levels[i].1
            == m[levels[i].0]
    &&& forall|p: Price| #[trigger]
        m.dom().contains(p) ==> exists|i: int|
            0 <= i < levels.len() && (#[trigger] levels[i]).0 == p
}

/// Levels in the order in which a restore adds them: worst price first.
pub open spec fn insertion_order(
    side: Side,
    levels: Seq<(Price, Seq<RestingOrder>)>,
) -> Seq<(Price, Seq<RestingOrder>)> {
    match side {
        Side::Buy => levels,
        Side::Sell => levels.reverse(),
    }
}

/// What adding the orders of a run of levels, one after the other, builds up.
pub open spec fn restored(levels: Seq<(Price, Seq<RestingOrder>)>) -> Map<
    Price,
    Seq<RestingOrder>,
>
    decreases levels.len(),
{
    if levels.len() == 0 {
        Map::empty()
    } else {
        let (price, q) = levels.last();
        let m = restored(levels.drop_last());
        if q.len() == 0 {
            m
        } else {
            m.insert(
                price,
                (if m.dom().contains(price) {
                    m[price]
                } else {
                    Seq::empty()
                }) + q,
            )
        }
    }
}

/// The model without the slab indices.
pub open spec fn order_view(m: Map<Price, Seq<Entry>>) -> Map<Price, Seq<RestingOrder>> {
    m.map_values(|q: Seq<Entry>| orders(q))
}

/// Whether a restore's mapping entry names the order `o` resting at `price`.
pub open spec fn maps_to(
    m: Map<Price, Seq<Entry>>,
    entry: ((AccountId, OrderId), u32),
    price: Price,
    o: RestingOrder,
) -> bool {
    &&& entry.0 == (o.account, o.id)
    &&& m.dom().contains(price)
    &&& exists|k: int|
        0 <= k < m[price].len() && #[trigger] m[price][k] == (Entry { slot: entry.1, order: o })
}

/// Sum of the remaining quantities of a run of orders, leaving out those of
/// one account where one is given.
pub open spec fn total_remaining(q: Seq<RestingOrder>, exclude: Option<AccountId>) -> int
    decreases q.len(),
{
    if q.len() == 0 {
        0
    } else {
        total_remaining(q.drop_last(), exclude) + (if exclude == Some(q.last().account) {
            0
        } else {
            q.last().remaining.0 as int
        })
    }
}

/// Sum of the remaining quantities on the levels at or better than a limit.
pub open spec fn total_available(
    side: Side,
    levels: Seq<(Price, Seq<RestingOrder>)>,
    limit: Option<Price>,
    exclude: Option<AccountId>,
) -> int
    decreases levels.len(),
{
    if levels.len() == 0 {
        0
    } else {
        let (price, q) = levels[0];
        total_available(side, levels.skip(1), limit, exclude) + (if limit is Some && rank(
            side,
            price,
        ) < rank(side, limit.unwrap()) {
            0
        } else {
            total_remaining(q, exclude)
        })
    }
}

/// `total`, or the largest `u64` where it does not fit one.
pub open spec fn saturated(total: int) -> int {
    if total > u64::MAX {
        u64::MAX as int
    } else {
        total
    }
}

impl View for BookSide {
    type V = Map<Price, Seq<Entry>>;

    closed spec fn view(&self) -> Map<Price, Seq<Entry>> {
        Map::new(
            |p: Price| self.queues@.dom().contains(p),
            |p: Price| entries(self.nodes@, self.queues@[p]),
        )
    }
}

impl BookSide {
    /// The side this book side keeps.
    pub closed spec fn side(&self) -> Side {
        if self.key_mask == 0 {
            Side::Buy
        } else {
            Side::Sell
        }
    }

    /// Number of slab nodes, queued or free.
    pub closed spec fn slab_len(&self) -> nat {
        self.nodes@.len()
    }

    /// The slab indices that orders have left, the next to be reused first.
    pub closed spec fn free_slots(&self) -> Seq<u32> {
        self.free@
    }

    /// Number of orders that hold a slab node.
    pub open spec fn live_count(&self) -> int {
        self.slab_len() - self.free_slots().len()
    }

    /// The slab index that the next order gets: the one that was left last,
    /// or a new one where none is free.
    pub open spec fn next_slot(&self) -> int {
        if self.free_slots().len() > 0 {
            self.free_slots()[0] as int
        } else {
            self.slab_len() as int
        }
    }

    /// The slab is that of another side: no index was taken or left.
    pub open spec fn same_slab(&self, other: &BookSide) -> bool {
        self.slab_len() == other.slab_len() && self.free_slots() == other.free_slots()
    }

    /// The slab is that of another side with its next index taken.
    pub open spec fn took_slot(&self, other: &BookSide) -> bool {
        if other.free_slots().len() > 0 {
            &&& self.slab_len() == other.slab_len()
            &&& self.free_slots() == other.free_slots().skip(1)
        } else {
            &&& self.slab_len() == other.slab_len() + 1
            &&& self.free_slots() == other.free_slots()
        }
    }

    /// The slab is that of another side with an index left, which is then the
    /// next to be reused.
    pub open spec fn left_slot(&self, other: &BookSide, slot: u32) -> bool {
        &&& self.slab_len() == other.slab_len()
        &&& self.free_slots() == seq![slot] + other.free_slots()
    }

    /// The queue at a price, empty where there is no level.
    pub open spec fn queue_at(&self, price: Price) -> Seq<Entry> {
        if self@.dom().contains(price) {
            self@[price]
        } else {
            Seq::empty()
        }
    }

    /// The levels with their orders, worst price first.
    pub closed spec fn ranked_levels(&self) -> Seq<(Price, Seq<RestingOrder>)> {
        Seq::new(
            self.levels@.len(),
            |i: int| (self.levels@[i].0, orders(self@[self.levels@[i].0])),
        )
    }

    /// The levels with their orders, lowest price first on both sides.
    pub open spec fn ascending_levels(&self) -> Seq<(Price, Seq<RestingOrder>)> {
        match self.side() {
            Side::Buy => self.ranked_levels(),
            Side::Sell => self.ranked_levels().reverse(),
        }
    }

    /// Whether a slab index names an order on this side.
    pub open spec fn is_live(&self, slot: u32) -> bool {
        exists|p: Price| #[trigger] self@.dom().contains(p) && has_slot(self@[p], slot)
    }

    spec fn levels_wf(&self) -> bool {
        levels_ok(self.side(), self.levels@, self.queues@)
    }

    /// Position `k` of a queue names a node of the slab, marked as queued on
    /// that level and linked to its neighbours.
    spec fn queued(&self, p: Price, k: int) -> bool {
        let q = self.queues@[p];
        &&& q[k] < self.nodes@.len()
        &&& self.home@[q[k] as int] == Some(p)
        &&& linked(self.nodes@, q, k)
    }

    /// Position `k` of the free list names an unqueued node that chains to
    /// the next.
    spec fn freed(&self, k: int) -> bool {
        let f = self.free@;
        &&& f[k] < self.nodes@.len()
        &&& self.home@[f[k] as int] == None::<Price>
        &&& self.nodes@[f[k] as int].next == (if k == f.len() - 1 {
            INVALID_NODE
        } else {
            f[k + 1]
        })
    }

    spec fn queue_wf(&self, p: Price) -> bool {
        let q = self.queues@[p];
        &&& q.len() > 0
        &&& q.no_duplicates()
        &&& forall|k: int| 0 <= k < q.len() ==> #[trigger] self.queued(p, k)
    }

    spec fn free_wf(&self) -> bool {
        let f = self.free@;
        &&& f.no_duplicates()
        &&& self.free_head == (if f.len() == 0 {
            INVALID_NODE
        } else {
            f[0]
        })
        &&& forall|k: int| 0 <= k < f.len() ==> #[trigger] self.freed(k)
    }

    /// The storage invariant: levels sorted by rank and one per queued price,
    /// queue links and the free list consistent with the slab.
    pub closed spec fn wf(&self) -> bool {
        &&& self.key_mask == side_mask(self.side())
        &&& self.home@.len() == self.nodes@.len() <= u32::MAX
        &&& self.levels_wf()
        &&& forall|p: Price| #[trigger] self.queues@.dom().contains(p) ==> self.queue_wf(p)
        &&& self.free_wf()
    }

    /// A node that is on no level and not on the free list.
    spec fn orphan(&self, idx: u32) -> bool {
        &&& idx < self.nodes@.len()
        &&& self.home@[idx as int] == None::<Price>
        &&& !self.free@.contains(idx)
    }

    fn mask_for(side: Side) -> (mask: u64)
        ensures
            mask == side_mask(side),
    {
        match side {
            Side::Buy => 0,
            Side::Sell => u64::MAX,
        }
    }

    /// Sort key of a price on this side: a higher key is a better price.
    pub fn key(&self, price: Price) -> (k: u64)
        requires
            self.wf(),
        ensures
            k == rank(self.side(), price),
    {
        proof {
            lemma_key_is_rank(self.side(), price);
        }
        price.get() ^ self.key_mask
    }

    /// Whether `price` is at or better than `limit` on this side.
    pub fn at_or_better(&self, price: Price, limit: Price) -> (b: bool)
        requires
            self.wf(),
        ensures
            b == (rank(self.side(), price) >= rank(self.side(), limit)),
            self.side() == Side::Buy ==> b == (price.0 >= limit.0),
            self.side() == Side::Sell ==> b == (price.0 <= limit.0),
    {
        self.key(price) >= self.key(limit)
    }

    /// An empty book side.
    pub fn new(side: Side) -> (s: BookSide)
        ensures
            s.wf(),
            s.side() == side,
            s@ == Map::<Price, Seq<Entry>>::empty(),
            s.slab_len() == 0,
            s.free_slots() == Seq::<u32>::empty(),
    {
        let s = BookSide {
            levels: Vec::new(),
            nodes: Vec::new(),
            free_head: INVALID_NODE,
            key_mask: Self::mask_for(side),
            queues: Ghost(Map::empty()),
            free: Ghost(Seq::empty()),
            home: Ghost(Seq::empty()),
        };
        assert(s@ =~= Map::<Price, Seq<Entry>>::empty());
        s
    }

    /// Finds the level of a price: its index, or the index at which it would
    /// be inserted. The best level is tried first.
    fn search(&self, price: Price) -> (r: Result<usize, usize>)
        requires
            self.wf(),
        ensures
            match r {
                Ok(i) => i < self.levels@.len() && self.levels@[i as int].0 == price,
                Err(i) => {
                    &&& i <= self.levels@.len()
                    &&& !self.queues@.dom().contains(price)
                    &&& forall|j: int|
                        0 <= j < i ==> rank(self.side(), (#[trigger] self.levels@[j]).0) < rank(
                            self.side(),
                            price,
                        )
                    &&& forall|j: int|
                        i <= j < self.levels@.len() ==> rank(
                            self.side(),
                            (#[trigger] self.levels@[j]).0,
                        ) > rank(self.side(), price)
                },
            },
    {
        let target: u64 = self.key(price);
        let n: usize = self.levels.len();
        if n == 0 {
            return Err(0);
        }
        let last_key: u64 = self.key(self.levels[n - 1].0);
        if target >= last_key {
            if target == last_key {
                return Ok(n - 1);
            }
            return Err(n);
        }
        let mut lo: usize = 0;
        let mut hi: usize = n - 1;
        while lo < hi
            invariant
                self.wf(),
                n == self.levels@.len(),
                target == rank(self.side(), price),
                0 <= lo <= hi < n,
                forall|j: int|
                    0 <= j < lo ==> rank(self.side(), (#[trigger] self.levels@[j]).0) < target,
                forall|j: int|
                    hi <= j < n ==> rank(self.side(), (#[trigger] self.levels@[j]).0) > target,
            decreases hi - lo,
        {
            let mid: usize = lo + (hi - lo) / 2;
            let k: u64 = self.key(self.levels[mid].0);
            if k == target {
                return Ok(mid);
            }
            if k < target {
                lo = mid + 1;
            } else {
                hi = mid;
            }
        }
        Err(lo)
    }

    /// Queues stay well-formed, and hold the same orders, while only nodes
    /// that are on no level change.
    proof fn lemma_queues_kept(&self, now: BookSide)
        requires
            forall|p: Price| #[trigger] self.queues@.dom().contains(p) ==> self.queue_wf(p),
            now.queues@ == self.queues@,
            self.nodes@.len() <= now.nodes@.len(),
            forall|i: int|
                0 <= i < self.nodes@.len() ==> #[trigger] now.home@[i] == self.home@[i],
            forall|i: int|
                0 <= i < self.nodes@.len() && self.home@[i] is Some ==> #[trigger] now.nodes@[i]
                    == self.nodes@[i],
        ensures
            forall|p: Price| #[trigger] now.queues@.dom().contains(p) ==> now.queue_wf(p),
            now@ == self@,
    {
        assert forall|p: Price| #[trigger] now.queues@.dom().contains(p) implies now.queue_wf(p)
            && entries(now.nodes@, now.queues@[p]) =~= entries(self.nodes@, self.queues@[p]) by {
            assert(self.queue_wf(p));
            assert forall|k: int| 0 <= k < now.queues@[p].len() implies #[trigger] now.queued(
                p,
                k,
            ) by {
                assert(self.queued(p, k));
            }
            assert forall|k: int| 0 <= k < now.queues@[p].len() implies now.nodes@[(
            #[trigger] now.queues@[p][k]) as int] == self.nodes@[self.queues@[p][k] as int] by {
                assert(self.queued(p, k));
            }
        }
        assert(now@ =~= self@);
    }

    /// Takes a node for `order`: the next free one, or a new one. The node is
    /// not linked into any level yet.
    fn alloc_node(&mut self, order: RestingOrder) -> (idx: u32)
        requires
            old(self).wf(),
            old(self).live_count() < u32::MAX,
        ensures
            final(self).wf(),
            final(self).orphan(idx),
            final(self).key_mask == old(self).key_mask,
            final(self).levels@ == old(self).levels@,
            final(self).queues@ == old(self).queues@,
            idx == old(self).next_slot(),
            final(self).took_slot(old(self)),
            old(self).nodes@.len() <= final(self).nodes@.len(),
            final(self).nodes@[idx as int].order == order,
            forall|i: int|
                0 <= i < old(self).nodes@.len() && i != idx ==> #[trigger] final(self).nodes@[i]
                    == old(self).nodes@[i],
            forall|i: int|
                0 <= i < old(self).nodes@.len() ==> #[trigger] final(self).home@[i] == old(
                    self,
                ).home@[i],
            (idx < old(self).nodes@.len() ==> old(self).home@[idx as int] is None),
    {
        let ghost before = *self;
        if self.free_head != INVALID_NODE {
            let idx: u32 = self.free_head;
            assert(self.free@[0] == idx);
            assert(self.freed(0));
            self.free_head = self.nodes[idx as usize].next;
            self.nodes[idx as usize] = OrderNode { order, prev: INVALID_NODE, next: INVALID_NODE };
            proof {
                self.free@ = self.free@.skip(1);
                assert forall|k: int| 0 <= k < self.free@.len() implies #[trigger] self.freed(
                    k,
                ) by {
                    assert(before.freed(k + 1));
                    assert(self.free@[k] == before.free@[k + 1]);
                    assert(before.free@[k + 1] != before.free@[0]);
                }
                assert(self.free@.len() > 0 ==> self.free@[0] == before.free@[1]);
                assert(!self.free@.contains(idx)) by {
                    if self.free@.contains(idx) {
                        let k = self.free@.index_of(idx);
                        assert(before.free@[k + 1] != before.free@[0]);
                    }
                }
                assert(self.free@.no_duplicates());
                assert(self.free_wf());
                assert(self.levels_wf());
                before.lemma_queues_kept(*self);
            }
            idx
        } else {
            assert(self.free@.len() > 0 ==> self.freed(0));
            let idx: u32 = self.nodes.len() as u32;
            self.nodes.push(OrderNode { order, prev: INVALID_NODE, next: INVALID_NODE });
            proof {
                self.home@ = self.home@.push(None);
                before.lemma_queues_kept(*self);
            }
            idx
        }
    }

    /// Puts an unlinked node on the free list.
    fn free_node(&mut self, idx: u32)
        requires
            old(self).wf(),
            old(self).orphan(idx),
        ensures
            final(self).wf(),
            final(self).key_mask == old(self).key_mask,
            final(self).levels@ == old(self).levels@,
            final(self).queues@ == old(self).queues@,
            final(self)@ == old(self)@,
            final(self).left_slot(old(self), idx),
    {
        let ghost before = *self;
        self.nodes[idx as usize].prev = INVALID_NODE;
        self.nodes[idx as usize].next = self.free_head;
        self.free_head = idx;
        proof {
            self.free@ = seq![idx] + self.free@;
            assert forall|k: int| 0 <= k < self.free@.len() implies #[trigger] self.freed(k) by {
                if k > 0 {
                    assert(before.freed(k - 1));
                    assert(self.free@[k] == before.free@[k - 1]);
                    assert(before.free@.contains(before.free@[k - 1]));
                    if k < self.free@.len() - 1 {
                        assert(self.free@[k + 1] == before.free@[k]);
                    }
                } else if self.free@.len() > 1 {
                    assert(self.free@[1] == before.free@[0]);
                }
            }
            assert(self.free@.no_duplicates()) by {
                assert forall|i: int, j: int|
                    0 <= i < self.free@.len() && 0 <= j < self.free@.len() && i != j implies
                    self.free@[i] != self.free@[j] by {
                    if i > 0 {
                        assert(self.free@[i] == before.free@[i - 1]);
                        assert(before.free@.contains(before.free@[i - 1]));
                    }
                    if j > 0 {
                        assert(self.free@[j] == before.free@[j - 1]);
                        assert(before.free@.contains(before.free@[j - 1]));
                    }
                }
            }
            assert(self.free_wf());
            assert(self.levels_wf());
            before.lemma_queues_kept(*self);
        }
    }

    /// Queued nodes and free nodes are different nodes, so a queue is never
    /// longer than the number of live orders.
    proof fn lemma_queue_fits(&self, p: Price)
        requires
            self.wf(),
            self.queues@.dom().contains(p),
        ensures
            self.queues@[p].len() <= self.live_count(),
    {
        let q = self.queues@[p];
        let all = q + self.free@;
        assert(self.queue_wf(p));
        assert(all.no_duplicates()) by {
            assert forall|i: int, j: int|
                0 <= i < all.len() && 0 <= j < all.len() && i != j implies all[i] != all[j] by {
                if i < q.len() && j >= q.len() {
                    assert(self.queued(p, i));
                    assert(self.freed(j - q.len()));
                }
                if j < q.len() && i >= q.len() {
                    assert(self.queued(p, j));
                    assert(self.freed(i - q.len()));
                }
            }
        }
        all.unique_seq_to_set();
        let ints = all.to_set().map(|x: u32| x as int);
        let range = vstd::set_lib::set_int_range(0, self.nodes@.len() as int);
        vstd::set_lib::lemma_int_range(0, self.nodes@.len() as int);
        all.lemma_cardinality_of_set();
        assert(ints.subset_of(range)) by {
            assert forall|i: int| ints.contains(i) implies range.contains(i) by {
                let x = choose|x: u32| all.to_set().contains(x) && x as int == i;
                let k = choose|k: int| 0 <= k < all.len() && all[k] == x;
                if k < q.len() {
                    assert(self.queued(p, k));
                } else {
                    assert(self.freed(k - q.len()));
                }
            }
        }
        vstd::set_lib::lemma_map_size(all.to_set(), ints, |x: u32| x as int);
        vstd::set_lib::lemma_len_subset(ints, range);
    }

    /// Links an unlinked node behind the last order of a level.
    fn append_to_level(&mut self, level_idx: usize, idx: u32)
        requires
            old(self).wf(),
            old(self).orphan(idx),
            level_idx < old(self).levels@.len(),
            old(self).levels@[level_idx as int].1.len < u32::MAX,
        ensures
            final(self).wf(),
            final(self).key_mask == old(self).key_mask,
            final(self).same_slab(old(self)),
            ({
                let price = old(self).levels@[level_idx as int].0;
                &&& old(self)@.dom().contains(price)
                &&& final(self)@ == old(self)@.insert(
                    price,
                    old(self)@[price].push(
                        Entry { slot: idx, order: old(self).nodes@[idx as int].order },
                    ),
                )
            }),
    {
        let ghost before = *self;
        let ghost price = self.levels@[level_idx as int].0;
        let ghost q = self.queues@[price];
        assert(self.queue_wf(price));
        assert(self.queued(price, q.len() - 1));
        let old_tail: u32 = self.levels[level_idx].1.tail;
        self.levels[level_idx].1.tail = idx;
        self.levels[level_idx].1.len += 1;
        self.nodes[idx as usize].prev = old_tail;
        self.nodes[idx as usize].next = INVALID_NODE;
        self.nodes[old_tail as usize].next = idx;
        proof {
            self.queues@ = self.queues@.insert(price, q.push(idx));
            self.home@ = self.home@.update(idx as int, Some(price));
            assert forall|p: Price| #[trigger] self.queues@.dom().contains(p) implies
                self.queue_wf(p) by {
                assert(before.queues@.dom().contains(p));
                assert(before.queue_wf(p));
                if p == price {
                    let r = self.queues@[p];
                    assert forall|i: int| 0 <= i < q.len() implies (#[trigger] q[i]) != idx by {
                        assert(before.queued(p, i));
                    }
                    assert forall|k: int| 0 <= k < r.len() implies #[trigger] self.queued(
                        p,
                        k,
                    ) by {
                        if k < q.len() {
                            assert(q[k] == r[k]);
                            assert(before.queued(p, k));
                            if k > 0 {
                                assert(q[k - 1] == r[k - 1]);
                            }
                            if k < q.len() - 1 {
                                assert(q[k + 1] == r[k + 1]);
                                assert(q[k] != q[q.len() - 1]);
                            }
                        }
                    }
                } else {
                    assert forall|k: int| 0 <= k < self.queues@[p].len() implies
                        #[trigger] self.queued(p, k) by {
                        assert(before.queued(p, k));
                    }
                }
            }
            assert(self.free_wf()) by {
                let f = self.free@;
                assert forall|k: int| 0 <= k < f.len() implies #[trigger] self.freed(k) by {
                    assert(before.freed(k));
                    assert(f.contains(f[k]));
                }
            }
            assert(self.levels_wf()) by {
                assert forall|i: int| 0 <= i < self.levels@.len() implies (
                #[trigger] self.levels@[i]).0 == before.levels@[i].0 by {}
                assert forall|i: int| 0 <= i < self.levels@.len() && i != level_idx implies
                    (#[trigger] self.levels@[i]) == before.levels@[i]
                    && self.levels@[i].0 != price by {
                    assert(before.levels@[level_idx as int].0 == price);
                }
                assert forall|p: Price| #[trigger] self.queues@.dom().contains(p) implies exists|
                    i: int,
                |
                    0 <= i < self.levels@.len() && (#[trigger] self.levels@[i]).0 == p by {
                    assert(before.queues@.dom().contains(p));
                    let i = choose|i: int|
                        0 <= i < before.levels@.len() && (#[trigger] before.levels@[i]).0 == p;
                    assert(self.levels@[i].0 == p);
                }
            }
            assert(self@ =~= before@.insert(
                price,
                before@[price].push(Entry { slot: idx, order: before.nodes@[idx as int].order }),
            )) by {
                assert forall|p: Price| #[trigger] self.queues@.dom().contains(p) implies entries(
                    self.nodes@,
                    self.queues@[p],
                ) =~= (if p == price {
                    entries(before.nodes@, q).push(
                        Entry { slot: idx, order: before.nodes@[idx as int].order },
                    )
                } else {
                    entries(before.nodes@, before.queues@[p])
                }) by {
                    assert(before.queues@.dom().contains(p));
                    assert(before.queue_wf(p));
                    assert forall|k: int| 0 <= k < before.queues@[p].len() implies self.nodes@[(
                    #[trigger] before.queues@[p][k]) as int].order
                        == before.nodes@[before.queues@[p][k] as int].order by {
                        assert(before.queued(p, k));
                    }
                }
            }
        }
    }

    /// Opens the level of a price with one unlinked node on it.
    fn open_level(&mut self, level_idx: usize, price: Price, idx: u32)
        requires
            old(self).wf(),
            old(self).orphan(idx),
            level_idx <= old(self).levels@.len(),
            !old(self).queues@.dom().contains(price),
            forall|j: int|
                0 <= j < level_idx ==> rank(old(self).side(), (#[trigger] old(self).levels@[j]).0)
                    < rank(old(self).side(), price),
            forall|j: int|
                level_idx <= j < old(self).levels@.len() ==> rank(
                    old(self).side(),
                    (#[trigger] old(self).levels@[j]).0,
                ) > rank(old(self).side(), price),
        ensures
            final(self).wf(),
            final(self).key_mask == old(self).key_mask,
            final(self).same_slab(old(self)),
            final(self)@ == old(self)@.insert(
                price,
                seq![Entry { slot: idx, order: old(self).nodes@[idx as int].order }],
            ),
    {
        let ghost before = *self;
        self.nodes[idx as usize].prev = INVALID_NODE;
        self.nodes[idx as usize].next = INVALID_NODE;
        self.levels.insert(level_idx, (price, LevelHead { head: idx, tail: idx, len: 1 }));
        proof {
            self.queues@ = self.queues@.insert(price, seq![idx]);
            self.home@ = self.home@.update(idx as int, Some(price));
            assert forall|p: Price| #[trigger] self.queues@.dom().contains(p) implies
                self.queue_wf(p) by {
                if p == price {
                    assert(self.queues@[p] == seq![idx]);
                } else {
                    assert(before.queues@.dom().contains(p));
                    assert(before.queue_wf(p));
                    assert forall|k: int| 0 <= k < self.queues@[p].len() implies
                        #[trigger] self.queued(p, k) by {
                        assert(before.queued(p, k));
                    }
                }
            }
            assert(self.free_wf()) by {
                let f = self.free@;
                assert forall|k: int| 0 <= k < f.len() implies #[trigger] self.freed(k) by {
                    assert(before.freed(k));
                    assert(f.contains(f[k]));
                }
            }
            assert(self.levels_wf()) by {
                assert forall|i: int| 0 <= i < self.levels@.len() implies (
                #[trigger] self.levels@[i]) == (if i < level_idx {
                    before.levels@[i]
                } else if i == level_idx {
                    (price, LevelHead { head: idx, tail: idx, len: 1 })
                } else {
                    before.levels@[i - 1]
                }) by {}
                assert forall|p: Price| #[trigger] self.queues@.dom().contains(p) implies exists|
                    i: int,
                |
                    0 <= i < self.levels@.len() && (#[trigger] self.levels@[i]).0 == p by {
                    if p == price {
                        assert(self.levels@[level_idx as int].0 == p);
                    } else {
                        assert(before.queues@.dom().contains(p));
                        let i = choose|i: int|
                            0 <= i < before.levels@.len() && (#[trigger] before.levels@[i]).0 == p;
                        if i < level_idx {
                            assert(self.levels@[i].0 == p);
                        } else {
                            assert(self.levels@[i + 1].0 == p);
                        }
                    }
                }
            }
            assert(self@ =~= before@.insert(
                price,
                seq![Entry { slot: idx, order: before.nodes@[idx as int].order }],
            )) by {
                assert forall|p: Price| #[trigger] self.queues@.dom().contains(p) implies entries(
                    self.nodes@,
                    self.queues@[p],
                ) =~= (if p == price {
                    seq![Entry { slot: idx, order: before.nodes@[idx as int].order }]
                } else {
                    entries(before.nodes@, before.queues@[p])
                }) by {
                    if p != price {
                        assert(before.queues@.dom().contains(p));
                        assert(before.queue_wf(p));
                        assert forall|k: int| 0 <= k < before.queues@[p].len() implies
                            self.nodes@[(#[trigger] before.queues@[p][k]) as int].order
                            == before.nodes@[before.queues@[p][k] as int].order by {
                            assert(before.queued(p, k));
                        }
                    }
                }
            }
        }
    }

    /// Adds `order` as the newest at `price`, opening the level if there is
    /// none. The returned index names the order until it leaves the book: the
    /// index that an order left last, or a new one.
    pub fn add(&mut self, price: Price, order: RestingOrder) -> (idx: u32)
        requires
            old(self).wf(),
            old(self).live_count() < u32::MAX,
        ensures
            final(self).wf(),
            final(self).side() == old(self).side(),
            final(self)@ == old(self)@.insert(
                price,
                old(self).queue_at(price).push(Entry { slot: idx, order }),
            ),
            forall|p: Price, k: int|
                old(self)@.dom().contains(p) && 0 <= k < old(self)@[p].len() ==> (
                #[trigger] old(self)@[p][k]).slot != idx,
            idx == old(self).next_slot(),
            final(self).took_slot(old(self)),
            final(self).live_count() == old(self).live_count() + 1,
    {
        let ghost before = *self;
        let new_idx: u32 = self.alloc_node(order);
        proof {
            assert forall|p: Price, k: int|
                before@.dom().contains(p) && 0 <= k < before@[p].len() implies (
            #[trigger] before@[p][k]).slot != new_idx by {
                assert(before.queue_wf(p));
                assert(before.queued(p, k));
            }
            before.lemma_queues_kept(*self);
        }
        match self.search(price) {
            Ok(level_idx) => {
                proof {
                    assert(self.queues@.dom().contains(self.levels@[level_idx as int].0));
                    before.lemma_queue_fits(price);
                }
                self.append_to_level(level_idx, new_idx);
            },
            Err(level_idx) => {
                self.open_level(level_idx, price, new_idx);
                assert(seq![Entry { slot: new_idx, order }] =~= Seq::<Entry>::empty().push(
                    Entry { slot: new_idx, order },
                ));
            },
        }
        new_idx
    }

    /// Takes the node at position `k` of a level's queue out of it, frees it,
    /// and drops the level with its last order.
    fn unlink_node_at_level(&mut self, level_idx: usize, node_idx: u32, Ghost(k): Ghost<int>) -> (order:
        RestingOrder)
        requires
            old(self).wf(),
            level_idx < old(self).levels@.len(),
            0 <= k < old(self).queues@[old(self).levels@[level_idx as int].0].len(),
            old(self).queues@[old(self).levels@[level_idx as int].0][k] == node_idx,
        ensures
            final(self).wf(),
            final(self).key_mask == old(self).key_mask,
            final(self).left_slot(old(self), node_idx),
            ({
                let price = old(self).levels@[level_idx as int].0;
                &&& old(self)@.dom().contains(price)
                &&& 0 <= k < old(self)@[price].len()
                &&& order == old(self)@[price][k].order
                &&& final(self)@ == without(old(self)@, price, k)
            }),
    {
        let ghost before = *self;
        let ghost price = self.levels@[level_idx as int].0;
        let ghost q = self.queues@[price];
        assert(self.queue_wf(price));
        assert(self.queued(price, k));
        proof {
            if k > 0 {
                assert(self.queued(price, k - 1));
            }
            if k < q.len() - 1 {
                assert(self.queued(price, k + 1));
            }
        }
        let prev: u32 = self.nodes[node_idx as usize].prev;
        let next: u32 = self.nodes[node_idx as usize].next;
        if prev != INVALID_NODE {
            self.nodes[prev as usize].next = next;
        }
        if next != INVALID_NODE {
            self.nodes[next as usize].prev = prev;
        }
        if self.levels[level_idx].1.head == node_idx {
            self.levels[level_idx].1.head = next;
        }
        if self.levels[level_idx].1.tail == node_idx {
            self.levels[level_idx].1.tail = prev;
        }
        self.levels[level_idx].1.len -= 1;
        let became_empty: bool = self.levels[level_idx].1.len == 0;
        let order: RestingOrder = self.nodes[node_idx as usize].order;
        if became_empty {
            self.levels.remove(level_idx);
        }
        proof {
            let r = q.remove(k);
            if became_empty {
                self.queues@ = self.queues@.remove(price);
            } else {
                self.queues@ = self.queues@.insert(price, r);
            }
            self.home@ = self.home@.update(node_idx as int, None);
            assert(became_empty ==> self.levels@ =~= before.levels@.remove(level_idx as int));
            assert(before.spliced(*self, level_idx as int, k));
            before.lemma_spliced(*self, level_idx as int, k);
        }
        self.free_node(node_idx);
        order
    }

    /// `now` is this side with position `k` of a level's queue spliced out,
    /// and the level gone if it was its only order.
    spec fn spliced(&self, now: BookSide, level_idx: int, k: int) -> bool {
        let price = self.levels@[level_idx].0;
        let q = self.queues@[price];
        let head = self.levels@[level_idx].1;
        let idx = q[k];
        let prev = self.nodes@[idx as int].prev;
        let next = self.nodes@[idx as int].next;
        &&& 0 <= level_idx < self.levels@.len()
        &&& 0 <= k < q.len()
        &&& now.key_mask == self.key_mask
        &&& now.free_head == self.free_head
        &&& now.free@ == self.free@
        &&& now.home@ == self.home@.update(idx as int, None)
        &&& now.nodes@.len() == self.nodes@.len()
        &&& forall|i: int|
            0 <= i < self.nodes@.len() ==> {
                &&& (#[trigger] now.nodes@[i]).order == self.nodes@[i].order
                &&& now.nodes@[i].next == (if i == prev {
                    next
                } else {
                    self.nodes@[i].next
                })
                &&& now.nodes@[i].prev == (if i == next {
                    prev
                } else {
                    self.nodes@[i].prev
                })
            }
        &&& if q.len() == 1 {
            &&& now.queues@ == self.queues@.remove(price)
            &&& now.levels@ == self.levels@.remove(level_idx)
        } else {
            &&& now.queues@ == self.queues@.insert(price, q.remove(k))
            &&& now.levels@.len() == self.levels@.len()
            &&& forall|i: int|
                0 <= i < self.levels@.len() && i != level_idx ==> #[trigger] now.levels@[i]
                    == self.levels@[i]
            &&& now.levels@[level_idx].0 == price
            &&& now.levels@[level_idx].1.len == head.len - 1
            &&& now.levels@[level_idx].1.head == (if head.head == idx {
                next
            } else {
                head.head
            })
            &&& now.levels@[level_idx].1.tail == (if head.tail == idx {
                prev
            } else {
                head.tail
            })
        }
    }

    proof fn lemma_spliced_link(&self, now: BookSide, level_idx: int, k: int, j: int)
        requires
            self.wf(),
            self.spliced(now, level_idx, k),
            0 <= j < self.queues@[self.levels@[level_idx].0].len() - 1,
        ensures
            now.queued(self.levels@[level_idx].0, j),
    {
        let price = self.levels@[level_idx].0;
        let q = self.queues@[price];
        let s = q.remove(k);
        assert(self.queue_wf(price));
        assert(self.queued(price, k));
        let i = after_removal(k, j);
        assert(s[j] == q[i]);
        assert(self.queued(price, i));
        if j > 0 {
            assert(s[j - 1] == q[after_removal(k, j - 1)]);
            assert(self.queued(price, after_removal(k, j - 1)));
        }
        if j < s.len() - 1 {
            assert(s[j + 1] == q[after_removal(k, j + 1)]);
            assert(self.queued(price, after_removal(k, j + 1)));
        }
        assert(q[i] != q[k]);
    }

    proof fn lemma_spliced_queues(&self, now: BookSide, level_idx: int, k: int)
        requires
            self.wf(),
            self.spliced(now, level_idx, k),
        ensures
            now.free_wf(),
            forall|p: Price| #[trigger] now.queues@.dom().contains(p) ==> now.queue_wf(p),
    {
        let price = self.levels@[level_idx].0;
        let q = self.queues@[price];
        let idx = q[k];
        let r = q.remove(k);
        assert(self.queue_wf(price));
        assert(self.queued(price, k));
        if k > 0 {
            assert(self.queued(price, k - 1));
        }
        if k < q.len() - 1 {
            assert(self.queued(price, k + 1));
        }
        assert(now.free_wf()) by {
            assert forall|j: int| 0 <= j < now.free@.len() implies #[trigger] now.freed(j) by {
                assert(self.freed(j));
            }
        }
        assert forall|p: Price| #[trigger] now.queues@.dom().contains(p) implies now.queue_wf(
            p,
        ) by {
            assert(self.queues@.dom().contains(p));
            assert(self.queue_wf(p));
            let s = now.queues@[p];
            if p == price {
                assert forall|i: int, j: int|
                    0 <= i < s.len() && 0 <= j < s.len() && i != j implies s[i] != s[j] by {
                    assert(s[i] == q[after_removal(k, i)]);
                    assert(s[j] == q[after_removal(k, j)]);
                }
                assert forall|j: int| 0 <= j < s.len() implies #[trigger] now.queued(p, j) by {
                    self.lemma_spliced_link(now, level_idx, k, j);
                }
            } else {
                assert forall|j: int| 0 <= j < s.len() implies #[trigger] now.queued(p, j) by {
                    assert(self.queued(p, j));
                }
            }
        }
    }

    proof fn lemma_spliced_levels(&self, now: BookSide, level_idx: int, k: int)
        requires
            self.wf(),
            self.spliced(now, level_idx, k),
        ensures
            now.levels_wf(),
    {
        let price = self.levels@[level_idx].0;
        let q = self.queues@[price];
        let idx = q[k];
        let r = q.remove(k);
        assert(self.queue_wf(price));
        assert(self.queued(price, k));
        assert forall|i: int| 0 <= i < self.levels@.len() && i != level_idx implies (
        #[trigger] self.levels@[i]).0 != price by {
            assert(self.levels@[level_idx].0 == price);
        }
        assert(now.levels_wf()) by {
            if q.len() == 1 {
                assert forall|i: int| 0 <= i < now.levels@.len() implies (
                #[trigger] now.levels@[i]) == self.levels@[if i < level_idx {
                    i
                } else {
                    i + 1
                }] by {}
                assert forall|p: Price| #[trigger] now.queues@.dom().contains(p) implies exists|
                    i: int,
                |
                    0 <= i < now.levels@.len() && (#[trigger] now.levels@[i]).0 == p by {
                    assert(self.queues@.dom().contains(p));
                    let i = choose|i: int|
                        0 <= i < self.levels@.len() && (#[trigger] self.levels@[i]).0 == p;
                    if i < level_idx {
                        assert(now.levels@[i].0 == p);
                    } else {
                        assert(now.levels@[i - 1].0 == p);
                    }
                }
            } else {
                assert forall|i: int| 0 <= i < now.levels@.len() implies (
                #[trigger] now.levels@[i]).0 == self.levels@[i].0 && (i != level_idx
                    ==> now.levels@[i] == self.levels@[i]) by {}
                assert(r[0] == q[if k == 0 {
                    1
                } else {
                    0int
                }]);
                assert forall|p: Price| #[trigger] now.queues@.dom().contains(p) implies exists|
                    i: int,
                |
                    0 <= i < now.levels@.len() && (#[trigger] now.levels@[i]).0 == p by {
                    assert(self.queues@.dom().contains(p));
                    let i = choose|i: int|
                        0 <= i < self.levels@.len() && (#[trigger] self.levels@[i]).0 == p;
                    assert(now.levels@[i].0 == p);
                }
            }
        }
    }

    proof fn lemma_spliced(&self, now: BookSide, level_idx: int, k: int)
        requires
            self.wf(),
            self.spliced(now, level_idx, k),
        ensures
            now.wf(),
            now.orphan(self.queues@[self.levels@[level_idx].0][k]),
            now.same_slab(self),
            now@ == without(self@, self.levels@[level_idx].0, k),
    {
        self.lemma_spliced_queues(now, level_idx, k);
        self.lemma_spliced_levels(now, level_idx, k);
        let price = self.levels@[level_idx].0;
        let q = self.queues@[price];
        let idx = q[k];
        let r = q.remove(k);
        assert(self.queue_wf(price));
        assert(self.queued(price, k));
        assert(!self.free@.contains(idx)) by {
            if self.free@.contains(idx) {
                let j = self.free@.index_of(idx);
                assert(self.freed(j));
            }
        }
        assert(now@ =~= without(self@, price, k)) by {
            assert forall|p: Price| #[trigger] now.queues@.dom().contains(p) implies entries(
                now.nodes@,
                now.queues@[p],
            ) =~= (if p == price {
                entries(self.nodes@, q).remove(k)
            } else {
                entries(self.nodes@, self.queues@[p])
            }) by {
                assert(self.queues@.dom().contains(p));
                assert(self.queue_wf(p));
                assert forall|j: int| 0 <= j < self.queues@[p].len() implies now.nodes@[(
                #[trigger] self.queues@[p][j]) as int].order
                    == self.nodes@[self.queues@[p][j] as int].order by {
                    assert(self.queued(p, j));
                }
            }
        }
    }

    /// Removes the order named by `node_idx` from the level at `price`, and
    /// the level with its last order. `None` if the price has no level.
    pub fn remove_node(&mut self, price: Price, node_idx: u32) -> (r: Option<RestingOrder>)
        requires
            old(self).wf(),
            old(self)@.dom().contains(price) ==> has_slot(old(self)@[price], node_idx),
        ensures
            final(self).wf(),
            final(self).side() == old(self).side(),
            match r {
                None => {
                    &&& !old(self)@.dom().contains(price)
                    &&& final(self)@ == old(self)@
                    &&& final(self).same_slab(old(self))
                },
                Some(order) => {
                    let k = slot_position(old(self)@[price], node_idx);
                    &&& old(self)@.dom().contains(price)
                    &&& 0 <= k < old(self)@[price].len()
                    &&& order == old(self)@[price][k].order
                    &&& final(self)@ == without(old(self)@, price, k)
                    &&& final(self).left_slot(old(self), node_idx)
                    &&& final(self).live_count() == old(self).live_count() - 1
                },
            },
    {
        match self.search(price) {
            Ok(level_idx) => {
                proof {
                    assert(self.queues@.dom().contains(self.levels@[level_idx as int].0));
                    assert(self@.dom().contains(price));
                    let k = slot_position(self@[price], node_idx);
                    assert(self@[price][k].slot == self.queues@[price][k]);
                }
                let order: RestingOrder = self.unlink_node_at_level(
                    level_idx,
                    node_idx,
                    Ghost(slot_position(self@[price], node_idx)),
                );
                Some(order)
            },
            Err(_) => None,
        }
    }

    /// Facts about the last level that make it the best one.
    proof fn lemma_tail_is_best(&self)
        requires
            self.wf(),
        ensures
            self.levels@.len() == 0 <==> self@ =~= Map::<Price, Seq<Entry>>::empty(),
            self.levels@.len() > 0 ==> {
                let (price, head) = self.levels@.last();
                &&& is_best(self.side(), self@, price)
                &&& self@[price].len() > 0
                &&& self.queues@[price].len() > 0
                &&& head.head == self@[price][0].slot
                &&& head.head == self.queues@[price][0]
            },
    {
        if self.levels@.len() > 0 {
            let n = self.levels@.len() - 1;
            let (price, head) = self.levels@[n];
            assert(self.queues@.dom().contains(price));
            assert(self.queue_wf(price));
            assert(self@.dom().contains(price));
            assert forall|p: Price| #[trigger] self@.dom().contains(p) implies rank(self.side(), p)
                <= rank(self.side(), price) by {
                assert(self.queues@.dom().contains(p));
                let i = choose|i: int|
                    0 <= i < self.levels@.len() && (#[trigger] self.levels@[i]).0 == p;
                if i < n {
                    assert(rank(self.side(), self.levels@[i].0) < rank(
                        self.side(),
                        self.levels@[n].0,
                    ));
                }
            }
        } else {
            assert forall|p: Price| !self@.dom().contains(p) by {
                assert(self.queues@.dom().contains(p) ==> self@.dom().contains(p));
            }
        }
    }

    /// Price of the best level and the slab index of its oldest order.
    pub fn best_front(&self) -> (r: Option<(Price, u32)>)
        requires
            self.wf(),
        ensures
            match r {
                None => self@ == Map::<Price, Seq<Entry>>::empty(),
                Some((price, slot)) => {
                    &&& is_best(self.side(), self@, price)
                    &&& self@[price].len() > 0
                    &&& slot == self@[price][0].slot
                },
            },
    {
        proof {
            self.lemma_tail_is_best();
        }
        let n: usize = self.levels.len();
        if n == 0 {
            return None;
        }
        let (price, head) = self.levels[n - 1];
        Some((price, head.head))
    }

    /// Removes the oldest order of the best level, and the level with its
    /// last order.
    pub fn pop_front_best(&mut self) -> (r: Option<(u32, RestingOrder)>)
        requires
            old(self).wf(),
        ensures
            final(self).wf(),
            final(self).side() == old(self).side(),
            match r {
                None => {
                    &&& old(self)@ == Map::<Price, Seq<Entry>>::empty()
                    &&& final(self)@ == old(self)@
                    &&& final(self).same_slab(old(self))
                },
                Some((slot, order)) => exists|price: Price| #[trigger]
                    is_best(old(self).side(), old(self)@, price) && {
                        &&& old(self)@[price].len() > 0
                        &&& old(self)@[price][0] == (Entry { slot, order })
                        &&& final(self)@ == without(old(self)@, price, 0)
                        &&& final(self).left_slot(old(self), slot)
                        &&& final(self).live_count() == old(self).live_count() - 1
                    },
            },
    {
        proof {
            self.lemma_tail_is_best();
        }
        let n: usize = self.levels.len();
        if n == 0 {
            return None;
        }
        let level_idx: usize = n - 1;
        let head_idx: u32 = self.levels[level_idx].1.head;
        let order: RestingOrder = self.unlink_node_at_level(level_idx, head_idx, Ghost(0));
        Some((head_idx, order))
    }

    /// Whether no order rests on this side.
    pub fn is_empty(&self) -> (b: bool)
        requires
            self.wf(),
        ensures
            b == (self@ == Map::<Price, Seq<Entry>>::empty()),
    {
        proof {
            self.lemma_tail_is_best();
        }
        self.levels.len() == 0
    }

    /// The best price: highest for bids, lowest for asks.
    pub fn best_price(&self) -> (r: Option<Price>)
        requires
            self.wf(),
        ensures
            match r {
                None => self@ == Map::<Price, Seq<Entry>>::empty(),
                Some(price) => {
                    &&& is_best(self.side(), self@, price)
                    &&& forall|p: Price| #[trigger]
                        self@.dom().contains(p) ==> match self.side() {
                            Side::Buy => p.0 <= price.0,
                            Side::Sell => p.0 >= price.0,
                        }
                },
            },
    {
        proof {
            self.lemma_tail_is_best();
        }
        let n: usize = self.levels.len();
        if n == 0 {
            None
        } else {
            Some(self.levels[n - 1].0)
        }
    }

    /// The levels in storage order, worst price first.
    pub fn levels(&self) -> (levels: &Vec<(Price, LevelHead)>)
        requires
            self.wf(),
        ensures
            levels@.len() == self.ranked_levels().len(),
            forall|i: int|
                0 <= i < levels@.len() ==> (#[trigger] levels@[i]).0 == self.ranked_levels()[i].0,
    {
        &self.levels
    }

    proof fn lemma_live_node(&self, p: Price, k: int)
        requires
            self.wf(),
            self@.dom().contains(p),
            0 <= k < self@[p].len(),
        ensures
            self.queues@[p][k] == self@[p][k].slot,
            self@[p][k].slot < self.nodes@.len(),
            self.nodes@[self@[p][k].slot as int].order == self@[p][k].order,
            self.home@[self@[p][k].slot as int] == Some(p),
    {
        assert(self.queues@.dom().contains(p));
        assert(self.queue_wf(p));
        assert(self.queued(p, k));
    }

    /// The node of a live order.
    pub fn node(&self, idx: u32) -> (node: &OrderNode)
        requires
            self.wf(),
            self.is_live(idx),
        ensures
            forall|p: Price, k: int|
                self@.dom().contains(p) && 0 <= k < self@[p].len() && (
                #[trigger] self@[p][k]).slot == idx ==> node.order == self@[p][k].order,
    {
        proof {
            let p = choose|p: Price| #[trigger]
                self@.dom().contains(p) && has_slot(self@[p], idx);
            self.lemma_live_node(p, slot_position(self@[p], idx));
            assert forall|p: Price, k: int|
                self@.dom().contains(p) && 0 <= k < self@[p].len() && (
                #[trigger] self@[p][k]).slot == idx implies self.nodes@[idx as int].order
                == self@[p][k].order by {
                self.lemma_live_node(p, k);
            }
        }
        &self.nodes[idx as usize]
    }

    /// Replaces the order of a queued node; nothing but that order changes.
    proof fn lemma_order_replaced(&self, now: BookSide, idx: u32)
        requires
            self.wf(),
            idx < self.nodes@.len(),
            now.levels@ == self.levels@,
            now.free_head == self.free_head,
            now.key_mask == self.key_mask,
            now.queues@ == self.queues@,
            now.free@ == self.free@,
            now.home@ == self.home@,
            now.nodes@.len() == self.nodes@.len(),
            forall|i: int|
                0 <= i < self.nodes@.len() ==> {
                    &&& (#[trigger] now.nodes@[i]).prev == self.nodes@[i].prev
                    &&& now.nodes@[i].next == self.nodes@[i].next
                    &&& i != idx ==> now.nodes@[i].order == self.nodes@[i].order
                },
        ensures
            now.wf(),
            now.side() == self.side(),
            now.same_slab(self),
            now@ == with_order(self@, idx, now.nodes@[idx as int].order),
    {
        assert forall|p: Price| #[trigger] now.queues@.dom().contains(p) implies now.queue_wf(
            p,
        ) by {
            assert(self.queue_wf(p));
            assert forall|k: int| 0 <= k < now.queues@[p].len() implies #[trigger] now.queued(
                p,
                k,
            ) by {
                assert(self.queued(p, k));
            }
        }
        assert(now.free_wf()) by {
            assert forall|k: int| 0 <= k < now.free@.len() implies #[trigger] now.freed(k) by {
                assert(self.freed(k));
            }
        }
        assert(now@ =~= with_order(self@, idx, now.nodes@[idx as int].order)) by {
            assert forall|p: Price| #[trigger] self@.dom().contains(p) implies now@[p]
                =~= with_order(self@, idx, now.nodes@[idx as int].order)[p] by {
                assert forall|k: int| 0 <= k < self@[p].len() implies (#[trigger] now@[p][k])
                    == with_order(self@, idx, now.nodes@[idx as int].order)[p][k] by {
                    self.lemma_live_node(p, k);
                }
            }
        }
    }

    /// Mutable access to a live order, to apply a partial fill in place.
    pub fn node_mut(&mut self, idx: u32) -> (order: &mut RestingOrder)
        requires
            old(self).wf(),
            old(self).is_live(idx),
        ensures
            final(self).wf(),
            final(self).side() == old(self).side(),
            final(self).same_slab(old(self)),
            forall|p: Price, k: int|
                old(self)@.dom().contains(p) && 0 <= k < old(self)@[p].len() && (#[trigger] old(
                    self,
                )@[p][k]).slot == idx ==> *order == old(self)@[p][k].order,
            final(self)@ == with_order(old(self)@, idx, *final(order)),
    {
        let ghost before = *self;
        proof {
            let p = choose|p: Price| #[trigger]
                self@.dom().contains(p) && has_slot(self@[p], idx);
            self.lemma_live_node(p, slot_position(self@[p], idx));
            assert forall|p: Price, k: int|
                self@.dom().contains(p) && 0 <= k < self@[p].len() && (
                #[trigger] self@[p][k]).slot == idx implies self.nodes@[idx as int].order
                == self@[p][k].order by {
                self.lemma_live_node(p, k);
            }
        }
        let order: &mut RestingOrder = &mut self.nodes[idx as usize].order;
        proof {
            before.lemma_order_replaced(*after_borrow(self), idx);
        }
        order
    }

    /// Index in storage of the `i`-th level in ascending price order.
    fn ascending_idx(&self, i: usize) -> (r: usize)
        requires
            self.wf(),
            i < self.levels@.len(),
        ensures
            r < self.levels@.len(),
            self.ascending_levels()[i as int] == self.ranked_levels()[r as int],
    {
        if self.key_mask == 0 {
            i
        } else {
            self.levels.len() - 1 - i
        }
    }

    /// The orders of one level, oldest first.
    fn level_orders(&self, level_idx: usize) -> (v: Vec<RestingOrder>)
        requires
            self.wf(),
            level_idx < self.levels@.len(),
        ensures
            v@ == self.ranked_levels()[level_idx as int].1,
    {
        let ghost price = self.levels@[level_idx as int].0;
        let ghost q = self.queues@[price];
        let ghost want = self.ranked_levels()[level_idx as int].1;
        let mut v: Vec<RestingOrder> = Vec::new();
        let mut cur: u32 = self.levels[level_idx].1.head;
        let ghost mut k: int = 0;
        assert(self.queues@.dom().contains(price));
        assert(self.queue_wf(price));
        assert(self.queued(price, 0));
        while cur != INVALID_NODE
            invariant
                self.wf(),
                self.queue_wf(price),
                self.queues@.dom().contains(price),
                q == self.queues@[price],
                want == orders(self@[price]),
                0 <= k <= q.len(),
                cur == (if k < q.len() {
                    q[k]
                } else {
                    INVALID_NODE
                }),
                k < q.len() ==> q[k] != INVALID_NODE,
                v@ == want.take(k),
            decreases q.len() - k,
        {
            assert(self.queued(price, k));
            v.push(self.nodes[cur as usize].order);
            cur = self.nodes[cur as usize].next;
            proof {
                assert(want.take(k + 1) =~= want.take(k).push(want[k]));
                if k + 1 < q.len() {
                    assert(self.queued(price, k + 1));
                }
                k = k + 1;
            }
        }
        assert(want.take(k) =~= want);
        v
    }

    /// Every order of this side with its price, lowest price first and oldest
    /// first within a level.
    pub fn for_each_order(&self) -> (v: Vec<(Price, RestingOrder)>)
        requires
            self.wf(),
        ensures
            v@ == walk(self.ascending_levels()),
    {
        let mut v: Vec<(Price, RestingOrder)> = Vec::new();
        let mut i: usize = 0;
        let n: usize = self.levels.len();
        assert(self.ascending_levels().take(0) =~= Seq::empty());
        while i < n
            invariant
                self.wf(),
                n == self.levels@.len(),
                self.ascending_levels().len() == n,
                0 <= i <= n,
                v@ == walk(self.ascending_levels().take(i as int)),
            decreases n - i,
        {
            let idx: usize = self.ascending_idx(i);
            let price: Price = self.levels[idx].0;
            let level: Vec<RestingOrder> = self.level_orders(idx);
            let mut k: usize = 0;
            let ghost start = v@;
            let ghost tail = level@.map_values(|o: RestingOrder| (price, o));
            assert(start + tail.take(0) =~= start);
            while k < level.len()
                invariant
                    0 <= k <= level@.len(),
                    tail == level@.map_values(|o: RestingOrder| (price, o)),
                    v@ == start + tail.take(k as int),
                decreases level@.len() - k,
            {
                v.push((price, level[k]));
                assert(start + tail.take(k + 1) =~= (start + tail.take(k as int)).push(
                    (price, level@[k as int]),
                ));
                k = k + 1;
            }
            proof {
                let all = self.ascending_levels();
                assert(tail.take(k as int) =~= tail);
                assert(all.take(i + 1).drop_last() =~= all.take(i as int));
                assert(all.take(i + 1).last() == all[i as int]);
            }
            i = i + 1;
        }
        assert(self.ascending_levels().take(n as int) =~= self.ascending_levels());
        v
    }

    /// The levels with their orders, lowest price first and oldest order first.
    pub fn levels_snapshot(&self) -> (v: Vec<(Price, Vec<RestingOrder>)>)
        requires
            self.wf(),
        ensures
            snapshot_view(v@) == self.ascending_levels(),
    {
        let mut v: Vec<(Price, Vec<RestingOrder>)> = Vec::new();
        let mut i: usize = 0;
        let n: usize = self.levels.len();
        while i < n
            invariant
                self.wf(),
                n == self.levels@.len(),
                self.ascending_levels().len() == n,
                0 <= i <= n,
                v@.len() == i,
                forall|j: int|
                    0 <= j < i ==> ((#[trigger] v@[j]).0, v@[j].1@) == self.ascending_levels()[j],
            decreases n - i,
        {
            let idx: usize = self.ascending_idx(i);
            let level: Vec<RestingOrder> = self.level_orders(idx);
            v.push((self.levels[idx].0, level));
            i = i + 1;
        }
        assert(snapshot_view(v@) =~= self.ascending_levels());
        v
    }

    /// Total quantity resting at one price, zero where there is no level.
    pub fn depth_at(&self, price: Price) -> (total: u64)
        requires
            self.wf(),
        ensures
            total == saturated(total_remaining(orders(self.queue_at(price)), None)),
    {
        match self.search(price) {
            Ok(idx) => {
                proof {
                    assert(self.queues@.dom().contains(self.levels@[idx as int].0));
                    assert(self@.dom().contains(price));
                }
                self.level_total(idx, None)
            },
            Err(_) => {
                assert(!self@.dom().contains(price));
                0
            },
        }
    }

    /// Total quantity of one level, leaving out one account's orders.
    fn level_total(&self, level_idx: usize, exclude: Option<AccountId>) -> (total: u64)
        requires
            self.wf(),
            level_idx < self.levels@.len(),
        ensures
            total == saturated(
                total_remaining(self.ranked_levels()[level_idx as int].1, exclude),
            ),
    {
        let level: Vec<RestingOrder> = self.level_orders(level_idx);
        let mut total: u64 = 0;
        let mut k: usize = 0;
        while k < level.len()
            invariant
                0 <= k <= level@.len(),
                total == saturated(total_remaining(level@.take(k as int), exclude)),
                total_remaining(level@.take(k as int), exclude) >= 0,
            decreases level@.len() - k,
        {
            assert(level@.take(k + 1).drop_last() =~= level@.take(k as int));
            assert(level@.take(k + 1).last() == level@[k as int]);
            let counted: bool = match exclude {
                Some(account) => account != level[k].account,
                None => true,
            };
            if counted {
                total = total.saturating_add(level[k].remaining.get());
            }
            k = k + 1;
        }
        assert(level@.take(k as int) =~= level@);
        total
    }

    /// Every level below one that is worse than a limit is worse than it too.
    proof fn lemma_worse_below(&self, i: int, limit: Price)
        requires
            self.wf(),
            0 < i <= self.levels@.len(),
            rank(self.side(), self.levels@[i - 1].0) < rank(self.side(), limit),
        ensures
            forall|j: int|
                0 <= j < i ==> rank(self.side(), (#[trigger] self.ranked_levels()[j]).0) < rank(
                    self.side(),
                    limit,
                ),
    {
        let side = self.side();
        assert forall|j: int| 0 <= j < i implies rank(
            side,
            (#[trigger] self.ranked_levels()[j]).0,
        ) < rank(side, limit) by {
            assert(self.levels@[j].0 == self.ranked_levels()[j].0);
            assert(j < i - 1 ==> rank(side, self.levels@[j].0) < rank(
                side,
                self.levels@[i - 1].0,
            ));
        }
    }

    /// Total quantity at prices at or better than `limit`, all of it without
    /// one, leaving out the orders of `exclude_account`.
    pub fn available_quantity(
        &self,
        limit: Option<Price>,
        exclude_account: Option<AccountId>,
    ) -> (total: u64)
        requires
            self.wf(),
        ensures
            total == saturated(
                total_available(self.side(), self.ranked_levels(), limit, exclude_account),
            ),
            exclude_account matches Some(account) ==> total == saturated(
                total_available(
                    self.side(),
                    levels_of_others(self.ranked_levels(), account),
                    limit,
                    None,
                ),
            ),
    {
        proof {
            if let Some(account) = exclude_account {
                law_available_without_account(self.side(), self.ranked_levels(), limit, account);
            }
        }
        let ghost levels = self.ranked_levels();
        let ghost side = self.side();
        let mut total: u64 = 0;
        let mut i: usize = self.levels.len();
        assert(levels.skip(i as int) =~= Seq::empty());
        assert(levels.skip(0) =~= levels);
        while i > 0
            invariant
                self.wf(),
                levels.skip(0) == levels,
                levels == self.ranked_levels(),
                side == self.side(),
                0 <= i <= levels.len() == self.levels@.len(),
                total == saturated(
                    total_available(side, levels.skip(i as int), limit, exclude_account),
                ),
                total_available(side, levels.skip(i as int), limit, exclude_account) >= 0,
            ensures
                total == saturated(total_available(side, levels, limit, exclude_account)),
            decreases i,
        {
            let price: Price = self.levels[i - 1].0;
            if let Some(l) = limit {
                if !self.at_or_better(price, l) {
                    proof {
                        self.lemma_worse_below(i as int, l);
                        lemma_worse_levels_add_nothing(
                            side,
                            levels,
                            i as int,
                            l,
                            exclude_account,
                        );
                    }
                    break;
                }
            }
            let level: u64 = self.level_total(i - 1, exclude_account);
            proof {
                assert(levels[i - 1].0 == price);
                lemma_one_level_more(side, levels, i as int, limit, exclude_account, total, level);
            }
            total = total.saturating_add(level);
            i = i - 1;
        }
        total
    }

    /// Place of a stored level in ascending price order.
    spec fn ascending_place(&self, a: int) -> int {
        if self.key_mask == 0 {
            a
        } else {
            self.levels@.len() - 1 - a
        }
    }

    /// The side that an update of every order by `f` leads to, up to the
    /// order at position `n` of the `l`-th level in ascending price order.
    spec fn updated_upto<F: Fn(Price, RestingOrder) -> RestingOrder>(
        &self,
        now: BookSide,
        f: F,
        l: int,
        n: int,
    ) -> bool {
        &&& now.levels@ == self.levels@
        &&& now.free_head == self.free_head
        &&& now.key_mask == self.key_mask
        &&& now.queues@ == self.queues@
        &&& now.free@ == self.free@
        &&& now.home@ == self.home@
        &&& now.nodes@.len() == self.nodes@.len()
        &&& forall|i: int|
            0 <= i < self.nodes@.len() ==> {
                &&& (#[trigger] now.nodes@[i]).prev == self.nodes@[i].prev
                &&& now.nodes@[i].next == self.nodes@[i].next
            }
        &&& forall|a: int, k: int|
            0 <= a < self.levels@.len() && 0 <= k < self.queues@[self.levels@[a].0].len()
                ==> #[trigger] self.order_updated(now, f, l, n, a, k)
    }

    /// The order at position `k` of the stored level `a` is updated if and
    /// only if an update up to position `n` of the `l`-th level reached it.
    spec fn order_updated<F: Fn(Price, RestingOrder) -> RestingOrder>(
        &self,
        now: BookSide,
        f: F,
        l: int,
        n: int,
        a: int,
        k: int,
    ) -> bool {
        let price = self.levels@[a].0;
        let i = self.queues@[price][k] as int;
        &&& self.queued(price, k)
        &&& if self.ascending_place(a) < l || (self.ascending_place(a) == l && k < n) {
            call_ensures(f, (price, self.nodes@[i].order), now.nodes@[i].order)
        } else {
            now.nodes@[i].order == self.nodes@[i].order
        }
    }

    /// Replaces every order by what `f` makes of its price and itself, lowest
    /// price first and oldest first within a level. Queue positions and slab
    /// indices stay.
    pub fn for_each_order_mut<F: Fn(Price, RestingOrder) -> RestingOrder>(&mut self, f: F)
        requires
            old(self).wf(),
            forall|p: Price, o: RestingOrder| call_requires(f, (p, o)),
        ensures
            final(self).wf(),
            final(self).side() == old(self).side(),
            final(self).same_slab(old(self)),
            final(self)@.dom() == old(self)@.dom(),
            forall|p: Price| #[trigger]
                old(self)@.dom().contains(p) ==> final(self)@[p].len() == old(self)@[p].len(),
            forall|p: Price, k: int|
                old(self)@.dom().contains(p) && 0 <= k < old(self)@[p].len() ==> {
                    &&& (#[trigger] final(self)@[p][k]).slot == old(self)@[p][k].slot
                    &&& call_ensures(f, (p, old(self)@[p][k].order), final(self)@[p][k].order)
                },
    {
        let ghost before = *self;
        let n: usize = self.levels.len();
        let mut l: usize = 0;
        proof {
            assert forall|a: int, k: int|
                0 <= a < self.levels@.len() && 0 <= k < self.queues@[self.levels@[a].0].len()
                implies #[trigger] self.queued(self.levels@[a].0, k) by {
                assert(self.queues@.dom().contains(self.levels@[a].0));
                assert(self.queue_wf(self.levels@[a].0));
            }
        }
        while l < n
            invariant
                before.wf(),
                n == before.levels@.len(),
                0 <= l <= n,
                before.updated_upto(*self, f, l as int, 0),
                forall|p: Price, o: RestingOrder| call_requires(f, (p, o)),
            decreases n - l,
        {
            let stored: usize = if self.key_mask == 0 {
                l
            } else {
                n - 1 - l
            };
            let ghost price = self.levels@[stored as int].0;
            let ghost q = self.queues@[price];
            let ghost mut k: int = 0;
            let price_exec: Price = self.levels[stored].0;
            let mut cur: u32 = self.levels[stored].1.head;
            proof {
                assert(before.queues@.dom().contains(before.levels@[stored as int].0));
                assert(before.queue_wf(price));
                assert(before.queued(before.levels@[stored as int].0, 0));
            }
            while cur != INVALID_NODE
                invariant
                    before.wf(),
                    n == before.levels@.len(),
                    0 <= l < n,
                    0 <= stored < n,
                    before.ascending_place(stored as int) == l,
                    price == before.levels@[stored as int].0,
                    price_exec == price,
                    before.queues@.dom().contains(price),
                    before.queue_wf(price),
                    q == before.queues@[price],
                    0 <= k <= q.len(),
                    cur == (if k < q.len() {
                        q[k]
                    } else {
                        INVALID_NODE
                    }),
                    k < q.len() ==> q[k] != INVALID_NODE,
                    before.updated_upto(*self, f, l as int, k),
                    forall|p: Price, o: RestingOrder| call_requires(f, (p, o)),
                decreases q.len() - k,
            {
                let ghost mid = *self;
                assert(before.queued(before.levels@[stored as int].0, k));
                let next: u32 = self.nodes[cur as usize].next;
                let order: RestingOrder = self.nodes[cur as usize].order;
                self.nodes[cur as usize].order = f(price_exec, order);
                proof {
                    assert(before.order_updated(mid, f, l as int, k, stored as int, k));
                    assert forall|a: int, j: int|
                        0 <= a < before.levels@.len() && 0 <= j < before.queues@[(
                        before.levels@[a]).0].len() implies #[trigger] before.order_updated(
                        *self,
                        f,
                        l as int,
                        k + 1,
                        a,
                        j,
                    ) by {
                        assert(before.order_updated(mid, f, l as int, k, a, j));
                        if a != stored {
                            assert(rank(before.side(), before.levels@[a].0) != rank(
                                before.side(),
                                before.levels@[stored as int].0,
                            ));
                        }
                    }
                    if k + 1 < q.len() {
                        assert(before.queued(before.levels@[stored as int].0, k + 1));
                    }
                    k = k + 1;
                }
                cur = next;
            }
            proof {
                assert forall|a: int, j: int|
                    0 <= a < before.levels@.len() && 0 <= j < before.queues@[(
                    before.levels@[a]).0].len() implies #[trigger] before.order_updated(
                    *self,
                    f,
                    l + 1,
                    0,
                    a,
                    j,
                ) by {
                    assert(before.order_updated(*self, f, l as int, k, a, j));
                }
            }
            l = l + 1;
        }
        proof {
            let now = *self;
            assert forall|p: Price| #[trigger] now.queues@.dom().contains(p) implies now.queue_wf(
                p,
            ) by {
                assert(before.queue_wf(p));
                assert forall|k: int| 0 <= k < now.queues@[p].len() implies #[trigger] now.queued(
                    p,
                    k,
                ) by {
                    assert(before.queued(p, k));
                }
            }
            assert(now.free_wf()) by {
                assert forall|k: int| 0 <= k < now.free@.len() implies #[trigger] now.freed(k) by {
                    assert(before.freed(k));
                }
            }
            assert(now@.dom() =~= before@.dom());
            assert forall|p: Price, k: int|
                before@.dom().contains(p) && 0 <= k < before@[p].len() implies {
                &&& (#[trigger] now@[p][k]).slot == before@[p][k].slot
                &&& call_ensures(f, (p, before@[p][k].order), now@[p][k].order)
            } by {
                assert(before.queues@.dom().contains(p));
                let a = choose|a: int|
                    0 <= a < before.levels@.len() && (#[trigger] before.levels@[a]).0 == p;
                assert(before.order_updated(now, f, n as int, 0, a, k));
            }
        }
    }

    /// Builds a side from a snapshot, with the slab index of every order in
    /// the order in which they were added.
    pub fn from_levels_snapshot(side: Side, levels: Vec<(Price, Vec<RestingOrder>)>) -> (r: (
        BookSide,
        Vec<((AccountId, OrderId), u32)>,
    ))
        requires
            walk(insertion_order(side, snapshot_view(levels@))).len() <= u32::MAX,
        ensures
            ({
                let (out, mapping) = r;
                let added = insertion_order(side, snapshot_view(levels@));
                &&& out.wf()
                &&& out.side() == side
                &&& order_view(out@) == restored(added)
                &&& out.slab_len() == walk(added).len()
                &&& out.free_slots() == Seq::<u32>::empty()
                &&& mapping@.len() == walk(added).len()
                &&& forall|i: int|
                    0 <= i < mapping@.len() ==> maps_to(
                        out@,
                        #[trigger] mapping@[i],
                        walk(added)[i].0,
                        walk(added)[i].1,
                    ) && mapping@[i].1 == i
            }),
    {
        let mut out: BookSide = BookSide::new(side);
        let mut mapping: Vec<((AccountId, OrderId), u32)> = Vec::new();
        let n: usize = levels.len();
        let mut i: usize = 0;
        let ghost added = insertion_order(side, snapshot_view(levels@));
        proof {
            assert(added.take(0) =~= Seq::empty());
            assert(order_view(out@) =~= restored(added.take(0)));
        }
        while i < n
            invariant
                n == levels@.len() == added.len(),
                added == insertion_order(side, snapshot_view(levels@)),
                walk(added).len() <= u32::MAX,
                0 <= i <= n,
                out.wf(),
                out.side() == side,
                order_view(out@) == restored(added.take(i as int)),
                out.slab_len() == walk(added.take(i as int)).len(),
                out.free_slots() == Seq::<u32>::empty(),
                mapping@.len() == walk(added.take(i as int)).len(),
                forall|j: int|
                    0 <= j < mapping@.len() ==> maps_to(
                        out@,
                        #[trigger] mapping@[j],
                        walk(added.take(i as int))[j].0,
                        walk(added.take(i as int))[j].1,
                    ) && mapping@[j].1 == j,
            decreases n - i,
        {
            let l: usize = match side {
                Side::Buy => i,
                Side::Sell => n - 1 - i,
            };
            let price: Price = levels[l].0;
            let ghost q = levels@[l as int].1@;
            let ghost done = added.take(i as int);
            let mut k: usize = 0;
            proof {
                assert(added[i as int] == (price, q));
                lemma_partial_level(done, price, q, 0);
                lemma_walk_len(added, done.push((price, q)), i as int);
            }
            while k < levels[l].1.len()
                invariant
                    l < levels@.len(),
                    price == levels@[l as int].0,
                    q == levels@[l as int].1@,
                    0 <= k <= q.len(),
                    walk(done).len() + q.len() <= u32::MAX,
                    out.wf(),
                    out.side() == side,
                    order_view(out@) == restored(done.push((price, q.take(k as int)))),
                    out.slab_len() == walk(done.push((price, q.take(k as int)))).len(),
                    out.free_slots() == Seq::<u32>::empty(),
                    mapping@.len() == walk(done.push((price, q.take(k as int)))).len(),
                    forall|j: int|
                        0 <= j < mapping@.len() ==> maps_to(
                            out@,
                            #[trigger] mapping@[j],
                            walk(done.push((price, q.take(k as int))))[j].0,
                            walk(done.push((price, q.take(k as int))))[j].1,
                        ) && mapping@[j].1 == j,
                decreases q.len() - k,
            {
                let order: RestingOrder = levels[l].1[k];
                let ghost before = out;
                let ghost mapped = mapping@;
                proof {
                    lemma_partial_level(done, price, q, k as int);
                    lemma_partial_level(done, price, q, k + 1);
                }
                let idx: u32 = out.add(price, order);
                mapping.push(((order.account, order.id), idx));
                proof {
                    let now = done.push((price, q.take(k + 1)));
                    let was = done.push((price, q.take(k as int)));
                    assert(q.take(k + 1) =~= q.take(k as int).push(order));
                    assert(order_view(before@).dom() =~= before@.dom());
                    assert(orders(before.queue_at(price).push(Entry { slot: idx, order }))
                        =~= orders(before.queue_at(price)).push(order));
                    assert(order_view(out@) =~= order_view(before@).insert(
                        price,
                        orders(before.queue_at(price)).push(order),
                    ));
                    assert(orders(before.queue_at(price)) =~= (if restored(was).dom().contains(
                        price,
                    ) {
                        restored(was)[price]
                    } else {
                        Seq::empty()
                    }));
                    let base = if restored(done).dom().contains(price) {
                        restored(done)[price]
                    } else {
                        Seq::empty()
                    };
                    assert(base + q.take(k + 1) =~= (base + q.take(k as int)).push(order));
                    assert(k == 0 ==> base + q.take(k as int) =~= base);
                    assert(restored(now) =~= order_view(out@));
                    assert(walk(now) =~= walk(was).push((price, order)));
                    assert forall|j: int| 0 <= j < mapping@.len() implies maps_to(
                        out@,
                        #[trigger] mapping@[j],
                        walk(now)[j].0,
                        walk(now)[j].1,
                    ) && mapping@[j].1 == j by {
                        if j < mapped.len() {
                            assert(mapping@[j] == mapped[j]);
                            assert(maps_to(before@, mapped[j], walk(was)[j].0, walk(was)[j].1));
                            let p = walk(was)[j].0;
                            let e = Entry { slot: mapped[j].1, order: walk(was)[j].1 };
                            let c = choose|c: int|
                                0 <= c < before@[p].len() && #[trigger] before@[p][c] == e;
                            assert(out@[p][c] == e);
                        } else {
                            let c = before.queue_at(price).len() as int;
                            assert(out@[price][c] == (Entry { slot: idx, order }));
                        }
                    }
                }
                k = k + 1;
            }
            proof {
                assert(q.take(k as int) =~= q);
                assert(added.take(i + 1) =~= done.push((price, q)));
            }
            i = i + 1;
        }
        assert(added.take(n as int) =~= added);
        (out, mapping)
    }

    /// The ranked levels list the side: strictly sorted from worst to best
    /// price, every level once and none empty.
    pub proof fn lemma_ranked_levels(&self)
        requires
            self.wf(),
        ensures
            is_listing(self.side(), order_view(self@), self.ranked_levels()),
            forall|p: Price| #[trigger] self@.dom().contains(p) ==> self@[p].len() > 0,
    {
        let levels = self.ranked_levels();
        assert(order_view(self@).dom() =~= self@.dom());
        assert forall|i: int| 0 <= i < levels.len() implies order_view(self@).dom().contains(
            (#[trigger] levels[i]).0,
        ) && levels[i].1 == order_view(self@)[levels[i].0] by {
            assert(self.queues@.dom().contains(self.levels@[i].0));
        }
        assert forall|i: int, j: int| 0 <= i < j < levels.len() implies rank(
            self.side(),
            (#[trigger] levels[i]).0,
        ) < rank(self.side(), (#[trigger] levels[j]).0) by {
            assert(rank(self.side(), self.levels@[i].0) < rank(self.side(), self.levels@[j].0));
        }
        assert forall|p: Price| #[trigger] order_view(self@).dom().contains(p) implies exists|i: int|
            0 <= i < levels.len() && (#[trigger] levels[i]).0 == p by {
            assert(self.queues@.dom().contains(p));
            let i = choose|i: int|
                0 <= i < self.levels@.len() && (#[trigger] self.levels@[i]).0 == p;
            assert(levels[i].0 == p);
        }
        assert forall|p: Price| #[trigger] self@.dom().contains(p) implies self@[p].len() > 0 by {
            assert(self.queues@.dom().contains(p));
            assert(self.queue_wf(p));
        }
    }

    /// A slab index names at most one order of the side.
    pub proof fn law_slots_are_unique(&self, p: Price, j: int, q: Price, k: int)
        requires
            self.wf(),
            self@.dom().contains(p),
            self@.dom().contains(q),
            0 <= j < self@[p].len(),
            0 <= k < self@[q].len(),
            self@[p][j].slot == self@[q][k].slot,
        ensures
            p == q,
            j == k,
    {
        self.lemma_live_node(p, j);
        self.lemma_live_node(q, k);
        assert(self.queue_wf(p));
    }

    /// An empty book side with room for `node_capacity` orders.
    pub fn with_capacity(side: Side, node_capacity: usize) -> (s: BookSide)
        ensures
            s.wf(),
            s.side() == side,
            s@ == Map::<Price, Seq<Entry>>::empty(),
            s.slab_len() == 0,
            s.free_slots() == Seq::<u32>::empty(),
    {
        let s = BookSide {
            levels: Vec::with_capacity(64),
            nodes: Vec::with_capacity(node_capacity),
            free_head: INVALID_NODE,
            key_mask: Self::mask_for(side),
            queues: Ghost(Map::empty()),
            free: Ghost(Seq::empty()),
            home: Ghost(Seq::empty()),
        };
        assert(s@ =~= Map::<Price, Seq<Entry>>::empty());
        s
    }

    /// Touches the slab's reserved memory once, so that first use does not
    /// fault pages in. Leaves the orders as they are: a slab that holds nodes
    /// is not touched.
    pub fn prefault(&mut self)
        requires
            old(self).wf(),
        ensures
            final(self).wf(),
            final(self).side() == old(self).side(),
            final(self)@ == old(self)@,
            final(self).same_slab(old(self)),
            final(self).ranked_levels() == old(self).ranked_levels(),
    {
        if self.nodes.len() != 0 {
            return;
        }
        let ghost before = *self;
        let filler = OrderNode {
            order: RestingOrder {
                id: OrderId(0),
                account: AccountId(0),
                remaining: Quantity(1),
                time_in_force: TimeInForce::GTC,
                expiry_ns: 0,
                side: Side::Buy,
                reservation: ReservationSlot::dummy(),
            },
            prev: INVALID_NODE,
            next: INVALID_NODE,
        };
        let cap: usize = slab_capacity(&self.nodes);
        let mut i: usize = 0;
        while i < cap
            invariant
                0 <= i <= cap,
                self.levels@ == before.levels@,
                self.free_head == before.free_head,
                self.key_mask == before.key_mask,
                self.queues@ == before.queues@,
                self.free@ == before.free@,
                self.home@ == before.home@,
            decreases cap - i,
        {
            self.nodes.push(filler);
            i = i + 1;
        }
        self.nodes.clear();
        proof {
            if before.free@.len() > 0 {
                assert(before.freed(0));
            }
        }
        self.free_head = INVALID_NODE;
        proof {
            before.lemma_queues_kept(*self);
            assert(self.ranked_levels() =~= before.ranked_levels());
        }
    }
}

/// `Vec::capacity`: how many nodes the slab holds without growing, no fewer
/// than it holds now. How many more is the allocator's choice.
#[verifier::external_body]
fn slab_capacity(nodes: &Vec<OrderNode>) -> (capacity: usize)
    ensures
        capacity >= nodes@.len(),
{
    nodes.capacity()
}

impl RestingOrder {
    /// A resting order from its parts.
    pub fn new(
        id: OrderId,
        account: AccountId,
        remaining: Quantity,
        time_in_force: TimeInForce,
        expiry_ns: u64,
        side: Side,
        reservation: ReservationSlot,
    ) -> (o: RestingOrder)
        ensures
            o == (RestingOrder {
                id,
                account,
                remaining,
                time_in_force,
                expiry_ns,
                side,
                reservation,
            }),
    {
        RestingOrder { id, account, remaining, time_in_force, expiry_ns, side, reservation }
    }

    pub fn id(&self) -> (id: OrderId)
        ensures
            id == self.id,
    {
        self.id
    }

    pub fn account(&self) -> (account: AccountId)
        ensures
            account == self.account,
    {
        self.account
    }

    pub fn remaining(&self) -> (remaining: Quantity)
        ensures
            remaining == self.remaining,
    {
        self.remaining
    }

    pub fn time_in_force(&self) -> (tif: TimeInForce)
        ensures
            tif == self.time_in_force,
    {
        self.time_in_force
    }

    pub fn expiry_ns(&self) -> (expiry: u64)
        ensures
            expiry == self.expiry_ns,
    {
        self.expiry_ns
    }
}

/// How adding one more order of a level changes what is built up and walked.
proof fn lemma_partial_level(
    done: Seq<(Price, Seq<RestingOrder>)>,
    price: Price,
    q: Seq<RestingOrder>,
    k: int,
)
    requires
        0 <= k <= q.len(),
    ensures
        ({
            let now = done.push((price, q.take(k)));
            &&& walk(now) == walk(done) + q.take(k).map_values(|o: RestingOrder| (price, o))
            &&& walk(now).len() == walk(done).len() + k
            &&& k == 0 ==> restored(now) == restored(done) && walk(now) == walk(done)
            &&& k > 0 ==> restored(now) == restored(done).insert(
                price,
                (if restored(done).dom().contains(price) {
                    restored(done)[price]
                } else {
                    Seq::empty()
                }) + q.take(k),
            )
        }),
{
    let now = done.push((price, q.take(k)));
    assert(now.drop_last() =~= done);
    assert(now.last() == (price, q.take(k)));
    if k == 0 {
        assert(q.take(0).map_values(|o: RestingOrder| (price, o)) =~= Seq::empty());
        assert(walk(now) =~= walk(done));
    }
}

/// The walk over the first levels is no longer than the walk over all.
proof fn lemma_walk_len(
    all: Seq<(Price, Seq<RestingOrder>)>,
    part: Seq<(Price, Seq<RestingOrder>)>,
    i: int,
)
    requires
        0 <= i < all.len(),
        part =~= all.take(i + 1),
    ensures
        walk(part).len() == walk(all.take(i)).len() + all[i].1.len(),
        walk(part).len() <= walk(all).len(),
    decreases all.len() - i,
{
    assert(part.drop_last() =~= all.take(i));
    assert(part.last() == all[i]);
    if i + 1 < all.len() {
        lemma_walk_len(all, all.take(i + 2), i + 1);
    } else {
        assert(part =~= all);
    }
}

proof fn lemma_total_remaining_nonneg(q: Seq<RestingOrder>, exclude: Option<AccountId>)
    ensures
        total_remaining(q, exclude) >= 0,
    decreases q.len(),
{
    if q.len() > 0 {
        lemma_total_remaining_nonneg(q.drop_last(), exclude);
    }
}

/// Levels short of the limit add nothing to what is available.
proof fn lemma_one_level_more(
    side: Side,
    levels: Seq<(Price, Seq<RestingOrder>)>,
    i: int,
    limit: Option<Price>,
    exclude: Option<AccountId>,
    total: u64,
    level: u64,
)
    requires
        0 < i <= levels.len(),
        limit matches Some(l) ==> rank(side, levels[i - 1].0) >= rank(side, l),
        total == saturated(total_available(side, levels.skip(i), limit, exclude)),
        total_available(side, levels.skip(i), limit, exclude) >= 0,
        level == saturated(total_remaining(levels[i - 1].1, exclude)),
    ensures
        total_available(side, levels.skip(i - 1), limit, exclude) >= 0,
        saturated(total_available(side, levels.skip(i - 1), limit, exclude)) == (if total + level
            <= u64::MAX {
            total + level
        } else {
            u64::MAX as int
        }),
{
    lemma_total_remaining_nonneg(levels[i - 1].1, exclude);
    assert(levels.skip(i - 1).skip(1) =~= levels.skip(i));
    assert(levels.skip(i - 1)[0] == levels[i - 1]);
}

proof fn lemma_worse_levels_add_nothing(
    side: Side,
    levels: Seq<(Price, Seq<RestingOrder>)>,
    i: int,
    limit: Price,
    exclude: Option<AccountId>,
)
    requires
        0 <= i <= levels.len(),
        forall|j: int| 0 <= j < i ==> rank(side, (#[trigger] levels[j]).0) < rank(side, limit),
    ensures
        total_available(side, levels, Some(limit), exclude) == total_available(
            side,
            levels.skip(i),
            Some(limit),
            exclude,
        ),
    decreases i,
{
    if i == 0 {
        assert(levels.skip(0) =~= levels);
    } else {
        assert(levels.skip(1).skip(i - 1) =~= levels.skip(i));
        assert(rank(side, levels[0].0) < rank(side, limit));
        lemma_worse_levels_add_nothing(side, levels.skip(1), i - 1, limit, exclude);
    }
}

} // verus!
