//! Ring buffer of one producer and one consumer.
//!
//! `head` counts the items published, `tail` those consumed; both start at
//! zero. An item stands in the slot that its count picks by the mask, and
//! its count is its sequence number. Each end keeps a copy of the other
//! end's count and reads it anew only where the copy leaves nothing to do.

use vstd::arithmetic::power2::pow2;
use vstd::prelude::*;

verus! {

/// The ring holds as many items as it can.
#[derive(Clone, Copy, Debug, PartialEq, Eq, Structural)]
pub struct Full;

/// Whether a number is a power of two.
pub open spec fn is_power_of_two(n: int) -> bool {
    exists|k: nat| #[trigger] pow2(k) == n
}

/// The slots and the two counts.
#[derive(Debug)]
pub struct Ring<T> {
    slots: Vec<T>,
    mask: u64,
    head: u64,
    tail: u64,
}

/// Producer end: its copy of the number of items consumed.
#[derive(Debug)]
pub struct Producer {
    cached_tail: u64,
}

/// Consumer end: its copy of the number of items published.
#[derive(Debug)]
pub struct Consumer {
    cached_head: u64,
}

/// The slot of the item with a count.
spec fn slot_of(count: int, capacity: int) -> int {
    count % capacity
}

impl<T> Ring<T> {
    /// The counts span no more items than there are slots.
    pub closed spec fn wf(&self) -> bool {
        &&& self.slots@.len() == self.mask + 1
        &&& 2 <= self.mask + 1 <= u64::MAX
        &&& is_power_of_two(self.mask + 1)
        &&& self.tail <= self.head
        &&& self.head - self.tail <= self.mask + 1
    }

    /// Number of slots.
    pub closed spec fn capacity(&self) -> int {
        self.mask + 1
    }

    /// Number of items published.
    pub closed spec fn published(&self) -> int {
        self.head as int
    }

    /// The items that were published and not consumed, the oldest first.
    pub closed spec fn pending(&self) -> Seq<T> {
        Seq::new(
            (self.head - self.tail) as nat,
            |i: int| self.slots@[slot_of(self.tail + i, self.mask + 1)],
        )
    }

    /// Number of items consumed.
    pub open spec fn consumed(&self) -> int {
        self.published() - self.pending().len()
    }

    /// The counts are machine numbers, and no more is consumed than was
    /// published.
    pub proof fn lemma_counts(&self)
        requires
            self.wf(),
        ensures
            0 <= self.consumed() <= self.published() <= u64::MAX,
            self.pending().len() <= self.capacity(),
    {
    }

    /// Whether the ring carries a stream: all values published since its start
    /// in their order, of which those that were not consumed are pending.
    pub open spec fn carries(&self, stream: Seq<T>) -> bool {
        &&& self.published() == stream.len()
        &&& self.pending() == stream.skip(self.consumed())
    }

    fn index(&self, count: u64) -> (i: usize)
        requires
            self.wf(),
        ensures
            i == slot_of(count as int, self.mask + 1),
            i < self.slots@.len(),
    {
        let n: usize = self.slots.len();
        proof {
            lemma_masked(count, self.mask);
        }
        (count & self.mask) as usize
    }
}

impl Producer {
    /// The copy is no newer than the ring, and leaves no more than its slots
    /// unaccounted for.
    pub closed spec fn wf<T>(&self, ring: &Ring<T>) -> bool {
        self.cached_tail <= ring.tail && ring.head - self.cached_tail <= ring.mask + 1
    }

    /// Number of free slots that the producer knows of: those that its copy
    /// shows, or those that the ring has where the copy shows none.
    pub closed spec fn known_room<T>(&self, ring: &Ring<T>) -> int {
        let shown = ring.mask + 1 - (ring.head - self.cached_tail);
        if shown > 0 {
            shown
        } else {
            ring.mask + 1 - (ring.head - ring.tail)
        }
    }

    /// Publishes a value and returns its sequence number, where a slot is
    /// free.
    pub fn try_publish<T: Copy>(&mut self, ring: &mut Ring<T>, value: T) -> (r: Result<u64, Full>)
        requires
            old(ring).wf(),
            old(self).wf(old(ring)),
            old(ring).published() < u64::MAX,
        ensures
            final(ring).wf(),
            final(self).wf(final(ring)),
            forall|c: Consumer| c.wf(old(ring)) ==> c.wf(final(ring)),
            final(ring).capacity() == old(ring).capacity(),
            if old(ring).pending().len() < old(ring).capacity() {
                &&& r == Ok::<u64, Full>(old(ring).published() as u64)
                &&& final(ring).pending() == old(ring).pending().push(value)
                &&& final(ring).published() == old(ring).published() + 1
            } else {
                &&& r == Err::<u64, Full>(Full)
                &&& final(ring).pending() == old(ring).pending()
                &&& final(ring).published() == old(ring).published()
            },
    {
        let head: u64 = ring.head;
        let capacity: u64 = ring.mask + 1;
        if head - self.cached_tail >= capacity {
            self.cached_tail = ring.tail;
            if head - self.cached_tail >= capacity {
                return Err(Full);
            }
        }
        let i: usize = ring.index(head);
        let ghost before = *ring;
        ring.slots.set(i, value);
        ring.head = head + 1;
        proof {
            lemma_published(before, *ring, value);
        }
        Ok(head)
    }

    /// Publishes a value and returns its sequence number. Where the ring is
    /// full, `wait` hands it back once the other end has taken something.
    pub fn publish<T: Copy, W: Fn(Ring<T>) -> Ring<T>>(
        &mut self,
        ring: Ring<T>,
        value: T,
        wait: W,
    ) -> (r: (Ring<T>, u64))
        requires
            ring.wf(),
            old(self).wf(&ring),
            ring.published() < u64::MAX,
            ring.pending().len() == ring.capacity() ==> makes_room(wait),
        ensures
            r.1 == ring.published(),
            final(self).wf(&r.0),
            is_after_publishing(&ring, seq![value], &r.0),
    {
        let mut ring: Ring<T> = ring;
        let ghost first = ring;
        if let Ok(sequence) = self.try_publish(&mut ring, value) {
            assert((first.pending() + seq![value]).skip(0) =~= first.pending().push(value));
            return (ring, sequence);
        }
        let ghost full = ring;
        let mut ring: Ring<T> = wait(ring);
        assert(drained(&full, &ring));
        let ghost waited = ring;
        let sequence: u64 = match self.try_publish(&mut ring, value) {
            Ok(sequence) => sequence,
            Err(_) => 0,
        };
        proof {
            let taken = ring.consumed() - first.consumed();
            assert((first.pending() + seq![value]).skip(taken) =~= waited.pending().push(value));
        }
        (ring, sequence)
    }

    /// Publishes as many of some values as the producer knows room for, and
    /// returns how many those are.
    pub fn try_publish_batch<T: Copy>(&mut self, ring: &mut Ring<T>, values: &[T]) -> (n: usize)
        requires
            old(ring).wf(),
            old(self).wf(old(ring)),
            old(ring).published() + values@.len() <= u64::MAX,
        ensures
            final(ring).wf(),
            final(self).wf(final(ring)),
            forall|c: Consumer| c.wf(old(ring)) ==> c.wf(final(ring)),
            final(ring).capacity() == old(ring).capacity(),
            n == (if values@.len() <= old(self).known_room(old(ring)) {
                values@.len() as int
            } else {
                old(self).known_room(old(ring))
            }),
            n == 0 <==> values@.len() == 0 || old(ring).pending().len() == old(ring).capacity(),
            old(ring).pending().len() + n <= old(ring).capacity(),
            final(ring).pending() == old(ring).pending() + values@.take(n as int),
            final(ring).published() == old(ring).published() + n,
    {
        if values.len() == 0 {
            assert(ring.pending() + values@.take(0) =~= ring.pending());
            return 0;
        }
        let head: u64 = ring.head;
        let capacity: u64 = ring.mask + 1;
        let mut available: u64 = capacity - (head - self.cached_tail);
        if available == 0 {
            self.cached_tail = ring.tail;
            available = capacity - (head - self.cached_tail);
            if available == 0 {
                assert(ring.pending() + values@.take(0) =~= ring.pending());
                return 0;
            }
        }
        let count: usize = if values.len() as u64 <= available {
            values.len()
        } else {
            available as usize
        };
        let mut i: usize = 0;
        assert(ring.pending() + values@.take(0) =~= ring.pending());
        while i < count
            invariant
                0 <= i <= count <= values@.len(),
                ring.wf(),
                ring.head == head + i,
                ring.tail == old(ring).tail,
                ring.mask == old(ring).mask,
                capacity == ring.mask + 1,
                self.cached_tail <= ring.tail,
                count <= available == capacity - (head - self.cached_tail),
                head == old(ring).head,
                old(ring).published() + values@.len() <= u64::MAX,
                ring.pending() == old(ring).pending() + values@.take(i as int),
            decreases count - i,
        {
            let at: u64 = head + i as u64;
            let index: usize = ring.index(at);
            let ghost before = *ring;
            ring.slots.set(index, values[i]);
            ring.head = at + 1;
            proof {
                lemma_published(before, *ring, values@[i as int]);
                assert(old(ring).pending() + values@.take(i + 1) =~= before.pending().push(
                    values@[i as int],
                ));
            }
            i = i + 1;
        }
        count
    }

    /// Publishes all of some values, as many at a time as there is room for.
    /// Where the ring is full, `wait` hands it back once the other end has
    /// taken something.
    pub fn publish_batch_blocking<T: Copy, W: Fn(Ring<T>) -> Ring<T>>(
        &mut self,
        ring: Ring<T>,
        values: &[T],
        wait: W,
    ) -> (r: Ring<T>)
        requires
            ring.wf(),
            old(self).wf(&ring),
            ring.published() + values@.len() <= u64::MAX,
            ring.pending().len() + values@.len() > ring.capacity() ==> makes_room(wait),
        ensures
            final(self).wf(&r),
            is_after_publishing(&ring, values@, &r),
    {
        let ghost first = ring;
        let mut ring: Ring<T> = ring;
        let mut written: usize = 0;
        assert(ring.pending() + values@.take(0) =~= ring.pending());
        assert(ring.pending().skip(0) =~= ring.pending());
        while written < values.len()
            invariant
                0 <= written <= values@.len(),
                self.wf(&ring),
                first.pending().len() + values@.len() > first.capacity() ==> makes_room(wait),
                first.wf(),
                first.published() + values@.len() <= u64::MAX,
                holds_behind(&first, values@.take(written as int), &ring),
                first.pending().len() + values@.len() <= first.capacity() ==> ring.consumed()
                    == first.consumed(),
            decreases values@.len() - written, ring.pending().len(),
        {
            let rest = vstd::slice::slice_subrange(values, written, values.len());
            let ghost before = ring;
            let n: usize = self.try_publish_batch(&mut ring, rest);
            let ghost so_far = first.pending() + values@.take(written as int);
            let ghost taken = before.consumed() - first.consumed();
            proof {
                assert(so_far + rest@.take(n as int) =~= first.pending() + values@.take(
                    written + n,
                ));
                assert(before.pending() + rest@.take(n as int) =~= (so_far + rest@.take(
                    n as int,
                )).skip(taken));
            }
            if n == 0 {
                assert(values@.take(written as int) + rest@.take(0) =~= values@.take(
                    written as int,
                ));
                let ghost full = ring;
                ring = wait(ring);
                proof {
                    assert(drained(&full, &ring));
                    assert(so_far.skip(ring.consumed() - first.consumed()) =~= full.pending().skip(
                        ring.consumed() - full.consumed(),
                    ));
                }
            }
            written = written + n;
        }
        assert(values@.take(written as int) =~= values@);
        ring
    }
}

/// Whether one ring is another after the consumer has taken something.
pub open spec fn drained<T>(before: &Ring<T>, after: &Ring<T>) -> bool {
    &&& after.wf()
    &&& after.capacity() == before.capacity()
    &&& after.published() == before.published()
    &&& before.consumed() < after.consumed() <= before.published()
    &&& after.pending() == before.pending().skip(after.consumed() - before.consumed())
    &&& forall|p: Producer| p.wf(before) ==> p.wf(after)
}

/// Whether waiting with a full ring makes room: it may be done, and it gives
/// the ring back with something taken.
pub open spec fn makes_room<T, W: Fn(Ring<T>) -> Ring<T>>(wait: W) -> bool {
    &&& forall|ring: Ring<T>|
        ring.wf() && ring.pending().len() == ring.capacity() ==> #[trigger] call_requires(
            wait,
            (ring,),
        )
    &&& forall|ring: Ring<T>, after: Ring<T>|
        ring.wf() && ring.pending().len() == ring.capacity() && #[trigger] call_ensures(
            wait,
            (ring,),
            after,
        ) ==> drained(&ring, &after)
}

/// Whether one ring holds what another held, with some values behind it and
/// less what was taken.
pub open spec fn holds_behind<T>(before: &Ring<T>, values: Seq<T>, after: &Ring<T>) -> bool {
    &&& after.wf()
    &&& after.capacity() == before.capacity()
    &&& after.published() == before.published() + values.len()
    &&& before.consumed() <= after.consumed()
    &&& after.pending() == (before.pending() + values).skip(after.consumed() - before.consumed())
    &&& forall|c: Consumer| c.wf(before) ==> c.wf(after)
}

/// Whether one ring is another after some values were published, each right
/// behind the one before, while the consumer took what it took. It need not
/// take anything where there is room for all of them.
pub open spec fn is_after_publishing<T>(before: &Ring<T>, values: Seq<T>, after: &Ring<T>) -> bool {
    &&& holds_behind(before, values, after)
    &&& before.pending().len() + values.len() <= before.capacity() ==> after.consumed()
        == before.consumed()
}

impl Consumer {
    /// The copy is no newer than the ring.
    pub closed spec fn wf<T>(&self, ring: &Ring<T>) -> bool {
        self.cached_head <= ring.head
    }

    /// Takes the oldest item and its sequence number.
    pub fn try_consume<T: Copy>(&mut self, ring: &mut Ring<T>) -> (r: Option<(u64, T)>)
        requires
            old(ring).wf(),
            old(self).wf(old(ring)),
        ensures
            final(ring).wf(),
            final(self).wf(final(ring)),
            forall|p: Producer| p.wf(old(ring)) ==> p.wf(final(ring)),
            final(ring).capacity() == old(ring).capacity(),
            final(ring).published() == old(ring).published(),
            if old(ring).pending().len() == 0 {
                &&& r is None
                &&& final(ring).pending() == old(ring).pending()
            } else {
                &&& r == Some((old(ring).consumed() as u64, old(ring).pending()[0]))
                &&& final(ring).pending() == old(ring).pending().drop_first()
            },
    {
        let tail: u64 = ring.tail;
        if self.cached_head <= tail {
            self.cached_head = ring.head;
            if self.cached_head <= tail {
                return None;
            }
        }
        let i: usize = ring.index(tail);
        let value: T = ring.slots[i];
        ring.tail = tail + 1;
        proof {
            assert(ring.pending() =~= old(ring).pending().drop_first());
        }
        Some((tail, value))
    }

    /// Takes the oldest items, at most `max` of them and as many as `buf`
    /// holds, into the start of `buf`, and returns how many those are.
    pub fn consume_batch<T: Copy>(&mut self, ring: &mut Ring<T>, buf: &mut [T], max: usize) -> (n:
        usize)
        requires
            old(ring).wf(),
            old(self).wf(old(ring)),
        ensures
            final(ring).wf(),
            final(self).wf(final(ring)),
            forall|p: Producer| p.wf(old(ring)) ==> p.wf(final(ring)),
            final(ring).capacity() == old(ring).capacity(),
            final(ring).published() == old(ring).published(),
            n == batch_size(old(ring).pending().len() as int, max as int, old(buf)@.len() as int),
            final(buf)@ == old(ring).pending().take(n as int) + old(buf)@.skip(n as int),
            final(ring).pending() == old(ring).pending().skip(n as int),
    {
        let tail: u64 = ring.tail;
        self.cached_head = ring.head;
        let available: u64 = self.cached_head - tail;
        if available == 0 {
            proof {
                assert(old(ring).pending().take(0) + old(buf)@.skip(0) =~= old(buf)@);
                assert(old(ring).pending().skip(0) =~= old(ring).pending());
            }
            return 0;
        }
        let mut count: usize = buf.len();
        if max < count {
            count = max;
        }
        if available < count as u64 {
            count = available as usize;
        }
        let mut i: usize = 0;
        assert(old(ring).pending().take(0) + old(buf)@.skip(0) =~= old(buf)@);
        while i < count
            invariant
                0 <= i <= count <= available,
                count <= buf@.len() == old(buf)@.len(),
                *ring == *old(ring),
                ring.wf(),
                tail == ring.tail,
                available == ring.head - tail,
                buf@ == ring.pending().take(i as int) + old(buf)@.skip(i as int),
            decreases count - i,
        {
            let index: usize = ring.index(tail + i as u64);
            let value: T = ring.slots[index];
            let ghost shown = buf@;
            buf[i] = value;
            proof {
                assert(value == ring.pending()[i as int]);
                assert(buf@ =~= ring.pending().take(i + 1) + old(buf)@.skip(i + 1));
            }
            i = i + 1;
        }
        ring.tail = tail + count as u64;
        proof {
            assert forall|j: int| 0 <= j < ring.pending().len() implies ring.pending()[j] == old(
                ring,
            ).pending().skip(count as int)[j] by {
                assert(ring.tail + j == old(ring).tail + (count + j));
            }
            assert(ring.pending() =~= old(ring).pending().skip(count as int));
        }
        count
    }
}

/// How many items a batch takes.
pub open spec fn batch_size(pending: int, max: int, room: int) -> int {
    let wanted = if max < room {
        max
    } else {
        room
    };
    if pending < wanted {
        pending
    } else {
        wanted
    }
}

/// A ring with a number of slots, which is a power of two, and its two ends.
pub fn channel<T: Copy + Default>(capacity: usize) -> (r: (Producer, Consumer, Ring<T>))
    requires
        is_power_of_two(capacity as int),
        capacity >= 2,
    ensures
        r.2.wf(),
        r.0.wf(&r.2),
        r.1.wf(&r.2),
        r.2.capacity() == capacity,
        r.2.published() == 0,
        r.2.pending() == Seq::<T>::empty(),
{
    let mut slots: Vec<T> = Vec::new();
    let mut i: usize = 0;
    while i < capacity
        invariant
            0 <= i <= capacity,
            slots@.len() == i,
        decreases capacity - i,
    {
        slots.push(T::default());
        i = i + 1;
    }
    let ring = Ring { slots, mask: (capacity - 1) as u64, head: 0, tail: 0 };
    assert(ring.pending() =~= Seq::empty());
    (Producer { cached_tail: 0 }, Consumer { cached_head: 0 }, ring)
}

proof fn lemma_masked(count: u64, mask: u64)
    requires
        is_power_of_two(mask + 1),
        mask + 1 <= u64::MAX,
    ensures
        count & mask == slot_of(count as int, mask + 1),
        count & mask <= mask,
{
    let k = choose|k: nat| #[trigger] pow2(k) == mask + 1;
    if k >= 64 {
        vstd::arithmetic::power2::lemma2_to64();
        if k > 64 {
            vstd::arithmetic::power2::lemma_pow2_strictly_increases(64, k);
        }
    }
    vstd::bits::lemma_u64_low_bits_mask_is_mod(count, k);
    assert(vstd::bits::low_bits_mask(k) == mask) by {
        reveal(vstd::bits::low_bits_mask);
    }
    vstd::arithmetic::div_mod::lemma_mod_bound(count as int, mask + 1);
}

proof fn lemma_slots_differ(a: int, b: int, capacity: int)
    requires
        0 <= a < b < a + capacity,
    ensures
        slot_of(a, capacity) != slot_of(b, capacity),
{
    vstd::arithmetic::div_mod::lemma_fundamental_div_mod(a, capacity);
    vstd::arithmetic::div_mod::lemma_fundamental_div_mod(b, capacity);
    if slot_of(a, capacity) == slot_of(b, capacity) {
        let d = b / capacity - a / capacity;
        assert(b - a == capacity * d) by (nonlinear_arith)
            requires
                b - a == capacity * (b / capacity) - capacity * (a / capacity),
                d == b / capacity - a / capacity,
        ;
        assert(false) by (nonlinear_arith)
            requires
                b - a == capacity * d,
                0 < b - a < capacity,
        ;
    }
}

proof fn lemma_published<T>(before: Ring<T>, after: Ring<T>, value: T)
    requires
        before.wf(),
        before.head - before.tail < before.mask + 1,
        after.mask == before.mask,
        after.tail == before.tail,
        after.head == before.head + 1,
        after.slots@ == before.slots@.update(
            slot_of(before.head as int, before.mask + 1),
            value,
        ),
    ensures
        after.wf(),
        after.pending() == before.pending().push(value),
{
    let capacity = before.mask + 1;
    let at = slot_of(before.head as int, capacity);
    vstd::arithmetic::div_mod::lemma_mod_bound(before.head as int, capacity);
    assert forall|i: int| 0 <= i < after.pending().len() implies after.pending()[i]
        == before.pending().push(value)[i] by {
        let count = before.tail + i;
        vstd::arithmetic::div_mod::lemma_mod_bound(count, capacity);
        if count < before.head {
            lemma_slots_differ(count, before.head as int, capacity);
        }
    }
    assert(after.pending() =~= before.pending().push(value));
}

/// A value is consumed under the sequence number under which it was
/// published: once all items before it are taken, it is the oldest.
pub proof fn law_sequence_numbers_match<T>(pending: Seq<T>, consumed: int, value: T, taken: int)
    requires
        0 <= taken <= pending.len(),
    ensures
        ({
            let sequence = consumed + pending.len();
            let left = pending.push(value).skip(taken);
            &&& left[sequence - (consumed + taken)] == value
            &&& taken == pending.len() ==> left[0] == value && sequence == consumed + taken
        }),
{
}

/// Items come out in the order in which they went in, whether one by one or
/// in batches.
pub proof fn law_first_in_first_out<T>(pending: Seq<T>, values: Seq<T>)
    ensures
        (pending + values).take(pending.len() as int) == pending,
        (pending + values).skip(pending.len() as int) == values,
{
    assert((pending + values).take(pending.len() as int) =~= pending);
    assert((pending + values).skip(pending.len() as int) =~= values);
}

/// A batch is the same as its parts one after the other, and so as its values
/// one by one, whatever the consumer takes in between.
pub proof fn law_batches_add_up<T>(
    before: &Ring<T>,
    first: Seq<T>,
    between: &Ring<T>,
    second: Seq<T>,
    after: &Ring<T>,
)
    requires
        before.wf(),
        is_after_publishing(before, first, between),
        is_after_publishing(between, second, after),
    ensures
        is_after_publishing(before, first + second, after),
{
    let taken = between.consumed() - before.consumed();
    assert(before.pending() + (first + second) =~= (before.pending() + first) + second);
    assert((before.pending() + (first + second)).skip(taken) =~= between.pending() + second);
    assert((before.pending() + (first + second)).skip(after.consumed() - before.consumed())
        =~= after.pending());
}

/// What the consumer took while values were published, with what is left, is
/// what was there before with the values right behind it: all of them in
/// their order, also where they are more than the ring holds.
pub proof fn law_nothing_lost_while_waiting<T>(before: &Ring<T>, values: Seq<T>, after: &Ring<T>)
    requires
        before.wf(),
        is_after_publishing(before, values, after),
    ensures
        ({
            let stream = before.pending() + values;
            let taken = after.consumed() - before.consumed();
            &&& 0 <= taken <= stream.len()
            &&& stream.take(taken) + after.pending() == stream
        }),
{
    let stream = before.pending() + values;
    let taken = after.consumed() - before.consumed();
    assert(stream.take(taken) + stream.skip(taken) =~= stream);
}

/// A new ring carries the stream without values.
pub proof fn law_stream_starts_empty<T>(ring: &Ring<T>)
    requires
        ring.published() == 0,
        ring.pending() == Seq::<T>::empty(),
    ensures
        ring.carries(Seq::empty()),
        ring.consumed() == 0,
{
    assert(Seq::<T>::empty().skip(0) =~= Seq::empty());
}

/// Publishing by any of the producer's methods adds its values to the end of
/// the stream, also where the consumer takes values meanwhile.
pub proof fn law_publishing_extends_the_stream<T>(
    before: &Ring<T>,
    stream: Seq<T>,
    values: Seq<T>,
    after: &Ring<T>,
)
    requires
        before.wf(),
        after.wf(),
        before.carries(stream),
        after.published() == before.published() + values.len(),
        before.consumed() <= after.consumed(),
        after.pending() == (before.pending() + values).skip(after.consumed() - before.consumed()),
    ensures
        after.carries(stream + values),
{
    before.lemma_counts();
    after.lemma_counts();
    assert(after.pending() =~= (stream + values).skip(after.consumed()));
}

/// With `k` values consumed the oldest pending one is the `k`-th of the
/// stream, under the sequence number `k`, and there is none if and only if
/// the stream has no more than `k` values. Taking it leaves `k + 1` consumed
/// and the stream as it was, so that no value is lost, repeated or reordered,
/// however often the counts pass the end of the ring.
pub proof fn law_consuming_follows_the_stream<T>(
    before: &Ring<T>,
    stream: Seq<T>,
    taken: int,
    after: &Ring<T>,
)
    requires
        before.wf(),
        after.wf(),
        before.carries(stream),
        0 <= taken <= before.pending().len(),
        after.published() == before.published(),
        after.pending() == before.pending().skip(taken),
    ensures
        ({
            let k = before.consumed();
            &&& 0 <= k <= stream.len()
            &&& k as u64 == k
            &&& before.pending().len() == 0 <==> k == stream.len()
            &&& k < stream.len() ==> before.pending()[0] == stream[k]
            &&& before.pending().take(taken) == stream.subrange(k, k + taken)
            &&& after.carries(stream)
            &&& after.consumed() == k + taken
        }),
{
    before.lemma_counts();
    after.lemma_counts();
    let k = before.consumed();
    assert(before.pending().take(taken) =~= stream.subrange(k, k + taken));
    assert(after.pending() =~= stream.skip(after.consumed()));
}

/// A published value goes behind those that wait, under the number of values
/// published before it; only a full ring refuses it, and then nothing
/// changes.
pub proof fn law_published_value_goes_last<T: Copy>(
    p: &mut Producer,
    ring: &mut Ring<T>,
    value: T,
    r: Result<u64, Full>,
)
    requires
        old(ring).wf(),
        old(ring).published() < u64::MAX,
        call_ensures(Producer::try_publish::<T>, (p, ring, value), r),
    ensures
        r is Err <==> old(ring).pending().len() == old(ring).capacity(),
        r matches Ok(sequence) ==> {
            &&& sequence == old(ring).published()
            &&& final(ring).pending().len() == old(ring).pending().len() + 1
            &&& final(ring).pending().last() == value
            &&& final(ring).pending().drop_last() == old(ring).pending()
            &&& final(ring).published() == old(ring).published() + 1
        },
        r is Err ==> final(ring).pending() == old(ring).pending() && final(ring).published()
            == old(ring).published(),
{
    old(ring).lemma_counts();
    if r is Ok {
        assert(old(ring).pending().push(value).drop_last() =~= old(ring).pending());
    }
}

/// A batch goes behind what waits, in its order and as far as it goes; it
/// goes nowhere only where it is empty or the ring full.
pub proof fn law_published_batch_goes_last<T: Copy>(
    p: &mut Producer,
    ring: &mut Ring<T>,
    values: &[T],
    n: usize,
)
    requires
        old(ring).wf(),
        call_ensures(Producer::try_publish_batch::<T>, (p, ring, values), n),
    ensures
        n <= values@.len(),
        final(ring).pending().len() == old(ring).pending().len() + n,
        forall|i: int|
            0 <= i < old(ring).pending().len() ==> #[trigger] final(ring).pending()[i] == old(
                ring,
            ).pending()[i],
        forall|i: int|
            0 <= i < n ==> final(ring).pending()[old(ring).pending().len() + i]
                == #[trigger] values@[i],
        n == 0 ==> values@.len() == 0 || old(ring).pending().len() == old(ring).capacity(),
        final(ring).published() == old(ring).published() + n,
{
    old(ring).lemma_counts();
}

/// The value that waits longest is taken, under its own number; nothing is
/// taken only where nothing waits.
pub proof fn law_longest_waiting_value_is_taken<T: Copy>(
    c: &mut Consumer,
    ring: &mut Ring<T>,
    r: Option<(u64, T)>,
)
    requires
        old(ring).wf(),
        call_ensures(Consumer::try_consume::<T>, (c, ring), r),
    ensures
        r is None <==> old(ring).pending().len() == 0,
        r matches Some((sequence, value)) ==> {
            &&& sequence == old(ring).consumed()
            &&& old(ring).pending() == seq![value] + final(ring).pending()
            &&& final(ring).consumed() == old(ring).consumed() + 1
        },
        r is None ==> final(ring).pending() == old(ring).pending(),
        final(ring).published() == old(ring).published(),
{
    old(ring).lemma_counts();
    if r is Some {
        let value = old(ring).pending()[0];
        assert(old(ring).pending() =~= seq![value] + old(ring).pending().drop_first());
    }
}

/// A batch takes what waits longest, in its order, to the start of the
/// buffer; it is cut short by the limit, the buffer and what waits alone. The
/// rest of the buffer stays, and so does the rest of what waits.
pub proof fn law_batch_takes_what_waits_longest<T: Copy>(
    c: &mut Consumer,
    ring: &mut Ring<T>,
    buf: &mut [T],
    max: usize,
    n: usize,
)
    requires
        old(ring).wf(),
        call_ensures(Consumer::consume_batch::<T>, (c, ring, buf, max), n),
    ensures
        n <= max,
        n <= old(buf)@.len(),
        n <= old(ring).pending().len(),
        n == max || n == old(buf)@.len() || n == old(ring).pending().len(),
        final(buf)@.len() == old(buf)@.len(),
        forall|i: int| 0 <= i < n ==> #[trigger] final(buf)@[i] == old(ring).pending()[i],
        forall|i: int| n <= i < old(buf)@.len() ==> #[trigger] final(buf)@[i] == old(buf)@[i],
        final(ring).pending().len() + n == old(ring).pending().len(),
        forall|i: int|
            0 <= i < final(ring).pending().len() ==> #[trigger] final(ring).pending()[i] == old(
                ring,
            ).pending()[n + i],
        final(ring).published() == old(ring).published(),
{
}

/// A new channel has as many slots as asked for, all of them free.
pub proof fn law_new_channel_is_empty<T: Copy + Default>(
    capacity: usize,
    r: (Producer, Consumer, Ring<T>),
)
    requires
        call_ensures(channel::<T>, (capacity,), r),
    ensures
        r.2.capacity() == capacity,
        r.2.pending().len() == 0,
        r.2.published() == 0,
        r.2.consumed() == 0,
{
}

} // verus!
