//! Scheduler of time-driven tasks.
//!
//! Every event that enters the matching stage first drains all tasks that
//! are due, so the scheduler runs in lockstep with the journal. The tasks
//! stand in a binary min-heap: the only operations on the hot path are to
//! look at the least task, take it and push another.

use vstd::multiset::Multiset;
use vstd::prelude::*;

verus! {

/// A task that waits for its deadline.
#[derive(Clone, Copy, Debug, PartialEq, Eq, Structural)]
pub struct ScheduledTask {
    /// Deadline in nanoseconds since the epoch.
    pub fire_ns: u64,
    /// What is to be done.
    pub kind: ScheduledTaskKind,
}

/// Kinds of scheduled work.
#[derive(Clone, Copy, Debug, PartialEq, Eq, Structural)]
pub enum ScheduledTaskKind {
    /// A task without effect.
    Reserved,
}

/// Tag of `ScheduledTaskKind::Reserved` on disk.
pub const KIND_TAG_RESERVED: u8 = 0;

/// The tag of a kind on disk. Kinds are ordered by it.
pub open spec fn kind_tag(kind: ScheduledTaskKind) -> u8 {
    match kind {
        ScheduledTaskKind::Reserved => KIND_TAG_RESERVED,
    }
}

/// The tag of a kind on disk.
pub fn encode_kind(kind: ScheduledTaskKind) -> (tag: u8)
    ensures
        tag == kind_tag(kind),
{
    match kind {
        ScheduledTaskKind::Reserved => KIND_TAG_RESERVED,
    }
}

/// The kind that a tag on disk stands for.
pub fn decode_kind(tag: u8) -> (kind: Option<ScheduledTaskKind>)
    ensures
        match kind {
            Some(k) => kind_tag(k) == tag,
            None => forall|k: ScheduledTaskKind| #[trigger] kind_tag(k) != tag,
        },
{
    if tag == KIND_TAG_RESERVED {
        Some(ScheduledTaskKind::Reserved)
    } else {
        None
    }
}

/// The order of tasks: by deadline, and by kind among those that fire
/// together.
pub open spec fn not_after(a: ScheduledTask, b: ScheduledTask) -> bool {
    a.fire_ns < b.fire_ns || (a.fire_ns == b.fire_ns && kind_tag(a.kind) <= kind_tag(b.kind))
}

fn goes_first(a: &ScheduledTask, b: &ScheduledTask) -> (r: bool)
    ensures
        r == not_after(*a, *b),
{
    a.fire_ns < b.fire_ns || (a.fire_ns == b.fire_ns && encode_kind(a.kind) <= encode_kind(b.kind))
}

/// Whether tasks stand in order.
pub open spec fn in_order(tasks: Seq<ScheduledTask>) -> bool {
    forall|i: int, j: int| 0 <= i < j < tasks.len() ==> not_after(tasks[i], tasks[j])
}

/// Whether an answer is the next due task of some pending ones, or that none
/// is due.
pub open spec fn is_next_due(
    pending: Multiset<ScheduledTask>,
    now_ns: u64,
    next: Option<ScheduledTask>,
) -> bool {
    match next {
        Some(task) => {
            &&& pending.contains(task)
            &&& task.fire_ns <= now_ns
            &&& forall|t: ScheduledTask| #[trigger] pending.contains(t) ==> not_after(task, t)
        },
        None => forall|t: ScheduledTask| #[trigger] pending.contains(t) ==> t.fire_ns > now_ns,
    }
}

/// The pending tasks once the next due one was taken.
pub open spec fn after_pop(
    pending: Multiset<ScheduledTask>,
    next: Option<ScheduledTask>,
) -> Multiset<ScheduledTask> {
    match next {
        Some(task) => pending.remove(task),
        None => pending,
    }
}

/// Whether the task at a position of the heap stands in order with its
/// parent.
spec fn settled(s: Seq<ScheduledTask>, i: int) -> bool {
    not_after(s[(i - 1) / 2], s[i])
}

/// Whether every task of the heap but the first stands in order with its
/// parent.
spec fn heap_ordered(s: Seq<ScheduledTask>) -> bool {
    forall|i: int| 0 < i < s.len() ==> #[trigger] settled(s, i)
}

/// Whether the grandparent of a position stands in order with its task.
spec fn bridged(s: Seq<ScheduledTask>, i: int) -> bool {
    let k = (i - 1) / 2;
    k > 0 ==> not_after(s[(k - 1) / 2], s[i])
}

/// Two tasks of the heap exchanged.
spec fn swapped(s: Seq<ScheduledTask>, i: int, j: int) -> Seq<ScheduledTask> {
    s.update(i, s[j]).update(j, s[i])
}

/// Min-heap of pending tasks.
#[derive(Debug)]
pub struct ScheduledTaskHeap {
    tasks: Vec<ScheduledTask>,
}

impl View for ScheduledTaskHeap {
    type V = Multiset<ScheduledTask>;

    closed spec fn view(&self) -> Multiset<ScheduledTask> {
        self.tasks@.to_multiset()
    }
}

impl ScheduledTaskHeap {
    /// Every task stands in order with its parent.
    pub closed spec fn wf(&self) -> bool {
        heap_ordered(self.tasks@)
    }

    /// A heap without tasks.
    pub fn new() -> (heap: ScheduledTaskHeap)
        ensures
            heap.wf(),
            heap@ == Multiset::<ScheduledTask>::empty(),
    {
        let heap = ScheduledTaskHeap { tasks: Vec::new() };
        proof {
            heap.tasks@.to_multiset_ensures();
            assert(heap@ =~= Multiset::empty());
        }
        heap
    }

    /// Number of pending tasks.
    pub fn len(&self) -> (n: usize)
        ensures
            n == self@.len(),
    {
        proof {
            self.tasks@.to_multiset_ensures();
        }
        self.tasks.len()
    }

    /// Whether no task is pending.
    pub fn is_empty(&self) -> (b: bool)
        ensures
            b == (self@.len() == 0),
    {
        proof {
            self.tasks@.to_multiset_ensures();
        }
        self.tasks.len() == 0
    }

    /// Adds a task.
    pub fn push(&mut self, task: ScheduledTask)
        requires
            old(self).wf(),
        ensures
            final(self).wf(),
            final(self)@ == old(self)@.insert(task),
    {
        proof {
            self.tasks@.to_multiset_ensures();
        }
        let ghost before = self.tasks@;
        self.tasks.push(task);
        proof {
            assert forall|i: int| 0 < i < before.len() implies #[trigger] settled(self.tasks@, i) by {
                assert(settled(before, i));
            }
        }
        self.sift_up();
    }

    /// Takes the least task that is due, if there is one.
    pub fn pop_due(&mut self, now_ns: u64) -> (next: Option<ScheduledTask>)
        requires
            old(self).wf(),
        ensures
            final(self).wf(),
            is_next_due(old(self)@, now_ns, next),
            final(self)@ == after_pop(old(self)@, next),
    {
        proof {
            lemma_first_is_least(self.tasks@);
            self.tasks@.to_multiset_ensures();
        }
        if self.tasks.len() == 0 || self.tasks[0].fire_ns > now_ns {
            return None;
        }
        let task = self.take_first();
        Some(task)
    }

    /// The pending tasks in order, which makes the layout on disk the same
    /// for the same tasks.
    pub fn snapshot(&self) -> (tasks: Vec<ScheduledTask>)
        requires
            self.wf(),
        ensures
            tasks@.to_multiset() == self@,
            in_order(tasks@),
    {
        let mut copy = ScheduledTaskHeap { tasks: Vec::new() };
        let mut i: usize = 0;
        while i < self.tasks.len()
            invariant
                0 <= i <= self.tasks@.len(),
                copy.tasks@ == self.tasks@.take(i as int),
            decreases self.tasks@.len() - i,
        {
            copy.tasks.push(self.tasks[i]);
            i = i + 1;
        }
        assert(copy.tasks@ =~= self.tasks@);
        let mut out: Vec<ScheduledTask> = Vec::new();
        proof {
            out@.to_multiset_ensures();
            assert(out@.to_multiset().add(copy@) =~= self@);
        }
        while copy.tasks.len() > 0
            invariant
                copy.wf(),
                out@.to_multiset().add(copy@) == self@,
                in_order(out@),
                forall|i: int, t: ScheduledTask|
                    #![trigger out@[i], copy@.contains(t)]
                    0 <= i < out@.len() && copy@.contains(t) ==> not_after(out@[i], t),
            decreases copy.tasks@.len(),
        {
            let ghost rest = copy@;
            let ghost sorted = out@;
            proof {
                lemma_first_is_least(copy.tasks@);
                copy.tasks@.to_multiset_ensures();
                out@.to_multiset_ensures();
                assert(copy.tasks@.contains(copy.tasks@[0]));
                assert(rest.contains(copy.tasks@[0]));
            }
            let task = copy.take_first();
            out.push(task);
            proof {
                assert(forall|t: ScheduledTask| #[trigger]
                    copy@.contains(t) ==> rest.contains(t));
                assert(forall|i: int|
                    0 <= i < sorted.len() ==> not_after(#[trigger] sorted[i], task));
                assert(out@.to_multiset() =~= sorted.to_multiset().insert(task));
                assert(out@.to_multiset().add(copy@) =~= sorted.to_multiset().add(rest));
            }
        }
        proof {
            copy.tasks@.to_multiset_ensures();
            assert(copy@ =~= Multiset::empty());
            assert(out@.to_multiset().add(copy@) =~= out@.to_multiset());
        }
        out
    }

    /// A heap of the tasks of a snapshot.
    pub fn restore(tasks: Vec<ScheduledTask>) -> (heap: ScheduledTaskHeap)
        ensures
            heap.wf(),
            heap@ == tasks@.to_multiset(),
    {
        let mut heap = ScheduledTaskHeap::new();
        let mut i: usize = 0;
        proof {
            tasks@.take(0).to_multiset_ensures();
            assert(tasks@.take(0).to_multiset() =~= Multiset::empty());
        }
        while i < tasks.len()
            invariant
                0 <= i <= tasks@.len(),
                heap.wf(),
                heap@ == tasks@.take(i as int).to_multiset(),
            decreases tasks@.len() - i,
        {
            proof {
                tasks@.take(i as int).to_multiset_ensures();
                assert(tasks@.take(i + 1) =~= tasks@.take(i as int).push(tasks@[i as int]));
            }
            heap.push(tasks[i]);
            i = i + 1;
        }
        assert(tasks@.take(i as int) =~= tasks@);
        heap
    }

    /// Moves the last task up to its place.
    fn sift_up(&mut self)
        requires
            old(self).tasks@.len() > 0,
            forall|i: int|
                0 < i < old(self).tasks@.len() - 1 ==> #[trigger] settled(old(self).tasks@, i),
        ensures
            final(self).wf(),
            final(self)@ == old(self)@,
    {
        let mut k: usize = self.tasks.len() - 1;
        while k > 0
            invariant
                k < self.tasks@.len(),
                self@ == old(self)@,
                forall|i: int|
                    0 < i < self.tasks@.len() && i != k ==> #[trigger] settled(self.tasks@, i),
                forall|i: int|
                    0 < i < self.tasks@.len() && (i - 1) / 2 == k ==> #[trigger] bridged(
                        self.tasks@,
                        i,
                    ),
            decreases k,
        {
            let p: usize = (k - 1) / 2;
            let ghost before = self.tasks@;
            if goes_first(&self.tasks[p], &self.tasks[k]) {
                assert(settled(self.tasks@, k as int));
                return;
            }
            let parent = self.tasks[p];
            self.tasks[p] = self.tasks[k];
            self.tasks[k] = parent;
            proof {
                assert(self.tasks@ =~= swapped(before, p as int, k as int));
                lemma_swapped(before, p as int, k as int);
                assert forall|i: int| 0 < i < self.tasks@.len() && i != p implies #[trigger] settled(
                    self.tasks@,
                    i,
                ) by {
                    if i != k {
                        assert(settled(before, i));
                        if (i - 1) / 2 == k {
                            assert(bridged(before, i));
                        }
                    }
                }
                assert forall|i: int|
                    0 < i < self.tasks@.len() && (i - 1) / 2 == p implies #[trigger] bridged(
                    self.tasks@,
                    i,
                ) by {
                    if p > 0 {
                        assert(settled(before, p as int));
                        if i != k {
                            assert(settled(before, i));
                        }
                    }
                }
            }
            k = p;
        }
    }

    /// Takes the first task, which is the least.
    fn take_first(&mut self) -> (task: ScheduledTask)
        requires
            old(self).wf(),
            old(self).tasks@.len() > 0,
        ensures
            final(self).wf(),
            task == old(self).tasks@[0],
            final(self)@ == old(self)@.remove(task),
            final(self).tasks@.len() == old(self).tasks@.len() - 1,
    {
        let ghost before = self.tasks@;
        let task = self.tasks.swap_remove(0);
        let ghost s = self.tasks@;
        proof {
            lemma_first_removed(before, s);
            assert forall|i: int| 0 < i < s.len() && (i - 1) / 2 != 0 implies #[trigger] settled(s, i) by {
                assert(settled(before, i));
            }
        }
        self.sift_down();
        task
    }

    /// Moves the first task down to its place.
    fn sift_down(&mut self)
        requires
            forall|i: int|
                0 < i < old(self).tasks@.len() && (i - 1) / 2 != 0 ==> #[trigger] settled(
                    old(self).tasks@,
                    i,
                ),
        ensures
            final(self).wf(),
            final(self)@ == old(self)@,
            final(self).tasks@.len() == old(self).tasks@.len(),
    {
        let n: usize = self.tasks.len();
        let mut k: usize = 0;
        loop
            invariant
                n == self.tasks@.len() == old(self).tasks@.len(),
                n > 0 ==> k < n,
                k <= n,
                self@ == old(self)@,
                forall|i: int|
                    0 < i < self.tasks@.len() && (i - 1) / 2 != k ==> #[trigger] settled(
                        self.tasks@,
                        i,
                    ),
                forall|i: int|
                    0 < i < self.tasks@.len() && (i - 1) / 2 == k ==> #[trigger] bridged(
                        self.tasks@,
                        i,
                    ),
            decreases n - k,
        {
            if n <= 1 || k > (n - 2) / 2 {
                assert forall|i: int| 0 < i < self.tasks@.len() implies #[trigger] settled(
                    self.tasks@,
                    i,
                ) by {
                    assert((i - 1) / 2 != k);
                }
                return;
            }
            let left: usize = 2 * k + 1;
            let mut c: usize = left;
            if left + 1 < n && !goes_first(&self.tasks[left], &self.tasks[left + 1]) {
                c = left + 1;
            }
            let ghost before = self.tasks@;
            if goes_first(&self.tasks[k], &self.tasks[c]) {
                assert forall|i: int| 0 < i < self.tasks@.len() implies #[trigger] settled(
                    self.tasks@,
                    i,
                ) by {
                    if (i - 1) / 2 == k {
                        assert(i == left || i == left + 1);
                    }
                }
                return;
            }
            let child = self.tasks[c];
            self.tasks[c] = self.tasks[k];
            self.tasks[k] = child;
            proof {
                assert(self.tasks@ =~= swapped(before, c as int, k as int));
                lemma_swapped(before, c as int, k as int);
                assert forall|i: int| 0 < i < self.tasks@.len() && (i - 1) / 2 != c implies #[trigger] settled(
                    self.tasks@,
                    i,
                ) by {
                    if (i - 1) / 2 == k {
                        assert(i == left || i == left + 1);
                    } else {
                        assert(settled(before, i));
                        if i == k {
                            assert(bridged(before, c as int));
                        }
                    }
                }
                assert forall|i: int|
                    0 < i < self.tasks@.len() && (i - 1) / 2 == c implies #[trigger] bridged(
                    self.tasks@,
                    i,
                ) by {
                    assert(settled(before, i));
                    assert((c - 1) / 2 == k);
                }
            }
            k = c;
        }
    }
}

impl Default for ScheduledTaskHeap {
    fn default() -> (heap: ScheduledTaskHeap)
        ensures
            heap.wf(),
            heap@ == Multiset::<ScheduledTask>::empty(),
    {
        ScheduledTaskHeap::new()
    }
}

proof fn lemma_swapped(s: Seq<ScheduledTask>, i: int, j: int)
    requires
        0 <= i < s.len(),
        0 <= j < s.len(),
        i != j,
    ensures
        swapped(s, i, j).to_multiset() == s.to_multiset(),
{
    let t = s.update(i, s[j]);
    s.to_multiset_ensures();
    t.to_multiset_ensures();
    lemma_updated(s, i, s[j]);
    lemma_updated(t, j, s[i]);
    assert(s.contains(s[i]));
    assert(swapped(s, i, j).to_multiset() =~= s.to_multiset());
}

proof fn lemma_updated(s: Seq<ScheduledTask>, i: int, a: ScheduledTask)
    requires
        0 <= i < s.len(),
    ensures
        s.update(i, a).to_multiset() == s.to_multiset().remove(s[i]).insert(a),
{
    assert(s.update(i, a) =~= s.remove(i).insert(i, a));
    vstd::seq_lib::to_multiset_remove(s, i);
    vstd::seq_lib::to_multiset_insert(s.remove(i), i, a);
}

proof fn lemma_first_removed(s: Seq<ScheduledTask>, t: Seq<ScheduledTask>)
    requires
        s.len() > 0,
        t == s.update(0, s.last()).drop_last(),
    ensures
        t.to_multiset() == s.to_multiset().remove(s[0]),
{
    vstd::seq_lib::to_multiset_remove(s, 0);
    if s.len() == 1 {
        assert(t =~= s.remove(0));
    } else {
        let middle = s.subrange(1, s.len() - 1);
        assert(t =~= middle.insert(0, s.last()));
        assert(s.remove(0) =~= middle.push(s.last()));
        vstd::seq_lib::to_multiset_insert(middle, 0, s.last());
        vstd::seq_lib::to_multiset_build(middle, s.last());
    }
}

proof fn lemma_first_is_least(s: Seq<ScheduledTask>)
    requires
        heap_ordered(s),
    ensures
        forall|t: ScheduledTask| #[trigger] s.to_multiset().contains(t) ==> not_after(s[0], t),
{
    s.to_multiset_ensures();
    assert forall|t: ScheduledTask| #[trigger] s.to_multiset().contains(t) implies not_after(
        s[0],
        t,
    ) by {
        let i = choose|i: int| 0 <= i < s.len() && s[i] == t;
        lemma_first_not_after(s, i);
    }
}

proof fn lemma_first_not_after(s: Seq<ScheduledTask>, i: int)
    requires
        heap_ordered(s),
        0 <= i < s.len(),
    ensures
        not_after(s[0], s[i]),
    decreases i,
{
    if i > 0 {
        lemma_first_not_after(s, (i - 1) / 2);
        assert(settled(s, i));
    }
}

/// A kind comes back from its tag.
pub proof fn law_kind_round_trip(kind: ScheduledTaskKind, decoded: Option<ScheduledTaskKind>)
    requires
        match decoded {
            Some(k) => kind_tag(k) == kind_tag(kind),
            None => forall|k: ScheduledTaskKind| #[trigger] kind_tag(k) != kind_tag(kind),
        },
    ensures
        decoded == Some(kind),
{
}

/// Two heaps of the same tasks have the same snapshot, whatever the order
/// in which the tasks were pushed.
pub proof fn law_snapshot_is_deterministic(a: Seq<ScheduledTask>, b: Seq<ScheduledTask>)
    requires
        a.to_multiset() == b.to_multiset(),
        in_order(a),
        in_order(b),
    ensures
        a == b,
{
    let leq = |x: ScheduledTask, y: ScheduledTask| not_after(x, y);
    assert(vstd::relations::total_ordering(leq)) by {
        assert forall|x: ScheduledTask, y: ScheduledTask| #[trigger]
            leq(x, y) && #[trigger] leq(y, x) implies x == y by {
            assert(x.kind == ScheduledTaskKind::Reserved && y.kind == ScheduledTaskKind::Reserved);
        }
    }
    vstd::seq_lib::lemma_sorted_unique(a, b, leq);
}

/// A heap restored from a snapshot gives the tasks out in the snapshot's
/// order.
pub proof fn law_restored_tasks_come_out_in_order(
    snapshot: Seq<ScheduledTask>,
    next: Option<ScheduledTask>,
)
    requires
        in_order(snapshot),
        snapshot.len() > 0,
        is_next_due(snapshot.to_multiset(), u64::MAX, next),
    ensures
        next == Some(snapshot[0]),
        after_pop(snapshot.to_multiset(), next) == snapshot.drop_first().to_multiset(),
{
    snapshot.to_multiset_ensures();
    let first = snapshot[0];
    assert(snapshot.contains(first));
    assert(snapshot.to_multiset().contains(first));
    if let Some(task) = next {
        let i = choose|i: int| 0 <= i < snapshot.len() && snapshot[i] == task;
        assert(not_after(first, task));
        assert(not_after(task, first));
        assert(task.kind == ScheduledTaskKind::Reserved && first.kind
            == ScheduledTaskKind::Reserved);
    }
    assert(snapshot.drop_first() =~= snapshot.remove(0));
    vstd::seq_lib::to_multiset_remove(snapshot, 0);
}

/// Tasks fire in order: what is taken next never goes before what was taken
/// last, at whatever times.
pub proof fn law_tasks_fire_in_order(
    pending: Multiset<ScheduledTask>,
    now_ns: u64,
    first: ScheduledTask,
    later_ns: u64,
    second: ScheduledTask,
)
    requires
        is_next_due(pending, now_ns, Some(first)),
        is_next_due(after_pop(pending, Some(first)), later_ns, Some(second)),
    ensures
        not_after(first, second),
        pending.contains(second),
{
    assert(pending.contains(second));
}

/// Once nothing is due at some time, nothing is due at any earlier time.
pub proof fn law_drained_stays_drained(
    pending: Multiset<ScheduledTask>,
    now_ns: u64,
    earlier_ns: u64,
)
    requires
        is_next_due(pending, now_ns, None),
        earlier_ns <= now_ns,
    ensures
        is_next_due(pending, earlier_ns, None),
{
}

/// The earlier deadline goes first.
pub proof fn law_earlier_deadline_goes_first(a: ScheduledTask, b: ScheduledTask)
    requires
        a.fire_ns < b.fire_ns,
    ensures
        not_after(a, b),
        !not_after(b, a),
{
}

/// A task is due from its deadline on: where one is, a task comes out that is
/// due too and fires no later; where none is, nothing comes out.
pub proof fn law_due_from_the_deadline_on(
    pending: Multiset<ScheduledTask>,
    now_ns: u64,
    next: Option<ScheduledTask>,
    t: ScheduledTask,
)
    requires
        is_next_due(pending, now_ns, next),
        pending.contains(t),
    ensures
        t.fire_ns <= now_ns ==> (next matches Some(task) && task.fire_ns <= t.fire_ns),
        next matches Some(task) ==> pending.contains(task) && task.fire_ns <= now_ns,
{
}

/// What comes out leaves the pending tasks once; every other stays.
pub proof fn law_pop_takes_one_task(pending: Multiset<ScheduledTask>, task: ScheduledTask, t: ScheduledTask)
    requires
        pending.contains(task),
    ensures
        after_pop(pending, None) == pending,
        after_pop(pending, Some(task)).len() + 1 == pending.len(),
        t != task ==> after_pop(pending, Some(task)).count(t) == pending.count(t),
        after_pop(pending, Some(task)).count(task) + 1 == pending.count(task),
{
}

/// Kinds of their own have tags of their own; the reserved kind's is zero.
pub proof fn law_kinds_have_their_own_tags(
    kind: ScheduledTaskKind,
    other: ScheduledTaskKind,
    tag: u8,
    other_tag: u8,
)
    requires
        call_ensures(encode_kind, (kind,), tag),
        call_ensures(encode_kind, (other,), other_tag),
    ensures
        tag == other_tag <==> kind == other,
        kind is Reserved <==> tag == 0,
{
}

/// Pushing a task makes one more of it pending, and no other task more or
/// less.
pub proof fn law_push_adds_one_task(
    heap: &mut ScheduledTaskHeap,
    task: ScheduledTask,
    other: ScheduledTask,
    before: usize,
)
    requires
        call_ensures(ScheduledTaskHeap::len, (&*old(heap),), before),
        call_ensures(ScheduledTaskHeap::push, (heap, task), ()),
    ensures
        final(heap)@.count(task) == old(heap)@.count(task) + 1,
        other != task ==> final(heap)@.count(other) == old(heap)@.count(other),
        forall|n: usize|
            call_ensures(ScheduledTaskHeap::len, (&*final(heap),), n) ==> n == before + 1,
        forall|b: bool|
            call_ensures(ScheduledTaskHeap::is_empty, (&*final(heap),), b) ==> !b,
{
}

/// A task is taken at its deadline or later and no pending one has an earlier
/// deadline; none is taken only while every deadline is still to come. What
/// was taken is no longer pending; everything else is.
pub proof fn law_due_tasks_are_taken_by_deadline(
    heap: &mut ScheduledTaskHeap,
    now_ns: u64,
    next: Option<ScheduledTask>,
    other: ScheduledTask,
)
    requires
        call_ensures(ScheduledTaskHeap::pop_due, (heap, now_ns), next),
    ensures
        next matches Some(task) ==> task.fire_ns <= now_ns && old(heap)@.contains(task),
        next matches Some(task) ==> old(heap)@.contains(other) ==> task.fire_ns <= other.fire_ns,
        next is None && old(heap)@.contains(other) ==> now_ns < other.fire_ns,
        next matches Some(task) ==> final(heap)@.count(task) + 1 == old(heap)@.count(task),
        next != Some(other) ==> final(heap)@.count(other) == old(heap)@.count(other),
{
}

/// A snapshot lists every pending task as often as it is pending, with no
/// deadline before an earlier place's, and a heap restored from it holds the
/// same tasks.
#[verifier::rlimit(40)]
pub proof fn law_snapshot_is_restored(
    heap: &ScheduledTaskHeap,
    tasks: Vec<ScheduledTask>,
    restored: ScheduledTaskHeap,
)
    requires
        call_ensures(ScheduledTaskHeap::snapshot, (heap,), tasks),
        call_ensures(ScheduledTaskHeap::restore, (tasks,), restored),
    ensures
        restored@ == heap@,
        forall|i: int, j: int|
            0 <= i < j < tasks@.len() ==> tasks@[i].fire_ns <= tasks@[j].fire_ns,
{
    assert forall|i: int, j: int| 0 <= i < j < tasks@.len() implies tasks@[i].fire_ns
        <= tasks@[j].fire_ns by {
        assert(not_after(tasks@[i], tasks@[j]));
    }
}

} // verus!
