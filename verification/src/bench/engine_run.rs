//! A run against the matching engine alone: what is counted, what is kept
//! for the summary, and when the clock is read.

use vstd::prelude::*;

use super::outcomes::{OutcomeReport, Tallies};
use super::pacing::PaceStats;
use super::clock::{clamped, tsc_to_ns, TickRate};
use crate::types::{CurrencyId, ExecutionReport, InstrumentSpec, Symbol};

verus! {

/// Events between two looks at the clock. A look per event would show in
/// the latencies.
pub const DEADLINE_POLL_INTERVAL: u32 = 1024;

/// How many of the slowest events are kept.
pub const SLOWEST_N: usize = 10;

/// What every account holds of every currency: a quarter of what it can.
pub const ACCOUNT_FUNDS: u64 = 0x3fff_ffff_ffff_ffff;

/// The instrument with a number: its currencies are its own.
pub open spec fn instrument(i: int) -> InstrumentSpec {
    InstrumentSpec {
        symbol: Symbol(i as u32),
        base: CurrencyId((i * 2 - 1) as u32),
        quote: CurrencyId((i * 2) as u32),
    }
}

/// The instruments of a run, numbered from one.
pub fn instruments(n: u32) -> (specs: Vec<InstrumentSpec>)
    requires
        n <= 0x7fff_ffff,
    ensures
        specs@ == Seq::new(n as nat, |i: int| instrument(i + 1)),
{
    let mut specs: Vec<InstrumentSpec> = Vec::new();
    let mut i: u32 = 1;
    while i <= n
        invariant
            1 <= i <= n + 1,
            n <= 0x7fff_ffff,
            specs@ == Seq::new((i - 1) as nat, |j: int| instrument(j + 1)),
        decreases n + 1 - i,
    {
        specs.push(
            InstrumentSpec { symbol: Symbol(i), base: CurrencyId(i * 2 - 1), quote: CurrencyId(i * 2) },
        );
        assert(specs@ =~= Seq::new(i as nat, |j: int| instrument(j + 1)));
        i = i + 1;
    }
    specs
}

/// Spaces out the looks at the clock.
#[derive(Clone, Copy, Debug)]
pub struct DeadlinePoll {
    iter_since_check: u32,
}

impl DeadlinePoll {
    /// Events since the last look.
    pub closed spec fn events(&self) -> int {
        self.iter_since_check as int
    }

    /// No more events than an interval.
    pub open spec fn wf(&self) -> bool {
        self.events() <= DEADLINE_POLL_INTERVAL
    }

    /// At the start of an interval.
    pub fn new() -> (p: DeadlinePoll)
        ensures
            p.wf(),
            p.events() == 0,
    {
        DeadlinePoll { iter_since_check: 0 }
    }

    /// Counts the next event: whether the clock is to be read before it.
    pub fn next_event(&mut self) -> (look: bool)
        requires
            old(self).wf(),
        ensures
            final(self).wf(),
            look == (old(self).events() == DEADLINE_POLL_INTERVAL),
            final(self).events() == (if look {
                1
            } else {
                old(self).events() + 1
            }),
    {
        let look: bool = self.iter_since_check >= DEADLINE_POLL_INTERVAL;
        if look {
            self.iter_since_check = 0;
        }
        self.iter_since_check = self.iter_since_check + 1;
        look
    }
}

/// What an event of the order flow does.
#[derive(Clone, Copy, Debug, PartialEq, Eq, Structural)]
pub enum FlowKind {
    Submit,
    Cancel,
    CancelReplace,
}

/// Measured events of each kind.
#[derive(Clone, Copy, Debug, PartialEq, Eq, Structural)]
pub struct FlowCounts {
    pub submits: u64,
    pub cancels: u64,
    pub amends: u64,
}

impl FlowCounts {
    /// Events of all kinds.
    pub open spec fn events(self) -> int {
        self.submits + self.cancels + self.amends
    }

    /// No events.
    pub fn new() -> (c: FlowCounts)
        ensures
            c == (FlowCounts { submits: 0, cancels: 0, amends: 0 }),
    {
        FlowCounts { submits: 0, cancels: 0, amends: 0 }
    }

    /// Counts an event.
    pub fn record(&mut self, kind: FlowKind)
        requires
            old(self).events() < u64::MAX,
        ensures
            *final(self) == (match kind {
                FlowKind::Submit => FlowCounts {
                    submits: (old(self).submits + 1) as u64,
                    ..*old(self)
                },
                FlowKind::Cancel => FlowCounts {
                    cancels: (old(self).cancels + 1) as u64,
                    ..*old(self)
                },
                FlowKind::CancelReplace => FlowCounts {
                    amends: (old(self).amends + 1) as u64,
                    ..*old(self)
                },
            }),
            final(self).events() == old(self).events() + 1,
    {
        match kind {
            FlowKind::Submit => {
                self.submits = self.submits + 1;
            },
            FlowKind::Cancel => {
                self.cancels = self.cancels + 1;
            },
            FlowKind::CancelReplace => {
                self.amends = self.amends + 1;
            },
        }
    }

    /// Events of all kinds.
    pub fn total(&self) -> (n: u64)
        requires
            self.events() <= u64::MAX,
        ensures
            n == self.events(),
    {
        self.submits + self.cancels + self.amends
    }
}

/// One of the slowest events.
#[derive(Debug)]
pub struct SlowEntry<E> {
    pub latency_ns: u64,
    pub event: E,
    pub num_reports: usize,
    pub offset_us: u64,
}

impl<E: Copy> Clone for SlowEntry<E> {
    fn clone(&self) -> (entry: Self)
        ensures
            entry == *self,
    {
        *self
    }
}

impl<E: Copy> Copy for SlowEntry<E> {
}

/// How many numbers exceed a bound.
pub open spec fn above(s: Seq<u64>, bound: int) -> nat
    decreases s.len(),
{
    if s.len() == 0 {
        0
    } else {
        above(s.drop_last(), bound) + (if s.last() > bound {
            1nat
        } else {
            0nat
        })
    }
}

/// The latencies of some entries.
pub open spec fn latencies<E>(entries: Seq<SlowEntry<E>>) -> Seq<u64> {
    entries.map_values(|e: SlowEntry<E>| e.latency_ns)
}

/// Whether some latencies are the slowest of all that were seen: above any
/// bound there are as many of them as were seen, up to their number.
pub open spec fn are_slowest(kept: Seq<u64>, seen: Seq<u64>) -> bool {
    &&& kept.len() == (if seen.len() < SLOWEST_N {
        seen.len() as int
    } else {
        SLOWEST_N as int
    })
    &&& forall|bound: int|
        above(kept, bound) == (if #[trigger] above(seen, bound) < SLOWEST_N {
            above(seen, bound)
        } else {
            SLOWEST_N as nat
        })
}

/// Keeps the slowest events of a run.
pub struct Slowest<E> {
    entries: Vec<SlowEntry<E>>,
    seen: Ghost<Seq<u64>>,
}

impl<E: Copy> Slowest<E> {
    /// Latencies of all events so far.
    pub closed spec fn seen(&self) -> Seq<u64> {
        self.seen@
    }

    /// The events that are kept.
    pub closed spec fn kept(&self) -> Seq<SlowEntry<E>> {
        self.entries@
    }

    /// The kept events are the slowest ones.
    pub open spec fn wf(&self) -> bool {
        are_slowest(latencies(self.kept()), self.seen())
    }

    /// No events.
    pub fn new() -> (s: Slowest<E>)
        ensures
            s.wf(),
            s.seen() == Seq::<u64>::empty(),
            s.kept() == Seq::<SlowEntry<E>>::empty(),
    {
        let s = Slowest { entries: Vec::new(), seen: Ghost(Seq::empty()) };
        assert(latencies(s.kept()) =~= Seq::empty());
        s
    }

    /// Whether an event with a latency is among the slowest so far, and so
    /// is to be handed in with its details.
    pub fn is_among(&self, latency_ns: u64) -> (b: bool)
        requires
            self.wf(),
        ensures
            b == (self.kept().len() < SLOWEST_N || exists|i: int|
                0 <= i < self.kept().len() && (#[trigger] self.kept()[i]).latency_ns < latency_ns),
    {
        if self.entries.len() < SLOWEST_N {
            return true;
        }
        let i: usize = self.fastest();
        if latency_ns > self.entries[i].latency_ns {
            assert(self.kept()[i as int].latency_ns < latency_ns);
            true
        } else {
            false
        }
    }

    /// Takes an event. Where there are enough others it takes the place of
    /// the fastest of them, or is not kept.
    pub fn offer(&mut self, entry: SlowEntry<E>)
        requires
            old(self).wf(),
        ensures
            final(self).wf(),
            final(self).seen() == old(self).seen().push(entry.latency_ns),
            ({
                let kept = old(self).kept();
                ||| kept.len() < SLOWEST_N && final(self).kept() == kept.push(entry)
                ||| kept.len() == SLOWEST_N && (forall|i: int|
                    0 <= i < kept.len() ==> entry.latency_ns <= (#[trigger] kept[i]).latency_ns)
                    && final(self).kept() == kept
                ||| kept.len() == SLOWEST_N && exists|i: int|
                    0 <= i < kept.len() && kept[i].latency_ns < entry.latency_ns && (forall|j: int|
                        0 <= j < kept.len() ==> kept[i].latency_ns <= (
                        #[trigger] kept[j]).latency_ns) && final(self).kept()
                        == #[trigger] kept.update(i, entry)
            }),
    {
        let ghost kept = self.entries@;
        let ghost before = latencies(kept);
        let ghost seen = self.seen@;
        self.seen = Ghost(seen.push(entry.latency_ns));
        if self.entries.len() < SLOWEST_N {
            self.entries.push(entry);
            proof {
                assert(latencies(self.entries@) =~= before.push(entry.latency_ns));
                law_handed_in_keeps_the_slowest(
                    before,
                    seen,
                    entry.latency_ns,
                    latencies(self.entries@),
                );
            }
            return;
        }
        let i: usize = self.fastest();
        let least: u64 = self.entries[i].latency_ns;
        if entry.latency_ns > least {
            self.entries.set(i, entry);
        }
        proof {
            if entry.latency_ns > least {
                assert(self.entries@ == kept.update(i as int, entry));
                assert(latencies(self.entries@) =~= before.update(i as int, entry.latency_ns));
            } else {
                assert(latencies(self.entries@) =~= before);
            }
            law_handed_in_keeps_the_slowest(
                before,
                seen,
                entry.latency_ns,
                latencies(self.entries@),
            );
        }
    }

    /// The place of an entry with the least latency.
    fn fastest(&self) -> (i: usize)
        requires
            self.entries@.len() > 0,
        ensures
            i < self.entries@.len(),
            forall|j: int|
                0 <= j < self.entries@.len() ==> self.entries@[i as int].latency_ns <= (
                #[trigger] self.entries@[j]).latency_ns,
    {
        let mut i: usize = 0;
        let mut j: usize = 1;
        while j < self.entries.len()
            invariant
                i < self.entries@.len(),
                1 <= j <= self.entries@.len(),
                forall|k: int|
                    0 <= k < j ==> self.entries@[i as int].latency_ns <= (
                    #[trigger] self.entries@[k]).latency_ns,
            decreases self.entries@.len() - j,
        {
            if self.entries[j].latency_ns < self.entries[i].latency_ns {
                i = j;
            }
            j = j + 1;
        }
        i
    }

    /// The slowest events, the slowest first.
    pub fn sorted(&self) -> (v: Vec<SlowEntry<E>>)
        ensures
            v@.len() == self.kept().len(),
            v@.to_multiset() == self.kept().to_multiset(),
            forall|i: int, j: int|
                0 <= i < j < v@.len() ==> (#[trigger] v@[i]).latency_ns >= (
                #[trigger] v@[j]).latency_ns,
    {
        let mut v: Vec<SlowEntry<E>> = Vec::new();
        let mut n: usize = 0;
        proof {
            self.entries@.take(0).to_multiset_ensures();
            v@.to_multiset_ensures();
            assert(v@.to_multiset() =~= self.entries@.take(0).to_multiset());
        }
        while n < self.entries.len()
            invariant
                0 <= n <= self.entries@.len(),
                v@.len() == n,
                v@.to_multiset() == self.entries@.take(n as int).to_multiset(),
                forall|i: int, j: int|
                    0 <= i < j < v@.len() ==> (#[trigger] v@[i]).latency_ns >= (
                    #[trigger] v@[j]).latency_ns,
            decreases self.entries@.len() - n,
        {
            let entry: SlowEntry<E> = self.entries[n];
            let mut p: usize = 0;
            while p < v.len() && v[p].latency_ns >= entry.latency_ns
                invariant
                    0 <= p <= v@.len(),
                    forall|i: int|
                        0 <= i < p ==> (#[trigger] v@[i]).latency_ns >= entry.latency_ns,
                decreases v@.len() - p,
            {
                p = p + 1;
            }
            let ghost before = v@;
            v.insert(p, entry);
            proof {
                vstd::seq_lib::to_multiset_insert(before, p as int, entry);
                assert(self.entries@.take(n + 1) =~= self.entries@.take(n as int).push(entry));
                self.entries@.take(n as int).to_multiset_ensures();
            }
            n = n + 1;
        }
        assert(self.entries@.take(n as int) =~= self.entries@);
        v
    }
}

proof fn lemma_above_bounded(s: Seq<u64>, bound: int)
    ensures
        above(s, bound) <= s.len(),
    decreases s.len(),
{
    if s.len() > 0 {
        lemma_above_bounded(s.drop_last(), bound);
    }
}

proof fn lemma_above_all(s: Seq<u64>, bound: int)
    requires
        forall|i: int| 0 <= i < s.len() ==> s[i] > bound,
    ensures
        above(s, bound) == s.len(),
    decreases s.len(),
{
    if s.len() > 0 {
        lemma_above_all(s.drop_last(), bound);
    }
}

proof fn lemma_above_not_all(s: Seq<u64>, bound: int, i: int)
    requires
        0 <= i < s.len(),
        s[i] <= bound,
    ensures
        above(s, bound) < s.len(),
    decreases s.len(),
{
    if i == s.len() - 1 {
        lemma_above_bounded(s.drop_last(), bound);
    } else {
        lemma_above_not_all(s.drop_last(), bound, i);
    }
}

proof fn lemma_above_updated(s: Seq<u64>, i: int, v: u64, bound: int)
    requires
        0 <= i < s.len(),
    ensures
        above(s.update(i, v), bound) == above(s, bound) - (if s[i] > bound {
            1int
        } else {
            0
        }) + (if v > bound {
            1int
        } else {
            0
        }),
    decreases s.len(),
{
    let t = s.update(i, v);
    if i == s.len() - 1 {
        assert(t.drop_last() =~= s.drop_last());
    } else {
        lemma_above_updated(s.drop_last(), i, v, bound);
        assert(t.drop_last() =~= s.drop_last().update(i, v));
    }
}

/// An event that is not among the slowest may be passed over: the kept ones
/// are the slowest with it, too.
pub proof fn law_passed_over_is_not_among_the_slowest(
    kept: Seq<u64>,
    seen: Seq<u64>,
    latency_ns: u64,
)
    requires
        are_slowest(kept, seen),
        kept.len() == SLOWEST_N,
        forall|i: int| 0 <= i < kept.len() ==> latency_ns <= #[trigger] kept[i],
    ensures
        are_slowest(kept, seen.push(latency_ns)),
{
    let all = seen.push(latency_ns);
    assert forall|bound: int|
        above(kept, bound) == (if #[trigger] above(all, bound) < SLOWEST_N {
            above(all, bound)
        } else {
            SLOWEST_N as nat
        }) by {
        assert(all.drop_last() =~= seen);
        assert(above(seen, bound) >= 0);
        if latency_ns > bound {
            lemma_above_all(kept, bound);
        }
    }
}

/// An event that is handed in leaves the slowest of all events, whatever was
/// passed over before: with room it is kept as well, and else it takes the
/// place of the fastest if it is slower.
pub proof fn law_handed_in_keeps_the_slowest(
    kept: Seq<u64>,
    seen: Seq<u64>,
    latency_ns: u64,
    after: Seq<u64>,
)
    requires
        are_slowest(kept, seen),
        ({
            ||| kept.len() < SLOWEST_N && after == kept.push(latency_ns)
            ||| kept.len() == SLOWEST_N && after == kept && (forall|i: int|
                0 <= i < kept.len() ==> latency_ns <= #[trigger] kept[i])
            ||| kept.len() == SLOWEST_N && exists|i: int|
                0 <= i < kept.len() && kept[i] < latency_ns && (forall|j: int|
                    0 <= j < kept.len() ==> kept[i] <= #[trigger] kept[j]) && after
                    == #[trigger] kept.update(i, latency_ns)
        }),
    ensures
        are_slowest(after, seen.push(latency_ns)),
{
    let all = seen.push(latency_ns);
    if kept.len() == SLOWEST_N && after == kept && (forall|i: int|
        0 <= i < kept.len() ==> latency_ns <= #[trigger] kept[i]) {
        law_passed_over_is_not_among_the_slowest(kept, seen, latency_ns);
    } else {
        assert forall|bound: int|
            above(after, bound) == (if #[trigger] above(all, bound) < SLOWEST_N {
                above(all, bound)
            } else {
                SLOWEST_N as nat
            }) by {
            assert(all.drop_last() =~= seen);
            lemma_above_bounded(seen, bound);
            assert(above(kept, bound) == (if above(seen, bound) < SLOWEST_N {
                above(seen, bound)
            } else {
                SLOWEST_N as nat
            }));
            if kept.len() < SLOWEST_N {
                assert(after.drop_last() =~= kept);
            } else {
                let i = choose|i: int|
                    0 <= i < kept.len() && kept[i] < latency_ns && (forall|j: int|
                        0 <= j < kept.len() ==> kept[i] <= #[trigger] kept[j]) && after
                        == #[trigger] kept.update(i, latency_ns);
                lemma_above_updated(kept, i, latency_ns, bound);
                if kept[i] > bound {
                    lemma_above_all(kept, bound);
                } else {
                    lemma_above_not_all(kept, bound, i);
                }
            }
        }
    }
}

/// Tallies after the reports of one event.
pub open spec fn tallied(t: Tallies, reports: Seq<ExecutionReport>) -> Tallies
    decreases reports.len(),
{
    if reports.len() == 0 {
        t
    } else {
        tallied(t, reports.drop_last()).with_report(reports.last())
    }
}

/// Counts one event: a request acknowledged, and the reports that it caused.
pub fn count_event(outcomes: &mut OutcomeReport, reports: &[ExecutionReport])
    requires
        old(outcomes)@.within(u64::MAX - 1 - reports@.len()),
    ensures
        final(outcomes)@ == tallied(
            (Tallies { batch_ends: old(outcomes)@.batch_ends + 1, ..old(outcomes)@ }),
            reports@,
        ),
{
    outcomes.batch_ends = outcomes.batch_ends + 1;
    let ghost start = (Tallies { batch_ends: old(outcomes)@.batch_ends + 1, ..old(outcomes)@ });
    assert(outcomes@ =~= start);
    assert(reports@.take(0) =~= Seq::empty());
    assert(start.within(u64::MAX - reports@.len())) by {
        assert forall|i: int| 0 <= i < 22 implies #[trigger] start.reasons[i] <= u64::MAX
            - reports@.len() by {
            assert(old(outcomes)@.reasons[i] <= u64::MAX - 1 - reports@.len());
        }
    }
    let mut i: usize = 0;
    while i < reports.len()
        invariant
            0 <= i <= reports@.len(),
            outcomes@ == tallied(start, reports@.take(i as int)),
            outcomes@.within(u64::MAX - reports@.len() + i),
        decreases reports@.len() - i,
    {
        let ghost before = outcomes@;
        assert(outcomes.room());
        outcomes.record_execution_report(&reports[i]);
        proof {
            assert(reports@.take(i + 1).drop_last() =~= reports@.take(i as int));
            assert(reports@.take(i + 1).last() == reports@[i as int]);
            let bound = u64::MAX - reports@.len() + i;
            assert forall|k: int| 0 <= k < 22 implies #[trigger] outcomes@.reasons[k] <= bound + 1 by {
                assert(before.reasons[k] <= bound);
            }
        }
        i = i + 1;
    }
    assert(reports@.take(i as int) =~= reports@);
}

/// The measured wall time of an engine run: the time since its start, but no
/// longer than the measured phase.
pub fn capped_wall(elapsed: u128, measured: u128) -> (wall: u128)
    ensures
        wall == (if elapsed < measured {
            elapsed
        } else {
            measured
        }),
{
    if elapsed < measured {
        elapsed
    } else {
        measured
    }
}

/// What pacing did over a run, with the longest delay in nanoseconds. A run
/// without a target rate has nothing to tell.
pub fn pacing_outcome(target_rate: u64, stats: &PaceStats, rate: &TickRate) -> (r: Option<
    (u64, u64, u64),
>)
    requires
        rate.wf(),
    ensures
        target_rate == 0 ==> r is None,
        target_rate > 0 ==> {
            &&& r matches Some((scheduled, late, delay_ns))
            &&& scheduled == stats.scheduled
            &&& late == stats.late_sends
            &&& delay_ns == clamped(rate.nanos_in(stats.max_send_delay_ticks as int))
        },
{
    if target_rate == 0 {
        None
    } else {
        Some((stats.scheduled, stats.late_sends, tsc_to_ns(stats.max_send_delay_ticks, rate)))
    }
}

/// Where as many events as are kept took at least some time, so did every
/// one that is kept: none that is kept is faster than one that is not.
pub proof fn law_kept_events_are_the_slowest(kept: Seq<u64>, seen: Seq<u64>, i: int, time: int)
    requires
        are_slowest(kept, seen),
        0 <= i < kept.len(),
        above(seen, time - 1) >= SLOWEST_N,
    ensures
        time <= kept[i],
{
    if kept[i] < time {
        lemma_above_not_all(kept, time - 1, i);
        assert(above(seen, time - 1) >= SLOWEST_N);
    }
}

/// The instrument with a number goes by it and has two currencies that no
/// other instrument has.
pub proof fn law_instruments_have_their_own_currencies(i: int, j: int)
    requires
        1 <= i < j <= 0x7fff_ffff,
    ensures
        instrument(i).symbol.0 == i,
        instrument(i).base.0 + 1 == instrument(i).quote.0,
        instrument(i).quote.0 == 2 * i,
        instrument(i).quote.0 < instrument(j).base.0,
{
}

/// What exceeds a bound is counted over two runs of numbers as over each.
pub proof fn law_counts_above_add_up(a: Seq<u64>, b: Seq<u64>, bound: int, n: u64)
    ensures
        above(a + b, bound) == above(a, bound) + above(b, bound),
        above(Seq::empty(), bound) == 0,
        n > bound ==> above(seq![n], bound) == 1,
        n <= bound ==> above(seq![n], bound) == 0,
    decreases b.len(),
{
    reveal_with_fuel(above, 2);
    assert(seq![n].drop_last() =~= Seq::<u64>::empty());
    if b.len() == 0 {
        assert(a + b =~= a);
    } else {
        assert((a + b).drop_last() =~= a + b.drop_last());
        law_counts_above_add_up(a, b.drop_last(), bound, n);
    }
}

/// Reports are counted one after the other: two runs of them as one run and
/// then the other.
pub proof fn law_reports_are_counted_one_by_one(
    t: Tallies,
    a: Seq<ExecutionReport>,
    b: Seq<ExecutionReport>,
    report: ExecutionReport,
)
    ensures
        tallied(t, a + b) == tallied(tallied(t, a), b),
        tallied(t, Seq::empty()) == t,
        tallied(t, seq![report]) == t.with_report(report),
    decreases b.len(),
{
    reveal_with_fuel(tallied, 2);
    assert(seq![report].drop_last() =~= Seq::<ExecutionReport>::empty());
    if b.len() == 0 {
        assert(a + b =~= a);
    } else {
        assert((a + b).drop_last() =~= a + b.drop_last());
        law_reports_are_counted_one_by_one(t, a, b.drop_last(), report);
    }
}

/// The clock is read once for every 1024 events, and not before as many went
/// by.
pub proof fn law_clock_is_read_once_an_interval(p: &mut DeadlinePoll, look: bool)
    requires
        call_ensures(DeadlinePoll::next_event, (p,), look),
        old(p).events() <= 1024,
    ensures
        look <==> old(p).events() == 1024,
        !look ==> final(p).events() - old(p).events() == 1,
        look ==> final(p).events() == 1,
{
}

/// An event raises the count of its kind by one and no other.
pub proof fn law_event_raises_its_own_count(c: &mut FlowCounts, kind: FlowKind)
    requires
        old(c).submits + old(c).cancels + old(c).amends < u64::MAX,
        call_ensures(FlowCounts::record, (c, kind), ()),
    ensures
        final(c).submits - old(c).submits == (if kind is Submit {
            1int
        } else {
            0
        }),
        final(c).cancels - old(c).cancels == (if kind is Cancel {
            1int
        } else {
            0
        }),
        final(c).amends - old(c).amends == (if kind is CancelReplace {
            1int
        } else {
            0
        }),
        forall|n: u64|
            call_ensures(FlowCounts::total, (&*final(c),), n) ==> n == old(c).submits + old(
                c,
            ).cancels + old(c).amends + 1,
{
}

/// The wall time is the shorter of the two times; pacing tells what was
/// counted, where there was a rate to keep.
pub proof fn law_wall_time_is_the_shorter(
    elapsed: u128,
    measured: u128,
    wall: u128,
    target_rate: u64,
    stats: &PaceStats,
    rate: &TickRate,
    told: Option<(u64, u64, u64)>,
    delay: u64,
)
    requires
        rate.wf(),
        call_ensures(capped_wall, (elapsed, measured), wall),
        call_ensures(pacing_outcome, (target_rate, stats, rate), told),
        call_ensures(tsc_to_ns, (stats.max_send_delay_ticks, rate), delay),
    ensures
        wall <= elapsed,
        wall <= measured,
        wall == elapsed || wall == measured,
        told is None <==> target_rate == 0,
        told matches Some((scheduled, late, longest)) ==> scheduled == stats.scheduled && late
            == stats.late_sends && longest == delay,
{
}

/// Up to ten events are kept. An event that is offered is kept where there is
/// room or a faster one is kept, which then leaves, and no kept one is faster.
#[verifier::rlimit(40)]
pub proof fn law_faster_events_give_way<E: Copy>(
    s: &mut Slowest<E>,
    entry: SlowEntry<E>,
    among: bool,
)
    requires
        old(s).wf(),
        call_ensures(Slowest::<E>::is_among, (&*old(s), entry.latency_ns), among),
        call_ensures(Slowest::<E>::offer, (s, entry), ()),
    ensures
        final(s).kept().len() <= 10,
        old(s).kept().len() < 10 ==> among && final(s).kept() == old(s).kept().push(entry),
        among ==> final(s).kept().contains(entry),
        !among ==> final(s).kept() == old(s).kept() && old(s).kept().len() == 10,
        !among ==> forall|i: int|
            0 <= i < old(s).kept().len() ==> entry.latency_ns <= (#[trigger] old(
                s,
            ).kept()[i]).latency_ns,
        old(s).kept().len() == 10 ==> final(s).kept().len() == 10,
        final(s).seen() == old(s).seen().push(entry.latency_ns),
{
    let kept = old(s).kept();
    assert(kept.len() == latencies(kept).len());
    if kept.len() < 10 {
        assert(final(s).kept() == kept.push(entry));
        assert(final(s).kept()[kept.len() as int] == entry);
    } else if among {
        let i = choose|i: int|
            0 <= i < kept.len() && kept[i].latency_ns < entry.latency_ns && final(s).kept()
                == #[trigger] kept.update(i, entry);
        assert(final(s).kept()[i] == entry);
    }
}

/// The slowest events are listed with the slowest first, each of them once.
pub proof fn law_slowest_are_listed_first<E: Copy>(s: &Slowest<E>, v: Vec<SlowEntry<E>>)
    requires
        call_ensures(Slowest::<E>::sorted, (s,), v),
    ensures
        v@.len() == s.kept().len(),
        forall|e: SlowEntry<E>|
            #[trigger] v@.to_multiset().count(e) == s.kept().to_multiset().count(e),
        forall|i: int, j: int|
            0 <= i < j < v@.len() ==> (#[trigger] v@[j]).latency_ns <= (#[trigger] v@[i]).latency_ns,
{
}

/// The instruments of a run are numbered from one, with two currencies of
/// their own each, which no other has.
pub proof fn law_run_lists_its_instruments(n: u32, specs: Vec<InstrumentSpec>, i: int, j: int)
    requires
        n <= 0x7fff_ffff,
        call_ensures(instruments, (n,), specs),
        0 <= i < j < n,
    ensures
        specs@.len() == n,
        specs@[i].symbol.0 == i + 1,
        specs@[i].base.0 + 1 == specs@[i].quote.0,
        specs@[i].quote.0 < specs@[j].base.0,
{
    law_instruments_have_their_own_currencies(i + 1, j + 1);
}

/// An event counts as one acknowledged request, with each of its reports.
pub proof fn law_event_is_counted_with_its_reports(
    outcomes: &mut OutcomeReport,
    reports: &[ExecutionReport],
    report: ExecutionReport,
)
    requires
        call_ensures(count_event, (outcomes, reports), ()),
    ensures
        reports@.len() == 0 ==> final(outcomes)@ == (Tallies {
            batch_ends: old(outcomes)@.batch_ends + 1,
            ..old(outcomes)@
        }),
        reports@ == seq![report] ==> final(outcomes)@ == (Tallies {
            batch_ends: old(outcomes)@.batch_ends + 1,
            ..old(outcomes)@
        }).with_report(report),
{
    let acknowledged = Tallies {
        batch_ends: old(outcomes)@.batch_ends + 1,
        ..old(outcomes)@
    };
    law_reports_are_counted_one_by_one(acknowledged, Seq::empty(), Seq::empty(), report);
    if reports@.len() == 0 {
        assert(reports@ =~= Seq::empty());
    }
}

} // verus!
