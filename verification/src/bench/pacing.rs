//! Open-loop pacing.
//!
//! Requests go out on a fixed schedule rather than as fast as the server
//! acknowledges them, and latency counts from the scheduled time. Otherwise a
//! server that stalls would hide it by slowing its clients.

use vstd::prelude::*;

use super::clock::{clamped, TickRate};

verus! {

/// A send later than this past its schedule counts as late.
pub const PACE_LATE_SLACK_NS: u64 = 1_000_000;

/// A fraction rounded to the nearest whole, halves up.
pub open spec fn rounded(n: int, d: int) -> int {
    (2 * n + d) / (2 * d)
}

/// Ticks between two sends of one connection: the aggregate rate is split
/// among the connections. It is never zero.
pub open spec fn period_of(target_rate: u64, clients: u64, rate: TickRate) -> int {
    let period = rounded(
        1_000_000_000 * clients * rate.span_ticks(),
        target_rate * rate.span_nanos(),
    );
    if period < 1 {
        1
    } else {
        clamped(period)
    }
}

/// How much later than the others a connection starts: a share of one period
/// by its number.
pub open spec fn stagger_of(period: int, conn_index: u64, clients: u64) -> int {
    clamped(period * conn_index) / (clients as int)
}

/// The send after a scheduled one.
pub open spec fn step(due: int, period: int) -> int {
    clamped(due + period)
}

/// Schedule of one connection, in counter ticks.
#[derive(Clone, Copy, Debug)]
pub struct PaceClock {
    period_ticks: u64,
    next_due_ticks: u64,
}

impl PaceClock {
    /// Ticks between two sends.
    pub closed spec fn period(&self) -> int {
        self.period_ticks as int
    }

    /// The next scheduled send.
    pub closed spec fn next_due(&self) -> int {
        self.next_due_ticks as int
    }

    /// A schedule for one of `clients` connections that together send at
    /// `target_rate` per second from `start_tsc` on.
    pub fn new(
        target_rate: u64,
        clients: u64,
        rate: &TickRate,
        start_tsc: u64,
        conn_index: u64,
    ) -> (pacer: PaceClock)
        requires
            target_rate > 0,
            clients > 0,
            rate.wf(),
        ensures
            pacer.period() == period_of(target_rate, clients, *rate),
            pacer.next_due() == clamped(
                start_tsc + stagger_of(pacer.period(), conn_index, clients),
            ),
    {
        let parts = rate.parts();
        let ghost spread: int = 1_000_000_000 * clients * rate.span_ticks();
        let ghost share: int = target_rate * rate.span_nanos();
        proof {
            lemma_period_fits(target_rate, clients, parts.0, parts.1);
        }
        let numerator: u128 = 1_000_000_000u128 * clients as u128 * parts.0 as u128;
        let denominator: u128 = target_rate as u128 * parts.1 as u128;
        assert(numerator == spread);
        assert(denominator == share);
        let period: u128 = (2 * numerator + denominator) / (2 * denominator);
        let period_ticks: u64 = if period < 1 {
            1
        } else if period > u64::MAX as u128 {
            u64::MAX
        } else {
            period as u64
        };
        assert(period_ticks * conn_index <= 0xffff_ffff_ffff_ffff * 0xffff_ffff_ffff_ffff)
            by (nonlinear_arith)
            requires
                0 <= period_ticks <= 0xffff_ffff_ffff_ffff,
                0 <= conn_index <= 0xffff_ffff_ffff_ffff,
        ;
        let product: u128 = period_ticks as u128 * conn_index as u128;
        let offset: u64 = (if product > u64::MAX as u128 {
            u64::MAX
        } else {
            product as u64
        }) / clients;
        let due: u128 = start_tsc as u128 + offset as u128;
        let next_due_ticks: u64 = if due > u64::MAX as u128 {
            u64::MAX
        } else {
            due as u64
        };
        PaceClock { period_ticks, next_due_ticks }
    }

    /// The next scheduled send, where it is due: its scheduled tick, not the
    /// current one.
    pub fn pop_due(&mut self, now_ticks: u64) -> (due: Option<u64>)
        ensures
            final(self).period() == old(self).period(),
            if now_ticks >= old(self).next_due() {
                &&& due == Some(old(self).next_due() as u64)
                &&& final(self).next_due() == step(old(self).next_due(), old(self).period())
            } else {
                &&& due is None
                &&& final(self).next_due() == old(self).next_due()
            },
    {
        if now_ticks >= self.next_due_ticks {
            Some(self.advance())
        } else {
            None
        }
    }

    /// The next scheduled send, due or not.
    pub fn advance(&mut self) -> (due: u64)
        ensures
            final(self).period() == old(self).period(),
            due == old(self).next_due(),
            final(self).next_due() == step(old(self).next_due(), old(self).period()),
    {
        let scheduled: u64 = self.next_due_ticks;
        let next: u128 = scheduled as u128 + self.period_ticks as u128;
        self.next_due_ticks = if next > u64::MAX as u128 {
            u64::MAX
        } else {
            next as u64
        };
        scheduled
    }

    /// Takes the last send back, so that its slot is given out again.
    pub fn unpop(&mut self)
        ensures
            final(self).period() == old(self).period(),
            final(self).next_due() == (if old(self).next_due() > old(self).period() {
                old(self).next_due() - old(self).period()
            } else {
                0
            }),
    {
        self.next_due_ticks = if self.next_due_ticks > self.period_ticks {
            self.next_due_ticks - self.period_ticks
        } else {
            0
        };
    }

    /// Ticks between two sends.
    pub fn period_ticks(&self) -> (ticks: u64)
        ensures
            ticks == self.period(),
    {
        self.period_ticks
    }

    /// The next scheduled send.
    pub fn next_due_ticks(&self) -> (ticks: u64)
        ensures
            ticks == self.next_due(),
    {
        self.next_due_ticks
    }
}

/// What pacing did over a run.
#[derive(Clone, Copy, Debug, PartialEq, Eq, Structural)]
pub struct PaceStats {
    /// Sends past their schedule and the slack.
    pub late_sends: u64,
    /// The longest delay past a schedule, in ticks.
    pub max_send_delay_ticks: u64,
    /// Scheduled sends.
    pub scheduled: u64,
}

impl Default for PaceStats {
    fn default() -> (stats: PaceStats)
        ensures
            stats == (PaceStats { late_sends: 0, max_send_delay_ticks: 0, scheduled: 0 }),
    {
        PaceStats { late_sends: 0, max_send_delay_ticks: 0, scheduled: 0 }
    }
}

/// A counter after one more, back at zero past its last value.
pub open spec fn counted(n: u64) -> u64 {
    if n == u64::MAX {
        0
    } else {
        (n + 1) as u64
    }
}

/// The delay of a send past its schedule.
pub open spec fn delay_of(now: u64, scheduled: u64) -> int {
    if now > scheduled {
        now - scheduled
    } else {
        0
    }
}

impl PaceStats {
    /// These statistics with one send more.
    pub open spec fn with_send(self, now: u64, scheduled: u64, rate: TickRate) -> PaceStats {
        let delay = delay_of(now, scheduled);
        PaceStats {
            late_sends: if delay > clamped(rate.ticks_in(PACE_LATE_SLACK_NS as int)) {
                counted(self.late_sends)
            } else {
                self.late_sends
            },
            max_send_delay_ticks: if delay > self.max_send_delay_ticks {
                delay as u64
            } else {
                self.max_send_delay_ticks
            },
            scheduled: counted(self.scheduled),
        }
    }

    /// Counts a send at `now_ticks` that was scheduled at `scheduled_ticks`.
    pub fn record_send(&mut self, now_ticks: u64, scheduled_ticks: u64, rate: &TickRate)
        requires
            rate.wf(),
        ensures
            *final(self) == old(self).with_send(now_ticks, scheduled_ticks, *rate),
    {
        let delay: u64 = if now_ticks > scheduled_ticks {
            now_ticks - scheduled_ticks
        } else {
            0
        };
        if delay > self.max_send_delay_ticks {
            self.max_send_delay_ticks = delay;
        }
        let slack: u64 = rate.ns_to_tsc(PACE_LATE_SLACK_NS);
        if delay > slack {
            self.late_sends = if self.late_sends == u64::MAX {
                0
            } else {
                self.late_sends + 1
            };
        }
        self.scheduled = if self.scheduled == u64::MAX {
            0
        } else {
            self.scheduled + 1
        };
    }
}

proof fn lemma_period_fits(target_rate: u64, clients: u64, ticks: u32, nanos: u32)
    requires
        target_rate > 0,
        nanos > 0,
    ensures
        0 <= 1_000_000_000 * clients <= 0x4000_0000 * 0xffff_ffff_ffff_ffff,
        0 <= 1_000_000_000 * clients * ticks <= 0x4000_0000 * 0xffff_ffff_ffff_ffff * 0xffff_ffff,
        0 < target_rate * nanos <= 0xffff_ffff_ffff_ffff * 0xffff_ffff,
{
    let spread: int = 1_000_000_000 * clients;
    assert(0 <= spread * ticks <= 0x4000_0000 * 0xffff_ffff_ffff_ffff * 0xffff_ffff)
        by (nonlinear_arith)
        requires
            0 <= spread <= 0x4000_0000 * 0xffff_ffff_ffff_ffff,
            0 <= ticks <= 0xffff_ffff,
    ;
    assert(0 < target_rate * nanos <= 0xffff_ffff_ffff_ffff * 0xffff_ffff) by (nonlinear_arith)
        requires
            0 < target_rate <= 0xffff_ffff_ffff_ffff,
            0 < nanos <= 0xffff_ffff,
    ;
}

/// Taking a send back gives its slot out again, unless the schedule had
/// reached its end.
pub proof fn law_unpop_reverses_advance(due: int, period: int)
    requires
        due >= 0,
        period >= 1,
        due + period <= u64::MAX,
    ensures
        ({
            let next = step(due, period);
            (if next > period {
                next - period
            } else {
                0
            }) == due
        }),
{
}

/// A connection's first send comes within one period of the start.
pub proof fn law_stagger_stays_within_period(period: int, conn_index: u64, clients: u64)
    requires
        period >= 1,
        conn_index < clients,
    ensures
        0 <= stagger_of(period, conn_index, clients) < period,
{
    let product = period * conn_index;
    let c = clients as int;
    assert(0 <= product < period * c) by (nonlinear_arith)
        requires
            product == period * conn_index,
            period >= 1,
            0 <= conn_index < c,
    ;
    let held = clamped(product);
    vstd::arithmetic::div_mod::lemma_div_pos_is_pos(held, c);
    vstd::arithmetic::div_mod::lemma_fundamental_div_mod(held, c);
    vstd::arithmetic::div_mod::lemma_mod_bound(held, c);
    let q = held / c;
    if q >= period {
        assert(c * q >= c * period) by (nonlinear_arith)
            requires
                q >= period,
                c > 0,
        ;
        assert(c * period == period * c) by (nonlinear_arith);
    }
}

/// A schedule is a fixed one: the send after `n` others is due `n` periods
/// after the first, as long as the counter lasts.
pub open spec fn due_after(first: int, period: int, n: nat) -> int
    decreases n,
{
    if n == 0 {
        first
    } else {
        step(due_after(first, period, (n - 1) as nat), period)
    }
}

/// The send after `n` others is due exactly `n` periods after the first,
/// whatever delays occurred between.
pub proof fn law_schedule_is_even(first: int, period: int, n: nat)
    requires
        first >= 0,
        period >= 1,
        first + n * period <= u64::MAX,
    ensures
        due_after(first, period, n) == first + n * period,
    decreases n,
{
    if n > 0 {
        let m = (n - 1) as nat;
        assert(n * period == m * period + period) by (nonlinear_arith)
            requires
                n == m + 1,
        ;
        law_schedule_is_even(first, period, m);
    } else {
        assert(0 * period == 0);
    }
}

/// The sends of all connections together keep the target rate: a period is the
/// connections' share of a second, off by at most half a tick.
pub proof fn law_period_keeps_the_target_rate(target_rate: u64, clients: u64, rate: TickRate)
    requires
        target_rate > 0,
        rate.wf(),
        1 < period_of(target_rate, clients, rate) < u64::MAX,
    ensures
        ({
            let period = period_of(target_rate, clients, rate);
            let second = 1_000_000_000 * clients * rate.span_ticks();
            let share = target_rate * rate.span_nanos();
            (2 * period - 1) * share <= 2 * second < (2 * period + 1) * share
        }),
{
    let second = 1_000_000_000 * clients * rate.span_ticks();
    let share = target_rate * rate.span_nanos();
    let p = rounded(second, share);
    assert(share > 0) by (nonlinear_arith)
        requires
            share == target_rate * rate.span_nanos(),
            target_rate > 0,
            rate.span_nanos() > 0,
    ;
    let (a, d) = (2 * second + share, 2 * share);
    vstd::arithmetic::div_mod::lemma_fundamental_div_mod(a, d);
    vstd::arithmetic::div_mod::lemma_mod_bound(a, d);
    let r = a % d;
    assert((2 * p - 1) * share <= 2 * second < (2 * p + 1) * share) by (nonlinear_arith)
        requires
            2 * second + share == d * p + r,
            d == 2 * share,
            0 <= r < d,
    ;
}

/// Connections start evenly spread over one period: each at its share of it by
/// its number, off by less than a tick.
pub proof fn law_starts_are_spread_evenly(period: int, conn_index: u64, clients: u64)
    requires
        period >= 0,
        clients > 0,
        period * conn_index <= u64::MAX,
    ensures
        stagger_of(period, conn_index, clients) * clients <= period * conn_index < (stagger_of(
            period,
            conn_index,
            clients,
        ) + 1) * clients,
        stagger_of(period, 0, clients) == 0,
{
    let product = period * conn_index;
    let c = clients as int;
    vstd::arithmetic::div_mod::lemma_fundamental_div_mod(product, c);
    vstd::arithmetic::div_mod::lemma_mod_bound(product, c);
    let q = product / c;
    assert(q * c == c * q) by (nonlinear_arith);
    assert((q + 1) * c == c * q + c) by (nonlinear_arith);
    assert(period * 0 == 0);
    vstd::arithmetic::div_mod::lemma_div_basics(c);
}

/// Every send counts as scheduled; one more than the slack behind its schedule
/// counts as late, and the longest delay is remembered. A send ahead of its
/// schedule has no delay.
pub proof fn law_late_sends_are_counted(s: PaceStats, now: u64, scheduled: u64, rate: TickRate)
    requires
        s.late_sends < u64::MAX,
        s.scheduled < u64::MAX,
    ensures
        ({
            let after = s.with_send(now, scheduled, rate);
            let late = now - scheduled > clamped(rate.ticks_in(1_000_000)) && now > scheduled;
            &&& after.scheduled == s.scheduled + 1
            &&& late ==> after.late_sends == s.late_sends + 1
            &&& !late && rate.ticks_in(1_000_000) >= 0 ==> after.late_sends == s.late_sends
            &&& after.max_send_delay_ticks >= s.max_send_delay_ticks
            &&& after.max_send_delay_ticks >= now - scheduled
            &&& after.max_send_delay_ticks == s.max_send_delay_ticks || after.max_send_delay_ticks
                == now - scheduled
        }),
{
}

/// Times of a schedule are ticks.
pub proof fn lemma_times_are_ticks(p: PaceClock)
    ensures
        0 <= p.next_due() <= u64::MAX,
        0 <= p.period() <= u64::MAX,
{
}

/// A send is never given out before it is due, and always under its own
/// scheduled time; the next is one period later.
pub proof fn law_sends_come_out_on_schedule(p: &mut PaceClock, now_ticks: u64, due: Option<u64>)
    requires
        call_ensures(PaceClock::pop_due, (p, now_ticks), due),
        old(p).next_due() + old(p).period() <= u64::MAX,
        old(p).period() >= 0,
    ensures
        due matches Some(t) ==> t <= now_ticks && t == old(p).next_due() && final(p).next_due()
            == t + old(p).period(),
        due is None ==> now_ticks < old(p).next_due() && final(p).next_due() == old(p).next_due(),
        final(p).period() == old(p).period(),
{
}

/// A schedule keeps the rate that was asked for, and its first send comes
/// within one period of the start.
pub proof fn law_new_schedule(
    target_rate: u64,
    clients: u64,
    rate: &TickRate,
    start_tsc: u64,
    conn_index: u64,
    p: PaceClock,
)
    requires
        target_rate > 0,
        conn_index < clients,
        rate.wf(),
        call_ensures(PaceClock::new, (target_rate, clients, rate, start_tsc, conn_index), p),
        start_tsc + p.period() <= u64::MAX,
    ensures
        p.period() >= 1,
        start_tsc <= p.next_due() < start_tsc + p.period(),
        conn_index == 0 ==> p.next_due() == start_tsc,
        1 < p.period() < u64::MAX ==> (2 * p.period() - 1) * (target_rate * rate.span_nanos()) <= 2
            * (1_000_000_000 * clients * rate.span_ticks()) < (2 * p.period() + 1) * (target_rate
            * rate.span_nanos()),
{
    law_stagger_stays_within_period(p.period(), conn_index, clients);
    if 1 < p.period() < u64::MAX {
        law_period_keeps_the_target_rate(target_rate, clients, *rate);
    }
    if conn_index == 0 {
        assert(p.period() * 0 == 0) by (nonlinear_arith);
        law_starts_are_spread_evenly(p.period(), 0, clients);
    }
}

/// A send that could not go out is put back where it was, and is given out
/// next under the same time.
pub proof fn law_send_is_put_back(p: &mut PaceClock, q: &mut PaceClock, due: u64)
    requires
        call_ensures(PaceClock::advance, (p,), due),
        call_ensures(PaceClock::unpop, (q,), ()),
        *old(q) == *final(p),
        old(p).next_due() + old(p).period() <= u64::MAX,
    ensures
        due == old(p).next_due(),
        final(p).next_due() - old(p).next_due() == old(p).period(),
        final(q).next_due() == old(p).next_due(),
        final(q).period() == old(p).period(),
{
    lemma_times_are_ticks(*old(p));
}

/// Every send is counted; one is late when it goes out over a millisecond
/// behind its time, and the longest delay is kept.
pub proof fn law_recorded_sends(
    s: &mut PaceStats,
    now: u64,
    scheduled: u64,
    rate: &TickRate,
    slack: u64,
)
    requires
        rate.wf(),
        old(s).late_sends < u64::MAX,
        old(s).scheduled < u64::MAX,
        call_ensures(PaceStats::record_send, (s, now, scheduled, rate), ()),
        call_ensures(TickRate::ns_to_tsc, (rate, 1_000_000u64), slack),
    ensures
        final(s).scheduled - old(s).scheduled == 1,
        final(s).late_sends - old(s).late_sends == (if now - scheduled > slack {
            1int
        } else {
            0
        }),
        final(s).max_send_delay_ticks >= old(s).max_send_delay_ticks,
        final(s).max_send_delay_ticks >= now - scheduled,
        final(s).max_send_delay_ticks == old(s).max_send_delay_ticks
            || final(s).max_send_delay_ticks == now - scheduled,
{
    law_late_sends_are_counted(*old(s), now, scheduled, *rate);
}

} // verus!
