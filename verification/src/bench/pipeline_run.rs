//! A run through the pipeline without a network: the publisher's decisions
//! and the drain's bookkeeping.

use vstd::arithmetic::power2::pow2;
use vstd::prelude::*;
use vstd::string::StringExecFns;

use super::clock::{clamped, tsc_to_ns, TickRate};
use super::outcomes::{OutcomeReport, Tallies};
use super::pacing::{counted, PaceClock, PaceStats};
use super::phases::PhaseDeadlines;
use crate::disruptor::spsc::is_power_of_two;
use crate::text::{decimal, decimal_string};
use crate::text_laws::{lemma_says, says};
use crate::types::{
    AccountId, ExecutionReport, Order, OrderId, OrderType, Price, Quantity, SelfTradeProtection,
    Side, TimeInForce,
};

verus! {

/// The order with a number: a limit order for one lot at a fixed price, buy
/// and sell in turn, so that the orders trade against each other.
pub open spec fn order_number(i: u64) -> Order {
    Order {
        id: OrderId((i + 1) as u64),
        account: AccountId(1),
        side: if i % 2 == 0 {
            Side::Buy
        } else {
            Side::Sell
        },
        order_type: OrderType::Limit { price: Price(100), post_only: false },
        time_in_force: TimeInForce::GTC,
        quantity: Quantity(1),
        stp: SelfTradeProtection::Allow,
        expiry_ns: 0,
    }
}

/// The order with a number.
pub fn nth_order(i: u64) -> (order: Order)
    requires
        i < u64::MAX,
    ensures
        order == order_number(i),
{
    Order {
        id: OrderId(i + 1),
        account: AccountId(1),
        side: if i % 2 == 0 {
            Side::Buy
        } else {
            Side::Sell
        },
        order_type: OrderType::Limit { price: Price(100), post_only: false },
        time_in_force: TimeInForce::GTC,
        quantity: Quantity(1),
        stp: SelfTradeProtection::Allow,
        expiry_ns: 0,
    }
}

/// Slots for the timestamps of a window: the least power of two that holds
/// them, and at least two.
pub fn timestamp_capacity(window: usize) -> (capacity: usize)
    requires
        window <= usize::MAX / 2 + 1,
    ensures
        is_power_of_two(capacity as int),
        capacity >= 2,
        capacity >= window,
        capacity == 2 || capacity / 2 < window,
{
    let mut capacity: usize = 2;
    let ghost mut k: nat = 1;
    proof {
        vstd::arithmetic::power2::lemma2_to64();
    }
    while capacity < window
        invariant
            window <= usize::MAX / 2 + 1,
            pow2(k) == capacity,
            2 <= capacity,
            capacity == 2 || capacity / 2 < window,
        decreases 2 * window - capacity,
    {
        proof {
            vstd::arithmetic::power2::lemma_pow2_unfold(k + 1);
            k = k + 1;
        }
        capacity = capacity * 2;
    }
    capacity
}

/// What the publisher does next.
#[derive(Clone, Copy, Debug)]
pub enum PublishStep {
    /// The run is over.
    Stop,
    /// The window is full, or nothing is due.
    Spin,
    /// An order goes out. Its latency counts from `ts`.
    Publish { order: Order, ts: u64 },
}

/// The publisher's state.
#[derive(Clone, Copy, Debug)]
pub struct Publisher {
    next: u64,
    pacer: Option<PaceClock>,
    warmup_end_tsc: u64,
}

impl Publisher {
    /// Orders that went out.
    pub closed spec fn published(&self) -> int {
        self.next as int
    }

    /// The schedule, where there is one.
    pub closed spec fn schedule(&self) -> Option<PaceClock> {
        self.pacer
    }

    /// The tick at which the warmup ends for the send statistics.
    pub closed spec fn warmup_end(&self) -> u64 {
        self.warmup_end_tsc
    }

    /// A publisher that starts at a tick, on a schedule where the run has a
    /// target rate.
    pub fn new(target_rate: u64, warmup_ns: u64, rate: &TickRate, start_tsc: u64) -> (p: Publisher)
        requires
            rate.wf(),
        ensures
            p.published() == 0,
            target_rate == 0 ==> p.schedule() is None && p.warmup_end() == 0,
            target_rate > 0 ==> {
                &&& p.schedule() is Some
                &&& p.schedule()->0.period() == super::pacing::period_of(target_rate, 1, *rate)
                &&& p.schedule()->0.next_due() == start_tsc
                &&& p.warmup_end() == clamped(start_tsc + clamped(rate.ticks_in(warmup_ns as int)))
            },
    {
        if target_rate > 0 {
            let pacer = PaceClock::new(target_rate, 1, rate, start_tsc, 0);
            assert(super::pacing::stagger_of(pacer.period(), 0, 1) == 0) by {
                assert(pacer.period() * 0 == 0);
            }
            Publisher {
                next: 0,
                pacer: Some(pacer),
                warmup_end_tsc: super::connection::warmup_end_ticks(
                    target_rate,
                    warmup_ns,
                    start_tsc,
                    rate,
                ),
            }
        } else {
            Publisher { next: 0, pacer: None, warmup_end_tsc: 0 }
        }
    }

    /// Decides what comes next.
    pub fn step(
        &mut self,
        stop: bool,
        inflight: u64,
        window: u64,
        now_tsc: u64,
        stats: &mut PaceStats,
        rate: &TickRate,
    ) -> (step: PublishStep)
        requires
            rate.wf(),
            old(self).published() < u64::MAX,
        ensures
            final(self).warmup_end() == old(self).warmup_end(),
            ({
                let schedule = old(self).schedule();
                let due = schedule is None || now_tsc >= schedule->0.next_due();
                let goes = !stop && inflight < window && due;
                let ts = if schedule is Some {
                    schedule->0.next_due() as u64
                } else {
                    now_tsc
                };
                &&& step == (if stop {
                    PublishStep::Stop
                } else if goes {
                    PublishStep::Publish { order: order_number(old(self).published() as u64), ts }
                } else {
                    PublishStep::Spin
                })
                &&& final(self).published() == old(self).published() + (if goes {
                    1int
                } else {
                    0
                })
                &&& *final(stats) == (if goes && schedule is Some && now_tsc >= old(
                    self,
                ).warmup_end() {
                    old(stats).with_send(now_tsc, ts, *rate)
                } else {
                    *old(stats)
                })
                &&& (final(self).schedule() is Some) == (schedule is Some)
                &&& schedule is Some ==> {
                    &&& final(self).schedule()->0.period() == schedule->0.period()
                    &&& final(self).schedule()->0.next_due() == (if goes {
                        super::pacing::step(schedule->0.next_due(), schedule->0.period())
                    } else {
                        schedule->0.next_due()
                    })
                }
            }),
    {
        if stop {
            return PublishStep::Stop;
        }
        if inflight >= window {
            return PublishStep::Spin;
        }
        let ts: u64 = match self.pacer {
            Some(pacer) => {
                let mut pacer: PaceClock = pacer;
                let due = pacer.pop_due(now_tsc);
                self.pacer = Some(pacer);
                match due {
                    Some(scheduled) => {
                        if now_tsc >= self.warmup_end_tsc {
                            stats.record_send(now_tsc, scheduled, rate);
                        }
                        scheduled
                    },
                    None => return PublishStep::Spin,
                }
            },
            None => now_tsc,
        };
        let order = nth_order(self.next);
        self.next = self.next + 1;
        PublishStep::Publish { order, ts }
    }
}

/// What the matching stage put out.
#[derive(Clone, Copy, Debug)]
pub enum OutputPayload {
    Report(ExecutionReport),
    EngineError,
    BatchEnd,
    QueryResponse,
}

/// The drain's state.
#[derive(Clone, Copy, Debug)]
pub struct Drain {
    pub measured_start: Option<u128>,
    pub measured_orders: u64,
    pub outcomes: OutcomeReport,
}

/// Tallies after one output. An output that ends a request acknowledges it.
pub open spec fn after_output(t: Tallies, ends_request: bool, payload: OutputPayload) -> Tallies {
    let acknowledged = if ends_request {
        (Tallies { batch_ends: t.batch_ends + 1, ..t })
    } else {
        t
    };
    match payload {
        OutputPayload::Report(report) => acknowledged.with_report(report),
        OutputPayload::EngineError => (Tallies {
            engine_errors: acknowledged.engine_errors + 1,
            ..acknowledged
        }),
        _ => acknowledged,
    }
}

impl Drain {
    /// Nothing drained.
    pub fn new() -> (d: Drain)
        ensures
            d.measured_start is None,
            d.measured_orders == 0,
            d.outcomes@ == Tallies::none(),
    {
        Drain { measured_start: None, measured_orders: 0, outcomes: OutcomeReport::default() }
    }

    /// Ends a request that was sent at a tick: the latency to record, where
    /// it was received in the measured phase.
    pub fn complete(
        &mut self,
        deadlines: &PhaseDeadlines,
        now: u128,
        sent_tsc: u64,
        now_tsc: u64,
        rate: &TickRate,
    ) -> (latency_ns: Option<u64>)
        requires
            rate.wf(),
            sent_tsc <= now_tsc,
        ensures
            final(self).outcomes == old(self).outcomes,
            if deadlines.warmup_end <= now < deadlines.measured_end {
                &&& latency_ns == Some(clamped(rate.nanos_in(now_tsc - sent_tsc)) as u64)
                &&& final(self).measured_orders == counted(old(self).measured_orders)
                &&& final(self).measured_start == (match old(self).measured_start {
                    Some(t) => Some(t),
                    None => Some(now),
                })
            } else {
                latency_ns is None && *final(self) == *old(self)
            },
    {
        if !deadlines.is_measured(now) {
            return None;
        }
        if self.measured_start.is_none() {
            self.measured_start = Some(now);
        }
        self.measured_orders = if self.measured_orders == u64::MAX {
            0
        } else {
            self.measured_orders + 1
        };
        Some(tsc_to_ns(now_tsc - sent_tsc, rate))
    }

    /// Counts one output.
    pub fn tally(&mut self, ends_request: bool, payload: &OutputPayload)
        requires
            old(self).outcomes.room(),
        ensures
            final(self).measured_start == old(self).measured_start,
            final(self).measured_orders == old(self).measured_orders,
            final(self).outcomes@ == after_output(old(self).outcomes@, ends_request, *payload),
    {
        let ghost before = self.outcomes@;
        match payload {
            OutputPayload::Report(report) => {
                self.outcomes.record_execution_report(report);
            },
            OutputPayload::EngineError => {
                self.outcomes.engine_errors = self.outcomes.engine_errors + 1;
            },
            OutputPayload::BatchEnd => {},
            OutputPayload::QueryResponse => {},
        }
        if ends_request {
            self.outcomes.batch_ends = self.outcomes.batch_ends + 1;
        }
        assert(self.outcomes@ =~= after_output(before, ends_request, *payload));
    }
}

/// The line on the delay of group commits. Without a delay there is none.
pub fn group_commit_line(group_commit_us: u64) -> (line: Option<String>)
    ensures
        group_commit_us == 0 ==> line is None,
        group_commit_us > 0 ==> line is Some && line->0@ == "  Group commit delay: "@ + decimal(
            group_commit_us as nat,
        ) + " µs"@,
{
    if group_commit_us > 0 {
        let mut line: String = "  Group commit delay: ".to_owned();
        line.append(decimal_string(group_commit_us).as_str());
        line.append(" µs");
        Some(line)
    } else {
        None
    }
}

/// The line on the target rate, with the longest delay as it is printed.
pub fn target_rate_line(target_rate: u64, scheduled: u64, late: u64, max_delay_us: &str) -> (line:
    String)
    ensures
        line@ == "  Target rate: "@ + decimal(target_rate as nat) + " ops/s (scheduled "@ + decimal(
            scheduled as nat,
        ) + ", late "@ + decimal(late as nat) + ", max send delay "@ + max_delay_us@ + " µs)"@,
{
    let mut line: String = "  Target rate: ".to_owned();
    line.append(decimal_string(target_rate).as_str());
    line.append(" ops/s (scheduled ");
    line.append(decimal_string(scheduled).as_str());
    line.append(", late ");
    line.append(decimal_string(late).as_str());
    line.append(", max send delay ");
    line.append(max_delay_us);
    line.append(" µs)");
    line
}

/// The orders of a run have ids of their own, from one on, and sides that
/// take turns.
pub proof fn law_orders_take_turns(i: u64)
    requires
        i + 1 < u64::MAX,
    ensures
        order_number(i).id != order_number((i + 1) as u64).id,
        order_number(i).side != order_number((i + 1) as u64).side,
        order_number(i).id.0 > 0,
{
}

/// Even numbers buy and odd ones sell, one lot each at the same price, so that
/// each pair trades in full.
pub proof fn law_pairs_trade_in_full(i: u64)
    requires
        2 * i + 1 < u64::MAX,
    ensures
        ({
            let buy = order_number((2 * i) as u64);
            let sell = order_number((2 * i + 1) as u64);
            &&& buy.side == Side::Buy
            &&& sell.side == Side::Sell
            &&& buy.id.0 == 2 * i + 1
            &&& sell.id.0 == 2 * i + 2
            &&& buy.order_type == sell.order_type
            &&& buy.order_type matches OrderType::Limit { price, post_only } && price.0 == 100
                && !post_only
            &&& buy.quantity.0 == 1
            &&& buy == (Order { id: buy.id, side: Side::Buy, ..sell })
            &&& sell.time_in_force == TimeInForce::GTC
            &&& sell.stp == SelfTradeProtection::Allow
            &&& sell.expiry_ns == 0
        }),
{
}

/// An output that ends a request acknowledges it; a report counts as itself,
/// an engine error as one, and nothing else counts.
pub proof fn law_outputs_are_counted(t: Tallies, ends_request: bool, payload: OutputPayload)
    ensures
        ({
            let after = after_output(t, ends_request, payload);
            &&& after.batch_ends == t.batch_ends + (if ends_request {
                1int
            } else {
                0
            })
            &&& after.engine_errors == t.engine_errors + (if payload is EngineError {
                1int
            } else {
                0
            })
            &&& after.server_busy == t.server_busy
            &&& payload matches OutputPayload::Report(report) ==> after == (Tallies {
                batch_ends: after.batch_ends,
                ..t.with_report(report)
            })
            &&& payload !is Report ==> after == (Tallies {
                batch_ends: after.batch_ends,
                engine_errors: after.engine_errors,
                ..t
            })
        }),
{
}

/// An order goes out while the run lasts, the window has a place and the
/// schedule has come; the orders go out by their numbers, one for each step.
pub proof fn law_orders_go_out_by_their_numbers(
    p: &mut Publisher,
    stop: bool,
    inflight: u64,
    window: u64,
    now_tsc: u64,
    stats: &mut PaceStats,
    rate: &TickRate,
    step: PublishStep,
    nth: Order,
)
    requires
        call_ensures(Publisher::step, (p, stop, inflight, window, now_tsc, stats, rate), step),
        old(p).published() < u64::MAX,
        call_ensures(nth_order, (old(p).published() as u64,), nth),
    ensures
        step is Stop <==> stop,
        step is Publish ==> !stop && inflight < window,
        step matches PublishStep::Publish { order, ts } ==> order == nth && ts <= now_tsc,
        step is Publish <==> final(p).published() == old(p).published() + 1,
        step !is Publish <==> final(p).published() == old(p).published(),
        old(p).schedule() is None && !stop && inflight < window ==> step
            == (PublishStep::Publish { order: nth, ts: now_tsc }),
        old(p).schedule() is Some && !stop && inflight < window ==> (step is Publish <==> now_tsc
            >= old(p).schedule()->0.next_due()),
        old(p).schedule() is Some && step is Publish ==> step->ts == old(
            p,
        ).schedule()->0.next_due(),
        step !is Publish ==> *final(stats) == *old(stats),
        old(p).schedule() is None ==> *final(stats) == *old(stats),
{
    if old(p).schedule() is Some {
        super::pacing::lemma_times_are_ticks(old(p).schedule()->0);
    }
}

/// A drained request is measured in the measured phase alone, and its latency
/// is the time between its ticks.
pub proof fn law_drained_requests_are_measured(
    d: &mut Drain,
    deadlines: &PhaseDeadlines,
    now: u128,
    sent_tsc: u64,
    now_tsc: u64,
    rate: &TickRate,
    measured: bool,
    latency: Option<u64>,
    span: u64,
)
    requires
        rate.wf(),
        sent_tsc <= now_tsc,
        call_ensures(PhaseDeadlines::is_measured, (deadlines, now), measured),
        call_ensures(Drain::complete, (d, deadlines, now, sent_tsc, now_tsc, rate), latency),
        call_ensures(tsc_to_ns, ((now_tsc - sent_tsc) as u64, rate), span),
    ensures
        latency is Some <==> measured,
        latency matches Some(ns) ==> ns == span,
        measured && old(d).measured_orders < u64::MAX ==> final(d).measured_orders - old(
            d,
        ).measured_orders == 1,
        !measured ==> *final(d) == *old(d),
        measured ==> final(d).measured_start is Some,
        old(d).measured_start is Some ==> final(d).measured_start == old(d).measured_start,
        measured && old(d).measured_start is None ==> final(d).measured_start == Some(now),
        final(d).outcomes == old(d).outcomes,
{
}

/// A publisher starts at its first order; its schedule starts at once, with
/// as many ticks between two orders as a client alone has.
pub proof fn law_publisher_starts_at_once(
    target_rate: u64,
    warmup_ns: u64,
    rate: &TickRate,
    start_tsc: u64,
    p: Publisher,
    alone: PaceClock,
    warmup_end: u64,
)
    requires
        rate.wf(),
        call_ensures(Publisher::new, (target_rate, warmup_ns, rate, start_tsc), p),
        call_ensures(PaceClock::new, (target_rate, 1u64, rate, start_tsc, 0u64), alone),
        call_ensures(
            super::connection::warmup_end_ticks,
            (target_rate, warmup_ns, start_tsc, rate),
            warmup_end,
        ),
    ensures
        p.published() == 0,
        p.schedule() is Some <==> target_rate > 0,
        p.schedule() matches Some(s) ==> s.next_due() == start_tsc && s.period() == alone.period(),
        p.warmup_end() == warmup_end,
{
}

/// There are slots for the window, at least two, and no power of two that
/// has as many is smaller.
pub proof fn law_timestamps_have_slots(window: usize, capacity: usize, k: nat)
    requires
        call_ensures(timestamp_capacity, (window,), capacity),
    ensures
        capacity >= window,
        capacity >= 2,
        k >= 1 && pow2(k) >= window ==> capacity <= pow2(k),
        window >= 2 ==> capacity <= 2 * window,
{
    vstd::arithmetic::power2::lemma2_to64();
    if k >= 1 && pow2(k) >= window && capacity > pow2(k) {
        let j = choose|j: nat| pow2(j) == capacity;
        if j <= k {
            if j < k {
                vstd::arithmetic::power2::lemma_pow2_strictly_increases(j, k);
            }
        } else {
            vstd::arithmetic::power2::lemma_pow2_unfold(j);
            if k < j - 1 {
                vstd::arithmetic::power2::lemma_pow2_strictly_increases(k, (j - 1) as nat);
            }
            if 1 < k {
                vstd::arithmetic::power2::lemma_pow2_strictly_increases(1, k);
            }
        }
    }
}

/// The line on pacing tells the rate, the sends, the late ones and the longest
/// delay, each under its own name; the line on group commits its delay, where
/// there is one.
#[verifier::rlimit(40)]
pub proof fn law_lines_tell_their_numbers(
    target_rate: u64,
    scheduled: u64,
    late: u64,
    max_delay_us: &str,
    line: String,
    group_commit_us: u64,
    commit: Option<String>,
)
    requires
        call_ensures(target_rate_line, (target_rate, scheduled, late, max_delay_us), line),
        call_ensures(group_commit_line, (group_commit_us,), commit),
    ensures
        says(line@, "Target rate: "@ + decimal(target_rate as nat)),
        says(line@, "scheduled "@ + decimal(scheduled as nat)),
        says(line@, "late "@ + decimal(late as nat)),
        says(line@, "max send delay "@ + max_delay_us@),
        commit is Some <==> group_commit_us > 0,
        commit matches Some(c) ==> says(c@, decimal(group_commit_us as nat)),
{
    reveal_strlit("  Target rate: ");
    reveal_strlit("Target rate: ");
    reveal_strlit(" ops/s (scheduled ");
    reveal_strlit("scheduled ");
    reveal_strlit(", late ");
    reveal_strlit("late ");
    reveal_strlit(", max send delay ");
    reveal_strlit("max send delay ");
    assert("  Target rate: "@ =~= seq![' ', ' '] + "Target rate: "@);
    assert(" ops/s (scheduled "@ =~= " ops/s (scheduled "@.take(8) + "scheduled "@);
    assert(", late "@ =~= seq![',', ' '] + "late "@);
    assert(", max send delay "@ =~= seq![',', ' '] + "max send delay "@);
    lemma_rate_line(
        line@,
        decimal(target_rate as nat),
        " ops/s (scheduled "@.take(8),
        decimal(scheduled as nat),
        decimal(late as nat),
        max_delay_us@,
        " µs)"@,
    );
    if let Some(c) = commit {
        lemma_says("  Group commit delay: "@, decimal(group_commit_us as nat), " µs"@, c@);
    }
}

#[verifier::rlimit(40)]
proof fn lemma_rate_line(
    line: Seq<char>,
    rate: Seq<char>,
    unit: Seq<char>,
    scheduled: Seq<char>,
    late: Seq<char>,
    delay: Seq<char>,
    end: Seq<char>,
)
    requires
        line =~= (seq![' ', ' '] + "Target rate: "@) + rate + (unit + "scheduled "@) + scheduled + (
        seq![',', ' '] + "late "@) + late + (seq![',', ' '] + "max send delay "@) + delay + end,
    ensures
        says(line, "Target rate: "@ + rate),
        says(line, "scheduled "@ + scheduled),
        says(line, "late "@ + late),
        says(line, "max send delay "@ + delay),
{
    let comma = seq![',', ' '];
    let p1 = "Target rate: "@ + rate;
    let p2 = "scheduled "@ + scheduled;
    let p3 = "late "@ + late;
    let p4 = "max send delay "@ + delay;
    let b1 = seq![' ', ' '];
    let b2 = b1 + p1 + unit;
    let b3 = b2 + p2 + comma;
    let b4 = b3 + p3 + comma;
    assert(line =~= b1 + p1 + (unit + p2 + comma + p3 + comma + p4 + end));
    lemma_says(b1, p1, unit + p2 + comma + p3 + comma + p4 + end, line);
    assert(line =~= b2 + p2 + (comma + p3 + comma + p4 + end));
    lemma_says(b2, p2, comma + p3 + comma + p4 + end, line);
    assert(line =~= b3 + p3 + (comma + p4 + end));
    lemma_says(b3, p3, comma + p4 + end, line);
    assert(line =~= b4 + p4 + end);
    lemma_says(b4, p4, end, line);
}

} // verus!
