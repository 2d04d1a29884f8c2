//! What an event loop decides for one benchmark connection.
//!
//! The loop performs the sends and receives; this module owns the framing,
//! a little-endian 32-bit length before each body, the send window, the
//! pacing and the classification of completions by phase.

use std::collections::VecDeque;

use vstd::prelude::*;

use super::clock::{clamped, tsc_to_ns, TickRate};
use super::pacing::{
    counted, lemma_times_are_ticks, period_of, stagger_of, step, PaceClock, PaceStats,
};
use super::phases::{BenchPhases, PhaseDeadlines};
use super::series::{maybe_sample, SampleStep, SAMPLE_INTERVAL};
use crate::bytes::without_prefix;

verus! {

/// Marks the token of a send.
pub const SEND_FLAG: u64 = 0x8000_0000_0000_0000;

/// What a completed operation was, and on which connection.
#[derive(Clone, Copy, Debug, PartialEq, Eq, Structural)]
pub enum Operation {
    Send(usize),
    Recv(usize),
}

/// The operation that a token stands for.
pub open spec fn operation_of(token: u64) -> Operation {
    if token >= SEND_FLAG {
        Operation::Send((token - SEND_FLAG) as usize)
    } else {
        Operation::Recv(token as usize)
    }
}

/// The token of an operation.
pub fn token_for(operation: Operation) -> (token: u64)
    requires
        match operation {
            Operation::Send(i) => i < SEND_FLAG,
            Operation::Recv(i) => i < SEND_FLAG,
        },
    ensures
        operation_of(token) == operation,
{
    match operation {
        Operation::Send(i) => {
            let index: u64 = i as u64;
            assert(index | 0x8000_0000_0000_0000 == index + 0x8000_0000_0000_0000)
                by (bit_vector)
                requires
                    index < 0x8000_0000_0000_0000u64,
            ;
            index | SEND_FLAG
        },
        Operation::Recv(i) => i as u64,
    }
}

/// The operation that a token stands for.
pub fn operation_for(token: u64) -> (operation: Operation)
    ensures
        operation == operation_of(token),
{
    assert(token & 0x8000_0000_0000_0000 != 0 <==> token >= 0x8000_0000_0000_0000u64)
        by (bit_vector);
    assert(token >= 0x8000_0000_0000_0000u64 ==> token & !0x8000_0000_0000_0000u64 == token
        - 0x8000_0000_0000_0000) by (bit_vector);
    if token & SEND_FLAG != 0 {
        Operation::Send((token & !SEND_FLAG) as usize)
    } else {
        Operation::Recv(token as usize)
    }
}

/// The length that a frame's prefix announces.
pub open spec fn announced(bytes: Seq<u8>) -> int {
    bytes[0] + bytes[1] * 0x100 + bytes[2] * 0x1_0000 + bytes[3] * 0x100_0000
}

/// Whether some bytes start with a whole frame.
pub open spec fn holds_frame(bytes: Seq<u8>) -> bool {
    bytes.len() >= 4 && bytes.len() >= 4 + announced(bytes)
}

/// The bodies of the whole frames at the start of some bytes.
pub open spec fn bodies(bytes: Seq<u8>) -> Seq<Seq<u8>>
    decreases bytes.len(),
{
    if holds_frame(bytes) {
        seq![bytes.subrange(4, 4 + announced(bytes))] + bodies(bytes.skip(4 + announced(bytes)))
    } else {
        Seq::empty()
    }
}

/// What some bytes hold behind their whole frames.
pub open spec fn remainder(bytes: Seq<u8>) -> Seq<u8>
    decreases bytes.len(),
{
    if holds_frame(bytes) {
        remainder(bytes.skip(4 + announced(bytes)))
    } else {
        bytes
    }
}

/// Whether a schedule is that of a connection of a paced run: the rate is
/// shared between the connections, which start one after the other.
pub open spec fn on_schedule(
    schedule: Option<PaceClock>,
    target_rate: u64,
    total_clients: usize,
    rate: TickRate,
    start_tsc: u64,
    global_index: u64,
) -> bool {
    let clients: u64 = if total_clients > 0 {
        total_clients as u64
    } else {
        1
    };
    let period = period_of(target_rate, clients, rate);
    &&& schedule is Some
    &&& schedule->0.period() == period
    &&& schedule->0.next_due() == clamped(start_tsc + stagger_of(period, global_index, clients))
}

/// State of one connection between two turns of the loop.
#[derive(Debug)]
pub struct Connection {
    parse_buf: Vec<u8>,
    parsed: usize,
    send_buf: Vec<u8>,
    send_pending: bool,
    inflight_ts: VecDeque<u64>,
    pacer: Option<PaceClock>,
}

impl Connection {
    /// The bytes up to the parse position are used up.
    pub closed spec fn wf(&self) -> bool {
        self.parsed <= self.parse_buf@.len()
    }

    /// Received bytes that are not parsed yet.
    pub closed spec fn received(&self) -> Seq<u8> {
        self.parse_buf@.skip(self.parsed as int)
    }

    /// Bytes that are still to be sent.
    pub closed spec fn queued(&self) -> Seq<u8> {
        self.send_buf@
    }

    /// Whether a send is under way.
    pub closed spec fn sending(&self) -> bool {
        self.send_pending
    }

    /// The times of the requests that are in flight, the oldest first.
    pub closed spec fn inflight(&self) -> Seq<u64> {
        self.inflight_ts@
    }

    /// The schedule, where there is one.
    pub closed spec fn schedule(&self) -> Option<PaceClock> {
        self.pacer
    }

    /// Nothing but the received bytes differs.
    pub open spec fn same_sending(&self, other: &Connection) -> bool {
        &&& self.queued() == other.queued()
        &&& self.sending() == other.sending()
        &&& self.inflight() == other.inflight()
        &&& self.schedule() == other.schedule()
    }

    /// A connection with nothing sent or received, and no schedule.
    pub fn new(window: usize) -> (c: Connection)
        ensures
            c.wf(),
            c.received() == Seq::<u8>::empty(),
            c.queued() == Seq::<u8>::empty(),
            !c.sending(),
            c.inflight() == Seq::<u64>::empty(),
            c.schedule() is None,
    {
        let c = Connection {
            parse_buf: Vec::new(),
            parsed: 0,
            send_buf: Vec::new(),
            send_pending: false,
            inflight_ts: VecDeque::with_capacity(window),
            pacer: None,
        };
        assert(c.received() =~= Seq::empty());
        c
    }

    /// Puts the connection on a schedule where the run has a target rate.
    pub fn pace(
        &mut self,
        target_rate: u64,
        total_clients: usize,
        rate: &TickRate,
        start_tsc: u64,
        global_index: u64,
    )
        requires
            old(self).wf(),
            rate.wf(),
        ensures
            final(self).wf(),
            final(self).received() == old(self).received(),
            final(self).queued() == old(self).queued(),
            final(self).sending() == old(self).sending(),
            final(self).inflight() == old(self).inflight(),
            target_rate == 0 ==> final(self).schedule() == old(self).schedule(),
            target_rate > 0 ==> on_schedule(
                final(self).schedule(),
                target_rate,
                total_clients,
                *rate,
                start_tsc,
                global_index,
            ),
    {
        if target_rate > 0 {
            let clients: u64 = if total_clients > 0 {
                total_clients as u64
            } else {
                1
            };
            self.pacer = Some(PaceClock::new(target_rate, clients, rate, start_tsc, global_index));
        }
    }

    /// Takes received bytes.
    pub fn receive(&mut self, bytes: &[u8])
        requires
            old(self).wf(),
        ensures
            final(self).wf(),
            final(self).received() == old(self).received() + bytes@,
            final(self).same_sending(old(self)),
    {
        if self.parsed > 0 {
            self.parse_buf = without_prefix(&self.parse_buf, self.parsed);
            self.parsed = 0;
            assert(self.received() =~= old(self).received());
        }
        self.parse_buf.extend_from_slice(bytes);
        assert(self.received() =~= old(self).received() + bytes@);
    }

    /// Takes the next whole frame out of the received bytes.
    pub fn next_frame(&mut self) -> (body: Option<Vec<u8>>)
        requires
            old(self).wf(),
        ensures
            final(self).wf(),
            final(self).same_sending(old(self)),
            remainder(final(self).received()) == remainder(old(self).received()),
            match body {
                Some(b) => {
                    &&& holds_frame(old(self).received())
                    &&& bodies(old(self).received()) == seq![b@] + bodies(final(self).received())
                    &&& final(self).received() == old(self).received().skip(
                        4 + announced(old(self).received()),
                    )
                },
                None => {
                    &&& bodies(old(self).received()) == Seq::<Seq<u8>>::empty()
                    &&& final(self).received() == old(self).received()
                },
            },
    {
        let ghost bytes = self.received();
        let left: usize = self.parse_buf.len() - self.parsed;
        if left < 4 {
            return None;
        }
        let at: usize = self.parsed;
        assert(bytes[0] == self.parse_buf@[at as int]);
        assert(bytes[1] == self.parse_buf@[at + 1]);
        assert(bytes[2] == self.parse_buf@[at + 2]);
        assert(bytes[3] == self.parse_buf@[at + 3]);
        let len: u32 = self.parse_buf[at] as u32 + self.parse_buf[at + 1] as u32 * 0x100
            + self.parse_buf[at + 2] as u32 * 0x1_0000 + self.parse_buf[at + 3] as u32 * 0x100_0000;
        let len: usize = len as usize;
        if left - 4 < len {
            return None;
        }
        let start: usize = at + 4;
        let end: usize = start + len;
        let mut body: Vec<u8> = Vec::new();
        let mut i: usize = start;
        while i < end
            invariant
                start <= i <= end <= self.parse_buf@.len(),
                body@ == self.parse_buf@.subrange(start as int, i as int),
            decreases end - i,
        {
            body.push(self.parse_buf[i]);
            i = i + 1;
        }
        self.parsed = end;
        proof {
            assert(body@ =~= bytes.subrange(4, 4 + announced(bytes)));
            assert(self.received() =~= bytes.skip(4 + announced(bytes)));
        }
        Some(body)
    }

    /// Ends the oldest request in flight: its latency. Nothing where no
    /// request is in flight, which no server in step with the client causes.
    pub fn complete(&mut self, now_tsc: u64, rate: &TickRate) -> (latency_ns: Option<u64>)
        requires
            old(self).wf(),
            rate.wf(),
            old(self).inflight().len() > 0 ==> old(self).inflight()[0] <= now_tsc,
        ensures
            final(self).wf(),
            final(self).received() == old(self).received(),
            final(self).queued() == old(self).queued(),
            final(self).sending() == old(self).sending(),
            final(self).schedule() == old(self).schedule(),
            match latency_ns {
                Some(ns) => {
                    &&& old(self).inflight().len() > 0
                    &&& ns == clamped(rate.nanos_in(now_tsc - old(self).inflight()[0]))
                    &&& final(self).inflight() == old(self).inflight().skip(1)
                },
                None => {
                    &&& old(self).inflight().len() == 0
                    &&& final(self).inflight() == old(self).inflight()
                },
            },
    {
        match self.inflight_ts.pop_front() {
            Some(sent_tsc) => {
                assert(self.inflight() =~= old(self).inflight().skip(1));
                Some(tsc_to_ns(now_tsc - sent_tsc, rate))
            },
            None => None,
        }
    }

    /// The time of the oldest request in flight.
    pub fn oldest(&self) -> (sent_tsc: Option<u64>)
        ensures
            sent_tsc == (if self.inflight().len() > 0 {
                Some(self.inflight()[0])
            } else {
                None
            }),
    {
        if self.inflight_ts.len() > 0 {
            Some(self.inflight_ts[0])
        } else {
            None
        }
    }

    /// Takes a place in the window for the next request, where there is one
    /// and the schedule allows it: the time from which its latency counts.
    /// With a schedule that is the scheduled time, so that a stall shows.
    /// Sends before the end of the warmup are left out of the statistics.
    pub fn claim_slot(
        &mut self,
        window: usize,
        now_tsc: u64,
        warmup_end_tsc: u64,
        stats: &mut PaceStats,
        rate: &TickRate,
    ) -> (send_tsc: Option<u64>)
        requires
            old(self).wf(),
            rate.wf(),
        ensures
            final(self).wf(),
            final(self).received() == old(self).received(),
            final(self).queued() == old(self).queued(),
            final(self).sending() == old(self).sending(),
            ({
                let open = old(self).inflight().len() < window;
                let schedule = old(self).schedule();
                let due = schedule is Some && now_tsc >= schedule->0.next_due();
                let granted = open && (schedule is None || due);
                let time = if schedule is Some {
                    schedule->0.next_due() as u64
                } else {
                    now_tsc
                };
                &&& send_tsc == (if granted {
                    Some(time)
                } else {
                    None
                })
                &&& final(self).inflight() == (if granted {
                    old(self).inflight().push(time)
                } else {
                    old(self).inflight()
                })
                &&& *final(stats) == (if granted && schedule is Some && now_tsc >= warmup_end_tsc {
                    old(stats).with_send(now_tsc, time, *rate)
                } else {
                    *old(stats)
                })
                &&& (final(self).schedule() is Some) == (schedule is Some)
                &&& schedule is Some ==> {
                    &&& final(self).schedule()->0.period() == schedule->0.period()
                    &&& final(self).schedule()->0.next_due() == (if granted {
                        step(schedule->0.next_due(), schedule->0.period())
                    } else {
                        schedule->0.next_due()
                    })
                }
            }),
    {
        if self.inflight_ts.len() >= window {
            return None;
        }
        let time: u64 = match self.pacer {
            Some(pacer) => {
                let mut pacer: PaceClock = pacer;
                let due = pacer.pop_due(now_tsc);
                self.pacer = Some(pacer);
                match due {
                    Some(scheduled) => {
                        if now_tsc >= warmup_end_tsc {
                            stats.record_send(now_tsc, scheduled, rate);
                        }
                        scheduled
                    },
                    None => return None,
                }
            },
            None => now_tsc,
        };
        self.inflight_ts.push_back(time);
        Some(time)
    }

    /// Queues a framed request behind those that wait to be sent.
    pub fn queue(&mut self, frame: &[u8])
        requires
            old(self).wf(),
        ensures
            final(self).wf(),
            final(self).received() == old(self).received(),
            final(self).queued() == old(self).queued() + frame@,
            final(self).sending() == old(self).sending(),
            final(self).inflight() == old(self).inflight(),
            final(self).schedule() == old(self).schedule(),
    {
        self.send_buf.extend_from_slice(frame);
    }

    /// The bytes to send, where some wait and no send is under way. A send
    /// is then under way.
    pub fn start_send(&mut self) -> (bytes: Option<&[u8]>)
        requires
            old(self).wf(),
        ensures
            final(self).wf(),
            final(self).received() == old(self).received(),
            final(self).queued() == old(self).queued(),
            final(self).inflight() == old(self).inflight(),
            final(self).schedule() == old(self).schedule(),
            if !old(self).sending() && old(self).queued().len() > 0 {
                bytes is Some && bytes->0@ == old(self).queued() && final(self).sending()
            } else {
                bytes is None && final(self).sending() == old(self).sending()
            },
    {
        if self.send_pending || self.send_buf.len() == 0 {
            None
        } else {
            self.send_pending = true;
            Some(self.send_buf.as_slice())
        }
    }

    /// Whether a send is under way.
    pub fn is_sending(&self) -> (b: bool)
        ensures
            b == self.sending(),
    {
        self.send_pending
    }

    /// Ends a send of some bytes. What is left is still to be sent.
    pub fn sent(&mut self, n: usize)
        requires
            old(self).wf(),
        ensures
            final(self).wf(),
            final(self).received() == old(self).received(),
            final(self).inflight() == old(self).inflight(),
            final(self).schedule() == old(self).schedule(),
            !final(self).sending(),
            final(self).queued() == (if n < old(self).queued().len() {
                old(self).queued().skip(n as int)
            } else {
                Seq::<u8>::empty()
            }),
    {
        self.send_pending = false;
        if n >= self.send_buf.len() {
            self.send_buf = Vec::new();
        } else {
            self.send_buf = without_prefix(&self.send_buf, n);
        }
    }
}

/// What a thread measured so far.
#[derive(Clone, Copy, Debug)]
pub struct Measurement {
    /// When the first completion of the measured phase was received.
    pub measured_start: Option<u128>,
    /// Completions of the current sample interval.
    pub interval_count: usize,
    /// Completions of the measured phase.
    pub completed: u64,
}

impl Measurement {
    /// The sample interval is not over.
    pub open spec fn wf(&self) -> bool {
        self.interval_count < SAMPLE_INTERVAL
    }

    /// Nothing measured.
    pub fn new() -> (m: Measurement)
        ensures
            m.wf(),
            m.measured_start is None,
            m.interval_count == 0,
            m.completed == 0,
    {
        Measurement { measured_start: None, interval_count: 0, completed: 0 }
    }

    /// Classifies a completion by the time at which it was received. In the
    /// measured phase its latency is to be recorded, and the interval's
    /// histogram to be handled as told; otherwise it is passed over.
    pub fn observe(&mut self, deadlines: &PhaseDeadlines, now: u128) -> (step: Option<SampleStep>)
        requires
            old(self).wf(),
        ensures
            final(self).wf(),
            if deadlines.warmup_end <= now < deadlines.measured_end {
                &&& final(self).measured_start == (match old(self).measured_start {
                    Some(t) => Some(t),
                    None => Some(now),
                })
                &&& final(self).completed == counted(old(self).completed)
                &&& step == Some(if old(self).interval_count + 1 == SAMPLE_INTERVAL {
                    SampleStep::SampleAndReset
                } else {
                    SampleStep::Wait
                })
                &&& final(self).interval_count == (old(self).interval_count + 1) % (
                    SAMPLE_INTERVAL as int)
            } else {
                step is None && *final(self) == *old(self)
            },
    {
        if !deadlines.is_measured(now) {
            return None;
        }
        if self.measured_start.is_none() {
            self.measured_start = Some(now);
        }
        self.completed = if self.completed == u64::MAX {
            0
        } else {
            self.completed + 1
        };
        let mut count: usize = self.interval_count + 1;
        let step = maybe_sample(false, &mut count);
        self.interval_count = count;
        Some(step)
    }
}

/// What one thread of a run is told.
#[derive(Clone, Copy, Debug)]
pub struct LoopConfig {
    /// Most requests in flight per connection.
    pub window: usize,
    /// When the run started.
    pub bench_start: u128,
    pub deadlines: PhaseDeadlines,
    pub phases: BenchPhases,
    /// Requests per second over all connections; zero sends as fast as the
    /// window allows.
    pub target_rate: u64,
    /// Connections over all threads.
    pub total_clients: usize,
    pub thread_idx: usize,
    pub total_threads: usize,
}

impl LoopConfig {
    /// Puts the connections of the thread on their schedules, each by its
    /// number in the whole run.
    pub fn pace_all(&self, connections: &mut Vec<Connection>, rate: &TickRate, start_tsc: u64)
        requires
            forall|i: int| 0 <= i < old(connections)@.len() ==> #[trigger] old(connections)@[i].wf(),
            rate.wf(),
            self.thread_idx + old(connections)@.len() * self.total_threads <= usize::MAX,
        ensures
            final(connections)@.len() == old(connections)@.len(),
            forall|i: int|
                0 <= i < old(connections)@.len() ==> {
                    let before = old(connections)@[i];
                    let after = #[trigger] final(connections)@[i];
                    &&& after.wf()
                    &&& after.received() == before.received()
                    &&& after.queued() == before.queued()
                    &&& after.sending() == before.sending()
                    &&& after.inflight() == before.inflight()
                    &&& self.target_rate == 0 ==> after.schedule() == before.schedule()
                    &&& self.target_rate > 0 ==> on_schedule(
                        after.schedule(),
                        self.target_rate,
                        self.total_clients,
                        *rate,
                        start_tsc,
                        (self.thread_idx + i * self.total_threads) as u64,
                    )
                },
    {
        let n: usize = connections.len();
        let mut i: usize = 0;
        while i < n
            invariant
                0 <= i <= n,
                n == old(connections)@.len(),
                connections@.len() == n,
                rate.wf(),
                self.thread_idx + n * self.total_threads <= usize::MAX,
                forall|j: int| 0 <= j < n ==> #[trigger] connections@[j].wf(),
                forall|j: int| i <= j < n ==> #[trigger] connections@[j] == old(connections)@[j],
                forall|j: int|
                    0 <= j < i ==> {
                        let before = old(connections)@[j];
                        let after = #[trigger] connections@[j];
                        &&& after.received() == before.received()
                        &&& after.queued() == before.queued()
                        &&& after.sending() == before.sending()
                        &&& after.inflight() == before.inflight()
                        &&& self.target_rate == 0 ==> after.schedule() == before.schedule()
                        &&& self.target_rate > 0 ==> on_schedule(
                            after.schedule(),
                            self.target_rate,
                            self.total_clients,
                            *rate,
                            start_tsc,
                            (self.thread_idx + j * self.total_threads) as u64,
                        )
                    },
            decreases n - i,
        {
            proof {
                assert(i * self.total_threads <= n * self.total_threads) by (nonlinear_arith)
                    requires
                        i <= n,
                ;
            }
            let index: usize = global_index(self.thread_idx, i, self.total_threads);
            connections[i].pace(
                self.target_rate,
                self.total_clients,
                rate,
                start_tsc,
                index as u64,
            );
            i = i + 1;
        }
    }
}

/// The number of a thread's connection in the whole run: connections are
/// dealt out to the threads in turn.
pub fn global_index(thread: usize, local: usize, threads: usize) -> (index: usize)
    requires
        thread + local * threads <= usize::MAX,
    ensures
        index == thread + local * threads,
{
    proof {
        assert(0 <= local * threads) by (nonlinear_arith)
            requires
                0 <= local,
                0 <= threads,
        ;
    }
    thread + local * threads
}

/// The tick at which the warmup ends for the send statistics. Without a
/// target rate there are none.
pub fn warmup_end_ticks(target_rate: u64, warmup_ns: u64, now_tsc: u64, rate: &TickRate) -> (tick:
    u64)
    requires
        rate.wf(),
    ensures
        tick == (if target_rate > 0 {
            clamped(now_tsc + clamped(rate.ticks_in(warmup_ns as int)))
        } else {
            0
        }),
{
    if target_rate == 0 {
        return 0;
    }
    let warmup: u64 = rate.ns_to_tsc(warmup_ns);
    if warmup > u64::MAX - now_tsc {
        u64::MAX
    } else {
        now_tsc + warmup
    }
}

/// Frames do not depend on how their bytes arrive: bytes that come later
/// continue what the earlier ones left.
pub proof fn law_frames_reassemble(first: Seq<u8>, second: Seq<u8>)
    ensures
        bodies(first + second) == bodies(first) + bodies(remainder(first) + second),
        remainder(first + second) == remainder(remainder(first) + second),
    decreases first.len(),
{
    let all = first + second;
    if holds_frame(first) {
        let n = 4 + announced(first);
        assert(announced(all) == announced(first));
        assert(all.skip(n) =~= first.skip(n) + second);
        assert(all.subrange(4, n) =~= first.subrange(4, n));
        law_frames_reassemble(first.skip(n), second);
        let head = seq![first.subrange(4, n)];
        assert(head + (bodies(first.skip(n)) + bodies(remainder(first.skip(n)) + second)) =~= (head
            + bodies(first.skip(n))) + bodies(remainder(first.skip(n)) + second));
    } else {
        assert(bodies(first) + bodies(first + second) =~= bodies(first + second));
    }
}

/// Nothing is left behind whole frames that is itself a whole frame.
pub proof fn law_remainder_holds_no_frame(bytes: Seq<u8>)
    ensures
        !holds_frame(remainder(bytes)),
        bodies(remainder(bytes)) == Seq::<Seq<u8>>::empty(),
    decreases bytes.len(),
{
    if holds_frame(bytes) {
        law_remainder_holds_no_frame(bytes.skip(4 + announced(bytes)));
    }
}

/// Connections that are dealt out in turn get each number of the run once:
/// the connection at place `i / threads` of thread `i % threads` has number
/// `i`.
pub proof fn law_connections_are_numbered_once(i: int, threads: int)
    requires
        0 <= i,
        threads > 0,
    ensures
        i % threads + (i / threads) * threads == i,
        0 <= i % threads < threads,
{
    vstd::arithmetic::div_mod::lemma_fundamental_div_mod(i, threads);
    vstd::arithmetic::div_mod::lemma_mod_bound(i, threads);
    assert((i / threads) * threads == threads * (i / threads)) by (nonlinear_arith);
}

/// A partial send loses nothing and repeats nothing: what went out and what
/// is still queued make up what was queued.
pub proof fn law_partial_sends_make_up_the_whole(before: &Connection, after: &Connection, n: int)
    requires
        0 <= n < before.queued().len(),
        after.queued() == before.queued().skip(n),
    ensures
        before.queued().take(n) + after.queued() == before.queued(),
{
    let queued = before.queued();
    assert(queued.take(n) + queued.skip(n) =~= queued);
}

/// The highest bit of a token tells a send from a receive, and the rest is the
/// number of the connection.
pub proof fn law_highest_bit_tells_sends(token: u64, connection: usize)
    ensures
        operation_of(token) is Send <==> token >= 0x8000_0000_0000_0000,
        operation_of(token) == Operation::Recv(connection) && token <= usize::MAX ==> token
            == connection,
        operation_of(token) == Operation::Send(connection) && token - 0x8000_0000_0000_0000
            <= usize::MAX ==> token == 0x8000_0000_0000_0000 + connection,
{
}

/// A body behind its length in four bytes, the lowest first.
pub open spec fn length_prefixed(body: Seq<u8>) -> Seq<u8> {
    let n = body.len() as int;
    seq![
        (n % 0x100) as u8,
        (n / 0x100 % 0x100) as u8,
        (n / 0x1_0000 % 0x100) as u8,
        (n / 0x100_0000 % 0x100) as u8,
    ] + body
}

/// The four bytes of a number make it up.
proof fn lemma_four_bytes(n: int)
    requires
        0 <= n < 0x1_0000_0000,
    ensures
        (n % 0x100) + (n / 0x100 % 0x100) * 0x100 + (n / 0x1_0000 % 0x100) * 0x1_0000 + (n
            / 0x100_0000 % 0x100) * 0x100_0000 == n,
{
    assert(n / 0x1_0000 == n / 0x100 / 0x100);
    assert(n / 0x100_0000 == n / 0x100 / 0x100 / 0x100);
    assert(n / 0x100_0000 < 0x100);
}

/// A frame is read back whole wherever more follows, and a frame that is cut
/// short is not read at all.
#[verifier::rlimit(40)]
pub proof fn law_frame_is_read_back(body: Seq<u8>, rest: Seq<u8>, cut: int)
    requires
        body.len() < 0x1_0000_0000,
        0 <= cut < 4 + body.len(),
    ensures
        bodies(length_prefixed(body) + rest) == seq![body] + bodies(rest),
        remainder(length_prefixed(body) + rest) == remainder(rest),
        bodies(length_prefixed(body).take(cut)) == Seq::<Seq<u8>>::empty(),
        remainder(length_prefixed(body).take(cut)) == length_prefixed(body).take(cut),
{
    let n = body.len() as int;
    let all = length_prefixed(body) + rest;
    lemma_four_bytes(n);
    assert(all[0] == length_prefixed(body)[0] && all[1] == length_prefixed(body)[1]);
    assert(all[2] == length_prefixed(body)[2] && all[3] == length_prefixed(body)[3]);
    assert(announced(all) == n);
    assert(all.subrange(4, 4 + n) =~= body);
    assert(all.skip(4 + n) =~= rest);
    assert(holds_frame(all));
    let part = length_prefixed(body).take(cut);
    if cut >= 4 {
        assert(part[0] == all[0] && part[1] == all[1] && part[2] == all[2] && part[3] == all[3]);
        assert(announced(part) == n);
    }
    assert(!holds_frame(part));
}

/// A request gets a place only while the window has one, goes out no earlier
/// than its schedule says and counts from its scheduled time; without a
/// schedule it counts from now. It becomes the youngest in flight.
#[verifier::rlimit(40)]
pub proof fn law_request_takes_a_place(
    c: &mut Connection,
    window: usize,
    now_tsc: u64,
    warmup_end_tsc: u64,
    stats: &mut PaceStats,
    rate: &TickRate,
    sent: Option<u64>,
)
    requires
        call_ensures(
            Connection::claim_slot,
            (c, window, now_tsc, warmup_end_tsc, stats, rate),
            sent,
        ),
    ensures
        sent is Some ==> old(c).inflight().len() < window,
        sent is Some ==> final(c).inflight().len() <= window,
        sent matches Some(t) ==> final(c).inflight().last() == t && final(c).inflight().drop_last()
            == old(c).inflight(),
        sent is None ==> final(c).inflight() == old(c).inflight() && *final(stats) == *old(stats),
        old(c).schedule() is None ==> *final(stats) == *old(stats),
        old(c).schedule() is None ==> (sent is Some <==> old(c).inflight().len() < window),
        old(c).schedule() is None && sent is Some ==> sent == Some(now_tsc),
        old(c).schedule() matches Some(s) ==> {
            &&& sent matches Some(t) ==> t <= now_tsc && t == s.next_due()
            &&& sent is None ==> old(c).inflight().len() >= window || now_tsc < s.next_due()
            &&& sent is Some && now_tsc >= warmup_end_tsc && old(stats).scheduled < u64::MAX
                ==> final(stats).scheduled == old(stats).scheduled + 1
            &&& now_tsc < warmup_end_tsc ==> *final(stats) == *old(stats)
        },
{
    if old(c).schedule() is Some {
        lemma_times_are_ticks(old(c).schedule()->0);
    }
    assert(old(c).inflight().push(sent->0).drop_last() =~= old(c).inflight());
}

/// Requests are answered in the order in which they were sent: a completion
/// ends the oldest in flight, whose time its latency counts from.
pub proof fn law_oldest_request_is_answered(
    c: &mut Connection,
    now_tsc: u64,
    rate: &TickRate,
    first: Option<u64>,
    latency: Option<u64>,
    span: u64,
)
    requires
        rate.wf(),
        call_ensures(Connection::oldest, (&*old(c),), first),
        call_ensures(Connection::complete, (c, now_tsc, rate), latency),
        first matches Some(t) ==> t <= now_tsc && call_ensures(
            tsc_to_ns,
            ((now_tsc - t) as u64, rate),
            span,
        ),
    ensures
        latency is Some <==> old(c).inflight().len() > 0,
        latency matches Some(ns) ==> ns == span,
        latency is Some ==> old(c).inflight() == seq![first->0] + final(c).inflight(),
        latency is None ==> final(c).inflight() == old(c).inflight(),
{
    if first is Some {
        assert(old(c).inflight() =~= seq![first->0] + old(c).inflight().skip(1));
    }
}

/// Queued requests go out in their order: what is queued joins behind, what
/// was sent leaves from the front, and what was not sent stays.
pub proof fn law_queued_bytes_go_out_in_order(c: &mut Connection, frame: &[u8])
    requires
        call_ensures(Connection::queue, (c, frame), ()),
    ensures
        final(c).queued().take(old(c).queued().len() as int) == old(c).queued(),
        final(c).queued().skip(old(c).queued().len() as int) == frame@,
        final(c).sending() == old(c).sending(),
        final(c).inflight() == old(c).inflight(),
{
    assert(final(c).queued().take(old(c).queued().len() as int) =~= old(c).queued());
    assert(final(c).queued().skip(old(c).queued().len() as int) =~= frame@);
}

/// What was sent and what is left make up what was queued; nothing is left
/// once all of it was sent, and the next send may start.
pub proof fn law_sent_bytes_leave_the_queue(c: &mut Connection, n: usize)
    requires
        call_ensures(Connection::sent, (c, n), ()),
    ensures
        n <= old(c).queued().len() ==> {
            &&& old(c).queued() == old(c).queued().take(n as int) + final(c).queued()
            &&& final(c).queued().len() == old(c).queued().len() - n
        },
        n >= old(c).queued().len() ==> final(c).queued().len() == 0,
        !final(c).sending(),
        final(c).inflight() == old(c).inflight(),
{
    if n <= old(c).queued().len() {
        if n < old(c).queued().len() {
            assert(final(c).queued() == old(c).queued().skip(n as int));
        } else {
            assert(final(c).queued() =~= old(c).queued().skip(n as int));
        }
        assert(old(c).queued() =~= old(c).queued().take(n as int) + old(c).queued().skip(n as int));
    }
}

/// Completions count in the measured phase alone; every thousandth of them
/// asks for a sample, and the first sets the start.
pub proof fn law_completions_are_sampled(
    m: &mut Measurement,
    deadlines: &PhaseDeadlines,
    now: u128,
    measured: bool,
    step: Option<SampleStep>,
)
    requires
        call_ensures(PhaseDeadlines::is_measured, (deadlines, now), measured),
        call_ensures(Measurement::observe, (m, deadlines, now), step),
        old(m).interval_count < 1000,
    ensures
        step is Some <==> measured,
        !measured ==> *final(m) == *old(m),
        measured && old(m).completed < u64::MAX ==> final(m).completed == old(m).completed + 1,
        measured ==> final(m).measured_start is Some,
        old(m).measured_start is Some ==> final(m).measured_start == old(m).measured_start,
        measured && old(m).measured_start is None ==> final(m).measured_start == Some(now),
        step == Some(SampleStep::SampleAndReset) <==> measured && old(m).interval_count == 999,
        measured && old(m).interval_count < 999 ==> {
            &&& step == Some(SampleStep::Wait)
            &&& final(m).interval_count == old(m).interval_count + 1
        },
        step == Some(SampleStep::SampleAndReset) ==> final(m).interval_count == 0,
{
    if measured {
        if old(m).interval_count < 999 {
            vstd::arithmetic::div_mod::lemma_small_mod(
                (old(m).interval_count + 1) as nat,
                SAMPLE_INTERVAL as nat,
            );
        } else {
            vstd::arithmetic::div_mod::lemma_mod_self_0(1000);
        }
    }
}

/// A thread's next connection is as far from its last as there are threads,
/// and connections of two threads never have one number.
pub proof fn law_connections_have_their_own_numbers(
    thread: usize,
    local: usize,
    other_thread: usize,
    other_local: usize,
    threads: usize,
    index: usize,
    other: usize,
)
    requires
        thread < threads,
        other_thread < threads,
        call_ensures(global_index, (thread, local, threads), index),
        call_ensures(global_index, (other_thread, other_local, threads), other),
    ensures
        index == other ==> thread == other_thread && local == other_local,
        thread == other_thread && other_local == local + 1 ==> other - index == threads,
        local == 0 ==> index == thread,
{
    assert((local + 1) * threads == local * threads + threads) by (nonlinear_arith);
    assert(local == 0 ==> local * threads == 0) by (nonlinear_arith);
    assert(local < other_local ==> local * threads + threads <= other_local * threads)
        by (nonlinear_arith);
    assert(local > other_local ==> other_local * threads + threads <= local * threads)
        by (nonlinear_arith);
}

/// Without a target rate no warmup is counted; with one the warmup ends its
/// length in ticks after now.
pub proof fn law_warmup_ends_after_its_length(
    target_rate: u64,
    warmup_ns: u64,
    now_tsc: u64,
    rate: &TickRate,
    tick: u64,
    length: u64,
)
    requires
        rate.wf(),
        call_ensures(warmup_end_ticks, (target_rate, warmup_ns, now_tsc, rate), tick),
        call_ensures(TickRate::ns_to_tsc, (rate, warmup_ns), length),
    ensures
        target_rate == 0 ==> tick == 0,
        target_rate > 0 && now_tsc + length <= u64::MAX ==> tick - now_tsc == length,
        target_rate > 0 && now_tsc + length > u64::MAX ==> tick == u64::MAX,
{
}

/// A token gives its operation back, a send's or a receive's.
pub proof fn law_token_gives_the_operation_back(
    operation: Operation,
    token: u64,
    back: Operation,
)
    requires
        call_ensures(token_for, (operation,), token),
        call_ensures(operation_for, (token,), back),
    ensures
        back == operation,
{
}

/// A run that counts no clients paces a connection as if it were the only one;
/// without a target rate no connection is paced.
pub proof fn law_pacing_counts_at_least_one_client(
    c: &mut Connection,
    d: &mut Connection,
    target_rate: u64,
    rate: &TickRate,
    start_tsc: u64,
)
    requires
        call_ensures(Connection::pace, (c, target_rate, 0usize, rate, start_tsc, 0u64), ()),
        call_ensures(Connection::pace, (d, target_rate, 1usize, rate, start_tsc, 0u64), ()),
    ensures
        target_rate > 0 ==> {
            &&& final(c).schedule() matches Some(s)
            &&& final(d).schedule() matches Some(t)
            &&& s.period() == t.period()
            &&& s.next_due() == t.next_due()
        },
        target_rate == 0 ==> final(c).schedule() == old(c).schedule(),
        final(c).inflight() == old(c).inflight(),
        final(c).queued() == old(c).queued(),
{
}

/// A thread's connections are paced each by its number in the whole run, as if
/// it were put on its schedule alone.
pub proof fn law_thread_paces_each_connection(
    config: &LoopConfig,
    connections: &mut Vec<Connection>,
    rate: &TickRate,
    start_tsc: u64,
    i: usize,
    index: usize,
    alone: &mut Connection,
)
    requires
        call_ensures(LoopConfig::pace_all, (config, connections, rate, start_tsc), ()),
        i < old(connections)@.len(),
        call_ensures(global_index, (config.thread_idx, i, config.total_threads), index),
        call_ensures(
            Connection::pace,
            (
                alone,
                config.target_rate,
                config.total_clients,
                rate,
                start_tsc,
                index as u64,
            ),
            (),
        ),
    ensures
        final(connections)@.len() == old(connections)@.len(),
        config.target_rate > 0 ==> {
            &&& final(connections)@[i as int].schedule() matches Some(s)
            &&& final(alone).schedule() matches Some(t)
            &&& s.period() == t.period()
            &&& s.next_due() == t.next_due()
        },
        config.target_rate == 0 ==> final(connections)@[i as int].schedule() == old(
            connections,
        )@[i as int].schedule(),
        final(connections)@[i as int].inflight() == old(connections)@[i as int].inflight(),
        final(connections)@[i as int].queued() == old(connections)@[i as int].queued(),
{
}

} // verus!
