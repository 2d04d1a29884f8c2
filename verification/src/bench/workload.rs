//! The seam between the event loop and what it benchmarks.
//!
//! The loop owns timing, pacing and phases. A workload makes the requests
//! and tells which answers complete one; one workload serves one connection.

use vstd::prelude::*;

use super::clock::{clamped, tsc_to_ns, TickRate};
use super::connection::{bodies, remainder, Connection, Measurement};
use super::outcomes::{law_merge_is_associative, law_merge_is_commutative, outcomes_text};
use super::outcomes::{OutcomeReport, Tallies};
use super::pacing::{counted, step, PaceStats};
use super::phases::PhaseDeadlines;
use super::series::{SampleStep, SAMPLE_INTERVAL};
use crate::protocol::message::ServerFrame;

verus! {

/// What a workload counts per connection. Counts are folded together in the
/// order in which the threads end, which is not fixed: folding has to be
/// associative and commutative.
pub trait Outcomes: Sized {
    /// Folds another's counts in, where they fit: whether they did.
    fn try_merge(&mut self, other: &Self) -> (merged: bool);

    /// The `outcomes` object of the results file, with its braces.
    fn render_json(&self) -> (s: String);
}

/// Makes requests and classifies answers for one connection. Decoding,
/// classification and counting are apart so that the time of an answer can
/// be read between them.
pub trait Workload: Sized {
    /// A decoded answer.
    type Response;

    /// What is counted.
    type Outcomes: Outcomes;

    /// Appends one request frame, its length before its body.
    fn next_frame(&mut self, out: &mut Vec<u8>)
        ensures
            old(out)@.is_prefix_of(final(out)@),
            bodies(final(out)@.skip(old(out)@.len() as int)).len() == 1,
            remainder(final(out)@.skip(old(out)@.len() as int)) == Seq::<u8>::empty(),
    ;

    /// Decodes the body of an answer, where it can be decoded.
    fn decode(&self, body: &[u8]) -> (r: Option<Self::Response>);

    /// Whether an answer completes a request: true once per request.
    fn completes_request(&self, response: &Self::Response) -> (b: bool);

    /// Counts an answer, whatever the phase.
    fn record(&mut self, response: &Self::Response);

    /// What was counted.
    fn outcomes(&self) -> (o: &Self::Outcomes);
}

impl Outcomes for OutcomeReport {
    fn try_merge(&mut self, other: &OutcomeReport) -> (merged: bool)
        ensures
            merged == old(self)@.merged(other@).within(u64::MAX as int),
            final(self)@ == (if merged {
                old(self)@.merged(other@)
            } else {
                old(self)@
            }),
    {
        if self.fits(other) {
            self.merge(other);
            true
        } else {
            false
        }
    }

    fn render_json(&self) -> (s: String)
        ensures
            s@ == outcomes_text(self@),
    {
        OutcomeReport::render_json(self)
    }
}

/// Whether a frame of the exchange completes a request: only the end of its
/// batch does, whatever reports came before.
pub fn frame_completes(frame: &ServerFrame) -> (b: bool)
    ensures
        b == (*frame is BatchEnd),
{
    match frame {
        ServerFrame::BatchEnd => true,
        _ => false,
    }
}

/// What the received bytes gave.
#[derive(Debug)]
pub enum Received<R> {
    /// No whole frame is left.
    Nothing,
    /// A frame that the workload cannot decode.
    Undecodable,
    /// An answer that completes a request: its time is to be read now.
    Completion(R),
    /// An answer that is only counted.
    Other(R),
}

/// Whether a workload may decode a frame's body as an answer.
pub open spec fn decoded_as<W: Workload>(
    workload: &W,
    frame: Seq<u8>,
    response: W::Response,
) -> bool {
    exists|body: &[u8]|
        body@ == frame && #[trigger] call_ensures(W::decode, (workload, body), Some(response))
}

/// Takes the next answer out of a connection's received bytes.
pub fn next_response<W: Workload>(conn: &mut Connection, workload: &W) -> (r: Received<W::Response>)
    requires
        old(conn).wf(),
    ensures
        final(conn).wf(),
        final(conn).same_sending(old(conn)),
        ({
            let frames = bodies(old(conn).received());
            if frames.len() == 0 {
                r is Nothing && final(conn).received() == old(conn).received()
            } else {
                &&& frames == seq![frames[0]] + bodies(final(conn).received())
                &&& remainder(final(conn).received()) == remainder(old(conn).received())
                &&& match r {
                    Received::Nothing => false,
                    Received::Undecodable => exists|body: &[u8]|
                        body@ == frames[0] && #[trigger] call_ensures(
                            W::decode,
                            (workload, body),
                            None,
                        ),
                    Received::Completion(response) => decoded_as(
                        workload,
                        frames[0],
                        response,
                    ) && call_ensures(W::completes_request, (workload, &response), true),
                    Received::Other(response) => decoded_as(workload, frames[0], response)
                        && call_ensures(W::completes_request, (workload, &response), false),
                }
            }
        }),
{
    match conn.next_frame() {
        None => Received::Nothing,
        Some(body) => {
            proof {
                let frames = bodies(old(conn).received());
                assert(frames[0] == body@);
            }
            let slice: &[u8] = body.as_slice();
            match workload.decode(slice) {
                None => {
                    assert(call_ensures(W::decode, (workload, slice), None));
                    Received::Undecodable
                },
                Some(response) => {
                    assert(call_ensures(W::decode, (workload, slice), Some(response)));
                    if workload.completes_request(&response) {
                        Received::Completion(response)
                    } else {
                        Received::Other(response)
                    }
                },
            }
        },
    }
}

/// What became of a completion.
#[derive(Clone, Copy, Debug, PartialEq, Eq, Structural)]
pub enum Timing {
    /// No request was in flight.
    Unmatched,
    /// The clock reads earlier than when the request was sent.
    ClockBehind,
    /// Outside the measured phase.
    Untimed,
    /// The latency is to be recorded, and the interval's histogram to be
    /// handled as told.
    Timed { latency_ns: u64, sample: SampleStep },
}

/// Ends the oldest request of a connection, and times it in the measured
/// phase.
pub fn finish_request(
    conn: &mut Connection,
    measurement: &mut Measurement,
    deadlines: &PhaseDeadlines,
    now: u128,
    now_tsc: u64,
    rate: &TickRate,
) -> (t: Timing)
    requires
        old(conn).wf(),
        old(measurement).wf(),
        rate.wf(),
    ensures
        final(conn).wf(),
        final(measurement).wf(),
        final(conn).received() == old(conn).received(),
        final(conn).queued() == old(conn).queued(),
        final(conn).sending() == old(conn).sending(),
        final(conn).schedule() == old(conn).schedule(),
        ({
            let inflight = old(conn).inflight();
            if inflight.len() == 0 {
                &&& t == Timing::Unmatched
                &&& final(conn).inflight() == inflight
                &&& *final(measurement) == *old(measurement)
            } else if now_tsc < inflight[0] {
                &&& t == Timing::ClockBehind
                &&& final(conn).inflight() == inflight
                &&& *final(measurement) == *old(measurement)
            } else {
                &&& final(conn).inflight() == inflight.skip(1)
                &&& if deadlines.warmup_end <= now < deadlines.measured_end {
                    &&& t == (Timing::Timed {
                        latency_ns: clamped(rate.nanos_in(now_tsc - inflight[0])) as u64,
                        sample: if old(measurement).interval_count + 1 == SAMPLE_INTERVAL {
                            SampleStep::SampleAndReset
                        } else {
                            SampleStep::Wait
                        },
                    })
                    &&& final(measurement).completed == counted(old(measurement).completed)
                    &&& final(measurement).measured_start == (match old(
                        measurement,
                    ).measured_start {
                        Some(start) => Some(start),
                        None => Some(now),
                    })
                    &&& final(measurement).interval_count == (old(measurement).interval_count + 1)
                        % (SAMPLE_INTERVAL as int)
                } else {
                    t == Timing::Untimed && *final(measurement) == *old(measurement)
                }
            }
        }),
{
    match conn.oldest() {
        None => return Timing::Unmatched,
        Some(sent_tsc) => {
            if now_tsc < sent_tsc {
                return Timing::ClockBehind;
            }
        },
    }
    match conn.complete(now_tsc, rate) {
        None => Timing::Unmatched,
        Some(latency_ns) => match measurement.observe(deadlines, now) {
            None => Timing::Untimed,
            Some(sample) => Timing::Timed { latency_ns, sample },
        },
    }
}

/// Makes the next request of a connection, where its window and its schedule
/// allow one: whether it did. The workload's next frame then waits behind the
/// queued bytes.
pub fn fill_slot<W: Workload>(
    conn: &mut Connection,
    workload: &mut W,
    window: usize,
    now_tsc: u64,
    warmup_end_tsc: u64,
    stats: &mut PaceStats,
    rate: &TickRate,
) -> (filled: bool)
    requires
        old(conn).wf(),
        rate.wf(),
    ensures
        final(conn).wf(),
        final(conn).received() == old(conn).received(),
        final(conn).sending() == old(conn).sending(),
        ({
            let schedule = old(conn).schedule();
            let time = if schedule is Some {
                schedule->0.next_due() as u64
            } else {
                now_tsc
            };
            &&& filled == (old(conn).inflight().len() < window && (schedule is None || now_tsc
                >= schedule->0.next_due()))
            &&& (final(conn).schedule() is Some) == (schedule is Some)
            &&& schedule is Some ==> {
                &&& final(conn).schedule()->0.period() == schedule->0.period()
                &&& final(conn).schedule()->0.next_due() == (if filled {
                    step(schedule->0.next_due(), schedule->0.period())
                } else {
                    schedule->0.next_due()
                })
            }
            &&& if filled {
                let added = final(conn).queued().skip(old(conn).queued().len() as int);
                &&& final(conn).inflight() == old(conn).inflight().push(time)
                &&& old(conn).queued().is_prefix_of(final(conn).queued())
                &&& bodies(added).len() == 1
                &&& remainder(added) == Seq::<u8>::empty()
                &&& exists|w: &mut W, out: &mut Vec<u8>|
                    #![trigger call_ensures(W::next_frame, (w, out), ())]
                    {
                        &&& *w == *old(workload)
                        &&& *final(w) == *final(workload)
                        &&& out@ == Seq::<u8>::empty()
                        &&& final(out)@ == added
                        &&& call_ensures(W::next_frame, (w, out), ())
                    }
                &&& *final(stats) == (if schedule is Some && now_tsc >= warmup_end_tsc {
                    old(stats).with_send(now_tsc, time, *rate)
                } else {
                    *old(stats)
                })
            } else {
                &&& final(conn).inflight() == old(conn).inflight()
                &&& final(conn).queued() == old(conn).queued()
                &&& *final(stats) == *old(stats)
                &&& *final(workload) == *old(workload)
            }
        }),
{
    match conn.claim_slot(window, now_tsc, warmup_end_tsc, stats, rate) {
        None => false,
        Some(_) => {
            let mut frame: Vec<u8> = Vec::new();
            workload.next_frame(&mut frame);
            conn.queue(frame.as_slice());
            proof {
                assert(frame@.skip(0) =~= frame@);
                assert(conn.queued().skip(old(conn).queued().len() as int) =~= frame@);
            }
            true
        },
    }
}

/// The counts of some parts of a run together.
pub open spec fn total_of(parts: Seq<OutcomeReport>) -> Tallies
    decreases parts.len(),
{
    if parts.len() == 0 {
        Tallies::none()
    } else {
        total_of(parts.drop_last()).merged(parts.last()@)
    }
}

/// Folds the parts of a run together. Nothing where the counts cannot be
/// held on the way.
pub fn merge_all(parts: &Vec<OutcomeReport>) -> (r: Option<OutcomeReport>)
    ensures
        r is Some <==> (forall|n: int|
            0 < n <= parts@.len() ==> (#[trigger] total_of(parts@.take(n))).within(
                u64::MAX as int,
            )),
        r is Some ==> r->0@ == total_of(parts@),
{
    let mut all: OutcomeReport = OutcomeReport::default();
    let mut i: usize = 0;
    assert(parts@.take(0) =~= Seq::empty());
    while i < parts.len()
        invariant
            0 <= i <= parts@.len(),
            all@ == total_of(parts@.take(i as int)),
            forall|n: int|
                0 < n <= i ==> (#[trigger] total_of(parts@.take(n))).within(u64::MAX as int),
        decreases parts@.len() - i,
    {
        proof {
            let upto = parts@.take(i + 1);
            assert(upto.drop_last() =~= parts@.take(i as int));
            assert(upto.last() == parts@[i as int]);
        }
        if !all.try_merge(&parts[i]) {
            assert(!total_of(parts@.take(i + 1)).within(u64::MAX as int));
            return None;
        }
        i = i + 1;
    }
    assert(parts@.take(i as int) =~= parts@);
    Some(all)
}

/// Two neighbouring parts may end in either order.
pub proof fn law_parts_may_end_in_any_order(
    before: Seq<OutcomeReport>,
    x: OutcomeReport,
    y: OutcomeReport,
)
    ensures
        total_of(before.push(x).push(y)) == total_of(before.push(y).push(x)),
{
    assert(before.push(x).push(y).drop_last() =~= before.push(x));
    assert(before.push(y).push(x).drop_last() =~= before.push(y));
    assert(before.push(x).drop_last() =~= before);
    assert(before.push(y).drop_last() =~= before);
    reveal_with_fuel(total_of, 3);
    let t = total_of(before);
    law_merge_is_associative(t, x@, y@);
    law_merge_is_associative(t, y@, x@);
    law_merge_is_commutative(x@, y@);
}

/// The parts of a run add up whichever way they are grouped.
pub proof fn law_parts_add_up(a: Seq<OutcomeReport>, b: Seq<OutcomeReport>, one: OutcomeReport)
    ensures
        total_of(a + b) == total_of(a).merged(total_of(b)),
        total_of(Seq::empty()) == Tallies::none(),
        total_of(seq![one]) == one@,
    decreases b.len(),
{
    reveal_with_fuel(total_of, 2);
    assert(seq![one].drop_last() =~= Seq::<OutcomeReport>::empty());
    assert(Tallies::none().merged(one@) =~= one@);
    lemma_total_shape(a);
    if b.len() == 0 {
        assert(a + b =~= a);
        assert(total_of(a).merged(Tallies::none()) =~= total_of(a));
    } else {
        let rest = b.drop_last();
        assert((a + b).drop_last() =~= a + rest);
        law_parts_add_up(a, rest, one);
        law_merge_is_associative(total_of(a), total_of(rest), b.last()@);
    }
}

proof fn lemma_total_shape(parts: Seq<OutcomeReport>)
    ensures
        total_of(parts).reasons.len() == 22,
{
}

/// A completion ends the oldest request in flight, once the clock has reached
/// it; it is timed in the measured phase alone, with its latency. A completion
/// without a request, or ahead of it, changes nothing.
#[verifier::rlimit(40)]
pub proof fn law_completion_ends_the_oldest_request(
    conn: &mut Connection,
    m: &mut Measurement,
    deadlines: &PhaseDeadlines,
    now: u128,
    now_tsc: u64,
    rate: &TickRate,
    t: Timing,
    measured: bool,
    span: u64,
)
    requires
        rate.wf(),
        call_ensures(finish_request, (conn, m, deadlines, now, now_tsc, rate), t),
        call_ensures(PhaseDeadlines::is_measured, (deadlines, now), measured),
        old(conn).inflight().len() > 0 && old(conn).inflight()[0] <= now_tsc ==> call_ensures(
            tsc_to_ns,
            ((now_tsc - old(conn).inflight()[0]) as u64, rate),
            span,
        ),
    ensures
        t is Unmatched <==> old(conn).inflight().len() == 0,
        t is ClockBehind <==> old(conn).inflight().len() > 0 && now_tsc < old(conn).inflight()[0],
        t is Unmatched || t is ClockBehind ==> final(conn).inflight() == old(conn).inflight()
            && *final(m) == *old(m),
        t is Timed || t is Untimed ==> old(conn).inflight() == seq![old(conn).inflight()[0]]
            + final(conn).inflight(),
        t is Timed ==> measured,
        t is Untimed ==> !measured && *final(m) == *old(m),
        t matches Timing::Timed { latency_ns, .. } ==> latency_ns == span,
        t is Timed && old(m).completed < u64::MAX ==> final(m).completed == old(m).completed + 1,
{
    if t is Timed || t is Untimed {
        let inflight = old(conn).inflight();
        assert(inflight =~= seq![inflight[0]] + inflight.skip(1));
    }
}

/// A frame completes a request exactly where it finishes the batch of a plain
/// client.
pub proof fn law_batch_end_completes_the_request(
    frame: &ServerFrame,
    completes: bool,
    step: crate::protocol::client::PlainStep,
)
    requires
        call_ensures(frame_completes, (frame,), completes),
        call_ensures(crate::protocol::client::plain_step, (frame,), step),
    ensures
        completes <==> step is Finish,
{
}

} // verus!
