//! The three wall-clock phases of a run.
//!
//! A run lasts for durations, not for a number of requests. Completions are
//! classified by the time at which they are received against deadlines that
//! all threads share, so the threads agree without more coordination. Times
//! and durations are in nanoseconds.

use vstd::prelude::*;
use vstd::string::StringExecFns;

use super::spans::{fits_duration, spans_fit};

verus! {

/// Default length of the measured phase: a minute.
pub const DEFAULT_DURATION: u128 = 60_000_000_000;

/// Default length of the warmup.
pub const DEFAULT_WARMUP: u128 = 5_000_000_000;

/// Default length of the cooldown.
pub const DEFAULT_COOLDOWN: u128 = 5_000_000_000;

/// Default number of requests in flight per client.
pub const DEFAULT_WINDOW: usize = 64;

/// Default number of client connections.
pub const DEFAULT_CLIENTS: usize = 16;

/// Default number of client threads.
pub const DEFAULT_BENCH_THREADS: usize = 4;

/// The lengths of the phases.
#[derive(Clone, Copy, Debug, PartialEq, Eq, Structural)]
pub struct BenchPhases {
    pub warmup: u128,
    pub measured: u128,
    pub cooldown: u128,
}

/// When the phases end.
#[derive(Clone, Copy, Debug, PartialEq, Eq, Structural)]
pub struct PhaseDeadlines {
    pub warmup_end: u128,
    pub measured_end: u128,
    pub cooldown_end: u128,
}

/// A part of a run.
#[derive(Clone, Copy, Debug, PartialEq, Eq, Structural)]
pub enum Phase {
    /// Completions are not recorded yet.
    Warmup,
    /// Completions are recorded.
    Measured,
    /// Completions are not recorded any more.
    Cooldown,
    /// The run has ended.
    Over,
}

impl BenchPhases {
    /// The deadlines of a run that starts at a time: each phase follows the
    /// one before.
    pub fn deadlines(self, start: u128) -> (d: PhaseDeadlines)
        requires
            start + self.warmup + self.measured + self.cooldown <= u128::MAX,
        ensures
            d.warmup_end == start + self.warmup,
            d.measured_end == start + self.warmup + self.measured,
            d.cooldown_end == start + self.warmup + self.measured + self.cooldown,
    {
        let warmup_end: u128 = start + self.warmup;
        let measured_end: u128 = warmup_end + self.measured;
        let cooldown_end: u128 = measured_end + self.cooldown;
        PhaseDeadlines { warmup_end, measured_end, cooldown_end }
    }
}

impl PhaseDeadlines {
    /// Whether the phases end in their order.
    pub open spec fn ordered(self) -> bool {
        self.warmup_end <= self.measured_end <= self.cooldown_end
    }

    /// The phase at a time.
    pub open spec fn at(self, now: u128) -> Phase {
        if now >= self.cooldown_end {
            Phase::Over
        } else if now < self.warmup_end {
            Phase::Warmup
        } else if now < self.measured_end {
            Phase::Measured
        } else {
            Phase::Cooldown
        }
    }

    /// The phase at a time.
    pub fn phase_at(&self, now: u128) -> (phase: Phase)
        ensures
            phase == self.at(now),
    {
        if now >= self.cooldown_end {
            Phase::Over
        } else if now < self.warmup_end {
            Phase::Warmup
        } else if now < self.measured_end {
            Phase::Measured
        } else {
            Phase::Cooldown
        }
    }

    /// Whether a completion received at a time is recorded.
    pub fn is_measured(&self, now: u128) -> (b: bool)
        ensures
            b == (self.warmup_end <= now < self.measured_end),
    {
        now >= self.warmup_end && now < self.measured_end
    }
}

/// What is said of a text whose spans are longer than a duration can be.
pub const SPANS_TOO_LARGE: &'static str =
    "number is too large or cannot be represented without a lack of precision (values below 1ns are not supported)";

/// Names what `humantime` reads a text as: a duration in nanoseconds, or the
/// reason why it is none.
pub uninterp spec fn duration_in(text: Seq<char>) -> Result<u128, Seq<char>>;

/// `humantime::Duration`'s parser reads a duration of numbers with units, or
/// reports why it cannot. It panics where the spans of a text add up to just
/// the first second that a duration cannot hold any more, and reports an
/// overflow where they add up to more. Spans that fit add up to less.
#[verifier::external_body]
fn read_duration(text: &str) -> (r: Result<u128, String>)
    requires
        spans_fit(text@),
    ensures
        match r {
            Ok(nanos) => duration_in(text@) == Ok::<u128, Seq<char>>(nanos),
            Err(e) => duration_in(text@) == Err::<u128, Seq<char>>(e@),
        },
{
    text.parse::<humantime::Duration>().map(|d| d.as_nanos()).map_err(|e| e.to_string())
}

/// What is made of a reading of a duration: an error names the text.
pub fn duration_or_error(text: &str, read: Result<u128, String>) -> (r: Result<u128, String>)
    ensures
        match read {
            Ok(nanos) => r == Ok::<u128, String>(nanos),
            Err(e) => r is Err && r->Err_0@ == "invalid duration `"@ + text@ + "`: "@ + e@,
        },
{
    match read {
        Ok(nanos) => Ok(nanos),
        Err(e) => {
            let mut message: String = "invalid duration `".to_owned();
            message.append(text);
            message.append("`: ");
            message.append(e.as_str());
            Err(message)
        },
    }
}

/// Reads a duration such as `30s`, `2m` or `500ms`. A text whose spans are
/// together longer than a duration can be is refused unread.
pub fn parse_duration(text: &str) -> (r: Result<u128, String>)
    ensures
        match (if spans_fit(text@) {
            duration_in(text@)
        } else {
            Err(SPANS_TOO_LARGE@)
        }) {
            Ok(nanos) => r == Ok::<u128, String>(nanos),
            Err(e) => r is Err && r->Err_0@ == "invalid duration `"@ + text@ + "`: "@ + e,
        },
{
    let read: Result<u128, String> = if fits_duration(text) {
        read_duration(text)
    } else {
        Err(SPANS_TOO_LARGE.to_owned())
    };
    duration_or_error(text, read)
}

/// Deadlines stand in order even where phases have no length, so the phases
/// follow each other without a gap: time only moves a run forward.
pub proof fn law_deadlines_are_ordered(phases: BenchPhases, start: u128, d: PhaseDeadlines)
    requires
        d.warmup_end == start + phases.warmup,
        d.measured_end == start + phases.warmup + phases.measured,
        d.cooldown_end == start + phases.warmup + phases.measured + phases.cooldown,
    ensures
        d.ordered(),
        start <= d.warmup_end,
{
}

/// The number of a phase in the order of a run.
pub open spec fn phase_number(phase: Phase) -> int {
    match phase {
        Phase::Warmup => 0,
        Phase::Measured => 1,
        Phase::Cooldown => 2,
        Phase::Over => 3,
    }
}

/// A run never goes back to an earlier phase.
pub proof fn law_phases_move_forward(d: PhaseDeadlines, earlier: u128, later: u128)
    requires
        d.ordered(),
        earlier <= later,
    ensures
        phase_number(d.at(earlier)) <= phase_number(d.at(later)),
        (d.at(earlier) == Phase::Measured) == (d.warmup_end <= earlier < d.measured_end),
{
}

/// A run is warming up before the first deadline, measured from it to the
/// second, cooling down from there to the third, and over from then on.
pub proof fn law_phase_by_deadlines(d: PhaseDeadlines, now: u128)
    requires
        d.ordered(),
    ensures
        d.at(now) == Phase::Over <==> d.cooldown_end <= now,
        d.at(now) == Phase::Warmup <==> now < d.warmup_end,
        d.at(now) == Phase::Measured <==> d.warmup_end <= now < d.measured_end,
        d.at(now) == Phase::Cooldown <==> d.measured_end <= now < d.cooldown_end,
{
}

/// The phases follow each other for their lengths from the start on.
pub proof fn law_deadlines_are_lengths_apart(phases: BenchPhases, start: u128, d: PhaseDeadlines)
    requires
        call_ensures(BenchPhases::deadlines, (phases, start), d),
    ensures
        d.warmup_end - start == phases.warmup,
        d.measured_end - d.warmup_end == phases.measured,
        d.cooldown_end - d.measured_end == phases.cooldown,
        d.ordered(),
{
}

/// Completions are recorded in the measured phase and in no other.
pub proof fn law_recorded_in_the_measured_phase(
    d: PhaseDeadlines,
    now: u128,
    phase: Phase,
    recorded: bool,
)
    requires
        d.ordered(),
        call_ensures(PhaseDeadlines::phase_at, (&d, now), phase),
        call_ensures(PhaseDeadlines::is_measured, (&d, now), recorded),
    ensures
        recorded <==> phase == Phase::Measured,
        phase == Phase::Over <==> d.cooldown_end <= now,
        phase == Phase::Warmup <==> now < d.warmup_end,
{
    law_phase_by_deadlines(d, now);
}

/// A text whose spans are too long for a duration is no duration; any other is
/// what its reading gave.
pub proof fn law_too_long_spans_are_refused(
    text: &str,
    fits: bool,
    r: Result<u128, String>,
    read: Result<u128, String>,
    taken: Result<u128, String>,
)
    requires
        call_ensures(fits_duration, (text,), fits),
        call_ensures(parse_duration, (text,), r),
        call_ensures(duration_or_error, (text, read), taken),
    ensures
        !fits ==> r is Err,
        fits ==> (r is Ok <==> duration_in(text@) is Ok),
        r matches Ok(nanos) ==> duration_in(text@) == Ok::<u128, Seq<char>>(nanos),
        taken is Ok <==> read is Ok,
        read matches Ok(nanos) ==> taken == Ok::<u128, String>(nanos),
{
}

} // verus!
