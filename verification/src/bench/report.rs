//! End-of-run reporting: which percentiles a run supports, the summary's
//! texts and the results file.
//!
//! Numbers with decimals come in as they are printed; everything around them
//! is laid out here.

use vstd::arithmetic::power::pow;
use vstd::prelude::*;
use vstd::string::StringExecFns;

use super::phases::{duration_in, BenchPhases};
use crate::text::{decimal, decimal_string};
use crate::text_laws::{lemma_says, says};

verus! {

/// What a benchmark counts, in the forms that a summary needs.
#[derive(Clone, Copy, Debug)]
pub struct Unit {
    pub singular: &'static str,
    pub plural: &'static str,
    pub heading: &'static str,
}

impl Unit {
    /// The unit of a server without a more special one.
    pub fn request() -> (unit: Unit)
        ensures
            unit.singular@ == "request"@,
            unit.plural@ == "requests"@,
            unit.heading@ == "Per-Request"@,
    {
        Unit { singular: "request", plural: "requests", heading: "Per-Request" }
    }

    /// The unit of an exchange.
    pub fn order() -> (unit: Unit)
        ensures
            unit.singular@ == "order"@,
            unit.plural@ == "orders"@,
            unit.heading@ == "Per-Order"@,
    {
        Unit { singular: "order", plural: "orders", heading: "Per-Order" }
    }
}

/// What pacing did over a run. The longest delay is as it is printed.
#[derive(Debug)]
pub struct PacingReport {
    pub target_rate: u64,
    pub scheduled: u64,
    pub late_sends: u64,
    pub max_send_delay_us: String,
}

/// Whether a number of percentiles of two and more nines is what some samples
/// support: each further nine takes ten times the samples, and the first a
/// thousand.
pub open spec fn is_supported(samples: int, percentiles: int) -> bool {
    &&& percentiles >= 0
    &&& percentiles > 0 ==> pow(10, (percentiles + 2) as nat) <= samples
    &&& samples < pow(10, (percentiles + 3) as nat)
}

/// How many percentiles of two and more nines some samples support.
pub fn supported_nines(samples: u64) -> (percentiles: usize)
    ensures
        is_supported(samples as int, percentiles as int),
        percentiles <= 17,
{
    let mut n: usize = 0;
    let mut threshold: u128 = 1_000;
    assert(pow(10, 3) == 1_000) by {
        reveal_with_fuel(pow, 4);
    }
    while threshold <= samples as u128
        invariant
            threshold == pow(10, (n + 3) as nat),
            n > 0 ==> pow(10, (n + 2) as nat) <= samples,
            n <= 17,
            threshold <= 10 * 0xffff_ffff_ffff_ffff,
        decreases 17 - n,
    {
        proof {
            assert(pow(10, (n + 4) as nat) == 10 * pow(10, (n + 3) as nat)) by {
                reveal_with_fuel(pow, 2);
            }
            if n == 17 {
                assert(pow(10, 20) == 100_000_000_000_000_000_000) by {
                    reveal_with_fuel(pow, 21);
                }
            }
        }
        n = n + 1;
        threshold = threshold * 10;
    }
    n
}

/// A character repeated.
pub open spec fn repeated(text: Seq<char>, n: nat) -> Seq<char>
    decreases n,
{
    if n == 0 {
        Seq::empty()
    } else {
        repeated(text, (n - 1) as nat) + text
    }
}

fn append_repeated(s: &mut String, text: &str, n: usize)
    ensures
        final(s)@ == old(s)@ + repeated(text@, n as nat),
{
    let mut i: usize = 0;
    assert(s@ + repeated(text@, 0) =~= s@);
    while i < n
        invariant
            0 <= i <= n,
            s@ == old(s)@ + repeated(text@, i as nat),
        decreases n - i,
    {
        s.append(text);
        assert(s@ =~= old(s)@ + repeated(text@, (i + 1) as nat));
        i = i + 1;
    }
}

/// The label of a percentile in the summary.
pub open spec fn console_label_text(nines: int) -> Seq<char> {
    if nines <= 2 {
        "p99"@
    } else {
        "p99."@ + repeated("9"@, (nines - 2) as nat)
    }
}

/// The label of a percentile in the results file.
pub open spec fn json_label_text(nines: int) -> Seq<char> {
    if nines <= 2 {
        "p99_us"@
    } else {
        "p99"@ + repeated(".9"@, (nines - 2) as nat) + "_us"@
    }
}

/// The label of a percentile in the summary.
pub fn console_label(nines: usize) -> (s: String)
    ensures
        s@ == console_label_text(nines as int),
{
    if nines <= 2 {
        "p99".to_owned()
    } else {
        let mut s: String = "p99.".to_owned();
        append_repeated(&mut s, "9", nines - 2);
        s
    }
}

/// The label of a percentile in the results file.
pub fn json_label(nines: usize) -> (s: String)
    ensures
        s@ == json_label_text(nines as int),
{
    if nines <= 2 {
        "p99_us".to_owned()
    } else {
        let mut s: String = "p99".to_owned();
        append_repeated(&mut s, ".9", nines - 2);
        s.append("_us");
        s
    }
}

/// The latencies of a run in microseconds, as they are printed. `nines` are
/// the percentiles of two, three and more nines.
#[derive(Debug)]
pub struct LatencyTexts {
    pub min: String,
    pub p50: String,
    pub p90: String,
    pub nines: Vec<String>,
    pub max: String,
}

/// Percentiles of two and more nines in the results file.
pub open spec fn nines_text(nines: Seq<String>) -> Seq<char>
    decreases nines.len(),
{
    if nines.len() == 0 {
        Seq::empty()
    } else {
        nines_text(nines.drop_last()) + ",\""@ + json_label_text(nines.len() as int + 1) + "\":"@
            + nines.last()@
    }
}

/// The `latency` object of the results file.
pub fn percentiles_json(t: &LatencyTexts) -> (json: String)
    requires
        t.nines@.len() < usize::MAX,
    ensures
        json@ == "{\"min_us\":"@ + t.min@ + ",\"p50_us\":"@ + t.p50@ + ",\"p90_us\":"@ + t.p90@
            + nines_text(t.nines@) + ",\"max_us\":"@ + t.max@ + "}"@,
{
    let mut json: String = "{\"min_us\":".to_owned();
    json.append(t.min.as_str());
    json.append(",\"p50_us\":");
    json.append(t.p50.as_str());
    json.append(",\"p90_us\":");
    json.append(t.p90.as_str());
    let ghost head = json@;
    let ghost nines = t.nines@;
    let mut i: usize = 0;
    assert(nines.take(0) =~= Seq::empty());
    assert(head + nines_text(nines.take(0)) =~= head);
    while i < t.nines.len()
        invariant
            nines == t.nines@,
            nines.len() < usize::MAX,
            0 <= i <= nines.len(),
            json@ == head + nines_text(nines.take(i as int)),
        decreases nines.len() - i,
    {
        json.append(",\"");
        let label = json_label(i + 2);
        json.append(label.as_str());
        json.append("\":");
        json.append(t.nines[i].as_str());
        proof {
            let next = nines.take(i + 1);
            assert(next.drop_last() =~= nines.take(i as int));
            assert(next.last() == nines[i as int]);
            assert(json@ =~= head + (nines_text(nines.take(i as int)) + ",\""@ + json_label_text(
                i + 2,
            ) + "\":"@ + nines[i as int]@));
        }
        i = i + 1;
    }
    assert(nines.take(i as int) =~= nines);
    json.append(",\"max_us\":");
    json.append(t.max.as_str());
    json.append("}");
    json
}

/// Names the text of a duration of seconds and nanoseconds, as
/// `humantime::format_duration` writes it.
pub uninterp spec fn duration_text(secs: u64, nanos: u32) -> Seq<char>;

/// `humantime::format_duration` writes a duration with its units, such that
/// `humantime` reads the same duration back from the text.
#[verifier::external_body]
fn write_duration(secs: u64, nanos: u32) -> (s: String)
    requires
        nanos < 1_000_000_000,
    ensures
        s@ == duration_text(secs, nanos),
        duration_in(s@) is Ok && duration_in(s@)->Ok_0 == secs * 1_000_000_000 + nanos,
{
    humantime::format_duration(std::time::Duration::new(secs, nanos)).to_string()
}

/// The text of a duration in nanoseconds.
pub open spec fn nanos_text(nanos: u128) -> Seq<char> {
    duration_text((nanos / 1_000_000_000) as u64, (nanos % 1_000_000_000) as u32)
}

/// Whether a duration in nanoseconds has a number of seconds that a duration
/// can hold.
pub open spec fn is_duration(nanos: u128) -> bool {
    nanos / 1_000_000_000 <= u64::MAX
}

fn nanos_string(nanos: u128) -> (s: String)
    ensures
        s@ == nanos_text(nanos),
        is_duration(nanos) ==> duration_in(s@) == Ok::<u128, Seq<char>>(nanos),
{
    write_duration((nanos / 1_000_000_000) as u64, (nanos % 1_000_000_000) as u32)
}

/// The summary's first line, around the texts of the phases.
pub fn header_of(
    label: &str,
    measured_count: u64,
    warmup: &str,
    measured: &str,
    cooldown: &str,
) -> (line: String)
    ensures
        line@ == "=== "@ + label@ + " Benchmark ("@ + decimal(measured_count as nat)
            + " measured, warmup="@ + warmup@ + " measured="@ + measured@ + " cooldown="@
            + cooldown@ + ") ==="@,
{
    let mut line: String = "=== ".to_owned();
    line.append(label);
    line.append(" Benchmark (");
    line.append(decimal_string(measured_count).as_str());
    line.append(" measured, warmup=");
    line.append(warmup);
    line.append(" measured=");
    line.append(measured);
    line.append(" cooldown=");
    line.append(cooldown);
    line.append(") ===");
    line
}

/// The summary's first line. The lengths of the phases stand in it as a
/// duration is read, so they can be read back.
pub fn header_line(label: &str, measured_count: u64, phases: &BenchPhases) -> (line: String)
    ensures
        line@ == "=== "@ + label@ + " Benchmark ("@ + decimal(measured_count as nat)
            + " measured, warmup="@ + nanos_text(phases.warmup) + " measured="@ + nanos_text(
            phases.measured,
        ) + " cooldown="@ + nanos_text(phases.cooldown) + ") ==="@,
        is_duration(phases.warmup) ==> duration_in(nanos_text(phases.warmup)) == Ok::<
            u128,
            Seq<char>,
        >(phases.warmup),
        is_duration(phases.measured) ==> duration_in(nanos_text(phases.measured)) == Ok::<
            u128,
            Seq<char>,
        >(phases.measured),
        is_duration(phases.cooldown) ==> duration_in(nanos_text(phases.cooldown)) == Ok::<
            u128,
            Seq<char>,
        >(phases.cooldown),
{
    let warmup = nanos_string(phases.warmup);
    let measured = nanos_string(phases.measured);
    let cooldown = nanos_string(phases.cooldown);
    header_of(label, measured_count, warmup.as_str(), measured.as_str(), cooldown.as_str())
}

/// The parts of a results file. Numbers with decimals are as they are
/// printed, and the objects and arrays as they are rendered.
#[derive(Debug)]
pub struct RunTexts {
    pub label: String,
    pub measured_count: u64,
    pub warmup_ms: String,
    pub measured_ms: String,
    pub cooldown_ms: String,
    pub wall_ms: String,
    pub throughput_ops: String,
    pub latency: String,
    pub time_series: String,
    pub health: String,
    pub server_stages: String,
    pub pacing: Option<PacingReport>,
    pub outcomes: String,
}

/// The `pacing` entry of the results file. A run without a target rate has
/// none.
pub open spec fn pacing_text(pacing: Option<PacingReport>, achieved: Seq<char>) -> Seq<char> {
    match pacing {
        Some(p) => ",\"pacing\":{\"target_rate\":"@ + decimal(p.target_rate as nat)
            + ",\"scheduled\":"@ + decimal(p.scheduled as nat) + ",\"achieved_rate\":"@ + achieved
            + ",\"late_sends\":"@ + decimal(p.late_sends as nat) + ",\"max_send_delay_us\":"@
            + p.max_send_delay_us@ + "}"@,
        None => Seq::empty(),
    }
}

/// The results file.
pub open spec fn results_text(t: RunTexts) -> Seq<char> {
    "{\"label\":\""@ + t.label@ + "\",\"measured_orders\":"@ + decimal(t.measured_count as nat)
        + ",\"warmup_ms\":"@ + t.warmup_ms@ + ",\"measured_ms\":"@ + t.measured_ms@
        + ",\"cooldown_ms\":"@ + t.cooldown_ms@ + ",\"wall_ms\":"@ + t.wall_ms@
        + ",\"throughput_ops\":"@ + t.throughput_ops@ + ",\"latency\":"@ + t.latency@
        + ",\"time_series\":"@ + t.time_series@ + ",\"health\":"@ + t.health@
        + ",\"server_stages\":"@ + t.server_stages@ + pacing_text(t.pacing, t.throughput_ops@)
        + ",\"outcomes\":"@ + t.outcomes@ + "}"@
}

/// Lays out the results file.
pub fn results_json(t: &RunTexts) -> (json: String)
    ensures
        json@ == results_text(*t),
{
    let mut json: String = "{\"label\":\"".to_owned();
    json.append(t.label.as_str());
    json.append("\",\"measured_orders\":");
    json.append(decimal_string(t.measured_count).as_str());
    json.append(",\"warmup_ms\":");
    json.append(t.warmup_ms.as_str());
    json.append(",\"measured_ms\":");
    json.append(t.measured_ms.as_str());
    json.append(",\"cooldown_ms\":");
    json.append(t.cooldown_ms.as_str());
    json.append(",\"wall_ms\":");
    json.append(t.wall_ms.as_str());
    json.append(",\"throughput_ops\":");
    json.append(t.throughput_ops.as_str());
    json.append(",\"latency\":");
    json.append(t.latency.as_str());
    json.append(",\"time_series\":");
    json.append(t.time_series.as_str());
    json.append(",\"health\":");
    json.append(t.health.as_str());
    json.append(",\"server_stages\":");
    json.append(t.server_stages.as_str());
    let pacing = pacing_json(&t.pacing, t.throughput_ops.as_str());
    json.append(pacing.as_str());
    json.append(",\"outcomes\":");
    json.append(t.outcomes.as_str());
    json.append("}");
    json
}

/// The `pacing` entry of the results file.
pub fn pacing_json(pacing: &Option<PacingReport>, achieved: &str) -> (json: String)
    ensures
        json@ == pacing_text(*pacing, achieved@),
{
    match pacing {
        Some(p) => {
            let mut json: String = ",\"pacing\":{\"target_rate\":".to_owned();
            json.append(decimal_string(p.target_rate).as_str());
            json.append(",\"scheduled\":");
            json.append(decimal_string(p.scheduled).as_str());
            json.append(",\"achieved_rate\":");
            json.append(achieved);
            json.append(",\"late_sends\":");
            json.append(decimal_string(p.late_sends).as_str());
            json.append(",\"max_send_delay_us\":");
            json.append(p.max_send_delay_us.as_str());
            json.append("}");
            json
        },
        None => String::new(),
    }
}

/// The measured wall time: from the first measured completion to the end,
/// but no longer than the measured phase. Without a measured completion it
/// is the time since the start.
pub fn measured_wall(start: u128, measured_start: Option<u128>, end: u128, phases: &BenchPhases) -> (wall:
    u128)
    requires
        start <= end,
        measured_start is Some ==> measured_start->0 <= end,
    ensures
        wall == (match measured_start {
            Some(s) => if end - s < phases.measured {
                end - s
            } else {
                phases.measured as int
            },
            None => end - start,
        }),
{
    match measured_start {
        Some(s) => if end - s < phases.measured {
            end - s
        } else {
            phases.measured
        },
        None => end - start,
    }
}

/// The earlier of two starts, where there are any.
pub fn earliest(a: Option<u128>, b: Option<u128>) -> (r: Option<u128>)
    ensures
        r == (match (a, b) {
            (Some(x), Some(y)) => Some(if y < x {
                y
            } else {
                x
            }),
            (Some(x), None) => Some(x),
            (None, y) => y,
        }),
{
    match a {
        Some(x) => match b {
            Some(y) => Some(
                if y < x {
                    y
                } else {
                    x
                },
            ),
            None => Some(x),
        },
        None => b,
    }
}

/// More samples never support fewer percentiles.
pub proof fn law_more_samples_support_more(a: int, n: int, b: int, m: int)
    requires
        a <= b,
        is_supported(a, n),
        is_supported(b, m),
    ensures
        n <= m,
{
    if m < n {
        vstd::arithmetic::power::lemma_pow_increases(10, (m + 3) as nat, (n + 2) as nat);
    }
}

/// A number of samples supports one number of percentiles.
pub proof fn law_support_is_unique(samples: int, n: int, m: int)
    requires
        is_supported(samples, n),
        is_supported(samples, m),
    ensures
        n == m,
{
    law_more_samples_support_more(samples, n, samples, m);
    law_more_samples_support_more(samples, m, samples, n);
}

/// The measured time is no longer than the measured phase once a completion
/// was measured, and else all the time since the start.
pub proof fn law_measured_time_is_capped(
    start: u128,
    measured_start: Option<u128>,
    end: u128,
    phases: &BenchPhases,
    wall: u128,
)
    requires
        call_ensures(measured_wall, (start, measured_start, end, phases), wall),
    ensures
        measured_start matches Some(s) ==> wall <= phases.measured && wall <= end - s && (wall
            == phases.measured || wall == end - s),
        measured_start is None ==> wall == end - start,
{
}

/// The earlier of two starts is one of them, no later than either, whichever
/// comes first; a missing one does not count.
pub proof fn law_earlier_start_counts(
    a: Option<u128>,
    b: Option<u128>,
    one: Option<u128>,
    other: Option<u128>,
)
    requires
        call_ensures(earliest, (a, b), one),
        call_ensures(earliest, (b, a), other),
    ensures
        one == other,
        one == a || one == b,
        a matches Some(x) ==> (one matches Some(y) && y <= x),
        b matches Some(x) ==> (one matches Some(y) && y <= x),
{
}

/// A summary's first line names the run, the measured count and the length of
/// each phase.
#[verifier::rlimit(40)]
pub proof fn law_header_names_the_run(
    label: &str,
    count: u64,
    warmup: &str,
    measured: &str,
    cooldown: &str,
    line: String,
)
    requires
        call_ensures(header_of, (label, count, warmup, measured, cooldown), line),
    ensures
        says(line@, "=== "@ + label@ + " Benchmark ("@ + decimal(count as nat) + " measured, "@),
        says(line@, "warmup="@ + warmup@ + " "@),
        says(line@, " measured="@ + measured@ + " "@),
        says(line@, " cooldown="@ + cooldown@ + ")"@),
{
    reveal_strlit(" measured, warmup=");
    reveal_strlit(" measured, ");
    reveal_strlit("warmup=");
    reveal_strlit(" measured=");
    reveal_strlit(" cooldown=");
    reveal_strlit(") ===");
    reveal_strlit(")");
    reveal_strlit(" ");
    assert(" measured, warmup="@ =~= " measured, "@ + "warmup="@);
    assert(") ==="@ =~= ")"@ + ") ==="@.skip(1));
    lemma_header(
        line@,
        "=== "@ + label@ + " Benchmark ("@ + decimal(count as nat) + " measured, "@,
        warmup@,
        measured@,
        cooldown@,
        ") ==="@.skip(1),
    );
}

#[verifier::rlimit(40)]
proof fn lemma_header(
    line: Seq<char>,
    head: Seq<char>,
    warmup: Seq<char>,
    measured: Seq<char>,
    cooldown: Seq<char>,
    end: Seq<char>,
)
    requires
        line =~= head + "warmup="@ + warmup + " measured="@ + measured + " cooldown="@ + cooldown
            + (")"@ + end),
    ensures
        says(line, head),
        says(line, "warmup="@ + warmup + " "@),
        says(line, " measured="@ + measured + " "@),
        says(line, " cooldown="@ + cooldown + ")"@),
{
    reveal_strlit(" measured=");
    reveal_strlit(" cooldown=");
    reveal_strlit(" ");
    let (m, c) = (" measured="@, " cooldown="@);
    let tail = c + cooldown + (")"@ + end);
    let p1 = "warmup="@ + warmup + " "@;
    let r1 = m.skip(1) + measured + tail;
    assert(line =~= Seq::<char>::empty() + head + ("warmup="@ + warmup + m + measured + tail));
    lemma_says(Seq::empty(), head, "warmup="@ + warmup + m + measured + tail, line);
    assert(line =~= head + p1 + r1);
    lemma_says(head, p1, r1, line);
    let b2 = head + "warmup="@ + warmup;
    let p2 = m + measured + " "@;
    let r2 = c.skip(1) + cooldown + (")"@ + end);
    assert(line =~= b2 + p2 + r2);
    lemma_says(b2, p2, r2, line);
    let b3 = b2 + m + measured;
    let p3 = c + cooldown + ")"@;
    assert(line =~= b3 + p3 + end);
    lemma_says(b3, p3, end, line);
}

/// Fewer than a thousand samples support no percentile with two nines or more,
/// a thousand support one, and ten times as many samples one more.
pub proof fn law_ten_times_the_samples_for_a_nine(samples: u64, n: usize, more: usize)
    requires
        samples * 10 <= u64::MAX,
        call_ensures(supported_nines, (samples,), n),
        call_ensures(supported_nines, ((samples * 10) as u64,), more),
    ensures
        n == 0 <==> samples < 1_000,
        n == 1 <==> 1_000 <= samples < 10_000,
        n > 0 ==> more == n + 1,
{
    assert(pow(10, 3) == 1_000 && pow(10, 4) == 10_000) by {
        reveal_with_fuel(pow, 5);
    }
    vstd::arithmetic::power::lemma_pow1(10);
    if n > 0 {
        vstd::arithmetic::power::lemma_pow_increases(10, 3, (n + 2) as nat);
        vstd::arithmetic::power::lemma_pow_adds(10, (n + 2) as nat, 1);
        vstd::arithmetic::power::lemma_pow_adds(10, (n + 3) as nat, 1);
        law_support_is_unique(samples * 10, more as int, n + 1);
    }
    if n > 1 {
        vstd::arithmetic::power::lemma_pow_increases(10, 4, (n + 2) as nat);
    }
}

} // verus!
