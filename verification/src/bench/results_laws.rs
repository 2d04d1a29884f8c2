//! Laws of the results file: which members its objects have, in which order,
//! and what the tables and series in it hold.

use vstd::prelude::*;

use crate::bench::health::{
    extras_text, health_sample_text, peak_capacity, peak_depth, samples_text, sanitized, truth,
    HealthSample,
};
use crate::bench::outcomes::{outcomes_text, reasons_text, Tallies};
use crate::bench::report::{
    console_label_text, json_label_text, nines_text, pacing_text, repeated, results_text,
    PacingReport, RunTexts,
};
use crate::bench::series::{sample_text, series_body, LatencySample};
use crate::text::decimal;
use crate::text_laws::{lemma_says, lemma_says_within, says};

verus! {

/// A member of an object: a name in quotes and a value.
pub open spec fn member(name: Seq<char>, value: Seq<char>) -> Seq<char> {
    seq!['"'] + name + seq!['"', ':'] + value
}

/// Members one after the other, with commas in between.
pub open spec fn members(list: Seq<(Seq<char>, Seq<char>)>) -> Seq<char>
    decreases list.len(),
{
    if list.len() == 0 {
        Seq::empty()
    } else if list.len() == 1 {
        member(list[0].0, list[0].1)
    } else {
        members(list.drop_last()) + seq![','] + member(list.last().0, list.last().1)
    }
}

/// An object with some members.
pub open spec fn object(list: Seq<(Seq<char>, Seq<char>)>) -> Seq<char> {
    seq!['{'] + members(list) + seq!['}']
}

/// A text in quotes.
pub open spec fn quoted(text: Seq<char>) -> Seq<char> {
    seq!['"'] + text + seq!['"']
}

/// A further member behind those before.
proof fn lemma_next(
    so_far: Seq<char>,
    list: Seq<(Seq<char>, Seq<char>)>,
    key: Seq<char>,
    name: Seq<char>,
    value: Seq<char>,
)
    requires
        list.len() > 0,
        so_far == seq!['{'] + members(list),
        key == seq![',', '"'] + name + seq!['"', ':'],
    ensures
        so_far + key + value == seq!['{'] + members(list.push((name, value))),
{
    let more = list.push((name, value));
    assert(more.drop_last() =~= list);
    assert(so_far + key + value =~= seq!['{'] + (members(list) + seq![','] + member(name, value)));
}

/// A latency sample holds its time and its three percentiles.
#[verifier::rlimit(40)]
pub proof fn law_latency_sample_members(s: LatencySample)
    ensures
        sample_text(s) == object(
            seq![
                ("elapsed_secs"@, s.elapsed_secs@),
                ("p99_us"@, s.p99_us@),
                ("p999_us"@, s.p999_us@),
                ("p9999_us"@, s.p9999_us@),
            ],
        ),
{
    reveal_strlit("{\"elapsed_secs\":");
    reveal_strlit("elapsed_secs");
    reveal_strlit("}");
    reveal_strlit(",\"p99_us\":");
    reveal_strlit("p99_us");
    assert(",\"p99_us\":"@ =~= seq![',', '"'] + "p99_us"@ + seq!['"', ':']);
    reveal_strlit(",\"p999_us\":");
    reveal_strlit("p999_us");
    assert(",\"p999_us\":"@ =~= seq![',', '"'] + "p999_us"@ + seq!['"', ':']);
    reveal_strlit(",\"p9999_us\":");
    reveal_strlit("p9999_us");
    assert(",\"p9999_us\":"@ =~= seq![',', '"'] + "p9999_us"@ + seq!['"', ':']);
    let l1 = seq![("elapsed_secs"@, s.elapsed_secs@)];
    let t1 = "{\"elapsed_secs\":"@ + s.elapsed_secs@;
    assert(t1 =~= seq!['{'] + members(l1));
    let l2 = l1.push(("p99_us"@, s.p99_us@));
    let t2 = t1 + ",\"p99_us\":"@ + s.p99_us@;
    lemma_next(t1, l1, ",\"p99_us\":"@, "p99_us"@, s.p99_us@);
    let l3 = l2.push(("p999_us"@, s.p999_us@));
    let t3 = t2 + ",\"p999_us\":"@ + s.p999_us@;
    lemma_next(t2, l2, ",\"p999_us\":"@, "p999_us"@, s.p999_us@);
    let l4 = l3.push(("p9999_us"@, s.p9999_us@));
    lemma_next(t3, l3, ",\"p9999_us\":"@, "p9999_us"@, s.p9999_us@);
    assert(l4 =~= seq![
        ("elapsed_secs"@, s.elapsed_secs@),
        ("p99_us"@, s.p99_us@),
        ("p999_us"@, s.p999_us@),
        ("p9999_us"@, s.p9999_us@),
    ]);
    assert("}"@ =~= seq!['}']);
}

/// Two runs of samples are written one after the other with a comma between,
/// and a single one as it is.
pub proof fn law_series_is_written_in_order(a: Seq<LatencySample>, b: Seq<LatencySample>)
    requires
        a.len() > 0,
        b.len() > 0,
    ensures
        series_body(a + b) == series_body(a) + seq![','] + series_body(b),
        a.len() == 1 ==> series_body(a) == sample_text(a[0]),
    decreases b.len(),
{
    reveal_strlit(",");
    assert((a + b).drop_last() =~= a + b.drop_last());
    assert((a + b).last() == b.last());
    if b.len() == 1 {
        assert(a + b.drop_last() =~= a);
        assert(series_body(a + b) =~= series_body(a) + seq![','] + series_body(b));
    } else {
        law_series_is_written_in_order(a, b.drop_last());
        assert(series_body(a + b) =~= series_body(a) + seq![','] + series_body(b));
    }
}

/// The fixed members of a health sample.
pub open spec fn health_members(s: HealthSample) -> Seq<(Seq<char>, Seq<char>)> {
    seq![
        ("elapsed_secs"@, s.elapsed_secs@),
        ("active_connections"@, decimal(s.active_connections as nat)),
        ("events_processed"@, decimal(s.events_processed as nat)),
        ("journal_sequence"@, decimal(s.journal_sequence as nat)),
        ("replication_lag"@, decimal(s.replication_lag as nat)),
        ("input_queue_depth"@, decimal(s.input_queue_depth as nat)),
        ("input_queue_capacity"@, decimal(s.input_queue_capacity as nat)),
        ("pipeline_healthy"@, if s.pipeline_healthy {
            "true"@
        } else {
            "false"@
        }),
        ("trading_active"@, if s.trading_active {
            "true"@
        } else {
            "false"@
        }),
    ]
}

/// A health sample holds its fixed members and behind them the further metrics
/// in the order of their names.
#[verifier::rlimit(40)]
pub proof fn law_health_sample_members(s: HealthSample)
    ensures
        health_sample_text(s) == seq!['{'] + members(health_members(s)) + extras_text(
            s.extra.listing(),
        ) + seq!['}'],
{
    reveal_strlit("{\"elapsed_secs\":");
    reveal_strlit("elapsed_secs");
    reveal_strlit("}");
    reveal_strlit(",\"active_connections\":");
    reveal_strlit("active_connections");
    assert(",\"active_connections\":"@ =~= seq![',', '"'] + "active_connections"@ + seq!['"', ':']);
    reveal_strlit(",\"events_processed\":");
    reveal_strlit("events_processed");
    assert(",\"events_processed\":"@ =~= seq![',', '"'] + "events_processed"@ + seq!['"', ':']);
    reveal_strlit(",\"journal_sequence\":");
    reveal_strlit("journal_sequence");
    assert(",\"journal_sequence\":"@ =~= seq![',', '"'] + "journal_sequence"@ + seq!['"', ':']);
    reveal_strlit(",\"replication_lag\":");
    reveal_strlit("replication_lag");
    assert(",\"replication_lag\":"@ =~= seq![',', '"'] + "replication_lag"@ + seq!['"', ':']);
    reveal_strlit(",\"input_queue_depth\":");
    reveal_strlit("input_queue_depth");
    assert(",\"input_queue_depth\":"@ =~= seq![',', '"'] + "input_queue_depth"@ + seq!['"', ':']);
    reveal_strlit(",\"input_queue_capacity\":");
    reveal_strlit("input_queue_capacity");
    assert(",\"input_queue_capacity\":"@ =~= seq![',', '"'] + "input_queue_capacity"@ + seq!['"', ':']);
    reveal_strlit(",\"pipeline_healthy\":");
    reveal_strlit("pipeline_healthy");
    assert(",\"pipeline_healthy\":"@ =~= seq![',', '"'] + "pipeline_healthy"@ + seq!['"', ':']);
    reveal_strlit(",\"trading_active\":");
    reveal_strlit("trading_active");
    assert(",\"trading_active\":"@ =~= seq![',', '"'] + "trading_active"@ + seq!['"', ':']);
    let l0 = seq![("elapsed_secs"@, s.elapsed_secs@)];
    let t0 = "{\"elapsed_secs\":"@ + s.elapsed_secs@;
    assert(t0 =~= seq!['{'] + members(l0));
    let v1 = decimal(s.active_connections as nat);
    let l1 = l0.push(("active_connections"@, v1));
    let t1 = t0 + ",\"active_connections\":"@ + v1;
    lemma_next(t0, l0, ",\"active_connections\":"@, "active_connections"@, v1);
    let v2 = decimal(s.events_processed as nat);
    let l2 = l1.push(("events_processed"@, v2));
    let t2 = t1 + ",\"events_processed\":"@ + v2;
    lemma_next(t1, l1, ",\"events_processed\":"@, "events_processed"@, v2);
    let v3 = decimal(s.journal_sequence as nat);
    let l3 = l2.push(("journal_sequence"@, v3));
    let t3 = t2 + ",\"journal_sequence\":"@ + v3;
    lemma_next(t2, l2, ",\"journal_sequence\":"@, "journal_sequence"@, v3);
    let v4 = decimal(s.replication_lag as nat);
    let l4 = l3.push(("replication_lag"@, v4));
    let t4 = t3 + ",\"replication_lag\":"@ + v4;
    lemma_next(t3, l3, ",\"replication_lag\":"@, "replication_lag"@, v4);
    let v5 = decimal(s.input_queue_depth as nat);
    let l5 = l4.push(("input_queue_depth"@, v5));
    let t5 = t4 + ",\"input_queue_depth\":"@ + v5;
    lemma_next(t4, l4, ",\"input_queue_depth\":"@, "input_queue_depth"@, v5);
    let v6 = decimal(s.input_queue_capacity as nat);
    let l6 = l5.push(("input_queue_capacity"@, v6));
    let t6 = t5 + ",\"input_queue_capacity\":"@ + v6;
    lemma_next(t5, l5, ",\"input_queue_capacity\":"@, "input_queue_capacity"@, v6);
    let v7 = truth(s.pipeline_healthy);
    let l7 = l6.push(("pipeline_healthy"@, v7));
    let t7 = t6 + ",\"pipeline_healthy\":"@ + v7;
    lemma_next(t6, l6, ",\"pipeline_healthy\":"@, "pipeline_healthy"@, v7);
    let v8 = truth(s.trading_active);
    let l8 = l7.push(("trading_active"@, v8));
    let t8 = t7 + ",\"trading_active\":"@ + v8;
    lemma_next(t7, l7, ",\"trading_active\":"@, "trading_active"@, v8);
    assert(l8 =~= health_members(s));
    assert(health_sample_text(s) == t8 + extras_text(s.extra.listing()) + "}"@);
    assert("}"@ =~= seq!['}']);
}

/// Further metrics follow each other, each behind a comma under its own name.
pub proof fn law_further_metrics_follow(
    a: Seq<(Seq<char>, Seq<char>)>,
    name: Seq<char>,
    value: Seq<char>,
)
    ensures
        extras_text(Seq::empty()) == Seq::<char>::empty(),
        extras_text(a.push((name, value))) == extras_text(a) + seq![','] + member(
            sanitized(name),
            value,
        ),
{
    reveal_strlit(",\"");
    reveal_strlit("\":");
    let all = a.push((name, value));
    assert(all.drop_last() =~= a);
    assert(extras_text(all) =~= extras_text(a) + seq![','] + member(sanitized(name), value));
}

/// Of a metric's name, an opening brace and an equals sign become underscores,
/// closing braces and quotes go, and every other character stays.
pub proof fn law_names_are_made_plain(name: Seq<char>, c: char)
    ensures
        sanitized(Seq::empty()) == Seq::<char>::empty(),
        c == '{' || c == '=' ==> sanitized(name.push(c)) == sanitized(name).push('_'),
        c == '}' || c == '"' ==> sanitized(name.push(c)) == sanitized(name),
        c != '{' && c != '}' && c != '=' && c != '"' ==> sanitized(name.push(c)) == sanitized(
            name,
        ).push(c),
{
    assert(name.push(c).drop_last() =~= name);
}

/// Two runs of health samples are written one after the other with a comma
/// between, and a single one as it is.
pub proof fn law_health_is_written_in_order(a: Seq<HealthSample>, b: Seq<HealthSample>)
    requires
        a.len() > 0,
        b.len() > 0,
    ensures
        samples_text(a + b) == samples_text(a) + seq![','] + samples_text(b),
        a.len() == 1 ==> samples_text(a) == health_sample_text(a[0]),
    decreases b.len(),
{
    reveal_strlit(",");
    assert((a + b).drop_last() =~= a + b.drop_last());
    assert((a + b).last() == b.last());
    if b.len() == 1 {
        assert(a + b.drop_last() =~= a);
        assert(samples_text(a + b) =~= samples_text(a) + seq![','] + samples_text(b));
    } else {
        law_health_is_written_in_order(a, b.drop_last());
        assert(samples_text(a + b) =~= samples_text(a) + seq![','] + samples_text(b));
    }
}

/// The peaks are reached by some sample and by none exceeded; without samples
/// they are zero.
pub proof fn law_peaks_are_the_largest(samples: Seq<HealthSample>)
    ensures
        forall|i: int|
            0 <= i < samples.len() ==> (#[trigger] samples[i]).input_queue_depth <= peak_depth(
                samples,
            ) && samples[i].input_queue_capacity <= peak_capacity(samples),
        peak_depth(samples) > 0 ==> exists|i: int|
            0 <= i < samples.len() && (#[trigger] samples[i]).input_queue_depth == peak_depth(
                samples,
            ),
        peak_capacity(samples) > 0 ==> exists|i: int|
            0 <= i < samples.len() && (#[trigger] samples[i]).input_queue_capacity
                == peak_capacity(samples),
        samples.len() == 0 ==> peak_depth(samples) == 0 && peak_capacity(samples) == 0,
    decreases samples.len(),
{
    if samples.len() > 0 {
        let d = samples.drop_last();
        let n = samples.len() - 1;
        law_peaks_are_the_largest(d);
        assert forall|i: int| 0 <= i < samples.len() implies (
        #[trigger] samples[i]).input_queue_depth <= peak_depth(samples)
            && samples[i].input_queue_capacity <= peak_capacity(samples) by {
            if i < n {
                assert(d[i] == samples[i]);
            }
        }
        if peak_depth(samples) > 0 {
            if peak_depth(samples) == samples[n].input_queue_depth {
                assert(samples[n].input_queue_depth == peak_depth(samples));
            } else {
                let i = choose|i: int|
                    0 <= i < d.len() && (#[trigger] d[i]).input_queue_depth == peak_depth(d);
                assert(samples[i].input_queue_depth == peak_depth(samples));
            }
        }
        if peak_capacity(samples) > 0 {
            if peak_capacity(samples) == samples[n].input_queue_capacity {
                assert(samples[n].input_queue_capacity == peak_capacity(samples));
            } else {
                let i = choose|i: int|
                    0 <= i < d.len() && (#[trigger] d[i]).input_queue_capacity == peak_capacity(d);
                assert(samples[i].input_queue_capacity == peak_capacity(samples));
            }
        }
    }
}

/// The entry on pacing holds the target rate, the scheduled sends, the achieved
/// rate, the late sends and the longest delay; a run without a target rate has
/// no such entry.
#[verifier::rlimit(40)]
pub proof fn law_pacing_members(p: PacingReport, achieved: Seq<char>)
    ensures
        pacing_text(Some(p), achieved) == seq![','] + member(
            "pacing"@,
            object(
                seq![
                    ("target_rate"@, decimal(p.target_rate as nat)),
                    ("scheduled"@, decimal(p.scheduled as nat)),
                    ("achieved_rate"@, achieved),
                    ("late_sends"@, decimal(p.late_sends as nat)),
                    ("max_send_delay_us"@, p.max_send_delay_us@),
                ],
            ),
        ),
        pacing_text(None, achieved) == Seq::<char>::empty(),
{
    reveal_strlit(",\"pacing\":{\"target_rate\":");
    reveal_strlit("pacing");
    reveal_strlit("target_rate");
    reveal_strlit("}");
    reveal_strlit(",\"scheduled\":");
    reveal_strlit("scheduled");
    assert(",\"scheduled\":"@ =~= seq![',', '"'] + "scheduled"@ + seq!['"', ':']);
    reveal_strlit(",\"achieved_rate\":");
    reveal_strlit("achieved_rate");
    assert(",\"achieved_rate\":"@ =~= seq![',', '"'] + "achieved_rate"@ + seq!['"', ':']);
    reveal_strlit(",\"late_sends\":");
    reveal_strlit("late_sends");
    assert(",\"late_sends\":"@ =~= seq![',', '"'] + "late_sends"@ + seq!['"', ':']);
    reveal_strlit(",\"max_send_delay_us\":");
    reveal_strlit("max_send_delay_us");
    assert(",\"max_send_delay_us\":"@ =~= seq![',', '"'] + "max_send_delay_us"@ + seq!['"', ':']);
    let lead = seq![',', '"'] + "pacing"@ + seq!['"', ':'];
    let rate = decimal(p.target_rate as nat);
    let head = seq!['{', '"'] + "target_rate"@ + seq!['"', ':'];
    assert(",\"pacing\":{\"target_rate\":"@ =~= lead + head);
    let l0 = seq![("target_rate"@, rate)];
    let t0 = head + rate;
    assert(t0 =~= seq!['{'] + members(l0));
    let v1 = decimal(p.scheduled as nat);
    let l1 = l0.push(("scheduled"@, v1));
    let t1 = t0 + ",\"scheduled\":"@ + v1;
    lemma_next(t0, l0, ",\"scheduled\":"@, "scheduled"@, v1);
    let v2 = achieved;
    let l2 = l1.push(("achieved_rate"@, v2));
    let t2 = t1 + ",\"achieved_rate\":"@ + v2;
    lemma_next(t1, l1, ",\"achieved_rate\":"@, "achieved_rate"@, v2);
    let v3 = decimal(p.late_sends as nat);
    let l3 = l2.push(("late_sends"@, v3));
    let t3 = t2 + ",\"late_sends\":"@ + v3;
    lemma_next(t2, l2, ",\"late_sends\":"@, "late_sends"@, v3);
    let v4 = p.max_send_delay_us@;
    let l4 = l3.push(("max_send_delay_us"@, v4));
    let t4 = t3 + ",\"max_send_delay_us\":"@ + v4;
    lemma_next(t3, l3, ",\"max_send_delay_us\":"@, "max_send_delay_us"@, v4);
    assert(l4 =~= seq![
        ("target_rate"@, decimal(p.target_rate as nat)),
        ("scheduled"@, decimal(p.scheduled as nat)),
        ("achieved_rate"@, achieved),
        ("late_sends"@, decimal(p.late_sends as nat)),
        ("max_send_delay_us"@, p.max_send_delay_us@),
    ]);
    assert(pacing_text(Some(p), achieved) =~= lead + t4 + "}"@);
    assert(pacing_text(Some(p), achieved) =~= seq![','] + member("pacing"@, object(l4)));
}

/// The members of the results file up to the one on pacing.
pub open spec fn run_members(t: RunTexts) -> Seq<(Seq<char>, Seq<char>)> {
    seq![
        ("label"@, quoted(t.label@)),
        ("measured_orders"@, decimal(t.measured_count as nat)),
        ("warmup_ms"@, t.warmup_ms@),
        ("measured_ms"@, t.measured_ms@),
        ("cooldown_ms"@, t.cooldown_ms@),
        ("wall_ms"@, t.wall_ms@),
        ("throughput_ops"@, t.throughput_ops@),
        ("latency"@, t.latency@),
        ("time_series"@, t.time_series@),
        ("health"@, t.health@),
        ("server_stages"@, t.server_stages@),
    ]
}

/// The results file is an object of the run's label, counts, lengths, rates,
/// tables and series, the entry on pacing and the outcomes, in this order. The
/// achieved rate is the throughput.
#[verifier::rlimit(40)]
pub proof fn law_results_file_members(t: RunTexts)
    ensures
        results_text(t) == seq!['{'] + members(run_members(t)) + pacing_text(
            t.pacing,
            t.throughput_ops@,
        ) + seq![','] + member("outcomes"@, t.outcomes@) + seq!['}'],
{
    reveal_strlit("{\"label\":\"");
    reveal_strlit("\",\"measured_orders\":");
    reveal_strlit("label");
    reveal_strlit("measured_orders");
    reveal_strlit("}");
    reveal_strlit(",\"warmup_ms\":");
    reveal_strlit("warmup_ms");
    assert(",\"warmup_ms\":"@ =~= seq![',', '"'] + "warmup_ms"@ + seq!['"', ':']);
    reveal_strlit(",\"measured_ms\":");
    reveal_strlit("measured_ms");
    assert(",\"measured_ms\":"@ =~= seq![',', '"'] + "measured_ms"@ + seq!['"', ':']);
    reveal_strlit(",\"cooldown_ms\":");
    reveal_strlit("cooldown_ms");
    assert(",\"cooldown_ms\":"@ =~= seq![',', '"'] + "cooldown_ms"@ + seq!['"', ':']);
    reveal_strlit(",\"wall_ms\":");
    reveal_strlit("wall_ms");
    assert(",\"wall_ms\":"@ =~= seq![',', '"'] + "wall_ms"@ + seq!['"', ':']);
    reveal_strlit(",\"throughput_ops\":");
    reveal_strlit("throughput_ops");
    assert(",\"throughput_ops\":"@ =~= seq![',', '"'] + "throughput_ops"@ + seq!['"', ':']);
    reveal_strlit(",\"latency\":");
    reveal_strlit("latency");
    assert(",\"latency\":"@ =~= seq![',', '"'] + "latency"@ + seq!['"', ':']);
    reveal_strlit(",\"time_series\":");
    reveal_strlit("time_series");
    assert(",\"time_series\":"@ =~= seq![',', '"'] + "time_series"@ + seq!['"', ':']);
    reveal_strlit(",\"health\":");
    reveal_strlit("health");
    assert(",\"health\":"@ =~= seq![',', '"'] + "health"@ + seq!['"', ':']);
    reveal_strlit(",\"server_stages\":");
    reveal_strlit("server_stages");
    assert(",\"server_stages\":"@ =~= seq![',', '"'] + "server_stages"@ + seq!['"', ':']);
    reveal_strlit(",\"outcomes\":");
    reveal_strlit("outcomes");
    assert(",\"outcomes\":"@ =~= seq![',', '"'] + "outcomes"@ + seq!['"', ':']);
    let count = decimal(t.measured_count as nat);
    let first = seq![("label"@, quoted(t.label@))];
    let start = "{\"label\":\""@ + t.label@ + seq!['"'];
    assert(start =~= seq!['{'] + members(first));
    let second = seq![',', '"'] + "measured_orders"@ + seq!['"', ':'];
    assert("\",\"measured_orders\":"@ =~= seq!['"'] + second);
    lemma_next(start, first, second, "measured_orders"@, count);
    let l0 = first.push(("measured_orders"@, count));
    let t0 = "{\"label\":\""@ + t.label@ + "\",\"measured_orders\":"@ + count;
    assert(t0 =~= start + second + count);
    let l1 = l0.push(("warmup_ms"@, t.warmup_ms@));
    let t1 = t0 + ",\"warmup_ms\":"@ + t.warmup_ms@;
    lemma_next(t0, l0, ",\"warmup_ms\":"@, "warmup_ms"@, t.warmup_ms@);
    let l2 = l1.push(("measured_ms"@, t.measured_ms@));
    let t2 = t1 + ",\"measured_ms\":"@ + t.measured_ms@;
    lemma_next(t1, l1, ",\"measured_ms\":"@, "measured_ms"@, t.measured_ms@);
    let l3 = l2.push(("cooldown_ms"@, t.cooldown_ms@));
    let t3 = t2 + ",\"cooldown_ms\":"@ + t.cooldown_ms@;
    lemma_next(t2, l2, ",\"cooldown_ms\":"@, "cooldown_ms"@, t.cooldown_ms@);
    let l4 = l3.push(("wall_ms"@, t.wall_ms@));
    let t4 = t3 + ",\"wall_ms\":"@ + t.wall_ms@;
    lemma_next(t3, l3, ",\"wall_ms\":"@, "wall_ms"@, t.wall_ms@);
    let l5 = l4.push(("throughput_ops"@, t.throughput_ops@));
    let t5 = t4 + ",\"throughput_ops\":"@ + t.throughput_ops@;
    lemma_next(t4, l4, ",\"throughput_ops\":"@, "throughput_ops"@, t.throughput_ops@);
    let l6 = l5.push(("latency"@, t.latency@));
    let t6 = t5 + ",\"latency\":"@ + t.latency@;
    lemma_next(t5, l5, ",\"latency\":"@, "latency"@, t.latency@);
    let l7 = l6.push(("time_series"@, t.time_series@));
    let t7 = t6 + ",\"time_series\":"@ + t.time_series@;
    lemma_next(t6, l6, ",\"time_series\":"@, "time_series"@, t.time_series@);
    let l8 = l7.push(("health"@, t.health@));
    let t8 = t7 + ",\"health\":"@ + t.health@;
    lemma_next(t7, l7, ",\"health\":"@, "health"@, t.health@);
    let l9 = l8.push(("server_stages"@, t.server_stages@));
    let t9 = t8 + ",\"server_stages\":"@ + t.server_stages@;
    lemma_next(t8, l8, ",\"server_stages\":"@, "server_stages"@, t.server_stages@);
    assert(l9 =~= run_members(t));
    let pacing = pacing_text(t.pacing, t.throughput_ops@);
    assert(results_text(t) == t9 + pacing + ",\"outcomes\":"@ + t.outcomes@ + "}"@);
    assert(results_text(t) =~= t9 + pacing + seq![','] + member("outcomes"@, t.outcomes@)
        + seq!['}']);
}

/// A summary's label for a percentile of two nines is `p99`; every further
/// nine stands behind one point.
pub proof fn law_console_label_has_its_nines(nines: int)
    requires
        nines > 2,
    ensures
        console_label_text(2) == "p99"@,
        console_label_text(nines).len() == nines + 2,
        console_label_text(nines).take(4) == "p99."@,
        forall|i: int| 4 <= i < nines + 2 ==> #[trigger] console_label_text(nines)[i] == '9',
{
    reveal_strlit("p99.");
    reveal_strlit("9");
    lemma_repeated("9"@, (nines - 2) as nat);
    let text = console_label_text(nines);
    assert(text.take(4) =~= "p99."@);
    assert forall|i: int| 4 <= i < nines + 2 implies #[trigger] text[i] == '9' by {
        assert(text[i] == repeated("9"@, (nines - 2) as nat)[i - 4]);
    }
}

/// A key for a percentile of two nines is `p99_us`; every further nine stands
/// behind a point of its own.
pub proof fn law_json_label_has_its_nines(nines: int)
    requires
        nines > 2,
    ensures
        json_label_text(2) == "p99_us"@,
        json_label_text(nines).len() == 3 + 2 * (nines - 2) + 3,
        json_label_text(nines).take(3) == "p99"@,
        json_label_text(nines).skip(3 + 2 * (nines - 2)) == "_us"@,
        forall|i: int|
            0 <= i < nines - 2 ==> #[trigger] json_label_text(nines)[3 + 2 * i] == '.'
                && json_label_text(nines)[3 + 2 * i + 1] == '9',
{
    reveal_strlit("p99");
    reveal_strlit("_us");
    reveal_strlit(".9");
    let n = (nines - 2) as nat;
    lemma_repeated(".9"@, n);
    let text = json_label_text(nines);
    let mid = repeated(".9"@, n);
    assert(mid.len() == 2 * n);
    assert(text.take(3) =~= "p99"@);
    assert(text.skip(3 + 2 * (nines - 2)) =~= "_us"@);
    assert forall|i: int| 0 <= i < nines - 2 implies #[trigger] text[3 + 2 * i] == '.' && text[3 + 2
        * i + 1] == '9' by {
        lemma_repeated_at(".9"@, n, i);
        assert(text[3 + 2 * i] == mid[2 * i]);
        assert(text[3 + 2 * i + 1] == mid[2 * i + 1]);
    }
}

proof fn lemma_repeated(text: Seq<char>, n: nat)
    requires
        text.len() == 1 || text.len() == 2,
    ensures
        repeated(text, n).len() == n * text.len(),
        text.len() == 1 ==> forall|i: int| 0 <= i < n ==> #[trigger] repeated(text, n)[i] == text[0],
    decreases n,
{
    if n > 0 {
        lemma_repeated(text, (n - 1) as nat);
        assert(n * text.len() == (n - 1) * text.len() + text.len()) by (nonlinear_arith)
            requires
                n >= 1,
        ;
    }
}

proof fn lemma_repeated_at(text: Seq<char>, n: nat, i: int)
    requires
        text.len() == 2,
        0 <= i < n,
    ensures
        repeated(text, n).len() == 2 * n,
        repeated(text, n)[2 * i] == text[0],
        repeated(text, n)[2 * i + 1] == text[1],
    decreases n,
{
    lemma_repeated(text, n);
    lemma_repeated(text, (n - 1) as nat);
    if i < n - 1 {
        lemma_repeated_at(text, (n - 1) as nat, i);
    }
}

/// Every percentile stands under the key of its own number of nines: the first
/// under that of two, and so on.
pub proof fn law_percentiles_stand_under_their_nines(nines: Seq<String>, i: int)
    requires
        0 <= i < nines.len(),
    ensures
        says(nines_text(nines), seq![','] + member(json_label_text(i + 2), nines[i]@)),
    decreases nines.len(),
{
    reveal_strlit(",\"");
    reveal_strlit("\":");
    let none = Seq::<char>::empty();
    let before = nines_text(nines.drop_last());
    let label = json_label_text(nines.len() as int + 1);
    let last = seq![','] + member(label, nines.last()@);
    let text = nines_text(nines);
    assert(text =~= before + last + none);
    if i == nines.len() - 1 {
        lemma_says(before, last, none, text);
    } else {
        law_percentiles_stand_under_their_nines(nines.drop_last(), i);
        assert(text =~= none + before + last);
        lemma_says_within(
            none,
            before,
            last,
            text,
            seq![','] + member(json_label_text(i + 2), nines[i]@),
        );
    }
}

/// The counts in the results file.
pub open spec fn outcome_members(t: Tallies) -> Seq<(Seq<char>, Seq<char>)> {
    seq![
        ("batch_ends"@, decimal(t.batch_ends as nat)),
        ("placed"@, decimal(t.placed as nat)),
        ("fills"@, decimal(t.fills as nat)),
        ("cancelled"@, decimal(t.cancelled as nat)),
        ("triggered"@, decimal(t.triggered as nat)),
        ("replaced"@, decimal(t.replaced as nat)),
        ("rejected"@, decimal(t.rejected as nat)),
        ("engine_errors"@, decimal(t.engine_errors as nat)),
        ("server_busy"@, decimal(t.server_busy as nat)),
    ]
}

/// The results file says of every kind of answer how many there were, and then
/// lists the reject reasons.
#[verifier::rlimit(40)]
pub proof fn law_outcome_members(t: Tallies)
    ensures
        outcomes_text(t) == seq!['{'] + members(outcome_members(t)) + seq![','] + member(
            "reject_reasons"@,
            seq!['{'] + reasons_text(t.reasons) + seq!['}'],
        ) + seq!['}'],
{
    reveal_strlit("{\"batch_ends\":");
    reveal_strlit("batch_ends");
    reveal_strlit("}}");
    reveal_strlit(",\"reject_reasons\":{");
    reveal_strlit("reject_reasons");
    reveal_strlit(",\"placed\":");
    reveal_strlit("placed");
    assert(",\"placed\":"@ =~= seq![',', '"'] + "placed"@ + seq!['"', ':']);
    reveal_strlit(",\"fills\":");
    reveal_strlit("fills");
    assert(",\"fills\":"@ =~= seq![',', '"'] + "fills"@ + seq!['"', ':']);
    reveal_strlit(",\"cancelled\":");
    reveal_strlit("cancelled");
    assert(",\"cancelled\":"@ =~= seq![',', '"'] + "cancelled"@ + seq!['"', ':']);
    reveal_strlit(",\"triggered\":");
    reveal_strlit("triggered");
    assert(",\"triggered\":"@ =~= seq![',', '"'] + "triggered"@ + seq!['"', ':']);
    reveal_strlit(",\"replaced\":");
    reveal_strlit("replaced");
    assert(",\"replaced\":"@ =~= seq![',', '"'] + "replaced"@ + seq!['"', ':']);
    reveal_strlit(",\"rejected\":");
    reveal_strlit("rejected");
    assert(",\"rejected\":"@ =~= seq![',', '"'] + "rejected"@ + seq!['"', ':']);
    reveal_strlit(",\"engine_errors\":");
    reveal_strlit("engine_errors");
    assert(",\"engine_errors\":"@ =~= seq![',', '"'] + "engine_errors"@ + seq!['"', ':']);
    reveal_strlit(",\"server_busy\":");
    reveal_strlit("server_busy");
    assert(",\"server_busy\":"@ =~= seq![',', '"'] + "server_busy"@ + seq!['"', ':']);
    let first = decimal(t.batch_ends as nat);
    let l0 = seq![("batch_ends"@, first)];
    let t0 = "{\"batch_ends\":"@ + first;
    assert(t0 =~= seq!['{'] + members(l0));
    let v1 = decimal(t.placed as nat);
    let l1 = l0.push(("placed"@, v1));
    let t1 = t0 + ",\"placed\":"@ + v1;
    lemma_next(t0, l0, ",\"placed\":"@, "placed"@, v1);
    let v2 = decimal(t.fills as nat);
    let l2 = l1.push(("fills"@, v2));
    let t2 = t1 + ",\"fills\":"@ + v2;
    lemma_next(t1, l1, ",\"fills\":"@, "fills"@, v2);
    let v3 = decimal(t.cancelled as nat);
    let l3 = l2.push(("cancelled"@, v3));
    let t3 = t2 + ",\"cancelled\":"@ + v3;
    lemma_next(t2, l2, ",\"cancelled\":"@, "cancelled"@, v3);
    let v4 = decimal(t.triggered as nat);
    let l4 = l3.push(("triggered"@, v4));
    let t4 = t3 + ",\"triggered\":"@ + v4;
    lemma_next(t3, l3, ",\"triggered\":"@, "triggered"@, v4);
    let v5 = decimal(t.replaced as nat);
    let l5 = l4.push(("replaced"@, v5));
    let t5 = t4 + ",\"replaced\":"@ + v5;
    lemma_next(t4, l4, ",\"replaced\":"@, "replaced"@, v5);
    let v6 = decimal(t.rejected as nat);
    let l6 = l5.push(("rejected"@, v6));
    let t6 = t5 + ",\"rejected\":"@ + v6;
    lemma_next(t5, l5, ",\"rejected\":"@, "rejected"@, v6);
    let v7 = decimal(t.engine_errors as nat);
    let l7 = l6.push(("engine_errors"@, v7));
    let t7 = t6 + ",\"engine_errors\":"@ + v7;
    lemma_next(t6, l6, ",\"engine_errors\":"@, "engine_errors"@, v7);
    let v8 = decimal(t.server_busy as nat);
    let l8 = l7.push(("server_busy"@, v8));
    let t8 = t7 + ",\"server_busy\":"@ + v8;
    lemma_next(t7, l7, ",\"server_busy\":"@, "server_busy"@, v8);
    assert(l8 =~= outcome_members(t));
    let lead = seq![',', '"'] + "reject_reasons"@ + seq!['"', ':', '{'];
    assert(",\"reject_reasons\":{"@ =~= lead);
    let reasons = reasons_text(t.reasons);
    assert(outcomes_text(t) == t8 + lead + reasons + "}}"@);
    lemma_last_member(t8, reasons);
}

proof fn lemma_last_member(so_far: Seq<char>, reasons: Seq<char>)
    ensures
        so_far + (seq![',', '"'] + "reject_reasons"@ + seq!['"', ':', '{']) + reasons + "}}"@
            == so_far + seq![','] + member(
            "reject_reasons"@,
            seq!['{'] + reasons + seq!['}'],
        ) + seq!['}'],
{
    reveal_strlit("}}");
    assert(so_far + (seq![',', '"'] + "reject_reasons"@ + seq!['"', ':', '{']) + reasons + "}}"@
        =~= so_far + seq![','] + member("reject_reasons"@, seq!['{'] + reasons + seq!['}'])
        + seq!['}']);
}

} // verus!
