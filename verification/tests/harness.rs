use melin::bench::health::{
    health_json, health_summary, ExtraMetrics, HealthReport, HealthSample, MetricValue,
};
use melin::bench::phases::{
    duration_or_error, parse_duration, BenchPhases, Phase, DEFAULT_DURATION, SPANS_TOO_LARGE,
};
use melin::bench::report::{
    console_label, earliest, header_line, json_label, measured_wall, pacing_json,
    percentiles_json, results_json, supported_nines, LatencyTexts, PacingReport, RunTexts, Unit,
};
use melin::bench::series::{maybe_sample, to_json, LatencySample, SampleStep, SAMPLE_INTERVAL};

const SECOND: u128 = 1_000_000_000;

#[test]
fn deadlines_are_cumulative_from_start() {
    let phases = BenchPhases {
        warmup: SECOND,
        measured: 10 * SECOND,
        cooldown: 2 * SECOND,
    };
    let start = 77;
    let d = phases.deadlines(start);
    assert_eq!(d.warmup_end, start + SECOND);
    assert_eq!(d.measured_end, start + 11 * SECOND);
    assert_eq!(d.cooldown_end, start + 13 * SECOND);
}

#[test]
fn zero_length_phases_keep_deadlines_ordered() {
    let phases = BenchPhases {
        warmup: 0,
        measured: 5 * SECOND,
        cooldown: 0,
    };
    let start = 77;
    let d = phases.deadlines(start);
    assert_eq!(d.warmup_end, start);
    assert_eq!(d.measured_end, d.cooldown_end);
    assert!(d.warmup_end <= d.measured_end);
}

#[test]
fn parse_duration_accepts_humantime_and_reports_errors() {
    assert_eq!(parse_duration("500ms").unwrap(), 500_000_000);
    assert!(parse_duration("banana").unwrap_err().contains("banana"));
}

#[test]
fn durations_of_several_units_add_up() {
    assert_eq!(parse_duration("60s").unwrap(), DEFAULT_DURATION);
    assert_eq!(parse_duration("1m 30s").unwrap(), 90 * SECOND);
}

/// Spans that are together longer than a duration can be are refused. Up to
/// there they are added up.
#[test]
fn spans_too_large_to_add_up_are_refused() {
    for text in [
        "18446744073709551615s 1000000000ns",
        "5124095576030431h15s1000ms",
        "18446744073709551615s 1000000000ns s",
        "18446744073709551614s 1.999999999s 1ns",
        "584542046091y",
        "18446744073709551616ns",
    ] {
        let e = parse_duration(text).unwrap_err();
        assert_eq!(e, format!("invalid duration `{text}`: {SPANS_TOO_LARGE}"));
    }
    for (text, nanos) in [
        ("18446744073709551615s", u64::MAX as u128 * SECOND),
        (
            "18446744073709551615s 999999999ns",
            u64::MAX as u128 * SECOND + 999_999_999,
        ),
        ("999999999999ns1s", 999_999_999_999 + SECOND),
        ("600000000000ns 1ns", 600_000_000_001),
        ("1s 584.542046091s", 585_542_046_091),
        ("18446744073709551614s 1000ms", u64::MAX as u128 * SECOND),
        ("1.5m 1 0s", 100 * SECOND),
        ("1M 1m", 2_630_016 * SECOND + 60 * SECOND),
        ("0", 0),
    ] {
        assert_eq!(parse_duration(text).unwrap(), nanos, "{text}");
    }
}

/// Where `humantime` reads a text or reports an error, so it is told.
#[test]
fn durations_are_read_as_humantime_reads_them() {
    let units = [
        "nanos", "nsec", "ns", "usec", "us", "µs", "millis", "msec", "ms", "seconds", "second",
        "secs", "sec", "s", "minutes", "minute", "min", "mins", "m", "hours", "hour", "hr", "hrs",
        "h", "days", "day", "d", "weeks", "week", "wk", "wks", "w", "months", "month", "M",
        "years", "year", "yr", "yrs", "y", "parsec", "",
    ];
    for unit in units {
        for number in [
            "0",
            "7",
            "1.5",
            "0.001",
            "584542046090",
            "18446744073709551615",
            "18446744073709551616",
            "1.00000000000000000000",
            "1..5",
            ".",
        ] {
            for text in [
                format!("{number}{unit}"),
                format!("1ns {number} {unit}"),
                format!("{number}{unit}3h"),
            ] {
                let want = text
                    .parse::<humantime::Duration>()
                    .map(|d| d.as_nanos())
                    .map_err(|e| format!("invalid duration `{text}`: {e}"));
                let got = parse_duration(&text);
                assert_eq!(got.is_ok(), want.is_ok(), "{text}");
                if got.is_ok() || !got.as_ref().unwrap_err().contains(SPANS_TOO_LARGE) {
                    assert_eq!(got, want);
                }
            }
        }
    }
}

#[test]
fn printed_durations_read_back() {
    let phases = BenchPhases {
        warmup: 31_557_600 * SECOND + 1,
        measured: 90_061 * SECOND + 1_001_001,
        cooldown: 0,
    };
    let line = header_line("engine", 1, &phases);
    let text = |from: &str, to: &str| {
        let start = line.find(from).unwrap() + from.len();
        let end = start + line[start..].find(to).unwrap();
        line[start..end].to_string()
    };
    let warmup = text("warmup=", " measured=");
    assert_eq!(parse_duration(&warmup).unwrap(), phases.warmup);
    let measured = text(" measured=", " cooldown=");
    assert_eq!(parse_duration(&measured).unwrap(), phases.measured);
    assert_eq!(parse_duration(&text(" cooldown=", ") ===")).unwrap(), 0);
}

#[test]
fn duration_error_names_the_text() {
    let e = duration_or_error("xyz", Err("why".to_string())).unwrap_err();
    assert!(e.contains("xyz") && e.contains("why"), "{e}");
    assert_eq!(duration_or_error("1ns", Ok(1)).unwrap(), 1);
}

#[test]
fn phases_follow_each_other() {
    let d = BenchPhases {
        warmup: 10,
        measured: 20,
        cooldown: 5,
    }
    .deadlines(100);
    assert!(matches!(d.phase_at(100), Phase::Warmup));
    assert!(matches!(d.phase_at(110), Phase::Measured));
    assert!(matches!(d.phase_at(130), Phase::Cooldown));
    assert!(!d.is_measured(109));
    assert!(d.is_measured(129));
    assert!(!d.is_measured(130));
}

fn latency(nines: usize, text: &str) -> LatencyTexts {
    LatencyTexts {
        min: text.to_string(),
        p50: text.to_string(),
        p90: text.to_string(),
        nines: vec![text.to_string(); nines],
        max: text.to_string(),
    }
}

#[test]
fn percentiles_json_adds_nines_with_sample_count() {
    let small = percentiles_json(&latency(supported_nines(999), "1.00"));
    assert!(small.contains("\"p90_us\""));
    assert!(!small.contains("\"p99_us\""), "{small}");

    let medium = percentiles_json(&latency(supported_nines(1_000), "1.00"));
    assert!(medium.contains("\"p99_us\""));
    assert!(!medium.contains("\"p99.9_us\""), "{medium}");

    let large = percentiles_json(&latency(supported_nines(10_000), "1.00"));
    assert!(large.contains("\"p99.9_us\""), "{large}");
}

#[test]
fn percentiles_json_reports_microseconds() {
    let json = percentiles_json(&latency(supported_nines(10), &format!("{:.2}", 2_000f64 / 1e3)));
    assert!(json.contains("\"min_us\":2.00"), "{json}");
    assert!(json.contains("\"max_us\":2.00"), "{json}");
}

#[test]
fn labels_spell_out_the_nines() {
    assert_eq!(json_label(2), "p99_us");
    assert_eq!(json_label(3), "p99.9_us");
    assert_eq!(console_label(2), "p99");
    assert_eq!(console_label(4), "p99.99");
}

#[test]
fn health_json_is_empty_array_without_samples() {
    assert_eq!(health_json(&HealthReport::default()), "[]");
}

fn sample(depth: u64, events: u64) -> HealthSample {
    HealthSample {
        elapsed_secs: "1.0".to_string(),
        active_connections: 0,
        events_processed: events,
        journal_sequence: 0,
        replication_lag: 0,
        input_queue_depth: depth,
        input_queue_capacity: 64,
        pipeline_healthy: true,
        trading_active: true,
        extra: ExtraMetrics::new(),
    }
}

#[test]
fn health_json_sanitizes_prometheus_label_syntax() {
    let mut sample = sample(0, 0);
    sample
        .extra
        .insert("melin_replica_lag{slot=\"0\"}", MetricValue::Whole(7));
    let report = HealthReport {
        samples: vec![sample],
        dropped: 0,
    };
    let json = health_json(&report);
    assert!(json.contains("\"melin_replica_lag_slot_0\":7"), "{json}");
    assert!(!json.contains('{') || !json.contains("slot=\""), "{json}");
}

#[test]
fn health_metrics_stand_in_name_order() {
    let mut s = sample(0, 0);
    s.extra.insert("zeta", MetricValue::Whole(1));
    s.extra.insert("alpha", MetricValue::Printed("2.5".to_string()));
    s.extra.insert("zeta", MetricValue::Whole(-3));
    let json = health_json(&HealthReport {
        samples: vec![s],
        dropped: 0,
    });
    let alpha = json.find("\"alpha\":2.5").expect("alpha");
    let zeta = json.find("\"zeta\":-3").expect("zeta");
    assert!(alpha < zeta, "{json}");
}

#[test]
fn health_summary_shows_the_peak() {
    assert!(health_summary(&HealthReport::default()).is_none());
    let s = health_summary(&HealthReport {
        samples: vec![sample(3, 10), sample(9, 20), sample(4, 30)],
        dropped: 2,
    })
    .unwrap();
    assert_eq!(s.samples, 3);
    assert_eq!(s.dropped, 2);
    assert_eq!(s.peak_depth, 9);
    assert_eq!(s.capacity, 64);
    assert_eq!(s.final_events, 30);
}

#[test]
fn does_not_sample_before_the_interval_is_reached() {
    let mut count = SAMPLE_INTERVAL - 1;
    let step = maybe_sample(false, &mut count);
    assert!(matches!(step, SampleStep::Wait));
    assert_eq!(count, SAMPLE_INTERVAL - 1);
}

#[test]
fn samples_and_resets_once_the_interval_is_reached() {
    let mut count = SAMPLE_INTERVAL;
    let step = maybe_sample(false, &mut count);
    assert!(matches!(step, SampleStep::SampleAndReset));
    assert_eq!(count, 0, "counter must reset");
}

#[test]
fn empty_interval_resets_without_emitting_a_sample() {
    let mut count = SAMPLE_INTERVAL;
    let step = maybe_sample(true, &mut count);
    assert!(!matches!(step, SampleStep::SampleAndReset));
    assert_eq!(count, 0);
}

#[test]
fn empty_series_renders_as_empty_json_array() {
    assert_eq!(to_json(&[]), "[]");
}

#[test]
fn json_uses_fixed_precision_per_field() {
    let series = vec![LatencySample {
        elapsed_secs: format!("{:.3}", 1.23456),
        p99_us: format!("{:.2}", 10.987),
        p999_us: format!("{:.2}", 20.0),
        p9999_us: format!("{:.2}", 30.5),
    }];
    assert_eq!(
        to_json(&series),
        "[{\"elapsed_secs\":1.235,\"p99_us\":10.99,\"p999_us\":20.00,\"p9999_us\":30.50}]"
    );
}

#[test]
fn header_names_count_and_durations() {
    let phases = BenchPhases {
        warmup: 5 * SECOND,
        measured: 60 * SECOND,
        cooldown: SECOND / 2,
    };
    let line = header_line("engine", 1234, &phases);
    assert_eq!(
        line,
        "=== engine Benchmark (1234 measured, warmup=5s measured=1m cooldown=500ms) ==="
    );
}

#[test]
fn results_hold_what_was_measured() {
    let json = results_json(&RunTexts {
        label: "tcp".to_string(),
        measured_count: 42,
        warmup_ms: "1".to_string(),
        measured_ms: "2".to_string(),
        cooldown_ms: "3".to_string(),
        wall_ms: "4.5".to_string(),
        throughput_ops: "6".to_string(),
        latency: "{\"min_us\":1.00}".to_string(),
        time_series: "[]".to_string(),
        health: "[]".to_string(),
        server_stages: "{}".to_string(),
        pacing: None,
        outcomes: "{}".to_string(),
    });
    assert_eq!(
        json,
        "{\"label\":\"tcp\",\"measured_orders\":42,\"warmup_ms\":1,\"measured_ms\":2,\
         \"cooldown_ms\":3,\"wall_ms\":4.5,\"throughput_ops\":6,\
         \"latency\":{\"min_us\":1.00},\"time_series\":[],\"health\":[],\
         \"server_stages\":{},\"outcomes\":{}}"
    );
}

#[test]
fn pacing_object_shows_late_sends() {
    let json = pacing_json(
        &Some(PacingReport {
            target_rate: 1000,
            scheduled: 500,
            late_sends: 7,
            max_send_delay_us: "12.5".to_string(),
        }),
        "998",
    );
    assert_eq!(
        json,
        ",\"pacing\":{\"target_rate\":1000,\"scheduled\":500,\"achieved_rate\":998,\
         \"late_sends\":7,\"max_send_delay_us\":12.5}"
    );
}

#[test]
fn measured_wall_ends_with_the_measured_phase() {
    let phases = BenchPhases {
        warmup: 10,
        measured: 100,
        cooldown: 10,
    };
    assert_eq!(earliest(Some(5), None), Some(5));
    assert_eq!(earliest(Some(5), Some(3)), Some(3));
    assert_eq!(earliest(None, None), None);
    assert_eq!(measured_wall(0, Some(15), 118, &phases), 100);
    assert_eq!(measured_wall(0, Some(15), 50, &phases), 35);
    assert_eq!(measured_wall(7, None, 50, &phases), 43);
}

#[test]
fn units_have_their_names() {
    assert_eq!(Unit::order().singular, "order");
    assert_eq!(Unit::request().plural, "requests");
}
