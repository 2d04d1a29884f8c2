use melin::bench::clock::{tsc_to_ns, TickRate, TscClock};
use melin::bench::pacing::{PaceClock, PaceStats, PACE_LATE_SLACK_NS};

/// One tick per nanosecond.
fn rate() -> TickRate {
    TickRate::measured(1_000_000, 1_000_000)
}

#[test]
fn period_matches_aggregate_rate_split_across_clients() {
    // 1 M requests/sec / 4 clients = 250 k/sec per client = 4 µs period.
    let p = PaceClock::new(1_000_000, 4, &rate(), 0, 0);
    assert_eq!(p.period_ticks(), 4_000);
}

#[test]
fn advance_returns_scheduled_and_steps_by_period() {
    let mut p = PaceClock::new(1_000_000, 1, &rate(), 5_000, 0);
    assert_eq!(p.advance(), 5_000);
    assert_eq!(p.advance(), 6_000);
    assert_eq!(p.advance(), 7_000);
}

#[test]
fn unpop_reverses_one_step() {
    let mut p = PaceClock::new(1_000_000, 1, &rate(), 5_000, 0);
    assert_eq!(p.advance(), 5_000);
    assert_eq!(p.advance(), 6_000);
    p.unpop();
    assert_eq!(p.advance(), 6_000);
    assert_eq!(p.advance(), 7_000);
}

#[test]
fn pop_due_is_monotonic_and_paced() {
    let mut p = PaceClock::new(1_000_000, 1, &rate(), 0, 0);
    assert_eq!(p.pop_due(0), Some(0));
    assert_eq!(p.pop_due(999), None);
    assert_eq!(p.pop_due(1_000), Some(1_000));
    assert_eq!(p.pop_due(2_500), Some(2_000));
    assert_eq!(p.next_due_ticks(), 3_000);
}

#[test]
fn stagger_offsets_conns_within_one_period() {
    let p0 = PaceClock::new(1_000_000, 4, &rate(), 10_000, 0);
    let p1 = PaceClock::new(1_000_000, 4, &rate(), 10_000, 1);
    let p2 = PaceClock::new(1_000_000, 4, &rate(), 10_000, 2);
    let p3 = PaceClock::new(1_000_000, 4, &rate(), 10_000, 3);
    assert_eq!(p0.next_due_ticks(), 10_000);
    assert_eq!(p1.next_due_ticks(), 11_000);
    assert_eq!(p2.next_due_ticks(), 12_000);
    assert_eq!(p3.next_due_ticks(), 13_000);
}

#[test]
fn stagger_uses_global_index_across_threads() {
    let global_indices = [0u64, 2, 1, 3];
    let dues: Vec<u64> = global_indices
        .iter()
        .map(|&i| PaceClock::new(1_000_000, 4, &rate(), 10_000, i).next_due_ticks())
        .collect();
    let mut sorted = dues.clone();
    sorted.sort();
    assert_eq!(sorted, vec![10_000, 11_000, 12_000, 13_000]);

    let local_indices = [0u64, 1, 0, 1];
    let buggy: Vec<u64> = local_indices
        .iter()
        .map(|&i| PaceClock::new(1_000_000, 4, &rate(), 10_000, i).next_due_ticks())
        .collect();
    let mut buggy_sorted = buggy.clone();
    buggy_sorted.sort();
    assert_eq!(buggy_sorted, vec![10_000, 10_000, 11_000, 11_000]);
}

#[test]
fn period_clamps_to_at_least_one_tick() {
    let p = PaceClock::new(u64::MAX / 2, 1, &rate(), 0, 0);
    assert!(p.period_ticks() >= 1);
}

#[test]
fn record_send_increments_late_when_past_slack() {
    let mut stats = PaceStats::default();
    stats.record_send(PACE_LATE_SLACK_NS + 1, 0, &rate());
    stats.record_send(PACE_LATE_SLACK_NS - 1, 0, &rate());
    stats.record_send(0, 0, &rate());
    assert_eq!(stats.late_sends, 1);
    assert_eq!(stats.scheduled, 3);
    assert_eq!(stats.max_send_delay_ticks, PACE_LATE_SLACK_NS + 1);
}

#[test]
fn send_before_its_time_counts_as_no_delay() {
    let mut stats = PaceStats::default();
    stats.record_send(5, 10, &rate());
    assert_eq!(stats.late_sends, 0);
    assert_eq!(stats.max_send_delay_ticks, 0);
    assert_eq!(stats.scheduled, 1);
}

#[test]
fn ticks_convert_at_the_measured_rate() {
    // Three ticks per nanosecond.
    let three = TickRate::measured(3_000_000, 1_000_000);
    assert_eq!(tsc_to_ns(9_000, &three), 3_000);
    assert_eq!(three.ns_to_tsc(3_000), 9_000);
    assert_eq!(tsc_to_ns(10, &three), 3);
    let p = PaceClock::new(1_000_000, 1, &three, 0, 0);
    assert_eq!(p.period_ticks(), 3_000);
}

#[test]
fn unix_ns_saturates_on_pre_anchor_tsc() {
    let clock = TscClock::calibrated(1_700_000_000_000_000_000, 5_000_000, 8_000_000, 1_000_000);
    let value = clock.unix_ns(clock.anchor_tsc.saturating_sub(1_000));
    assert_eq!(value, clock.anchor_unix_ns);
}

#[test]
fn unix_ns_moves_with_the_tick_counter() {
    let clock = TscClock::calibrated(1_000, 500, 3_500, 1_000);
    assert_eq!(clock.unix_ns(clock.anchor_tsc), clock.anchor_unix_ns);
    assert_eq!(
        clock.unix_ns(clock.anchor_tsc + 300),
        clock.anchor_unix_ns + 100
    );
}
