use melin::bench::clock::TickRate;
use melin::bench::connection::{Connection, LoopConfig, Measurement};
use melin::bench::pacing::PaceStats;
use melin::bench::phases::BenchPhases;
use melin::bench::workload::{
    fill_slot, finish_request, next_response, Received, Timing, Workload,
};
use melin::bench::outcomes::OutcomeReport;

const COMPLETE: u8 = 1;
const CHATTER: u8 = 2;

/// Sends a fixed payload and takes one byte back.
struct Echo {
    completions: u64,
    chatter: u64,
    outcomes: OutcomeReport,
}

impl Workload for Echo {
    type Response = u8;
    type Outcomes = OutcomeReport;

    fn next_frame(&mut self, out: &mut Vec<u8>) {
        out.extend_from_slice(&4u32.to_le_bytes());
        out.extend_from_slice(b"ping");
    }

    fn decode(&self, body: &[u8]) -> Option<u8> {
        if body.len() == 1 {
            Some(body[0])
        } else {
            None
        }
    }

    fn completes_request(&self, response: &u8) -> bool {
        *response == COMPLETE
    }

    fn record(&mut self, response: &u8) {
        if *response == COMPLETE {
            self.completions += 1;
        } else {
            self.chatter += 1;
        }
    }

    fn outcomes(&self) -> &OutcomeReport {
        &self.outcomes
    }
}

#[test]
fn completions_are_timed_and_every_frame_is_counted() {
    let mut w = Echo {
        completions: 0,
        chatter: 0,
        outcomes: OutcomeReport::default(),
    };
    let rate = TickRate::measured(1_000_000, 1_000_000);
    let mut conn = Connection::new(8);
    let mut stats = PaceStats::default();
    let mut filled = 0;
    while fill_slot(&mut conn, &mut w, 8, 100 + filled, 0, &mut stats, &rate) {
        filled += 1;
    }
    assert_eq!(filled, 8);
    let bytes = conn.start_send().unwrap();
    assert_eq!(bytes, b"\x04\0\0\0ping".repeat(8));
    let sent = bytes.len();
    assert!(conn.start_send().is_none());
    conn.sent(sent);

    // For every request one frame of chatter and one completion, cut at odd
    // places.
    let mut bytes = Vec::new();
    for _ in 0..8 {
        for byte in [CHATTER, COMPLETE] {
            bytes.extend_from_slice(&1u32.to_le_bytes());
            bytes.push(byte);
        }
    }
    let phases = BenchPhases {
        warmup: 10,
        measured: 100,
        cooldown: 10,
    };
    let deadlines = phases.deadlines(0);
    let mut m = Measurement::new();
    let mut timed = 0;
    for chunk in bytes.chunks(7) {
        conn.receive(chunk);
        loop {
            let response = match next_response(&mut conn, &w) {
                Received::Nothing => break,
                Received::Undecodable => panic!("undecodable"),
                Received::Completion(r) => {
                    let t = finish_request(&mut conn, &mut m, &deadlines, 50, 500, &rate);
                    assert!(matches!(t, Timing::Timed { .. }));
                    timed += 1;
                    r
                }
                Received::Other(r) => r,
            };
            w.record(&response);
        }
    }
    assert_eq!(timed, 8);
    assert_eq!(w.completions, 8);
    assert_eq!(w.chatter, 8);
    assert_eq!(m.completed, 8);
    assert_eq!(m.measured_start, Some(50));
    assert!(matches!(
        finish_request(&mut conn, &mut m, &deadlines, 50, 500, &rate),
        Timing::Unmatched
    ));
}

#[test]
fn schedules_follow_the_number_in_the_run() {
    let rate = TickRate::measured(1_000_000, 1_000_000);
    let phases = BenchPhases {
        warmup: 0,
        measured: 1,
        cooldown: 0,
    };
    let cfg = LoopConfig {
        window: 4,
        bench_start: 0,
        deadlines: phases.deadlines(0),
        phases,
        target_rate: 1_000_000,
        total_clients: 4,
        thread_idx: 1,
        total_threads: 2,
    };
    let mut conns = vec![Connection::new(4), Connection::new(4)];
    cfg.pace_all(&mut conns, &rate, 10_000);
    let mut stats = PaceStats::default();
    // Numbers 1 and 3 of the run: due at 11_000 and 13_000.
    assert_eq!(conns[0].claim_slot(4, 10_999, 0, &mut stats, &rate), None);
    assert_eq!(conns[0].claim_slot(4, 11_000, 0, &mut stats, &rate), Some(11_000));
    assert_eq!(conns[1].claim_slot(4, 12_999, 0, &mut stats, &rate), None);
    assert_eq!(conns[1].claim_slot(4, 13_500, 0, &mut stats, &rate), Some(13_000));
    assert_eq!(stats.scheduled, 2);
}

/// A connection that may not send keeps its schedule and its queue.
#[test]
fn full_window_leaves_the_schedule() {
    let mut w = Echo {
        completions: 0,
        chatter: 0,
        outcomes: OutcomeReport::default(),
    };
    let rate = TickRate::measured(1_000_000, 1_000_000);
    let mut conn = Connection::new(1);
    conn.pace(1_000_000, 1, &rate, 10_000, 0);
    let mut stats = PaceStats::default();
    assert!(!fill_slot(&mut conn, &mut w, 1, 9_999, 0, &mut stats, &rate));
    assert!(fill_slot(&mut conn, &mut w, 1, 10_000, 0, &mut stats, &rate));
    assert!(!fill_slot(&mut conn, &mut w, 1, 50_000, 0, &mut stats, &rate));
    assert_eq!(stats.scheduled, 1);
    conn.complete(50_000, &rate);
    // The slot that was due next is still there.
    assert_eq!(
        conn.claim_slot(1, 50_000, 0, &mut stats, &rate),
        Some(11_000)
    );
}
