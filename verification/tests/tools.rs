use melin::bench::transport::{connect_failure, connect_retry};
use melin::bench::blast::{read_args, total_orders, Flusher, Receiver, FLUSH_BATCH};
use melin::bench::clock::TickRate;
use melin::bench::connection::{global_index, operation_for, token_for, Operation};
use melin::bench::engine_run::{
    capped_wall, count_event, instruments, pacing_outcome, DeadlinePoll, FlowCounts, FlowKind,
    SlowEntry, Slowest, DEADLINE_POLL_INTERVAL, SLOWEST_N,
};
use melin::bench::outcomes::OutcomeReport;
use melin::bench::pacing::PaceStats;
use melin::bench::phases::BenchPhases;
use melin::bench::pipeline_run::{
    group_commit_line, nth_order, target_rate_line, timestamp_capacity, Drain, OutputPayload,
    PublishStep, Publisher,
};
use melin::bench::replication_run::{
    authorized_keys_text, check_replicas, connect_step, durability_mode, key_line_for, progress,
    replica_core, replica_seed, ConnectStep, DurabilityMode, Generator, GeneratorStep, BURST,
    LEAD_CAP,
};
use melin::bench::roundtrip::{
    check_pacing, client_name, deal, handshake_answer, parse_mode, progress_phase, progress_since,
    roundtrip_target, start_order_id, thread_count, threads_line, transport_line, window_line,
    BenchMode, RoundtripTarget,
};
use melin::dpdk::device::{RxBurst, BURST_SIZE};
use melin::dpdk::transport::{
    accepted_peer, check_port, eal_started, DpdkConfig, EalError, Ipv4, Remote, TxQueues,
    LISTEN_PORT,
};
use melin::gateway::args::config_path;
use melin::gateway::metrics::GatewayMetrics;
use melin::journal::batches::{batch_count, batch_range, hex, shows_progress, JournalTally};
use melin::journal::diff::{DiffStep, Differ, EntryHeader, SegmentStep, SegmentWalk};
use melin::protocol::message::ServerFrame;
use melin::types::{AccountId, CurrencyId, ExecutionReport, OrderId, Side, Symbol};

#[test]
fn leak_default_returns_zeroed_static() {
    let m = GatewayMetrics::leak_default();
    assert_eq!(m.sessions_active, 0);
    assert_eq!(m.parse_errors_total, 0);
}

#[test]
fn leaked_metrics_outlive_their_scope() {
    let kept: &'static GatewayMetrics = {
        let m = GatewayMetrics::leak_default();
        m
    };
    assert_eq!(*kept, GatewayMetrics::default());
}

fn entry(sequence: u64, timestamp_ns: u64, key_hash: u64, request_seq: u64) -> EntryHeader {
    EntryHeader {
        sequence,
        timestamp_ns,
        key_hash,
        request_seq,
    }
}

/// Compares two lists as a tool would.
fn diff(a: &[EntryHeader], b: &[EntryHeader], max: usize) -> (Differ, Vec<String>) {
    let mut d = Differ::new(Some(max));
    let (mut i, mut j) = (0, 0);
    let mut shown = Vec::new();
    loop {
        match d.step(a.get(i).copied(), b.get(j).copied(), true) {
            DiffStep::Done => break,
            DiffStep::AdvanceFirst => i += 1,
            DiffStep::AdvanceSecond => j += 1,
            DiffStep::Same => {
                i += 1;
                j += 1;
            }
            DiffStep::Differs { lines, stop, .. } => {
                shown.extend(lines);
                if stop {
                    shown.push(d.stop_line());
                    break;
                }
                i += 1;
                j += 1;
            }
        }
    }
    (d, shown)
}

#[test]
fn lineages_are_aligned_by_sequence() {
    let a: Vec<_> = (1..=5).map(|s| entry(s, s, 0, 0)).collect();
    let b: Vec<_> = (3..=8).map(|s| entry(s, s, 0, 0)).collect();
    let (d, shown) = diff(&a, &b, 5);
    assert!(shown.is_empty());
    assert_eq!(d.summary(), "compared 3 entries over 3..=5; 0 differed");
    assert_eq!(d.exit_code(), 0);
    let (d, _) = diff(&a, &[], 5);
    assert_eq!(
        d.summary(),
        "compared 0 entries over (no overlap); 0 differed"
    );
}

#[test]
fn differences_are_shown_field_by_field() {
    let a = [entry(1, 10, 0xff, 3), entry(2, 20, 1, 1), entry(3, 1, 1, 1)];
    let b = [entry(1, 11, 0x1f, 3), entry(2, 20, 1, 2), entry(3, 2, 1, 1)];
    let (d, shown) = diff(&a, &b, 2);
    assert_eq!(
        shown,
        vec![
            "DIFF at sequence 1:",
            "  timestamp_ns: a=10 b=11",
            "  key_hash:     a=0xff b=0x1f",
            "DIFF at sequence 2:",
            "  request_seq:  a=1 b=2",
            "(stopping after 2 diffs)",
        ]
    );
    assert_eq!(d.summary(), "compared 2 entries over 1..=2; 2 differed");
    assert_eq!(d.exit_code(), 1);
}

#[test]
fn event_difference_alone_counts() {
    let mut d = Differ::new(None);
    match d.step(Some(entry(1, 1, 1, 1)), Some(entry(1, 1, 1, 1)), false) {
        DiffStep::Differs {
            lines,
            show_events,
            stop,
        } => {
            assert_eq!(lines, vec!["DIFF at sequence 1:"]);
            assert!(show_events);
            assert!(!stop);
        }
        other => panic!("expected a difference, got {other:?}"),
    }
}

#[test]
fn segments_are_walked_in_order() {
    assert!(SegmentWalk::over(0, false).is_none());
    let mut w = SegmentWalk::over(2, true).unwrap();
    let mut opened = Vec::new();
    loop {
        match w.next_step() {
            SegmentStep::Open(i) => opened.push(i),
            SegmentStep::Read => w.segment_ended(),
            SegmentStep::Finished => break,
        }
    }
    assert_eq!(opened, vec![0, 1, 2]);
}

#[test]
fn batches_cover_every_event() {
    for (events, size) in [(10, 3), (9, 3), (1, 100), (0, 5)] {
        let mut next = 0;
        for b in 0..batch_count(events, size) {
            let (start, end) = batch_range(b, events, size);
            assert_eq!(start, next);
            next = end;
        }
        assert_eq!(next, events);
    }
    assert!(shows_progress(20_000));
    assert!(!shows_progress(20_001));
}

#[test]
fn journal_is_summed_up() {
    let mut t = JournalTally::new();
    t.entry(5);
    t.entry(6);
    assert_eq!((t.count, t.last_seq), (2, 6));
    let mut h = [0u8; 32];
    h[0] = 0xab;
    h[31] = 0x0f;
    let text = hex(&h);
    assert!(text.starts_with("ab00") && text.ends_with("000f"), "{text}");
    assert_eq!(text.len(), 64);
}

#[test]
fn replicas_are_checked_and_placed() {
    assert_eq!(
        check_replicas(3).unwrap_err(),
        "FATAL: --replicas must be 1..=2"
    );
    assert!(check_replicas(0).is_err());
    assert!(check_replicas(2).is_ok());
    assert_eq!(replica_core(0, 3), 0);
    assert_eq!(replica_core(8, 3), 11);
    assert_eq!(
        durability_mode("durably-replicated"),
        Some(DurabilityMode::DurablyReplicated)
    );
    assert_eq!(durability_mode("none"), None);
}

#[test]
fn generator_stays_near_the_acknowledgements() {
    let mut g = Generator::new();
    let mut bursts = 0;
    while g.step(2, 2, 0) == GeneratorStep::Publish {
        bursts += 1;
    }
    assert_eq!(g.published, bursts * BURST);
    assert!(g.published > LEAD_CAP && g.published <= LEAD_CAP + BURST);
    assert_eq!(LEAD_CAP, 65_536);
    assert_eq!(g.step(2, 2, 0), GeneratorStep::Pause);
    assert_eq!(g.step(2, 2, BURST), GeneratorStep::Publish);
    assert_eq!(g.step(1, 2, BURST), GeneratorStep::Stop);
    assert_eq!(connect_step(1, 2, false), ConnectStep::Wait);
    assert_eq!(connect_step(1, 2, true), ConnectStep::GiveUp);
    assert_eq!(connect_step(2, 2, true), ConnectStep::Ready);
    let p = progress(100, 40, 130);
    assert_eq!((p.delta, p.spread), (60, 30));
    let p = progress(10, 40, 5);
    assert_eq!((p.delta, p.spread), (0, 0));
}

/// The keys of the authorized lines are those of the replicas' seeds.
#[test]
fn replica_keys_are_listed_in_base64() {
    let text = authorized_keys_text(2);
    let lines: Vec<&str> = text.lines().collect();
    assert_eq!(lines.len(), 2);
    for (i, line) in lines.iter().enumerate() {
        let seed = replica_seed(i as u8);
        assert_eq!(seed, [0x42 + i as u8; 32]);
        let key = ed25519_dalek::SigningKey::from_bytes(&seed).verifying_key();
        let b64 = base64::Engine::encode(
            &base64::engine::general_purpose::STANDARD,
            key.to_bytes(),
        );
        assert_eq!(*line, format!("replication {b64} bench-replica-{i}"));
        assert_eq!(key_line_for(i as u8, &b64), format!("{line}\n"));
    }
}

#[test]
fn gateway_arguments_name_a_configuration() {
    let args = |v: &[&str]| v.iter().map(|s| s.to_string()).collect::<Vec<_>>();
    assert_eq!(
        config_path(&args(&["--config", "a.toml"])),
        Some("a.toml".to_string())
    );
    assert_eq!(
        config_path(&args(&["--config", "a", "--config", "b"])),
        Some("b".to_string())
    );
    assert_eq!(config_path(&args(&["--config"])), Some(String::new()));
    assert_eq!(config_path(&args(&[])), None);
    assert_eq!(config_path(&args(&["--core", "1"])), None);
}

#[test]
fn queued_bytes_leave_in_order() {
    let mut q = TxQueues::new();
    assert!(q.waiting(7).is_none());
    q.queue_send(7, b"abc");
    q.queue_send(9, b"xyz");
    q.queue_send(7, b"def");
    assert_eq!(q.waiting(7), Some(&b"abcdef"[..]));
    q.sent(7, 4);
    assert_eq!(q.waiting(7), Some(&b"ef"[..]));
    q.sent(7, 2);
    assert!(q.waiting(7).is_none());
    q.close(9);
    assert!(q.waiting(9).is_none());
}

#[test]
fn burst_is_handed_out_packet_by_packet() {
    let mut b = RxBurst::new();
    assert!(b.needs_poll());
    assert_eq!(b.next_packet(), None);
    b.polled(2);
    assert!(!b.needs_poll());
    assert_eq!(b.next_packet(), Some(0));
    assert_eq!(b.next_packet(), Some(1));
    assert!(b.needs_poll());
    assert_eq!(BURST_SIZE, 32);
}

#[test]
fn network_setup_is_checked() {
    assert_eq!(
        check_port(3, 2).unwrap_err(),
        "DPDK port 3 not found (available: 2)"
    );
    assert!(check_port(1, 2).is_ok());
    assert_eq!(eal_started(-7), Err(EalError::InitFailed(-7)));
    assert_eq!(eal_started(4), Ok(4));
    assert_eq!(
        EalError::InitFailed(-7).message(),
        "rte_eal_init failed with code -7"
    );
    assert_eq!(
        EalError::InvalidArg.message(),
        "EAL argument contains null byte"
    );
    let c = DpdkConfig::default();
    assert_eq!(c.ip_addr, Ipv4(10, 0, 0, 1));
    assert_eq!((c.prefix_len, c.listen_port), (24, LISTEN_PORT));
    let peer = Some(Remote::V4 {
        ip: Ipv4(1, 2, 3, 4),
        port: 5,
    });
    assert_eq!(accepted_peer(true, peer), Some((Ipv4(1, 2, 3, 4), 5)));
    assert_eq!(accepted_peer(false, peer), None);
    assert_eq!(accepted_peer(true, Some(Remote::Other)), None);
}

#[test]
fn slowest_events_are_kept() {
    let mut s = Slowest::new();
    for i in 0..100u64 {
        let latency_ns = (i * 37) % 101;
        if s.is_among(latency_ns) {
            s.offer(SlowEntry {
                latency_ns,
                event: i,
                num_reports: 1,
                offset_us: i,
            });
        }
    }
    let kept: Vec<u64> = s.sorted().iter().map(|e| e.latency_ns).collect();
    let mut all: Vec<u64> = (0..100u64).map(|i| (i * 37) % 101).collect();
    all.sort();
    all.reverse();
    assert_eq!(kept, all[..SLOWEST_N]);
}

#[test]
fn clock_is_read_once_per_interval() {
    let mut p = DeadlinePoll::new();
    let looks: Vec<u32> = (0..3 * DEADLINE_POLL_INTERVAL)
        .filter(|_| p.next_event())
        .collect();
    assert_eq!(looks, vec![DEADLINE_POLL_INTERVAL, 2 * DEADLINE_POLL_INTERVAL]);
}

#[test]
fn engine_events_are_counted() {
    let mut flow = FlowCounts::new();
    flow.record(FlowKind::Submit);
    flow.record(FlowKind::Submit);
    flow.record(FlowKind::Cancel);
    flow.record(FlowKind::CancelReplace);
    assert_eq!(flow.total(), 4);
    assert_eq!(flow.submits, 2);
    let mut outcomes = OutcomeReport::default();
    count_event(
        &mut outcomes,
        &[ExecutionReport::Cancelled {
            order_id: OrderId(1),
            symbol: Symbol(1),
            account: AccountId(1),
        }],
    );
    assert_eq!((outcomes.batch_ends, outcomes.cancelled), (1, 1));
    assert_eq!(capped_wall(7, 5), 5);
    let specs = instruments(2);
    assert_eq!(specs[1].symbol, Symbol(2));
    assert_eq!((specs[1].base, specs[1].quote), (CurrencyId(3), CurrencyId(4)));
    let rate = TickRate::measured(1_000, 1_000);
    assert_eq!(pacing_outcome(0, &PaceStats::default(), &rate), None);
    let mut stats = PaceStats::default();
    stats.record_send(7, 3, &rate);
    assert_eq!(pacing_outcome(10, &stats, &rate), Some((1, 0, 4)));
}

#[test]
fn pipeline_orders_take_turns() {
    assert_eq!(nth_order(0).id, OrderId(1));
    assert_eq!(nth_order(0).side, Side::Buy);
    assert_eq!(nth_order(1).side, Side::Sell);
    assert_eq!(timestamp_capacity(64), 64);
    assert_eq!(timestamp_capacity(65), 128);
    assert_eq!(timestamp_capacity(0), 2);
    let rate = TickRate::measured(1_000_000, 1_000_000);
    let mut stats = PaceStats::default();
    let mut p = Publisher::new(0, 0, &rate, 0);
    assert!(matches!(
        p.step(false, 0, 1, 42, &mut stats, &rate),
        PublishStep::Publish { ts: 42, .. }
    ));
    assert!(matches!(
        p.step(false, 1, 1, 43, &mut stats, &rate),
        PublishStep::Spin
    ));
    assert!(matches!(
        p.step(true, 0, 1, 44, &mut stats, &rate),
        PublishStep::Stop
    ));
    let mut d = Drain::new();
    let deadlines = BenchPhases {
        warmup: 10,
        measured: 10,
        cooldown: 10,
    }
    .deadlines(0);
    assert_eq!(d.complete(&deadlines, 5, 100, 150, &rate), None);
    assert_eq!(d.complete(&deadlines, 15, 100, 150, &rate), Some(50));
    assert_eq!(d.measured_orders, 1);
    d.tally(true, &OutputPayload::EngineError);
    assert_eq!((d.outcomes.batch_ends, d.outcomes.engine_errors), (1, 1));
    assert_eq!(group_commit_line(0), None);
    assert_eq!(
        group_commit_line(50).unwrap(),
        "  Group commit delay: 50 µs"
    );
    assert_eq!(
        target_rate_line(10, 9, 1, "3.5"),
        "  Target rate: 10 ops/s (scheduled 9, late 1, max send delay 3.5 µs)"
    );
}

#[test]
fn blast_runs_flush_and_end() {
    let args = |v: &[&str]| v.iter().map(|s| s.to_string()).collect::<Vec<_>>();
    assert_eq!(read_args(&args(&["--uds", "500"])), (true, 500));
    assert_eq!(read_args(&args(&["x"])), (false, 1_000_000));
    assert_eq!(total_orders(10), 1_020);
    let mut f = Flusher::new();
    let flushes = (0..FLUSH_BATCH).filter(|_| f.wrote(5)).count();
    assert_eq!(flushes, 1);
    assert!(!f.finish());
    assert!(f.wrote(0));
    f.wrote(1);
    assert!(f.finish());
    let mut r = Receiver::new();
    let mut recorded = 0;
    loop {
        let done = r.batch_end(total_orders(10));
        if done.record {
            recorded += 1;
        }
        if done.last {
            break;
        }
    }
    assert_eq!(recorded, 20);
}

#[test]
fn roundtrip_flags_are_held_to_each_other() {
    assert_eq!(parse_mode("engine").unwrap(), BenchMode::Engine);
    assert_eq!(
        parse_mode("x").unwrap_err(),
        "unknown mode: x (expected: engine, pipeline, roundtrip)"
    );
    assert!(check_pacing(1, 0).is_err());
    assert!(check_pacing(0, 0).is_ok());
    assert_eq!(
        roundtrip_target(true, true, true),
        Err("error: --addr and --uds are mutually exclusive")
    );
    assert_eq!(
        roundtrip_target(true, false, false),
        Err("error: --key is required for remote mode (--addr)")
    );
    assert_eq!(
        roundtrip_target(false, true, false),
        Ok(RoundtripTarget::LocalUds)
    );
    assert_eq!(thread_count(4, 2), 2);
    assert_eq!(deal(5, 2), vec![vec![0, 2, 4], vec![1, 3]]);
    assert_eq!(global_index(1, 1, 2), 3);
    assert_eq!(start_order_id(2), (2 << 48) + 1);
    assert_eq!(client_name(3), "bench-3");
    assert_eq!(
        threads_line(2, Some(4)),
        "  Bench threads: 2 (io_uring, cores 4-5)"
    );
    assert_eq!(
        threads_line(2, None),
        "  Bench threads: 2 (io_uring, unpinned)"
    );
    assert_eq!(transport_line("TCP"), "  Transport: TCP");
    assert_eq!(window_line(8, Some(2)), "  Window: 8, Clients: 2");
    let phases = BenchPhases {
        warmup: 10,
        measured: 10,
        cooldown: 10,
    };
    assert_eq!(progress_phase(5, &phases), "warmup");
    assert_eq!(progress_phase(15, &phases), "measured");
    assert_eq!(progress_phase(25, &phases), "cooldown");
    assert_eq!(progress_since(3, 5), 0);
    assert_eq!(progress_since(8, 5), 3);
}

#[test]
fn handshake_signs_the_challenge() {
    let nonce = [9; 32];
    let answer = handshake_answer(&ServerFrame::Challenge { nonce }, &[1; 32]).unwrap();
    let key = ed25519_dalek::VerifyingKey::from_bytes(&answer.pubkey).unwrap();
    let signature = ed25519_dalek::Signature::from_bytes(&answer.signature);
    assert!(ed25519_dalek::Verifier::verify(&key, &nonce, &signature).is_ok());
    assert!(handshake_answer(&ServerFrame::ServerReady, &[1; 32]).is_none());
}

#[test]
fn tokens_stand_for_operations() {
    for op in [Operation::Send(5), Operation::Recv(5), Operation::Send(0)] {
        assert_eq!(operation_for(token_for(op)), op);
    }
}

/// Events that are not among the slowest may be passed over.
#[test]
fn passing_events_over_changes_nothing() {
    let mut all = Slowest::new();
    let mut some = Slowest::new();
    for i in 0..200u64 {
        let entry = SlowEntry {
            latency_ns: (i * 7_919) % 1_009,
            event: i,
            num_reports: 0,
            offset_us: 0,
        };
        all.offer(entry);
        if some.is_among(entry.latency_ns) {
            some.offer(entry);
        }
    }
    let latencies = |s: &Slowest<u64>| -> Vec<u64> {
        s.sorted().iter().map(|e| e.latency_ns).collect()
    };
    assert_eq!(latencies(&all), latencies(&some));
    let mut want: Vec<u64> = (0..200u64).map(|i| (i * 7_919) % 1_009).collect();
    want.sort_by(|a, b| b.cmp(a));
    want.truncate(SLOWEST_N);
    assert_eq!(latencies(&some), want);
}

#[test]
fn connecting_is_tried_fifty_times() {
    assert!(connect_retry(0));
    assert!(connect_retry(49));
    assert!(!connect_retry(50));
    assert_eq!(
        connect_failure("refused"),
        "failed to connect after 50 attempts: refused"
    );
}
