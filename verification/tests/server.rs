use melin::bench::core_layout::{resolve_cores, resolve_pipeline_cores, PipelineBenchCores};
use melin::exchange::trading_event::{TradingEvent, TradingRequest};
use melin::server::app_factory::AppFactory;
use melin::server::named_cores::parse_named_cores;
use melin::server::promotion::promotion_answer;
use melin::server::startup::{ExchangeSizing, StartupConfig};

const THREADS: [&str; 3] = ["alpha", "beta", "gamma"];

#[test]
fn entries_come_back_in_name_order_whatever_their_order_in_the_spec() {
    let cores = parse_named_cores("--x", "gamma=3, alpha=1,beta=0", &THREADS).unwrap();
    assert_eq!(cores, vec![1, 0, 3]);
}

#[test]
fn none_unpins_every_thread() {
    assert_eq!(
        parse_named_cores("--x", "none", &THREADS).unwrap(),
        vec![0, 0, 0]
    );
}

#[test]
fn a_positional_list_is_refused_with_the_named_form_spelled_out() {
    let err = parse_named_cores("--x", "1,2,3", &THREADS).unwrap_err();
    assert!(err.contains("--x"), "{err}");
    assert!(err.contains("positional"), "{err}");
    assert!(err.contains("alpha=1,beta=2,gamma=3"), "{err}");
    assert!(err.contains("`none`"), "{err}");
}

/// The form that the message spells out is accepted itself.
#[test]
fn the_spelled_out_form_is_accepted() {
    let err = parse_named_cores("--x", "1,2,3", &THREADS).unwrap_err();
    let start = err.find('(').unwrap() + 1;
    let end = err.find(')').unwrap();
    assert_eq!(
        parse_named_cores("--x", &err[start..end], &THREADS).unwrap(),
        vec![1, 2, 3]
    );
}

/// A list of the wrong length is refused, whatever cores it names.
#[test]
fn wrong_length_is_told_before_the_cores_are_looked_at() {
    let err = resolve_cores(None, Some(&vec![usize::MAX]), 2).unwrap_err();
    assert!(err.contains("one base core per replica (2), got 1"), "{err}");
    let err = resolve_cores(Some(&vec![1]), Some(&vec![usize::MAX]), 1).unwrap_err();
    assert!(err.contains("--cores expects 7"), "{err}");
}

#[test]
fn unknown_repeated_missing_and_malformed_entries_are_refused() {
    let err = parse_named_cores("--x", "alpha=1,delta=2,gamma=3", &THREADS).unwrap_err();
    assert!(err.contains("unknown thread `delta`"), "{err}");
    assert!(err.contains("alpha, beta, gamma"), "{err}");

    let err = parse_named_cores("--x", "alpha=1,alpha=2,gamma=3", &THREADS).unwrap_err();
    assert!(err.contains("`alpha` is named twice"), "{err}");

    let err = parse_named_cores("--x", "alpha=1", &THREADS).unwrap_err();
    assert!(err.contains("no core for beta, gamma"), "{err}");

    let err = parse_named_cores("--x", "alpha=1,beta=2y,gamma=3", &THREADS).unwrap_err();
    assert!(err.contains("beta: invalid core ID `2y`"), "{err}");

    let err = parse_named_cores("--x", "alpha=1,beta,gamma=3", &THREADS).unwrap_err();
    assert!(err.contains("invalid entry `beta`"), "{err}");
}

fn cfg(accounts: u32, instruments: u32) -> StartupConfig {
    StartupConfig {
        accounts,
        instruments,
        max_orders_per_account: 100,
        max_orders_per_second: 1_000,
        max_orders_burst: 100,
    }
}

#[test]
fn synthetic_genesis_count_matches_config() {
    assert_eq!(cfg(5, 3).synthetic_startup_events().genesis.len(), 8);
}

#[test]
fn synthetic_genesis_order_is_instruments_then_accounts() {
    let events = cfg(2, 2).synthetic_genesis();
    assert!(matches!(
        events[0].event,
        TradingEvent::AddInstrument { .. }
    ));
    assert!(matches!(
        events[1].event,
        TradingEvent::AddInstrument { .. }
    ));
    assert!(matches!(
        events[2].event,
        TradingEvent::ProvisionAccount { .. }
    ));
    assert!(matches!(
        events[3].event,
        TradingEvent::ProvisionAccount { .. }
    ));
}

#[test]
fn startup_events_carry_no_request_sequence() {
    let events = cfg(2, 2).synthetic_startup_events();
    assert!(events
        .genesis
        .iter()
        .chain(&events.on_primary)
        .all(|e| e.request_seq == 0));
}

#[test]
fn synthetic_genesis_empty_when_no_accounts_or_instruments() {
    assert!(cfg(0, 0).synthetic_genesis().is_empty());
}

#[test]
fn seeding_build_journals_the_seed() {
    assert_eq!(cfg(5, 3).startup_events_seeding(true).genesis.len(), 8);
}

#[test]
fn stock_build_journals_no_genesis() {
    let events = cfg(5, 3).startup_events_seeding(false);
    assert!(events.genesis.is_empty());
    assert_eq!(cfg(5, 3).sizing().accounts, 5);
    assert_eq!(events.on_primary.len(), 1);
}

#[test]
fn on_primary_carries_the_account_limits() {
    let events = cfg(2, 2).synthetic_startup_events();
    assert_eq!(
        events.on_primary,
        vec![TradingRequest::internal(TradingEvent::SetAccountLimits {
            max_open_orders_per_account: 100,
            max_orders_per_second: 1_000,
            max_orders_burst: 100,
        })]
    );
    assert!(!events
        .genesis
        .iter()
        .any(|e| matches!(e.event, TradingEvent::SetAccountLimits { .. })));
}

/// This build seeds nothing.
#[test]
fn startup_events_follow_the_build_feature() {
    assert_eq!(cfg(5, 3).startup_events().genesis.len(), 0);
    assert_eq!(cfg(5, 3).startup_events().on_primary.len(), 1);
}

#[test]
fn default_configuration_has_the_documented_limits() {
    let c = StartupConfig::default();
    assert_eq!((c.accounts, c.instruments), (100_000, 100));
    assert_eq!(c.max_orders_per_account, 10_000);
    assert_eq!((c.max_orders_per_second, c.max_orders_burst), (1_000, 5_000));
}

#[test]
fn sizing_follows_the_seed_counts() {
    assert_eq!(
        cfg(5, 3).sizing(),
        ExchangeSizing {
            accounts: 5,
            instruments: 3
        }
    );
}

#[test]
fn five_entries_map_in_documented_order() {
    let cores = resolve_pipeline_cores(&[1, 2, 3, 4, 5]).unwrap();
    assert_eq!(
        cores,
        PipelineBenchCores {
            journal: 1,
            matching: 2,
            publisher: 3,
            journal_disk: 4,
            drain: 5,
        }
    );
}

#[test]
fn wrong_arity_is_rejected() {
    let err = resolve_pipeline_cores(&[1, 2, 3, 4]).unwrap_err();
    assert!(err.contains("expects 5"), "{err}");
}

#[test]
fn a_duplicate_core_names_both_claimants() {
    let err = resolve_pipeline_cores(&[1, 2, 3, 4, 4]).unwrap_err();
    assert!(err.contains("core 4"), "{err}");
    assert!(err.contains("journal-disk"), "{err}");
    assert!(err.contains("drain"), "{err}");
}

#[test]
fn zero_is_an_unpinned_sentinel_not_a_core() {
    let cores = resolve_pipeline_cores(&[1, 0, 0, 0, 0]).unwrap();
    assert_eq!(cores.journal, 1);
    assert_eq!(cores.drain, 0);
}

#[test]
fn omitted_flags_leave_everything_unpinned() {
    let (primary, bases) = resolve_cores(None, None, 2).unwrap();
    assert_eq!(primary.generator, 0);
    assert_eq!(primary.handler_1, 0);
    assert_eq!(bases, vec![0, 0]);
}

#[test]
fn primary_cores_map_in_documented_order() {
    let cores = vec![1, 2, 3, 4, 5, 6, 7];
    let (primary, _) = resolve_cores(Some(&cores), None, 2).unwrap();
    assert_eq!(primary.generator, 1);
    assert_eq!(primary.journal, 2);
    assert_eq!(primary.matching, 3);
    assert_eq!(primary.drain, 4);
    assert_eq!(primary.repl_sender, 5);
    assert_eq!(primary.handler_0, 6);
    assert_eq!(primary.handler_1, 7);
}

#[test]
fn wrong_primary_core_count_is_rejected() {
    let cores = vec![1, 2, 3];
    let err = resolve_cores(Some(&cores), None, 2).unwrap_err();
    assert!(err.contains("--cores expects 7"), "{err}");
}

#[test]
fn replica_core_count_must_match_replica_count() {
    let bases = vec![8];
    let err = resolve_cores(None, Some(&bases), 2).unwrap_err();
    assert!(err.contains("one base core per replica (2)"), "{err}");
}

#[test]
fn duplicate_primary_cores_are_rejected() {
    let cores = vec![1, 2, 2, 4, 5, 6, 7];
    let err = resolve_cores(Some(&cores), None, 2).unwrap_err();
    assert!(err.contains("core 2"), "{err}");
    assert!(err.contains("journal") && err.contains("matching"), "{err}");
}

#[test]
fn replica_span_overlapping_the_primary_is_rejected() {
    let cores = vec![1, 2, 3, 4, 5, 6, 7];
    let bases = vec![5, 12];
    let err = resolve_cores(Some(&cores), Some(&bases), 2).unwrap_err();
    assert!(err.contains("core 5"), "{err}");
    assert!(err.contains("repl-sender"), "{err}");
    assert!(err.contains("replica-0"), "{err}");
}

#[test]
fn replica_spans_overlapping_each_other_are_rejected() {
    let bases = vec![8, 10];
    let err = resolve_cores(None, Some(&bases), 2).unwrap_err();
    assert!(err.contains("core 10") || err.contains("core 11"), "{err}");
}

#[test]
fn adjacent_replica_spans_are_accepted() {
    let cores = vec![1, 2, 3, 4, 5, 6, 7];
    let bases = vec![8, 12];
    let (_, resolved) = resolve_cores(Some(&cores), Some(&bases), 2).unwrap();
    assert_eq!(resolved, vec![8, 12]);
}

#[test]
fn zero_replica_base_claims_nothing() {
    let cores = vec![1, 2, 3, 4, 5, 6, 7];
    let bases = vec![0, 12];
    let (_, resolved) = resolve_cores(Some(&cores), Some(&bases), 2).unwrap();
    assert_eq!(resolved, vec![0, 12]);
}

#[test]
fn promotion_answers_are_read() {
    let p = promotion_answer("OK\n");
    assert_eq!(p.exit_code(), 0);
    assert_eq!(p.message(), "Promotion successful — replica is now primary.");
    let p = promotion_answer("  not a replica \r\n");
    assert_eq!(p.exit_code(), 1);
    assert_eq!(p.message(), "Promotion failed: not a replica");
    let p = promotion_answer("");
    assert_eq!(p.exit_code(), 1);
    assert_eq!(
        p.message(),
        "error: server closed connection without response"
    );
}

/// Counts from a number on, capped by policy.
struct Counters {
    start: u64,
}

impl AppFactory for Counters {
    type App = (u64, u64);
    type Event = u64;

    fn empty(&self) -> (u64, u64) {
        (self.start, 0)
    }

    fn apply_operator_policy(&self, app: &mut (u64, u64)) {
        app.1 = 99;
    }
}

#[test]
fn seeded_application_is_under_policy() {
    let f = Counters { start: 5 };
    assert_eq!(f.empty(), (5, 0));
    assert_eq!(f.empty_for_seed(), (5, 99));
    assert!(f.seed_events().is_empty());
}
