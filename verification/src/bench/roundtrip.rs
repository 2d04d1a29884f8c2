//! A run against a server: what the flags ask for and how the clients are
//! laid out.

use vstd::prelude::*;
use vstd::string::StringExecFns;

use super::phases::BenchPhases;
use crate::protocol::message::ServerFrame;
use crate::text::{chars_of, decimal, decimal_string, same_text};
use crate::text_laws::{lemma_says, says, stands_at};
use crate::transport::auth::{
    answer_challenge, public_key_error, public_key_of, response_error, signature_error,
    signature_of, AuthorizedKeys, ChallengeResponse, Permission,
};

verus! {

/// Order ids that are reserved per client.
pub const ORDER_ID_STRIDE: u64 = 0x1_0000_0000_0000;

/// Longest frame of the handshake.
pub const MAX_FRAME_SIZE: usize = 1024;

/// What is benchmarked.
#[derive(Clone, Copy, Debug, PartialEq, Eq, Structural)]
pub enum BenchMode {
    /// The matching engine alone.
    Engine,
    /// The pipeline without a network.
    Pipeline,
    /// A server.
    Roundtrip,
}

/// The mode that a text names.
pub open spec fn mode_named(text: Seq<char>) -> Option<BenchMode> {
    if text == "engine"@ {
        Some(BenchMode::Engine)
    } else if text == "pipeline"@ {
        Some(BenchMode::Pipeline)
    } else if text == "roundtrip"@ {
        Some(BenchMode::Roundtrip)
    } else {
        None
    }
}

/// Reads the mode.
pub fn parse_mode(text: &str) -> (r: Result<BenchMode, String>)
    ensures
        match mode_named(text@) {
            Some(mode) => r == Ok::<BenchMode, String>(mode),
            None => r is Err && r->Err_0@ == "unknown mode: "@ + text@
                + " (expected: engine, pipeline, roundtrip)"@,
        },
{
    let given: Vec<char> = chars_of(text);
    if same_text(&given, &chars_of("engine")) {
        return Ok(BenchMode::Engine);
    }
    if same_text(&given, &chars_of("pipeline")) {
        return Ok(BenchMode::Pipeline);
    }
    if same_text(&given, &chars_of("roundtrip")) {
        return Ok(BenchMode::Roundtrip);
    }
    let mut message: String = "unknown mode: ".to_owned();
    message.append(text);
    message.append(" (expected: engine, pipeline, roundtrip)");
    Err(message)
}

/// Whether a target rate can be kept: a window of none lets nothing out.
pub fn check_pacing(target_rate: u64, window: usize) -> (r: Result<(), &'static str>)
    ensures
        if target_rate > 0 && window == 0 {
            r is Err && r->Err_0@ == "error: --target-rate requires --window > 0 (current: 0)"@
        } else {
            r == Ok::<(), &'static str>(())
        },
{
    if target_rate > 0 && window == 0 {
        Err("error: --target-rate requires --window > 0 (current: 0)")
    } else {
        Ok(())
    }
}

/// Where the server of a run is.
#[derive(Clone, Copy, Debug, PartialEq, Eq, Structural)]
pub enum RoundtripTarget {
    /// At an address.
    Remote,
    /// In this process, behind a Unix domain socket.
    LocalUds,
    /// In this process, behind TCP.
    LocalTcp,
}

/// What the flags ask for.
pub fn roundtrip_target(remote: bool, uds: bool, key: bool) -> (r: Result<
    RoundtripTarget,
    &'static str,
>)
    ensures
        if remote && uds {
            r is Err && r->Err_0@ == "error: --addr and --uds are mutually exclusive"@
        } else if remote && !key {
            r is Err && r->Err_0@ == "error: --key is required for remote mode (--addr)"@
        } else {
            r == Ok::<RoundtripTarget, &'static str>(
                if remote {
                    RoundtripTarget::Remote
                } else if uds {
                    RoundtripTarget::LocalUds
                } else {
                    RoundtripTarget::LocalTcp
                },
            )
        },
{
    if remote {
        if uds {
            return Err("error: --addr and --uds are mutually exclusive");
        }
        if !key {
            return Err("error: --key is required for remote mode (--addr)");
        }
        Ok(RoundtripTarget::Remote)
    } else if uds {
        Ok(RoundtripTarget::LocalUds)
    } else {
        Ok(RoundtripTarget::LocalTcp)
    }
}

/// The first order id of a client.
pub fn start_order_id(client: u64) -> (id: u64)
    requires
        client < 0x1_0000,
    ensures
        id == ORDER_ID_STRIDE * client + 1,
{
    ORDER_ID_STRIDE * client + 1
}

/// Threads of a run: none without a client.
pub fn thread_count(bench_threads: usize, clients: usize) -> (n: usize)
    ensures
        n == (if bench_threads < clients {
            bench_threads
        } else {
            clients
        }),
{
    if bench_threads < clients {
        bench_threads
    } else {
        clients
    }
}

/// How many of some connections a thread gets when they are dealt out in
/// turn.
pub open spec fn share(clients: int, threads: int, thread: int) -> int {
    if clients <= thread {
        0
    } else {
        (clients - thread - 1) / threads + 1
    }
}

/// The connections of a thread.
pub open spec fn hand(clients: int, threads: int, thread: int) -> Seq<int> {
    Seq::new(share(clients, threads, thread) as nat, |k: int| thread + k * threads)
}

/// Deals connections out to threads in turn.
pub fn deal(clients: usize, threads: usize) -> (hands: Vec<Vec<usize>>)
    requires
        clients > 0 ==> threads > 0,
    ensures
        hands@.len() == threads,
        forall|t: int|
            0 <= t < threads ==> numbers((#[trigger] hands@[t])@) == hand(
                clients as int,
                threads as int,
                t,
            ),
{
    let mut hands: Vec<Vec<usize>> = Vec::new();
    let mut t: usize = 0;
    while t < threads
        invariant
            0 <= t <= threads,
            hands@.len() == t,
            forall|j: int| 0 <= j < t ==> (#[trigger] hands@[j])@ == Seq::<usize>::empty(),
        decreases threads - t,
    {
        hands.push(Vec::new());
        t = t + 1;
    }
    proof {
        assert forall|j: int| 0 <= j < threads implies numbers((#[trigger] hands@[j])@) == hand(
            0,
            threads as int,
            j,
        ) by {
            assert(numbers(hands@[j]@) =~= hand(0, threads as int, j));
        }
    }
    let mut i: usize = 0;
    while i < clients
        invariant
            0 <= i <= clients,
            clients > 0 ==> threads > 0,
            hands@.len() == threads,
            forall|j: int|
                0 <= j < threads ==> numbers((#[trigger] hands@[j])@) == hand(
                    i as int,
                    threads as int,
                    j,
                ),
        decreases clients - i,
    {
        let ghost before = hands@;
        let turn: usize = i % threads;
        hands[turn].push(i);
        proof {
            assert forall|j: int| 0 <= j < threads implies numbers((#[trigger] hands@[j])@)
                == hand(i + 1, threads as int, j) by {
                assert(numbers(before[j]@) == hand(i as int, threads as int, j));
                lemma_share(i as int, threads as int, j);
                if j == turn {
                    assert(hands@[j]@ == before[j]@.push(i));
                    let held = hand(i as int, threads as int, j);
                    assert(numbers(hands@[j]@) =~= numbers(before[j]@).push(i as int));
                    assert(hand(i + 1, threads as int, j) =~= held.push(i as int));
                } else {
                    assert(hands@[j]@ == before[j]@);
                    assert(numbers(hands@[j]@) =~= hand(i + 1, threads as int, j));
                }
            }
        }
        i = i + 1;
    }
    hands
}

/// The numbers in a list.
pub open spec fn numbers(s: Seq<usize>) -> Seq<int> {
    s.map_values(|n: usize| n as int)
}

proof fn lemma_share(i: int, threads: int, j: int)
    requires
        0 <= i,
        0 <= j < threads,
    ensures
        share(i, threads, j) >= 0,
        j == i % threads ==> share(i + 1, threads, j) == share(i, threads, j) + 1 && j + share(
            i,
            threads,
            j,
        ) * threads == i,
        j != i % threads ==> share(i + 1, threads, j) == share(i, threads, j),
{
    vstd::arithmetic::div_mod::lemma_fundamental_div_mod(i, threads);
    vstd::arithmetic::div_mod::lemma_mod_bound(i, threads);
    let q = i / threads;
    let r = i % threads;
    assert(i == threads * q + r);
    assert(q >= 0) by {
        vstd::arithmetic::div_mod::lemma_div_pos_is_pos(i, threads);
    }
    // A number below one turn of the threads adds nothing to the quotient.
    assert forall|a: int, b: int| 0 <= b < threads implies #[trigger] ((threads * a + b) / threads)
        == a by {
        vstd::arithmetic::div_mod::lemma_fundamental_div_mod_converse(
            threads * a + b,
            threads,
            a,
            b,
        );
    }
    if i > j {
        if r > j {
            assert(i - j - 1 == threads * q + (r - j - 1));
            assert((threads * q + (r - j - 1)) / threads == q);
        } else {
            assert(threads * q == threads * (q - 1) + threads) by (nonlinear_arith);
            assert(i - j - 1 == threads * (q - 1) + (threads + r - j - 1));
            assert((threads * (q - 1) + (threads + r - j - 1)) / threads == q - 1);
        }
    } else if i == j {
        vstd::arithmetic::div_mod::lemma_small_mod(i as nat, threads as nat);
    } else {
        vstd::arithmetic::div_mod::lemma_small_mod(i as nat, threads as nat);
    }
    if i >= j {
        if r >= j {
            assert(i - j == threads * q + (r - j));
            assert((threads * q + (r - j)) / threads == q);
        } else {
            assert(threads * q == threads * (q - 1) + threads) by (nonlinear_arith);
            assert(i - j == threads * (q - 1) + (threads + r - j));
            assert((threads * (q - 1) + (threads + r - j)) / threads == q - 1);
        }
    }
    assert(share(i, threads, j) * threads == threads * share(i, threads, j)) by (nonlinear_arith);
}

/// The name of a client's key.
pub fn client_name(i: u32) -> (s: String)
    ensures
        s@ == "bench-"@ + decimal(i as nat),
{
    let mut s: String = "bench-".to_owned();
    s.append(decimal_string(i as u64).as_str());
    s
}

/// The line on the bench threads and the cores that they are pinned to.
pub fn threads_line(threads: usize, first_core: Option<usize>) -> (line: String)
    requires
        first_core is Some ==> threads > 0 && first_core->0 + threads - 1 <= usize::MAX,
    ensures
        line@ == (match first_core {
            Some(core) => "  Bench threads: "@ + decimal(threads as nat) + " (io_uring, cores "@
                + decimal(core as nat) + "-"@ + decimal((core + threads - 1) as nat) + ")"@,
            None => "  Bench threads: "@ + decimal(threads as nat) + " (io_uring, unpinned)"@,
        }),
{
    let mut line: String = "  Bench threads: ".to_owned();
    line.append(decimal_string(threads as u64).as_str());
    match first_core {
        Some(core) => {
            let last: usize = core + (threads - 1);
            line.append(" (io_uring, cores ");
            line.append(decimal_string(core as u64).as_str());
            line.append("-");
            line.append(decimal_string(last as u64).as_str());
            line.append(")");
        },
        None => {
            line.append(" (io_uring, unpinned)");
        },
    }
    line
}

/// The line on the transport.
pub fn transport_line(name: &str) -> (line: String)
    ensures
        line@ == "  Transport: "@ + name@,
{
    let mut line: String = "  Transport: ".to_owned();
    line.append(name);
    line
}

/// The line on the window, and on the clients where there are some.
pub fn window_line(window: usize, clients: Option<usize>) -> (line: String)
    ensures
        line@ == (match clients {
            Some(n) => "  Window: "@ + decimal(window as nat) + ", Clients: "@ + decimal(n as nat),
            None => "  Window: "@ + decimal(window as nat),
        }),
{
    let mut line: String = "  Window: ".to_owned();
    line.append(decimal_string(window as u64).as_str());
    if let Some(n) = clients {
        line.append(", Clients: ");
        line.append(decimal_string(n as u64).as_str());
    }
    line
}

/// The phase that a progress line names. It names no phase after the
/// cooldown.
pub fn progress_phase(elapsed: u128, phases: &BenchPhases) -> (name: &'static str)
    requires
        phases.warmup + phases.measured <= u128::MAX,
    ensures
        name@ == (if elapsed < phases.warmup {
            "warmup"@
        } else if elapsed < phases.warmup + phases.measured {
            "measured"@
        } else {
            "cooldown"@
        }),
{
    if elapsed < phases.warmup {
        "warmup"
    } else if elapsed < phases.warmup + phases.measured {
        "measured"
    } else {
        "cooldown"
    }
}

/// Completions since the last progress line.
pub fn progress_since(current: u64, last: u64) -> (n: u64)
    ensures
        n == (if current > last {
            current - last
        } else {
            0
        }),
{
    if current > last {
        current - last
    } else {
        0
    }
}

/// What a client answers to the first frame of the handshake. Anything but a
/// challenge has no answer.
pub fn handshake_answer(frame: &ServerFrame, seed: &[u8; 32]) -> (answer: Option<ChallengeResponse>)
    ensures
        match *frame {
            ServerFrame::Challenge { nonce } => {
                &&& answer matches Some(response)
                &&& response.signature@ == signature_of(seed@, nonce@)
                &&& response.pubkey@ == public_key_of(seed@)
                &&& public_key_error(response.pubkey@) is None
                &&& signature_error(response.pubkey@, nonce@, response.signature@) is None
            },
            _ => answer is None,
        },
{
    match frame {
        ServerFrame::Challenge { nonce } => Some(answer_challenge(seed, nonce)),
        _ => None,
    }
}

/// Clients have order ids of their own, as long as none sends more orders
/// than are reserved for it.
pub proof fn law_order_ids_do_not_overlap(a: int, b: int, i: int, j: int)
    requires
        0 <= a < b,
        0 <= i < ORDER_ID_STRIDE,
        0 <= j < ORDER_ID_STRIDE,
    ensures
        ORDER_ID_STRIDE * a + 1 + i != ORDER_ID_STRIDE * b + 1 + j,
{
    assert(ORDER_ID_STRIDE * b >= ORDER_ID_STRIDE * a + ORDER_ID_STRIDE) by (nonlinear_arith)
        requires
            a + 1 <= b,
    ;
}

/// The name of a mode.
pub open spec fn mode_name(mode: BenchMode) -> Seq<char> {
    match mode {
        BenchMode::Engine => "engine"@,
        BenchMode::Pipeline => "pipeline"@,
        BenchMode::Roundtrip => "roundtrip"@,
    }
}

/// A mode goes by its own name and by no other text.
pub proof fn law_modes_go_by_their_names(text: Seq<char>, mode: BenchMode)
    ensures
        mode_named(text) == Some(mode) <==> text == mode_name(mode),
{
    reveal_strlit("engine");
    reveal_strlit("pipeline");
    reveal_strlit("roundtrip");
    assert("engine"@.len() == 6 && "pipeline"@.len() == 8 && "roundtrip"@.len() == 9);
}

/// Dealing in turn, a thread gets every connection whose number leaves the
/// thread's own over when the threads are counted off, in ascending order.
pub proof fn law_connections_are_dealt_in_turn(clients: int, threads: int, i: int)
    requires
        0 <= i,
        threads > 0,
        0 <= clients,
    ensures
        ({
            let mine = hand(clients, threads, i % threads);
            &&& i < clients <==> i / threads < mine.len()
            &&& i < clients ==> mine[i / threads] == i
        }),
{
    vstd::arithmetic::div_mod::lemma_fundamental_div_mod(i, threads);
    vstd::arithmetic::div_mod::lemma_mod_bound(i, threads);
    vstd::arithmetic::div_mod::lemma_div_pos_is_pos(i, threads);
    let (q, r) = (i / threads, i % threads);
    assert(q * threads == threads * q) by (nonlinear_arith);
    if clients <= r {
        assert(threads * q >= 0) by (nonlinear_arith)
            requires
                threads > 0,
                q >= 0,
        ;
        assert(share(clients, threads, r) == 0);
    } else {
        let m = clients - r - 1;
        vstd::arithmetic::div_mod::lemma_fundamental_div_mod(m, threads);
        vstd::arithmetic::div_mod::lemma_mod_bound(m, threads);
        vstd::arithmetic::div_mod::lemma_div_pos_is_pos(m, threads);
        let d = m / threads;
        assert(q <= d <==> threads * q <= m) by (nonlinear_arith)
            requires
                m == threads * d + m % threads,
                0 <= m % threads < threads,
                threads > 0,
        ;
    }
}

/// A run is refused where a rate is to be kept without a window, where an
/// address comes with the socket flag, and where it comes without a key; else
/// it goes to what the flags ask for.
pub proof fn law_flags_decide_the_target(
    target_rate: u64,
    window: usize,
    pacing: Result<(), &'static str>,
    remote: bool,
    uds: bool,
    key: bool,
    target: Result<RoundtripTarget, &'static str>,
)
    requires
        call_ensures(check_pacing, (target_rate, window), pacing),
        call_ensures(roundtrip_target, (remote, uds, key), target),
    ensures
        pacing is Err <==> target_rate != 0 && window == 0,
        target is Err <==> remote && (uds || !key),
        target matches Ok(t) ==> (t == RoundtripTarget::Remote <==> remote) && (t
            == RoundtripTarget::LocalUds <==> uds),
{
}

/// Two clients that follow each other have their first order ids a whole
/// stride apart.
pub proof fn law_first_ids_are_a_stride_apart(client: u64, id: u64, next: u64)
    requires
        client + 1 < 0x1_0000,
        call_ensures(start_order_id, (client,), id),
        call_ensures(start_order_id, ((client + 1) as u64,), next),
    ensures
        next - id == 0x1_0000_0000_0000,
        client == 0 ==> id == 1,
{
}

/// There are never more threads than asked for, nor more than clients.
pub proof fn law_no_thread_without_a_client(bench_threads: usize, clients: usize, n: usize)
    requires
        call_ensures(thread_count, (bench_threads, clients), n),
    ensures
        n <= bench_threads,
        n <= clients,
        n == bench_threads || n == clients,
{
}

/// A progress line names the phase that the time since the start falls in.
pub proof fn law_progress_names_the_phase(
    elapsed: u128,
    phases: &BenchPhases,
    name: &'static str,
    current: u64,
    last: u64,
    since: u64,
)
    requires
        call_ensures(progress_phase, (elapsed, phases), name),
        call_ensures(progress_since, (current, last), since),
    ensures
        name@ == "warmup"@ <==> elapsed < phases.warmup,
        name@ == "measured"@ <==> phases.warmup <= elapsed < phases.warmup + phases.measured,
        name@ == "cooldown"@ <==> phases.warmup + phases.measured <= elapsed,
        current >= last ==> last + since == current,
        current <= last ==> since == 0,
{
    reveal_strlit("warmup");
    reveal_strlit("measured");
    reveal_strlit("cooldown");
    assert("warmup"@.len() == 6);
    assert("measured"@[0] == 'm' && "cooldown"@[0] == 'c');
    assert("measured"@.len() == 8 && "cooldown"@.len() == 8);
}

/// Every connection is dealt to one thread, in turn, and no other is; a mode
/// is read from its own name alone.
pub proof fn law_connections_are_dealt_once(
    clients: usize,
    threads: usize,
    hands: Vec<Vec<usize>>,
    i: int,
    text: &str,
    mode: Result<BenchMode, String>,
    which: BenchMode,
)
    requires
        threads > 0,
        call_ensures(deal, (clients, threads), hands),
        call_ensures(parse_mode, (text,), mode),
        0 <= i < clients,
    ensures
        hands@.len() == threads,
        (i / threads as int) < hands@[i % threads as int]@.len(),
        hands@[i % threads as int]@[i / threads as int] == i,
        mode == Ok::<BenchMode, String>(which) <==> text@ == mode_name(which),
{
    law_connections_are_dealt_in_turn(clients as int, threads as int, i);
    law_modes_go_by_their_names(text@, which);
    vstd::arithmetic::div_mod::lemma_mod_bound(i, threads as int);
    vstd::arithmetic::div_mod::lemma_div_pos_is_pos(i, threads as int);
    let mine = hands@[i % threads as int]@;
    assert(numbers(mine) == hand(clients as int, threads as int, i % threads as int));
    assert(numbers(mine).len() == mine.len());
    assert(numbers(mine)[i / threads as int] == mine[i / threads as int]);
}

/// The line on the window tells its size and, where they are counted, the
/// clients, each under its own name; a client's name ends with its number.
#[verifier::rlimit(40)]
pub proof fn law_lines_tell_their_numbers(
    window: usize,
    clients: usize,
    both: String,
    alone: String,
    i: u32,
    name: String,
)
    requires
        call_ensures(window_line, (window, Some(clients)), both),
        call_ensures(window_line, (window, None::<usize>), alone),
        call_ensures(client_name, (i,), name),
    ensures
        says(both@, "Window: "@ + decimal(window as nat) + ","@),
        says(both@, "Clients: "@ + decimal(clients as nat)),
        says(alone@, "Window: "@ + decimal(window as nat)),
        stands_at(name@, 6, decimal(i as nat)),
{
    reveal_strlit("  Window: ");
    reveal_strlit("Window: ");
    reveal_strlit(", Clients: ");
    reveal_strlit("Clients: ");
    reveal_strlit(",");
    reveal_strlit("bench-");
    let p1 = "Window: "@ + decimal(window as nat);
    let p2 = "Clients: "@ + decimal(clients as nat);
    let blanks = seq![' ', ' '];
    assert("  Window: "@ =~= blanks + "Window: "@);
    assert(", Clients: "@ =~= ","@ + seq![' '] + "Clients: "@);
    assert(both@ =~= blanks + (p1 + ","@) + (seq![' '] + p2));
    lemma_says(blanks, p1 + ","@, seq![' '] + p2, both@);
    assert(both@ =~= (blanks + p1 + ","@ + seq![' ']) + p2 + Seq::<char>::empty());
    lemma_says(blanks + p1 + ","@ + seq![' '], p2, Seq::empty(), both@);
    assert(alone@ =~= blanks + p1 + Seq::<char>::empty());
    lemma_says(blanks, p1, Seq::empty(), alone@);
    assert(name@ =~= "bench-"@ + decimal(i as nat) + Seq::<char>::empty());
    lemma_says("bench-"@, decimal(i as nat), Seq::empty(), name@);
}

/// A challenge, and nothing else, is answered; the answer is one that a node
/// accepts which lists its key for replication.
pub proof fn law_challenge_is_answered(
    frame: &ServerFrame,
    seed: &[u8; 32],
    answer: Option<ChallengeResponse>,
)
    requires
        call_ensures(handshake_answer, (frame, seed), answer),
    ensures
        answer is Some <==> *frame is Challenge,
        *frame matches ServerFrame::Challenge { nonce } ==> {
            &&& answer matches Some(response)
            &&& forall|keys: AuthorizedKeys|
                keys.permission(response.pubkey@) == Some(Permission::Replication)
                    ==> #[trigger] response_error(nonce@, Ok(response), keys) is None
        },
{
}

} // verus!
