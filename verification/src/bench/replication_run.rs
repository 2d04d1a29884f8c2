//! Decisions of the replication benchmark: one primary and some replicas,
//! paced by the slowest of them.

use base64::Engine as _;
use vstd::prelude::*;
use vstd::string::StringExecFns;

use crate::text::{decimal, decimal_string};
use crate::text_laws::{lemma_says, lemma_says_within, says};
use crate::transport::auth::{derive_public_key, public_key_of};

verus! {

/// Most replicas of a primary.
pub const REPLICA_SLOTS: usize = 2;

/// How long the generator runs.
pub const RUN_SECS: u64 = 10;

/// Events of a replication batch.
pub const BATCH_SIZE: u64 = 32;

/// Batches of the replication ring.
pub const REPLICATION_RING_SIZE: u64 = 4096;

/// How far the generator may run ahead of the acknowledgements: half of what
/// the replication ring holds.
#[verifier::nonlinear]
pub const LEAD_CAP: u64 = BATCH_SIZE * REPLICATION_RING_SIZE / 2;

/// Events that are published in one go.
pub const BURST: u64 = 1024;

/// The first byte of the replicas' seeds.
pub const FIRST_SEED: u8 = 0x42;

/// What makes an acknowledgement durable.
#[derive(Clone, Copy, Debug, PartialEq, Eq, Structural)]
pub enum DurabilityMode {
    Local,
    Hybrid,
    DurablyReplicated,
}

/// The mode that a flag names.
pub fn durability_mode(name: &str) -> (mode: Option<DurabilityMode>)
    ensures
        mode == (if name@ == "local"@ {
            Some(DurabilityMode::Local)
        } else if name@ == "hybrid"@ {
            Some(DurabilityMode::Hybrid)
        } else if name@ == "durably-replicated"@ {
            Some(DurabilityMode::DurablyReplicated)
        } else {
            None
        }),
{
    let chars: Vec<char> = crate::text::chars_of(name);
    if crate::text::same_text(&chars, &crate::text::chars_of("local")) {
        Some(DurabilityMode::Local)
    } else if crate::text::same_text(&chars, &crate::text::chars_of("hybrid")) {
        Some(DurabilityMode::Hybrid)
    } else if crate::text::same_text(&chars, &crate::text::chars_of("durably-replicated")) {
        Some(DurabilityMode::DurablyReplicated)
    } else {
        None
    }
}

/// Holds the number of replicas to what a primary serves.
pub fn check_replicas(n: usize) -> (r: Result<(), String>)
    ensures
        if 1 <= n <= REPLICA_SLOTS {
            r == Ok::<(), String>(())
        } else {
            r is Err && r->Err_0@ == "FATAL: --replicas must be 1..="@ + decimal(
                REPLICA_SLOTS as nat,
            )
        },
{
    if n == 0 || n > REPLICA_SLOTS {
        let mut text: String = "FATAL: --replicas must be 1..=".to_owned();
        text.append(decimal_string(REPLICA_SLOTS as u64).as_str());
        Err(text)
    } else {
        Ok(())
    }
}

/// The core of a replica's thread. Without a base it is not pinned.
pub fn replica_core(base: usize, offset: usize) -> (core: usize)
    requires
        base + offset <= usize::MAX,
    ensures
        core == (if base == 0 {
            0
        } else {
            base + offset
        }),
{
    if base == 0 {
        0
    } else {
        base + offset
    }
}

/// The character of six bits in the standard base64 alphabet.
pub open spec fn base64_digit(d: int) -> char {
    if d < 26 {
        (d + 65) as char
    } else if d < 52 {
        (d - 26 + 97) as char
    } else if d < 62 {
        (d - 52 + 48) as char
    } else if d == 62 {
        '+'
    } else {
        '/'
    }
}

/// Six bits of some bytes, counted from the highest bit of the first byte.
/// Zeros follow the last byte.
pub open spec fn six_bits(bytes: Seq<u8>, k: int) -> int {
    let at = 6 * k / 8;
    let next: int = if at + 1 < bytes.len() {
        bytes[at + 1] as int
    } else {
        0
    };
    let two = bytes[at] * 256 + next;
    let behind = if 6 * k % 8 == 0 {
        1024int
    } else if 6 * k % 8 == 2 {
        256
    } else if 6 * k % 8 == 4 {
        64
    } else {
        16
    };
    two / behind % 64
}

/// Some bytes in base64: a character for every six bits, and padding to a
/// multiple of four characters.
pub open spec fn base64_of(bytes: Seq<u8>) -> Seq<char> {
    Seq::new(((8 * bytes.len() + 5) / 6) as nat, |k: int| base64_digit(six_bits(bytes, k)))
        + Seq::new(((3 - bytes.len() % 3) % 3) as nat, |k: int| '=')
}

/// `Engine::encode` of `base64`'s standard engine writes bytes in base64 with
/// the standard alphabet and padding.
#[verifier::external_body]
fn write_base64(bytes: &[u8; 32]) -> (s: String)
    ensures
        s@ == base64_of(bytes@),
{
    base64::engine::general_purpose::STANDARD.encode(bytes)
}

/// The seed of a replica's key.
pub open spec fn seed_of(i: int) -> Seq<u8> {
    Seq::new(32, |j: int| (FIRST_SEED + i) as u8)
}

/// The seed of a replica's key.
pub fn replica_seed(i: u8) -> (seed: [u8; 32])
    requires
        FIRST_SEED + i <= u8::MAX,
    ensures
        seed@ == seed_of(i as int),
{
    let seed: [u8; 32] = [FIRST_SEED + i; 32];
    assert(seed@ =~= seed_of(i as int));
    seed
}

/// The line that lists a replica's key.
pub open spec fn key_line(i: int, key: Seq<u8>) -> Seq<char> {
    "replication "@ + base64_of(key) + " bench-replica-"@ + decimal(i as nat) + "\n"@
}

/// The lines that list the keys of some replicas.
pub open spec fn key_lines(n: int) -> Seq<char>
    decreases n,
{
    if n <= 0 {
        Seq::empty()
    } else {
        key_lines(n - 1) + key_line(n - 1, public_key_of(seed_of(n - 1)))
    }
}

/// The line that lists a replica's key, given the key's text.
pub fn key_line_for(i: u8, key_text: &str) -> (s: String)
    ensures
        s@ == "replication "@ + key_text@ + " bench-replica-"@ + decimal(i as nat) + "\n"@,
{
    let mut s: String = "replication ".to_owned();
    s.append(key_text);
    s.append(" bench-replica-");
    s.append(decimal_string(i as u64).as_str());
    s.append("\n");
    s
}

/// The lines that authorize the replicas.
pub fn authorized_keys_text(n: u8) -> (s: String)
    requires
        FIRST_SEED + n <= u8::MAX,
    ensures
        s@ == key_lines(n as int),
{
    let mut s: String = String::new();
    let mut i: u8 = 0;
    while i < n
        invariant
            0 <= i <= n,
            FIRST_SEED + n <= u8::MAX,
            s@ == key_lines(i as int),
        decreases n - i,
    {
        let key: [u8; 32] = derive_public_key(&replica_seed(i));
        let line: String = key_line_for(i, write_base64(&key).as_str());
        s.append(line.as_str());
        i = i + 1;
    }
    s
}

/// What the wait for the replicas does next.
#[derive(Clone, Copy, Debug, PartialEq, Eq, Structural)]
pub enum ConnectStep {
    /// All replicas are connected.
    Ready,
    /// Look again later.
    Wait,
    /// The time is over.
    GiveUp,
}

/// Whether to wait on for replicas.
pub fn connect_step(connected: usize, replicas: usize, past_deadline: bool) -> (s: ConnectStep)
    ensures
        s == (if connected >= replicas {
            ConnectStep::Ready
        } else if past_deadline {
            ConnectStep::GiveUp
        } else {
            ConnectStep::Wait
        }),
{
    if connected >= replicas {
        ConnectStep::Ready
    } else if past_deadline {
        ConnectStep::GiveUp
    } else {
        ConnectStep::Wait
    }
}

/// What the generator does next.
#[derive(Clone, Copy, Debug, PartialEq, Eq, Structural)]
pub enum GeneratorStep {
    /// A replica is gone.
    Stop,
    /// The generator is too far ahead.
    Pause,
    /// Publish a burst of events.
    Publish,
}

/// The generator of a run.
#[derive(Clone, Copy, Debug, PartialEq, Eq, Structural)]
pub struct Generator {
    /// Events that were published.
    pub published: u64,
}

impl Generator {
    /// Nothing published.
    pub fn new() -> (g: Generator)
        ensures
            g.published == 0,
    {
        Generator { published: 0 }
    }

    /// Decides on the next burst, which then counts as published.
    pub fn step(&mut self, connected: usize, replicas: usize, quorum: u64) -> (s: GeneratorStep)
        requires
            old(self).published <= u64::MAX - BURST,
        ensures
            s == (if connected < replicas {
                GeneratorStep::Stop
            } else if old(self).published > quorum + LEAD_CAP {
                GeneratorStep::Pause
            } else {
                GeneratorStep::Publish
            }),
            final(self).published == (if s == GeneratorStep::Publish {
                old(self).published + BURST
            } else {
                old(self).published as int
            }),
            s == GeneratorStep::Publish ==> final(self).published <= quorum + LEAD_CAP + BURST,
    {
        if connected < replicas {
            return GeneratorStep::Stop;
        }
        if self.published > quorum && self.published - quorum > LEAD_CAP {
            return GeneratorStep::Pause;
        }
        self.published = self.published + BURST;
        GeneratorStep::Publish
    }
}

/// What a report shows.
#[derive(Clone, Copy, Debug, PartialEq, Eq, Structural)]
pub struct Progress {
    /// Acknowledgements since the last report.
    pub delta: u64,
    /// How far the fastest replica is ahead of the slowest.
    pub spread: u64,
}

/// What a report shows of the acknowledgements.
pub fn progress(quorum: u64, previous: u64, fastest: u64) -> (p: Progress)
    ensures
        p.delta == (if quorum >= previous {
            quorum - previous
        } else {
            0
        }),
        p.spread == (if fastest >= quorum {
            fastest - quorum
        } else {
            0
        }),
{
    Progress {
        delta: if quorum >= previous {
            quorum - previous
        } else {
            0
        },
        spread: if fastest >= quorum {
            fastest - quorum
        } else {
            0
        },
    }
}

/// The alphabet of base64.
pub proof fn law_base64_alphabet(d: int)
    requires
        0 <= d < 64,
    ensures
        base64_digit(d)
            == "ABCDEFGHIJKLMNOPQRSTUVWXYZabcdefghijklmnopqrstuvwxyz0123456789+/"@[d],
{
    reveal_strlit("ABCDEFGHIJKLMNOPQRSTUVWXYZabcdefghijklmnopqrstuvwxyz0123456789+/");
}

/// Four digits stand for three bytes, the highest bits first.
pub proof fn law_four_digits_are_three_bytes(bytes: Seq<u8>, group: int)
    requires
        0 <= group,
        3 * group + 3 <= bytes.len(),
    ensures
        ({
            let (a, b) = (six_bits(bytes, 4 * group), six_bits(bytes, 4 * group + 1));
            let (c, d) = (six_bits(bytes, 4 * group + 2), six_bits(bytes, 4 * group + 3));
            &&& 0 <= a < 64 && 0 <= b < 64 && 0 <= c < 64 && 0 <= d < 64
            &&& ((a * 64 + b) * 64 + c) * 64 + d == bytes[3 * group] * 0x1_0000 + bytes[3 * group
                + 1] * 0x100 + bytes[3 * group + 2]
        }),
{
    assert(6 * (4 * group) / 8 == 3 * group);
    assert(6 * (4 * group + 1) / 8 == 3 * group);
    assert(6 * (4 * group + 2) / 8 == 3 * group + 1);
    assert(6 * (4 * group + 3) / 8 == 3 * group + 2);
    assert(6 * (4 * group) % 8 == 0);
    assert(6 * (4 * group + 1) % 8 == 6);
    assert(6 * (4 * group + 2) % 8 == 4);
    assert(6 * (4 * group + 3) % 8 == 2);
    let (x, y, z) = (bytes[3 * group] as int, bytes[3 * group + 1] as int, bytes[3 * group
        + 2] as int);
    let next: int = if 3 * group + 3 < bytes.len() {
        bytes[3 * group + 3] as int
    } else {
        0
    };
    lemma_regrouped(x, y, z, next);
    assert(six_bits(bytes, 4 * group) == (x * 256 + y) / 1024 % 64);
    assert(six_bits(bytes, 4 * group + 1) == (x * 256 + y) / 16 % 64);
    assert(six_bits(bytes, 4 * group + 2) == (y * 256 + z) / 64 % 64);
    assert(six_bits(bytes, 4 * group + 3) == (z * 256 + next) / 256 % 64);
}

proof fn lemma_regrouped(x: int, y: int, z: int, next: int)
    requires
        0 <= x < 256,
        0 <= y < 256,
        0 <= z < 256,
        0 <= next < 256,
    ensures
        ({
            let (a, b) = ((x * 256 + y) / 1024 % 64, (x * 256 + y) / 16 % 64);
            let (c, d) = ((y * 256 + z) / 64 % 64, (z * 256 + next) / 256 % 64);
            &&& 0 <= a < 64 && 0 <= b < 64 && 0 <= c < 64 && 0 <= d < 64
            &&& ((a * 64 + b) * 64 + c) * 64 + d == x * 0x1_0000 + y * 0x100 + z
        }),
{
    assert((x * 256 + y) / 1024 == x / 4);
    assert((x * 256 + y) / 16 == x * 16 + y / 16);
    assert((y * 256 + z) / 64 == y * 4 + z / 64);
    assert((z * 256 + next) / 256 == z);
    assert(x / 4 % 64 == x / 4);
    assert((x * 16 + y / 16) % 64 == x % 4 * 16 + y / 16);
    assert((y * 4 + z / 64) % 64 == y % 16 * 4 + z / 64);
}

/// Every replica has a line of its own that gives its key the replication
/// permission under its name, and the lines follow each other by number.
pub proof fn law_every_replica_is_listed(n: int, i: int)
    requires
        0 <= i < n,
    ensures
        says(
            key_lines(n),
            "replication "@ + base64_of(public_key_of(Seq::new(32, |j: int| (0x42 + i) as u8)))
                + " bench-replica-"@ + decimal(i as nat) + "\n"@,
        ),
        key_lines(0) == Seq::<char>::empty(),
    decreases n,
{
    let none = Seq::<char>::empty();
    let before = key_lines(n - 1);
    let line = key_line(n - 1, public_key_of(seed_of(n - 1)));
    assert(seed_of(i) =~= Seq::new(32, |j: int| (0x42 + i) as u8));
    if i == n - 1 {
        assert(key_lines(n) =~= before + line + none);
        lemma_says(before, line, none, key_lines(n));
    } else {
        law_every_replica_is_listed(n - 1, i);
        assert(key_lines(n) =~= none + before + line);
        lemma_says_within(
            none,
            before,
            line,
            key_lines(n),
            key_line(i, public_key_of(seed_of(i))),
        );
    }
}

/// A durability mode goes by its own name and no other.
pub proof fn law_durability_modes_go_by_their_names(name: &str, mode: Option<DurabilityMode>)
    requires
        call_ensures(durability_mode, (name,), mode),
    ensures
        mode == Some(DurabilityMode::Local) <==> name@ == "local"@,
        mode == Some(DurabilityMode::Hybrid) <==> name@ == "hybrid"@,
        mode == Some(DurabilityMode::DurablyReplicated) <==> name@ == "durably-replicated"@,
{
    reveal_strlit("local");
    reveal_strlit("hybrid");
    reveal_strlit("durably-replicated");
    assert("local"@.len() == 5 && "hybrid"@.len() == 6 && "durably-replicated"@.len() == 18);
}

/// One or two replicas are served; a replica without a base core is not
/// pinned.
pub proof fn law_replicas_are_bounded(
    n: usize,
    checked: Result<(), String>,
    base: usize,
    offset: usize,
    core: usize,
)
    requires
        call_ensures(check_replicas, (n,), checked),
        call_ensures(replica_core, (base, offset), core),
    ensures
        checked is Ok <==> n == 1 || n == 2,
        base == 0 ==> core == 0,
        base != 0 ==> core == base + offset,
{
}

/// The wait ends when all replicas are there, or with the time; the generator
/// stops without a replica and never runs further ahead than half the ring
/// and a burst.
pub proof fn law_generator_keeps_its_lead(
    g: &mut Generator,
    connected: usize,
    replicas: usize,
    quorum: u64,
    step: GeneratorStep,
    past_deadline: bool,
    wait: ConnectStep,
)
    requires
        call_ensures(Generator::step, (g, connected, replicas, quorum), step),
        call_ensures(connect_step, (connected, replicas, past_deadline), wait),
    ensures
        step is Stop <==> connected < replicas,
        wait is Ready <==> connected >= replicas,
        wait is GiveUp <==> connected < replicas && past_deadline,
        step is Publish ==> final(g).published == old(g).published + 1024 && old(g).published
            <= quorum + 65536,
        step !is Publish ==> final(g).published == old(g).published,
        step is Pause ==> old(g).published > quorum + 65536,
{
    assert(LEAD_CAP == 65536) by (nonlinear_arith)
        requires
            LEAD_CAP == BATCH_SIZE * REPLICATION_RING_SIZE / 2,
            BATCH_SIZE == 32,
            REPLICATION_RING_SIZE == 4096,
    ;
}

/// A report shows what came since the last and how far the fastest is ahead.
pub proof fn law_progress_is_a_difference(quorum: u64, previous: u64, fastest: u64, p: Progress)
    requires
        call_ensures(progress, (quorum, previous, fastest), p),
    ensures
        quorum >= previous ==> previous + p.delta == quorum,
        quorum <= previous ==> p.delta == 0,
        fastest >= quorum ==> quorum + p.spread == fastest,
        fastest <= quorum ==> p.spread == 0,
{
}

/// The file of authorized keys lists every replica under its own key and
/// name.
pub proof fn law_authorized_keys_list_every_replica(n: u8, text: String, i: u8)
    requires
        call_ensures(authorized_keys_text, (n,), text),
        i < n,
    ensures
        says(
            text@,
            "replication "@ + base64_of(public_key_of(Seq::new(32, |j: int| (0x42 + i) as u8)))
                + " bench-replica-"@ + decimal(i as nat) + "\n"@,
        ),
{
    law_every_replica_is_listed(n as int, i as int);
}

} // verus!
