//! The plain pipelined run: a fixed number of orders in a fixed window.

use vstd::prelude::*;

use crate::text::{chars_of, parse_number, parse_usize, same_text};

verus! {

/// Pairs of orders where none is asked for.
pub const DEFAULT_PAIRS: usize = 1_000_000;

/// Orders at the start that are not measured.
pub const WARMUP_ORDERS: usize = 1_000;

/// Orders in flight.
pub const WINDOW: usize = 64;

/// Frames that are written between two flushes.
pub const FLUSH_BATCH: usize = 16;

/// The first argument that is a number.
pub open spec fn first_number(args: Seq<String>) -> Option<nat>
    decreases args.len(),
{
    if args.len() == 0 {
        None
    } else if args[0]@ != "--uds"@ && parse_number(args[0]@, usize::MAX as nat) is Some {
        parse_number(args[0]@, usize::MAX as nat)
    } else {
        first_number(args.skip(1))
    }
}

/// Reads the arguments: whether Unix domain sockets are asked for, and how
/// many pairs of orders.
pub fn read_args(args: &Vec<String>) -> (r: (bool, usize))
    ensures
        r.0 == (exists|i: int| 0 <= i < args@.len() && (#[trigger] args@[i])@ == "--uds"@),
        r.1 == (match first_number(args@) {
            Some(n) => n,
            None => DEFAULT_PAIRS as nat,
        }),
{
    let flag: Vec<char> = chars_of("--uds");
    let mut uds: bool = false;
    let mut pairs: Option<usize> = None;
    let mut i: usize = 0;
    assert(args@.skip(0) =~= args@);
    while i < args.len()
        invariant
            0 <= i <= args@.len(),
            flag@ == "--uds"@,
            uds == (exists|j: int| 0 <= j < i && (#[trigger] args@[j])@ == "--uds"@),
            match pairs {
                Some(n) => first_number(args@) == Some(n as nat),
                None => first_number(args@) == first_number(args@.skip(i as int)),
            },
        decreases args@.len() - i,
    {
        assert(args@.skip(i as int).skip(1) =~= args@.skip(i + 1));
        let arg: Vec<char> = chars_of(args[i].as_str());
        if same_text(&arg, &flag) {
            assert(args@[i as int]@ == "--uds"@);
            uds = true;
        } else if pairs.is_none() {
            pairs = parse_usize(&arg);
        }
        i = i + 1;
    }
    match pairs {
        Some(n) => (uds, n),
        None => (uds, DEFAULT_PAIRS),
    }
}

/// Orders of a run: those of the warmup and two per pair.
pub fn total_orders(pairs: usize) -> (n: usize)
    requires
        WARMUP_ORDERS + pairs * 2 <= usize::MAX,
    ensures
        n == WARMUP_ORDERS + pairs * 2,
{
    WARMUP_ORDERS + pairs * 2
}

/// Decides when written frames are flushed.
#[derive(Clone, Copy, Debug)]
pub struct Flusher {
    unflushed: usize,
}

impl Flusher {
    /// Frames that were written and not flushed.
    pub closed spec fn waiting(&self) -> int {
        self.unflushed as int
    }

    /// Fewer frames wait than make up a batch.
    pub open spec fn wf(&self) -> bool {
        self.waiting() < FLUSH_BATCH
    }

    /// Nothing written.
    pub fn new() -> (f: Flusher)
        ensures
            f.wf(),
            f.waiting() == 0,
    {
        Flusher { unflushed: 0 }
    }

    /// Counts a written frame: whether to flush now, for a full batch or
    /// because the window is full and only answers can open it.
    pub fn wrote(&mut self, window_left: usize) -> (flush: bool)
        requires
            old(self).wf(),
        ensures
            final(self).wf(),
            flush == (old(self).waiting() + 1 == FLUSH_BATCH || window_left == 0),
            final(self).waiting() == (if flush {
                0
            } else {
                old(self).waiting() + 1
            }),
    {
        self.unflushed = self.unflushed + 1;
        if self.unflushed >= FLUSH_BATCH || window_left == 0 {
            self.unflushed = 0;
            true
        } else {
            false
        }
    }

    /// Whether a last flush is needed.
    pub fn finish(&self) -> (flush: bool)
        ensures
            flush == (self.waiting() > 0),
    {
        self.unflushed > 0
    }
}

/// What a finished request means to the receiver.
#[derive(Clone, Copy, Debug, PartialEq, Eq, Structural)]
pub struct Finished {
    /// Its latency is recorded.
    pub record: bool,
    /// It was the last.
    pub last: bool,
}

/// Counts finished requests.
#[derive(Clone, Copy, Debug)]
pub struct Receiver {
    batch_count: usize,
}

impl Receiver {
    /// Requests that are finished.
    pub closed spec fn finished(&self) -> int {
        self.batch_count as int
    }

    /// Nothing received.
    pub fn new() -> (r: Receiver)
        ensures
            r.finished() == 0,
    {
        Receiver { batch_count: 0 }
    }

    /// Counts a finished request of a run. Those of the warmup are not
    /// recorded.
    pub fn batch_end(&mut self, total_orders: usize) -> (f: Finished)
        requires
            old(self).finished() < usize::MAX,
        ensures
            f.record == (old(self).finished() >= WARMUP_ORDERS),
            f.last == (old(self).finished() + 1 >= total_orders),
            final(self).finished() == old(self).finished() + 1,
    {
        let record: bool = self.batch_count >= WARMUP_ORDERS;
        self.batch_count = self.batch_count + 1;
        Finished { record, last: self.batch_count >= total_orders }
    }
}

/// A run records two latencies per pair: every finished request but those of
/// the warmup.
pub proof fn law_every_pair_is_recorded(pairs: int)
    requires
        pairs >= 0,
    ensures
        recorded((WARMUP_ORDERS + pairs * 2) as nat) == pairs * 2,
{
    lemma_recorded((WARMUP_ORDERS + pairs * 2) as nat);
}

/// Latencies recorded among the first finished requests.
pub open spec fn recorded(finished: nat) -> int
    decreases finished,
{
    if finished == 0 {
        0
    } else {
        recorded((finished - 1) as nat) + (if finished - 1 >= WARMUP_ORDERS {
            1int
        } else {
            0
        })
    }
}

proof fn lemma_recorded(finished: nat)
    ensures
        recorded(finished) == (if finished > WARMUP_ORDERS {
            finished - WARMUP_ORDERS
        } else {
            0
        }),
    decreases finished,
{
    if finished > 0 {
        lemma_recorded((finished - 1) as nat);
    }
}

/// The first argument that is a number counts, whatever stands around it; the
/// socket flag is none.
pub proof fn law_first_number_counts(args: Seq<String>, at: int)
    requires
        0 <= at < args.len(),
        args[at]@ != "--uds"@,
        parse_number(args[at]@, usize::MAX as nat) is Some,
        forall|i: int|
            0 <= i < at ==> (#[trigger] args[i])@ == "--uds"@ || parse_number(
                args[i]@,
                usize::MAX as nat,
            ) is None,
    ensures
        first_number(args) == parse_number(args[at]@, usize::MAX as nat),
    decreases args.len(),
{
    if at > 0 {
        let rest = args.skip(1);
        assert(rest[at - 1] == args[at]);
        assert forall|i: int| 0 <= i < at - 1 implies (#[trigger] rest[i])@ == "--uds"@
            || parse_number(rest[i]@, usize::MAX as nat) is None by {
            assert(rest[i] == args[i + 1]);
        }
        assert(args[0]@ == "--uds"@ || parse_number(args[0]@, usize::MAX as nat) is None);
        law_first_number_counts(rest, at - 1);
    }
}

/// Without a number among the arguments there is none.
pub proof fn law_no_number_gives_none(args: Seq<String>)
    requires
        forall|i: int|
            0 <= i < args.len() ==> (#[trigger] args[i])@ == "--uds"@ || parse_number(
                args[i]@,
                usize::MAX as nat,
            ) is None,
    ensures
        first_number(args) is None,
    decreases args.len(),
{
    if args.len() > 0 {
        let rest = args.skip(1);
        assert forall|i: int| 0 <= i < rest.len() implies (#[trigger] rest[i])@ == "--uds"@
            || parse_number(rest[i]@, usize::MAX as nat) is None by {
            assert(rest[i] == args[i + 1]);
        }
        assert(args[0]@ == "--uds"@ || parse_number(args[0]@, usize::MAX as nat) is None);
        law_no_number_gives_none(rest);
    }
}

/// Frames are flushed when sixteen of them wait or the window is full; after
/// a flush none waits, and a last flush is needed while one does.
pub proof fn law_frames_are_flushed_in_batches(f: &mut Flusher, window_left: usize, flush: bool)
    requires
        call_ensures(Flusher::wrote, (f, window_left), flush),
        old(f).waiting() < 16,
    ensures
        old(f).waiting() == 15 ==> flush,
        window_left == 0 ==> flush,
        flush ==> old(f).waiting() == 15 || window_left == 0,
        flush ==> final(f).waiting() == 0,
        !flush ==> final(f).waiting() == old(f).waiting() + 1,
        forall|last: bool|
            call_ensures(Flusher::finish, (&*final(f),), last) ==> last == !flush,
{
}

/// The first thousand answers are not recorded, every later one is, and the
/// last of a run is the one after which as many came as orders went out.
pub proof fn law_answers_after_the_warmup_are_recorded(
    r: &mut Receiver,
    pairs: usize,
    total: usize,
    done: Finished,
)
    requires
        call_ensures(total_orders, (pairs,), total),
        call_ensures(Receiver::batch_end, (r, total), done),
    ensures
        done.record <==> old(r).finished() >= 1000,
        final(r).finished() - old(r).finished() == 1,
        done.last <==> final(r).finished() >= 1000 + 2 * pairs,
        done.last && pairs > 0 && old(r).finished() < 1000 + 2 * pairs ==> done.record,
{
}

} // verus!
