//! Batches of a journal write benchmark, and a journal's summary.

use vstd::prelude::*;

use crate::text::{hex_char, hex_digit};
use crate::text_laws::law_digits_are_the_usual;

verus! {

/// Events between two progress lines.
pub const PROGRESS_EVERY: u64 = 10_000;

/// Batches that some events make up, the last of which may be shorter.
pub open spec fn batches_for(events: int, batch_size: int) -> int {
    (events + batch_size - 1) / batch_size
}

/// Batches that some events make up.
pub fn batch_count(events: usize, batch_size: usize) -> (n: usize)
    requires
        batch_size > 0,
    ensures
        n == batches_for(events as int, batch_size as int),
{
    let whole: usize = events / batch_size;
    proof {
        lemma_ceil(events as int, batch_size as int);
    }
    if events % batch_size == 0 {
        whole
    } else {
        whole + 1
    }
}

/// The events of a batch: from the first to before the second number.
pub fn batch_range(batch: usize, events: usize, batch_size: usize) -> (range: (usize, usize))
    requires
        batch_size > 0,
        batch < batches_for(events as int, batch_size as int),
    ensures
        range.0 == batch * batch_size,
        range.1 == (if (batch + 1) * batch_size < events {
            (batch + 1) * batch_size
        } else {
            events as int
        }),
        range.0 < range.1 <= events,
{
    proof {
        lemma_ceil(events as int, batch_size as int);
        lemma_starts_inside(batch as int, events as int, batch_size as int);
        assert((batch + 1) * batch_size == batch * batch_size + batch_size) by (nonlinear_arith);
    }
    let start: usize = batch * batch_size;
    let end: usize = if batch_size < events - start {
        start + batch_size
    } else {
        events
    };
    (start, end)
}

proof fn lemma_ceil(events: int, batch_size: int)
    requires
        events >= 0,
        batch_size > 0,
    ensures
        batches_for(events, batch_size) == events / batch_size + (if events % batch_size == 0 {
            0int
        } else {
            1
        }),
        0 <= events / batch_size <= events,
        events % batch_size != 0 ==> events / batch_size < events,
{
    let q = events / batch_size;
    let r = events % batch_size;
    vstd::arithmetic::div_mod::lemma_fundamental_div_mod(events, batch_size);
    vstd::arithmetic::div_mod::lemma_mod_bound(events, batch_size);
    vstd::arithmetic::div_mod::lemma_div_pos_is_pos(events, batch_size);
    assert(batch_size * q >= q) by (nonlinear_arith)
        requires
            q >= 0,
            batch_size >= 1,
    ;
    if r == 0 {
        assert(events + batch_size - 1 == q * batch_size + (batch_size - 1)) by (nonlinear_arith)
            requires
                events == batch_size * q,
        ;
        vstd::arithmetic::div_mod::lemma_fundamental_div_mod_converse(
            events + batch_size - 1,
            batch_size,
            q,
            batch_size - 1,
        );
    } else {
        assert(events + batch_size - 1 == (q + 1) * batch_size + (r - 1)) by (nonlinear_arith)
            requires
                events == batch_size * q + r,
        ;
        vstd::arithmetic::div_mod::lemma_fundamental_div_mod_converse(
            events + batch_size - 1,
            batch_size,
            q + 1,
            r - 1,
        );
    }
}

proof fn lemma_starts_inside(batch: int, events: int, batch_size: int)
    requires
        events >= 0,
        batch_size > 0,
        0 <= batch < batches_for(events, batch_size),
    ensures
        0 <= batch * batch_size < events,
{
    lemma_ceil(events, batch_size);
    vstd::arithmetic::div_mod::lemma_fundamental_div_mod(events, batch_size);
    vstd::arithmetic::div_mod::lemma_mod_bound(events, batch_size);
    let q = events / batch_size;
    let r = events % batch_size;
    assert(0 <= batch * batch_size < events) by (nonlinear_arith)
        requires
            events == batch_size * q + r,
            r >= 0,
            batch_size > 0,
            0 <= batch,
            r == 0 ==> batch < q,
            r != 0 ==> batch <= q,
    ;
}

/// Whether a progress line is due after some events.
pub fn shows_progress(written: u64) -> (b: bool)
    ensures
        b == (written % PROGRESS_EVERY == 0),
{
    written % PROGRESS_EVERY == 0
}

/// Every event belongs to the one batch that its number picks.
pub proof fn law_batches_cover_every_event(i: int, events: int, batch_size: int)
    requires
        0 <= i < events,
        batch_size > 0,
    ensures
        ({
            let batch = i / batch_size;
            &&& 0 <= batch < batches_for(events, batch_size)
            &&& batch * batch_size <= i < (batch + 1) * batch_size
        }),
{
    let batch = i / batch_size;
    vstd::arithmetic::div_mod::lemma_fundamental_div_mod(i, batch_size);
    vstd::arithmetic::div_mod::lemma_mod_bound(i, batch_size);
    vstd::arithmetic::div_mod::lemma_div_pos_is_pos(i, batch_size);
    lemma_ceil(events, batch_size);
    vstd::arithmetic::div_mod::lemma_fundamental_div_mod(events, batch_size);
    vstd::arithmetic::div_mod::lemma_mod_bound(events, batch_size);
    vstd::arithmetic::div_mod::lemma_div_is_ordered(i, events, batch_size);
    let q = events / batch_size;
    assert((batch + 1) * batch_size == batch * batch_size + batch_size) by (nonlinear_arith);
    assert(batch * batch_size == batch_size * batch) by (nonlinear_arith);
    if events % batch_size == 0 && batch == q {
        assert(batch_size * batch == batch_size * q);
    }
}

/// What a walk over a journal found.
#[derive(Clone, Copy, Debug, PartialEq, Eq, Structural)]
pub struct JournalTally {
    pub count: u64,
    pub last_seq: u64,
}

impl JournalTally {
    /// No entries.
    pub fn new() -> (t: JournalTally)
        ensures
            t == (JournalTally { count: 0, last_seq: 0 }),
    {
        JournalTally { count: 0, last_seq: 0 }
    }

    /// Counts an entry.
    pub fn entry(&mut self, sequence: u64)
        requires
            old(self).count < u64::MAX,
        ensures
            *final(self) == (JournalTally {
                count: (old(self).count + 1) as u64,
                last_seq: sequence,
            }),
    {
        self.count = self.count + 1;
        self.last_seq = sequence;
    }
}

/// Some bytes in hexadecimal.
pub open spec fn hex_text(bytes: Seq<u8>) -> Seq<char>
    decreases bytes.len(),
{
    if bytes.len() == 0 {
        Seq::empty()
    } else {
        hex_text(bytes.drop_last()).push(hex_digit(bytes.last() as int / 16)).push(
            hex_digit(bytes.last() as int % 16),
        )
    }
}

/// A hash in hexadecimal.
pub fn hex(bytes: &[u8; 32]) -> (s: String)
    ensures
        s@ == hex_text(bytes@),
        s@.len() == 64,
{
    let mut s: String = String::new();
    let mut i: usize = 0;
    while i < 32
        invariant
            0 <= i <= 32,
            s@ == hex_text(bytes@.take(i as int)),
            s@.len() == 2 * i,
        decreases 32 - i,
    {
        s.push(hex_char(bytes[i] / 16));
        s.push(hex_char(bytes[i] % 16));
        proof {
            assert(bytes@.take(i + 1).drop_last() =~= bytes@.take(i as int));
            assert(bytes@.take(i + 1).last() == bytes@[i as int]);
        }
        i = i + 1;
    }
    assert(bytes@.take(32) =~= bytes@);
    s
}

/// There are just as many batches as are needed: with one less not every event
/// would find a place, and all but the last are full.
pub proof fn law_no_batch_too_many(events: int, batch_size: int)
    requires
        events >= 0,
        batch_size > 0,
    ensures
        ({
            let n = batches_for(events, batch_size);
            &&& events == 0 <==> n == 0
            &&& events <= n * batch_size
            &&& n > 0 ==> (n - 1) * batch_size < events
        }),
{
    let n = batches_for(events, batch_size);
    let q = events / batch_size;
    let r = events % batch_size;
    lemma_ceil(events, batch_size);
    vstd::arithmetic::div_mod::lemma_fundamental_div_mod(events, batch_size);
    vstd::arithmetic::div_mod::lemma_mod_bound(events, batch_size);
    assert(events <= n * batch_size && (n > 0 ==> (n - 1) * batch_size < events) && (events == 0
        <==> n == 0)) by (nonlinear_arith)
        requires
            events >= 0,
            events == batch_size * q + r,
            0 <= r < batch_size,
            0 <= q,
            r == 0 ==> n == q,
            r != 0 ==> n == q + 1,
    ;
}

/// Every byte is two digits, the high one first, at twice its place.
pub proof fn law_two_digits_for_each_byte(bytes: Seq<u8>, i: int)
    requires
        0 <= i < bytes.len(),
    ensures
        hex_text(bytes).len() == 2 * bytes.len(),
        hex_text(bytes)[2 * i] == "0123456789abcdef"@[bytes[i] as int / 16],
        hex_text(bytes)[2 * i + 1] == "0123456789abcdef"@[bytes[i] as int % 16],
    decreases bytes.len(),
{
    law_digits_are_the_usual(bytes[i] as int / 16);
    law_digits_are_the_usual(bytes[i] as int % 16);
    lemma_hex_length(bytes);
    lemma_hex_length(bytes.drop_last());
    if i < bytes.len() - 1 {
        law_two_digits_for_each_byte(bytes.drop_last(), i);
    }
}

proof fn lemma_hex_length(bytes: Seq<u8>)
    ensures
        hex_text(bytes).len() == 2 * bytes.len(),
    decreases bytes.len(),
{
    if bytes.len() > 0 {
        lemma_hex_length(bytes.drop_last());
    }
}

/// The batches follow each other without a gap, from the first event to the
/// last, and all but the last are full.
#[verifier::rlimit(40)]
pub proof fn law_batches_follow_each_other(
    events: usize,
    batch_size: usize,
    n: usize,
    batch: usize,
    range: (usize, usize),
    next: (usize, usize),
)
    requires
        batch_size > 0,
        call_ensures(batch_count, (events, batch_size), n),
        batch < n,
        call_ensures(batch_range, (batch, events, batch_size), range),
        batch + 1 < n ==> call_ensures(
            batch_range,
            ((batch + 1) as usize, events, batch_size),
            next,
        ),
    ensures
        batch == 0 ==> range.0 == 0,
        range.0 < range.1 <= events,
        range.1 - range.0 <= batch_size,
        batch + 1 < n ==> next.0 == range.1 && range.1 - range.0 == batch_size,
        batch + 1 == n ==> range.1 == events,
{
    let b = batch as int;
    let size = batch_size as int;
    assert((b + 1) * size == b * size + size) by (nonlinear_arith);
    assert(b == 0 ==> b * size == 0) by (nonlinear_arith);
    lemma_ceil(events as int, size);
    vstd::arithmetic::div_mod::lemma_fundamental_div_mod(events as int, size);
    vstd::arithmetic::div_mod::lemma_mod_bound(events as int, size);
    let q = events as int / size;
    assert(size * q == q * size) by (nonlinear_arith);
    assert((q + 1) * size == q * size + size) by (nonlinear_arith);
    if batch + 1 == n {
        assert((b + 1) * size >= events);
    } else {
        assert((b + 1) * size <= q * size) by (nonlinear_arith)
            requires
                b + 1 <= q,
                size > 0,
        ;
    }
}

/// Progress is shown at every ten thousandth event; a walk counts its entries
/// and keeps the number of the last.
pub proof fn law_progress_and_tally(written: u64, shown: bool, t: &mut JournalTally, sequence: u64)
    requires
        call_ensures(shows_progress, (written,), shown),
        old(t).count < u64::MAX,
        call_ensures(JournalTally::entry, (t, sequence), ()),
    ensures
        shown <==> written % 10_000 == 0,
        final(t).count - old(t).count == 1,
        final(t).last_seq == sequence,
{
}

/// A hash is shown in two digits for each of its bytes.
pub proof fn law_hash_is_shown_in_hexadecimal(bytes: &[u8; 32], s: String, i: int)
    requires
        call_ensures(hex, (bytes,), s),
        0 <= i < 32,
    ensures
        s@.len() == 64,
        s@[2 * i] == "0123456789abcdef"@[bytes@[i] as int / 16],
        s@[2 * i + 1] == "0123456789abcdef"@[bytes@[i] as int % 16],
{
    assert(bytes@.len() == 32);
    law_two_digits_for_each_byte(bytes@, i);
}

} // verus!
