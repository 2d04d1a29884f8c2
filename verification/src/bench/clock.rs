//! Conversion of counter ticks to nanoseconds.
//!
//! The rate of the counter is kept as the fraction that was measured, so
//! every conversion is exact up to its rounding.

use vstd::arithmetic::power2::{lemma2_to64, lemma_pow2_pos, lemma_pow2_unfold, pow2};
use vstd::prelude::*;

verus! {

/// A counter's rate: it advances by `ticks` in `nanos` nanoseconds.
#[derive(Clone, Copy, Debug, PartialEq, Eq, Structural)]
pub struct TickRate {
    ticks: u32,
    nanos: u32,
}

/// A measured fraction whose parts are halved until they fit 32 bits, and
/// kept from becoming zero.
pub open spec fn scaled(ticks: u64, nanos: u64) -> (u64, u64)
    decreases ticks + nanos,
{
    if ticks <= u32::MAX && nanos <= u32::MAX {
        (
            if ticks == 0 {
                1
            } else {
                ticks
            },
            if nanos == 0 {
                1
            } else {
                nanos
            },
        )
    } else {
        scaled(ticks / 2, nanos / 2)
    }
}

/// A number held to what 64 bits can show.
pub open spec fn clamped(n: int) -> int {
    if n <= u64::MAX {
        n
    } else {
        u64::MAX as int
    }
}

impl TickRate {
    /// Neither part is zero.
    pub open spec fn wf(&self) -> bool {
        self.span_ticks() > 0 && self.span_nanos() > 0
    }

    /// Ticks in the measured span.
    pub closed spec fn span_ticks(&self) -> int {
        self.ticks as int
    }

    /// Nanoseconds of the measured span.
    pub closed spec fn span_nanos(&self) -> int {
        self.nanos as int
    }

    /// The rate of a counter that advanced by some ticks in a measured span.
    pub fn measured(ticks: u64, nanos: u64) -> (rate: TickRate)
        ensures
            rate.wf(),
            (rate.span_ticks(), rate.span_nanos()) == (
                scaled(ticks, nanos).0 as int,
                scaled(ticks, nanos).1 as int,
            ),
            rate.span_ticks() <= u32::MAX,
            rate.span_nanos() <= u32::MAX,
    {
        let mut t: u64 = ticks;
        let mut n: u64 = nanos;
        while t > u32::MAX as u64 || n > u32::MAX as u64
            invariant
                scaled(t, n) == scaled(ticks, nanos),
            decreases t + n,
        {
            t = t / 2;
            n = n / 2;
        }
        TickRate {
            ticks: if t == 0 {
                1
            } else {
                t as u32
            },
            nanos: if n == 0 {
                1
            } else {
                n as u32
            },
        }
    }

    /// The rate as it was measured: ticks and nanoseconds of the span.
    pub fn parts(&self) -> (parts: (u32, u32))
        ensures
            parts.0 == self.span_ticks(),
            parts.1 == self.span_nanos(),
    {
        (self.ticks, self.nanos)
    }

    /// The ticks in some nanoseconds, rounded down.
    pub open spec fn ticks_in(&self, nanos: int) -> int {
        nanos * self.span_ticks() / self.span_nanos()
    }

    /// The nanoseconds in some ticks, rounded down.
    pub open spec fn nanos_in(&self, ticks: int) -> int {
        ticks * self.span_nanos() / self.span_ticks()
    }

    /// The ticks in some nanoseconds, rounded down and held to 64 bits.
    pub fn ns_to_tsc(&self, nanos: u64) -> (ticks: u64)
        requires
            self.wf(),
        ensures
            ticks == clamped(self.ticks_in(nanos as int)),
    {
        proof {
            lemma_product(nanos, self.ticks);
        }
        let ticks: u128 = nanos as u128 * self.ticks as u128 / self.nanos as u128;
        if ticks > u64::MAX as u128 {
            u64::MAX
        } else {
            ticks as u64
        }
    }
}

/// The nanoseconds in some ticks, rounded down and held to 64 bits.
pub fn tsc_to_ns(ticks: u64, rate: &TickRate) -> (nanos: u64)
    requires
        rate.wf(),
    ensures
        nanos == clamped(rate.nanos_in(ticks as int)),
{
    proof {
        lemma_product(ticks, rate.nanos);
    }
    let nanos: u128 = ticks as u128 * rate.nanos as u128 / rate.ticks as u128;
    if nanos > u64::MAX as u128 {
        u64::MAX
    } else {
        nanos as u64
    }
}

/// A counter whose rate and whose position at one wall-clock time are known.
#[derive(Clone, Copy, Debug)]
pub struct TscClock {
    pub rate: TickRate,
    /// Counter reading at calibration.
    pub anchor_tsc: u64,
    /// Nanoseconds since the epoch at calibration.
    pub anchor_unix_ns: u64,
}

/// The ticks since an anchor, none where the reading is older.
pub open spec fn ticks_since(anchor: u64, reading: u64) -> int {
    if reading > anchor {
        reading - anchor
    } else {
        0
    }
}

impl TscClock {
    /// A clock from two readings of the counter and the nanoseconds between
    /// them. The wall-clock time was read before the first reading, so
    /// derived times are never late.
    pub fn calibrated(anchor_unix_ns: u64, anchor_tsc: u64, end_tsc: u64, elapsed_ns: u64) -> (clock:
        TscClock)
        requires
            anchor_tsc <= end_tsc,
        ensures
            clock.rate.wf(),
            clock.anchor_tsc == anchor_tsc,
            clock.anchor_unix_ns == anchor_unix_ns,
            clock.rate.span_ticks() == scaled((end_tsc - anchor_tsc) as u64, elapsed_ns).0,
            clock.rate.span_nanos() == scaled((end_tsc - anchor_tsc) as u64, elapsed_ns).1,
    {
        TscClock {
            rate: TickRate::measured(end_tsc - anchor_tsc, elapsed_ns),
            anchor_tsc,
            anchor_unix_ns,
        }
    }

    /// Nanoseconds since the epoch at a later reading of the counter. A
    /// reading before the anchor stands for the anchor.
    pub fn unix_ns(&self, ts: u64) -> (nanos: u64)
        requires
            self.rate.wf(),
            self.anchor_unix_ns + clamped(self.rate.nanos_in(ticks_since(self.anchor_tsc, ts)))
                <= u64::MAX,
        ensures
            nanos == self.anchor_unix_ns + clamped(
                self.rate.nanos_in(ticks_since(self.anchor_tsc, ts)),
            ),
    {
        let delta: u64 = if ts > self.anchor_tsc {
            ts - self.anchor_tsc
        } else {
            0
        };
        self.anchor_unix_ns + tsc_to_ns(delta, &self.rate)
    }
}

proof fn lemma_product(a: u64, b: u32)
    ensures
        0 <= a * b <= u128::MAX,
{
    assert(0 <= a * b <= 0xffff_ffff_ffff_ffff * 0xffff_ffff) by (nonlinear_arith)
        requires
            0 <= a <= 0xffff_ffff_ffff_ffff,
            0 <= b <= 0xffff_ffff,
    ;
}

/// A later reading never gives an earlier time.
pub proof fn law_time_is_monotonic(rate: TickRate, anchor: u64, first: u64, second: u64)
    requires
        rate.wf(),
        first <= second,
    ensures
        rate.nanos_in(ticks_since(anchor, first)) <= rate.nanos_in(ticks_since(anchor, second)),
{
    let a = ticks_since(anchor, first);
    let b = ticks_since(anchor, second);
    let n = rate.span_nanos();
    assert(a * n <= b * n) by (nonlinear_arith)
        requires
            a <= b,
            0 <= n,
    ;
    vstd::arithmetic::div_mod::lemma_div_is_ordered(a * n, b * n, rate.span_ticks());
}

/// A reading before the anchor gives the anchor's time.
pub proof fn law_reading_before_anchor_gives_anchor(rate: TickRate, anchor: u64, reading: u64)
    requires
        rate.wf(),
        reading <= anchor,
    ensures
        rate.nanos_in(ticks_since(anchor, reading)) == 0,
{
    assert(0 * rate.span_nanos() == 0);
    vstd::arithmetic::div_mod::lemma_div_basics(rate.span_ticks());
}

/// A conversion is exact but for less than one unit: ticks and nanoseconds
/// stand to each other as in the measured span.
pub proof fn law_conversion_keeps_the_measured_rate(rate: TickRate, n: int)
    requires
        rate.wf(),
        n >= 0,
    ensures
        rate.nanos_in(n) * rate.span_ticks() <= n * rate.span_nanos() < (rate.nanos_in(n) + 1)
            * rate.span_ticks(),
        rate.ticks_in(n) * rate.span_nanos() <= n * rate.span_ticks() < (rate.ticks_in(n) + 1)
            * rate.span_nanos(),
{
    lemma_quotient(n * rate.span_nanos(), rate.span_ticks());
    lemma_quotient(n * rate.span_ticks(), rate.span_nanos());
}

proof fn lemma_quotient(a: int, d: int)
    requires
        d > 0,
    ensures
        (a / d) * d <= a < (a / d + 1) * d,
{
    vstd::arithmetic::div_mod::lemma_fundamental_div_mod(a, d);
    vstd::arithmetic::div_mod::lemma_mod_bound(a, d);
    let q = a / d;
    assert(q * d == d * q) by (nonlinear_arith);
    assert((q + 1) * d == d * q + d) by (nonlinear_arith);
}

/// Converting there and back never gains time.
pub proof fn law_there_and_back_gains_nothing(rate: TickRate, nanos: int)
    requires
        rate.wf(),
        nanos >= 0,
    ensures
        rate.nanos_in(rate.ticks_in(nanos)) <= nanos,
{
    law_conversion_keeps_the_measured_rate(rate, nanos);
    let t = rate.ticks_in(nanos);
    let (st, sn) = (rate.span_ticks(), rate.span_nanos());
    lemma_quotient(t * sn, st);
    let back = t * sn / st;
    assert(back <= nanos) by (nonlinear_arith)
        requires
            back * st <= t * sn,
            t * sn <= nanos * st,
            st > 0,
    ;
}

/// A part of a measured rate: never zero.
pub open spec fn at_least_one(n: int) -> int {
    if n < 1 {
        1
    } else {
        n
    }
}

/// Whether halving some numbers `k` times makes both fit 32 bits and fewer
/// times does not.
pub open spec fn halved_enough(ticks: u64, nanos: u64, k: nat) -> bool {
    &&& ticks as int / pow2(k) as int <= u32::MAX
    &&& nanos as int / pow2(k) as int <= u32::MAX
    &&& k > 0 ==> ticks as int / pow2((k - 1) as nat) as int > u32::MAX || nanos as int / pow2(
        (k - 1) as nat,
    ) as int > u32::MAX
}

/// A measured rate is kept as it was measured where it fits, and else halved
/// on both sides alike, as often as it takes and no more.
pub proof fn law_both_parts_are_halved_alike(ticks: u64, nanos: u64)
    ensures
        0 < ticks <= u32::MAX && 0 < nanos <= u32::MAX ==> scaled(ticks, nanos) == (ticks, nanos),
        exists|k: nat| #[trigger]
            halved_enough(ticks, nanos, k) && scaled(ticks, nanos).0 == at_least_one(
                ticks as int / pow2(k) as int,
            ) && scaled(ticks, nanos).1 == at_least_one(nanos as int / pow2(k) as int),
    decreases ticks + nanos,
{
    lemma2_to64();
    if ticks <= u32::MAX && nanos <= u32::MAX {
        assert(pow2(0) == 1);
        assert(halved_enough(ticks, nanos, 0));
    } else {
        law_both_parts_are_halved_alike(ticks / 2, nanos / 2);
        let k = choose|k: nat| #[trigger]
            halved_enough(ticks / 2, nanos / 2, k) && scaled(ticks / 2, nanos / 2).0
                == at_least_one((ticks / 2) as int / pow2(k) as int) && scaled(
                ticks / 2,
                nanos / 2,
            ).1 == at_least_one((nanos / 2) as int / pow2(k) as int);
        lemma_half(ticks as int, k);
        lemma_half(nanos as int, k);
        if k > 0 {
            lemma_half(ticks as int, (k - 1) as nat);
            lemma_half(nanos as int, (k - 1) as nat);
            assert((k - 1) as nat + 1 == k);
        } else {
            assert(pow2(0) == 1);
            vstd::arithmetic::div_mod::lemma_div_basics(ticks as int);
            vstd::arithmetic::div_mod::lemma_div_basics(nanos as int);
        }
        assert((k + 1 - 1) as nat == k);
        assert(halved_enough(ticks, nanos, k + 1));
    }
}

proof fn lemma_half(n: int, k: nat)
    requires
        n >= 0,
    ensures
        (n / 2) / pow2(k) as int == n / pow2(k + 1) as int,
{
    lemma_pow2_pos(k);
    lemma_pow2_unfold(k + 1);
    vstd::arithmetic::div_mod::lemma_div_denominator(n, 2, pow2(k) as int);
}

/// Numbers that 64 bits can show stay; larger ones become the largest.
pub proof fn law_clamped_to_64_bits(n: int)
    ensures
        n <= u64::MAX ==> clamped(n) == n,
        n >= u64::MAX ==> clamped(n) == u64::MAX,
{
}

/// Of two readings of a clock the later never gives the earlier time, no
/// reading gives a time before the anchor's, and the anchor gives its own.
pub proof fn law_clock_never_goes_back(
    clock: &TscClock,
    first: u64,
    second: u64,
    first_ns: u64,
    second_ns: u64,
)
    requires
        clock.rate.wf(),
        first <= second,
        call_ensures(TscClock::unix_ns, (clock, first), first_ns),
        call_ensures(TscClock::unix_ns, (clock, second), second_ns),
    ensures
        clock.anchor_unix_ns <= first_ns <= second_ns,
        first <= clock.anchor_tsc ==> first_ns == clock.anchor_unix_ns,
{
    let zero = clock.anchor_tsc;
    law_time_is_monotonic(clock.rate, zero, first, second);
    law_time_is_monotonic(clock.rate, zero, 0, first);
    law_reading_before_anchor_gives_anchor(clock.rate, zero, 0);
    if first <= zero {
        law_reading_before_anchor_gives_anchor(clock.rate, zero, first);
    }
}

/// Nanoseconds turned into ticks and back are no more than they were.
pub proof fn law_ticks_and_back(rate: &TickRate, nanos: u64, ticks: u64, back: u64)
    requires
        rate.wf(),
        call_ensures(TickRate::ns_to_tsc, (rate, nanos), ticks),
        call_ensures(tsc_to_ns, (ticks, rate), back),
    ensures
        back <= nanos,
{
    let exact = rate.ticks_in(nanos as int);
    law_there_and_back_gains_nothing(*rate, nanos as int);
    let (n, t) = (rate.span_nanos(), rate.span_ticks());
    law_conversion_keeps_the_measured_rate(*rate, nanos as int);
    assert(ticks * n <= exact * n) by (nonlinear_arith)
        requires
            ticks <= exact,
            n > 0,
    ;
    vstd::arithmetic::div_mod::lemma_div_is_ordered(ticks * n, exact * n, t);
}

/// A measured rate is the measured span itself where its parts fit 32 bits,
/// and else both parts halved as often; a clock keeps its anchor.
pub proof fn law_rate_is_what_was_measured(
    ticks: u64,
    nanos: u64,
    rate: TickRate,
    parts: (u32, u32),
    unix_ns: u64,
    start: u64,
    end: u64,
    clock: TscClock,
)
    requires
        call_ensures(TickRate::measured, (ticks, nanos), rate),
        call_ensures(TickRate::parts, (&rate,), parts),
        call_ensures(TscClock::calibrated, (unix_ns, start, end, nanos), clock),
        start <= end,
        ticks == end - start,
    ensures
        0 < ticks <= u32::MAX && 0 < nanos <= u32::MAX ==> parts.0 == ticks && parts.1 == nanos,
        exists|k: nat| #[trigger]
            halved_enough(ticks, nanos, k) && parts.0 == at_least_one(
                ticks as int / pow2(k) as int,
            ) && parts.1 == at_least_one(nanos as int / pow2(k) as int),
        clock.anchor_tsc == start,
        clock.anchor_unix_ns == unix_ns,
        clock.rate.span_ticks() == rate.span_ticks(),
        clock.rate.span_nanos() == rate.span_nanos(),
{
    law_both_parts_are_halved_alike(ticks, nanos);
}

} // verus!
