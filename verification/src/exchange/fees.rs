//! Fees in basis points.

use vstd::arithmetic::div_mod::lemma_fundamental_div_mod;
use vstd::prelude::*;

verus! {

/// Basis points in one.
pub const BPS_DENOM: u64 = 10_000;

/// Quotient rounded towards zero.
pub open spec fn trunc_div(a: int, b: int) -> int {
    if a >= 0 {
        a / b
    } else {
        -((-a) / b)
    }
}

/// The fee on `value` at a rate of `bps`: `value * bps / 10_000`, rounded
/// towards zero and cut to 64 bits.
pub open spec fn fee_spec(value: int, bps: int) -> i64 {
    trunc_div(value * bps, BPS_DENOM as int) as i64
}

/// The same expression in 128-bit machine arithmetic, in which the value and
/// the product wrap.
pub open spec fn wrapped_fee_spec(value: u128, bps: i16) -> i64 {
    trunc_div((value as i128).wrapping_mul(bps as i128) as int, BPS_DENOM as int) as i64
}

/// Splitting a value into hundredths of a percent and a rest splits the fee
/// exactly: `trunc((q*d + r)*b / d) == q*b + trunc(r*b / d)`.
proof fn lemma_fee_splits(v: int, bps: int)
    requires
        v >= 0,
    ensures
        trunc_div(v * bps, 10_000) == (v / 10_000) * bps + trunc_div((v % 10_000) * bps, 10_000),
{
    let q = v / 10_000;
    let r = v % 10_000;
    let b = if bps >= 0 {
        bps
    } else {
        -bps
    };
    lemma_fundamental_div_mod(v, 10_000);
    assert(v * b == 10_000 * (q * b) + r * b) by (nonlinear_arith)
        requires
            v == 10_000 * q + r,
    ;
    assert(r * b >= 0 && v * b >= 0 && q * b >= 0) by (nonlinear_arith)
        requires
            r >= 0,
            b >= 0,
            v >= 0,
            q >= 0,
    ;
    assert((v * b) / 10_000 == q * b + (r * b) / 10_000);
    if bps < 0 {
        assert(v * bps == -(v * b)) by (nonlinear_arith)
            requires
                b == -bps,
        ;
        assert(r * bps == -(r * b)) by (nonlinear_arith)
            requires
                b == -bps,
        ;
        assert(q * bps == -(q * b)) by (nonlinear_arith)
            requires
                b == -bps,
        ;
    }
}

/// The fee on `value` at a rate of `bps` basis points, rounded towards zero.
/// A value beyond 64 bits goes through the 128-bit fallback.
pub fn fee_from_bps(value: u128, bps: i16) -> (fee: i64)
    ensures
        value <= u64::MAX ==> fee == fee_spec(value as int, bps as int),
        value > u64::MAX ==> fee == wrapped_fee_spec(value, bps),
{
    if value <= u64::MAX as u128 {
        let v: u64 = value as u64;
        let q: i128 = (v / BPS_DENOM) as i128;
        let r: i64 = (v % BPS_DENOM) as i64;
        proof {
            lemma_fee_splits(v as int, bps as int);
            assert(-0x1_0000_0000_0000_0000_0000 <= q * bps <= 0x1_0000_0000_0000_0000_0000)
                by (nonlinear_arith)
                requires
                    0 <= q <= 0xffff_ffff_ffff_ffff,
                    -0x8000 <= bps <= 0x7fff,
            ;
            assert(-0x2000_0000 <= r * bps <= 0x2000_0000) by (nonlinear_arith)
                requires
                    0 <= r < 10_000,
                    -0x8000 <= bps <= 0x7fff,
            ;
        }
        let head: i128 = q * bps as i128;
        let tail: i64 = (r * bps as i64) / BPS_DENOM as i64;
        (head + tail as i128) as i64
    } else {
        fee_from_bps_slow(value, bps)
    }
}

/// The fee in 128-bit arithmetic, in which the value and the product wrap.
pub fn fee_from_bps_slow(value: u128, bps: i16) -> (fee: i64)
    ensures
        fee == wrapped_fee_spec(value, bps),
{
    ((value as i128).wrapping_mul(bps as i128) / BPS_DENOM as i128) as i64
}

/// Both ways agree wherever the value fits 64 bits.
pub proof fn law_fallback_agrees(value: u128, bps: i16)
    requires
        value <= u64::MAX,
    ensures
        wrapped_fee_spec(value, bps) == fee_spec(value as int, bps as int),
{
    assert(-0x1_0000_0000_0000_0000_0000 <= value * bps <= 0x1_0000_0000_0000_0000_0000)
        by (nonlinear_arith)
        requires
            0 <= value <= 0xffff_ffff_ffff_ffff,
            -0x8000 <= bps <= 0x7fff,
    ;
}

/// Rounding does not depend on the sign: a rebate is the negated fee.
pub proof fn law_rebate_mirrors_fee(value: int, bps: int)
    requires
        value >= 0,
        bps >= 0,
    ensures
        trunc_div(value * -bps, BPS_DENOM as int) == -trunc_div(value * bps, BPS_DENOM as int),
{
    assert(value * -bps == -(value * bps)) by (nonlinear_arith);
    assert(value * bps >= 0) by (nonlinear_arith)
        requires
            value >= 0,
            bps >= 0,
    ;
}

/// A fee is the value's share in basis points, less than one unit short of it:
/// ten thousand times the fee reaches the value times the rate but for a rest
/// below ten thousand. A negative rate pays as much back. This holds wherever
/// the fee fits 64 bits, whichever way it is computed.
pub proof fn law_fee_is_the_share(value: u128, bps: i16, fee: i64)
    requires
        value <= u64::MAX ==> fee == fee_spec(value as int, bps as int),
        value > u64::MAX ==> fee == wrapped_fee_spec(value, bps),
        -0x8000_0000_0000_0000 * 10_000 < value * bps < 0x8000_0000_0000_0000 * 10_000,
    ensures
        bps >= 0 ==> 10_000 * fee <= value * bps < 10_000 * (fee + 1),
        bps <= 0 ==> 10_000 * (fee - 1) < value * bps <= 10_000 * fee,
{
    let product = value * bps;
    if bps == 0 {
        assert(product == 0) by (nonlinear_arith)
            requires
                bps == 0,
                product == value * bps,
        ;
        assert((value as i128) * (bps as i128) == 0) by (nonlinear_arith)
            requires
                bps == 0,
        ;
    } else {
        assert(value < 0x8000_0000_0000_0000 * 10_000) by (nonlinear_arith)
            requires
                bps != 0,
                -0x8000_0000_0000_0000 * 10_000 < value * bps < 0x8000_0000_0000_0000 * 10_000,
        ;
    }
    if value <= u64::MAX {
        law_fallback_agrees(value, bps);
    }
    assert(product >= 0 <==> bps >= 0 || product == 0) by (nonlinear_arith)
        requires
            product == value * bps,
    ;
    let share = trunc_div(product, 10_000);
    if bps > 0 {
        assert(product >= 0);
        assert(10_000 * share <= product < 10_000 * (share + 1));
    } else {
        assert(product <= 0) by (nonlinear_arith)
            requires
                product == value * bps,
                bps <= 0,
        ;
        assert(10_000 * (share - 1) < product <= 10_000 * share);
    }
    assert(-0x8000_0000_0000_0000 < share < 0x8000_0000_0000_0000);
    assert(fee == share);
}

/// The fee that is charged is the share of the value, cut off towards zero,
/// whichever way it is computed.
pub proof fn law_charged_fee_is_the_share(value: u128, bps: i16, fee: i64, slow: i64)
    requires
        call_ensures(fee_from_bps, (value, bps), fee),
        call_ensures(fee_from_bps_slow, (value, bps), slow),
        -0x8000_0000_0000_0000 * 10_000 < value * bps < 0x8000_0000_0000_0000 * 10_000,
    ensures
        bps >= 0 ==> 10_000 * fee <= value * bps < 10_000 * (fee + 1),
        bps <= 0 ==> 10_000 * (fee - 1) < value * bps <= 10_000 * fee,
        value <= u64::MAX ==> slow == fee,
{
    law_fee_is_the_share(value, bps, fee);
    if value <= u64::MAX {
        law_fallback_agrees(value, bps);
    }
}

} // verus!
