//! Laws of time spans: how long a span is, and what its unit stands for.

use vstd::arithmetic::power::pow;
use vstd::prelude::*;

use super::spans::{
    fits_duration, is_unit_letter, span_nanos, spans_of, unit_nanos, SpanPart, Spans,
};
use crate::text::{all_digits, decimal, digits_value};
use crate::text_laws::law_digits_are_the_usual;

verus! {

/// Whether a text is made of letters that a unit may have.
pub open spec fn letters(unit: Seq<char>) -> bool {
    forall|i: int| 0 <= i < unit.len() ==> is_unit_letter(#[trigger] unit[i])
}

/// The digits of a number are read as that number.
proof fn lemma_number(n: nat)
    ensures
        spans_of(decimal(n)) == (Spans { number: n, part: SpanPart::Number, ..Spans::none() }),
    decreases n,
{
    let text = decimal(n);
    law_digits_are_the_usual((n % 10) as int);
    assert(span_nanos(0, 0, 1, Seq::empty()) == 0) by {
        assert(0 * unit_nanos(Seq::<char>::empty()) == 0) by (nonlinear_arith);
    }
    if n < 10 {
        assert(text =~= seq![crate::text::digit(n as int)]);
        assert(text.drop_last() =~= Seq::<char>::empty());
        assert(spans_of(text.drop_last()) == Spans::none());
        assert(Spans::none().ended() == Spans::none());
    } else {
        lemma_number(n / 10);
        assert(text.drop_last() =~= decimal(n / 10));
        assert(text.last() == crate::text::digit((n % 10) as int));
    }
}

/// Letters behind a number are its unit.
proof fn lemma_unit(before: Seq<char>, unit: Seq<char>)
    requires
        letters(unit),
        spans_of(before).part == SpanPart::Number || spans_of(before).part == SpanPart::Fraction,
        spans_of(before).unit == Seq::<char>::empty(),
    ensures
        unit.len() > 0 ==> spans_of(before + unit) == (Spans {
            unit,
            part: SpanPart::Unit,
            ..spans_of(before)
        }),
        unit.len() == 0 ==> spans_of(before + unit) == spans_of(before),
    decreases unit.len(),
{
    if unit.len() == 0 {
        assert(before + unit =~= before);
    } else {
        let less = unit.drop_last();
        assert forall|i: int| 0 <= i < less.len() implies is_unit_letter(#[trigger] less[i]) by {
            assert(less[i] == unit[i]);
        }
        lemma_unit(before, less);
        assert((before + unit).drop_last() =~= before + less);
        assert((before + unit).last() == unit.last());
        assert(is_unit_letter(unit[unit.len() - 1]));
        assert(less.push(unit.last()) =~= unit);
        if less.len() == 0 {
            assert(less =~= Seq::<char>::empty());
        }
    }
}

/// Digits behind a point are read as a fraction: its value, and ten to their
/// number.
proof fn lemma_fraction(before: Seq<char>, digits: Seq<char>)
    requires
        all_digits(digits),
        spans_of(before).part == SpanPart::Number,
        spans_of(before).fraction == 0,
        spans_of(before).scale == 1,
    ensures
        spans_of(before.push('.') + digits) == (Spans {
            fraction: digits_value(digits),
            scale: pow(10, digits.len()) as nat,
            part: SpanPart::Fraction,
            ..spans_of(before)
        }),
        pow(10, digits.len()) > 0,
    decreases digits.len(),
{
    let all = before.push('.') + digits;
    reveal(pow);
    if digits.len() == 0 {
        assert(all =~= before.push('.'));
        assert(before.push('.').drop_last() =~= before);
    } else {
        let less = digits.drop_last();
        assert(all_digits(less));
        lemma_fraction(before, less);
        assert(all.drop_last() =~= before.push('.') + less);
        assert(all.last() == digits.last());
        assert(crate::text::is_digit(digits[digits.len() - 1]));
        assert(pow(10, digits.len()) == 10 * pow(10, less.len()));
    }
}

/// A number with a unit is as many times as long as its unit, for every
/// number that 64 bits hold.
pub proof fn law_span_is_so_many_units(number: u64, unit: Seq<char>)
    requires
        letters(unit),
        unit.len() > 0,
    ensures
        spans_of(decimal(number as nat) + unit).nanos() == number * unit_nanos(unit),
        spans_of(decimal(number as nat) + unit).part == SpanPart::Unit,
{
    lemma_number(number as nat);
    lemma_unit(decimal(number as nat), unit);
    assert(0 * unit_nanos(unit) == 0) by (nonlinear_arith);
}

/// Digits behind a point add their part of the unit, cut off to whole
/// nanoseconds.
#[verifier::rlimit(40)]
pub proof fn law_fraction_is_part_of_a_unit(number: u64, digits: Seq<char>, unit: Seq<char>)
    requires
        letters(unit),
        unit.len() > 0,
        all_digits(digits),
        digits.len() <= 19,
    ensures
        ({
            let all = spans_of(decimal(number as nat).push('.') + digits + unit).nanos();
            let part = all - number * unit_nanos(unit);
            let tens = pow(10, digits.len());
            &&& part * tens <= digits_value(digits) * unit_nanos(unit) < (part + 1) * tens
        }),
{
    let before = decimal(number as nat);
    lemma_number(number as nat);
    lemma_fraction(before, digits);
    lemma_unit(before.push('.') + digits, unit);
    let tens = pow(10, digits.len());
    vstd::arithmetic::power::lemma_pow_increases(10, digits.len(), 19);
    assert(pow(10, 19) == 10_000_000_000_000_000_000) by {
        reveal(pow);
        reveal_with_fuel(pow, 20);
    }
    let product = digits_value(digits) * unit_nanos(unit);
    vstd::arithmetic::div_mod::lemma_fundamental_div_mod(product as int, tens);
    vstd::arithmetic::div_mod::lemma_mod_bound(product as int, tens);
    let part = product as int / tens;
    assert(part * tens == tens * part) by (nonlinear_arith);
    assert((part + 1) * tens == part * tens + tens) by (nonlinear_arith);
}

/// A span fits a duration as long as it is shorter than two to the 64th
/// seconds.
pub proof fn law_span_fits_up_to_the_limit(text: &str, number: u64, unit: Seq<char>, fits: bool)
    requires
        call_ensures(fits_duration, (text,), fits),
        text@ == decimal(number as nat) + unit,
        letters(unit),
        unit.len() > 0,
    ensures
        fits <==> number * unit_nanos(unit) < 0x1_0000_0000_0000_0000 * 1_000_000_000,
{
    law_span_is_so_many_units(number, unit);
}

/// The short name of each unit: a thousand nanoseconds are a microsecond, a
/// thousand of them a millisecond, a thousand of them a second; sixty seconds
/// are a minute, sixty minutes an hour, twenty-four hours a day and seven
/// days a week. A month is a hundredth of 3044 days and a year a quarter of
/// 1461.
#[verifier::rlimit(60)]
pub proof fn law_units_make_up_each_other()
    ensures
        unit_nanos("ns"@) == 1,
        unit_nanos("us"@) == 1_000 * unit_nanos("ns"@),
        unit_nanos("ms"@) == 1_000 * unit_nanos("us"@),
        unit_nanos("s"@) == 1_000 * unit_nanos("ms"@),
        unit_nanos("m"@) == 60 * unit_nanos("s"@),
        unit_nanos("h"@) == 60 * unit_nanos("m"@),
        unit_nanos("d"@) == 24 * unit_nanos("h"@),
        unit_nanos("w"@) == 7 * unit_nanos("d"@),
        100 * unit_nanos("M"@) == 3044 * unit_nanos("d"@),
        4 * unit_nanos("y"@) == 1461 * unit_nanos("d"@),
{
    lemma_short_names();
    reveal_strlit("ns");
    reveal_strlit("us");
    reveal_strlit("ms");
    reveal_strlit("s");
    reveal_strlit("m");
    reveal_strlit("h");
    reveal_strlit("d");
    reveal_strlit("w");
    reveal_strlit("M");
    reveal_strlit("y");
}

/// What a unit of one or two letters stands for goes by its letters.
#[verifier::rlimit(60)]
proof fn lemma_short_names()
    ensures
        forall|u: Seq<char>|
            u.len() == 1 ==> #[trigger] unit_nanos(u) == (if u[0] == 's' {
                1_000_000_000nat
            } else if u[0] == 'm' {
                60_000_000_000
            } else if u[0] == 'h' {
                3_600_000_000_000
            } else if u[0] == 'd' {
                86_400_000_000_000
            } else if u[0] == 'w' {
                604_800_000_000_000
            } else if u[0] == 'M' {
                2_630_016_000_000_000
            } else if u[0] == 'y' {
                31_557_600_000_000_000
            } else {
                0
            }),
        forall|u: Seq<char>|
            u.len() == 2 && u[1] == 's' ==> #[trigger] unit_nanos(u) == (if u[0] == 'n' {
                1nat
            } else if u[0] == 'u' || u[0] == 'µ' {
                1_000
            } else if u[0] == 'm' {
                1_000_000
            } else {
                0
            }),
{
    lemma_reveal_names();
    assert forall|u: Seq<char>| u.len() == 1 implies #[trigger] unit_nanos(u) == (if u[0] == 's' {
        1_000_000_000nat
    } else if u[0] == 'm' {
        60_000_000_000
    } else if u[0] == 'h' {
        3_600_000_000_000
    } else if u[0] == 'd' {
        86_400_000_000_000
    } else if u[0] == 'w' {
        604_800_000_000_000
    } else if u[0] == 'M' {
        2_630_016_000_000_000
    } else if u[0] == 'y' {
        31_557_600_000_000_000
    } else {
        0
    }) by {
        assert(u =~= seq![u[0]]);
    }
    assert forall|u: Seq<char>| u.len() == 2 && u[1] == 's' implies #[trigger] unit_nanos(u) == (
    if u[0] == 'n' {
        1nat
    } else if u[0] == 'u' || u[0] == 'µ' {
        1_000
    } else if u[0] == 'm' {
        1_000_000
    } else {
        0
    }) by {
        assert(u =~= seq![u[0], 's']);
    }
}

/// The letters of the units' short names, and that no other name is as short.
proof fn lemma_reveal_names()
    ensures
        "s"@ == seq!['s'],
        "m"@ == seq!['m'],
        "h"@ == seq!['h'],
        "d"@ == seq!['d'],
        "w"@ == seq!['w'],
        "M"@ == seq!['M'],
        "y"@ == seq!['y'],
        "ns"@ == seq!['n', 's'],
        "us"@ == seq!['u', 's'],
        "µs"@ == seq!['µ', 's'],
        "ms"@ == seq!['m', 's'],
        "hr"@ == seq!['h', 'r'],
        "wk"@ == seq!['w', 'k'],
        "yr"@ == seq!['y', 'r'],
        "nanos"@.len() > 2 && "nsec"@.len() > 2 && "usec"@.len() > 2 && "millis"@.len() > 2,
        "msec"@.len() > 2 && "seconds"@.len() > 2 && "second"@.len() > 2 && "secs"@.len() > 2,
        "sec"@.len() > 2 && "minutes"@.len() > 2 && "minute"@.len() > 2 && "min"@.len() > 2,
        "mins"@.len() > 2 && "hours"@.len() > 2 && "hour"@.len() > 2 && "hrs"@.len() > 2,
        "days"@.len() > 2 && "day"@.len() > 2 && "weeks"@.len() > 2 && "week"@.len() > 2,
        "wks"@.len() > 2 && "months"@.len() > 2 && "month"@.len() > 2 && "years"@.len() > 2,
        "year"@.len() > 2 && "yrs"@.len() > 2,
{
    reveal_strlit("s");
    reveal_strlit("m");
    reveal_strlit("h");
    reveal_strlit("d");
    reveal_strlit("w");
    reveal_strlit("M");
    reveal_strlit("y");
    reveal_strlit("ns");
    reveal_strlit("us");
    reveal_strlit("µs");
    reveal_strlit("ms");
    reveal_strlit("hr");
    reveal_strlit("wk");
    reveal_strlit("yr");
    reveal_strlit("nanos");
    reveal_strlit("nsec");
    reveal_strlit("usec");
    reveal_strlit("millis");
    reveal_strlit("msec");
    reveal_strlit("seconds");
    reveal_strlit("second");
    reveal_strlit("secs");
    reveal_strlit("sec");
    reveal_strlit("minutes");
    reveal_strlit("minute");
    reveal_strlit("min");
    reveal_strlit("mins");
    reveal_strlit("hours");
    reveal_strlit("hour");
    reveal_strlit("hrs");
    reveal_strlit("days");
    reveal_strlit("day");
    reveal_strlit("weeks");
    reveal_strlit("week");
    reveal_strlit("wks");
    reveal_strlit("months");
    reveal_strlit("month");
    reveal_strlit("years");
    reveal_strlit("year");
    reveal_strlit("yrs");
    assert("s"@ =~= seq!['s']);
    assert("m"@ =~= seq!['m']);
    assert("h"@ =~= seq!['h']);
    assert("d"@ =~= seq!['d']);
    assert("w"@ =~= seq!['w']);
    assert("M"@ =~= seq!['M']);
    assert("y"@ =~= seq!['y']);
    assert("ns"@ =~= seq!['n', 's']);
    assert("us"@ =~= seq!['u', 's']);
    assert("µs"@ =~= seq!['µ', 's']);
    assert("ms"@ =~= seq!['m', 's']);
    assert("hr"@ =~= seq!['h', 'r']);
    assert("wk"@ =~= seq!['w', 'k']);
    assert("yr"@ =~= seq!['y', 'r']);
}

/// The longer names of a unit stand for the same as its short one.
#[verifier::rlimit(80)]
pub proof fn law_longer_names_stand_for_the_same()
    ensures
        unit_nanos("nanos"@) == unit_nanos("ns"@),
        unit_nanos("nsec"@) == unit_nanos("ns"@),
        unit_nanos("usec"@) == unit_nanos("us"@),
        unit_nanos("µs"@) == unit_nanos("us"@),
        unit_nanos("millis"@) == unit_nanos("ms"@),
        unit_nanos("msec"@) == unit_nanos("ms"@),
        unit_nanos("seconds"@) == unit_nanos("s"@),
        unit_nanos("second"@) == unit_nanos("s"@),
        unit_nanos("secs"@) == unit_nanos("s"@),
        unit_nanos("sec"@) == unit_nanos("s"@),
        unit_nanos("minutes"@) == unit_nanos("m"@),
        unit_nanos("minute"@) == unit_nanos("m"@),
        unit_nanos("min"@) == unit_nanos("m"@),
        unit_nanos("mins"@) == unit_nanos("m"@),
        unit_nanos("hours"@) == unit_nanos("h"@),
        unit_nanos("hour"@) == unit_nanos("h"@),
        unit_nanos("hr"@) == unit_nanos("h"@),
        unit_nanos("hrs"@) == unit_nanos("h"@),
        unit_nanos("days"@) == unit_nanos("d"@),
        unit_nanos("day"@) == unit_nanos("d"@),
        unit_nanos("weeks"@) == unit_nanos("w"@),
        unit_nanos("week"@) == unit_nanos("w"@),
        unit_nanos("wk"@) == unit_nanos("w"@),
        unit_nanos("wks"@) == unit_nanos("w"@),
        unit_nanos("months"@) == unit_nanos("M"@),
        unit_nanos("month"@) == unit_nanos("M"@),
        unit_nanos("years"@) == unit_nanos("y"@),
        unit_nanos("year"@) == unit_nanos("y"@),
        unit_nanos("yr"@) == unit_nanos("y"@),
        unit_nanos("yrs"@) == unit_nanos("y"@),
{
    lemma_short_names();
    reveal_strlit("ns");
    reveal_strlit("nanos");
    reveal_strlit("nsec");
    reveal_strlit("us");
    reveal_strlit("usec");
    reveal_strlit("µs");
    reveal_strlit("ms");
    reveal_strlit("millis");
    reveal_strlit("msec");
    reveal_strlit("s");
    reveal_strlit("seconds");
    reveal_strlit("second");
    reveal_strlit("secs");
    reveal_strlit("sec");
    reveal_strlit("m");
    reveal_strlit("minutes");
    reveal_strlit("minute");
    reveal_strlit("min");
    reveal_strlit("mins");
    reveal_strlit("h");
    reveal_strlit("hours");
    reveal_strlit("hour");
    reveal_strlit("hr");
    reveal_strlit("hrs");
    reveal_strlit("d");
    reveal_strlit("days");
    reveal_strlit("day");
    reveal_strlit("w");
    reveal_strlit("weeks");
    reveal_strlit("week");
    reveal_strlit("wk");
    reveal_strlit("wks");
    reveal_strlit("M");
    reveal_strlit("months");
    reveal_strlit("month");
    reveal_strlit("y");
    reveal_strlit("years");
    reveal_strlit("year");
    reveal_strlit("yr");
    reveal_strlit("yrs");
    assert("ns"@[0] == 'n' && "ns"@[1] == 's');
    assert("nanos"@[0] == 'n' && "nanos"@[1] == 'a' && "nanos"@[2] == 'n');
    assert("nsec"@[0] == 'n' && "nsec"@[1] == 's' && "nsec"@[2] == 'e');
    assert("us"@[0] == 'u' && "us"@[1] == 's');
    assert("usec"@[0] == 'u' && "usec"@[1] == 's' && "usec"@[2] == 'e');
    assert("µs"@[0] == 'µ' && "µs"@[1] == 's');
    assert("ms"@[0] == 'm' && "ms"@[1] == 's');
    assert("millis"@[0] == 'm' && "millis"@[1] == 'i' && "millis"@[2] == 'l');
    assert("msec"@[0] == 'm' && "msec"@[1] == 's' && "msec"@[2] == 'e');
    assert("seconds"@[0] == 's' && "seconds"@[1] == 'e' && "seconds"@[2] == 'c');
    assert("second"@[0] == 's' && "second"@[1] == 'e' && "second"@[2] == 'c');
    assert("secs"@[0] == 's' && "secs"@[1] == 'e' && "secs"@[2] == 'c');
    assert("sec"@[0] == 's' && "sec"@[1] == 'e' && "sec"@[2] == 'c');
    assert("minutes"@[0] == 'm' && "minutes"@[1] == 'i' && "minutes"@[2] == 'n');
    assert("minute"@[0] == 'm' && "minute"@[1] == 'i' && "minute"@[2] == 'n');
    assert("min"@[0] == 'm' && "min"@[1] == 'i' && "min"@[2] == 'n');
    assert("mins"@[0] == 'm' && "mins"@[1] == 'i' && "mins"@[2] == 'n');
    assert("hours"@[0] == 'h' && "hours"@[1] == 'o' && "hours"@[2] == 'u');
    assert("hour"@[0] == 'h' && "hour"@[1] == 'o' && "hour"@[2] == 'u');
    assert("hr"@[0] == 'h' && "hr"@[1] == 'r');
    assert("hrs"@[0] == 'h' && "hrs"@[1] == 'r' && "hrs"@[2] == 's');
    assert("days"@[0] == 'd' && "days"@[1] == 'a' && "days"@[2] == 'y');
    assert("day"@[0] == 'd' && "day"@[1] == 'a' && "day"@[2] == 'y');
    assert("weeks"@[0] == 'w' && "weeks"@[1] == 'e' && "weeks"@[2] == 'e');
    assert("week"@[0] == 'w' && "week"@[1] == 'e' && "week"@[2] == 'e');
    assert("wk"@[0] == 'w' && "wk"@[1] == 'k');
    assert("wks"@[0] == 'w' && "wks"@[1] == 'k' && "wks"@[2] == 's');
    assert("months"@[0] == 'm' && "months"@[1] == 'o' && "months"@[2] == 'n');
    assert("month"@[0] == 'm' && "month"@[1] == 'o' && "month"@[2] == 'n');
    assert("years"@[0] == 'y' && "years"@[1] == 'e' && "years"@[2] == 'a');
    assert("year"@[0] == 'y' && "year"@[1] == 'e' && "year"@[2] == 'a');
    assert("yr"@[0] == 'y' && "yr"@[1] == 'r');
    assert("yrs"@[0] == 'y' && "yrs"@[1] == 'r' && "yrs"@[2] == 's');
}

} // verus!
