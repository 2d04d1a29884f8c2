//! How long the time spans in a text are together.
//!
//! A text such as `1h 30m` or `1.5s` is a row of numbers with units. Only the
//! sum is of interest here: whether it stays within what a duration can hold.

use vstd::prelude::*;

use crate::text::{chars_of, is_digit, is_digit_exec, same_text};

verus! {

/// The first number of nanoseconds that a duration cannot hold: one more
/// second than a machine number counts.
pub const DURATION_LIMIT: u128 = 18_446_744_073_709_551_616_000_000_000;

/// Where in a span a text stands.
#[derive(Clone, Copy, Debug, PartialEq, Eq, Structural)]
pub enum SpanPart {
    /// Between two spans.
    Gap,
    /// In the digits before a point.
    Number,
    /// In the digits behind a point.
    Fraction,
    /// In the letters of the unit.
    Unit,
}

/// The spans of a text up to some place: the length of those that are over,
/// and what is read of the one that is not.
pub ghost struct Spans {
    pub total: nat,
    pub number: nat,
    pub fraction: nat,
    /// Ten to the number of digits behind the point.
    pub scale: nat,
    pub unit: Seq<char>,
    pub part: SpanPart,
}

/// Nanoseconds of a unit, none where there is no such unit. A month is
/// 30.44 days, and a year 365.25.
pub open spec fn unit_nanos(unit: Seq<char>) -> nat {
    if unit == "nanos"@ || unit == "nsec"@ || unit == "ns"@ {
        1
    } else if unit == "usec"@ || unit == "us"@ || unit == "µs"@ {
        1_000
    } else if unit == "millis"@ || unit == "msec"@ || unit == "ms"@ {
        1_000_000
    } else if unit == "seconds"@ || unit == "second"@ || unit == "secs"@ || unit == "sec"@ || unit
        == "s"@ {
        1_000_000_000
    } else if unit == "minutes"@ || unit == "minute"@ || unit == "min"@ || unit == "mins"@ || unit
        == "m"@ {
        60_000_000_000
    } else if unit == "hours"@ || unit == "hour"@ || unit == "hr"@ || unit == "hrs"@ || unit
        == "h"@ {
        3_600_000_000_000
    } else if unit == "days"@ || unit == "day"@ || unit == "d"@ {
        86_400_000_000_000
    } else if unit == "weeks"@ || unit == "week"@ || unit == "wk"@ || unit == "wks"@ || unit
        == "w"@ {
        604_800_000_000_000
    } else if unit == "months"@ || unit == "month"@ || unit == "M"@ {
        2_630_016_000_000_000
    } else if unit == "years"@ || unit == "year"@ || unit == "yr"@ || unit == "yrs"@ || unit
        == "y"@ {
        31_557_600_000_000_000
    } else {
        0
    }
}

/// The length of a span in nanoseconds. Digits that no machine number holds
/// are beyond every duration.
pub open spec fn span_nanos(number: nat, fraction: nat, scale: nat, unit: Seq<char>) -> nat {
    if number > u64::MAX || scale > u64::MAX {
        DURATION_LIMIT as nat
    } else {
        number * unit_nanos(unit) + fraction * unit_nanos(unit) / scale
    }
}

/// Whether a character belongs to a unit.
pub open spec fn is_unit_letter(c: char) -> bool {
    'a' <= c <= 'z' || 'A' <= c <= 'Z' || c == 'µ'
}

impl Spans {
    /// Before the first character.
    pub open spec fn none() -> Spans {
        Spans {
            total: 0,
            number: 0,
            fraction: 0,
            scale: 1,
            unit: Seq::empty(),
            part: SpanPart::Gap,
        }
    }

    /// The length of all spans, the one that is not over included.
    pub open spec fn nanos(self) -> nat {
        self.total + span_nanos(self.number, self.fraction, self.scale, self.unit)
    }

    /// With the last span over.
    pub open spec fn ended(self) -> Spans {
        Spans { total: self.nanos(), ..Spans::none() }
    }

    /// With one character more. Blanks between digits do not part them.
    pub open spec fn with(self, c: char) -> Spans {
        if is_digit(c) {
            let d = (c as int - 48) as nat;
            match self.part {
                SpanPart::Number => Spans { number: self.number * 10 + d, ..self },
                SpanPart::Fraction => Spans {
                    fraction: self.fraction * 10 + d,
                    scale: self.scale * 10,
                    ..self
                },
                _ => Spans { number: d, part: SpanPart::Number, ..self.ended() },
            }
        } else if is_unit_letter(c) {
            Spans { unit: self.unit.push(c), part: SpanPart::Unit, ..self }
        } else {
            match self.part {
                SpanPart::Number => if c == '.' {
                    Spans { part: SpanPart::Fraction, ..self }
                } else {
                    self
                },
                SpanPart::Unit => self.ended(),
                _ => self,
            }
        }
    }
}

/// The spans of a text.
pub open spec fn spans_of(text: Seq<char>) -> Spans
    decreases text.len(),
{
    if text.len() == 0 {
        Spans::none()
    } else {
        spans_of(text.drop_last()).with(text.last())
    }
}

/// Whether the spans of a text are together within what a duration can hold.
pub open spec fn spans_fit(text: Seq<char>) -> bool {
    spans_of(text).nanos() < DURATION_LIMIT
}

fn is_text(unit: &Vec<char>, name: &str) -> (b: bool)
    ensures
        b == (unit@ == name@),
{
    same_text(unit, &chars_of(name))
}

fn nanos_of_unit(unit: &Vec<char>) -> (n: u64)
    ensures
        n == unit_nanos(unit@),
{
    if is_text(unit, "nanos") || is_text(unit, "nsec") || is_text(unit, "ns") {
        1
    } else if is_text(unit, "usec") || is_text(unit, "us") || is_text(unit, "µs") {
        1_000
    } else if is_text(unit, "millis") || is_text(unit, "msec") || is_text(unit, "ms") {
        1_000_000
    } else if is_text(unit, "seconds") || is_text(unit, "second") || is_text(unit, "secs")
        || is_text(unit, "sec") || is_text(unit, "s") {
        1_000_000_000
    } else if is_text(unit, "minutes") || is_text(unit, "minute") || is_text(unit, "min")
        || is_text(unit, "mins") || is_text(unit, "m") {
        60_000_000_000
    } else if is_text(unit, "hours") || is_text(unit, "hour") || is_text(unit, "hr") || is_text(
        unit,
        "hrs",
    ) || is_text(unit, "h") {
        3_600_000_000_000
    } else if is_text(unit, "days") || is_text(unit, "day") || is_text(unit, "d") {
        86_400_000_000_000
    } else if is_text(unit, "weeks") || is_text(unit, "week") || is_text(unit, "wk") || is_text(
        unit,
        "wks",
    ) || is_text(unit, "w") {
        604_800_000_000_000
    } else if is_text(unit, "months") || is_text(unit, "month") || is_text(unit, "M") {
        2_630_016_000_000_000
    } else if is_text(unit, "years") || is_text(unit, "year") || is_text(unit, "yr") || is_text(
        unit,
        "yrs",
    ) || is_text(unit, "y") {
        31_557_600_000_000_000
    } else {
        0
    }
}

fn is_unit_letter_exec(c: char) -> (b: bool)
    ensures
        b == is_unit_letter(c),
{
    ('a' <= c && c <= 'z') || ('A' <= c && c <= 'Z') || c == 'µ'
}

/// Reads spans one character after the other.
struct SpanReader {
    /// Meaningless once `large` is set.
    total: u128,
    /// Whether the spans that are over reach the limit.
    large: bool,
    number: u64,
    fraction: u64,
    scale: u64,
    /// Whether the digits of the last span are more than `number` and
    /// `scale` can hold.
    over: bool,
    unit: Vec<char>,
    part: SpanPart,
}

impl SpanReader {
    spec fn reads(&self, s: Spans) -> bool {
        &&& self.large <==> s.total >= DURATION_LIMIT
        &&& !self.large ==> self.total == s.total
        &&& self.over <==> s.number > u64::MAX || s.scale > u64::MAX
        &&& !self.over ==> {
            &&& self.number == s.number
            &&& self.fraction == s.fraction
            &&& self.scale == s.scale
        }
        &&& s.fraction < s.scale
        &&& self.unit@ == s.unit
        &&& self.part == s.part
    }

    fn new() -> (r: SpanReader)
        ensures
            r.reads(Spans::none()),
    {
        let r = SpanReader {
            total: 0,
            large: false,
            number: 0,
            fraction: 0,
            scale: 1,
            over: false,
            unit: Vec::new(),
            part: SpanPart::Gap,
        };
        assert(r.unit@ =~= Seq::empty());
        r
    }

    /// The length of the last span.
    fn span(&self, Ghost(s): Ghost<Spans>) -> (n: u128)
        requires
            self.reads(s),
        ensures
            n == span_nanos(s.number, s.fraction, s.scale, s.unit),
            n <= 0x1_0000_0000_0000_0000 * 0xffff_ffff_ffff_ffff,
    {
        if self.over {
            return DURATION_LIMIT;
        }
        let unit: u64 = nanos_of_unit(&self.unit);
        proof {
            let (a, f, u, d) = (
                self.number as int,
                self.fraction as int,
                unit as int,
                self.scale as int,
            );
            assert(0 <= a * u <= 0xffff_ffff_ffff_ffff * 0xffff_ffff_ffff_ffff) by (nonlinear_arith)
                requires
                    0 <= a <= 0xffff_ffff_ffff_ffff,
                    0 <= u <= 0xffff_ffff_ffff_ffff,
            ;
            assert(0 <= f * u <= u * d) by (nonlinear_arith)
                requires
                    0 <= f < d,
                    0 <= u,
            ;
            assert(u * d <= 0xffff_ffff_ffff_ffff * 0xffff_ffff_ffff_ffff) by (nonlinear_arith)
                requires
                    0 <= u <= 0xffff_ffff_ffff_ffff,
                    0 <= d <= 0xffff_ffff_ffff_ffff,
            ;
            vstd::arithmetic::div_mod::lemma_div_is_ordered(f * u, u * d, d);
            vstd::arithmetic::div_mod::lemma_div_multiples_vanish(u, d);
            assert(u * d == d * u) by (nonlinear_arith);
        }
        let whole: u128 = self.number as u128 * unit as u128;
        let part: u128 = self.fraction as u128 * unit as u128 / self.scale as u128;
        whole + part
    }

    /// Ends the last span.
    fn end(&mut self, Ghost(s): Ghost<Spans>)
        requires
            old(self).reads(s),
        ensures
            final(self).reads(s.ended()),
    {
        let span: u128 = self.span(Ghost(s));
        if !self.large {
            self.total = self.total + span;
            self.large = self.total >= DURATION_LIMIT;
        }
        self.number = 0;
        self.fraction = 0;
        self.scale = 1;
        self.over = false;
        self.unit = Vec::new();
        self.part = SpanPart::Gap;
        assert(self.unit@ =~= Seq::empty());
    }

    /// Reads one character.
    fn read(&mut self, c: char, Ghost(s): Ghost<Spans>)
        requires
            old(self).reads(s),
        ensures
            final(self).reads(s.with(c)),
    {
        if is_digit_exec(c) {
            let d: u64 = (c as u32 - 48) as u64;
            match self.part {
                SpanPart::Number => {
                    if !self.over {
                        let next: u128 = self.number as u128 * 10 + d as u128;
                        self.over = next > u64::MAX as u128;
                        if !self.over {
                            self.number = next as u64;
                        }
                    }
                },
                SpanPart::Fraction => {
                    if !self.over {
                        let next: u128 = self.scale as u128 * 10;
                        self.over = next > u64::MAX as u128;
                        if !self.over {
                            self.scale = next as u64;
                            self.fraction = self.fraction * 10 + d;
                        }
                    }
                },
                _ => {
                    self.end(Ghost(s));
                    self.number = d;
                    self.part = SpanPart::Number;
                },
            }
        } else if is_unit_letter_exec(c) {
            self.unit.push(c);
            self.part = SpanPart::Unit;
        } else {
            match self.part {
                SpanPart::Number => {
                    if c == '.' {
                        self.part = SpanPart::Fraction;
                    }
                },
                SpanPart::Unit => self.end(Ghost(s)),
                _ => {},
            }
        }
    }
}

/// Whether the spans of a text are together within what a duration can hold.
pub fn fits_duration(text: &str) -> (b: bool)
    ensures
        b == spans_fit(text@),
{
    let chars: Vec<char> = chars_of(text);
    let mut reader: SpanReader = SpanReader::new();
    let mut i: usize = 0;
    assert(text@.take(0) =~= Seq::empty());
    while i < chars.len()
        invariant
            chars@ == text@,
            0 <= i <= chars@.len(),
            reader.reads(spans_of(text@.take(i as int))),
        decreases chars@.len() - i,
    {
        proof {
            assert(text@.take(i + 1).drop_last() =~= text@.take(i as int));
            assert(text@.take(i + 1).last() == chars@[i as int]);
        }
        reader.read(chars[i], Ghost(spans_of(text@.take(i as int))));
        i = i + 1;
    }
    assert(text@.take(i as int) =~= text@);
    let last: u128 = reader.span(Ghost(spans_of(text@)));
    !reader.large && reader.total + last < DURATION_LIMIT
}

/// Spans one behind the other are together as long as both, where a blank
/// stands between them.
pub proof fn law_spans_add_up(first: Seq<char>, second: Seq<char>)
    requires
        spans_of(first).part == SpanPart::Unit,
    ensures
        spans_of(first.push(' ') + second).nanos() == spans_of(first).nanos() + spans_of(
            second,
        ).nanos(),
{
    lemma_behind(first, second);
}

/// What is read behind a blank is what is read from the start, with what was
/// read before it added to the total.
proof fn lemma_behind(first: Seq<char>, second: Seq<char>)
    requires
        spans_of(first).part == SpanPart::Unit,
    ensures
        spans_of(first.push(' ') + second) == (Spans {
            total: spans_of(first).nanos() + spans_of(second).total,
            ..spans_of(second)
        }),
    decreases second.len(),
{
    let all = first.push(' ') + second;
    if second.len() == 0 {
        assert(all =~= first.push(' '));
        assert(first.push(' ').drop_last() =~= first);
        assert(spans_of(all) == spans_of(first).ended());
    } else {
        lemma_behind(first, second.drop_last());
        assert(all.drop_last() =~= first.push(' ') + second.drop_last());
        assert(all.last() == second.last());
    }
}

} // verus!
