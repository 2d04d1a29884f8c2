//! Laws of text: what trimming leaves, what splitting takes apart, and how
//! numbers are written and read.

use vstd::prelude::*;

use crate::text::{
    all_digits, decimal, decimal_string, digit, digits_value, find_char, first_of, hex_digit,
    hexadecimal, hexadecimal_string, is_digit, is_space, law_decimal_reads_back,
    lemma_decimal_digits, parse_number, parse_usize, signed_decimal, signed_decimal_string, split,
    split_by, texts, trim, trim_end, trim_start, trimmed,
};

verus! {

/// Whether a part stands in a text from some place on.
pub open spec fn stands_at(text: Seq<char>, at: int, part: Seq<char>) -> bool {
    &&& 0 <= at
    &&& at + part.len() <= text.len()
    &&& text.subrange(at, at + part.len()) == part
}

/// Whether a part stands somewhere in a text.
pub open spec fn says(text: Seq<char>, part: Seq<char>) -> bool {
    exists|at: int| #[trigger] stands_at(text, at, part)
}

/// What is put between two other texts stands in the whole.
pub proof fn lemma_says(before: Seq<char>, part: Seq<char>, after: Seq<char>, text: Seq<char>)
    requires
        text == before + part + after,
    ensures
        says(text, part),
        stands_at(text, before.len() as int, part),
{
    assert(text.subrange(before.len() as int, before.len() as int + part.len()) =~= part);
    assert(stands_at(text, before.len() as int, part));
}

/// What stands in a part of a text stands in the text.
pub proof fn lemma_says_within(
    before: Seq<char>,
    middle: Seq<char>,
    after: Seq<char>,
    text: Seq<char>,
    part: Seq<char>,
)
    requires
        text == before + middle + after,
        says(middle, part),
    ensures
        says(text, part),
{
    let at = choose|at: int| #[trigger] stands_at(middle, at, part);
    assert(text.subrange(before.len() + at, before.len() + at + part.len()) =~= middle.subrange(
        at,
        at + part.len(),
    ));
    assert(stands_at(text, before.len() + at, part));
}

/// Whether a text is white space throughout.
pub open spec fn blank(s: Seq<char>) -> bool {
    forall|i: int| 0 <= i < s.len() ==> is_space(#[trigger] s[i])
}

/// Blanks, tabs and line ends are white space; no printable ASCII character
/// is.
pub proof fn law_which_characters_are_space(c: char)
    ensures
        c == ' ' || c == '\t' || c == '\n' || c == '\r' ==> is_space(c),
        0x21 <= c as int <= 0x7e ==> !is_space(c),
        c as int <= 0x08 ==> !is_space(c),
        0x0e <= c as int <= 0x1f ==> !is_space(c),
        c as int > 0x7e ==> (is_space(c) <==> set![
            0x85int, 0xa0, 0x1680, 0x2000, 0x2001, 0x2002, 0x2003, 0x2004, 0x2005, 0x2006, 0x2007,
            0x2008, 0x2009, 0x200a, 0x2028, 0x2029, 0x202f, 0x205f, 0x3000,
        ].contains(c as int)),
{
}

proof fn lemma_trim_start(s: Seq<char>) -> (n: int)
    ensures
        0 <= n <= s.len(),
        trim_start(s) == s.skip(n),
        blank(s.take(n)),
        n < s.len() ==> !is_space(s[n]),
    decreases s.len(),
{
    if s.len() > 0 && is_space(s[0]) {
        let m = lemma_trim_start(s.skip(1));
        assert(s.skip(1).skip(m) =~= s.skip(m + 1));
        assert forall|i: int| 0 <= i < m + 1 implies is_space(#[trigger] s.take(m + 1)[i]) by {
            if i > 0 {
                assert(s.skip(1).take(m)[i - 1] == s[i]);
            }
        }
        m + 1
    } else {
        assert(s.skip(0) =~= s);
        0
    }
}

proof fn lemma_trim_end(s: Seq<char>) -> (n: int)
    ensures
        0 <= n <= s.len(),
        trim_end(s) == s.take(n),
        blank(s.skip(n)),
        n > 0 ==> !is_space(s[n - 1]),
    decreases s.len(),
{
    if s.len() > 0 && is_space(s.last()) {
        let m = lemma_trim_end(s.drop_last());
        assert(s.drop_last().take(m) =~= s.take(m));
        assert forall|i: int| 0 <= i < s.len() - m implies is_space(#[trigger] s.skip(m)[i]) by {
            if i < s.len() - m - 1 {
                assert(s.drop_last().skip(m)[i] == s[i + m]);
            }
        }
        m
    } else {
        assert(s.take(s.len() as int) =~= s);
        s.len() as int
    }
}

/// Trimming takes off white space at both ends and nothing else: the text is
/// white space, what is left, and white space, and what is left neither
/// starts nor ends with any.
pub proof fn law_trim_takes_off_space_alone(s: Seq<char>) -> (cut: (Seq<char>, Seq<char>))
    ensures
        s == cut.0 + trim(s) + cut.1,
        blank(cut.0),
        blank(cut.1),
        trim(s).len() > 0 ==> !is_space(trim(s)[0]) && !is_space(trim(s).last()),
{
    let n = lemma_trim_start(s);
    let rest = s.skip(n);
    let m = lemma_trim_end(rest);
    assert(s =~= s.take(n) + rest.take(m) + rest.skip(m));
    assert(m > 0 ==> rest.take(m)[0] == s[n]);
    (s.take(n), rest.skip(m))
}

/// Parts put together with a separator between them.
pub open spec fn joined(parts: Seq<Seq<char>>, sep: char) -> Seq<char>
    decreases parts.len(),
{
    if parts.len() == 0 {
        Seq::empty()
    } else if parts.len() == 1 {
        parts[0]
    } else {
        joined(parts.drop_last(), sep).push(sep) + parts.last()
    }
}

/// Splitting a text gives parts without the separator which, put together
/// with it, are the text again.
pub proof fn law_split_parts_join_to_the_text(s: Seq<char>, sep: char)
    ensures
        split(s, sep).len() > 0,
        joined(split(s, sep), sep) == s,
        forall|i: int, j: int|
            0 <= i < split(s, sep).len() && 0 <= j < split(s, sep)[i].len() ==> #[trigger] split(
                s,
                sep,
            )[i][j] != sep,
    decreases s.len(),
{
    let parts = split(s, sep);
    if s.len() == 0 {
        assert(parts[0] =~= s);
    } else {
        let before = split(s.drop_last(), sep);
        law_split_parts_join_to_the_text(s.drop_last(), sep);
        if s.last() == sep {
            assert(parts.drop_last() =~= before);
            assert(parts.last() =~= Seq::empty());
            assert(joined(parts, sep) =~= s.drop_last().push(sep));
            assert(s =~= s.drop_last().push(sep));
            assert forall|i: int, j: int|
                0 <= i < parts.len() && 0 <= j < parts[i].len() implies #[trigger] parts[i][j]
                != sep by {
                if i < before.len() {
                    assert(parts[i] == before[i]);
                    assert(before[i][j] != sep);
                }
            }
        } else {
            assert(parts.drop_last() =~= before.drop_last());
            assert(parts.last() == before.last().push(s.last()));
            if before.len() == 1 {
                assert(joined(parts, sep) =~= joined(before, sep).push(s.last()));
            } else {
                assert(joined(parts, sep) =~= joined(before, sep).push(s.last()));
            }
            assert(s =~= s.drop_last().push(s.last()));
            assert forall|i: int, j: int|
                0 <= i < parts.len() && 0 <= j < parts[i].len() implies #[trigger] parts[i][j]
                != sep by {
                if i < before.len() - 1 {
                    assert(parts[i] == before[i]);
                    assert(before[i][j] != sep);
                } else if j < before.last().len() {
                    assert(before[before.len() - 1][j] != sep);
                }
            }
        }
    }
}

/// The position found is the first at which the character stands, or the
/// length of a text without it.
pub proof fn law_first_position_is_found(s: Seq<char>, c: char)
    ensures
        0 <= first_of(s, c) <= s.len(),
        first_of(s, c) < s.len() ==> s[first_of(s, c)] == c,
        forall|i: int| 0 <= i < first_of(s, c) ==> #[trigger] s[i] != c,
    decreases s.len(),
{
    if s.len() > 0 && s[0] != c {
        law_first_position_is_found(s.skip(1), c);
        let n = first_of(s.skip(1), c);
        assert(n < s.len() - 1 ==> s.skip(1)[n] == s[n + 1]);
        assert forall|i: int| 0 <= i < first_of(s, c) implies #[trigger] s[i] != c by {
            if i > 0 {
                assert(s.skip(1)[i - 1] == s[i]);
            }
        }
    }
}

/// Digits are those of the usual alphabets.
pub proof fn law_digits_are_the_usual(d: int)
    ensures
        0 <= d < 10 ==> digit(d) == "0123456789"@[d],
        0 <= d < 16 ==> hex_digit(d) == "0123456789abcdef"@[d],
        0 <= d < 10 ==> is_digit(digit(d)) && digits_value(seq![digit(d)]) == d,
{
    reveal_strlit("0123456789");
    reveal_strlit("0123456789abcdef");
    if 0 <= d < 10 {
        let s = seq![digit(d)];
        assert(s.drop_last() =~= Seq::empty());
        assert(s.last() == digit(d));
        reveal_with_fuel(digits_value, 2);
        assert(digit(d) as int == d + 48);
    }
}

/// Numbers are written without leading zeros.
pub proof fn law_no_leading_zero(n: nat)
    ensures
        decimal(n).len() > 0,
        n > 0 ==> decimal(n)[0] != '0',
        n == 0 ==> decimal(n) == "0"@,
    decreases n,
{
    reveal_strlit("0");
    if n >= 10 {
        law_no_leading_zero(n / 10);
        assert(decimal(n)[0] == decimal(n / 10)[0]);
    } else {
        assert(decimal(n)[0] as int == n + 48);
        assert(n == 0 ==> decimal(n) =~= "0"@);
    }
}

/// A negative number is a minus sign and the number without it.
pub proof fn law_sign_comes_first(n: nat)
    requires
        n > 0,
    ensures
        signed_decimal(-n) == seq!['-'] + signed_decimal(n as int),
        signed_decimal(n as int) == decimal(n),
        signed_decimal(0) == decimal(0),
{
    reveal_strlit("-");
    assert("-"@ =~= seq!['-']);
}

/// A plus sign before a number changes nothing, a second one makes it none.
pub proof fn law_one_plus_sign_is_read(n: nat, max: nat)
    requires
        n <= max,
    ensures
        parse_number(seq!['+'] + decimal(n), max) == Some(n),
        parse_number(seq!['+', '+'] + decimal(n), max) is None,
        parse_number(Seq::empty(), max) is None,
        parse_number(seq!['+'], max) is None,
{
    lemma_decimal_digits(n);
    let once = seq!['+'] + decimal(n);
    assert(once.skip(1) =~= decimal(n));
    let twice = seq!['+', '+'] + decimal(n);
    assert(twice.skip(1)[0] == '+');
    assert(!is_digit('+'));
    assert(seq!['+'].skip(1) =~= Seq::<char>::empty());
}

/// Only digits read as a number, and no number beyond the limit is read.
pub proof fn law_only_digits_are_read(s: Seq<char>, max: nat)
    requires
        parse_number(s, max) is Some,
    ensures
        parse_number(s, max)->0 <= max,
        s.len() > 0,
        forall|i: int|
            (if s[0] == '+' {
                1int
            } else {
                0
            }) <= i < s.len() ==> '0' <= #[trigger] s[i] <= '9',
{
    let d = if s[0] == '+' {
        s.skip(1)
    } else {
        s
    };
    assert forall|i: int|
        (if s[0] == '+' {
            1int
        } else {
            0
        }) <= i < s.len() implies '0' <= #[trigger] s[i] <= '9' by {
        if s[0] == '+' {
            assert(d[i - 1] == s[i]);
        } else {
            assert(d[i] == s[i]);
        }
    }
}

/// A leading zero changes no number.
pub proof fn law_leading_zeros_are_read_over(s: Seq<char>)
    requires
        all_digits(s),
    ensures
        digits_value(seq!['0'] + s) == digits_value(s),
    decreases s.len(),
{
    let t = seq!['0'] + s;
    if s.len() == 0 {
        assert(t.drop_last() =~= Seq::empty());
        assert(t.last() == '0');
        reveal_with_fuel(digits_value, 2);
    } else {
        assert(t.drop_last() =~= seq!['0'] + s.drop_last());
        assert(t.last() == s.last());
        law_leading_zeros_are_read_over(s.drop_last());
    }
}

/// The number that hexadecimal digits stand for.
pub open spec fn hex_value(s: Seq<char>) -> int
    decreases s.len(),
{
    if s.len() == 0 {
        0
    } else {
        hex_value(s.drop_last()) * 16 + (if s.last() <= '9' {
            s.last() as int - '0' as int
        } else {
            s.last() as int - 'a' as int + 10
        })
    }
}

/// A hexadecimal form stands for its number.
pub proof fn law_hexadecimal_stands_for_its_number(n: nat)
    ensures
        hex_value(hexadecimal(n)) == n,
        hexadecimal(n).len() > 0,
    decreases n,
{
    let h = hexadecimal(n);
    if n < 16 {
        assert(h.drop_last() =~= Seq::empty());
        reveal_with_fuel(hex_value, 2);
        assert(h.last() == hex_digit(n as int));
    } else {
        law_hexadecimal_stands_for_its_number(n / 16);
        assert(h.drop_last() =~= hexadecimal(n / 16));
        assert(h.last() == hex_digit((n % 16) as int));
    }
}

/// A number that is written is read back, through its characters.
pub proof fn law_written_number_is_read_back(
    n: u64,
    written: String,
    chars: Vec<char>,
    read: Option<usize>,
)
    requires
        n <= usize::MAX,
        call_ensures(decimal_string, (n,), written),
        chars@ == written@,
        call_ensures(parse_usize, (&chars,), read),
    ensures
        read == Some(n as usize),
{
    law_decimal_reads_back(n as nat, usize::MAX as nat);
}

/// A text is what was trimmed off it with what is left between; its parts
/// joined; and what stands before a character's first place with what stands
/// behind.
pub proof fn law_parts_make_up_the_text(
    v: &Vec<char>,
    sep: char,
    trimmed_text: Vec<char>,
    parts: Vec<Vec<char>>,
    at: usize,
    from: usize,
    to: usize,
    cut_out: Vec<char>,
) -> (cut: (Seq<char>, Seq<char>))
    requires
        call_ensures(trimmed, (v,), trimmed_text),
        call_ensures(split_by, (v, sep), parts),
        call_ensures(find_char, (v, sep), at),
        from <= to <= v@.len(),
        call_ensures(crate::text::part, (v, from, to), cut_out),
    ensures
        v@ == cut.0 + trimmed_text@ + cut.1,
        blank(cut.0),
        blank(cut.1),
        joined(texts(parts@), sep) == v@,
        at < v@.len() ==> v@[at as int] == sep,
        forall|i: int| 0 <= i < at ==> #[trigger] v@[i] != sep,
        v@ == v@.take(from as int) + cut_out@ + v@.skip(to as int),
        cut_out@.len() == to - from,
{
    law_split_parts_join_to_the_text(v@, sep);
    law_first_position_is_found(v@, sep);
    assert(v@ =~= v@.take(from as int) + cut_out@ + v@.skip(to as int));
    law_trim_takes_off_space_alone(v@)
}

/// Hexadecimal text stands for its number, and a negative number is its
/// opposite behind a sign.
pub proof fn law_other_written_numbers(n: u64, hex: String, m: i64, signed: String)
    requires
        call_ensures(hexadecimal_string, (n,), hex),
        call_ensures(signed_decimal_string, (m,), signed),
    ensures
        hex_value(hex@) == n,
        m < 0 ==> signed@ == seq!['-'] + decimal((-m) as nat),
        m >= 0 ==> signed@ == decimal(m as nat),
{
    law_hexadecimal_stands_for_its_number(n as nat);
    if m < 0 {
        law_sign_comes_first((-m) as nat);
    } else if m > 0 {
        law_sign_comes_first(m as nat);
    } else {
        law_sign_comes_first(1);
    }
}

} // verus!
