//! Compares two journal lineages entry by entry.
//!
//! A lineage is a run of segments: the archives, the oldest first, then the
//! live one. Entries are aligned by their sequence numbers, because one
//! lineage may start later than the other.

use vstd::prelude::*;
use vstd::string::StringExecFns;

use crate::text::{decimal, decimal_string, hexadecimal, hexadecimal_string};
use crate::text_laws::{lemma_says, says};

verus! {

/// Differences that are shown unless told otherwise.
pub const DEFAULT_MAX_DIFFS: usize = 5;

/// What is compared of an entry, but for its event.
#[derive(Clone, Copy, Debug, PartialEq, Eq, Structural)]
pub struct EntryHeader {
    pub sequence: u64,
    pub timestamp_ns: u64,
    pub key_hash: u64,
    pub request_seq: u64,
}

/// Which side a walk over two lineages moves.
#[derive(Clone, Copy, Debug, PartialEq, Eq, Structural)]
pub enum Move {
    /// The first lineage is behind.
    First,
    /// The second lineage is behind.
    Second,
    /// The entries have one sequence number.
    Both,
}

/// The side that moves: the one that is behind.
pub open spec fn move_at(a: u64, b: u64) -> Move {
    if a < b {
        Move::First
    } else if b < a {
        Move::Second
    } else {
        Move::Both
    }
}

/// The pairs that a walk over two lineages compares, by sequence number.
pub open spec fn compared_sequences(a: Seq<u64>, b: Seq<u64>) -> Seq<u64>
    decreases a.len() + b.len(),
{
    if a.len() == 0 || b.len() == 0 {
        Seq::empty()
    } else {
        match move_at(a[0], b[0]) {
            Move::First => compared_sequences(a.skip(1), b),
            Move::Second => compared_sequences(a, b.skip(1)),
            Move::Both => seq![a[0]] + compared_sequences(a.skip(1), b.skip(1)),
        }
    }
}

/// The lines that show how two entries differ, but for their events.
pub open spec fn difference_lines(a: EntryHeader, b: EntryHeader) -> Seq<Seq<char>> {
    let head = seq!["DIFF at sequence "@ + decimal(a.sequence as nat) + ":"@];
    let time = if a.timestamp_ns != b.timestamp_ns {
        seq![
            "  timestamp_ns: a="@ + decimal(a.timestamp_ns as nat) + " b="@ + decimal(
                b.timestamp_ns as nat,
            ),
        ]
    } else {
        Seq::empty()
    };
    let key = if a.key_hash != b.key_hash {
        seq![
            "  key_hash:     a=0x"@ + hexadecimal(a.key_hash as nat) + " b=0x"@ + hexadecimal(
                b.key_hash as nat,
            ),
        ]
    } else {
        Seq::empty()
    };
    let request = if a.request_seq != b.request_seq {
        seq![
            "  request_seq:  a="@ + decimal(a.request_seq as nat) + " b="@ + decimal(
                b.request_seq as nat,
            ),
        ]
    } else {
        Seq::empty()
    };
    head + time + key + request
}

/// The texts of some lines.
pub open spec fn lines_of(lines: Seq<String>) -> Seq<Seq<char>> {
    Seq::new(lines.len(), |i: int| lines[i]@)
}

/// What follows from a look at both sides.
#[derive(Debug)]
pub enum DiffStep {
    /// One side is at its end.
    Done,
    /// Read the next entry of the first lineage.
    AdvanceFirst,
    /// Read the next entry of the second lineage.
    AdvanceSecond,
    /// The entries are the same: read the next entry of both.
    Same,
    /// The entries differ: show it and go on with the next entries, or stop.
    Differs { lines: Vec<String>, show_events: bool, stop: bool },
}

/// State of a comparison.
#[derive(Clone, Copy, Debug, PartialEq, Eq, Structural)]
pub struct Differ {
    pub compared: u64,
    pub diffs: usize,
    pub first_seq: Option<u64>,
    pub last_seq: u64,
    pub max_diffs: usize,
}

impl Differ {
    /// Nothing compared.
    pub fn new(max_diffs: Option<usize>) -> (d: Differ)
        ensures
            d.compared == 0,
            d.diffs == 0,
            d.first_seq is None,
            d.last_seq == 0,
            d.max_diffs == (match max_diffs {
                Some(n) => n,
                None => DEFAULT_MAX_DIFFS,
            }),
    {
        Differ {
            compared: 0,
            diffs: 0,
            first_seq: None,
            last_seq: 0,
            max_diffs: match max_diffs {
                Some(n) => n,
                None => DEFAULT_MAX_DIFFS,
            },
        }
    }

    /// State after the entries of a sequence number are compared.
    pub open spec fn after(self, sequence: u64, differs: bool) -> Differ {
        Differ {
            compared: (self.compared + 1) as u64,
            diffs: if differs {
                (self.diffs + 1) as usize
            } else {
                self.diffs
            },
            first_seq: match self.first_seq {
                Some(f) => Some(f),
                None => Some(sequence),
            },
            last_seq: sequence,
            max_diffs: self.max_diffs,
        }
    }

    /// Looks at the current entries of both lineages.
    pub fn step(&mut self, a: Option<EntryHeader>, b: Option<EntryHeader>, same_event: bool) -> (s:
        DiffStep)
        requires
            old(self).compared < u64::MAX,
            old(self).diffs < usize::MAX,
        ensures
            match (a, b) {
                (Some(x), Some(y)) => match move_at(x.sequence, y.sequence) {
                    Move::First => s is AdvanceFirst && *final(self) == *old(self),
                    Move::Second => s is AdvanceSecond && *final(self) == *old(self),
                    Move::Both => {
                        let differs = x != y || !same_event;
                        &&& *final(self) == old(self).after(x.sequence, differs)
                        &&& if differs {
                            &&& s matches DiffStep::Differs { lines, show_events, stop }
                            &&& lines_of(lines@) == difference_lines(x, y)
                            &&& show_events == !same_event
                            &&& stop == (final(self).diffs >= old(self).max_diffs)
                        } else {
                            s is Same
                        }
                    },
                },
                _ => s is Done && *final(self) == *old(self),
            },
    {
        match (a, b) {
            (Some(x), Some(y)) => {
                if x.sequence < y.sequence {
                    return DiffStep::AdvanceFirst;
                }
                if y.sequence < x.sequence {
                    return DiffStep::AdvanceSecond;
                }
                if self.first_seq.is_none() {
                    self.first_seq = Some(x.sequence);
                }
                self.last_seq = x.sequence;
                self.compared = self.compared + 1;
                if x == y && same_event {
                    return DiffStep::Same;
                }
                self.diffs = self.diffs + 1;
                DiffStep::Differs {
                    lines: show_difference(&x, &y),
                    show_events: !same_event,
                    stop: self.diffs >= self.max_diffs,
                }
            },
            _ => DiffStep::Done,
        }
    }

    /// The line that says that no more differences are shown.
    pub fn stop_line(&self) -> (s: String)
        ensures
            s@ == "(stopping after "@ + decimal(self.max_diffs as nat) + " diffs)"@,
    {
        let mut s: String = "(stopping after ".to_owned();
        s.append(decimal_string(self.max_diffs as u64).as_str());
        s.append(" diffs)");
        s
    }

    /// The line that sums the comparison up.
    pub open spec fn summary_text(&self) -> Seq<char> {
        let range = match self.first_seq {
            Some(f) => decimal(f as nat) + "..="@ + decimal(self.last_seq as nat),
            None => "(no overlap)"@,
        };
        "compared "@ + decimal(self.compared as nat) + " entries over "@ + range + "; "@ + decimal(
            self.diffs as nat,
        ) + " differed"@
    }

    /// The line that sums the comparison up.
    pub fn summary(&self) -> (s: String)
        ensures
            s@ == self.summary_text(),
    {
        let range: String = match self.first_seq {
            Some(f) => {
                let mut range: String = decimal_string(f);
                range.append("..=");
                range.append(decimal_string(self.last_seq).as_str());
                range
            },
            None => "(no overlap)".to_owned(),
        };
        let mut s: String = "compared ".to_owned();
        s.append(decimal_string(self.compared).as_str());
        s.append(" entries over ");
        s.append(range.as_str());
        s.append("; ");
        s.append(decimal_string(self.diffs as u64).as_str());
        s.append(" differed");
        s
    }

    /// The exit code: whether anything differed.
    pub fn exit_code(&self) -> (code: i32)
        ensures
            code == (if self.diffs > 0 {
                1i32
            } else {
                0
            }),
    {
        if self.diffs > 0 {
            1
        } else {
            0
        }
    }
}

fn show_difference(a: &EntryHeader, b: &EntryHeader) -> (lines: Vec<String>)
    ensures
        lines_of(lines@) == difference_lines(*a, *b),
{
    let mut lines: Vec<String> = Vec::new();
    let mut head: String = "DIFF at sequence ".to_owned();
    head.append(decimal_string(a.sequence).as_str());
    head.append(":");
    lines.push(head);
    if a.timestamp_ns != b.timestamp_ns {
        let mut line: String = "  timestamp_ns: a=".to_owned();
        line.append(decimal_string(a.timestamp_ns).as_str());
        line.append(" b=");
        line.append(decimal_string(b.timestamp_ns).as_str());
        lines.push(line);
    }
    if a.key_hash != b.key_hash {
        let mut line: String = "  key_hash:     a=0x".to_owned();
        line.append(hexadecimal_string(a.key_hash).as_str());
        line.append(" b=0x");
        line.append(hexadecimal_string(b.key_hash).as_str());
        lines.push(line);
    }
    if a.request_seq != b.request_seq {
        let mut line: String = "  request_seq:  a=".to_owned();
        line.append(decimal_string(a.request_seq).as_str());
        line.append(" b=");
        line.append(decimal_string(b.request_seq).as_str());
        lines.push(line);
    }
    assert(lines_of(lines@) =~= difference_lines(*a, *b));
    lines
}

/// What a walk over a lineage does next.
#[derive(Clone, Copy, Debug, PartialEq, Eq, Structural)]
pub enum SegmentStep {
    /// Open the segment at this place.
    Open(usize),
    /// Read the next entry of the open segment.
    Read,
    /// All segments are read.
    Finished,
}

/// A walk over the segments of a lineage.
#[derive(Clone, Copy, Debug)]
pub struct SegmentWalk {
    segments: usize,
    next_segment: usize,
    reading: bool,
}

impl SegmentWalk {
    /// The places of the segments that are not opened yet.
    pub closed spec fn unopened(&self) -> Seq<int> {
        if self.next_segment <= self.segments {
            Seq::new((self.segments - self.next_segment) as nat, |i: int| self.next_segment + i)
        } else {
            Seq::empty()
        }
    }

    /// Whether a segment is open.
    pub closed spec fn is_reading(&self) -> bool {
        self.reading
    }

    /// A walk over the archives and, where there is one, the live segment.
    /// Nothing where there are no segments.
    pub fn over(archives: usize, live: bool) -> (w: Option<SegmentWalk>)
        requires
            archives < usize::MAX,
        ensures
            ({
                let n = archives + (if live {
                    1int
                } else {
                    0
                });
                if n == 0 {
                    w is None
                } else {
                    &&& w is Some
                    &&& w->0.unopened() == Seq::new(n as nat, |i: int| i)
                    &&& !w->0.is_reading()
                }
            }),
    {
        let segments: usize = if live {
            archives + 1
        } else {
            archives
        };
        if segments == 0 {
            return None;
        }
        let w = SegmentWalk { segments, next_segment: 0, reading: false };
        assert(w.unopened() =~= Seq::new(segments as nat, |i: int| i));
        Some(w)
    }

    /// What to do next. A segment to be opened counts as open from here on.
    pub fn next_step(&mut self) -> (s: SegmentStep)
        ensures
            if old(self).is_reading() {
                s == SegmentStep::Read && *final(self) == *old(self)
            } else if old(self).unopened().len() == 0 {
                s == SegmentStep::Finished && *final(self) == *old(self)
            } else {
                &&& s == SegmentStep::Open(old(self).unopened()[0] as usize)
                &&& final(self).is_reading()
                &&& final(self).unopened() == old(self).unopened().skip(1)
            },
    {
        if self.reading {
            return SegmentStep::Read;
        }
        if self.next_segment >= self.segments {
            return SegmentStep::Finished;
        }
        let place: usize = self.next_segment;
        self.next_segment = self.next_segment + 1;
        self.reading = true;
        assert(self.unopened() =~= old(self).unopened().skip(1));
        SegmentStep::Open(place)
    }

    /// The open segment holds no more entries.
    pub fn segment_ended(&mut self)
        ensures
            !final(self).is_reading(),
            final(self).unopened() == old(self).unopened(),
    {
        self.reading = false;
    }
}

/// Numbers that grow from one to the next.
pub open spec fn ascending(s: Seq<u64>) -> bool {
    forall|i: int, j: int| 0 <= i < j < s.len() ==> s[i] < s[j]
}

/// Of two lineages whose sequence numbers grow, a walk compares exactly the
/// sequence numbers that both hold.
pub proof fn law_common_sequences_are_compared(a: Seq<u64>, b: Seq<u64>, n: u64)
    requires
        ascending(a),
        ascending(b),
    ensures
        compared_sequences(a, b).contains(n) <==> a.contains(n) && b.contains(n),
    decreases a.len() + b.len(),
{
    if a.len() > 0 && b.len() > 0 {
        let rest_a = a.skip(1);
        let rest_b = b.skip(1);
        assert(ascending(rest_a));
        assert(ascending(rest_b));
        lemma_contains(a, n);
        lemma_contains(b, n);
        match move_at(a[0], b[0]) {
            Move::First => {
                law_common_sequences_are_compared(rest_a, b, n);
                assert(n == a[0] ==> !b.contains(n));
            },
            Move::Second => {
                law_common_sequences_are_compared(a, rest_b, n);
                assert(n == b[0] ==> !a.contains(n));
            },
            Move::Both => {
                law_common_sequences_are_compared(rest_a, rest_b, n);
                let tail = compared_sequences(rest_a, rest_b);
                lemma_contains(seq![a[0]] + tail, n);
                assert((seq![a[0]] + tail).skip(1) =~= tail);
            },
        }
    }
}

proof fn lemma_contains(s: Seq<u64>, n: u64)
    requires
        s.len() > 0,
    ensures
        s.contains(n) <==> s[0] == n || s.skip(1).contains(n),
{
    if s.contains(n) {
        let i = choose|i: int| 0 <= i < s.len() && s[i] == n;
        if i > 0 {
            assert(s.skip(1)[i - 1] == n);
        }
    }
    if s.skip(1).contains(n) {
        let i = choose|i: int| 0 <= i < s.skip(1).len() && s.skip(1)[i] == n;
        assert(s[i + 1] == n);
    }
}

/// The lineage that is behind moves, and both move where neither is.
pub proof fn law_who_is_behind_moves(a: u64, b: u64)
    ensures
        move_at(a, b) == Move::First <==> a < b,
        move_at(a, b) == Move::Second <==> b < a,
        move_at(a, b) == Move::Both <==> a == b,
{
}

/// A comparison counts each pair once and each difference once, remembers the
/// first sequence number for good and the last one as it goes.
pub proof fn law_comparison_counts(d: Differ, sequence: u64, differs: bool)
    requires
        d.compared < u64::MAX,
        d.diffs < usize::MAX,
    ensures
        d.after(sequence, differs).compared == d.compared + 1,
        differs ==> d.after(sequence, differs).diffs == d.diffs + 1,
        !differs ==> d.after(sequence, differs).diffs == d.diffs,
        d.first_seq is Some ==> d.after(sequence, differs).first_seq == d.first_seq,
        d.first_seq is None ==> d.after(sequence, differs).first_seq == Some(sequence),
        d.after(sequence, differs).last_seq == sequence,
        d.after(sequence, differs).max_diffs == d.max_diffs,
{
}

/// Whether a line shows a value of the first entry and one of the second.
pub open spec fn shows_both(line: Seq<char>, field: Seq<char>, a: Seq<char>, b: Seq<char>) -> bool {
    &&& says(line, field)
    &&& says(line, a)
    &&& says(line, b)
}

/// One if something holds, else zero.
pub open spec fn one_if(b: bool) -> int {
    if b {
        1
    } else {
        0
    }
}

/// The first line names the sequence number. One line follows for each value
/// that differs, with that of the first entry as `a` and that of the second as
/// `b`, and none for a value that does not.
#[verifier::rlimit(40)]
pub proof fn law_differing_values_are_shown(a: EntryHeader, b: EntryHeader)
    ensures
        ({
            let lines = difference_lines(a, b);
            let time = one_if(a.timestamp_ns != b.timestamp_ns);
            let key = one_if(a.key_hash != b.key_hash);
            let request = one_if(a.request_seq != b.request_seq);
            &&& lines.len() == 1 + time + key + request
            &&& says(lines[0], decimal(a.sequence as nat) + ":"@)
            &&& time == 1 ==> shows_both(
                lines[1],
                "timestamp_ns:"@,
                "a="@ + decimal(a.timestamp_ns as nat) + " "@,
                " b="@ + decimal(b.timestamp_ns as nat),
            )
            &&& key == 1 ==> shows_both(
                lines[1 + time],
                "key_hash:"@,
                "a=0x"@ + hexadecimal(a.key_hash as nat) + " "@,
                " b=0x"@ + hexadecimal(b.key_hash as nat),
            )
            &&& request == 1 ==> shows_both(
                lines[1 + time + key],
                "request_seq:"@,
                "a="@ + decimal(a.request_seq as nat) + " "@,
                " b="@ + decimal(b.request_seq as nat),
            )
        }),
{
    reveal_strlit("DIFF at sequence ");
    reveal_strlit("  timestamp_ns: a=");
    reveal_strlit("  key_hash:     a=0x");
    reveal_strlit("  request_seq:  a=");
    reveal_strlit("timestamp_ns:");
    reveal_strlit("key_hash:");
    reveal_strlit("request_seq:");
    reveal_strlit("a=");
    reveal_strlit("a=0x");
    reveal_strlit(" b=");
    reveal_strlit(" b=0x");
    reveal_strlit(" ");
    let lines = difference_lines(a, b);
    let time = one_if(a.timestamp_ns != b.timestamp_ns);
    let key = one_if(a.key_hash != b.key_hash);
    let number = decimal(a.sequence as nat) + ":"@;
    assert(lines[0] =~= "DIFF at sequence "@ + number + Seq::empty());
    lemma_says("DIFF at sequence "@, number, Seq::empty(), lines[0]);
    if a.timestamp_ns != b.timestamp_ns {
        lemma_shows_both(
            lines[1],
            "  timestamp_ns: a="@,
            "timestamp_ns:"@,
            "a="@,
            " b="@,
            decimal(a.timestamp_ns as nat),
            decimal(b.timestamp_ns as nat),
            1,
        );
    }
    if a.key_hash != b.key_hash {
        lemma_shows_both(
            lines[1 + time],
            "  key_hash:     a=0x"@,
            "key_hash:"@,
            "a=0x"@,
            " b=0x"@,
            hexadecimal(a.key_hash as nat),
            hexadecimal(b.key_hash as nat),
            5,
        );
    }
    if a.request_seq != b.request_seq {
        lemma_shows_both(
            lines[1 + time + key],
            "  request_seq:  a="@,
            "request_seq:"@,
            "a="@,
            " b="@,
            decimal(a.request_seq as nat),
            decimal(b.request_seq as nat),
            2,
        );
    }
}

proof fn lemma_shows_both(
    line: Seq<char>,
    lead: Seq<char>,
    field: Seq<char>,
    first: Seq<char>,
    second: Seq<char>,
    a: Seq<char>,
    b: Seq<char>,
    gap: nat,
)
    requires
        line =~= lead + a + second + b,
        lead.len() == 2 + field.len() + gap + first.len(),
        lead.subrange(2, 2 + field.len() as int) =~= field,
        lead.skip(2 + field.len() + gap as int) =~= first,
        second.len() > 0,
        second[0] == ' ',
    ensures
        shows_both(line, field, first + a + " "@, second + b),
{
    reveal_strlit(" ");
    let rest = lead.skip(2 + field.len() as int) + a + second + b;
    assert(line =~= lead.take(2) + field + rest);
    lemma_says(lead.take(2), field, rest, line);
    let before = lead.take(2 + field.len() + gap as int);
    let part = first + a + " "@;
    assert(line =~= before + part + (second.skip(1) + b));
    lemma_says(before, part, second.skip(1) + b, line);
    assert(line =~= (lead + a) + (second + b) + Seq::empty());
    lemma_says(lead + a, second + b, Seq::empty(), line);
}

/// The last line says how many entries were compared, how many differed, and
/// over which sequence numbers.
#[verifier::rlimit(40)]
pub proof fn law_summary_says_what_was_compared(d: Differ)
    ensures
        says(d.summary_text(), "compared "@ + decimal(d.compared as nat) + " entries"@),
        says(d.summary_text(), "; "@ + decimal(d.diffs as nat) + " differed"@),
        d.first_seq matches Some(first) ==> says(
            d.summary_text(),
            " over "@ + decimal(first as nat) + "..="@ + decimal(d.last_seq as nat) + ";"@,
        ),
        d.first_seq is None ==> says(d.summary_text(), "(no overlap)"@),
{
    reveal_strlit(" entries over ");
    reveal_strlit(" entries");
    reveal_strlit(" over ");
    reveal_strlit("; ");
    let range = match d.first_seq {
        Some(f) => decimal(f as nat) + "..="@ + decimal(d.last_seq as nat),
        None => "(no overlap)"@,
    };
    assert(" entries over "@ =~= " entries"@ + " over "@);
    lemma_summary(
        d.summary_text(),
        "compared "@ + decimal(d.compared as nat),
        range,
        decimal(d.diffs as nat) + " differed"@,
    );
    assert("compared "@ + decimal(d.compared as nat) + " entries"@ =~= ("compared "@ + decimal(
        d.compared as nat,
    )) + " entries"@);
    assert("; "@ + decimal(d.diffs as nat) + " differed"@ =~= "; "@ + (decimal(d.diffs as nat)
        + " differed"@));
    if let Some(f) = d.first_seq {
        assert(" over "@ + decimal(f as nat) + "..="@ + decimal(d.last_seq as nat) + ";"@
            =~= " over "@ + range + ";"@);
    }
}

proof fn lemma_summary(text: Seq<char>, count: Seq<char>, range: Seq<char>, differed: Seq<char>)
    requires
        text =~= count + (" entries"@ + " over "@) + range + "; "@ + differed,
    ensures
        says(text, count + " entries"@),
        says(text, " over "@ + range + ";"@),
        says(text, range),
        says(text, "; "@ + differed),
{
    reveal_strlit("; ");
    reveal_strlit(";");
    let none = Seq::<char>::empty();
    let (head, over, tail) = (count + " entries"@, " over "@, "; "@ + differed);
    let rest = over + range + tail;
    assert(text =~= none + head + rest);
    lemma_says(none, head, rest, text);
    let part = over + range + ";"@;
    let after = tail.skip(1);
    assert(tail =~= ";"@ + after);
    assert(text =~= head + part + after);
    lemma_says(head, part, after, text);
    assert(text =~= (head + over) + range + tail);
    lemma_says(head + over, range, tail, text);
    assert(text =~= (head + over + range) + tail + none);
    lemma_says(head + over + range, tail, none, text);
}

/// Entries are compared under one number only: the side with the smaller one
/// reads on, and a walk is done where a side has no more. What differs in any
/// part is counted and shown, until as many differences were seen as are
/// wanted; the exit code tells whether there was one.
pub proof fn law_entries_are_compared_by_number(
    d: &mut Differ,
    a: Option<EntryHeader>,
    b: Option<EntryHeader>,
    same_event: bool,
    s: DiffStep,
)
    requires
        old(d).compared < u64::MAX,
        old(d).diffs < usize::MAX,
        call_ensures(Differ::step, (d, a, b, same_event), s),
    ensures
        s is Done <==> a is None || b is None,
        s is AdvanceFirst <==> (a matches Some(x) && b matches Some(y) && x.sequence < y.sequence),
        s is AdvanceSecond <==> (a matches Some(x) && b matches Some(y) && y.sequence
            < x.sequence),
        s is Same <==> a is Some && a == b && same_event,
        s is Same || s is Differs ==> final(d).compared - old(d).compared == 1,
        s is Done || s is AdvanceFirst || s is AdvanceSecond ==> *final(d) == *old(d),
        final(d).diffs - old(d).diffs == (if s is Differs {
            1int
        } else {
            0
        }),
        s matches DiffStep::Differs { lines, show_events, stop } ==> {
            &&& show_events == !same_event
            &&& stop <==> final(d).diffs >= final(d).max_diffs
        },
        forall|code: i32|
            call_ensures(Differ::exit_code, (&*final(d),), code) ==> code == (if final(d).diffs
                == 0 {
                0int
            } else {
                1
            }),
{
}

/// A walk opens the segments from the first to the last, each once, reads the
/// open one until it ends and finishes after the last.
pub proof fn law_segments_are_read_in_order(w: &mut SegmentWalk, s: SegmentStep)
    requires
        call_ensures(SegmentWalk::next_step, (w,), s),
    ensures
        s is Read <==> old(w).is_reading(),
        s is Finished <==> !old(w).is_reading() && old(w).unopened().len() == 0,
        s matches SegmentStep::Open(place) ==> {
            &&& final(w).is_reading()
            &&& old(w).unopened().len() == final(w).unopened().len() + 1
            &&& place == old(w).unopened()[0]
            &&& forall|i: int|
                0 <= i < final(w).unopened().len() ==> #[trigger] final(w).unopened()[i] == old(
                    w,
                ).unopened()[i + 1]
        },
        s !is Open ==> *final(w) == *old(w),
{
}

/// A walk covers the archives and the live segment, and there is none without
/// either.
pub proof fn law_walk_covers_every_segment(archives: usize, live: bool, w: Option<SegmentWalk>)
    requires
        archives < usize::MAX,
        call_ensures(SegmentWalk::over, (archives, live), w),
    ensures
        w is None <==> archives == 0 && !live,
        w matches Some(walk) ==> {
            &&& !walk.is_reading()
            &&& walk.unopened().len() == archives + (if live {
                1int
            } else {
                0
            })
            &&& forall|i: int| 0 <= i < walk.unopened().len() ==> #[trigger] walk.unopened()[i] == i
        },
{
}

} // verus!
