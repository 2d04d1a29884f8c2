//! Health samples of the server under test.

use vstd::prelude::*;
use vstd::string::StringExecFns;

use crate::text::{chars_of, decimal, decimal_string, signed_decimal, signed_decimal_string};

verus! {

/// A metric's value: a whole number, or another as it is printed.
#[derive(Debug)]
pub enum MetricValue {
    Whole(i64),
    Printed(String),
}

/// A metric's value in the results file.
pub open spec fn value_text(v: MetricValue) -> Seq<char> {
    match v {
        MetricValue::Whole(n) => signed_decimal(n as int),
        MetricValue::Printed(s) => s@,
    }
}

/// Whether a text comes before another: by their first characters that
/// differ, and the shorter first where one continues the other.
pub open spec fn text_before(a: Seq<char>, b: Seq<char>) -> bool
    decreases a.len(),
{
    if b.len() == 0 {
        false
    } else if a.len() == 0 {
        true
    } else if a[0] != b[0] {
        (a[0] as int) < (b[0] as int)
    } else {
        text_before(a.skip(1), b.skip(1))
    }
}

proof fn lemma_before_is_transitive(a: Seq<char>, b: Seq<char>, c: Seq<char>)
    requires
        text_before(a, b),
        text_before(b, c),
    ensures
        text_before(a, c),
    decreases a.len(),
{
    if a.len() > 0 && a[0] == b[0] && b[0] == c[0] {
        lemma_before_is_transitive(a.skip(1), b.skip(1), c.skip(1));
    }
}

proof fn lemma_before_is_total(a: Seq<char>, b: Seq<char>)
    ensures
        text_before(a, b) || text_before(b, a) || a == b,
        !(text_before(a, b) && text_before(b, a)),
        !text_before(a, a),
    decreases a.len(),
{
    if a.len() > 0 {
        lemma_before_is_total(a.skip(1), a.skip(1));
    }
    if a.len() > 0 && b.len() > 0 {
        lemma_before_is_total(a.skip(1), b.skip(1));
        if a[0] == b[0] && a.skip(1) == b.skip(1) {
            assert(a =~= seq![a[0]] + a.skip(1));
            assert(b =~= seq![b[0]] + b.skip(1));
        }
    } else if a.len() == 0 && b.len() == 0 {
        assert(a =~= b);
    }
}

fn code_point(c: char) -> (n: u32)
    ensures
        n == c as int,
{
    c as u32
}

fn goes_before(a: &Vec<char>, b: &Vec<char>) -> (r: bool)
    ensures
        r == text_before(a@, b@),
{
    let mut i: usize = 0;
    assert(a@.skip(0) =~= a@);
    assert(b@.skip(0) =~= b@);
    while i < a.len() && i < b.len()
        invariant
            0 <= i <= a@.len(),
            i <= b@.len(),
            text_before(a@.skip(i as int), b@.skip(i as int)) == text_before(a@, b@),
        decreases a@.len() - i,
    {
        let x: u32 = code_point(a[i]);
        let y: u32 = code_point(b[i]);
        if x != y {
            return x < y;
        }
        assert(a@.skip(i as int).skip(1) =~= a@.skip(i + 1));
        assert(b@.skip(i as int).skip(1) =~= b@.skip(i + 1));
        i = i + 1;
    }
    i < b.len()
}

/// A metric's name as a key of the results file: labels in braces become
/// part of the name.
pub open spec fn sanitized(key: Seq<char>) -> Seq<char>
    decreases key.len(),
{
    if key.len() == 0 {
        Seq::empty()
    } else {
        let before = sanitized(key.drop_last());
        let c = key.last();
        if c == '{' || c == '=' {
            before.push('_')
        } else if c == '}' || c == '"' {
            before
        } else {
            before.push(c)
        }
    }
}

fn sanitize(key: &Vec<char>) -> (s: String)
    ensures
        s@ == sanitized(key@),
{
    let mut s: String = String::new();
    let mut i: usize = 0;
    while i < key.len()
        invariant
            0 <= i <= key@.len(),
            s@ == sanitized(key@.take(i as int)),
        decreases key@.len() - i,
    {
        let c: char = key[i];
        proof {
            assert(key@.take(i + 1).drop_last() =~= key@.take(i as int));
            assert(key@.take(i + 1).last() == c);
        }
        if c == '{' || c == '=' {
            s.push('_');
        } else if c == '}' || c == '"' {
        } else {
            s.push(c);
        }
        i = i + 1;
    }
    assert(key@.take(i as int) =~= key@);
    s
}

/// Metrics beyond the fixed ones, by name and in the order of their names.
#[derive(Debug)]
pub struct ExtraMetrics {
    entries: Vec<(Vec<char>, MetricValue)>,
}

impl ExtraMetrics {
    /// The names stand in order and none occurs twice.
    pub open spec fn wf(&self) -> bool {
        names_ascend(self.listing())
    }

    /// The names and values in the order of the names.
    pub closed spec fn listing(&self) -> Seq<(Seq<char>, Seq<char>)> {
        self.entries@.map_values(|e: (Vec<char>, MetricValue)| (e.0@, value_text(e.1)))
    }

    /// No metrics.
    pub fn new() -> (m: ExtraMetrics)
        ensures
            m.wf(),
            m.listing() == Seq::<(Seq<char>, Seq<char>)>::empty(),
    {
        let m = ExtraMetrics { entries: Vec::new() };
        assert(m.listing() =~= Seq::empty());
        m
    }

    /// Adds a metric. An earlier value of the same name gives way.
    pub fn insert(&mut self, name: &str, value: MetricValue)
        requires
            old(self).wf(),
        ensures
            final(self).wf(),
            is_inserted(old(self).listing(), name@, value_text(value), final(self).listing()),
    {
        let key: Vec<char> = chars_of(name);
        let ghost before = self.entries@;
        proof {
            assert forall|i: int, j: int| 0 <= i < j < before.len() implies text_before(
                (#[trigger] before[i]).0@,
                (#[trigger] before[j]).0@,
            ) by {
                assert(text_before(self.listing()[i].0, self.listing()[j].0));
            }
        }
        let mut p: usize = 0;
        while p < self.entries.len() && goes_before(&self.entries[p].0, &key)
            invariant
                0 <= p <= self.entries@.len(),
                self.entries@ == before,
                key@ == name@,
                forall|i: int| 0 <= i < p ==> text_before((#[trigger] before[i]).0@, key@),
            decreases self.entries@.len() - p,
        {
            p = p + 1;
        }
        let ghost added = (key, value);
        let replaces: bool = p < self.entries.len() && !goes_before(&key, &self.entries[p].0);
        if replaces {
            self.entries.set(p, (key, value));
            proof {
                lemma_before_is_total(before[p as int].0@, name@);
                assert(self.entries@ =~= before.update(p as int, added));
                assert(old(self).listing()[p as int].0 == name@);
                assert(self.listing() =~= old(self).listing().update(
                    p as int,
                    (name@, value_text(value)),
                ));
            }
        } else {
            self.entries.insert(p, (key, value));
            proof {
                assert(self.entries@ =~= before.insert(p as int, added));
                assert(self.listing() =~= old(self).listing().insert(
                    p as int,
                    (name@, value_text(value)),
                ));
                assert forall|i: int| 0 <= i < before.len() implies before[i].0@ != name@ by {
                    lemma_before_is_total(before[i].0@, name@);
                    if i > p {
                        lemma_before_is_transitive(name@, before[p as int].0@, before[i].0@);
                    }
                }
                assert forall|i: int| 0 <= i < old(self).listing().len() implies (#[trigger] old(
                    self,
                ).listing()[i]).0 != name@ by {
                    assert(before[i].0@ != name@);
                }
            }
        }
        proof {
            assert forall|i: int, j: int| 0 <= i < j < self.entries@.len() implies text_before(
                (#[trigger] self.entries@[i]).0@,
                (#[trigger] self.entries@[j]).0@,
            ) by {
                if !replaces && i == p {
                    if j > p + 1 {
                        lemma_before_is_transitive(name@, before[p as int].0@, before[j - 1].0@);
                    }
                }
            }
            assert forall|i: int, j: int| 0 <= i < j < self.listing().len() implies text_before(
                (#[trigger] self.listing()[i]).0,
                (#[trigger] self.listing()[j]).0,
            ) by {
                assert(text_before(self.entries@[i].0@, self.entries@[j].0@));
            }
        }
    }

    fn append_json(&self, json: &mut String)
        ensures
            final(json)@ == old(json)@ + extras_text(self.listing()),
    {
        let ghost all = self.listing();
        let mut i: usize = 0;
        assert(all.take(0) =~= Seq::empty());
        assert(json@ + extras_text(all.take(0)) =~= json@);
        while i < self.entries.len()
            invariant
                all == self.listing(),
                0 <= i <= self.entries@.len(),
                json@ == old(json)@ + extras_text(all.take(i as int)),
            decreases self.entries@.len() - i,
        {
            let ghost before = json@;
            json.append(",\"");
            let key = sanitize(&self.entries[i].0);
            json.append(key.as_str());
            json.append("\":");
            match &self.entries[i].1 {
                MetricValue::Whole(n) => {
                    let number = signed_decimal_string(*n);
                    json.append(number.as_str());
                },
                MetricValue::Printed(s) => {
                    json.append(s.as_str());
                },
            }
            proof {
                let next = all.take(i + 1);
                assert(next.drop_last() =~= all.take(i as int));
                assert(next.last() == all[i as int]);
                assert(json@ =~= old(json)@ + (extras_text(all.take(i as int)) + ",\""@
                    + sanitized(all[i as int].0) + "\":"@ + all[i as int].1));
            }
            i = i + 1;
        }
        assert(all.take(i as int) =~= all);
    }
}

/// Whether the names of a listing stand in strictly ascending order.
pub open spec fn names_ascend(listing: Seq<(Seq<char>, Seq<char>)>) -> bool {
    forall|i: int, j: int|
        0 <= i < j < listing.len() ==> text_before(
            (#[trigger] listing[i]).0,
            (#[trigger] listing[j]).0,
        )
}

/// Whether a listing is another with one metric added: in the place of an
/// earlier value of its name, or else as a further one.
pub open spec fn is_inserted(
    before: Seq<(Seq<char>, Seq<char>)>,
    name: Seq<char>,
    value: Seq<char>,
    after: Seq<(Seq<char>, Seq<char>)>,
) -> bool {
    ||| exists|p: int|
        0 <= p < before.len() && (#[trigger] before[p]).0 == name && after == before.update(
            p,
            (name, value),
        )
    ||| {
        &&& forall|i: int| 0 <= i < before.len() ==> (#[trigger] before[i]).0 != name
        &&& exists|p: int|
            0 <= p <= before.len() && after == #[trigger] before.insert(p, (name, value))
    }
}

/// The order of the names settles where a metric goes: adding one has a single
/// outcome.
pub proof fn law_insert_has_one_outcome(
    before: Seq<(Seq<char>, Seq<char>)>,
    name: Seq<char>,
    value: Seq<char>,
    one: Seq<(Seq<char>, Seq<char>)>,
    other: Seq<(Seq<char>, Seq<char>)>,
)
    requires
        names_ascend(before),
        is_inserted(before, name, value, one),
        is_inserted(before, name, value, other),
        names_ascend(one),
        names_ascend(other),
    ensures
        one == other,
{
    if exists|p: int| 0 <= p < before.len() && (#[trigger] before[p]).0 == name {
        let p = choose|p: int| 0 <= p < before.len() && (#[trigger] before[p]).0 == name;
        lemma_before_is_total(name, name);
        assert forall|q: int| 0 <= q < before.len() && (#[trigger] before[q]).0 == name implies q
            == p by {
            if q < p {
                assert(text_before(before[q].0, before[p].0));
            } else if p < q {
                assert(text_before(before[p].0, before[q].0));
            }
        }
    } else {
        let p = choose|p: int|
            0 <= p <= before.len() && one == #[trigger] before.insert(p, (name, value));
        let q = choose|q: int|
            0 <= q <= before.len() && other == #[trigger] before.insert(q, (name, value));
        if p < q {
            lemma_places_agree(before, name, value, p, q);
        } else {
            lemma_places_agree(before, name, value, q, p);
        }
    }
}

proof fn lemma_places_agree(
    before: Seq<(Seq<char>, Seq<char>)>,
    name: Seq<char>,
    value: Seq<char>,
    p: int,
    q: int,
)
    requires
        0 <= p <= q <= before.len(),
        names_ascend(before.insert(p, (name, value))),
        names_ascend(before.insert(q, (name, value))),
    ensures
        p == q,
{
    if p < q {
        let one = before.insert(p, (name, value));
        let other = before.insert(q, (name, value));
        assert(text_before(one[p].0, one[p + 1].0));
        assert(text_before(other[p].0, other[q].0));
        lemma_before_is_total(name, before[p].0);
    }
}

/// Further metrics in the results file.
pub open spec fn extras_text(listing: Seq<(Seq<char>, Seq<char>)>) -> Seq<char>
    decreases listing.len(),
{
    if listing.len() == 0 {
        Seq::empty()
    } else {
        extras_text(listing.drop_last()) + ",\""@ + sanitized(listing.last().0) + "\":"@
            + listing.last().1
    }
}

/// One health sample, with its time as it is printed.
#[derive(Debug)]
pub struct HealthSample {
    pub elapsed_secs: String,
    pub active_connections: u64,
    pub events_processed: u64,
    pub journal_sequence: u64,
    pub replication_lag: u64,
    pub input_queue_depth: u64,
    pub input_queue_capacity: u64,
    pub pipeline_healthy: bool,
    pub trading_active: bool,
    pub extra: ExtraMetrics,
}

/// What the poller collected.
#[derive(Debug)]
pub struct HealthReport {
    pub samples: Vec<HealthSample>,
    /// Polls without an answer.
    pub dropped: u64,
}

impl Default for HealthReport {
    fn default() -> (r: HealthReport)
        ensures
            r.samples@ == Seq::<HealthSample>::empty(),
            r.dropped == 0,
    {
        HealthReport { samples: Vec::new(), dropped: 0 }
    }
}

/// A truth value in the results file.
pub open spec fn truth(b: bool) -> Seq<char> {
    if b {
        "true"@
    } else {
        "false"@
    }
}

fn truth_text(b: bool) -> (s: &'static str)
    ensures
        s@ == truth(b),
{
    if b {
        "true"
    } else {
        "false"
    }
}

/// A sample in the results file.
pub open spec fn health_sample_text(s: HealthSample) -> Seq<char> {
    "{\"elapsed_secs\":"@ + s.elapsed_secs@ + ",\"active_connections\":"@ + decimal(
        s.active_connections as nat,
    ) + ",\"events_processed\":"@ + decimal(s.events_processed as nat) + ",\"journal_sequence\":"@
        + decimal(s.journal_sequence as nat) + ",\"replication_lag\":"@ + decimal(
        s.replication_lag as nat,
    ) + ",\"input_queue_depth\":"@ + decimal(s.input_queue_depth as nat)
        + ",\"input_queue_capacity\":"@ + decimal(s.input_queue_capacity as nat)
        + ",\"pipeline_healthy\":"@ + truth(s.pipeline_healthy) + ",\"trading_active\":"@ + truth(
        s.trading_active,
    ) + extras_text(s.extra.listing()) + "}"@
}

/// Samples in the results file, each behind a comma but the first.
pub open spec fn samples_text(samples: Seq<HealthSample>) -> Seq<char>
    decreases samples.len(),
{
    if samples.len() == 0 {
        Seq::empty()
    } else if samples.len() == 1 {
        health_sample_text(samples[0])
    } else {
        samples_text(samples.drop_last()) + ","@ + health_sample_text(samples.last())
    }
}

fn append_number(json: &mut String, key: &str, n: u64)
    ensures
        final(json)@ == old(json)@ + key@ + decimal(n as nat),
{
    json.append(key);
    json.append(decimal_string(n).as_str());
}

fn sample_json(s: &HealthSample) -> (json: String)
    ensures
        json@ == health_sample_text(*s),
{
    let mut json: String = "{\"elapsed_secs\":".to_owned();
    json.append(s.elapsed_secs.as_str());
    append_number(&mut json, ",\"active_connections\":", s.active_connections);
    append_number(&mut json, ",\"events_processed\":", s.events_processed);
    append_number(&mut json, ",\"journal_sequence\":", s.journal_sequence);
    append_number(&mut json, ",\"replication_lag\":", s.replication_lag);
    append_number(&mut json, ",\"input_queue_depth\":", s.input_queue_depth);
    append_number(&mut json, ",\"input_queue_capacity\":", s.input_queue_capacity);
    json.append(",\"pipeline_healthy\":");
    json.append(truth_text(s.pipeline_healthy));
    json.append(",\"trading_active\":");
    json.append(truth_text(s.trading_active));
    s.extra.append_json(&mut json);
    json.append("}");
    json
}

/// The `health` array of the results file.
pub fn health_json(health: &HealthReport) -> (json: String)
    ensures
        json@ == "["@ + samples_text(health.samples@) + "]"@,
{
    let ghost samples = health.samples@;
    let mut json: String = "[".to_owned();
    let mut i: usize = 0;
    assert(samples.take(0) =~= Seq::empty());
    assert("["@ + samples_text(samples.take(0)) =~= "["@);
    while i < health.samples.len()
        invariant
            samples == health.samples@,
            0 <= i <= samples.len(),
            json@ == "["@ + samples_text(samples.take(i as int)),
        decreases samples.len() - i,
    {
        if i > 0 {
            json.append(",");
        }
        let sample = sample_json(&health.samples[i]);
        json.append(sample.as_str());
        proof {
            let next = samples.take(i + 1);
            assert(next.drop_last() =~= samples.take(i as int));
            assert(next.last() == samples[i as int]);
            if i > 0 {
                assert(json@ =~= "["@ + (samples_text(samples.take(i as int)) + ","@
                    + health_sample_text(samples[i as int])));
            }
        }
        i = i + 1;
    }
    assert(samples.take(i as int) =~= samples);
    json.append("]");
    json
}

/// What a summary says about the server's health.
#[derive(Clone, Copy, Debug, PartialEq, Eq, Structural)]
pub struct HealthSummary {
    pub samples: usize,
    pub dropped: u64,
    pub peak_depth: u64,
    pub capacity: u64,
    pub final_events: u64,
}

/// The greatest queue depth among some samples.
pub open spec fn peak_depth(samples: Seq<HealthSample>) -> u64
    decreases samples.len(),
{
    if samples.len() == 0 {
        0
    } else {
        let before = peak_depth(samples.drop_last());
        if samples.last().input_queue_depth > before {
            samples.last().input_queue_depth
        } else {
            before
        }
    }
}

/// The greatest queue capacity among some samples.
pub open spec fn peak_capacity(samples: Seq<HealthSample>) -> u64
    decreases samples.len(),
{
    if samples.len() == 0 {
        0
    } else {
        let before = peak_capacity(samples.drop_last());
        if samples.last().input_queue_capacity > before {
            samples.last().input_queue_capacity
        } else {
            before
        }
    }
}

/// What a summary says about the server's health. It says nothing where
/// nothing was polled; polls without an answer alone still show.
pub fn health_summary(health: &HealthReport) -> (summary: Option<HealthSummary>)
    ensures
        summary == (if health.samples@.len() == 0 && health.dropped == 0 {
            None
        } else {
            Some(
                HealthSummary {
                    samples: health.samples@.len() as usize,
                    dropped: health.dropped,
                    peak_depth: peak_depth(health.samples@),
                    capacity: peak_capacity(health.samples@),
                    final_events: if health.samples@.len() == 0 {
                        0
                    } else {
                        health.samples@.last().events_processed
                    },
                },
            )
        }),
{
    let n: usize = health.samples.len();
    if n == 0 && health.dropped == 0 {
        return None;
    }
    let ghost samples = health.samples@;
    let mut depth: u64 = 0;
    let mut capacity: u64 = 0;
    let mut i: usize = 0;
    while i < n
        invariant
            samples == health.samples@,
            n == samples.len(),
            0 <= i <= n,
            depth == peak_depth(samples.take(i as int)),
            capacity == peak_capacity(samples.take(i as int)),
        decreases n - i,
    {
        proof {
            assert(samples.take(i + 1).drop_last() =~= samples.take(i as int));
            assert(samples.take(i + 1).last() == samples[i as int]);
        }
        if health.samples[i].input_queue_depth > depth {
            depth = health.samples[i].input_queue_depth;
        }
        if health.samples[i].input_queue_capacity > capacity {
            capacity = health.samples[i].input_queue_capacity;
        }
        i = i + 1;
    }
    assert(samples.take(n as int) =~= samples);
    let final_events: u64 = if n == 0 {
        0
    } else {
        health.samples[n - 1].events_processed
    };
    Some(
        HealthSummary {
            samples: n,
            dropped: health.dropped,
            peak_depth: depth,
            capacity,
            final_events,
        },
    )
}

/// Metrics come out in the order of their names, whatever the order in which
/// they were collected.
pub proof fn law_metrics_stand_in_order(m: ExtraMetrics, i: int, j: int)
    requires
        m.wf(),
        0 <= i < j < m.listing().len(),
    ensures
        text_before(m.listing()[i].0, m.listing()[j].0),
        m.listing()[i].0 != m.listing()[j].0,
{
    lemma_before_is_total(m.listing()[i].0, m.listing()[j].0);
    assert(m.listing()[i].0 == m.entries@[i].0@);
    assert(m.listing()[j].0 == m.entries@[j].0@);
}

/// A key of the results file holds none of the characters that would end it
/// or that only labels use.
pub proof fn law_sanitized_key_is_plain(key: Seq<char>, i: int)
    requires
        0 <= i < sanitized(key).len(),
    ensures
        ({
            let c = sanitized(key)[i];
            c != '{' && c != '}' && c != '=' && c != '"'
        }),
    decreases key.len(),
{
    if key.len() > 0 {
        let before = sanitized(key.drop_last());
        if i < before.len() {
            law_sanitized_key_is_plain(key.drop_last(), i);
        }
    }
}

/// Names are ordered by their first letter that differs, and a name stands
/// before every longer one that starts with it.
pub proof fn law_names_are_ordered_by_letters(
    same: Seq<char>,
    x: char,
    y: char,
    a: Seq<char>,
    b: Seq<char>,
)
    ensures
        (x as int) < (y as int) ==> text_before(same.push(x) + a, same.push(y) + b),
        (y as int) < (x as int) ==> !text_before(same.push(x) + a, same.push(y) + b),
        text_before(same, same.push(x) + a),
        !text_before(same.push(x) + a, same),
    decreases same.len(),
{
    let first = same.push(x) + a;
    let second = same.push(y) + b;
    if same.len() > 0 {
        let rest = same.skip(1);
        law_names_are_ordered_by_letters(rest, x, y, a, b);
        assert(first.skip(1) =~= rest.push(x) + a);
        assert(second.skip(1) =~= rest.push(y) + b);
        assert(first[0] == same[0] && second[0] == same[0]);
    } else {
        assert(first[0] == x && second[0] == y);
    }
}

/// A whole number is written with its sign, and a printed one as it is.
pub proof fn law_metric_values_are_written(n: i64, printed: String)
    ensures
        n >= 0 ==> value_text(MetricValue::Whole(n)) == decimal(n as nat),
        n < 0 ==> value_text(MetricValue::Whole(n)) == seq!['-'] + decimal((-n) as nat),
        value_text(MetricValue::Printed(printed)) == printed@,
{
    if n < 0 {
        crate::text_laws::law_sign_comes_first((-n) as nat);
    }
}

/// An inserted metric is listed with its value under its name, once; every
/// other metric stays as it was, and the names still ascend.
#[verifier::rlimit(40)]
pub proof fn law_inserted_metric_is_listed(
    m: &mut ExtraMetrics,
    name: &str,
    value: MetricValue,
    other: (Seq<char>, Seq<char>),
)
    requires
        call_ensures(ExtraMetrics::insert, (m, name, value), ()),
    ensures
        final(m).listing().contains((name@, value_text(value))),
        other.0 != name@ ==> (final(m).listing().contains(other) <==> old(m).listing().contains(
            other,
        )),
        other.0 == name@ && final(m).listing().contains(other) ==> other.1 == value_text(value),
        names_ascend(final(m).listing()),
{
    let (before, after) = (old(m).listing(), final(m).listing());
    let entry = (name@, value_text(value));
    if exists|p: int|
        0 <= p < before.len() && (#[trigger] before[p]).0 == name@ && after == before.update(
            p,
            entry,
        ) {
        let p = choose|p: int|
            0 <= p < before.len() && (#[trigger] before[p]).0 == name@ && after == before.update(
                p,
                entry,
            );
        assert(after[p] == entry);
        if other.0 != name@ && before.contains(other) {
            let i = choose|i: int| 0 <= i < before.len() && before[i] == other;
            assert(after[i] == other);
        }
        if other.0 != name@ && after.contains(other) {
            let i = choose|i: int| 0 <= i < after.len() && after[i] == other;
            assert(before[i] == other);
        }
        if other.0 == name@ && after.contains(other) {
            let i = choose|i: int| 0 <= i < after.len() && after[i] == other;
            if i < p {
                assert(text_before(after[i].0, after[p].0));
            }
            if p < i {
                assert(text_before(after[p].0, after[i].0));
            }
            lemma_before_is_total(name@, name@);
        }
    } else {
        let p = choose|p: int|
            0 <= p <= before.len() && after == #[trigger] before.insert(p, entry);
        assert(after[p] == entry);
        if other.0 != name@ && before.contains(other) {
            let i = choose|i: int| 0 <= i < before.len() && before[i] == other;
            if i < p {
                assert(after[i] == other);
            } else {
                assert(after[i + 1] == other);
            }
        }
        if after.contains(other) {
            let i = choose|i: int| 0 <= i < after.len() && after[i] == other;
            if i < p {
                assert(before[i] == other);
            } else if i > p {
                assert(before[i - 1] == other);
            }
        }
    }
}

/// A summary counts the samples and the dropped ones, keeps the largest depth
/// and capacity and the last count of events; without either there is none.
pub proof fn law_summary_of_health(health: &HealthReport, summary: Option<HealthSummary>, i: int)
    requires
        call_ensures(health_summary, (health,), summary),
        0 <= i < health.samples@.len(),
    ensures
        summary matches Some(s) && s.samples == health.samples@.len() && s.dropped == health.dropped
            && health.samples@[i].input_queue_depth <= s.peak_depth
            && health.samples@[i].input_queue_capacity <= s.capacity && s.final_events
            == health.samples@[health.samples@.len() - 1].events_processed,
{
    assert(health.samples.len() == health.samples@.len());
    crate::bench::results_laws::law_peaks_are_the_largest(health.samples@);
}

} // verus!
