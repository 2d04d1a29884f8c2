//! Core lists with one `thread=core` entry for each thread.

use vstd::prelude::*;
use vstd::string::StringExecFns;

use crate::text::{
    chars_of, decimal, decimal_string, find_char, first_of, is_digit, is_space,
    law_decimal_reads_back, lemma_decimal_digits, lemma_split_append, parse_number, parse_usize,
    part, same_text, split, split_by, string_of, texts, trim, trimmed,
};

verus! {

/// What is wrong with a core list.
pub ghost enum CoreListFault {
    /// A bare number, as in a positional list.
    Positional,
    /// An entry without an equals sign.
    Malformed(Seq<char>),
    /// A thread that is not in the list of names.
    Unknown(Seq<char>),
    /// A thread with a second entry.
    Twice(Seq<char>),
    /// A core that is not a number: the thread and the text.
    BadCore(Seq<char>, Seq<char>),
    /// Threads without an entry.
    Missing(Seq<Seq<char>>),
}

/// Texts one after the other with a separator in between.
pub open spec fn joined(parts: Seq<Seq<char>>, sep: Seq<char>) -> Seq<char>
    decreases parts.len(),
{
    if parts.len() == 0 {
        Seq::empty()
    } else if parts.len() == 1 {
        parts[0]
    } else {
        joined(parts.drop_last(), sep) + sep + parts.last()
    }
}

/// The `name=number` entries of an example list, numbered from 1.
pub open spec fn example_entries(names: Seq<Seq<char>>) -> Seq<Seq<char>> {
    Seq::new(names.len(), |i: int| names[i] + "="@ + decimal((i + 1) as nat))
}

/// The message for a fault.
pub open spec fn fault_text(flag: Seq<char>, names: Seq<Seq<char>>, fault: CoreListFault) -> Seq<
    char,
> {
    match fault {
        CoreListFault::Positional => flag + " takes named entries in any order ("@ + joined(
            example_entries(names),
            ","@,
        ) + "), not a positional list; `none` unpins every thread"@,
        CoreListFault::Malformed(entry) => flag + ": invalid entry `"@ + entry
            + "`, expected `thread=core`"@,
        CoreListFault::Unknown(name) => flag + ": unknown thread `"@ + name
            + "`; the threads are "@ + joined(names, ", "@),
        CoreListFault::Twice(name) => flag + ": `"@ + name + "` is named twice"@,
        CoreListFault::BadCore(name, core) => flag + ": "@ + name + ": invalid core ID `"@ + core
            + "`"@,
        CoreListFault::Missing(threads) => flag + ": no core for "@ + joined(threads, ", "@)
            + "; every thread needs an entry (`0` leaves it unpinned)"@,
    }
}

/// Position of a name in a list, the length where it is not in it.
pub open spec fn position(names: Seq<Seq<char>>, name: Seq<char>) -> int
    decreases names.len(),
{
    if names.len() == 0 || names[0] == name {
        0
    } else {
        1 + position(names.skip(1), name)
    }
}

/// One entry put into the cores gathered so far.
pub open spec fn entry_step(
    names: Seq<Seq<char>>,
    cores: Seq<Option<usize>>,
    entry: Seq<char>,
) -> Result<Seq<Option<usize>>, CoreListFault> {
    let eq = first_of(entry, '=');
    if eq >= entry.len() {
        if parse_number(entry, usize::MAX as nat) is Some {
            Err(CoreListFault::Positional)
        } else {
            Err(CoreListFault::Malformed(entry))
        }
    } else {
        let name = entry.take(eq);
        let core = entry.skip(eq + 1);
        let slot = position(names, name);
        if slot >= names.len() {
            Err(CoreListFault::Unknown(name))
        } else if cores[slot] is Some {
            Err(CoreListFault::Twice(name))
        } else {
            match parse_number(core, usize::MAX as nat) {
                Some(n) => Ok(cores.update(slot, Some(n as usize))),
                None => Err(CoreListFault::BadCore(name, core)),
            }
        }
    }
}

/// The entries one after the other, up to the first fault.
pub open spec fn gather(names: Seq<Seq<char>>, entries: Seq<Seq<char>>) -> Result<
    Seq<Option<usize>>,
    CoreListFault,
>
    decreases entries.len(),
{
    if entries.len() == 0 {
        Ok(Seq::new(names.len(), |i: int| None))
    } else {
        match gather(names, entries.drop_last()) {
            Ok(cores) => entry_step(names, cores, trim(entries.last())),
            Err(fault) => Err(fault),
        }
    }
}

/// The names without a core.
pub open spec fn missing(names: Seq<Seq<char>>, cores: Seq<Option<usize>>) -> Seq<Seq<char>>
    decreases names.len(),
{
    if names.len() == 0 {
        Seq::empty()
    } else {
        let rest = missing(names.drop_last(), cores.drop_last());
        if cores.last() is None {
            rest.push(names.last())
        } else {
            rest
        }
    }
}

/// What a core list says: one core for each name, in the order of the names.
pub open spec fn named_cores(spec: Seq<char>, names: Seq<Seq<char>>) -> Result<
    Seq<usize>,
    CoreListFault,
> {
    if trim(spec) == "none"@ {
        Ok(Seq::new(names.len(), |i: int| 0))
    } else {
        match gather(names, split(spec, ',')) {
            Err(fault) => Err(fault),
            Ok(cores) => if missing(names, cores).len() > 0 {
                Err(CoreListFault::Missing(missing(names, cores)))
            } else {
                Ok(Seq::new(names.len(), |i: int| cores[i].unwrap()))
            },
        }
    }
}

/// The model of a list of names.
pub open spec fn name_texts(names: Seq<&str>) -> Seq<Seq<char>> {
    names.map_values(|n: &str| n@)
}

fn names_of(names: &[&str]) -> (v: Vec<Vec<char>>)
    ensures
        texts(v@) == name_texts(names@),
{
    let mut v: Vec<Vec<char>> = Vec::new();
    let mut i: usize = 0;
    while i < names.len()
        invariant
            0 <= i <= names@.len(),
            v@.len() == i,
            forall|j: int| 0 <= j < i ==> (#[trigger] v@[j])@ == names@[j]@,
        decreases names@.len() - i,
    {
        v.push(chars_of(names[i]));
        i = i + 1;
    }
    assert(texts(v@) =~= name_texts(names@));
    v
}

fn join(parts: &Vec<Vec<char>>, sep: &str) -> (s: String)
    ensures
        s@ == joined(texts(parts@), sep@),
{
    let mut s: String = String::new();
    let mut i: usize = 0;
    let ghost all = texts(parts@);
    assert(all.take(0) =~= Seq::empty());
    while i < parts.len()
        invariant
            0 <= i <= parts@.len(),
            all == texts(parts@),
            s@ == joined(all.take(i as int), sep@),
        decreases parts@.len() - i,
    {
        if i > 0 {
            s.append(sep);
        }
        let piece: String = string_of(&parts[i]);
        s.append(piece.as_str());
        proof {
            assert(all.take(i + 1).drop_last() =~= all.take(i as int));
            assert(all.take(i + 1).last() == all[i as int]);
            assert(Seq::<char>::empty() + all[0] =~= all[0]);
        }
        i = i + 1;
    }
    assert(all.take(i as int) =~= all);
    s
}

/// `a=1,b=2,...` over the names.
fn example(names: &Vec<Vec<char>>) -> (s: String)
    ensures
        s@ == joined(example_entries(texts(names@)), ","@),
{
    let mut entries: Vec<Vec<char>> = Vec::new();
    let mut i: usize = 0;
    while i < names.len()
        invariant
            0 <= i <= names@.len(),
            entries@.len() == i,
            forall|j: int|
                0 <= j < i ==> (#[trigger] entries@[j])@ == example_entries(texts(names@))[j],
        decreases names@.len() - i,
    {
        let mut entry: String = string_of(&names[i]);
        entry.append("=");
        let number: String = decimal_string(i as u64 + 1);
        entry.append(number.as_str());
        entries.push(chars_of(entry.as_str()));
        i = i + 1;
    }
    assert(texts(entries@) =~= example_entries(texts(names@)));
    join(&entries, ",")
}

fn position_of(names: &Vec<Vec<char>>, name: &Vec<char>) -> (i: usize)
    ensures
        i == position(texts(names@), name@),
        i <= names@.len(),
{
    let ghost all = texts(names@);
    let mut i: usize = 0;
    assert(all.skip(0) =~= all);
    while i < names.len()
        invariant
            all == texts(names@),
            0 <= i <= names@.len(),
            position(all, name@) == i + position(all.skip(i as int), name@),
        decreases names@.len() - i,
    {
        assert(all.skip(i as int)[0] == all[i as int]);
        assert(all.skip(i as int).skip(1) =~= all.skip(i + 1));
        if same_text(&names[i], name) {
            return i;
        }
        i = i + 1;
    }
    i
}

/// Puts one entry into the cores gathered so far.
fn put_entry(
    flag: &str,
    names: &Vec<Vec<char>>,
    cores: &mut Vec<Option<usize>>,
    entry: &Vec<char>,
) -> (r: Result<(), String>)
    requires
        old(cores)@.len() == names@.len(),
    ensures
        match (r, entry_step(texts(names@), old(cores)@, entry@)) {
            (Ok(_), Ok(after)) => final(cores)@ == after,
            (Err(text), Err(fault)) => text@ == fault_text(flag@, texts(names@), fault),
            _ => false,
        },
        final(cores)@.len() == names@.len(),
{
    let eq: usize = find_char(entry, '=');
    if eq >= entry.len() {
        let mut text: String = flag.to_owned();
        if parse_usize(entry).is_some() {
            text.append(" takes named entries in any order (");
            let list: String = example(names);
            text.append(list.as_str());
            text.append("), not a positional list; `none` unpins every thread");
        } else {
            text.append(": invalid entry `");
            let shown: String = string_of(entry);
            text.append(shown.as_str());
            text.append("`, expected `thread=core`");
        }
        return Err(text);
    }
    let name: Vec<char> = part(entry, 0, eq);
    let core: Vec<char> = part(entry, eq + 1, entry.len());
    assert(name@ =~= entry@.take(eq as int));
    assert(core@ =~= entry@.skip(eq + 1));
    let shown: String = string_of(&name);
    let slot: usize = position_of(names, &name);
    if slot >= names.len() {
        let mut text: String = flag.to_owned();
        text.append(": unknown thread `");
        text.append(shown.as_str());
        text.append("`; the threads are ");
        let list: String = join(names, ", ");
        text.append(list.as_str());
        return Err(text);
    }
    if cores[slot].is_some() {
        let mut text: String = flag.to_owned();
        text.append(": `");
        text.append(shown.as_str());
        text.append("` is named twice");
        return Err(text);
    }
    match parse_usize(&core) {
        Some(n) => {
            cores[slot] = Some(n);
            Ok(())
        },
        None => {
            let mut text: String = flag.to_owned();
            text.append(": ");
            text.append(shown.as_str());
            text.append(": invalid core ID `");
            let bad: String = string_of(&core);
            text.append(bad.as_str());
            text.append("`");
            Err(text)
        },
    }
}

fn missing_names(names: &Vec<Vec<char>>, cores: &Vec<Option<usize>>) -> (v: Vec<Vec<char>>)
    requires
        cores@.len() == names@.len(),
    ensures
        texts(v@) == missing(texts(names@), cores@),
{
    let ghost all = texts(names@);
    let mut v: Vec<Vec<char>> = Vec::new();
    let mut i: usize = 0;
    assert(all.take(0) =~= Seq::empty());
    assert(texts(v@) =~= Seq::empty());
    while i < names.len()
        invariant
            all == texts(names@),
            cores@.len() == names@.len(),
            0 <= i <= names@.len(),
            texts(v@) == missing(all.take(i as int), cores@.take(i as int)),
        decreases names@.len() - i,
    {
        proof {
            assert(all.take(i + 1).drop_last() =~= all.take(i as int));
            assert(cores@.take(i + 1).drop_last() =~= cores@.take(i as int));
            assert(all.take(i + 1).last() == all[i as int]);
            assert(cores@.take(i + 1).last() == cores@[i as int]);
        }
        if cores[i].is_none() {
            let ghost before = texts(v@);
            let copy: Vec<char> = part(&names[i], 0, names[i].len());
            assert(copy@ =~= all[i as int]);
            v.push(copy);
            assert(texts(v@) =~= before.push(all[i as int]));
        }
        i = i + 1;
    }
    assert(all.take(i as int) =~= all);
    assert(cores@.take(i as int) =~= cores@);
    v
}

/// Parses `spec` as `name=core` entries in any order, one for each thread in
/// `names`, and gives one core for each name in the order of `names`. Core 0
/// leaves a thread unpinned; `none` leaves all of them unpinned. The text of
/// an error starts with `flag`.
pub fn parse_named_cores(flag: &str, spec: &str, names: &[&str]) -> (r: Result<Vec<usize>, String>)
    ensures
        match (r, named_cores(spec@, name_texts(names@))) {
            (Ok(v), Ok(cores)) => v@ == cores,
            (Err(text), Err(fault)) => text@ == fault_text(flag@, name_texts(names@), fault),
            _ => false,
        },
{
    let threads: Vec<Vec<char>> = names_of(names);
    let ghost all = texts(threads@);
    let list: Vec<char> = chars_of(spec);
    let none: Vec<char> = chars_of("none");
    if same_text(&trimmed(&list), &none) {
        let mut v: Vec<usize> = Vec::new();
        let mut i: usize = 0;
        while i < threads.len()
            invariant
                0 <= i <= threads@.len(),
                v@.len() == i,
                forall|j: int| 0 <= j < i ==> v@[j] == 0,
            decreases threads@.len() - i,
        {
            v.push(0);
            i = i + 1;
        }
        assert(v@ =~= Seq::new(all.len(), |i: int| 0usize));
        return Ok(v);
    }
    let mut cores: Vec<Option<usize>> = Vec::new();
    let mut i: usize = 0;
    while i < threads.len()
        invariant
            0 <= i <= threads@.len(),
            cores@.len() == i,
            forall|j: int| 0 <= j < i ==> cores@[j] == None::<usize>,
        decreases threads@.len() - i,
    {
        cores.push(None);
        i = i + 1;
    }
    let entries: Vec<Vec<char>> = split_by(&list, ',');
    let ghost parts = texts(entries@);
    let mut k: usize = 0;
    assert(parts.take(0) =~= Seq::empty());
    assert(cores@ =~= Seq::new(all.len(), |i: int| None::<usize>));
    while k < entries.len()
        invariant
            0 <= k <= entries@.len(),
            all == texts(threads@),
            all == name_texts(names@),
            parts == texts(entries@),
            parts == split(spec@, ','),
            trim(spec@) != "none"@,
            cores@.len() == threads@.len(),
            gather(all, parts.take(k as int)) == Ok::<Seq<Option<usize>>, CoreListFault>(cores@),
        decreases entries@.len() - k,
    {
        proof {
            assert(parts.take(k + 1).drop_last() =~= parts.take(k as int));
            assert(parts.take(k + 1).last() == parts[k as int]);
        }
        let entry: Vec<char> = trimmed(&entries[k]);
        match put_entry(flag, &threads, &mut cores, &entry) {
            Ok(_) => {},
            Err(text) => {
                proof {
                    lemma_gather_fault(all, parts, k + 1);
                }
                return Err(text);
            },
        }
        k = k + 1;
    }
    assert(parts.take(k as int) =~= parts);
    let absent: Vec<Vec<char>> = missing_names(&threads, &cores);
    if absent.len() > 0 {
        let mut text: String = flag.to_owned();
        text.append(": no core for ");
        let shown: String = join(&absent, ", ");
        text.append(shown.as_str());
        text.append("; every thread needs an entry (`0` leaves it unpinned)");
        return Err(text);
    }
    let mut v: Vec<usize> = Vec::new();
    let mut n: usize = 0;
    proof {
        lemma_none_missing(all, cores@);
    }
    while n < cores.len()
        invariant
            0 <= n <= cores@.len(),
            forall|j: int| 0 <= j < cores@.len() ==> (#[trigger] cores@[j]) is Some,
            v@.len() == n,
            forall|j: int| 0 <= j < n ==> v@[j] == (#[trigger] cores@[j]).unwrap(),
        decreases cores@.len() - n,
    {
        v.push(cores[n].unwrap());
        n = n + 1;
    }
    assert(v@ =~= Seq::new(all.len(), |i: int| cores@[i].unwrap()));
    Ok(v)
}

/// A fault among the first entries is the fault of the list.
proof fn lemma_gather_fault(names: Seq<Seq<char>>, entries: Seq<Seq<char>>, k: int)
    requires
        0 <= k <= entries.len(),
        gather(names, entries.take(k)) is Err,
    ensures
        gather(names, entries) == gather(names, entries.take(k)),
    decreases entries.len(),
{
    if k == entries.len() {
        assert(entries.take(k) =~= entries);
    } else {
        assert(entries.drop_last().take(k) =~= entries.take(k));
        lemma_gather_fault(names, entries.drop_last(), k);
    }
}

proof fn lemma_none_missing(names: Seq<Seq<char>>, cores: Seq<Option<usize>>)
    requires
        names.len() == cores.len(),
        missing(names, cores).len() == 0,
    ensures
        forall|j: int| 0 <= j < cores.len() ==> (#[trigger] cores[j]) is Some,
    decreases names.len(),
{
    if names.len() > 0 {
        lemma_none_missing(names.drop_last(), cores.drop_last());
        assert forall|j: int| 0 <= j < cores.len() implies (#[trigger] cores[j]) is Some by {
            if j < cores.len() - 1 {
                assert(cores.drop_last()[j] == cores[j]);
            }
        }
    }
}

/// Every entry of an accepted list decides the core of the thread it names,
/// wherever it stands in the list.
pub proof fn law_entry_decides_its_thread(names: Seq<Seq<char>>, entries: Seq<Seq<char>>, k: int)
    requires
        gather(names, entries) is Ok,
        0 <= k < entries.len(),
    ensures
        ({
            let entry = trim(entries[k]);
            let eq = first_of(entry, '=');
            let slot = position(names, entry.take(eq));
            &&& eq < entry.len()
            &&& slot < names.len()
            &&& gather(names, entries)->Ok_0[slot] matches Some(core) && parse_number(
                entry.skip(eq + 1),
                usize::MAX as nat,
            ) == Some(core as nat)
        }),
    decreases entries.len(),
{
    lemma_gather_len(names, entries.drop_last());
    lemma_position_bounds(names, trim(entries[k]).take(first_of(trim(entries[k]), '=')));
    let last = trim(entries.last());
    lemma_position_bounds(names, last.take(first_of(last, '=')));
    assert(entry_step(names, gather(names, entries.drop_last())->Ok_0, last) is Ok);
    if k < entries.len() - 1 {
        assert(entries.drop_last()[k] == entries[k]);
        law_entry_decides_its_thread(names, entries.drop_last(), k);
    }
}

proof fn lemma_gather_len(names: Seq<Seq<char>>, entries: Seq<Seq<char>>)
    ensures
        gather(names, entries) matches Ok(cores) ==> cores.len() == names.len(),
    decreases entries.len(),
{
    if entries.len() > 0 {
        lemma_gather_len(names, entries.drop_last());
        let entry = trim(entries.last());
        lemma_position_bounds(names, entry.take(first_of(entry, '=')));
    }
}

proof fn lemma_position_bounds(names: Seq<Seq<char>>, name: Seq<char>)
    ensures
        0 <= position(names, name) <= names.len(),
    decreases names.len(),
{
    if names.len() > 0 {
        lemma_position_bounds(names.skip(1), name);
    }
}

/// Splitting joined parts gives the parts back.
proof fn lemma_joined_splits(parts: Seq<Seq<char>>)
    requires
        parts.len() > 0,
        forall|i: int| 0 <= i < parts.len() ==> !(#[trigger] parts[i]).contains(','),
    ensures
        split(joined(parts, ","@), ',') == parts,
    decreases parts.len(),
{
    reveal_strlit(",");
    let last = parts.last();
    assert(!parts[parts.len() - 1].contains(','));
    if parts.len() == 1 {
        let none = Seq::<char>::empty();
        lemma_split_append(none, ',', last);
        assert(none + last =~= last);
        assert(split(last, ',') =~= parts);
    } else {
        let front = parts.drop_last();
        assert forall|i: int| 0 <= i < front.len() implies !(#[trigger] front[i]).contains(',') by {
            assert(front[i] == parts[i]);
        }
        lemma_joined_splits(front);
        let s = joined(front, ","@);
        lemma_split_append(s, ',', last);
        assert(s + ","@ + last =~= s.push(',') + last);
        assert(front.push(last) =~= parts);
    }
}

/// Joined parts begin with the first part and end with the last.
proof fn lemma_joined_ends(parts: Seq<Seq<char>>)
    requires
        parts.len() > 0,
        forall|i: int| 0 <= i < parts.len() ==> (#[trigger] parts[i]).len() > 0,
    ensures
        joined(parts, ","@).len() > 0,
        joined(parts, ","@)[0] == parts[0][0],
        joined(parts, ","@).last() == parts.last().last(),
    decreases parts.len(),
{
    assert(parts[parts.len() - 1].len() > 0);
    if parts.len() > 1 {
        let front = parts.drop_last();
        assert forall|i: int| 0 <= i < front.len() implies (#[trigger] front[i]).len() > 0 by {
            assert(front[i] == parts[i]);
        }
        lemma_joined_ends(front);
    }
}

/// The first of a character that a text does not hold, in the text, the
/// character and whatever follows.
proof fn lemma_first_behind(s: Seq<char>, c: char, rest: Seq<char>)
    requires
        !s.contains(c),
    ensures
        first_of(s.push(c) + rest, c) == s.len(),
    decreases s.len(),
{
    let all = s.push(c) + rest;
    if s.len() > 0 {
        let tail = s.skip(1);
        assert forall|x: char| tail.contains(x) implies s.contains(x) by {
            let i = choose|i: int| 0 <= i < tail.len() && tail[i] == x;
            assert(s[i + 1] == x);
        }
        assert(s.contains(s[0]));
        lemma_first_behind(tail, c, rest);
        assert(all.skip(1) =~= tail.push(c) + rest);
    }
}

/// Names of which none occurs twice are found at their own place.
proof fn lemma_position_of_distinct(names: Seq<Seq<char>>, i: int)
    requires
        names.no_duplicates(),
        0 <= i < names.len(),
    ensures
        position(names, names[i]) == i,
    decreases names.len(),
{
    if i > 0 {
        let tail = names.skip(1);
        assert(tail.no_duplicates()) by {
            assert forall|a: int, b: int|
                0 <= a < tail.len() && 0 <= b < tail.len() && a != b implies tail[a] != tail[b] by {
                assert(names[a + 1] != names[b + 1]);
            }
        }
        assert(names[0] != names[i]);
        lemma_position_of_distinct(tail, i - 1);
        assert(tail[i - 1] == names[i]);
    }
}

/// Whether a text is a name that a core list can hold.
pub open spec fn is_thread_name(name: Seq<char>) -> bool {
    &&& !name.contains(',')
    &&& !name.contains('=')
    &&& name.len() > 0 ==> !is_space(name[0])
}

/// The cores of an example list after the first `k` entries.
spec fn example_cores(n: nat, k: int) -> Seq<Option<usize>> {
    Seq::new(
        n,
        |i: int|
            if i < k {
                Some((i + 1) as usize)
            } else {
                None
            },
    )
}

proof fn lemma_example_entry(names: Seq<Seq<char>>, i: int)
    requires
        0 <= i < names.len() <= usize::MAX,
        names.no_duplicates(),
        is_thread_name(names[i]),
    ensures
        ({
            let entry = example_entries(names)[i];
            &&& entry.len() > 0
            &&& !is_space(entry[0])
            &&& is_digit(entry.last())
            &&& !entry.contains(',')
            &&& trim(entry) == entry
            &&& entry_step(names, example_cores(names.len(), i), entry) == Ok::<
                Seq<Option<usize>>,
                CoreListFault,
            >(example_cores(names.len(), i + 1))
        }),
{
    reveal_strlit("=");
    let name = names[i];
    let number = decimal((i + 1) as nat);
    let entry = example_entries(names)[i];
    lemma_decimal_digits((i + 1) as nat);
    law_decimal_reads_back((i + 1) as nat, usize::MAX as nat);
    assert(entry =~= name.push('=') + number);
    lemma_first_behind(name, '=', number);
    assert(entry.take(name.len() as int) =~= name);
    assert(entry.skip(name.len() as int + 1) =~= number);
    assert(entry[0] == (if name.len() > 0 {
        name[0]
    } else {
        '='
    }));
    assert(entry.last() == number.last());
    assert(is_digit(number[number.len() - 1]));
    assert(!entry.contains(',')) by {
        if entry.contains(',') {
            let j = choose|j: int| 0 <= j < entry.len() && entry[j] == ',';
            if j < name.len() {
                assert(name[j] == ',');
            } else if j > name.len() {
                assert(is_digit(number[j - name.len() - 1]));
            }
        }
    }
    lemma_position_of_distinct(names, i);
    assert(example_cores(names.len(), i).update(i, Some((i + 1) as usize)) =~= example_cores(
        names.len(),
        i + 1,
    ));
}

proof fn lemma_example_gathers(names: Seq<Seq<char>>, k: int)
    requires
        0 <= k <= names.len() <= usize::MAX,
        names.no_duplicates(),
        forall|i: int| 0 <= i < names.len() ==> is_thread_name(#[trigger] names[i]),
    ensures
        gather(names, example_entries(names).take(k)) == Ok::<
            Seq<Option<usize>>,
            CoreListFault,
        >(example_cores(names.len(), k)),
    decreases k,
{
    let entries = example_entries(names).take(k);
    if k == 0 {
        assert(example_cores(names.len(), 0) =~= Seq::new(names.len(), |i: int| None::<usize>));
    } else {
        lemma_example_gathers(names, k - 1);
        assert(is_thread_name(names[k - 1]));
        lemma_example_entry(names, k - 1);
        assert(entries.drop_last() =~= example_entries(names).take(k - 1));
    }
}

proof fn lemma_nothing_missing(names: Seq<Seq<char>>, cores: Seq<Option<usize>>)
    requires
        names.len() == cores.len(),
        forall|j: int| 0 <= j < cores.len() ==> (#[trigger] cores[j]) is Some,
    ensures
        missing(names, cores).len() == 0,
    decreases names.len(),
{
    if names.len() > 0 {
        assert forall|j: int| 0 <= j < cores.drop_last().len() implies (
        #[trigger] cores.drop_last()[j]) is Some by {
            assert(cores.drop_last()[j] == cores[j]);
        }
        lemma_nothing_missing(names.drop_last(), cores.drop_last());
        assert(cores[cores.len() - 1] is Some);
    }
}

/// The list that the message on a positional list spells out is accepted, and
/// gives the threads the cores 1, 2 and so on.
pub proof fn law_example_is_accepted(names: Seq<Seq<char>>)
    requires
        0 < names.len() <= usize::MAX,
        names.no_duplicates(),
        forall|i: int| 0 <= i < names.len() ==> is_thread_name(#[trigger] names[i]),
    ensures
        named_cores(joined(example_entries(names), ","@), names) == Ok::<
            Seq<usize>,
            CoreListFault,
        >(Seq::new(names.len(), |i: int| (i + 1) as usize)),
{
    let entries = example_entries(names);
    let list = joined(entries, ","@);
    assert forall|i: int| 0 <= i < entries.len() implies (#[trigger] entries[i]).len() > 0
        && !entries[i].contains(',') && !is_space(entries[i][0]) && is_digit(
        entries[i].last(),
    ) by {
        assert(is_thread_name(names[i]));
        lemma_example_entry(names, i);
    }
    lemma_joined_splits(entries);
    lemma_joined_ends(entries);
    assert(!is_space(entries[0][0]));
    assert(is_digit(entries[entries.len() - 1].last()));
    assert(trim(list) == list);
    reveal_strlit("none");
    assert("none"@.last() == 'e');
    lemma_example_gathers(names, names.len() as int);
    assert(entries.take(names.len() as int) =~= entries);
    let cores = example_cores(names.len(), names.len() as int);
    lemma_nothing_missing(names, cores);
    assert(Seq::new(names.len(), |i: int| cores[i].unwrap()) =~= Seq::new(
        names.len(),
        |i: int| (i + 1) as usize,
    ));
}

} // verus!
