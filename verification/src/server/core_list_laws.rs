//! Laws of core lists: which entries decide which thread, which entry a list
//! is refused for, and what the message names.

use vstd::prelude::*;

use crate::server::named_cores::{
    entry_step, example_entries, fault_text, gather, joined, missing, name_texts, named_cores,
    parse_named_cores, position, CoreListFault,
};
use crate::text::{decimal, first_of, parse_number, split, trim};
use crate::text_laws::{law_first_position_is_found, lemma_says, says, stands_at};

verus! {

/// A thread is found at the first place its name has in the list, and not at
/// all where the list does not hold it.
pub proof fn law_thread_is_found_by_name(names: Seq<Seq<char>>, name: Seq<char>)
    ensures
        0 <= position(names, name) <= names.len(),
        position(names, name) < names.len() ==> names[position(names, name)] == name,
        forall|i: int| 0 <= i < position(names, name) ==> #[trigger] names[i] != name,
        position(names, name) == names.len() <==> !names.contains(name),
    decreases names.len(),
{
    if names.len() > 0 && names[0] != name {
        let tail = names.skip(1);
        law_thread_is_found_by_name(tail, name);
        let n = position(tail, name);
        assert(n < tail.len() ==> tail[n] == names[n + 1]);
        assert forall|i: int| 0 <= i < position(names, name) implies #[trigger] names[i]
            != name by {
            if i > 0 {
                assert(tail[i - 1] == names[i]);
            }
        }
        if names.contains(name) {
            let i = names.index_of(name);
            assert(tail[i - 1] == name);
        }
    }
    if position(names, name) < names.len() {
        assert(names[position(names, name)] == name);
    }
}

/// Whether an entry reads `name=core` with a number for its core.
pub open spec fn assigns(entry: Seq<char>, name: Seq<char>, core: usize) -> bool {
    exists|number: Seq<char>|
        {
            &&& entry == #[trigger] (name + seq!['='] + number)
            &&& !name.contains('=')
            &&& parse_number(number, usize::MAX as nat) == Some(core as nat)
        }
}

/// An entry with an equals sign is the name before the first one, that sign
/// and the core behind it.
proof fn lemma_parts(entry: Seq<char>)
    ensures
        ({
            let eq = first_of(entry, '=');
            &&& 0 <= eq <= entry.len()
            &&& eq == entry.len() <==> !entry.contains('=')
            &&& eq < entry.len() ==> entry == entry.take(eq) + seq!['='] + entry.skip(eq + 1)
            &&& !entry.take(eq).contains('=')
        }),
{
    law_first_position_is_found(entry, '=');
    let eq = first_of(entry, '=');
    if eq < entry.len() {
        assert(entry =~= entry.take(eq) + seq!['='] + entry.skip(eq + 1));
        assert(entry[eq] == '=');
    }
    if entry.contains('=') {
        let i = entry.index_of('=');
        assert(entry[i] == '=');
    }
    if entry.take(eq).contains('=') {
        let i = entry.take(eq).index_of('=');
        assert(entry[i] == '=');
    }
}

/// An entry is taken where it names a thread of the list that has no core yet,
/// and a number; then it gives that thread that core and no other anything.
/// Else the fault names what is wrong with it.
pub proof fn law_entry_is_taken_or_at_fault(
    names: Seq<Seq<char>>,
    cores: Seq<Option<usize>>,
    entry: Seq<char>,
)
    requires
        cores.len() == names.len(),
    ensures
        match entry_step(names, cores, entry) {
            Ok(after) => exists|i: int, core: usize|
                {
                    &&& 0 <= i < names.len()
                    &&& #[trigger] assigns(entry, names[i], core)
                    &&& cores[i] is None
                    &&& after == cores.update(i, Some(core))
                },
            Err(CoreListFault::Positional) => !entry.contains('=') && parse_number(
                entry,
                usize::MAX as nat,
            ) is Some,
            Err(CoreListFault::Malformed(shown)) => shown == entry && !entry.contains('=')
                && parse_number(entry, usize::MAX as nat) is None,
            Err(CoreListFault::Unknown(name)) => !names.contains(name) && entry.contains('=')
                && stands_at(entry, 0, name + seq!['=']),
            Err(CoreListFault::Twice(name)) => stands_at(entry, 0, name + seq!['=']) && exists|
                i: int,
            |
                0 <= i < names.len() && #[trigger] names[i] == name && cores[i] is Some,
            Err(CoreListFault::BadCore(name, core)) => {
                &&& names.contains(name)
                &&& entry == name + seq!['='] + core
                &&& parse_number(core, usize::MAX as nat) is None
            },
            Err(CoreListFault::Missing(_)) => false,
        },
{
    lemma_parts(entry);
    let eq = first_of(entry, '=');
    if eq < entry.len() {
        let name = entry.take(eq);
        let number = entry.skip(eq + 1);
        law_thread_is_found_by_name(names, name);
        let slot = position(names, name);
        assert(entry.subrange(0, eq + 1) =~= name + seq!['=']);
        assert((name + seq!['=']).len() == eq + 1);
        assert(entry[eq] == '=') by {
            assert((name + seq!['='] + number)[eq] == '=');
        }
        assert(entry.contains('='));
        if slot < names.len() {
            assert(names[slot] == name);
            if let Some(n) = parse_number(number, usize::MAX as nat) {
                assert(entry == names[slot] + seq!['='] + number);
                assert(assigns(entry, names[slot], n as usize));
            }
        }
    }
}

proof fn lemma_gathered_length(names: Seq<Seq<char>>, entries: Seq<Seq<char>>)
    ensures
        gather(names, entries) matches Ok(cores) ==> cores.len() == names.len(),
    decreases entries.len(),
{
    if entries.len() > 0 {
        lemma_gathered_length(names, entries.drop_last());
        if let Ok(before) = gather(names, entries.drop_last()) {
            law_entry_is_taken_or_at_fault(names, before, trim(entries.last()));
        }
    }
}

/// Whether an entry of a list gives a thread its core.
pub open spec fn given(names: Seq<Seq<char>>, entries: Seq<Seq<char>>, i: int, core: usize) -> bool {
    exists|k: int|
        0 <= k < entries.len() && #[trigger] assigns(trim(entries[k]), names[i], core)
}

/// A thread has a core only from an entry that names it.
pub proof fn law_core_comes_from_an_entry(names: Seq<Seq<char>>, entries: Seq<Seq<char>>, i: int)
    requires
        gather(names, entries) is Ok,
        0 <= i < names.len(),
    ensures
        gather(names, entries)->Ok_0[i] matches Some(core) ==> given(names, entries, i, core),
    decreases entries.len(),
{
    if entries.len() > 0 {
        let d = entries.drop_last();
        lemma_gathered_length(names, d);
        let before = gather(names, d)->Ok_0;
        let last = trim(entries.last());
        law_entry_is_taken_or_at_fault(names, before, last);
        law_core_comes_from_an_entry(names, d, i);
        let (j, c) = choose|j: int, c: usize|
            {
                &&& 0 <= j < names.len()
                &&& #[trigger] assigns(last, names[j], c)
                &&& before[j] is None
                &&& gather(names, entries)->Ok_0 == before.update(j, Some(c))
            };
        if j == i {
            assert(assigns(trim(entries[entries.len() - 1]), names[i], c));
        } else if let Some(core) = before[i] {
            let k = choose|k: int|
                0 <= k < d.len() && #[trigger] assigns(trim(d[k]), names[i], core);
            assert(assigns(trim(entries[k]), names[i], core));
        }
    }
}

/// The threads without a core are listed, all of them and no others.
pub proof fn law_missing_threads_are_listed(names: Seq<Seq<char>>, cores: Seq<Option<usize>>)
    requires
        cores.len() == names.len(),
    ensures
        forall|i: int|
            0 <= i < names.len() && cores[i] is None ==> missing(names, cores).contains(
                #[trigger] names[i],
            ),
        forall|m: int|
            0 <= m < missing(names, cores).len() ==> without_core(
                names,
                cores,
                #[trigger] missing(names, cores)[m],
            ),
    decreases names.len(),
{
    let list = missing(names, cores);
    if names.len() > 0 {
        let (dn, dc) = (names.drop_last(), cores.drop_last());
        let rest = missing(dn, dc);
        law_missing_threads_are_listed(dn, dc);
        assert forall|i: int| 0 <= i < names.len() && cores[i] is None implies list.contains(
            #[trigger] names[i],
        ) by {
            if i < dn.len() {
                assert(dn[i] == names[i] && dc[i] == cores[i]);
                let m = rest.index_of(names[i]);
                assert(list[m] == names[i]);
            } else {
                assert(list[list.len() - 1] == names[i]);
            }
        }
        assert forall|m: int| 0 <= m < list.len() implies without_core(
            names,
            cores,
            #[trigger] list[m],
        ) by {
            if m < rest.len() {
                assert(list[m] == rest[m]);
                assert(without_core(dn, dc, rest[m]));
                let i = choose|i: int|
                    0 <= i < dn.len() && #[trigger] dn[i] == rest[m] && dc[i] is None;
                assert(names[i] == list[m] && cores[i] is None);
            } else {
                assert(names[names.len() - 1] == list[m]);
            }
        }
    }
}

/// Whether a name is that of a thread without a core.
pub open spec fn without_core(
    names: Seq<Seq<char>>,
    cores: Seq<Option<usize>>,
    name: Seq<char>,
) -> bool {
    exists|i: int| 0 <= i < names.len() && #[trigger] names[i] == name && cores[i] is None
}

/// A list is `none`, which unpins every thread, or gives every thread the core
/// of an entry that names it.
pub proof fn law_taken_list_gives_every_thread_a_core(spec: Seq<char>, names: Seq<Seq<char>>, i: int)
    requires
        named_cores(spec, names) is Ok,
        0 <= i < names.len(),
    ensures
        named_cores(spec, names)->Ok_0.len() == names.len(),
        trim(spec) == "none"@ ==> named_cores(spec, names)->Ok_0[i] == 0,
        trim(spec) != "none"@ ==> given(
            names,
            split(spec, ','),
            i,
            named_cores(spec, names)->Ok_0[i],
        ),
{
    if trim(spec) != "none"@ {
        let entries = split(spec, ',');
        lemma_gathered_length(names, entries);
        let cores = gather(names, entries)->Ok_0;
        law_missing_threads_are_listed(names, cores);
        if cores[i] is None {
            assert(missing(names, cores).contains(names[i]));
        }
        law_core_comes_from_an_entry(names, entries, i);
    }
}

/// A list that leaves a thread out is refused.
pub proof fn law_every_thread_needs_an_entry(spec: Seq<char>, names: Seq<Seq<char>>, i: int)
    requires
        0 <= i < names.len(),
        trim(spec) != "none"@,
        forall|core: usize| !#[trigger] given(names, split(spec, ','), i, core),
    ensures
        named_cores(spec, names) is Err,
{
    if named_cores(spec, names) is Ok {
        law_taken_list_gives_every_thread_a_core(spec, names, i);
    }
}

/// Messages start with the flag and name the entry, the thread or the core
/// that is at fault.
#[verifier::rlimit(40)]
pub proof fn law_message_names_the_fault(flag: Seq<char>, names: Seq<Seq<char>>, fault: CoreListFault)
    ensures
        stands_at(fault_text(flag, names, fault), 0, flag),
        match fault {
            CoreListFault::Positional => true,
            CoreListFault::Malformed(entry) => says(
                fault_text(flag, names, fault),
                "`"@ + entry + "`"@,
            ),
            CoreListFault::Unknown(name) => says(
                fault_text(flag, names, fault),
                "`"@ + name + "`"@,
            ),
            CoreListFault::Twice(name) => says(fault_text(flag, names, fault), "`"@ + name + "`"@),
            CoreListFault::BadCore(name, core) => {
                &&& says(fault_text(flag, names, fault), ": "@ + name + ": "@)
                &&& says(fault_text(flag, names, fault), "`"@ + core + "`"@)
            },
            CoreListFault::Missing(threads) => true,
        },
{
    let text = fault_text(flag, names, fault);
    reveal_strlit("`");
    reveal_strlit(": ");
    reveal_strlit(": invalid entry `");
    reveal_strlit("`, expected `thread=core`");
    reveal_strlit(": unknown thread `");
    reveal_strlit("`; the threads are ");
    reveal_strlit(": `");
    reveal_strlit("` is named twice");
    reveal_strlit(": invalid core ID `");
    assert(text =~= Seq::<char>::empty() + flag + text.skip(flag.len() as int));
    lemma_says(Seq::empty(), flag, text.skip(flag.len() as int), text);
    match fault {
        CoreListFault::Malformed(entry) => {
            lemma_quoted(flag, ": invalid entry `"@, entry, "`, expected `thread=core`"@, text);
        },
        CoreListFault::Unknown(name) => {
            let rest = text.skip((flag + ": unknown thread `"@ + name).len() as int);
            assert(text =~= flag + ": unknown thread `"@ + name + rest);
            assert(rest[0] == '`') by {
                assert(rest[0] == "`; the threads are "@[0]);
            }
            lemma_quoted(flag, ": unknown thread `"@, name, rest, text);
        },
        CoreListFault::Twice(name) => {
            lemma_quoted(flag, ": `"@, name, "` is named twice"@, text);
        },
        CoreListFault::BadCore(name, core) => {
            lemma_quoted(flag + ": "@ + name, ": invalid core ID `"@, core, "`"@, text);
            let part = ": "@ + name + ": "@;
            let rest = ": invalid core ID `"@.skip(2) + core + "`"@;
            assert(text =~= flag + part + rest);
            lemma_says(flag, part, rest, text);
        },
        _ => {},
    }
}

/// What stands between two quotes stands in the text with them.
proof fn lemma_quoted(
    before: Seq<char>,
    lead: Seq<char>,
    quoted: Seq<char>,
    after: Seq<char>,
    text: Seq<char>,
)
    requires
        text =~= before + lead + quoted + after,
        lead.len() > 0,
        lead.last() == '`',
        after.len() > 0,
        after[0] == '`',
    ensures
        says(text, "`"@ + quoted + "`"@),
{
    reveal_strlit("`");
    let ahead = before + lead.drop_last();
    let part = "`"@ + quoted + "`"@;
    assert(text =~= ahead + part + after.skip(1));
    lemma_says(ahead, part, after.skip(1), text);
}

/// A list of cores by name gives every thread the core of an entry that names
/// it, in the order of the names, or unpins them all; a list without an entry
/// for a thread is refused.
#[verifier::rlimit(40)]
pub proof fn law_named_list_is_taken_or_refused(
    flag: &str,
    spec: &str,
    names: &[&str],
    r: Result<Vec<usize>, String>,
    i: int,
)
    requires
        call_ensures(parse_named_cores, (flag, spec, names), r),
        0 <= i < names@.len(),
    ensures
        r matches Ok(cores) ==> cores@.len() == names@.len(),
        r matches Ok(cores) ==> trim(spec@) == "none"@ ==> cores@[i] == 0,
        r matches Ok(cores) ==> trim(spec@) != "none"@ ==> given(
            name_texts(names@),
            split(spec@, ','),
            i,
            cores@[i],
        ),
        trim(spec@) == "none"@ ==> r is Ok,
        trim(spec@) != "none"@ && (forall|core: usize|
            !#[trigger] given(name_texts(names@), split(spec@, ','), i, core)) ==> r is Err,
        r matches Err(text) ==> stands_at(text@, 0, flag@),
{
    let texts = name_texts(names@);
    if r is Ok {
        law_taken_list_gives_every_thread_a_core(spec@, texts, i);
    } else {
        law_message_names_the_fault(flag@, texts, named_cores(spec@, texts)->Err_0);
    }
    if trim(spec@) != "none"@ && (forall|core: usize|
        !#[trigger] given(texts, split(spec@, ','), i, core)) {
        law_every_thread_needs_an_entry(spec@, texts, i);
    }
}

/// A message about missing cores lists the threads without one, one about an
/// unknown thread all threads, and one about a list without names an example
/// with every thread.
pub proof fn law_message_lists_the_threads(
    flag: Seq<char>,
    names: Seq<Seq<char>>,
    fault: CoreListFault,
)
    ensures
        match fault {
            CoreListFault::Missing(threads) => says(
                fault_text(flag, names, fault),
                joined(threads, ", "@),
            ),
            CoreListFault::Unknown(_) => says(fault_text(flag, names, fault), joined(names, ", "@)),
            CoreListFault::Positional => says(
                fault_text(flag, names, fault),
                joined(example_entries(names), ","@),
            ),
            _ => true,
        },
{
    let text = fault_text(flag, names, fault);
    match fault {
        CoreListFault::Missing(threads) => {
            lemma_says(
                flag + ": no core for "@,
                joined(threads, ", "@),
                "; every thread needs an entry (`0` leaves it unpinned)"@,
                text,
            );
        },
        CoreListFault::Unknown(name) => {
            let before = flag + ": unknown thread `"@ + name + "`; the threads are "@;
            assert(text =~= before + joined(names, ", "@) + Seq::<char>::empty());
            lemma_says(before, joined(names, ", "@), Seq::empty(), text);
        },
        CoreListFault::Positional => {
            lemma_says(
                flag + " takes named entries in any order ("@,
                joined(example_entries(names), ","@),
                "), not a positional list; `none` unpins every thread"@,
                text,
            );
        },
        _ => {},
    }
}

/// Parts are joined in their order with the separator between any two, so
/// that each of them stands in the whole.
pub proof fn law_parts_are_joined_in_order(
    a: Seq<Seq<char>>,
    b: Seq<Seq<char>>,
    sep: Seq<char>,
)
    requires
        a.len() > 0,
        b.len() > 0,
    ensures
        joined(a + b, sep) == joined(a, sep) + sep + joined(b, sep),
        a.len() == 1 ==> joined(a, sep) == a[0],
        joined(Seq::empty(), sep) == Seq::<char>::empty(),
    decreases b.len(),
{
    let all = a + b;
    assert(all.last() == b.last());
    if b.len() == 1 {
        assert(all.drop_last() =~= a);
        assert(joined(b, sep) == b.last());
    } else {
        let less = b.drop_last();
        law_parts_are_joined_in_order(a, less, sep);
        assert(all.drop_last() =~= a + less);
        assert(joined(all, sep) =~= joined(a, sep) + sep + (joined(less, sep) + sep + b.last()));
    }
}

/// An example names every thread with a core of its own, counted from one.
pub proof fn law_example_counts_from_one(names: Seq<Seq<char>>, i: int)
    requires
        0 <= i < names.len(),
    ensures
        example_entries(names).len() == names.len(),
        example_entries(names)[i] == names[i] + seq!['='] + decimal((i + 1) as nat),
{
    reveal_strlit("=");
    assert("="@ =~= seq!['=']);
}

} // verus!
