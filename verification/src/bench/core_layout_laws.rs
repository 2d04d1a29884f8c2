//! Laws of core assignments: which list of cores is taken, what each place of
//! it stands for, and which cores a replica keeps to itself.

use vstd::prelude::*;

use crate::bench::core_layout::{
    all_claims, clash, clash_text, first_clash, no_clash, pipeline_claims, pipeline_cores,
    primary_claims, primary_cores, replica_claim, resolve_cores, resolve_pipeline_cores,
    PipelineBenchCores, PrimaryCores,
};
use crate::text::decimal;
use crate::text_laws::{lemma_says, says};

verus! {

/// Whether two threads may have two cores: different ones, or both none.
pub open spec fn apart(a: usize, b: usize) -> bool {
    a != b || a == 0
}

/// The places of a pipeline list are the journal's, the matching thread's, the
/// publisher's, the disk writer's and the drain's core, in this order.
pub proof fn law_pipeline_list_order(v: Seq<usize>)
    requires
        v.len() == 5,
    ensures
        ({
            let c = pipeline_cores(v);
            v == seq![c.journal, c.matching, c.publisher, c.journal_disk, c.drain]
        }),
{
    let c = pipeline_cores(v);
    assert(v =~= seq![c.journal, c.matching, c.publisher, c.journal_disk, c.drain]);
}

/// A pipeline list is taken exactly where no two threads share a core.
pub proof fn law_pipeline_threads_are_kept_apart(v: Seq<usize>)
    requires
        v.len() == 5,
    ensures
        no_clash(pipeline_claims(v)) <==> forall|i: int, j: int|
            0 <= i < j < 5 ==> apart(#[trigger] v[i], #[trigger] v[j]),
{
    let claims = pipeline_claims(v);
    assert forall|i: int| 0 <= i < 5 implies (#[trigger] claims[i]).0 == v[i] by {}
    if no_clash(claims) {
        assert forall|i: int, j: int| 0 <= i < j < 5 implies apart(
            #[trigger] v[i],
            #[trigger] v[j],
        ) by {
            assert(!clash(claims, i, j));
        }
    }
    if forall|i: int, j: int| 0 <= i < j < 5 ==> apart(#[trigger] v[i], #[trigger] v[j]) {
        assert forall|a: int, b: int| !#[trigger] clash(claims, a, b) by {
            if 0 <= a < b < 5 {
                assert(apart(v[a], v[b]));
            }
        }
    }
}

/// The places of a primary's list are the generator's, the journal's, the
/// matching thread's, the drain's, the replication sender's and the two
/// handlers' core, in this order. Without a list every thread is unpinned.
pub proof fn law_primary_list_order(v: Seq<usize>)
    requires
        v.len() == 7,
    ensures
        v == cores_in_order(primary_cores(Some(v))),
        forall|i: int|
            0 <= i < 7 ==> #[trigger] cores_in_order(primary_cores(None::<Seq<usize>>))[i] == 0,
{
    assert(v =~= cores_in_order(primary_cores(Some(v))));
}

/// The cores of a primary in the order of its list.
pub open spec fn cores_in_order(p: PrimaryCores) -> Seq<usize> {
    seq![
        p.generator,
        p.journal,
        p.matching,
        p.drain,
        p.repl_sender,
        p.handler_0,
        p.handler_1,
    ]
}

/// Whether the threads of a primary and its replicas are kept apart: those of
/// the primary among themselves, and the four cores of each pinned replica
/// from them and from those of every other.
pub open spec fn kept_apart(p: PrimaryCores, bases: Seq<usize>) -> bool {
    &&& forall|i: int, j: int|
        0 <= i < j < 7 ==> apart(
            #[trigger] cores_in_order(p)[i],
            #[trigger] cores_in_order(p)[j],
        )
    &&& forall|i: int, k: int|
        0 <= i < 7 && 0 <= k < bases.len() && #[trigger] bases[k] != 0 ==> {
            let core = #[trigger] cores_in_order(p)[i];
            core < bases[k] || core >= bases[k] + 4
        }
    &&& forall|k: int, m: int|
        0 <= k < m < bases.len() && #[trigger] bases[k] != 0 && #[trigger] bases[m] != 0 ==> bases[k]
            + 4 <= bases[m] || bases[m] + 4 <= bases[k]
}

/// Where the claims of a replica start.
spec fn place(p: PrimaryCores, bases: Seq<usize>, k: int) -> int {
    all_claims(p, bases.take(k)).len() as int
}

/// The core that one of the claims is for: of the primary, or of a replica at
/// some offset.
spec fn accounted(p: PrimaryCores, bases: Seq<usize>, a: int, k: int, o: int) -> bool {
    &&& 0 <= k < bases.len()
    &&& bases[k] != 0
    &&& 0 <= o < 4
    &&& a == place(p, bases, k) + o
}

/// Where the claim of a replica at some offset stands.
spec fn spot(p: PrimaryCores, bases: Seq<usize>, k: int, o: int) -> int {
    place(p, bases, k) + o
}

/// Whether a claim is one of some replica's.
spec fn of_replica(p: PrimaryCores, bases: Seq<usize>, a: int) -> bool {
    exists|k: int, o: int| #[trigger] accounted(p, bases, a, k, o)
}

#[verifier::rlimit(40)]
proof fn lemma_claims(p: PrimaryCores, bases: Seq<usize>)
    requires
        forall|k: int| 0 <= k < bases.len() ==> (#[trigger] bases[k]) + 3 <= usize::MAX,
    ensures
        all_claims(p, bases).len() >= 7,
        forall|i: int| 0 <= i < 7 ==> (#[trigger] all_claims(p, bases)[i]).0 == cores_in_order(p)[i],
        forall|k: int, o: int|
            0 <= k < bases.len() && bases[k] != 0 && 0 <= o < 4 ==> {
                let at = #[trigger] spot(p, bases, k, o);
                &&& 7 <= at < all_claims(p, bases).len()
                &&& all_claims(p, bases)[at].0 == bases[k] + o
            },
        forall|k: int, m: int|
            0 <= k < m < bases.len() && bases[k] != 0 ==> #[trigger] place(p, bases, k) + 4
                <= #[trigger] place(p, bases, m),
        forall|a: int|
            7 <= a < all_claims(p, bases).len() ==> #[trigger] of_replica(p, bases, a),
    decreases bases.len(),
{
    let claims = all_claims(p, bases);
    if bases.len() == 0 {
        assert(primary_claims(p).len() == 7);
    } else {
        let d = bases.drop_last();
        lemma_claims(p, d);
        let before = all_claims(p, d);
        let n = bases.len() - 1;
        let base = bases.last();
        assert(bases.take(n) =~= d);
        assert forall|k: int| 0 <= k <= n implies #[trigger] place(p, bases, k) == place(p, d, k) by {
            assert(bases.take(k) =~= d.take(k));
        }
        assert(d.take(n) =~= d);
        assert(place(p, bases, n) == before.len());
        assert forall|k: int, o: int|
            0 <= k < bases.len() && bases[k] != 0 && 0 <= o < 4 implies {
            let at = #[trigger] spot(p, bases, k, o);
            &&& 7 <= at < claims.len()
            &&& claims[at].0 == bases[k] + o
        } by {
            if k < n {
                assert(d[k] != 0);
                let at = spot(p, d, k, o);
                assert(7 <= at < before.len());
                assert(claims[at] == before[at]);
            }
        }
        assert forall|k: int, m: int| 0 <= k < m < bases.len() && bases[k] != 0 implies
            #[trigger] place(p, bases, k) + 4 <= #[trigger] place(p, bases, m) by {
            if m < n {
                assert(d[k] != 0);
                assert(place(p, d, k) + 4 <= place(p, d, m));
            } else {
                assert(d[k] != 0);
                let at = spot(p, d, k, 3);
                assert(at < before.len());
            }
        }
        assert forall|a: int| 7 <= a < claims.len() implies #[trigger] of_replica(
            p,
            bases,
            a,
        ) by {
            if a < before.len() {
                assert(of_replica(p, d, a));
                let (k, o) = choose|k: int, o: int| #[trigger] accounted(p, d, a, k, o);
                assert(accounted(p, bases, a, k, o));
            } else {
                assert(accounted(p, bases, a, n, a - before.len()));
            }
        }
    }
}

/// A layout is taken exactly where the threads are kept apart: every replica
/// with a base core has that core and the three after it to itself.
pub proof fn law_replicas_have_four_cores_to_themselves(p: PrimaryCores, bases: Seq<usize>)
    requires
        forall|k: int| 0 <= k < bases.len() ==> (#[trigger] bases[k]) + 3 <= usize::MAX,
    ensures
        no_clash(all_claims(p, bases)) <==> kept_apart(p, bases),
{
    let claims = all_claims(p, bases);
    lemma_claims(p, bases);
    if no_clash(claims) {
        assert forall|i: int, j: int| 0 <= i < j < 7 implies apart(
            #[trigger] cores_in_order(p)[i],
            #[trigger] cores_in_order(p)[j],
        ) by {
            assert(claims[i].0 == cores_in_order(p)[i]);
            assert(claims[j].0 == cores_in_order(p)[j]);
            assert(!clash(claims, i, j));
        }
        assert forall|i: int, k: int|
            0 <= i < 7 && 0 <= k < bases.len() && #[trigger] bases[k] != 0 implies {
            let core = #[trigger] cores_in_order(p)[i];
            core < bases[k] || core >= bases[k] + 4
        } by {
            let core = cores_in_order(p)[i];
            if bases[k] <= core < bases[k] + 4 {
                let o = core - bases[k];
                let at = spot(p, bases, k, o);
                assert(claims[at].0 == bases[k] + o);
                assert(claims[i].0 == core);
                assert(!clash(claims, i, at));
            }
        }
        assert forall|k: int, m: int|
            0 <= k < m < bases.len() && #[trigger] bases[k] != 0 && #[trigger] bases[m]
                != 0 implies bases[k] + 4 <= bases[m] || bases[m] + 4 <= bases[k] by {
            assert(place(p, bases, k) + 4 <= place(p, bases, m));
            if bases[k] <= bases[m] < bases[k] + 4 {
                let o = bases[m] - bases[k];
                let at = spot(p, bases, k, o);
                let to = spot(p, bases, m, 0);
                assert(claims[at].0 == bases[k] + o);
                assert(claims[to].0 == bases[m]);
                assert(!clash(claims, at, to));
            }
            if bases[m] <= bases[k] < bases[m] + 4 {
                let o = bases[k] - bases[m];
                let at = spot(p, bases, k, 0);
                let to = spot(p, bases, m, o);
                assert(claims[at].0 == bases[k]);
                assert(claims[to].0 == bases[m] + o);
                assert(!clash(claims, at, to));
            }
        }
    }
    if kept_apart(p, bases) {
        assert forall|a: int, b: int| !#[trigger] clash(claims, a, b) by {
            if clash(claims, a, b) {
                if b < 7 {
                    assert(apart(cores_in_order(p)[a], cores_in_order(p)[b]));
                } else {
                    assert(of_replica(p, bases, b));
                    let (m, q) = choose|k: int, o: int| #[trigger] accounted(p, bases, b, k, o);
                    assert(bases[m] != 0);
                    let to = spot(p, bases, m, q);
                    assert(claims[to].0 == bases[m] + q);
                    if a < 7 {
                        let core = cores_in_order(p)[a];
                        assert(core < bases[m] || core >= bases[m] + 4);
                    } else {
                        assert(of_replica(p, bases, a));
                        let (k, o) = choose|k: int, o: int| #[trigger] accounted(p, bases, a, k, o);
                        assert(bases[k] != 0);
                        let at = spot(p, bases, k, o);
                        assert(claims[at].0 == bases[k] + o);
                        if k > m {
                            assert(place(p, bases, m) + 4 <= place(p, bases, k));
                        }
                        assert(k <= m);
                        if k < m {
                            assert(bases[k] + 4 <= bases[m] || bases[m] + 4 <= bases[k]);
                        }
                    }
                }
            }
        }
    }
}

/// The message for a clash names the core and both threads.
#[verifier::rlimit(40)]
pub proof fn law_clash_names_core_and_threads(claims: Seq<(usize, Seq<char>)>, i: int, j: int)
    requires
        clash(claims, i, j),
    ensures
        says(clash_text(claims, i, j), "core "@ + decimal(claims[j].0 as nat)),
        says(clash_text(claims, i, j), " by both "@ + claims[i].1 + " and "@ + claims[j].1 + " "@),
{
    let core = decimal(claims[i].0 as nat);
    let end = " — two pinned spinners on one core starve each other"@;
    let text = clash_text(claims, i, j);
    reveal_strlit(" — two pinned spinners on one core starve each other");
    reveal_strlit(" claimed by both ");
    reveal_strlit(" by both ");
    reveal_strlit(" ");
    let lead = "core "@ + core;
    let names = claims[i].1 + " and "@ + claims[j].1;
    let rest = " claimed by both "@ + names + end;
    assert(text =~= Seq::<char>::empty() + lead + rest);
    lemma_says(Seq::empty(), lead, rest, text);
    let before = lead + " claimed by both "@.take(8);
    let part = " by both "@ + claims[i].1 + " and "@ + claims[j].1 + " "@;
    assert(text =~= before + part + end.skip(1));
    lemma_says(before, part, end.skip(1), text);
}

/// The claim of a replica's thread names the replica, the thread and its core.
pub proof fn law_replica_claim_names_its_thread(i: int, base: usize, offset: int, role: Seq<char>)
    requires
        0 <= i,
        0 <= offset,
        base + offset <= usize::MAX,
    ensures
        replica_claim(i, base, offset, role).0 == base + offset,
        says(replica_claim(i, base, offset, role).1, "replica-"@ + decimal(i as nat) + " "@),
        says(replica_claim(i, base, offset, role).1, " "@ + role),
{
    let text = replica_claim(i, base, offset, role).1;
    let lead = "replica-"@ + decimal(i as nat);
    assert(text =~= Seq::<char>::empty() + (lead + " "@) + role);
    lemma_says(Seq::empty(), lead + " "@, role, text);
    assert(text =~= lead + (" "@ + role) + Seq::<char>::empty());
    lemma_says(lead, " "@ + role, Seq::empty(), text);
}

/// The threads of a pipeline, by their places in the list.
pub open spec fn pipeline_threads() -> Seq<Seq<char>> {
    seq!["journal"@, "matching"@, "publisher"@, "journal-disk"@, "drain"@]
}

/// Whether a text names the two threads that share a core first: no earlier
/// thread shares one, and this one none with an earlier thread.
pub open spec fn names_first_sharing(v: Seq<usize>, text: Seq<char>, i: int, j: int) -> bool {
    &&& 0 <= i < j < 5
    &&& !apart(v[i], v[j])
    &&& forall|a: int, b: int|
        0 <= a < b < 5 && !apart(#[trigger] v[a], #[trigger] v[b]) ==> i < a || (i == a && j <= b)
    &&& says(text, "core "@ + decimal(v[i] as nat))
    &&& says(text, " by both "@ + pipeline_threads()[i] + " and "@ + pipeline_threads()[j] + " "@)
}

/// A list of five cores is taken where no two threads share one, each thread
/// with the core at its place; else the first two that share one are named.
/// A list of any other length is refused.
#[verifier::rlimit(40)]
pub proof fn law_pipeline_list_is_taken_or_refused(
    v: &[usize],
    r: Result<PipelineBenchCores, String>,
)
    requires
        call_ensures(resolve_pipeline_cores, (v,), r),
    ensures
        r is Ok <==> v@.len() == 5 && forall|i: int, j: int|
            0 <= i < j < 5 ==> apart(#[trigger] v@[i], #[trigger] v@[j]),
        r matches Ok(c) ==> v@ == seq![
            c.journal,
            c.matching,
            c.publisher,
            c.journal_disk,
            c.drain,
        ],
        v@.len() == 5 ==> (r matches Err(text) ==> exists|i: int, j: int| #[trigger]
            names_first_sharing(v@, text@, i, j)),
{
    if v@.len() == 5 {
        law_pipeline_list_order(v@);
        law_pipeline_threads_are_kept_apart(v@);
        let claims = pipeline_claims(v@);
        assert forall|i: int| 0 <= i < 5 implies (#[trigger] claims[i]).0 == v@[i] && claims[i].1
            == pipeline_threads()[i] by {}
        if let Err(text) = r {
            let (i, j) = choose|i: int, j: int| #[trigger]
                first_clash(claims, i, j) && text@ == clash_text(claims, i, j);
            law_clash_names_core_and_threads(claims, i, j);
            assert forall|a: int, b: int|
                0 <= a < b < 5 && !apart(#[trigger] v@[a], #[trigger] v@[b]) implies i < a || (i == a
                && j <= b) by {
                assert(clash(claims, a, b));
            }
            assert(names_first_sharing(v@, text@, i, j));
        }
    }
}

/// The cores of a replication run are taken where both lists have their
/// lengths and no core is claimed twice; a missing list leaves its threads
/// unpinned.
#[verifier::rlimit(40)]
pub proof fn law_replication_cores_are_taken_or_refused(
    cores: Option<&Vec<usize>>,
    replica_cores: Option<&Vec<usize>>,
    n_replicas: usize,
    r: Result<(PrimaryCores, Vec<usize>), String>,
    primary: PrimaryCores,
)
    requires
        replica_cores matches Some(v) ==> forall|k: int|
            0 <= k < v@.len() ==> (#[trigger] v@[k]) + 3 <= usize::MAX,
        call_ensures(resolve_cores, (cores, replica_cores, n_replicas), r),
        cores matches Some(v) ==> v@.len() == 7 ==> cores_in_order(primary) == v@,
        cores is None ==> forall|i: int| 0 <= i < 7 ==> #[trigger] cores_in_order(primary)[i] == 0,
    ensures
        ({
            let bases = match replica_cores {
                Some(v) => v@,
                None => Seq::new(n_replicas as nat, |i: int| 0usize),
            };
            &&& r is Ok <==> (cores matches Some(v) ==> v@.len() == 7) && (replica_cores matches Some(
                v,
            ) ==> v@.len() == n_replicas) && kept_apart(primary, bases)
            &&& r matches Ok((p, b)) ==> cores_in_order(p) == cores_in_order(primary) && b@ == bases
        }),
{
    let bases = match replica_cores {
        Some(v) => v@,
        None => Seq::new(n_replicas as nat, |i: int| 0usize),
    };
    let view = match cores {
        Some(v) => Some(v@),
        None => None,
    };
    if (cores matches Some(v) ==> v@.len() == 7) && (replica_cores matches Some(v) ==> v@.len()
        == n_replicas) {
        let p = primary_cores(view);
        if cores is Some {
            law_primary_list_order(cores->0@);
        } else {
            law_primary_list_order(Seq::new(7, |i: int| 0usize));
        }
        assert(cores_in_order(p) =~= cores_in_order(primary));
        law_replicas_have_four_cores_to_themselves(p, bases);
        assert(kept_apart(p, bases) <==> kept_apart(primary, bases));
        if r is Err {
            let text = r->Err_0@;
            let (i, j) = choose|i: int, j: int| #[trigger]
                first_clash(all_claims(p, bases), i, j) && text == clash_text(
                    all_claims(p, bases),
                    i,
                    j,
                );
            assert(clash(all_claims(p, bases), i, j));
        }
    }
}

} // verus!
