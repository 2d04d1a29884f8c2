//! Core assignments of the benchmarks. Every pinned thread spins, so no two
//! may share a core; core 0 stands for an unpinned thread and may repeat.

use vstd::prelude::*;
use vstd::string::StringExecFns;

use crate::text::{decimal, decimal_string};

verus! {

/// Number of threads in a pipeline benchmark.
pub const PIPELINE_CORE_SLOTS: usize = 5;

/// Number of threads on the primary of a replication benchmark.
pub const PRIMARY_CORE_SLOTS: usize = 7;

/// Threads that a replica pins, from its base core on.
pub const CORES_PER_REPLICA: usize = 4;

/// Cores of a pipeline benchmark.
#[derive(Clone, Copy, Debug, PartialEq, Eq, Structural)]
pub struct PipelineBenchCores {
    pub journal: usize,
    pub matching: usize,
    pub publisher: usize,
    pub journal_disk: usize,
    pub drain: usize,
}

/// Cores of the primary in a replication benchmark.
#[derive(Clone, Copy, Debug, PartialEq, Eq, Structural)]
pub struct PrimaryCores {
    pub generator: usize,
    pub journal: usize,
    pub matching: usize,
    pub drain: usize,
    pub repl_sender: usize,
    pub handler_0: usize,
    pub handler_1: usize,
}

/// A core and the thread that claims it.
pub struct Claim {
    pub core: usize,
    pub owner: String,
}

/// The model of a list of claims.
pub open spec fn claim_view(claims: Seq<Claim>) -> Seq<(usize, Seq<char>)> {
    claims.map_values(|c: Claim| (c.core, c.owner@))
}

/// Whether two claims are for the same core.
pub open spec fn clash(claims: Seq<(usize, Seq<char>)>, i: int, j: int) -> bool {
    &&& 0 <= i < j < claims.len()
    &&& claims[i].0 != 0
    &&& claims[i].0 == claims[j].0
}

/// Whether a clash is the first: of the earliest claim that has one, with the
/// earliest other claim.
pub open spec fn first_clash(claims: Seq<(usize, Seq<char>)>, i: int, j: int) -> bool {
    &&& clash(claims, i, j)
    &&& forall|a: int, b: int| #[trigger]
        clash(claims, a, b) ==> i < a || (i == a && j <= b)
}

/// Whether no two pinned threads share a core.
pub open spec fn no_clash(claims: Seq<(usize, Seq<char>)>) -> bool {
    forall|a: int, b: int| !#[trigger] clash(claims, a, b)
}

/// The message for a clash.
pub open spec fn clash_text(claims: Seq<(usize, Seq<char>)>, i: int, j: int) -> Seq<char> {
    "core "@ + decimal(claims[i].0 as nat) + " claimed by both "@ + claims[i].1 + " and "@
        + claims[j].1 + " — two pinned spinners on one core starve each other"@
}

/// Whether a message is the one for the first clash.
pub open spec fn words_first_clash(claims: Seq<(usize, Seq<char>)>, text: Seq<char>) -> bool {
    exists|i: int, j: int| #[trigger]
        first_clash(claims, i, j) && text == clash_text(claims, i, j)
}

/// Finds the first clash and words it.
fn check_claims(claims: &Vec<Claim>) -> (r: Result<(), String>)
    ensures
        match r {
            Ok(_) => no_clash(claim_view(claims@)),
            Err(text) => words_first_clash(claim_view(claims@), text@),
        },
{
    let ghost view = claim_view(claims@);
    let mut i: usize = 0;
    while i < claims.len()
        invariant
            view == claim_view(claims@),
            0 <= i <= claims@.len(),
            forall|a: int, b: int| #[trigger] clash(view, a, b) ==> i <= a,
        decreases claims@.len() - i,
    {
        let mut j: usize = i + 1;
        while j < claims.len()
            invariant
                view == claim_view(claims@),
                0 <= i < j <= claims@.len(),
                forall|a: int, b: int| #[trigger]
                    clash(view, a, b) ==> i < a || (i == a && j <= b),
            decreases claims@.len() - j,
        {
            if claims[i].core != 0 && claims[i].core == claims[j].core {
                let mut text: String = "core ".to_owned();
                let core: String = decimal_string(claims[i].core as u64);
                text.append(core.as_str());
                text.append(" claimed by both ");
                text.append(claims[i].owner.as_str());
                text.append(" and ");
                text.append(claims[j].owner.as_str());
                text.append(" — two pinned spinners on one core starve each other");
                assert(clash(view, i as int, j as int));
                assert(first_clash(view, i as int, j as int));
                return Err(text);
            }
            assert(!clash(view, i as int, j as int));
            j = j + 1;
        }
        i = i + 1;
    }
    Ok(())
}

fn push_claim(claims: &mut Vec<Claim>, core: usize, owner: &str)
    ensures
        claim_view(final(claims)@) == claim_view(old(claims)@).push((core, owner@)),
{
    let ghost before = claim_view(claims@);
    claims.push(Claim { core, owner: owner.to_owned() });
    assert(claim_view(claims@) =~= before.push((core, owner@)));
}

/// The assignment that a list of five cores stands for.
pub open spec fn pipeline_cores(v: Seq<usize>) -> PipelineBenchCores {
    PipelineBenchCores {
        journal: v[0],
        matching: v[1],
        publisher: v[2],
        journal_disk: v[3],
        drain: v[4],
    }
}

/// The claims of a pipeline benchmark.
pub open spec fn pipeline_claims(v: Seq<usize>) -> Seq<(usize, Seq<char>)> {
    Seq::empty().push((v[0], "journal"@)).push((v[1], "matching"@)).push((v[2], "publisher"@)).push(
        (v[3], "journal-disk"@),
    ).push((v[4], "drain"@))
}

/// Resolves the cores of a pipeline benchmark, and refuses a list of another
/// length and one that puts two threads on one core.
pub fn resolve_pipeline_cores(v: &[usize]) -> (r: Result<PipelineBenchCores, String>)
    ensures
        v@.len() != PIPELINE_CORE_SLOTS ==> (r matches Err(text) && text@
            == "--pipeline-cores expects 5 comma-separated IDs (journal,matching,publisher,journal-disk,drain), got "@
            + decimal(v@.len())),
        v@.len() == PIPELINE_CORE_SLOTS ==> match r {
            Ok(cores) => cores == pipeline_cores(v@) && no_clash(pipeline_claims(v@)),
            Err(text) => words_first_clash(pipeline_claims(v@), text@),
        },
{
    if v.len() != PIPELINE_CORE_SLOTS {
        let mut text: String =
            "--pipeline-cores expects 5 comma-separated IDs (journal,matching,publisher,journal-disk,drain), got ".to_owned();
        let n: String = decimal_string(v.len() as u64);
        text.append(n.as_str());
        return Err(text);
    }
    let mut claims: Vec<Claim> = Vec::new();
    assert(claim_view(claims@) =~= Seq::empty());
    push_claim(&mut claims, v[0], "journal");
    push_claim(&mut claims, v[1], "matching");
    push_claim(&mut claims, v[2], "publisher");
    push_claim(&mut claims, v[3], "journal-disk");
    push_claim(&mut claims, v[4], "drain");
    assert(claim_view(claims@) == pipeline_claims(v@));
    match check_claims(&claims) {
        Ok(_) => Ok(
            PipelineBenchCores {
                journal: v[0],
                matching: v[1],
                publisher: v[2],
                journal_disk: v[3],
                drain: v[4],
            },
        ),
        Err(text) => Err(text),
    }
}

/// The assignment that a list of seven cores stands for; all unpinned without
/// a list.
pub open spec fn primary_cores(cores: Option<Seq<usize>>) -> PrimaryCores {
    match cores {
        None => PrimaryCores {
            generator: 0,
            journal: 0,
            matching: 0,
            drain: 0,
            repl_sender: 0,
            handler_0: 0,
            handler_1: 0,
        },
        Some(v) => PrimaryCores {
            generator: v[0],
            journal: v[1],
            matching: v[2],
            drain: v[3],
            repl_sender: v[4],
            handler_0: v[5],
            handler_1: v[6],
        },
    }
}

/// The claims of the primary.
pub open spec fn primary_claims(p: PrimaryCores) -> Seq<(usize, Seq<char>)> {
    Seq::empty().push((p.generator, "generator"@)).push((p.journal, "journal"@)).push(
        (p.matching, "matching"@),
    ).push((p.drain, "drain"@)).push((p.repl_sender, "repl-sender"@)).push(
        (p.handler_0, "handler-0"@),
    ).push((p.handler_1, "handler-1"@))
}

/// The claim of one thread of a replica.
pub open spec fn replica_claim(i: int, base: usize, offset: int, role: Seq<char>) -> (
    usize,
    Seq<char>,
) {
    ((base + offset) as usize, "replica-"@ + decimal(i as nat) + " "@ + role)
}

/// The claims of the primary and of the replicas; a replica with base 0 makes
/// none.
pub open spec fn all_claims(p: PrimaryCores, bases: Seq<usize>) -> Seq<(usize, Seq<char>)>
    decreases bases.len(),
{
    if bases.len() == 0 {
        primary_claims(p)
    } else {
        let before = all_claims(p, bases.drop_last());
        let base = bases.last();
        let i = bases.len() - 1;
        if base == 0 {
            before
        } else {
            before.push(replica_claim(i, base, 0, "journal"@)).push(
                replica_claim(i, base, 1, "matching"@),
            ).push(replica_claim(i, base, 2, "drain"@)).push(replica_claim(i, base, 3, "receiver"@))
        }
    }
}

fn push_replica_claim(claims: &mut Vec<Claim>, i: usize, base: usize, offset: usize, role: &str)
    requires
        base + offset <= usize::MAX,
    ensures
        claim_view(final(claims)@) == claim_view(old(claims)@).push(
            replica_claim(i as int, base, offset as int, role@),
        ),
{
    let mut owner: String = "replica-".to_owned();
    let number: String = decimal_string(i as u64);
    owner.append(number.as_str());
    owner.append(" ");
    owner.append(role);
    push_claim(claims, base + offset, owner.as_str());
}

/// Resolves the cores of a replication benchmark into those of the primary
/// and one base core for each replica, and refuses a list of the wrong length
/// and any two threads on one core.
pub fn resolve_cores(
    cores: Option<&Vec<usize>>,
    replica_cores: Option<&Vec<usize>>,
    n_replicas: usize,
) -> (r: Result<(PrimaryCores, Vec<usize>), String>)
    requires
        (cores matches Some(v) ==> v@.len() == PRIMARY_CORE_SLOTS) ==> (replica_cores matches Some(
            v,
        ) ==> v@.len() == n_replicas ==> forall|i: int|
            0 <= i < v@.len() ==> (#[trigger] v@[i]) + CORES_PER_REPLICA - 1 <= usize::MAX),
    ensures
        ({
            let primary_fits = cores matches Some(v) ==> v@.len() == PRIMARY_CORE_SLOTS;
            let replicas_fit = replica_cores matches Some(v) ==> v@.len() == n_replicas;
            let primary = primary_cores(
                match cores {
                    Some(v) => Some(v@),
                    None => None,
                },
            );
            let bases = match replica_cores {
                Some(v) => v@,
                None => Seq::new(n_replicas as nat, |i: int| 0usize),
            };
            let claims = all_claims(primary, bases);
            &&& !primary_fits ==> (r matches Err(text) && text@
                == "--cores expects 7 comma-separated IDs (generator,journal,matching,drain,repl-sender,handler-0,handler-1), got "@
                + decimal(cores.unwrap()@.len()))
            &&& primary_fits && !replicas_fit ==> (r matches Err(text) && text@
                == "--replica-cores expects one base core per replica ("@ + decimal(
                n_replicas as nat,
            ) + "), got "@ + decimal(replica_cores.unwrap()@.len()))
            &&& primary_fits && replicas_fit ==> match r {
                Ok((p, b)) => p == primary && b@ == bases && no_clash(claims),
                Err(text) => words_first_clash(claims, text@),
            }
        }),
{
    let primary: PrimaryCores = match cores {
        None => PrimaryCores {
            generator: 0,
            journal: 0,
            matching: 0,
            drain: 0,
            repl_sender: 0,
            handler_0: 0,
            handler_1: 0,
        },
        Some(v) => {
            if v.len() != PRIMARY_CORE_SLOTS {
                let mut text: String =
                    "--cores expects 7 comma-separated IDs (generator,journal,matching,drain,repl-sender,handler-0,handler-1), got ".to_owned();
                let n: String = decimal_string(v.len() as u64);
                text.append(n.as_str());
                return Err(text);
            }
            PrimaryCores {
                generator: v[0],
                journal: v[1],
                matching: v[2],
                drain: v[3],
                repl_sender: v[4],
                handler_0: v[5],
                handler_1: v[6],
            }
        },
    };
    let mut bases: Vec<usize> = Vec::new();
    match replica_cores {
        None => {
            let mut i: usize = 0;
            while i < n_replicas
                invariant
                    0 <= i <= n_replicas,
                    bases@.len() == i,
                    forall|j: int| 0 <= j < i ==> bases@[j] == 0,
                decreases n_replicas - i,
            {
                bases.push(0);
                i = i + 1;
            }
            assert(bases@ =~= Seq::new(n_replicas as nat, |i: int| 0usize));
        },
        Some(v) => {
            if v.len() != n_replicas {
                let mut text: String =
                    "--replica-cores expects one base core per replica (".to_owned();
                let want: String = decimal_string(n_replicas as u64);
                text.append(want.as_str());
                text.append("), got ");
                let got: String = decimal_string(v.len() as u64);
                text.append(got.as_str());
                return Err(text);
            }
            let mut i: usize = 0;
            while i < v.len()
                invariant
                    0 <= i <= v@.len(),
                    bases@ == v@.take(i as int),
                decreases v@.len() - i,
            {
                bases.push(v[i]);
                assert(v@.take(i + 1) =~= v@.take(i as int).push(v@[i as int]));
                i = i + 1;
            }
            assert(v@.take(i as int) =~= v@);
        },
    }
    let mut claims: Vec<Claim> = Vec::new();
    assert(claim_view(claims@) =~= Seq::empty());
    push_claim(&mut claims, primary.generator, "generator");
    push_claim(&mut claims, primary.journal, "journal");
    push_claim(&mut claims, primary.matching, "matching");
    push_claim(&mut claims, primary.drain, "drain");
    push_claim(&mut claims, primary.repl_sender, "repl-sender");
    push_claim(&mut claims, primary.handler_0, "handler-0");
    push_claim(&mut claims, primary.handler_1, "handler-1");
    assert(claim_view(claims@) == primary_claims(primary));
    let mut i: usize = 0;
    assert(bases@.take(0) =~= Seq::empty());
    while i < bases.len()
        invariant
            0 <= i <= bases@.len(),
            forall|j: int|
                0 <= j < bases@.len() ==> (#[trigger] bases@[j]) == 0 || bases@[j]
                    + CORES_PER_REPLICA - 1 <= usize::MAX,
            claim_view(claims@) == all_claims(primary, bases@.take(i as int)),
        decreases bases@.len() - i,
    {
        let base: usize = bases[i];
        proof {
            assert(bases@.take(i + 1).drop_last() =~= bases@.take(i as int));
            assert(bases@.take(i + 1).last() == base);
        }
        if base != 0 {
            push_replica_claim(&mut claims, i, base, 0, "journal");
            push_replica_claim(&mut claims, i, base, 1, "matching");
            push_replica_claim(&mut claims, i, base, 2, "drain");
            push_replica_claim(&mut claims, i, base, 3, "receiver");
        }
        i = i + 1;
    }
    assert(bases@.take(i as int) =~= bases@);
    match check_claims(&claims) {
        Ok(_) => Ok((primary, bases)),
        Err(text) => Err(text),
    }
}

/// A replica with base 0 is left alone: it claims no core.
pub proof fn law_zero_base_claims_nothing(p: PrimaryCores, bases: Seq<usize>)
    requires
        bases.len() > 0,
        bases.last() == 0,
    ensures
        all_claims(p, bases) == all_claims(p, bases.drop_last()),
{
}

/// Unpinned threads never clash, however many there are.
pub proof fn law_unpinned_threads_never_clash(claims: Seq<(usize, Seq<char>)>)
    requires
        forall|i: int| 0 <= i < claims.len() ==> (#[trigger] claims[i]).0 == 0,
    ensures
        no_clash(claims),
{
}

} // verus!
