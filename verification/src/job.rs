//! Decisions of the safe conversion pipeline.
//!
//! A job runs a fixed sequence: sniff the input's real format, resolve a
//! route, convert into an isolated temporary file, re-sniff and validate
//! that file, and only then move it onto a collision-free final path. The
//! caller performs each step; the functions here decide what comes next.
use vstd::prelude::*;
use std::path::PathBuf;
use crate::format::Format;
use crate::text::{
    chars_to_string, decimal, lemma_decimal_digits, lemma_decimal_injective, push_decimal,
    push_str_chars,
};

verus! {

/// The outcome of a successful job.
pub struct JobReport {
    pub input: PathBuf,
    pub output: PathBuf,
    pub from: Format,
    pub to: Format,
    pub adapter_name: &'static str,
}

// ---------------------------------------------------------------------
// Pipeline steps
// ---------------------------------------------------------------------

#[derive(Debug, Clone, Copy, PartialEq, Eq, Structural)]
pub enum JobPhase {
    /// Sniff the input's format.
    Detect,
    /// Resolve an adapter for the route.
    Route,
    /// Create the target directory and the temporary output file.
    Prepare,
    /// Run the adapter into the temporary file.
    Convert,
    /// Re-sniff and validate the temporary file.
    Validate,
    /// Choose a collision-free final path.
    Place,
    /// Atomically rename the temporary file onto the final path.
    Rename,
    /// The job succeeded.
    Done,
    /// The job failed.
    Failed,
}

/// The step after `p` when `p` succeeds.
pub open spec fn successor(p: JobPhase) -> JobPhase {
    match p {
        JobPhase::Detect => JobPhase::Route,
        JobPhase::Route => JobPhase::Prepare,
        JobPhase::Prepare => JobPhase::Convert,
        JobPhase::Convert => JobPhase::Validate,
        JobPhase::Validate => JobPhase::Place,
        JobPhase::Place => JobPhase::Rename,
        JobPhase::Rename => JobPhase::Done,
        JobPhase::Done => JobPhase::Done,
        JobPhase::Failed => JobPhase::Failed,
    }
}

/// What follows a step: the next step, and whether the temporary output
/// must be deleted first. A failed conversion or validation deletes the
/// temporary file; every failure ends the job.
pub open spec fn transition(p: JobPhase, ok: bool) -> (JobPhase, bool) {
    if ok {
        (successor(p), false)
    } else {
        (JobPhase::Failed, p == JobPhase::Convert || p == JobPhase::Validate)
    }
}

/// Decide what follows step `phase`, given whether it succeeded: the next
/// step and whether the temporary output is to be removed.
pub fn job_step(phase: JobPhase, ok: bool) -> (r: (JobPhase, bool))
    requires
        phase != JobPhase::Done,
        phase != JobPhase::Failed,
    ensures
        r == transition(phase, ok),
{
    if !ok {
        let cleanup = match phase {
            JobPhase::Convert | JobPhase::Validate => true,
            _ => false,
        };
        return (JobPhase::Failed, cleanup);
    }
    let next = match phase {
        JobPhase::Detect => JobPhase::Route,
        JobPhase::Route => JobPhase::Prepare,
        JobPhase::Prepare => JobPhase::Convert,
        JobPhase::Convert => JobPhase::Validate,
        JobPhase::Validate => JobPhase::Place,
        JobPhase::Place => JobPhase::Rename,
        _ => JobPhase::Done,
    };
    (next, false)
}

/// Only a validated output is ever placed: the final path is chosen only
/// right after a successful validation, the rename only right after that,
/// and a job is done only after the rename succeeded. The temporary output
/// is deleted only when the job fails.
pub proof fn lemma_only_validated_output_is_placed(p: JobPhase, ok: bool)
    requires
        p != JobPhase::Done,
        p != JobPhase::Failed,
    ensures
        transition(p, ok).0 == JobPhase::Place ==> p == JobPhase::Validate && ok,
        transition(p, ok).0 == JobPhase::Rename ==> p == JobPhase::Place && ok,
        transition(p, ok).0 == JobPhase::Done ==> p == JobPhase::Rename && ok,
        transition(p, ok).1 ==> transition(p, ok).0 == JobPhase::Failed,
{
}

// ---------------------------------------------------------------------
// Collision-free output names
// ---------------------------------------------------------------------

/// Candidate names tried for one output before giving up.
pub const MAX_ATTEMPTS: u32 = 1000;

/// The `n`-th candidate name: `stem.ext`, then `stem_1.ext`, `stem_2.ext`, ...
pub open spec fn candidate_name(stem: Seq<char>, ext: Seq<char>, n: nat) -> Seq<char> {
    if n == 0 {
        stem + "."@ + ext
    } else {
        stem + "_"@ + decimal(n) + "."@ + ext
    }
}

/// The candidate names are pairwise different, so the policy never probes
/// one name twice: `MAX_ATTEMPTS` probes look at `MAX_ATTEMPTS` names.
pub proof fn lemma_candidates_differ(stem: Seq<char>, ext: Seq<char>, n: nat, m: nat)
    requires
        n != m,
    ensures
        candidate_name(stem, ext, n) != candidate_name(stem, ext, m),
{
    if n < m {
        lemma_candidates_differ_ordered(stem, ext, n, m);
    } else {
        lemma_candidates_differ_ordered(stem, ext, m, n);
    }
}

proof fn lemma_candidates_differ_ordered(stem: Seq<char>, ext: Seq<char>, n: nat, m: nat)
    requires
        n < m,
    ensures
        candidate_name(stem, ext, n) != candidate_name(stem, ext, m),
{
    reveal_strlit(".");
    reveal_strlit("_");
    let a = candidate_name(stem, ext, n);
    let b = candidate_name(stem, ext, m);
    let p = stem.len() as int;
    lemma_decimal_digits(m);
    let dm = decimal(m);
    if n == 0 {
        assert(a[p] == '.');
        assert(b[p] == '_');
    } else {
        lemma_decimal_digits(n);
        let dn = decimal(n);
        if a == b {
            if dn.len() == dm.len() {
                assert forall|i: int| 0 <= i < dn.len() implies dn[i] == dm[i] by {
                    assert(a[p + 1 + i] == dn[i]);
                    assert(b[p + 1 + i] == dm[i]);
                }
                assert(dn =~= dm);
                lemma_decimal_injective(n, m);
            } else if dn.len() < dm.len() {
                assert(a[p + 1 + dn.len()] == '.');
                assert(b[p + 1 + dn.len()] == dm[dn.len() as int]);
            } else {
                assert(b[p + 1 + dm.len()] == '.');
                assert(a[p + 1 + dm.len()] == dn[dm.len() as int]);
            }
        }
    }
}

/// The `n`-th candidate file name for an output with stem `stem` and
/// extension `ext`.
pub fn collision_candidate(stem: &str, ext: &str, n: u32) -> (r: String)
    ensures
        r@ == candidate_name(stem@, ext@, n as nat),
{
    let mut out: Vec<char> = Vec::new();
    push_str_chars(&mut out, stem);
    if n > 0 {
        push_str_chars(&mut out, "_");
        push_decimal(&mut out, n);
    }
    push_str_chars(&mut out, ".");
    push_str_chars(&mut out, ext);
    assert(out@ =~= candidate_name(stem@, ext@, n as nat));
    chars_to_string(out.as_slice())
}

/// The next move of the collision policy.
#[derive(Debug, Clone, Copy, PartialEq, Eq, Structural)]
pub enum CollisionStep {
    /// Check whether candidate `n` is already taken.
    Probe(u32),
    /// Candidate `n` is free: use it.
    Take(u32),
    /// Every candidate is taken.
    Exhausted,
}

/// The policy starts by probing the plain name `stem.ext`.
pub fn first_collision_step() -> (r: CollisionStep)
    ensures
        r == CollisionStep::Probe(0),
{
    CollisionStep::Probe(0)
}

/// After probing candidate `n`: take it if it is free, otherwise probe the
/// next one, giving up once all `MAX_ATTEMPTS` candidates are taken.
pub fn next_collision_step(n: u32, taken: bool) -> (r: CollisionStep)
    requires
        n < MAX_ATTEMPTS,
    ensures
        !taken ==> r == CollisionStep::Take(n),
        taken && n + 1 < MAX_ATTEMPTS ==> r == CollisionStep::Probe((n + 1) as u32),
        taken && n + 1 >= MAX_ATTEMPTS ==> r == CollisionStep::Exhausted,
{
    if !taken {
        CollisionStep::Take(n)
    } else if n + 1 < MAX_ATTEMPTS {
        CollisionStep::Probe(n + 1)
    } else {
        CollisionStep::Exhausted
    }
}

} // verus!
