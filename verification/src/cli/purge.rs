//! The `purge` command: which artifacts are removed.
use vstd::prelude::*;
use vstd::string::*;

use crate::cli::args::PurgeArgs;
use crate::number::{count_text, decimal, decimal_text};
use crate::purge::PurgeCandidate;
use crate::size::{format_bytes, size_text};
use crate::text::{has_infix, has_prefix, occurs_at, push_text, texts};

verus! {

/// How `purge` goes on after the search.
#[derive(Debug, Clone, Copy, PartialEq, Eq, Structural)]
pub enum PurgePlan {
    /// The list of artifacts is all that was asked for.
    ReportOnly,
    /// There is nothing to remove.
    Nothing,
    /// Every artifact that was found is removed.
    All,
    /// The user chooses among them; nothing is chosen beforehand.
    Ask,
}

/// Without `--yes` nothing is removed that the user did not choose, and `--json` only reports.
pub open spec fn purge_plan(args: PurgeArgs, found: nat) -> PurgePlan {
    if args.json && !args.yes {
        PurgePlan::ReportOnly
    } else if found == 0 {
        PurgePlan::Nothing
    } else if args.yes {
        PurgePlan::All
    } else {
        PurgePlan::Ask
    }
}

pub fn plan_purge(args: &PurgeArgs, found: usize) -> (r: PurgePlan)
    ensures
        r == purge_plan(*args, found as nat),
{
    if args.json && !args.yes {
        PurgePlan::ReportOnly
    } else if found == 0 {
        PurgePlan::Nothing
    } else if args.yes {
        PurgePlan::All
    } else {
        PurgePlan::Ask
    }
}

pub open spec fn artifact_label(candidate: PurgeCandidate) -> Seq<char> {
    candidate.path@ + " | "@ + size_text(candidate.size as nat) + " | "@ + decimal(
        candidate.age_days as nat,
    ) + " days old"@
}

/// The artifacts among which the user chooses, as they are shown.
pub fn artifact_labels(candidates: &Vec<PurgeCandidate>) -> (r: Vec<String>)
    ensures
        texts(r@) == candidates@.map_values(|candidate: PurgeCandidate| artifact_label(candidate)),
{
    let ghost all = candidates@.map_values(|candidate: PurgeCandidate| artifact_label(candidate));
    let mut out: Vec<String> = Vec::new();
    let mut i: usize = 0;
    while i < candidates.len()
        invariant
            i <= candidates@.len(),
            all == candidates@.map_values(
                |candidate: PurgeCandidate| artifact_label(candidate),
            ),
            texts(out@) =~= all.take(i as int),
        decreases candidates.len() - i,
    {
        let candidate = &candidates[i];
        push_text(
            &mut out,
            candidate.path.clone().concat(" | ").concat(
                format_bytes(candidate.size).as_str(),
            ).concat(" | ").concat(decimal_text(candidate.age_days).as_str()).concat(" days old"),
        );
        i = i + 1;
    }
    proof {
        assert(all.take(candidates@.len() as int) =~= all);
    }
    out
}

/// The artifacts that the user chose.
pub fn chosen_artifacts(candidates: &Vec<PurgeCandidate>, chosen: &Vec<usize>) -> (r: Vec<
    PurgeCandidate,
>)
    requires
        forall|i: int| 0 <= i < chosen@.len() ==> (#[trigger] chosen@[i]) < candidates@.len(),
    ensures
        r@ == chosen@.map_values(|index: usize| candidates@[index as int]),
{
    let ghost all = chosen@.map_values(|index: usize| candidates@[index as int]);
    let mut out: Vec<PurgeCandidate> = Vec::new();
    let mut i: usize = 0;
    while i < chosen.len()
        invariant
            i <= chosen@.len(),
            forall|i: int| 0 <= i < chosen@.len() ==> (#[trigger] chosen@[i]) < candidates@.len(),
            all == chosen@.map_values(|index: usize| candidates@[index as int]),
            out@ =~= all.take(i as int),
        decreases chosen.len() - i,
    {
        out.push(candidates[chosen[i]].clone());
        i = i + 1;
    }
    proof {
        assert(all.take(chosen@.len() as int) =~= all);
    }
    out
}

pub open spec fn artifact_question(count: nat) -> Seq<char> {
    "Permanently remove "@ + decimal(count) + " selected artifact(s)?"@
}

/// What the user is asked before artifacts are removed.
pub fn confirm_purge_prompt(count: usize) -> (r: String)
    ensures
        r@ == artifact_question(count as nat),
{
    "Permanently remove ".to_owned().concat(count_text(count).as_str()).concat(
        " selected artifact(s)?",
    )
}

// ---------------------------------------------------------------------------------------
// Laws
// ---------------------------------------------------------------------------------------

/// Artifacts are removed without a question only with `--yes`; a report as JSON without it
/// removes nothing.
pub proof fn purging_needs_consent(args: PurgeArgs, found: nat)
    ensures
        purge_plan(args, found) is All ==> args.yes && found > 0,
        args.json && !args.yes ==> purge_plan(args, found) is ReportOnly,
{
}

/// A search that found something goes on: all of it is removed with `--yes`, and without it the
/// user chooses, unless only a report was asked for.
pub proof fn found_artifacts_are_dealt_with(args: PurgeArgs, found: nat)
    requires
        found > 0,
    ensures
        args.yes ==> purge_plan(args, found) is All,
        !args.yes && !args.json ==> purge_plan(args, found) is Ask,
        args.yes || !args.json ==> purge_plan(args, 0) is Nothing,
{
}

/// An artifact is offered by its path first, with its size and its age.
pub proof fn label_starts_with_the_path(candidate: PurgeCandidate)
    ensures
        has_prefix(artifact_label(candidate), candidate.path@),
        has_infix(artifact_label(candidate), size_text(candidate.size as nat)),
        has_infix(artifact_label(candidate), decimal(candidate.age_days as nat)),
{
    let label = artifact_label(candidate);
    let path = candidate.path@;
    let size = size_text(candidate.size as nat);
    let age = decimal(candidate.age_days as nat);
    let at = (path + " | "@).len() as int;
    let later = (path + " | "@ + size + " | "@).len() as int;
    assert(label.take(path.len() as int) =~= path);
    assert(label.subrange(at, at + size.len()) =~= size);
    assert(occurs_at(label, size, at));
    assert(label.subrange(later, later + age.len()) =~= age);
    assert(occurs_at(label, age, later));
}

} // verus!
