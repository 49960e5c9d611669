//! The steps of `purge`.
use vstd::prelude::*;
use vstd::string::*;

use crate::cli::args::PurgeArgs;
use crate::cli::purge::{
    artifact_label, artifact_labels, chosen_artifacts, confirm_purge_prompt, plan_purge,
    purge_plan, artifact_question, PurgePlan,
};
use crate::cli::run::{
    carried_out, carry_out, end, end_with, ended, ended_with, no_lines, quiet, quiet_step, refuse,
    refused, Json, Next, NextView, Step, StepView,
};
use crate::cli::support::{
    candidate_lines, covered_bytes, needs_terminal_text, purge_candidate_lines,
    validate_noninteractive,
};
use crate::model::{item_views, ActionResult, ActionView, CleanupItem, ItemView};
use crate::purge::{artifact_item, PurgeCandidate};
use crate::text::texts;

verus! {

/// Where a purge stands.
#[derive(Debug, PartialEq, Eq)]
pub enum PurgePhase {
    Looking,
    Choosing(Vec<PurgeCandidate>),
    Confirming(Vec<PurgeCandidate>),
    Executing(Vec<PurgeCandidate>),
    Over,
}

pub enum PurgePhaseView {
    Looking,
    Choosing(Seq<PurgeCandidate>),
    Confirming(Seq<PurgeCandidate>),
    Executing(Seq<PurgeCandidate>),
    Over,
}

impl View for PurgePhase {
    type V = PurgePhaseView;

    open spec fn view(&self) -> PurgePhaseView {
        match self {
            PurgePhase::Looking => PurgePhaseView::Looking,
            PurgePhase::Choosing(list) => PurgePhaseView::Choosing(list@),
            PurgePhase::Confirming(list) => PurgePhaseView::Confirming(list@),
            PurgePhase::Executing(list) => PurgePhaseView::Executing(list@),
            PurgePhase::Over => PurgePhaseView::Over,
        }
    }
}

/// What came of a step.
#[derive(Debug, PartialEq, Eq)]
pub enum PurgeEvent {
    /// The artifacts that were found, and where they were looked for.
    Found { roots: Vec<String>, candidates: Vec<PurgeCandidate> },
    Chosen(Vec<usize>),
    Answered(bool),
    Executed(Vec<ActionResult>),
}

#[derive(Debug, PartialEq, Eq)]
pub struct PurgeRun {
    pub args: PurgeArgs,
    pub phase: PurgePhase,
}

/// The step after the artifacts were found.
pub open spec fn purge_found(
    args: PurgeArgs,
    roots: Seq<Seq<char>>,
    candidates: Seq<PurgeCandidate>,
) -> (PurgePhaseView, StepView) {
    let lines = if args.json {
        seq![]
    } else {
        candidate_lines(candidates, roots, args.older_than_days)
    };
    match purge_plan(args, candidates.len()) {
        PurgePlan::ReportOnly => (PurgePhaseView::Over, ended(seq![], Some(Json::Report))),
        PurgePlan::Nothing => (PurgePhaseView::Over, ended(lines, None)),
        PurgePlan::All => (
            PurgePhaseView::Executing(candidates),
            StepView { lines, next: NextView::Execute { dry_run: args.dry_run } },
        ),
        PurgePlan::Ask => (
            PurgePhaseView::Choosing(candidates),
            StepView {
                lines,
                next: NextView::Choose {
                    prompt: "Select project artifacts to permanently remove"@,
                    labels: candidates.map_values(
                        |candidate: PurgeCandidate| artifact_label(candidate),
                    ),
                },
            },
        ),
    }
}

/// The step that follows on what came of the last one.
pub open spec fn purge_next(args: PurgeArgs, phase: PurgePhaseView, event: PurgeEvent) -> (
    PurgePhaseView,
    StepView,
) {
    match (phase, event) {
        (PurgePhaseView::Looking, PurgeEvent::Found { roots, candidates }) => purge_found(
            args,
            texts(roots@),
            candidates@,
        ),
        (PurgePhaseView::Choosing(list), PurgeEvent::Chosen(chosen)) => if chosen@.len() == 0 {
            (PurgePhaseView::Over, ended_with("Nothing selected."@))
        } else {
            (
                PurgePhaseView::Confirming(chosen@.map_values(|index: usize| list[index as int])),
                quiet(NextView::Confirm(artifact_question(chosen@.len()))),
            )
        },
        (PurgePhaseView::Confirming(list), PurgeEvent::Answered(true)) => (
            PurgePhaseView::Executing(list),
            quiet(NextView::Execute { dry_run: args.dry_run }),
        ),
        (PurgePhaseView::Confirming(list), PurgeEvent::Answered(false)) => (
            PurgePhaseView::Over,
            ended_with("Cancelled."@),
        ),
        (PurgePhaseView::Executing(_), PurgeEvent::Executed(results)) => (
            PurgePhaseView::Over,
            carried_out(args.json, "purge"@, results@, seq![]),
        ),
        _ => (phase, quiet(NextView::Ignore)),
    }
}

/// `event` can come in `phase`: what is chosen was offered, and what is reported adds up.
pub open spec fn purge_can_come(args: PurgeArgs, phase: PurgePhaseView, event: PurgeEvent) -> bool {
    match (phase, event) {
        (PurgePhaseView::Choosing(list), PurgeEvent::Chosen(chosen)) => forall|i: int|
            0 <= i < chosen@.len() ==> (#[trigger] chosen@[i]) < list.len(),
        (PurgePhaseView::Executing(_), PurgeEvent::Executed(results)) => args.json
            || covered_bytes(results@) <= u64::MAX,
        _ => true,
    }
}

fn find(args: PurgeArgs, roots: &Vec<String>, candidates: Vec<PurgeCandidate>) -> (r: (
    PurgeRun,
    Step,
))
    ensures
        r.0.args == args,
        (r.0.phase@, r.1@) == purge_found(args, texts(roots@), candidates@),
{
    let mut lines = no_lines();
    if !args.json {
        lines = purge_candidate_lines(&candidates, roots, args.older_than_days);
    }
    let dry_run = args.dry_run;
    match plan_purge(&args, candidates.len()) {
        PurgePlan::ReportOnly => {
            (PurgeRun { args, phase: PurgePhase::Over }, end(lines, Some(Json::Report)))
        },
        PurgePlan::Nothing => (PurgeRun { args, phase: PurgePhase::Over }, end(lines, None)),
        PurgePlan::All => (
            PurgeRun { args, phase: PurgePhase::Executing(candidates) },
            Step { lines, next: Next::Execute { dry_run } },
        ),
        PurgePlan::Ask => {
            let labels = artifact_labels(&candidates);
            (
                PurgeRun { args, phase: PurgePhase::Choosing(candidates) },
                Step {
                    lines,
                    next: Next::Choose {
                        prompt: "Select project artifacts to permanently remove".to_owned(),
                        labels,
                    },
                },
            )
        },
    }
}

impl PurgeRun {
    /// Starts the command. It is refused where nobody can be asked.
    pub fn start(args: PurgeArgs, interactive: bool) -> (r: (Self, Step))
        ensures
            r.0.args == args,
            (r.0.phase@, r.1@) == if args.yes || args.json || interactive {
                (PurgePhaseView::Looking, quiet(NextView::Look))
            } else {
                (PurgePhaseView::Over, refused(needs_terminal_text("purge"@)))
            },
    {
        match validate_noninteractive(args.yes, args.json, interactive, "purge") {
            Err(message) => (PurgeRun { args, phase: PurgePhase::Over }, refuse(message)),
            Ok(()) => (PurgeRun { args, phase: PurgePhase::Looking }, quiet_step(Next::Look)),
        }
    }

    /// Goes on with what came of the last step.
    pub fn next(self, event: PurgeEvent) -> (r: (Self, Step))
        requires
            purge_can_come(self.args, self.phase@, event),
        ensures
            r.0.args == self.args,
            (r.0.phase@, r.1@) == purge_next(self.args, self.phase@, event),
    {
        let args = self.args;
        let dry_run = args.dry_run;
        match (self.phase, event) {
            (PurgePhase::Looking, PurgeEvent::Found { roots, candidates }) => {
                find(args, &roots, candidates)
            },
            (PurgePhase::Choosing(list), PurgeEvent::Chosen(chosen)) => {
                if chosen.len() == 0 {
                    return (
                        PurgeRun { args, phase: PurgePhase::Over },
                        end_with("Nothing selected."),
                    );
                }
                let picked = chosen_artifacts(&list, &chosen);
                proof {
                    assert(picked@ =~= chosen@.map_values(|index: usize| list@[index as int]));
                }
                let prompt = confirm_purge_prompt(chosen.len());
                (
                    PurgeRun { args, phase: PurgePhase::Confirming(picked) },
                    quiet_step(Next::Confirm(prompt)),
                )
            },
            (PurgePhase::Confirming(list), PurgeEvent::Answered(true)) => (
                PurgeRun { args, phase: PurgePhase::Executing(list) },
                quiet_step(Next::Execute { dry_run }),
            ),
            (PurgePhase::Confirming(_), PurgeEvent::Answered(false)) => (
                PurgeRun { args, phase: PurgePhase::Over },
                end_with("Cancelled."),
            ),
            (PurgePhase::Executing(_), PurgeEvent::Executed(results)) => {
                let step = carry_out(args.json, "purge", &results, no_lines());
                (PurgeRun { args, phase: PurgePhase::Over }, step)
            },
            (phase, _) => (PurgeRun { args, phase }, quiet_step(Next::Ignore)),
        }
    }

    /// The removals that are carried out.
    pub fn items(&self) -> (r: Vec<CleanupItem>)
        ensures
            item_views(r@) == purge_items(self.phase@),
    {
        let mut out: Vec<CleanupItem> = Vec::new();
        proof {
            assert(item_views(out@) =~= seq![]);
        }
        match &self.phase {
            PurgePhase::Executing(list) => {
                let ghost all = purge_items(self.phase@);
                let mut i: usize = 0;
                while i < list.len()
                    invariant
                        i <= list@.len(),
                        all == list@.map_values(
                            |candidate: PurgeCandidate|
                                artifact_item(candidate.path@, candidate.size),
                        ),
                        item_views(out@) =~= all.take(i as int),
                    decreases list.len() - i,
                {
                    let ghost before = out@;
                    let item = list[i].cleanup_item();
                    let ghost view = item@;
                    out.push(item);
                    proof {
                        assert(item_views(out@) =~= item_views(before).push(view));
                    }
                    i = i + 1;
                }
                proof {
                    assert(all.take(i as int) =~= all);
                }
            },
            _ => {},
        }
        out
    }
}

/// The removals that are carried out.
pub open spec fn purge_items(phase: PurgePhaseView) -> Seq<ItemView> {
    match phase {
        PurgePhaseView::Executing(list) => list.map_values(
            |candidate: PurgeCandidate| artifact_item(candidate.path@, candidate.size),
        ),
        _ => seq![],
    }
}

// ---------------------------------------------------------------------------------------
// Laws
// ---------------------------------------------------------------------------------------

/// No artifact is removed without consent: a removal begins only on the yes to a question about
/// those same artifacts, or on all that were found with `--yes`.
pub proof fn purge_follows_consent(args: PurgeArgs, phase: PurgePhaseView, event: PurgeEvent)
    requires
        purge_can_come(args, phase, event),
    ensures
        purge_next(args, phase, event).1.next is Execute ==> {
            let after = purge_next(args, phase, event).0;
            match (phase, event) {
                (PurgePhaseView::Confirming(list), PurgeEvent::Answered(yes)) => yes && after
                    == PurgePhaseView::Executing(list),
                (PurgePhaseView::Looking, PurgeEvent::Found { roots, candidates }) => args.yes
                    && after == PurgePhaseView::Executing(candidates@),
                _ => false,
            }
        },
        args.json && !args.yes && phase is Looking ==> !(purge_next(
            args,
            phase,
            event,
        ).1.next is Execute),
{
}

/// What was chosen is removed once it was agreed to, all of it and nothing else; with `--yes`,
/// everything that was found. What is carried out removes each artifact whole.
pub proof fn chosen_artifacts_are_removed(
    args: PurgeArgs,
    list: Seq<PurgeCandidate>,
    chosen: Vec<usize>,
)
    requires
        chosen@.len() > 0,
        forall|k: int| 0 <= k < chosen@.len() ==> (#[trigger] chosen@[k]) < list.len(),
    ensures
        ({
            let (asking, first) = purge_next(
                args,
                PurgePhaseView::Choosing(list),
                PurgeEvent::Chosen(chosen),
            );
            let (agreed, second) = purge_next(args, asking, PurgeEvent::Answered(true));
            let (denied, last) = purge_next(args, asking, PurgeEvent::Answered(false));
            &&& first.next is Confirm
            &&& second.next == (NextView::Execute { dry_run: args.dry_run })
            &&& purge_items(agreed).len() == chosen@.len()
            &&& forall|k: int|
                0 <= k < chosen@.len() ==> removes(
                    purge_items(agreed)[k],
                    list[(#[trigger] chosen@[k]) as int],
                )
            &&& denied is Over && purge_items(denied).len() == 0 && !(last.next is Execute)
        }),
        ({
            let (phase, step) = purge_found(args, seq![], list);
            args.yes ==> {
                &&& step.next == (NextView::Execute { dry_run: args.dry_run })
                &&& purge_items(phase).len() == list.len()
                &&& forall|k: int|
                    0 <= k < list.len() ==> removes(purge_items(phase)[k], #[trigger] list[k])
            }
        }),
{
    let picked = chosen@.map_values(|index: usize| list[index as int]);
    assert(picked.len() == chosen@.len());
    assert forall|k: int| 0 <= k < chosen@.len() implies picked[k] == list[(
    #[trigger] chosen@[k]) as int] by {}
    assert(chosen@[0] < list.len());
}

/// The item removes the artifact whole, and counts its size.
pub open spec fn removes(item: ItemView, candidate: PurgeCandidate) -> bool {
    item.action == (ActionView::RemovePath { path: candidate.path@, contents_only: false })
        && item.estimated_bytes == candidate.size
}

/// What a purge did is recorded as such.
pub proof fn purge_is_recorded(
    args: PurgeArgs,
    list: Seq<PurgeCandidate>,
    results: Vec<ActionResult>,
)
    ensures
        purge_next(args, PurgePhaseView::Executing(list), PurgeEvent::Executed(results)) == (
            PurgePhaseView::Over,
            carried_out(args.json, "purge"@, results@, seq![]),
        ),
{
}

} // verus!
