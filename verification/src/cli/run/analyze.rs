//! The steps of `analyze`.
use vstd::prelude::*;
use vstd::string::*;

use crate::analyze::{
    large_file_views, personal_file_item, AnalysisReport, LargeFile, LargeFileView,
};
use crate::cli::analyze::{
    analyze_plan, chosen_files, confirm_removal_prompt, every_named_file_is_selected, exact_files,
    file_label, has_file, large_file_labels,
    personal_candidates, personal_views, plan_analyze, removal_question, select_exact_large_files,
    AnalyzePlan, AnalyzePlanView, RequestedFile,
};
use crate::cli::args::AnalyzeArgs;
use crate::cli::run::{
    carried_out, carry_out, end, end_with, ended, ended_with, no_lines, quiet, quiet_step, refuse,
    refused, Json, Next, NextView, Step, StepView,
};
use crate::cli::support::{analysis_lines, analysis_report_lines, covered_bytes};
use crate::model::{item_views, ActionResult, ActionView, CleanupItem, ItemView};
use crate::path::parts;
use crate::size::{fault_text, parse_size, parsed_size};
use crate::text::{push_text, texts};

verus! {

/// Where an analysis stands.
#[derive(Debug, PartialEq, Eq)]
pub enum AnalyzePhase {
    /// The directory is measured; files of this size and more are listed.
    Looking { minimum: u64 },
    Resolving(Vec<LargeFile>),
    Choosing(Vec<LargeFile>),
    Confirming(Vec<LargeFile>),
    Executing(Vec<LargeFile>),
    Over,
}

pub enum AnalyzePhaseView {
    Looking { minimum: u64 },
    Resolving(Seq<LargeFileView>),
    Choosing(Seq<LargeFileView>),
    Confirming(Seq<LargeFileView>),
    Executing(Seq<LargeFileView>),
    Over,
}

impl View for AnalyzePhase {
    type V = AnalyzePhaseView;

    open spec fn view(&self) -> AnalyzePhaseView {
        match self {
            AnalyzePhase::Looking { minimum } => AnalyzePhaseView::Looking { minimum: *minimum },
            AnalyzePhase::Resolving(files) => AnalyzePhaseView::Resolving(
                large_file_views(files@),
            ),
            AnalyzePhase::Choosing(files) => AnalyzePhaseView::Choosing(large_file_views(files@)),
            AnalyzePhase::Confirming(files) => AnalyzePhaseView::Confirming(
                large_file_views(files@),
            ),
            AnalyzePhase::Executing(files) => AnalyzePhaseView::Executing(
                large_file_views(files@),
            ),
            AnalyzePhase::Over => AnalyzePhaseView::Over,
        }
    }
}

/// What came of a step.
#[derive(Debug, PartialEq, Eq)]
pub enum AnalyzeEvent {
    Found(AnalysisReport),
    /// What the names on the command line stand for.
    Resolved(Vec<RequestedFile>),
    Chosen(Vec<usize>),
    Answered(bool),
    Executed(Vec<ActionResult>),
}

#[derive(Debug, PartialEq, Eq)]
pub struct AnalyzeRun {
    pub args: AnalyzeArgs,
    pub home: String,
    pub interactive: bool,
    pub phase: AnalyzePhase,
}

/// What stays the same from step to step.
pub struct AnalyzeContext {
    pub args: AnalyzeArgs,
    pub home: Seq<char>,
    pub interactive: bool,
}

/// The step after the selection: a question, or the removal where the options agree already.
pub open spec fn analyze_selected(
    args: AnalyzeArgs,
    lines: Seq<Seq<char>>,
    selected: Seq<LargeFileView>,
) -> (AnalyzePhaseView, StepView) {
    if selected.len() == 0 {
        (
            AnalyzePhaseView::Over,
            if args.json {
                ended(lines, Some(Json::Results))
            } else {
                ended(lines.push("Nothing selected."@), None)
            },
        )
    } else if args.yes {
        (
            AnalyzePhaseView::Executing(selected),
            StepView { lines, next: NextView::Execute { dry_run: args.dry_run } },
        )
    } else {
        (
            AnalyzePhaseView::Confirming(selected),
            StepView { lines, next: NextView::Confirm(removal_question(selected.len())) },
        )
    }
}

/// The step after the directory was measured.
pub open spec fn analyze_found(context: AnalyzeContext, report: AnalysisReport) -> (
    AnalyzePhaseView,
    StepView,
) {
    let args = context.args;
    let personal = personal_views(report.large_files@);
    let lines = if args.json {
        seq![]
    } else {
        analysis_lines(report)
    };
    match analyze_plan(args, report.root@, context.home, context.interactive) {
        AnalyzePlanView::ReportOnly => (
            AnalyzePhaseView::Over,
            ended(
                lines,
                if args.json {
                    Some(Json::Report)
                } else {
                    None
                },
            ),
        ),
        AnalyzePlanView::Refuse(message) => (AnalyzePhaseView::Over, refused(message)),
        AnalyzePlanView::Exact => (
            AnalyzePhaseView::Resolving(personal),
            StepView { lines, next: NextView::Resolve },
        ),
        AnalyzePlanView::Ask => if personal.len() == 0 {
            analyze_selected(args, lines, personal)
        } else {
            (
                AnalyzePhaseView::Choosing(personal),
                StepView {
                    lines,
                    next: NextView::Choose {
                        prompt: "Select large personal files to permanently remove"@,
                        labels: personal.map_values(|file: LargeFileView| file_label(file)),
                    },
                },
            )
        },
    }
}

/// The step that follows on what came of the last one.
pub open spec fn analyze_next(
    context: AnalyzeContext,
    phase: AnalyzePhaseView,
    event: AnalyzeEvent,
) -> (AnalyzePhaseView, StepView) {
    let args = context.args;
    match (phase, event) {
        (AnalyzePhaseView::Looking { minimum }, AnalyzeEvent::Found(report)) => analyze_found(
            context,
            report,
        ),
        (AnalyzePhaseView::Resolving(files), AnalyzeEvent::Resolved(requested)) => match exact_files(
            files,
            requested@,
        ) {
            Ok(selected) => analyze_selected(args, seq![], selected),
            Err(message) => (AnalyzePhaseView::Over, refused(message)),
        },
        (AnalyzePhaseView::Choosing(files), AnalyzeEvent::Chosen(chosen)) => analyze_selected(
            args,
            seq![],
            chosen@.map_values(|index: usize| files[index as int]),
        ),
        (AnalyzePhaseView::Confirming(files), AnalyzeEvent::Answered(true)) => (
            AnalyzePhaseView::Executing(files),
            quiet(NextView::Execute { dry_run: args.dry_run }),
        ),
        (AnalyzePhaseView::Confirming(files), AnalyzeEvent::Answered(false)) => (
            AnalyzePhaseView::Over,
            ended_with("Cancelled."@),
        ),
        (AnalyzePhaseView::Executing(_), AnalyzeEvent::Executed(results)) => (
            AnalyzePhaseView::Over,
            carried_out(args.json, "large-file-cleanup"@, results@, seq![]),
        ),
        _ => (phase, quiet(NextView::Ignore)),
    }
}

/// `event` can come in `phase`: what is chosen was offered, and what is reported adds up.
pub open spec fn analyze_can_come(
    args: AnalyzeArgs,
    phase: AnalyzePhaseView,
    event: AnalyzeEvent,
) -> bool {
    match (phase, event) {
        (AnalyzePhaseView::Choosing(files), AnalyzeEvent::Chosen(chosen)) => forall|i: int|
            0 <= i < chosen@.len() ==> (#[trigger] chosen@[i]) < files.len(),
        (AnalyzePhaseView::Executing(_), AnalyzeEvent::Executed(results)) => args.json
            || covered_bytes(results@) <= u64::MAX,
        _ => true,
    }
}

fn select(args: &AnalyzeArgs, lines: Vec<String>, selected: Vec<LargeFile>) -> (r: (
    AnalyzePhase,
    Step,
))
    ensures
        (r.0@, r.1@) == analyze_selected(*args, texts(lines@), large_file_views(selected@)),
{
    let mut lines = lines;
    proof {
        assert(large_file_views(selected@).len() == selected@.len());
    }
    if selected.len() == 0 {
        if args.json {
            return (AnalyzePhase::Over, end(lines, Some(Json::Results)));
        }
        push_text(&mut lines, "Nothing selected.".to_owned());
        return (AnalyzePhase::Over, end(lines, None));
    }
    if args.yes {
        return (
            AnalyzePhase::Executing(selected),
            Step { lines, next: Next::Execute { dry_run: args.dry_run } },
        );
    }
    let prompt = confirm_removal_prompt(selected.len());
    (AnalyzePhase::Confirming(selected), Step { lines, next: Next::Confirm(prompt) })
}

fn find(args: &AnalyzeArgs, home: &str, interactive: bool, report: &AnalysisReport) -> (r: (
    AnalyzePhase,
    Step,
))
    ensures
        (r.0@, r.1@) == analyze_found(
            AnalyzeContext { args: *args, home: home@, interactive },
            *report,
        ),
{
    let mut lines = no_lines();
    if !args.json {
        lines = analysis_report_lines(report);
    }
    match plan_analyze(args, report.root.as_str(), home, interactive) {
        AnalyzePlan::ReportOnly => {
            let json = if args.json {
                Some(Json::Report)
            } else {
                None
            };
            (AnalyzePhase::Over, end(lines, json))
        },
        AnalyzePlan::Refuse(message) => (AnalyzePhase::Over, refuse(message)),
        AnalyzePlan::Exact => (
            AnalyzePhase::Resolving(personal_candidates(report)),
            Step { lines, next: Next::Resolve },
        ),
        AnalyzePlan::Ask => {
            let personal = personal_candidates(report);
            proof {
                assert(large_file_views(personal@).len() == personal@.len());
            }
            if personal.len() == 0 {
                return select(args, lines, personal);
            }
            let labels = large_file_labels(&personal);
            (
                AnalyzePhase::Choosing(personal),
                Step {
                    lines,
                    next: Next::Choose {
                        prompt: "Select large personal files to permanently remove".to_owned(),
                        labels,
                    },
                },
            )
        },
    }
}

impl AnalyzeRun {
    pub open spec fn context(self) -> AnalyzeContext {
        AnalyzeContext { args: self.args, home: self.home@, interactive: self.interactive }
    }

    /// Starts the command. It fails where the least size of a file cannot be understood.
    pub fn start(args: AnalyzeArgs, home: String, interactive: bool) -> (r: (Self, Step))
        ensures
            r.0.context() == (AnalyzeContext { args, home: home@, interactive }),
            in_order(args, r.0.phase@),
            match parsed_size(args.min_size@) {
                Ok(minimum) => r.0.phase@ == (AnalyzePhaseView::Looking { minimum: minimum as u64 })
                    && minimum <= u64::MAX && r.1@ == quiet(NextView::Look),
                Err(fault) => r.0.phase@ == AnalyzePhaseView::Over && r.1@ == refused(
                    fault_text(fault),
                ),
            },
    {
        match parse_size(args.min_size.as_str()) {
            Err(error) => (
                AnalyzeRun { args, home, interactive, phase: AnalyzePhase::Over },
                refuse(error.message()),
            ),
            Ok(minimum) => (
                AnalyzeRun { args, home, interactive, phase: AnalyzePhase::Looking { minimum } },
                quiet_step(Next::Look),
            ),
        }
    }

    /// Goes on with what came of the last step.
    pub fn next(self, event: AnalyzeEvent) -> (r: (Self, Step))
        requires
            analyze_can_come(self.args, self.phase@, event),
        ensures
            r.0.context() == self.context(),
            (r.0.phase@, r.1@) == analyze_next(self.context(), self.phase@, event),
    {
        let args = self.args;
        let home = self.home;
        let interactive = self.interactive;
        let (phase, step) = match (self.phase, event) {
            (AnalyzePhase::Looking { minimum }, AnalyzeEvent::Found(report)) => find(
                &args,
                home.as_str(),
                interactive,
                &report,
            ),
            (AnalyzePhase::Resolving(files), AnalyzeEvent::Resolved(requested)) => {
                match select_exact_large_files(&files, &requested) {
                    Ok(selected) => select(&args, no_lines(), selected),
                    Err(message) => (AnalyzePhase::Over, refuse(message)),
                }
            },
            (AnalyzePhase::Choosing(files), AnalyzeEvent::Chosen(chosen)) => {
                proof {
                    assert(large_file_views(files@).len() == files@.len());
                }
                let selected = chosen_files(&files, &chosen);
                proof {
                    assert(large_file_views(selected@) =~= chosen@.map_values(
                        |index: usize| large_file_views(files@)[index as int],
                    ));
                }
                select(&args, no_lines(), selected)
            },
            (AnalyzePhase::Confirming(files), AnalyzeEvent::Answered(true)) => (
                AnalyzePhase::Executing(files),
                quiet_step(Next::Execute { dry_run: args.dry_run }),
            ),
            (AnalyzePhase::Confirming(_), AnalyzeEvent::Answered(false)) => (
                AnalyzePhase::Over,
                end_with("Cancelled."),
            ),
            (AnalyzePhase::Executing(_), AnalyzeEvent::Executed(results)) => (
                AnalyzePhase::Over,
                carry_out(args.json, "large-file-cleanup", &results, no_lines()),
            ),
            (phase, _) => (phase, quiet_step(Next::Ignore)),
        };
        (AnalyzeRun { args, home, interactive, phase }, step)
    }

    /// The removals that are carried out, none of them forced.
    pub fn items(&self) -> (r: Vec<CleanupItem>)
        ensures
            item_views(r@) == removal_items(self.phase@),
    {
        let mut out: Vec<CleanupItem> = Vec::new();
        proof {
            assert(item_views(out@) =~= seq![]);
        }
        match &self.phase {
            AnalyzePhase::Executing(files) => {
                let ghost all = removal_items(self.phase@);
                let mut i: usize = 0;
                while i < files.len()
                    invariant
                        i <= files@.len(),
                        all == large_file_views(files@).map_values(
                            |file: LargeFileView| personal_file_item(file.path, file.size, false),
                        ),
                        item_views(out@) =~= all.take(i as int),
                    decreases files.len() - i,
                {
                    let ghost before = out@;
                    let item = files[i].cleanup_item(false);
                    let ghost view = item@;
                    out.push(item);
                    proof {
                        assert(item_views(out@) =~= item_views(before).push(view));
                    }
                    i = i + 1;
                }
                proof {
                    assert(all.take(i as int) =~= all);
                }
            },
            _ => {},
        }
        out
    }
}

/// The removals that are carried out.
pub open spec fn removal_items(phase: AnalyzePhaseView) -> Seq<ItemView> {
    match phase {
        AnalyzePhaseView::Executing(files) => files.map_values(
            |file: LargeFileView| personal_file_item(file.path, file.size, false),
        ),
        _ => seq![],
    }
}

// ---------------------------------------------------------------------------------------
// Laws
// ---------------------------------------------------------------------------------------

/// What holds from the first step on: a selection is made only with `--remove`, and the user
/// chooses only without `--yes`.
pub open spec fn in_order(args: AnalyzeArgs, phase: AnalyzePhaseView) -> bool {
    match phase {
        AnalyzePhaseView::Looking { minimum } => true,
        AnalyzePhaseView::Over => true,
        AnalyzePhaseView::Choosing(_) => args.remove && !args.yes,
        _ => args.remove,
    }
}

/// No file is removed without consent: a removal begins only on the yes to a question about
/// those same files, or with `--yes` on files that were named one by one.
pub proof fn removal_follows_consent(
    context: AnalyzeContext,
    phase: AnalyzePhaseView,
    event: AnalyzeEvent,
)
    requires
        analyze_can_come(context.args, phase, event),
        in_order(context.args, phase),
    ensures
        in_order(context.args, analyze_next(context, phase, event).0),
        analyze_next(context, phase, event).1.next is Execute ==> {
            let after = analyze_next(context, phase, event).0;
            match (phase, event) {
                (AnalyzePhaseView::Confirming(files), AnalyzeEvent::Answered(yes)) => yes && after
                    == AnalyzePhaseView::Executing(files),
                (AnalyzePhaseView::Resolving(files), AnalyzeEvent::Resolved(requested)) =>
                    context.args.yes && exact_files(files, requested@) is Ok && after
                        == AnalyzePhaseView::Executing(exact_files(files, requested@)->Ok_0),
                _ => false,
            }
        },
{
}

/// An analysis without `--remove` removes nothing, and one of another directory than the home
/// directory does not either.
pub proof fn analysis_alone_is_read_only(context: AnalyzeContext, minimum: u64, report: AnalysisReport)
    requires
        !context.args.remove || parts(report.root@) != parts(context.home),
    ensures
        analyze_next(
            context,
            AnalyzePhaseView::Looking { minimum },
            AnalyzeEvent::Found(report),
        ).0 is Over,
{
}

/// What was chosen is removed once it was agreed to, all of it and nothing else, and none of it by
/// force.
pub proof fn chosen_files_are_removed(
    context: AnalyzeContext,
    files: Seq<LargeFileView>,
    chosen: Vec<usize>,
)
    requires
        !context.args.yes,
        chosen@.len() > 0,
        forall|k: int| 0 <= k < chosen@.len() ==> (#[trigger] chosen@[k]) < files.len(),
    ensures
        ({
            let (asking, first) = analyze_next(
                context,
                AnalyzePhaseView::Choosing(files),
                AnalyzeEvent::Chosen(chosen),
            );
            let (agreed, second) = analyze_next(context, asking, AnalyzeEvent::Answered(true));
            let (denied, last) = analyze_next(context, asking, AnalyzeEvent::Answered(false));
            &&& first.next is Confirm
            &&& second.next == (NextView::Execute { dry_run: context.args.dry_run })
            &&& removal_items(agreed).len() == chosen@.len()
            &&& forall|k: int|
                0 <= k < chosen@.len() ==> removes(
                    removal_items(agreed)[k],
                    files[(#[trigger] chosen@[k]) as int],
                )
            &&& denied is Over && removal_items(denied).len() == 0 && !(last.next is Execute)
        }),
{
    let picked = chosen@.map_values(|index: usize| files[index as int]);
    assert(picked.len() == chosen@.len());
    assert forall|k: int| 0 <= k < chosen@.len() implies picked[k] == files[(
    #[trigger] chosen@[k]) as int] by {}
}

/// The item removes the file, not by force, and counts its size.
pub open spec fn removes(item: ItemView, file: LargeFileView) -> bool {
    item.action == (ActionView::RemovePersonalFile { path: file.path, force: false })
        && item.estimated_bytes == file.size
}

/// With `--yes` the files that were named are removed: every one of them, without a question.
pub proof fn named_files_are_removed(
    context: AnalyzeContext,
    files: Seq<LargeFileView>,
    requested: Vec<RequestedFile>,
    k: int,
)
    requires
        context.args.yes,
        0 <= k < requested@.len(),
        exact_files(files, requested@) is Ok,
    ensures
        ({
            let (phase, step) = analyze_next(
                context,
                AnalyzePhaseView::Resolving(files),
                AnalyzeEvent::Resolved(requested),
            );
            &&& step.next == (NextView::Execute { dry_run: context.args.dry_run })
            &&& phase matches AnalyzePhaseView::Executing(selected) && (
            requested@[k].resolved matches Ok(path) && has_file(selected, path@))
        }),
{
    every_named_file_is_selected(files, requested@);
    assert(requested@[k].resolved is Ok);
}

/// A name that cannot be resolved, or is no candidate, ends the command with the reason, and what
/// was done is recorded as a cleanup of large files.
pub proof fn removal_is_recorded(
    context: AnalyzeContext,
    files: Seq<LargeFileView>,
    requested: Vec<RequestedFile>,
    results: Vec<ActionResult>,
)
    ensures
        exact_files(files, requested@) matches Err(message) ==> analyze_next(
            context,
            AnalyzePhaseView::Resolving(files),
            AnalyzeEvent::Resolved(requested),
        ) == (AnalyzePhaseView::Over, refused(message)),
        analyze_next(context, AnalyzePhaseView::Executing(files), AnalyzeEvent::Executed(results))
            == (
            AnalyzePhaseView::Over,
            carried_out(context.args.json, "large-file-cleanup"@, results@, seq![]),
        ),
{
}

} // verus!
