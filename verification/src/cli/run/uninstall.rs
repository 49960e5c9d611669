//! The steps of `uninstall`.
use vstd::prelude::*;
use vstd::string::*;

use crate::cli::args::UninstallArgs;
use crate::cli::run::{
    carried_out, carry_out, end, end_with, ended, ended_with, no_lines, quiet, quiet_step, refuse,
    refused, Json, Next, NextView, Step, StepView,
};
use crate::cli::support::covered_bytes;
use crate::cli::uninstall::{
    application_label, application_labels, application_report_lines, catalog_lines,
    chosen_applications, confirm_uninstall_prompt, filter_applications,
    needs_confirmation, passes, plan_uninstall,
    removal_plan_lines, uninstall_plan, uninstall_preview_lines, uninstall_question,
    uninstall_refusal, validate_uninstall, UninstallPlan, UninstallPlanView,
};
use crate::model::ActionResult;
use crate::text::{list1, push_text, texts};
use crate::uninstall::{
    application_views, Application, ApplicationReport, ApplicationView, UninstallPreview,
};

verus! {

/// Where an uninstall stands.
#[derive(Debug, PartialEq, Eq)]
pub enum UninstallPhase {
    Looking,
    Choosing(Vec<Application>),
    Previewing(Vec<Application>),
    Confirming(Vec<Application>),
    Executing(Vec<Application>),
    Over,
}

pub enum UninstallPhaseView {
    Looking,
    Choosing(Seq<ApplicationView>),
    Previewing(Seq<ApplicationView>),
    Confirming(Seq<ApplicationView>),
    Executing(Seq<ApplicationView>),
    Over,
}

impl View for UninstallPhase {
    type V = UninstallPhaseView;

    open spec fn view(&self) -> UninstallPhaseView {
        match self {
            UninstallPhase::Looking => UninstallPhaseView::Looking,
            UninstallPhase::Choosing(list) => UninstallPhaseView::Choosing(
                application_views(list@),
            ),
            UninstallPhase::Previewing(list) => UninstallPhaseView::Previewing(
                application_views(list@),
            ),
            UninstallPhase::Confirming(list) => UninstallPhaseView::Confirming(
                application_views(list@),
            ),
            UninstallPhase::Executing(list) => UninstallPhaseView::Executing(
                application_views(list@),
            ),
            UninstallPhase::Over => UninstallPhaseView::Over,
        }
    }
}

/// What came of a step.
#[derive(Debug, PartialEq, Eq)]
pub enum UninstallEvent {
    /// The catalog of what is installed.
    Found(ApplicationReport),
    Chosen(Vec<usize>),
    Previewed(Result<Vec<UninstallPreview>, String>),
    Answered(bool),
    Executed(Vec<ActionResult>),
}

#[derive(Debug, PartialEq, Eq)]
pub struct UninstallRun {
    pub args: UninstallArgs,
    pub phase: UninstallPhase,
}

/// The part of a catalog that the options speak of.
pub open spec fn filtered(args: UninstallArgs, applications: Seq<ApplicationView>) -> Seq<
    ApplicationView,
> {
    applications.filter(|application: ApplicationView| passes(args, application))
}

/// The step after the selection: a preview, unless nothing is selected.
pub open spec fn uninstall_selected(
    lines: Seq<Seq<char>>,
    args: UninstallArgs,
    selected: Seq<ApplicationView>,
) -> (UninstallPhaseView, StepView) {
    if selected.len() == 0 {
        (
            UninstallPhaseView::Over,
            ended(
                lines + (if args.json {
                    seq![]
                } else {
                    seq!["Nothing selected."@]
                }),
                None,
            ),
        )
    } else {
        (
            UninstallPhaseView::Previewing(selected),
            StepView { lines, next: NextView::Preview },
        )
    }
}

/// The step after the catalog was read.
pub open spec fn uninstall_found(args: UninstallArgs, report: ApplicationReport) -> (
    UninstallPhaseView,
    StepView,
) {
    let catalog = filtered(args, application_views(report.applications@));
    let lines = if args.json {
        seq![]
    } else {
        catalog_lines(report.distribution@, catalog, texts(report.warnings@))
    };
    match uninstall_plan(args, catalog) {
        UninstallPlanView::ReportOnly => (
            UninstallPhaseView::Over,
            ended(seq![], Some(Json::Report)),
        ),
        UninstallPlanView::Refuse(message) => (
            UninstallPhaseView::Over,
            StepView {
                lines,
                next: NextView::Finish { record: None, json: None, outcome: Err(message) },
            },
        ),
        UninstallPlanView::Nothing => (
            UninstallPhaseView::Over,
            ended(
                lines + (if args.json {
                    seq![]
                } else {
                    seq!["No matching applications found."@]
                }),
                None,
            ),
        ),
        UninstallPlanView::Ask => (
            UninstallPhaseView::Choosing(catalog),
            StepView {
                lines,
                next: NextView::Choose {
                    prompt: "Select applications to uninstall (nothing is selected by default)"@,
                    labels: catalog.map_values(
                        |application: ApplicationView| application_label(application),
                    ),
                },
            },
        ),
        UninstallPlanView::Exact(selected) => uninstall_selected(lines, args, selected),
    }
}

/// The step after the previews: the plan is shown, and the user asked where the options do not
/// answer already.
pub open spec fn uninstall_previewed(
    args: UninstallArgs,
    selected: Seq<ApplicationView>,
    previews: Seq<UninstallPreview>,
) -> (UninstallPhaseView, StepView) {
    let lines = if args.json {
        seq![]
    } else {
        removal_plan_lines(selected, previews)
    };
    if args.dry_run || args.yes {
        (
            UninstallPhaseView::Executing(selected),
            StepView { lines, next: NextView::Execute { dry_run: args.dry_run } },
        )
    } else {
        (
            UninstallPhaseView::Confirming(selected),
            StepView { lines, next: NextView::Confirm(uninstall_question(selected.len())) },
        )
    }
}

/// The step that follows on what came of the last one.
pub open spec fn uninstall_next(
    args: UninstallArgs,
    phase: UninstallPhaseView,
    event: UninstallEvent,
) -> (UninstallPhaseView, StepView) {
    match (phase, event) {
        (UninstallPhaseView::Looking, UninstallEvent::Found(report)) => uninstall_found(
            args,
            report,
        ),
        (UninstallPhaseView::Choosing(list), UninstallEvent::Chosen(chosen)) => uninstall_selected(
            seq![],
            args,
            chosen@.map_values(|index: usize| list[index as int]),
        ),
        (UninstallPhaseView::Previewing(selected), UninstallEvent::Previewed(Err(message))) => (
            UninstallPhaseView::Over,
            refused(message@),
        ),
        (UninstallPhaseView::Previewing(selected), UninstallEvent::Previewed(Ok(previews))) =>
            uninstall_previewed(args, selected, previews@),
        (UninstallPhaseView::Confirming(selected), UninstallEvent::Answered(true)) => (
            UninstallPhaseView::Executing(selected),
            quiet(NextView::Execute { dry_run: args.dry_run }),
        ),
        (UninstallPhaseView::Confirming(selected), UninstallEvent::Answered(false)) => (
            UninstallPhaseView::Over,
            ended_with("Cancelled."@),
        ),
        (UninstallPhaseView::Executing(selected), UninstallEvent::Executed(results)) => (
            UninstallPhaseView::Over,
            carried_out(
                args.json,
                "uninstall"@,
                results@,
                seq!["Application configuration and user data were preserved."@],
            ),
        ),
        _ => (phase, quiet(NextView::Ignore)),
    }
}

/// `event` can come in `phase`: what is chosen was offered, and what is reported adds up.
pub open spec fn uninstall_can_come(
    args: UninstallArgs,
    phase: UninstallPhaseView,
    event: UninstallEvent,
) -> bool {
    match (phase, event) {
        (UninstallPhaseView::Choosing(list), UninstallEvent::Chosen(chosen)) => forall|i: int|
            0 <= i < chosen@.len() ==> (#[trigger] chosen@[i]) < list.len(),
        (UninstallPhaseView::Executing(_), UninstallEvent::Executed(results)) => args.json
            || covered_bytes(results@) <= u64::MAX,
        _ => true,
    }
}

fn select(lines: Vec<String>, args: UninstallArgs, selected: Vec<Application>) -> (r: (
    UninstallRun,
    Step,
))
    ensures
        r.0.args == args,
        (r.0.phase@, r.1@) == uninstall_selected(
            texts(lines@),
            args,
            application_views(selected@),
        ),
{
    let mut lines = lines;
    let ghost start = texts(lines@);
    proof {
        assert(application_views(selected@).len() == selected@.len());
    }
    if selected.len() == 0 {
        if !args.json {
            push_text(&mut lines, "Nothing selected.".to_owned());
        }
        proof {
            assert(texts(lines@) =~= start + (if args.json {
                seq![]
            } else {
                seq!["Nothing selected."@]
            }));
        }
        return (UninstallRun { args, phase: UninstallPhase::Over }, end(lines, None));
    }
    (
        UninstallRun { args, phase: UninstallPhase::Previewing(selected) },
        Step { lines, next: Next::Preview },
    )
}

fn find(args: UninstallArgs, report: ApplicationReport) -> (r: (UninstallRun, Step))
    ensures
        r.0.args == args,
        (r.0.phase@, r.1@) == uninstall_found(args, report),
{
    let catalog = filter_applications(&report.applications, &args);
    let ghost views = application_views(catalog@);
    let report = ApplicationReport {
        distribution: report.distribution,
        applications: catalog,
        warnings: report.warnings,
    };
    let mut lines: Vec<String> = Vec::new();
    if !args.json {
        lines = application_report_lines(&report);
    }
    let ghost start = texts(lines@);
    proof {
        assert(args.json ==> start =~= seq![]);
        assert(application_views(report.applications@) == views);
    }
    match plan_uninstall(&args, &report.applications) {
        UninstallPlan::ReportOnly => {
            (
                UninstallRun { args, phase: UninstallPhase::Over },
                end(no_lines(), Some(Json::Report)),
            )
        },
        UninstallPlan::Refuse(message) => (
            UninstallRun { args, phase: UninstallPhase::Over },
            Step { lines, next: Next::Finish { record: None, json: None, outcome: Err(message) } },
        ),
        UninstallPlan::Nothing => {
            if !args.json {
                push_text(&mut lines, "No matching applications found.".to_owned());
            }
            proof {
                assert(texts(lines@) =~= start + (if args.json {
                    seq![]
                } else {
                    seq!["No matching applications found."@]
                }));
            }
            (UninstallRun { args, phase: UninstallPhase::Over }, end(lines, None))
        },
        UninstallPlan::Ask => {
            let labels = application_labels(&report.applications);
            (
                UninstallRun { args, phase: UninstallPhase::Choosing(report.applications) },
                Step {
                    lines,
                    next: Next::Choose {
                        prompt:
                            "Select applications to uninstall (nothing is selected by default)".to_owned(),
                        labels,
                    },
                },
            )
        },
        UninstallPlan::Exact(selected) => select(lines, args, selected),
    }
}

impl UninstallRun {
    /// Starts the command. It is refused where nobody can be asked, and where `--yes` comes
    /// without exact ids.
    pub fn start(args: UninstallArgs, interactive: bool) -> (r: (Self, Step))
        ensures
            r.0.args == args,
            (r.0.phase@, r.1@) == match uninstall_refusal(args, interactive) {
                Some(message) => (UninstallPhaseView::Over, refused(message)),
                None => (UninstallPhaseView::Looking, quiet(NextView::Look)),
            },
    {
        match validate_uninstall(&args, interactive) {
            Err(message) => (UninstallRun { args, phase: UninstallPhase::Over }, refuse(message)),
            Ok(()) => (
                UninstallRun { args, phase: UninstallPhase::Looking },
                quiet_step(Next::Look),
            ),
        }
    }

    /// Goes on with what came of the last step.
    pub fn next(self, event: UninstallEvent) -> (r: (Self, Step))
        requires
            uninstall_can_come(self.args, self.phase@, event),
        ensures
            r.0.args == self.args,
            (r.0.phase@, r.1@) == uninstall_next(self.args, self.phase@, event),
    {
        let args = self.args;
        match (self.phase, event) {
            (UninstallPhase::Looking, UninstallEvent::Found(report)) => find(args, report),
            (UninstallPhase::Choosing(list), UninstallEvent::Chosen(chosen)) => {
                proof {
                    assert(application_views(list@).len() == list@.len());
                }
                let selected = chosen_applications(&list, &chosen);
                proof {
                    assert(application_views(selected@) =~= chosen@.map_values(
                        |index: usize| application_views(list@)[index as int],
                    ));
                }
                select(no_lines(), args, selected)
            },
            (UninstallPhase::Previewing(_), UninstallEvent::Previewed(Err(message))) => (
                UninstallRun { args, phase: UninstallPhase::Over },
                refuse(message),
            ),
            (UninstallPhase::Previewing(selected), UninstallEvent::Previewed(Ok(previews))) => {
                let mut lines: Vec<String> = Vec::new();
                if !args.json {
                    lines = uninstall_preview_lines(&selected, &previews);
                }
                proof {
                    assert(args.json ==> texts(lines@) =~= seq![]);
                    assert(application_views(selected@).len() == selected@.len());
                }
                if !needs_confirmation(&args) {
                    let dry_run = args.dry_run;
                    (
                        UninstallRun { args, phase: UninstallPhase::Executing(selected) },
                        Step { lines, next: Next::Execute { dry_run } },
                    )
                } else {
                    let prompt = confirm_uninstall_prompt(selected.len());
                    (
                        UninstallRun { args, phase: UninstallPhase::Confirming(selected) },
                        Step { lines, next: Next::Confirm(prompt) },
                    )
                }
            },
            (UninstallPhase::Confirming(selected), UninstallEvent::Answered(true)) => {
                let dry_run = args.dry_run;
                (
                    UninstallRun { args, phase: UninstallPhase::Executing(selected) },
                    quiet_step(Next::Execute { dry_run }),
                )
            },
            (UninstallPhase::Confirming(_), UninstallEvent::Answered(false)) => (
                UninstallRun { args, phase: UninstallPhase::Over },
                end_with("Cancelled."),
            ),
            (UninstallPhase::Executing(_), UninstallEvent::Executed(results)) => {
                let closing = list1("Application configuration and user data were preserved.");
                let step = carry_out(args.json, "uninstall", &results, closing);
                (UninstallRun { args, phase: UninstallPhase::Over }, step)
            },
            (phase, _) => (UninstallRun { args, phase }, quiet_step(Next::Ignore)),
        }
    }
}

// ---------------------------------------------------------------------------------------
// Laws
// ---------------------------------------------------------------------------------------

/// Nothing is uninstalled before it was previewed and agreed to. An uninstall begins only on
/// the yes to a question, or on the previews where the options agree beforehand; the question
/// comes only on the previews; and it is about what was previewed.
pub proof fn uninstall_needs_preview_and_consent(
    args: UninstallArgs,
    phase: UninstallPhaseView,
    event: UninstallEvent,
)
    requires
        uninstall_can_come(args, phase, event),
    ensures
        uninstall_next(args, phase, event).1.next is Execute ==> {
            let after = uninstall_next(args, phase, event).0;
            match (phase, event) {
                (UninstallPhaseView::Confirming(list), UninstallEvent::Answered(yes)) => yes
                    && after == UninstallPhaseView::Executing(list),
                (UninstallPhaseView::Previewing(list), UninstallEvent::Previewed(plan)) => plan is Ok
                    && (args.yes || args.dry_run) && after == UninstallPhaseView::Executing(list),
                _ => false,
            }
        },
        uninstall_next(args, phase, event).1.next is Confirm ==> match (phase, event) {
            (UninstallPhaseView::Previewing(list), UninstallEvent::Previewed(plan)) => plan is Ok
                && uninstall_next(args, phase, event).0 == UninstallPhaseView::Confirming(list),
            _ => false,
        },
{
}

/// A report as JSON without `--yes` leads to no uninstall, whatever was found.
pub proof fn uninstall_report_is_read_only(args: UninstallArgs, report: ApplicationReport)
    requires
        args.json,
        !args.yes,
    ensures
        uninstall_next(args, UninstallPhaseView::Looking, UninstallEvent::Found(report)) == (
            UninstallPhaseView::Over,
            ended(seq![], Some(Json::Report)),
        ),
{
}

/// What was chosen is previewed, what was previewed is shown, and what was agreed to is
/// uninstalled: the same applications from the choice to the end, all of them, each preview before
/// the question, and the question before the uninstall unless the options answered it.
pub proof fn chosen_applications_are_uninstalled(
    args: UninstallArgs,
    list: Seq<ApplicationView>,
    chosen: Vec<usize>,
    previews: Vec<UninstallPreview>,
)
    requires
        chosen@.len() > 0,
        forall|k: int| 0 <= k < chosen@.len() ==> (#[trigger] chosen@[k]) < list.len(),
    ensures
        ({
            let (previewing, first) = uninstall_next(
                args,
                UninstallPhaseView::Choosing(list),
                UninstallEvent::Chosen(chosen),
            );
            let (asking, second) = uninstall_next(
                args,
                previewing,
                UninstallEvent::Previewed(Ok(previews)),
            );
            let (agreed, third) = uninstall_next(args, asking, UninstallEvent::Answered(true));
            let (denied, last) = uninstall_next(args, asking, UninstallEvent::Answered(false));
            &&& first.next is Preview
            &&& previewing matches UninstallPhaseView::Previewing(selected) && selected.len()
                == chosen@.len() && forall|k: int|
                0 <= k < chosen@.len() ==> selected[k] == list[(#[trigger] chosen@[k]) as int]
            &&& !args.json ==> second.lines == removal_plan_lines(previewing->Previewing_0, previews@)
            &&& args.yes || args.dry_run ==> asking == UninstallPhaseView::Executing(
                previewing->Previewing_0,
            ) && second.next == (NextView::Execute { dry_run: args.dry_run })
            &&& !args.yes && !args.dry_run ==> {
                &&& second.next is Confirm
                &&& agreed == UninstallPhaseView::Executing(previewing->Previewing_0)
                &&& third.next == (NextView::Execute { dry_run: false })
                &&& denied is Over && !(last.next is Execute)
            }
        }),
{
    let picked = chosen@.map_values(|index: usize| list[index as int]);
    assert(picked.len() == chosen@.len());
}

/// A preview that failed ends the command: nothing is uninstalled, and the reason is said. What
/// was done is recorded as an uninstall, and the user is told that their data was kept.
pub proof fn uninstall_is_recorded(
    args: UninstallArgs,
    selected: Seq<ApplicationView>,
    message: String,
    results: Vec<ActionResult>,
)
    ensures
        uninstall_next(
            args,
            UninstallPhaseView::Previewing(selected),
            UninstallEvent::Previewed(Err(message)),
        ) == (UninstallPhaseView::Over, refused(message@)),
        uninstall_next(
            args,
            UninstallPhaseView::Executing(selected),
            UninstallEvent::Executed(results),
        ) == (
            UninstallPhaseView::Over,
            carried_out(
                args.json,
                "uninstall"@,
                results@,
                seq!["Application configuration and user data were preserved."@],
            ),
        ),
{
}

/// The catalog is filtered by what was asked for: an application is in it exactly where it passes.
pub proof fn catalog_holds_what_passes(
    args: UninstallArgs,
    applications: Seq<ApplicationView>,
    i: int,
)
    requires
        0 <= i < applications.len(),
    ensures
        filtered(args, applications).contains(applications[i]) <==> passes(args, applications[i]),
{
    let keep = |application: ApplicationView| passes(args, application);
    if passes(args, applications[i]) {
        applications.lemma_filter_contains(keep, i);
    }
    if filtered(args, applications).contains(applications[i]) {
        let k = choose|k: int|
            0 <= k < filtered(args, applications).len() && filtered(args, applications)[k]
                == applications[i];
        applications.lemma_filter_pred(keep, k);
    }
}

} // verus!
