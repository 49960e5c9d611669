//! The steps of `clean`.
use vstd::prelude::*;
use vstd::string::*;

use crate::cli::args::CleanArgs;
use crate::cli::clean::{
    choose_groups, chosen_groups, clean_plan, filled_groups, filled_groups_are_offered, groups_of,
    has_filled, items_are_selected_by_their_group, items_in, progress_line, progress_text,
    select_items, CleanPlan, CleanPlanView,
};
use crate::cli::run::{
    carried_out, carry_out, end, ended, no_lines, quiet, quiet_step, refuse, refused, Json, Next,
    NextView, Step, StepView,
};
use crate::cli::support::{
    covered_bytes, needs_terminal_text, scan_lines, scan_report_lines, validate_noninteractive,
};
use crate::model::{item_views, ActionResult, CleanupGroup, CleanupItem, ItemView, ScanReport};
use crate::text::{push_text, texts};

verus! {

/// Where a cleanup stands.
#[derive(Debug, PartialEq, Eq)]
pub enum CleanPhase {
    Looking,
    Choosing { report: ScanReport, groups: Vec<CleanupGroup> },
    Executing(Vec<CleanupItem>),
    Over,
}

pub enum CleanPhaseView {
    Looking,
    Choosing { report: ScanReport, groups: Seq<CleanupGroup> },
    Executing(Seq<ItemView>),
    Over,
}

impl View for CleanPhase {
    type V = CleanPhaseView;

    open spec fn view(&self) -> CleanPhaseView {
        match self {
            CleanPhase::Looking => CleanPhaseView::Looking,
            CleanPhase::Choosing { report, groups } => CleanPhaseView::Choosing {
                report: *report,
                groups: groups@,
            },
            CleanPhase::Executing(items) => CleanPhaseView::Executing(item_views(items@)),
            CleanPhase::Over => CleanPhaseView::Over,
        }
    }
}

/// What came of a step.
#[derive(Debug, PartialEq, Eq)]
pub enum CleanEvent {
    Found(ScanReport),
    Chosen(Vec<usize>),
    Executed(Vec<ActionResult>),
}

#[derive(Debug, PartialEq, Eq)]
pub struct CleanRun {
    pub args: CleanArgs,
    pub phase: CleanPhase,
}

/// The step after the selection of groups: their items are cleaned, if there are any.
pub open spec fn clean_selected(args: CleanArgs, report: ScanReport, groups: Seq<CleanupGroup>) -> (
    CleanPhaseView,
    StepView,
) {
    let items = items_in(report.items@, groups);
    if items.len() == 0 {
        (
            CleanPhaseView::Over,
            if args.json {
                ended(seq![], Some(Json::Results))
            } else {
                ended(scan_lines(report) + seq!["Nothing selected."@], None)
            },
        )
    } else {
        (
            CleanPhaseView::Executing(items),
            StepView {
                lines: if args.json {
                    seq![]
                } else {
                    scan_lines(report) + seq![""@, progress_text(args.dry_run, items.len())]
                },
                next: NextView::Execute { dry_run: args.dry_run },
            },
        )
    }
}

/// The step that follows on what came of the last one.
pub open spec fn clean_next(args: CleanArgs, phase: CleanPhaseView, event: CleanEvent) -> (
    CleanPhaseView,
    StepView,
) {
    match (phase, event) {
        (CleanPhaseView::Looking, CleanEvent::Found(report)) => match clean_plan(
            report.groups@,
            args,
        ) {
            CleanPlanView::ReportOnly => (
                CleanPhaseView::Over,
                ended(seq![], Some(Json::Results)),
            ),
            CleanPlanView::Ask { groups, labels } => (
                CleanPhaseView::Choosing { report, groups },
                quiet(
                    NextView::Choose {
                        prompt: "Select cleanup groups (nothing is selected by default)"@,
                        labels,
                    },
                ),
            ),
            CleanPlanView::Groups(groups) => clean_selected(args, report, groups),
        },
        (CleanPhaseView::Choosing { report, groups }, CleanEvent::Chosen(chosen)) => clean_selected(
            args,
            report,
            chosen@.map_values(|index: usize| groups[index as int]),
        ),
        (CleanPhaseView::Executing(_), CleanEvent::Executed(results)) => (
            CleanPhaseView::Over,
            carried_out(args.json, "clean"@, results@, seq![]),
        ),
        _ => (phase, quiet(NextView::Ignore)),
    }
}

/// `event` can come in `phase`: what is chosen was offered, and what is reported adds up.
pub open spec fn clean_can_come(args: CleanArgs, phase: CleanPhaseView, event: CleanEvent) -> bool {
    match (phase, event) {
        (CleanPhaseView::Choosing { report, groups }, CleanEvent::Chosen(chosen)) => forall|i: int|
            0 <= i < chosen@.len() ==> (#[trigger] chosen@[i]) < groups.len(),
        (CleanPhaseView::Executing(_), CleanEvent::Executed(results)) => args.json
            || covered_bytes(results@) <= u64::MAX,
        _ => true,
    }
}

fn select(args: CleanArgs, report: ScanReport, groups: &Vec<CleanupGroup>) -> (r: (CleanRun, Step))
    ensures
        r.0.args == args,
        (r.0.phase@, r.1@) == clean_selected(args, report, groups@),
{
    let items = select_items(&report, groups);
    proof {
        assert(item_views(items@).len() == items@.len());
    }
    let dry_run = args.dry_run;
    if args.json {
        if items.len() == 0 {
            let step = end(no_lines(), Some(Json::Results));
            return (CleanRun { args, phase: CleanPhase::Over }, step);
        }
        return (
            CleanRun { args, phase: CleanPhase::Executing(items) },
            quiet_step(Next::Execute { dry_run }),
        );
    }
    let mut lines = scan_report_lines(&report);
    let ghost start = texts(lines@);
    if items.len() == 0 {
        push_text(&mut lines, "Nothing selected.".to_owned());
        proof {
            assert(texts(lines@) =~= start + seq!["Nothing selected."@]);
        }
        return (CleanRun { args, phase: CleanPhase::Over }, end(lines, None));
    }
    push_text(&mut lines, "".to_owned());
    push_text(&mut lines, progress_line(dry_run, items.len()));
    proof {
        assert(texts(lines@) =~= start + seq![""@, progress_text(dry_run, items@.len())]);
    }
    (
        CleanRun { args, phase: CleanPhase::Executing(items) },
        Step { lines, next: Next::Execute { dry_run } },
    )
}

impl CleanRun {
    /// Starts the command. It is refused where nobody can be asked.
    pub fn start(args: CleanArgs, interactive: bool) -> (r: (Self, Step))
        ensures
            r.0.args == args,
            (r.0.phase@, r.1@) == if args.yes || args.json || interactive {
                (CleanPhaseView::Looking, quiet(NextView::Look))
            } else {
                (CleanPhaseView::Over, refused(needs_terminal_text("clean"@)))
            },
    {
        match validate_noninteractive(args.yes, args.json, interactive, "clean") {
            Err(message) => (CleanRun { args, phase: CleanPhase::Over }, refuse(message)),
            Ok(()) => (CleanRun { args, phase: CleanPhase::Looking }, quiet_step(Next::Look)),
        }
    }

    /// Goes on with what came of the last step.
    pub fn next(self, event: CleanEvent) -> (r: (Self, Step))
        requires
            clean_can_come(self.args, self.phase@, event),
        ensures
            r.0.args == self.args,
            (r.0.phase@, r.1@) == clean_next(self.args, self.phase@, event),
    {
        let args = self.args;
        match (self.phase, event) {
            (CleanPhase::Looking, CleanEvent::Found(report)) => match choose_groups(
                &report,
                &args,
            ) {
                CleanPlan::ReportOnly => (
                    CleanRun { args, phase: CleanPhase::Over },
                    end(no_lines(), Some(Json::Results)),
                ),
                CleanPlan::Ask { groups, labels } => (
                    CleanRun { args, phase: CleanPhase::Choosing { report, groups } },
                    quiet_step(
                        Next::Choose {
                            prompt:
                                "Select cleanup groups (nothing is selected by default)".to_owned(),
                            labels,
                        },
                    ),
                ),
                CleanPlan::Groups(groups) => select(args, report, &groups),
            },
            (CleanPhase::Choosing { report, groups }, CleanEvent::Chosen(chosen)) => {
                let picked = chosen_groups(&groups, &chosen);
                proof {
                    assert(picked@ =~= chosen@.map_values(|index: usize| groups@[index as int]));
                }
                select(args, report, &picked)
            },
            (CleanPhase::Executing(_), CleanEvent::Executed(results)) => {
                let step = carry_out(args.json, "clean", &results, no_lines());
                (CleanRun { args, phase: CleanPhase::Over }, step)
            },
            (phase, _) => (CleanRun { args, phase }, quiet_step(Next::Ignore)),
        }
    }
}

// ---------------------------------------------------------------------------------------
// Laws
// ---------------------------------------------------------------------------------------

/// Nothing is cleaned without consent: a cleanup begins only on the groups that the user chose,
/// on those named on the command line, or on everything with `--yes`; and only the items that
/// the scan found in those groups are cleaned.
pub proof fn cleaning_follows_consent(
    args: CleanArgs,
    phase: CleanPhaseView,
    event: CleanEvent,
)
    requires
        clean_can_come(args, phase, event),
    ensures
        clean_next(args, phase, event).1.next is Execute ==> match (phase, event) {
            (CleanPhaseView::Looking, CleanEvent::Found(report)) => {
                let after = clean_next(args, phase, event).0;
                if args.groups@.len() > 0 {
                    after == CleanPhaseView::Executing(items_in(report.items@, args.groups@))
                } else {
                    args.yes
                }
            },
            (CleanPhaseView::Choosing { report, groups }, CleanEvent::Chosen(chosen)) =>
                clean_next(args, phase, event).0 == CleanPhaseView::Executing(
                    items_in(
                        report.items@,
                        chosen@.map_values(|index: usize| groups[index as int]),
                    ),
                ),
            _ => false,
        },
        args.json && !args.yes && phase is Looking ==> !(clean_next(
            args,
            phase,
            event,
        ).1.next is Execute),
{
    match (phase, event) {
        (CleanPhaseView::Looking, CleanEvent::Found(report)) => {
            let filled = filled_groups(report.groups@);
            if filled.len() == 0 {
                assert(groups_of(filled) =~= Seq::empty());
                lemma_no_groups(report.items@);
            }
        },
        _ => {},
    }
}

/// Nothing is selected by default: who chooses no group cleans nothing.
pub proof fn choosing_nothing_cleans_nothing(
    args: CleanArgs,
    report: ScanReport,
    groups: Seq<CleanupGroup>,
    chosen: Vec<usize>,
)
    requires
        chosen@.len() == 0,
    ensures
        clean_next(
            args,
            CleanPhaseView::Choosing { report, groups },
            CleanEvent::Chosen(chosen),
        ).0 is Over,
{
    let none = chosen@.map_values(|index: usize| groups[index as int]);
    assert(none =~= seq![]);
    lemma_no_groups(report.items@);
    assert(items_in(report.items@, none).len() == 0);
}

proof fn lemma_no_groups(items: Seq<CleanupItem>)
    ensures
        items_in(items, Seq::empty()).len() == 0,
{
    let found = items_in(items, Seq::empty());
    if found.len() > 0 {
        let keep = |item: ItemView| Seq::<CleanupGroup>::empty().contains(item.group);
        item_views(items).lemma_filter_pred(keep, 0);
    }
}

/// Every item of every group that was chosen is cleaned, whatever it is estimated to free, and no
/// other item is; in a dry run exactly where one was asked for.
pub proof fn chosen_groups_are_cleaned(
    args: CleanArgs,
    report: ScanReport,
    groups: Seq<CleanupGroup>,
    chosen: Vec<usize>,
    i: int,
)
    requires
        forall|k: int| 0 <= k < chosen@.len() ==> (#[trigger] chosen@[k]) < groups.len(),
        0 <= i < report.items@.len(),
        exists|k: int|
            0 <= k < chosen@.len() && groups[(#[trigger] chosen@[k]) as int]
                == report.items@[i].group,
    ensures
        ({
            let (phase, step) = clean_next(
                args,
                CleanPhaseView::Choosing { report, groups },
                CleanEvent::Chosen(chosen),
            );
            &&& step.next == (NextView::Execute { dry_run: args.dry_run })
            &&& phase matches CleanPhaseView::Executing(items) && items.contains(
                report.items@[i]@,
            )
        }),
{
    let picked = chosen@.map_values(|index: usize| groups[index as int]);
    let k = choose|k: int|
        0 <= k < chosen@.len() && groups[(#[trigger] chosen@[k]) as int] == report.items@[i].group;
    assert(picked[k] == report.items@[i].group);
    items_are_selected_by_their_group(report.items@, picked, items_in(report.items@, picked));
}

/// With `--yes` and no group named, everything that was found is cleaned; groups that were named
/// are cleaned whole. Both end in a cleanup where there is anything to clean.
pub proof fn everything_asked_for_is_cleaned(args: CleanArgs, report: ScanReport, i: int)
    requires
        args.yes,
        0 <= i < report.items@.len(),
        args.groups@.len() > 0 ==> args.groups@.contains(report.items@[i].group),
        args.groups@.len() == 0 ==> has_filled(report.groups@, report.items@[i].group),
    ensures
        ({
            let (phase, step) = clean_next(
                args,
                CleanPhaseView::Looking,
                CleanEvent::Found(report),
            );
            &&& step.next == (NextView::Execute { dry_run: args.dry_run })
            &&& phase matches CleanPhaseView::Executing(items) && items.contains(
                report.items@[i]@,
            )
        }),
{
    let picked = match clean_plan(report.groups@, args) {
        CleanPlanView::Groups(picked) => picked,
        _ => Seq::empty(),
    };
    let group = report.items@[i].group;
    if args.groups@.len() == 0 {
        let g = choose|g: int|
            0 <= g < report.groups@.len() && (#[trigger] report.groups@[g]).item_count > 0
                && report.groups@[g].group == group;
        filled_groups_are_offered(report.groups@, args, g);
    }
    assert(picked.contains(group));
    items_are_selected_by_their_group(report.items@, picked, items_in(report.items@, picked));
}

/// What a cleanup did is recorded as such.
pub proof fn cleanup_is_recorded(args: CleanArgs, items: Seq<ItemView>, results: Vec<ActionResult>)
    ensures
        ({
            let (phase, step) = clean_next(
                args,
                CleanPhaseView::Executing(items),
                CleanEvent::Executed(results),
            );
            phase is Over && step == carried_out(args.json, "clean"@, results@, seq![])
        }),
{
}

} // verus!
