//! The steps of `update`.
use vstd::prelude::*;
use vstd::string::*;

use crate::cli::args::UpdateArgs;
use crate::cli::information::{
    confirm_update_prompt, plan_update, release_line, release_text, update_outcome, update_plan,
    update_question, update_refusal, update_result_line, validate_update, UpdatePlan,
};
use crate::cli::run::{
    end, end_with, ended, ended_with, no_lines, quiet, quiet_step, refuse, refused, Json, Next,
    NextView, Step, StepView,
};

use crate::update::{UpdateInfo, UpdateResult};

verus! {

/// Where an update stands.
#[derive(Debug, Clone, Copy, PartialEq, Eq, Structural)]
pub enum UpdatePhase {
    Looking,
    Confirming,
    Installing,
    Over,
}

/// What came of a step.
#[derive(Debug, PartialEq, Eq)]
pub enum UpdateEvent {
    /// What is known of the release.
    Found(Result<UpdateInfo, String>),
    Answered(bool),
    Installed(Result<UpdateResult, String>),
}

#[derive(Debug, PartialEq, Eq)]
pub struct UpdateRun {
    pub args: UpdateArgs,
    pub phase: UpdatePhase,
}

/// The end of a command that reports: a line, or the same as JSON.
pub open spec fn reported(json: bool, kind: Json, line: Seq<char>) -> StepView {
    if json {
        ended(seq![], Some(kind))
    } else {
        ended_with(line)
    }
}

/// The step that follows on what came of the last one.
pub open spec fn update_next(args: UpdateArgs, phase: UpdatePhase, event: UpdateEvent) -> (
    UpdatePhase,
    StepView,
) {
    match (phase, event) {
        (UpdatePhase::Looking, UpdateEvent::Found(Err(message))) => (
            UpdatePhase::Over,
            refused(message@),
        ),
        (UpdatePhase::Looking, UpdateEvent::Found(Ok(info))) => match update_plan(
            args,
            info.update_available,
        ) {
            UpdatePlan::ReportOnly => (
                UpdatePhase::Over,
                reported(args.json, Json::Report, release_text(args, info)),
            ),
            UpdatePlan::Ask => (
                UpdatePhase::Confirming,
                quiet(NextView::Confirm(update_question(info))),
            ),
            UpdatePlan::Install => (UpdatePhase::Installing, quiet(NextView::Install)),
        },
        (UpdatePhase::Confirming, UpdateEvent::Answered(true)) => (
            UpdatePhase::Installing,
            quiet(NextView::Install),
        ),
        (UpdatePhase::Confirming, UpdateEvent::Answered(false)) => (
            UpdatePhase::Over,
            ended_with("Cancelled."@),
        ),
        (UpdatePhase::Installing, UpdateEvent::Installed(Err(message))) => (
            UpdatePhase::Over,
            refused(message@),
        ),
        (UpdatePhase::Installing, UpdateEvent::Installed(Ok(result))) => (
            UpdatePhase::Over,
            reported(args.json, Json::Results, update_outcome(result)),
        ),
        _ => (phase, quiet(NextView::Ignore)),
    }
}

fn report(json: bool, kind: Json, line: String) -> (r: Step)
    ensures
        r@ == reported(json, kind, line@),
{
    if json {
        end(no_lines(), Some(kind))
    } else {
        end_with(line.as_str())
    }
}

impl UpdateRun {
    /// Starts the command. It is refused where nobody can be asked.
    pub fn start(args: UpdateArgs, interactive: bool) -> (r: (Self, Step))
        ensures
            r.0.args == args,
            (r.0.phase, r.1@) == match update_refusal(args, interactive) {
                Some(message) => (UpdatePhase::Over, refused(message)),
                None => (UpdatePhase::Looking, quiet(NextView::Look)),
            },
    {
        match validate_update(&args, interactive) {
            Err(message) => (UpdateRun { args, phase: UpdatePhase::Over }, refuse(message)),
            Ok(()) => (UpdateRun { args, phase: UpdatePhase::Looking }, quiet_step(Next::Look)),
        }
    }

    /// Goes on with what came of the last step.
    pub fn next(self, event: UpdateEvent) -> (r: (Self, Step))
        ensures
            r.0.args == self.args,
            (r.0.phase, r.1@) == update_next(self.args, self.phase, event),
    {
        let args = self.args;
        match (self.phase, event) {
            (UpdatePhase::Looking, UpdateEvent::Found(Err(message))) => (
                UpdateRun { args, phase: UpdatePhase::Over },
                refuse(message),
            ),
            (UpdatePhase::Looking, UpdateEvent::Found(Ok(info))) => match plan_update(
                &args,
                info.update_available,
            ) {
                UpdatePlan::ReportOnly => {
                    let line = release_line(&args, &info);
                    let step = report(args.json, Json::Report, line);
                    (UpdateRun { args, phase: UpdatePhase::Over }, step)
                },
                UpdatePlan::Ask => (
                    UpdateRun { args, phase: UpdatePhase::Confirming },
                    quiet_step(Next::Confirm(confirm_update_prompt(&info))),
                ),
                UpdatePlan::Install => (
                    UpdateRun { args, phase: UpdatePhase::Installing },
                    quiet_step(Next::Install),
                ),
            },
            (UpdatePhase::Confirming, UpdateEvent::Answered(true)) => (
                UpdateRun { args, phase: UpdatePhase::Installing },
                quiet_step(Next::Install),
            ),
            (UpdatePhase::Confirming, UpdateEvent::Answered(false)) => (
                UpdateRun { args, phase: UpdatePhase::Over },
                end_with("Cancelled."),
            ),
            (UpdatePhase::Installing, UpdateEvent::Installed(Err(message))) => (
                UpdateRun { args, phase: UpdatePhase::Over },
                refuse(message),
            ),
            (UpdatePhase::Installing, UpdateEvent::Installed(Ok(result))) => {
                let line = update_result_line(&result);
                let step = report(args.json, Json::Results, line);
                (UpdateRun { args, phase: UpdatePhase::Over }, step)
            },
            (phase, _) => (UpdateRun { args, phase }, quiet_step(Next::Ignore)),
        }
    }
}

// ---------------------------------------------------------------------------------------
// Laws
// ---------------------------------------------------------------------------------------

/// The program is replaced only after consent: on the yes to a question, or with `--yes`; and
/// never on a check or a dry run.
pub proof fn replacement_follows_consent(args: UpdateArgs, phase: UpdatePhase, event: UpdateEvent)
    ensures
        update_next(args, phase, event).1.next is Install ==> match (phase, event) {
            (UpdatePhase::Confirming, UpdateEvent::Answered(yes)) => yes,
            (UpdatePhase::Looking, UpdateEvent::Found(info)) => info is Ok && args.yes
                && !args.check && !args.dry_run,
            _ => false,
        },
        update_next(args, phase, event).1.next is Confirm ==> !args.check && !args.dry_run,
{
}

/// A release is installed where it is later or was asked for, and nothing but a report was asked
/// for: at once with `--yes`, and otherwise once the user agrees. A release that is not later is
/// left alone.
pub proof fn later_release_is_installed(args: UpdateArgs, info: UpdateInfo)
    ensures
        ({
            let (phase, step) = update_next(
                args,
                UpdatePhase::Looking,
                UpdateEvent::Found(Ok(info)),
            );
            let wanted = (info.update_available || args.target_version is Some) && !args.check
                && !args.dry_run;
            &&& wanted && args.yes <==> step.next is Install
            &&& wanted && !args.yes <==> step.next is Confirm
            &&& !wanted <==> phase is Over
            &&& step.next is Confirm ==> update_next(args, phase, UpdateEvent::Answered(true)).1.next
                is Install && !(update_next(args, phase, UpdateEvent::Answered(false)).1.next
                is Install)
        }),
{
}

} // verus!
