//! What a workflow carries out once it is confirmed.
use vstd::prelude::*;
use vstd::string::*;

use crate::executor::{
    calls_for, each_preview, item_commands, preview_at, preview_shows_what_is_run,
    previews_come_to, uninstall_commands, uninstalls_come_to, CommandRunner, Executor,
};
use crate::model::{
    command_views, item_views, result_views, ActionResult, ActionView, CleanupAction, CleanupItem,
    CommandView, ItemView,
};
use crate::preview::uninstall_command_view;
use crate::purge::PurgeCandidate;
use crate::recorder::{continues, lemma_nothing_made, made, Call};
use crate::text::same;
use crate::uninstall::{
    application_views, preview_views, Application, ApplicationView, PreviewView, UninstallPreview,
};
use crate::update::UpdateResult;

verus! {

/// A confirmed request.
#[derive(Debug, PartialEq, Eq)]
pub enum WorkflowExecution {
    Clean { distribution: String, items: Vec<CleanupItem> },
    Uninstall {
        distribution: String,
        applications: Vec<Application>,
        previews: Vec<UninstallPreview>,
    },
    Purge { candidates: Vec<PurgeCandidate> },
    Update,
}

/// What a request came to.
#[derive(Debug, PartialEq, Eq)]
pub enum WorkflowResult {
    Actions(Vec<ActionResult>),
    Update(UpdateResult),
}

pub enum ExecutionView {
    Clean { distribution: Seq<char>, items: Seq<ItemView> },
    Uninstall {
        distribution: Seq<char>,
        applications: Seq<ApplicationView>,
        previews: Seq<PreviewView>,
    },
    Purge { candidates: Seq<PurgeCandidate> },
    Update,
}

impl View for WorkflowExecution {
    type V = ExecutionView;

    open spec fn view(&self) -> ExecutionView {
        match self {
            WorkflowExecution::Clean { distribution, items } => ExecutionView::Clean {
                distribution: distribution@,
                items: item_views(items@),
            },
            WorkflowExecution::Uninstall { distribution, applications, previews } => {
                ExecutionView::Uninstall {
                    distribution: distribution@,
                    applications: application_views(applications@),
                    previews: preview_views(previews@),
                }
            },
            WorkflowExecution::Purge { candidates } => ExecutionView::Purge {
                candidates: candidates@,
            },
            WorkflowExecution::Update => ExecutionView::Update,
        }
    }
}

/// One of the commands needs the privilege of root.
pub open spec fn some_needs_root(commands: Seq<CommandView>) -> bool {
    exists|i: int| 0 <= i < commands.len() && (#[trigger] commands[i]).requires_root
}

/// The action runs a command with the privilege of root.
pub open spec fn action_needs_root(action: ActionView) -> bool {
    match action {
        ActionView::Command(command) => command.requires_root,
        ActionView::CommandSequence(commands) => some_needs_root(commands),
        _ => false,
    }
}

/// Whether the action runs a command with the privilege of root.
pub fn cleanup_action_requires_root(action: &CleanupAction) -> (r: bool)
    ensures
        r == action_needs_root(action@),
{
    match action {
        CleanupAction::Command { program, args, requires_root } => *requires_root,
        CleanupAction::CommandSequence { commands } => {
            let ghost views = command_views(commands@);
            let mut i: usize = 0;
            while i < commands.len()
                invariant
                    i <= commands@.len(),
                    views == command_views(commands@),
                    action@ == ActionView::CommandSequence(views),
                    forall|j: int| 0 <= j < i ==> !(#[trigger] views[j]).requires_root,
                decreases commands.len() - i,
            {
                proof {
                    assert(views[i as int] == commands@[i as int]@);
                }
                if commands[i].requires_root {
                    proof {
                        assert(views[i as int].requires_root);
                        assert(some_needs_root(views));
                    }
                    return true;
                }
                i = i + 1;
            }
            proof {
                assert(!some_needs_root(views));
            }
            false
        },
        _ => false,
    }
}

/// The request needs the privilege of root: one of its commands does, or an application comes
/// from a native package manager.
pub open spec fn execution_needs_root(execution: ExecutionView) -> bool {
    match execution {
        ExecutionView::Clean { distribution, items } => exists|i: int|
            0 <= i < items.len() && action_needs_root((#[trigger] items[i]).action),
        ExecutionView::Uninstall { distribution, applications, previews } => exists|i: int|
            0 <= i < applications.len() && !(#[trigger] applications[i]).source.flatpak(),
        _ => false,
    }
}

impl WorkflowExecution {
    /// Whether the request needs the privilege of root.
    pub fn needs_privilege(&self) -> (r: bool)
        ensures
            r == execution_needs_root(self@),
    {
        match self {
            WorkflowExecution::Clean { distribution, items } => {
                let ghost views = item_views(items@);
                let mut i: usize = 0;
                while i < items.len()
                    invariant
                        i <= items@.len(),
                        views == item_views(items@),
                        self@ == (ExecutionView::Clean { distribution: distribution@, items: views }),
                        forall|j: int|
                            0 <= j < i ==> !action_needs_root((#[trigger] views[j]).action),
                    decreases items.len() - i,
                {
                    proof {
                        assert(views[i as int] == items@[i as int]@);
                    }
                    if cleanup_action_requires_root(&items[i].action) {
                        proof {
                            assert(action_needs_root(views[i as int].action));
                        }
                        return true;
                    }
                    i = i + 1;
                }
                false
            },
            WorkflowExecution::Uninstall { distribution, applications, previews } => {
                let ghost views = application_views(applications@);
                let mut i: usize = 0;
                while i < applications.len()
                    invariant
                        i <= applications@.len(),
                        views == application_views(applications@),
                        self@ == (ExecutionView::Uninstall {
                            distribution: distribution@,
                            applications: views,
                            previews: preview_views(previews@),
                        }),
                        forall|j: int| 0 <= j < i ==> (#[trigger] views[j]).source.flatpak(),
                    decreases applications.len() - i,
                {
                    proof {
                        assert(views[i as int] == applications@[i as int]@);
                    }
                    if !applications[i].source.is_flatpak() {
                        proof {
                            assert(!views[i as int].source.flatpak());
                        }
                        return true;
                    }
                    i = i + 1;
                }
                false
            },
            _ => false,
        }
    }
}

/// The plan that was reviewed is for these applications, one by one.
pub open spec fn plan_matches(applications: Seq<ApplicationView>, previews: Seq<PreviewView>) -> bool {
    &&& previews.len() == applications.len()
    &&& forall|i: int|
        0 <= i < applications.len() ==> (#[trigger] previews[i]).application_id
            == applications[i].id
}

/// Refuses an uninstall whose reviewed plan is not for these applications.
pub fn check_reviewed_plan(
    applications: &Vec<Application>,
    previews: &Vec<UninstallPreview>,
) -> (r: Result<(), String>)
    ensures
        match r {
            Ok(()) => plan_matches(application_views(applications@), preview_views(previews@)),
            Err(message) => !plan_matches(
                application_views(applications@),
                preview_views(previews@),
            ) && message@ == "the reviewed removal plan no longer matches the selection"@,
        },
{
    let ghost left = application_views(applications@);
    let ghost right = preview_views(previews@);
    proof {
        assert(left.len() == applications@.len());
        assert(right.len() == previews@.len());
    }
    if applications.len() != previews.len() {
        return Err("the reviewed removal plan no longer matches the selection".to_owned());
    }
    let mut i: usize = 0;
    while i < applications.len()
        invariant
            i <= applications@.len(),
            applications@.len() == previews@.len(),
            left == application_views(applications@),
            right == preview_views(previews@),
            forall|j: int| 0 <= j < i ==> (#[trigger] right[j]).application_id == left[j].id,
        decreases applications.len() - i,
    {
        proof {
            assert(left[i as int] == applications@[i as int]@);
            assert(right[i as int] == previews@[i as int]@);
        }
        if !same(previews[i].application_id.as_str(), applications[i].id.as_str()) {
            return Err("the reviewed removal plan no longer matches the selection".to_owned());
        }
        i = i + 1;
    }
    Ok(())
}

/// Uninstalls applications by the plan that was reviewed. Where it is for others, nothing is
/// uninstalled and no command is run.
pub fn uninstall_reviewed<R: CommandRunner>(
    executor: &mut Executor<R>,
    applications: &Vec<Application>,
    previews: &Vec<UninstallPreview>,
) -> (r: Result<Vec<ActionResult>, String>)
    requires
        plan_matches(application_views(applications@), preview_views(previews@)) ==> forall|i: int|
            0 <= i < applications@.len() ==> old(executor).runner.accepts_all(
                uninstall_commands((#[trigger] applications@[i])@, false),
            ),
    ensures
        final(executor).home == old(executor).home,
        final(executor).runner.inner() == old(executor).runner.inner(),
        continues(old(executor).runner.calls(), final(executor).runner.calls()),
        match r {
            Ok(results) => plan_matches(
                application_views(applications@),
                preview_views(previews@),
            ) && uninstalls_come_to(
                application_views(applications@),
                false,
                made(old(executor).runner.calls(), final(executor).runner.calls()),
                result_views(results@),
            ),
            Err(message) => !plan_matches(
                application_views(applications@),
                preview_views(previews@),
            ) && message@ == "the reviewed removal plan no longer matches the selection"@
                && final(executor).runner.calls() == old(executor).runner.calls(),
        },
{
    proof {
        lemma_nothing_made(executor.runner.calls());
    }
    match check_reviewed_plan(applications, previews) {
        Err(message) => Err(message),
        Ok(()) => Ok(executor.uninstall_all(applications, false)),
    }
}

// ---------------------------------------------------------------------------------------
// Laws
// ---------------------------------------------------------------------------------------

/// A plan passes for the applications that it was made for.
pub proof fn previews_match_their_applications(
    applications: Seq<ApplicationView>,
    calls: Seq<Call>,
    previews: Seq<PreviewView>,
)
    requires
        previews_come_to(applications, calls, Ok(previews)),
    ensures
        plan_matches(applications, previews),
{
    assert forall|i: int| 0 <= i < applications.len() implies (
    #[trigger] previews[i]).application_id == applications[i].id by {
        let own = calls_for(applications, each_preview(), calls, i);
        assert(preview_at(applications, calls, i) == Ok::<PreviewView, Seq<char>>(previews[i]));
        preview_shows_what_is_run(applications[i], own, previews[i]);
    }
}

/// A request needs privilege exactly where one of the commands that it will run does.
pub proof fn privilege_is_that_of_the_commands(execution: ExecutionView)
    ensures
        match execution {
            ExecutionView::Clean { distribution, items } => execution_needs_root(execution)
                <==> exists|i: int, k: int|
                0 <= i < items.len() && 0 <= k < item_commands(items[i]).len() && (
                #[trigger] item_commands(items[i])[k]).requires_root,
            ExecutionView::Uninstall { distribution, applications, previews } =>
                execution_needs_root(execution) <==> exists|i: int|
                    0 <= i < applications.len() && uninstall_command_view(
                        (#[trigger] applications[i]).source,
                        applications[i].package,
                    ).requires_root,
            _ => !execution_needs_root(execution),
        },
{
    match execution {
        ExecutionView::Clean { distribution, items } => {
            if execution_needs_root(execution) {
                let i = choose|i: int|
                    0 <= i < items.len() && action_needs_root((#[trigger] items[i]).action);
                match items[i].action {
                    ActionView::Command(command) => {
                        assert(item_commands(items[i])[0].requires_root);
                    },
                    ActionView::CommandSequence(commands) => {
                        let k = choose|k: int|
                            0 <= k < commands.len() && (#[trigger] commands[k]).requires_root;
                        assert(item_commands(items[i])[k].requires_root);
                    },
                    _ => {},
                }
            }
            if exists|i: int, k: int|
                0 <= i < items.len() && 0 <= k < item_commands(items[i]).len() && (
                #[trigger] item_commands(items[i])[k]).requires_root {
                let (i, k) = choose|i: int, k: int|
                    0 <= i < items.len() && 0 <= k < item_commands(items[i]).len() && (
                    #[trigger] item_commands(items[i])[k]).requires_root;
                assert(action_needs_root(items[i].action));
            }
        },
        ExecutionView::Uninstall { distribution, applications, previews } => {
            assert forall|i: int| 0 <= i < applications.len() implies uninstall_command_view(
                (#[trigger] applications[i]).source,
                applications[i].package,
            ).requires_root == !applications[i].source.flatpak() by {}
        },
        _ => {},
    }
}

} // verus!
