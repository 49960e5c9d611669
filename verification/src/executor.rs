//! The removal of items. Whatever a scan found is judged again before anything happens.
use vstd::prelude::*;
use vstd::string::*;

use crate::command::{
    allowed_command, command_end, command_outcome, commands_run, execute_command, fixed_command,
    is_run, outcome_view, refused_command_text, runnable_command,
};
use crate::guard::{
    denylisted, execution_fault_text, file_verdict, judge_file, judge_link, judge_path,
    link_verdict, forcing_only_widens, path_verdict, stays_below, verdict_view, ExecutionFault,
};
use crate::model::{
    command_views, result_views, ActionResult, ActionView, CleanupAction, CleanupItem, CommandSpec,
    CommandView, ItemView, ResultView,
};
use crate::path::parts_below;
use crate::preview::{
    command_text, flatpak_preview, native_preview, preview_command, preview_command_view,
    preview_from_reply, preview_of_flatpak, preview_result_view, refused_application_text,
    uninstall_command, uninstall_command_view, valid_application, validate_application,
};
use crate::recorder::{
    commands_of, continues, lemma_made_twice, lemma_nothing_made, lemma_one_made, made, Call,
    Recorder,
};
use crate::text::{joined, joining_puts_separators_between, texts};
use crate::uninstall::{
    application_id, application_views, preview_views, Application, ApplicationSource,
    ApplicationView, PreviewView, UninstallPreview,
};

pub use crate::command::CommandRunner;
pub use crate::guard::{ExecutionError, PathFacts};

verus! {

/// Removes items below one home directory. Commands go through the runner; entries of the file
/// system are handed back to be removed.
pub struct Executor<R> {
    pub home: String,
    pub runner: Recorder<R>,
}

/// How far the removal of an item has come.
#[derive(Debug, PartialEq, Eq)]
pub enum Progress {
    /// The item is dealt with.
    Done(ActionResult),
    /// The entry has passed every check and is to be removed now: what it holds, or all of it.
    Remove { path: String, contents_only: bool },
}

pub enum ProgressView {
    Done(ResultView),
    Remove { path: Seq<char>, contents_only: bool },
}

impl View for Progress {
    type V = ProgressView;

    open spec fn view(&self) -> ProgressView {
        match self {
            Progress::Done(result) => ProgressView::Done(result@),
            Progress::Remove { path, contents_only } => ProgressView::Remove {
                path: path@,
                contents_only: *contents_only,
            },
        }
    }
}

/// The report on an item whose removal ended in `outcome`.
pub open spec fn item_result(item: ItemView, dry_run: bool, outcome: Result<(), Seq<char>>) -> ResultView {
    ResultView {
        item_id: item.id,
        label: item.label,
        success: outcome is Ok,
        dry_run,
        estimated_bytes: item.estimated_bytes,
        message: match outcome {
            Ok(()) => "completed"@,
            Err(message) => message,
        },
    }
}

fn result_for(item: &CleanupItem, dry_run: bool, outcome: Result<(), String>) -> (r: ActionResult)
    ensures
        r@ == item_result(item@, dry_run, outcome_view(outcome)),
{
    let (success, message) = match outcome {
        Ok(()) => (true, "completed".to_owned()),
        Err(message) => (false, message),
    };
    ActionResult {
        item_id: item.id.clone(),
        label: item.label.clone(),
        success,
        dry_run,
        estimated_bytes: item.estimated_bytes,
        message,
    }
}

/// What becomes of an entry on which the verdict is known: nothing where it was refused, where
/// this is a dry run, and where there is nothing.
pub open spec fn removal_progress(
    item: ItemView,
    path: Seq<char>,
    contents_only: bool,
    verdict: Result<(), ExecutionFault>,
    exists: bool,
    dry_run: bool,
) -> ProgressView {
    match verdict {
        Err(fault) => ProgressView::Done(
            item_result(item, dry_run, Err(execution_fault_text(fault))),
        ),
        Ok(()) => if dry_run || !exists {
            ProgressView::Done(item_result(item, dry_run, Ok(())))
        } else {
            ProgressView::Remove { path, contents_only }
        },
    }
}

/// The verdict on a cache or an artifact, the entry itself included.
pub open spec fn cleanup_verdict(home: Seq<char>, path: Seq<char>, facts: PathFacts) -> Result<
    (),
    ExecutionFault,
> {
    match path_verdict(home, path, facts) {
        Err(fault) => Err(fault),
        Ok(()) => link_verdict(path, facts.target),
    }
}

/// A sequence of commands gets as far as its `k`-th, which is refused or fails; `k` is the
/// number of commands where none does. The commands before it are run in their order, each of
/// them once, and it is run itself unless it is refused. In a dry run none is run.
pub open spec fn sequence_gets_to(
    commands: Seq<CommandView>,
    dry_run: bool,
    calls: Seq<Call>,
    k: int,
) -> bool {
    &&& 0 <= k <= commands.len()
    &&& forall|j: int| 0 <= j < k ==> is_allowed(#[trigger] commands[j])
    &&& if dry_run {
        calls.len() == 0
    } else {
        &&& commands_of(calls) == commands.take(
            if k < commands.len() && is_allowed(commands[k]) {
                k + 1
            } else {
                k
            },
        )
        &&& forall|j: int| 0 <= j < k ==> command_outcome((#[trigger] calls[j]).reply) is Ok
    }
    &&& k < commands.len() && is_allowed(commands[k]) ==> !dry_run && command_outcome(
        calls[k].reply,
    ) is Err
}

pub open spec fn is_allowed(command: CommandView) -> bool {
    allowed_command(command.program, command.args, command.requires_root)
}

/// How a sequence that gets as far as its `k`-th command ends.
pub open spec fn sequence_end(commands: Seq<CommandView>, calls: Seq<Call>, k: int) -> Result<
    (),
    Seq<char>,
> {
    if k >= commands.len() {
        Ok(())
    } else if !is_allowed(commands[k]) {
        Err(refused_command_text(commands[k].program, commands[k].args))
    } else {
        command_outcome(calls[k].reply)
    }
}

/// What executing an item with several commands comes to, given the calls that were made.
pub open spec fn sequence_comes_to(
    commands: Seq<CommandView>,
    item: ItemView,
    dry_run: bool,
    calls: Seq<Call>,
    progress: ProgressView,
) -> bool {
    exists|k: int| #[trigger]
        sequence_gets_to(commands, dry_run, calls, k) && progress == ProgressView::Done(
            item_result(item, dry_run, sequence_end(commands, calls, k)),
        )
}

/// The commands of an item.
pub open spec fn item_commands(item: ItemView) -> Seq<CommandView> {
    match item.action {
        ActionView::Command(command) => seq![command],
        ActionView::CommandSequence(commands) => commands,
        _ => seq![],
    }
}

/// What executing an item comes to, given the calls that were made for it: none for an entry of
/// the file system, and just the commands of the item otherwise.
pub open spec fn progresses_to(
    home: Seq<char>,
    item: ItemView,
    facts: PathFacts,
    dry_run: bool,
    calls: Seq<Call>,
    progress: ProgressView,
) -> bool {
    match item.action {
        ActionView::RemovePath { path, contents_only } => calls.len() == 0 && progress
            == removal_progress(
            item,
            path,
            contents_only,
            cleanup_verdict(home, path, facts),
            facts.exists,
            dry_run,
        ),
        ActionView::RemovePersonalFile { path, force } => calls.len() == 0 && progress
            == removal_progress(
            item,
            path,
            false,
            file_verdict(home, path, facts, force),
            facts.exists,
            dry_run,
        ),
        ActionView::Command(command) => commands_of(calls) == commands_run(command, dry_run)
            && progress == ProgressView::Done(
            item_result(item, dry_run, command_end(command, dry_run, calls)),
        ),
        ActionView::CommandSequence(commands) => sequence_comes_to(
            commands,
            item,
            dry_run,
            calls,
            progress,
        ),
    }
}

/// The runner takes those of some commands that are run.
pub open spec fn takes<R: CommandRunner>(
    runner: &Recorder<R>,
    commands: Seq<CommandView>,
    dry_run: bool,
) -> bool {
    forall|i: int|
        0 <= i < commands.len() && is_run(#[trigger] commands[i], dry_run)
            ==> runner.inner().accepts(commands[i])
}

/// The first `i` commands of a sequence were run and succeeded, or were passed over in a dry run.
spec fn is_reached(commands: Seq<CommandView>, dry_run: bool, calls: Seq<Call>, i: int) -> bool {
    &&& 0 <= i <= commands.len()
    &&& forall|j: int| 0 <= j < i ==> is_allowed(#[trigger] commands[j])
    &&& if dry_run {
        calls.len() == 0
    } else {
        &&& commands_of(calls) == commands.take(i)
        &&& forall|j: int| 0 <= j < i ==> command_outcome((#[trigger] calls[j]).reply) is Ok
    }
}

proof fn lemma_next_command(
    commands: Seq<CommandView>,
    dry_run: bool,
    so_far: Seq<Call>,
    own: Seq<Call>,
    i: int,
)
    requires
        is_reached(commands, dry_run, so_far, i),
        i < commands.len(),
        commands_of(own) == commands_run(commands[i], dry_run),
    ensures
        match command_end(commands[i], dry_run, own) {
            Ok(()) => is_reached(commands, dry_run, so_far + own, i + 1),
            Err(message) => sequence_gets_to(commands, dry_run, so_far + own, i) && sequence_end(
                commands,
                so_far + own,
                i,
            ) == Err::<(), Seq<char>>(message),
        },
{
    let all = so_far + own;
    assert(commands_of(so_far).len() == so_far.len());
    assert(commands_of(own).len() == own.len());
    assert(commands_of(all) =~= commands_of(so_far) + commands_of(own));
    if is_run(commands[i], dry_run) {
        assert(commands_of(all) =~= commands.take(i + 1));
        assert(all[i] == own[0]);
    } else {
        assert(all =~= so_far);
    }
    assert forall|j: int| 0 <= j < i && !dry_run implies command_outcome(
        (#[trigger] all[j]).reply,
    ) is Ok by {
        assert(all[j] == so_far[j]);
    }
}

fn execute_sequence<R: CommandRunner>(
    runner: &mut Recorder<R>,
    commands: &Vec<CommandSpec>,
    dry_run: bool,
) -> (r: Result<(), String>)
    requires
        takes(old(runner), command_views(commands@), dry_run),
    ensures
        final(runner).inner() == old(runner).inner(),
        continues(old(runner).calls(), final(runner).calls()),
        exists|k: int| #[trigger]
            sequence_gets_to(
                command_views(commands@),
                dry_run,
                made(old(runner).calls(), final(runner).calls()),
                k,
            ) && outcome_view(r) == sequence_end(
                command_views(commands@),
                made(old(runner).calls(), final(runner).calls()),
                k,
            ),
{
    let ghost views = command_views(commands@);
    let ghost before = runner.calls();
    let mut i: usize = 0;
    proof {
        lemma_nothing_made(before);
        assert(commands_of(made(before, before)) =~= views.take(0));
    }
    while i < commands.len()
        invariant
            i <= commands@.len(),
            views == command_views(commands@),
            before == old(runner).calls(),
            runner.inner() == old(runner).inner(),
            takes(old(runner), views, dry_run),
            continues(before, runner.calls()),
            is_reached(views, dry_run, made(before, runner.calls()), i as int),
        decreases commands.len() - i,
    {
        let command = &commands[i];
        let ghost middle = runner.calls();
        proof {
            assert(views.len() == commands@.len());
            assert(views[i as int] == command@);
        }
        let outcome = execute_command(
            runner,
            command.program.as_str(),
            &command.args,
            command.requires_root,
            dry_run,
        );
        proof {
            lemma_made_twice(before, middle, runner.calls());
            lemma_next_command(
                views,
                dry_run,
                made(before, middle),
                made(middle, runner.calls()),
                i as int,
            );
        }
        match outcome {
            Err(message) => {
                return Err(message);
            },
            Ok(()) => {},
        }
        i = i + 1;
    }
    proof {
        assert(views.len() == commands@.len());
        assert(sequence_gets_to(views, dry_run, made(before, runner.calls()), i as int));
    }
    Ok(())
}

fn settle(
    item: &CleanupItem,
    path: &String,
    contents_only: bool,
    verdict: Result<(), ExecutionError>,
    exists: bool,
    dry_run: bool,
) -> (r: Progress)
    ensures
        r@ == removal_progress(
            item@,
            path@,
            contents_only,
            verdict_view(verdict),
            exists,
            dry_run,
        ),
{
    match verdict {
        Err(error) => Progress::Done(result_for(item, dry_run, Err(error.message()))),
        Ok(()) => {
            if dry_run || !exists {
                Progress::Done(result_for(item, dry_run, Ok(())))
            } else {
                Progress::Remove { path: path.clone(), contents_only }
            }
        },
    }
}

/// The report on an uninstall that ended in `outcome`.
pub open spec fn uninstall_result(
    application: ApplicationView,
    dry_run: bool,
    outcome: Result<(), Seq<char>>,
) -> ResultView {
    ResultView {
        item_id: application.id,
        label: "Uninstall "@ + application.name + " ("@ + application.id + ")"@,
        success: outcome is Ok,
        dry_run,
        estimated_bytes: application.installed_bytes,
        message: match outcome {
            Ok(()) => "completed; user data preserved"@,
            Err(message) => message,
        },
    }
}

/// Whether a package manager is asked for the preview of an uninstall: not about an application
/// that may not be uninstalled, and not about one from Flatpak.
pub open spec fn is_asked(application: ApplicationView) -> bool {
    valid_application(application) && !application.source.flatpak()
}

/// The commands that a preview runs: the simulation of the package manager, without privilege,
/// or none.
pub open spec fn preview_commands(application: ApplicationView) -> Seq<CommandView> {
    if is_asked(application) {
        seq![preview_command_view(application.source, application.package)]
    } else {
        seq![]
    }
}

/// What a preview comes to, given the calls that were made for it.
pub open spec fn preview_end(application: ApplicationView, calls: Seq<Call>) -> Result<
    PreviewView,
    Seq<char>,
> {
    if !valid_application(application) {
        Err(refused_application_text(application))
    } else if application.source.flatpak() {
        Ok(flatpak_preview(application))
    } else {
        native_preview(application, calls[0].reply)
    }
}

/// The commands that an uninstall runs: that of the application's source, or none.
pub open spec fn uninstall_commands(application: ApplicationView, dry_run: bool) -> Seq<
    CommandView,
> {
    if valid_application(application) {
        commands_run(uninstall_command_view(application.source, application.package), dry_run)
    } else {
        seq![]
    }
}

/// What an uninstall comes to, given the calls that were made for it: an application that may
/// not be uninstalled is refused, and for another the command of its source decides.
pub open spec fn uninstall_end(application: ApplicationView, dry_run: bool, calls: Seq<Call>) -> ResultView {
    uninstall_result(
        application,
        dry_run,
        if !valid_application(application) {
            Err(refused_application_text(application))
        } else {
            command_end(
                uninstall_command_view(application.source, application.package),
                dry_run,
                calls,
            )
        },
    )
}

/// The commands that are run for the first `count` of some applications, one after the other.
pub open spec fn commands_before(
    applications: Seq<ApplicationView>,
    each: spec_fn(ApplicationView) -> Seq<CommandView>,
    count: int,
) -> Seq<CommandView>
    decreases count,
{
    if count <= 0 {
        seq![]
    } else {
        commands_before(applications, each, count - 1) + each(applications[count - 1])
    }
}

/// The calls among `calls` that were made for the `i`-th application.
pub open spec fn calls_for(
    applications: Seq<ApplicationView>,
    each: spec_fn(ApplicationView) -> Seq<CommandView>,
    calls: Seq<Call>,
    i: int,
) -> Seq<Call> {
    calls.subrange(
        commands_before(applications, each, i).len() as int,
        commands_before(applications, each, i + 1).len() as int,
    )
}

pub open spec fn each_preview() -> spec_fn(ApplicationView) -> Seq<CommandView> {
    |application: ApplicationView| preview_commands(application)
}

pub open spec fn each_uninstall(dry_run: bool) -> spec_fn(ApplicationView) -> Seq<CommandView> {
    |application: ApplicationView| uninstall_commands(application, dry_run)
}

/// What the preview of the `i`-th application comes to.
pub open spec fn preview_at(applications: Seq<ApplicationView>, calls: Seq<Call>, i: int) -> Result<
    PreviewView,
    Seq<char>,
> {
    preview_end(applications[i], calls_for(applications, each_preview(), calls, i))
}

/// The preview of the `i`-th application fails after those before it have succeeded.
pub open spec fn preview_fails_at(
    applications: Seq<ApplicationView>,
    calls: Seq<Call>,
    i: int,
    message: Seq<char>,
) -> bool {
    &&& 0 <= i < applications.len()
    &&& commands_of(calls) == commands_before(applications, each_preview(), i + 1)
    &&& preview_at(applications, calls, i) == Err::<PreviewView, Seq<char>>(message)
    &&& forall|j: int| 0 <= j < i ==> (#[trigger] preview_at(applications, calls, j)) is Ok
}

/// The preview of one of the applications fails.
pub open spec fn some_preview_fails(
    applications: Seq<ApplicationView>,
    calls: Seq<Call>,
    message: Seq<char>,
) -> bool {
    exists|i: int| #[trigger] preview_fails_at(applications, calls, i, message)
}

/// What the previews of several uninstalls come to, given the calls that were made: one for
/// each, or the first failure, after which nobody is asked.
pub open spec fn previews_come_to(
    applications: Seq<ApplicationView>,
    calls: Seq<Call>,
    result: Result<Seq<PreviewView>, Seq<char>>,
) -> bool {
    match result {
        Ok(previews) => {
            &&& previews.len() == applications.len()
            &&& commands_of(calls) == commands_before(
                applications,
                each_preview(),
                applications.len() as int,
            )
            &&& forall|i: int|
                0 <= i < previews.len() ==> preview_at(applications, calls, i) == Ok::<
                    PreviewView,
                    Seq<char>,
                >(#[trigger] previews[i])
        },
        Err(message) => some_preview_fails(applications, calls, message),
    }
}

/// What several uninstalls come to, given the calls that were made: a result for each.
pub open spec fn uninstalls_come_to(
    applications: Seq<ApplicationView>,
    dry_run: bool,
    calls: Seq<Call>,
    results: Seq<ResultView>,
) -> bool {
    &&& results.len() == applications.len()
    &&& commands_of(calls) == commands_before(
        applications,
        each_uninstall(dry_run),
        applications.len() as int,
    )
    &&& forall|i: int|
        0 <= i < results.len() ==> #[trigger] results[i] == uninstall_end(
            applications[i],
            dry_run,
            calls_for(applications, each_uninstall(dry_run), calls, i),
        )
}

proof fn lemma_commands_before(
    applications: Seq<ApplicationView>,
    each: spec_fn(ApplicationView) -> Seq<CommandView>,
    i: int,
    j: int,
)
    requires
        0 <= i <= j,
    ensures
        commands_before(applications, each, i).len() <= commands_before(applications, each, j).len(),
    decreases j,
{
    if i < j {
        lemma_commands_before(applications, each, i, j - 1);
    }
}

/// The calls for one more application stand behind the others, which stay where they are.
proof fn lemma_calls_grow(
    applications: Seq<ApplicationView>,
    each: spec_fn(ApplicationView) -> Seq<CommandView>,
    so_far: Seq<Call>,
    own: Seq<Call>,
    i: int,
)
    requires
        0 <= i,
        commands_of(so_far) == commands_before(applications, each, i),
        commands_of(own) == each(applications[i]),
    ensures
        commands_of(so_far + own) == commands_before(applications, each, i + 1),
        calls_for(applications, each, so_far + own, i) == own,
        forall|j: int|
            0 <= j < i ==> #[trigger] calls_for(applications, each, so_far + own, j) == calls_for(
                applications,
                each,
                so_far,
                j,
            ),
{
    let all = so_far + own;
    assert(commands_of(all) =~= commands_of(so_far) + commands_of(own));
    assert(commands_of(so_far).len() == so_far.len());
    assert(commands_of(own).len() == own.len());
    assert(calls_for(applications, each, all, i) =~= own);
    assert forall|j: int| 0 <= j < i implies #[trigger] calls_for(applications, each, all, j)
        == calls_for(applications, each, so_far, j) by {
        lemma_commands_before(applications, each, j, j + 1);
        lemma_commands_before(applications, each, j + 1, i);
        assert(calls_for(applications, each, all, j) =~= calls_for(applications, each, so_far, j));
    }
}

impl<R: CommandRunner> Executor<R> {
    pub fn with_runner(home: String, runner: R) -> (r: Self)
        ensures
            r.home == home,
            r.runner.inner() == runner,
            r.runner.calls() == Seq::<Call>::empty(),
    {
        Executor { home, runner: Recorder::new(runner) }
    }

    /// Judges a cache or an artifact that is to be removed.
    pub fn validate_path(&self, path: &str, facts: &PathFacts) -> (r: Result<(), ExecutionError>)
        ensures
            verdict_view(r) == path_verdict(self.home@, path@, *facts),
    {
        judge_path(self.home.as_str(), path, facts)
    }

    /// Judges a personal file that is to be removed.
    pub fn validate_personal_file(&self, path: &str, facts: &PathFacts) -> (r: Result<
        (),
        ExecutionError,
    >)
        ensures
            verdict_view(r) == file_verdict(self.home@, path@, *facts, false),
    {
        judge_file(self.home.as_str(), path, facts, false)
    }

    /// Judges a personal file whose removal was forced: the protected locations and the guard
    /// on repositories no longer count, everything else does.
    pub fn validate_personal_file_forced(&self, path: &str, facts: &PathFacts) -> (r: Result<
        (),
        ExecutionError,
    >)
        ensures
            verdict_view(r) == file_verdict(self.home@, path@, *facts, true),
    {
        judge_file(self.home.as_str(), path, facts, true)
    }

    /// Judges the item and removes it, as far as commands do that. An entry of the file system
    /// that may be removed is handed back.
    pub fn execute(&mut self, item: &CleanupItem, facts: &PathFacts, dry_run: bool) -> (r: Progress)
        requires
            takes(&old(self).runner, item_commands(item@), dry_run),
        ensures
            final(self).home == old(self).home,
            final(self).runner.inner() == old(self).runner.inner(),
            continues(old(self).runner.calls(), final(self).runner.calls()),
            progresses_to(
                old(self).home@,
                item@,
                *facts,
                dry_run,
                made(old(self).runner.calls(), final(self).runner.calls()),
                r@,
            ),
    {
        proof {
            lemma_nothing_made(self.runner.calls());
        }
        match &item.action {
            CleanupAction::RemovePath { path, contents_only } => {
                let verdict = match self.validate_path(path.as_str(), facts) {
                    Err(error) => Err(error),
                    Ok(()) => judge_link(path.as_str(), &facts.target),
                };
                settle(item, path, *contents_only, verdict, facts.exists, dry_run)
            },
            CleanupAction::RemovePersonalFile { path, force } => {
                let verdict = if *force {
                    self.validate_personal_file_forced(path.as_str(), facts)
                } else {
                    self.validate_personal_file(path.as_str(), facts)
                };
                settle(item, path, false, verdict, facts.exists, dry_run)
            },
            CleanupAction::Command { program, args, requires_root } => {
                proof {
                    let command = CommandView {
                        program: program@,
                        args: texts(args@),
                        requires_root: *requires_root,
                    };
                    assert(item_commands(item@) == seq![command]);
                    assert(item_commands(item@)[0] == command);
                }
                let outcome = execute_command(
                    &mut self.runner,
                    program.as_str(),
                    args,
                    *requires_root,
                    dry_run,
                );
                Progress::Done(result_for(item, dry_run, outcome))
            },
            CleanupAction::CommandSequence { commands } => {
                let ghost before = self.runner.calls();
                let outcome = execute_sequence(&mut self.runner, commands, dry_run);
                let ghost seen = outcome_view(outcome);
                let progress = Progress::Done(result_for(item, dry_run, outcome));
                proof {
                    let views = command_views(commands@);
                    let calls = made(before, self.runner.calls());
                    let k = choose|k: int| #[trigger]
                        sequence_gets_to(views, dry_run, calls, k) && seen == sequence_end(
                            views,
                            calls,
                            k,
                        );
                    assert(sequence_gets_to(views, dry_run, calls, k));
                    assert(sequence_comes_to(views, item@, dry_run, calls, progress@));
                }
                progress
            },
        }
    }

    /// The report on an entry that was handed back to be removed.
    pub fn finish_removal(&self, item: &CleanupItem, outcome: Result<(), ExecutionError>) -> (r:
        ActionResult)
        ensures
            r@ == item_result(
                item@,
                false,
                match verdict_view(outcome) {
                    Ok(()) => Ok(()),
                    Err(fault) => Err(execution_fault_text(fault)),
                },
            ),
    {
        let outcome = match outcome {
            Ok(()) => Ok(()),
            Err(error) => Err(error.message()),
        };
        result_for(item, false, outcome)
    }

    /// What uninstalling the application would remove. Package managers are only asked about
    /// applications that may be uninstalled; Flatpak is not asked.
    pub fn preview_uninstall(&mut self, application: &Application) -> (r: Result<
        UninstallPreview,
        String,
    >)
        requires
            old(self).runner.accepts_all(preview_commands(application@)),
        ensures
            final(self).home == old(self).home,
            final(self).runner.inner() == old(self).runner.inner(),
            continues(old(self).runner.calls(), final(self).runner.calls()),
            ({
                let calls = made(old(self).runner.calls(), final(self).runner.calls());
                commands_of(calls) == preview_commands(application@) && preview_result_view(r)
                    == preview_end(application@, calls)
            }),
    {
        let ghost before = self.runner.calls();
        proof {
            lemma_nothing_made(before);
            assert(commands_of(Seq::empty()) =~= seq![]);
        }
        match validate_application(application) {
            Err(message) => {
                return Err(message);
            },
            Ok(()) => {},
        }
        if application.source.is_flatpak() {
            return Ok(preview_of_flatpak(application));
        }
        let (program, args) = preview_command(application);
        let ghost command = preview_command_view(application.source, application.package@);
        proof {
            assert(runnable_command(command.program, command.args, false));
            assert(preview_commands(application@)[0] == command);
        }
        let reply = self.runner.run(program, args.as_slice(), false);
        proof {
            lemma_one_made(before, Call { command, reply });
            assert(commands_of(seq![Call { command, reply }]) =~= seq![command]);
        }
        preview_from_reply(application, reply)
    }

    /// Uninstalls the application and keeps its user data.
    pub fn execute_uninstall(&mut self, application: &Application, dry_run: bool) -> (r:
        ActionResult)
        requires
            old(self).runner.accepts_all(uninstall_commands(application@, dry_run)),
        ensures
            final(self).home == old(self).home,
            final(self).runner.inner() == old(self).runner.inner(),
            continues(old(self).runner.calls(), final(self).runner.calls()),
            ({
                let calls = made(old(self).runner.calls(), final(self).runner.calls());
                commands_of(calls) == uninstall_commands(application@, dry_run) && r@
                    == uninstall_end(application@, dry_run, calls)
            }),
    {
        proof {
            lemma_nothing_made(self.runner.calls());
            assert(commands_of(Seq::empty()) =~= seq![]);
        }
        let outcome = match validate_application(application) {
            Err(message) => Err(message),
            Ok(()) => {
                let (program, args, requires_root) = uninstall_command(application);
                execute_command(&mut self.runner, program, &args, requires_root, dry_run)
            },
        };
        let (success, message) = match outcome {
            Ok(()) => (true, "completed; user data preserved".to_owned()),
            Err(message) => (false, message),
        };
        ActionResult {
            item_id: application.id.clone(),
            label: "Uninstall ".to_owned().concat(application.name.as_str()).concat(" (").concat(
                application.id.as_str(),
            ).concat(")"),
            success,
            dry_run,
            estimated_bytes: application.installed_bytes,
            message,
        }
    }

    /// Previews the uninstall of several applications. The first failure ends it.
    pub fn preview_all(&mut self, applications: &Vec<Application>) -> (r: Result<
        Vec<UninstallPreview>,
        String,
    >)
        requires
            forall|i: int|
                0 <= i < applications@.len() ==> old(self).runner.accepts_all(
                    preview_commands((#[trigger] applications@[i])@),
                ),
        ensures
            final(self).home == old(self).home,
            final(self).runner.inner() == old(self).runner.inner(),
            continues(old(self).runner.calls(), final(self).runner.calls()),
            previews_come_to(
                application_views(applications@),
                made(old(self).runner.calls(), final(self).runner.calls()),
                match r {
                    Ok(previews) => Ok(preview_views(previews@)),
                    Err(message) => Err(message@),
                },
            ),
    {
        let ghost views = application_views(applications@);
        let ghost before = self.runner.calls();
        let mut out: Vec<UninstallPreview> = Vec::new();
        let mut i: usize = 0;
        proof {
            lemma_nothing_made(before);
            assert(commands_of(Seq::empty()) =~= seq![]);
        }
        while i < applications.len()
            invariant
                i <= applications@.len(),
                views == application_views(applications@),
                self.home == old(self).home,
                self.runner.inner() == old(self).runner.inner(),
                forall|j: int|
                    0 <= j < applications@.len() ==> self.runner.accepts_all(
                        preview_commands((#[trigger] applications@[j])@),
                    ),
                before == old(self).runner.calls(),
                continues(before, self.runner.calls()),
                commands_of(made(before, self.runner.calls())) == commands_before(
                    views,
                    each_preview(),
                    i as int,
                ),
                preview_views(out@).len() == i,
                forall|j: int|
                    0 <= j < i ==> preview_at(views, made(before, self.runner.calls()), j) == Ok::<
                        PreviewView,
                        Seq<char>,
                    >(#[trigger] preview_views(out@)[j]),
            decreases applications.len() - i,
        {
            let ghost seen = out@;
            let ghost middle = self.runner.calls();
            let ghost so_far = made(before, middle);
            proof {
                assert(views[i as int] == applications@[i as int]@);
            }
            let result = self.preview_uninstall(&applications[i]);
            let ghost own = made(middle, self.runner.calls());
            let ghost all = made(before, self.runner.calls());
            proof {
                lemma_made_twice(before, middle, self.runner.calls());
                lemma_calls_grow(views, each_preview(), so_far, own, i as int);
                assert forall|j: int| 0 <= j < i implies preview_at(views, all, j) == Ok::<
                    PreviewView,
                    Seq<char>,
                >(#[trigger] preview_views(out@)[j]) by {
                    assert(calls_for(views, each_preview(), all, j) == calls_for(
                        views,
                        each_preview(),
                        so_far,
                        j,
                    ));
                }
            }
            match result {
                Err(message) => {
                    proof {
                        assert forall|j: int| 0 <= j < i implies (#[trigger] preview_at(
                            views,
                            all,
                            j,
                        )) is Ok by {
                            assert(preview_at(views, all, j) == Ok::<PreviewView, Seq<char>>(
                                preview_views(out@)[j],
                            ));
                        }
                        assert(preview_fails_at(views, all, i as int, message@));
                    }
                    return Err(message);
                },
                Ok(preview) => {
                    let ghost view = preview@;
                    out.push(preview);
                    proof {
                        assert(preview_views(out@) =~= preview_views(seen).push(view));
                    }
                },
            }
            i = i + 1;
        }
        Ok(out)
    }

    /// Uninstalls several applications one after the other; a failure does not end it.
    pub fn uninstall_all(&mut self, applications: &Vec<Application>, dry_run: bool) -> (r: Vec<
        ActionResult,
    >)
        requires
            forall|i: int|
                0 <= i < applications@.len() ==> old(self).runner.accepts_all(
                    uninstall_commands((#[trigger] applications@[i])@, dry_run),
                ),
        ensures
            final(self).home == old(self).home,
            final(self).runner.inner() == old(self).runner.inner(),
            continues(old(self).runner.calls(), final(self).runner.calls()),
            uninstalls_come_to(
                application_views(applications@),
                dry_run,
                made(old(self).runner.calls(), final(self).runner.calls()),
                result_views(r@),
            ),
    {
        let ghost views = application_views(applications@);
        let ghost each = each_uninstall(dry_run);
        let ghost before = self.runner.calls();
        let mut out: Vec<ActionResult> = Vec::new();
        let mut i: usize = 0;
        proof {
            lemma_nothing_made(before);
            assert(commands_of(Seq::empty()) =~= seq![]);
        }
        while i < applications.len()
            invariant
                i <= applications@.len(),
                views == application_views(applications@),
                each == each_uninstall(dry_run),
                self.home == old(self).home,
                self.runner.inner() == old(self).runner.inner(),
                forall|j: int|
                    0 <= j < applications@.len() ==> self.runner.accepts_all(
                        uninstall_commands((#[trigger] applications@[j])@, dry_run),
                    ),
                before == old(self).runner.calls(),
                continues(before, self.runner.calls()),
                commands_of(made(before, self.runner.calls())) == commands_before(
                    views,
                    each,
                    i as int,
                ),
                result_views(out@).len() == i,
                forall|j: int|
                    0 <= j < i ==> #[trigger] result_views(out@)[j] == uninstall_end(
                        views[j],
                        dry_run,
                        calls_for(views, each, made(before, self.runner.calls()), j),
                    ),
            decreases applications.len() - i,
        {
            let ghost seen = out@;
            let ghost middle = self.runner.calls();
            let ghost so_far = made(before, middle);
            proof {
                assert(views[i as int] == applications@[i as int]@);
            }
            let result = self.execute_uninstall(&applications[i], dry_run);
            let ghost own = made(middle, self.runner.calls());
            let ghost all = made(before, self.runner.calls());
            let ghost view = result@;
            out.push(result);
            proof {
                lemma_made_twice(before, middle, self.runner.calls());
                lemma_calls_grow(views, each, so_far, own, i as int);
                assert(result_views(out@) =~= result_views(seen).push(view));
                assert forall|j: int| 0 <= j < i + 1 implies #[trigger] result_views(out@)[j]
                    == uninstall_end(views[j], dry_run, calls_for(views, each, all, j)) by {
                    if j < i {
                        assert(result_views(out@)[j] == result_views(seen)[j]);
                        assert(calls_for(views, each, all, j) == calls_for(views, each, so_far, j));
                    }
                }
            }
            i = i + 1;
        }
        out
    }
}

// ---------------------------------------------------------------------------------------
// Laws
// ---------------------------------------------------------------------------------------

/// A dry run does nothing: no entry is handed back, and no command is run.
pub proof fn dry_run_removes_nothing(
    home: Seq<char>,
    item: ItemView,
    facts: PathFacts,
    calls: Seq<Call>,
    progress: ProgressView,
)
    requires
        progresses_to(home, item, facts, true, calls, progress),
    ensures
        calls.len() == 0,
        progress is Done,
        progress->Done_0.dry_run,
{
    assert(commands_of(calls).len() == calls.len());
}

/// An entry is handed back only if its verdict allows it, and then just the entry that the item
/// names; no command is run for it.
pub proof fn only_judged_entries_are_removed(
    home: Seq<char>,
    item: ItemView,
    facts: PathFacts,
    dry_run: bool,
    calls: Seq<Call>,
    progress: ProgressView,
)
    requires
        progresses_to(home, item, facts, dry_run, calls, progress),
        progress is Remove,
    ensures
        !dry_run,
        facts.exists,
        calls.len() == 0,
        match item.action {
            ActionView::RemovePath { path, contents_only } => cleanup_verdict(home, path, facts)
                == Ok::<(), ExecutionFault>(()) && progress == (ProgressView::Remove {
                path,
                contents_only,
            }),
            ActionView::RemovePersonalFile { path, force } => file_verdict(home, path, facts, force)
                == Ok::<(), ExecutionFault>(()) && progress == (ProgressView::Remove {
                path,
                contents_only: false,
            }),
            _ => false,
        },
{
}

/// A command that is not allowed is not run, nor is any other in its place; the report names it.
pub proof fn refused_command_is_not_run(
    home: Seq<char>,
    item: ItemView,
    facts: PathFacts,
    dry_run: bool,
    calls: Seq<Call>,
    progress: ProgressView,
    command: CommandView,
)
    requires
        item.action == ActionView::Command(command),
        !allowed_command(command.program, command.args, command.requires_root),
        progresses_to(home, item, facts, dry_run, calls, progress),
    ensures
        calls.len() == 0,
        progress == ProgressView::Done(
            item_result(
                item,
                dry_run,
                Err(refused_command_text(command.program, command.args)),
            ),
        ),
{
    assert(commands_of(calls).len() == calls.len());
}

/// Only the commands of an item are run for it, in their order and each at most once, and only
/// allowed ones; nothing runs behind a failure; and the item succeeds only if all of them ran.
pub proof fn item_runs_its_own_commands(
    home: Seq<char>,
    item: ItemView,
    facts: PathFacts,
    dry_run: bool,
    calls: Seq<Call>,
    progress: ProgressView,
)
    requires
        progresses_to(home, item, facts, dry_run, calls, progress),
    ensures
        calls.len() <= item_commands(item).len(),
        forall|i: int|
            0 <= i < calls.len() ==> (#[trigger] calls[i]).command == item_commands(item)[i]
                && is_allowed(calls[i].command),
        forall|i: int|
            0 <= i < calls.len() - 1 ==> command_outcome((#[trigger] calls[i]).reply) is Ok,
        item_commands(item).len() > 0 && !dry_run ==> (progress->Done_0.success <==> calls.len()
            == item_commands(item).len() && forall|i: int|
            0 <= i < calls.len() ==> command_outcome((#[trigger] calls[i]).reply) is Ok),
        item_commands(item).len() > 0 && dry_run ==> (progress->Done_0.success <==> forall|i: int|
            0 <= i < item_commands(item).len() ==> is_allowed(#[trigger] item_commands(item)[i])),
{
    let commands = item_commands(item);
    assert(commands_of(calls).len() == calls.len());
    assert forall|i: int| 0 <= i < calls.len() implies #[trigger] calls[i].command == commands_of(
        calls,
    )[i] by {}
    match item.action {
        ActionView::Command(command) => {
            assert(commands[0] == command);
            if calls.len() > 0 {
                assert(commands_of(calls)[0] == command);
                assert(calls[0].command == command);
            }
        },
        ActionView::CommandSequence(_) => {
            let k = choose|k: int| #[trigger]
                sequence_gets_to(commands, dry_run, calls, k) && progress == ProgressView::Done(
                    item_result(item, dry_run, sequence_end(commands, calls, k)),
                );
            if !dry_run {
                assert forall|i: int| 0 <= i < calls.len() implies (#[trigger] calls[i]).command
                    == commands[i] by {
                    assert(commands_of(calls)[i] == commands[i]);
                }
            }
            if k < commands.len() {
                assert(commands[k] == item_commands(item)[k]);
            }
        },
        _ => {},
    }
}

/// The command that uninstalls an application is allowed for every application that may be
/// uninstalled, and for no other.
pub proof fn uninstall_command_is_allowed(application: ApplicationView)
    requires
        application.id == application_id(application.source, application.package),
    ensures
        ({
            let command = uninstall_command_view(application.source, application.package);
            allowed_command(command.program, command.args, command.requires_root)
                == valid_application(application)
        }),
{
    reveal_strlit("paccache");
    reveal_strlit("pacman");
    reveal_strlit("apt-get");
    reveal_strlit("dnf");
    reveal_strlit("journalctl");
    reveal_strlit("docker");
    reveal_strlit("flatpak");
    reveal_strlit("podman");
    reveal_strlit("ollama");
    reveal_strlit("snap");
    reveal_strlit("--unused");
    reveal_strlit("--user");
    reveal_strlit("--system");
    reveal_strlit("--yes");
    reveal_strlit("--assumeyes");
    let command = uninstall_command_view(application.source, application.package);
    let args = command.args;
    assert("pacman"@.len() == 6 && "paccache"@.len() == 8 && "podman"@.len() == 6);
    assert("pacman"@[0] == 'p' && "podman"@[1] == 'o' && "pacman"@[1] == 'a');
    assert("apt-get"@.len() == 7 && "dnf"@.len() == 3 && "snap"@.len() == 4);
    assert(!fixed_command(command.program, args, command.requires_root)) by {
        assert(args.len() >= 3);
        assert(seq!["-rk1"@].len() == 1 && seq!["-ruk0"@].len() == 1);
        assert(seq!["clean"@].len() == 1 && seq!["clean"@, "all"@].len() == 2);
        assert(seq!["--vacuum-size=200M"@].len() == 1);
        assert(seq!["system"@, "prune"@, "-f"@].len() == 3);
        assert(seq!["uninstall"@, "--unused"@, "-y"@].len() == 3);
        assert("apt-get"@[0] == 'a' && "flatpak"@[0] == 'f' && "dnf"@.len() == 3);
    }
    match application.source {
        ApplicationSource::Pacman => {
            assert(args.len() == 4 && args[3] == application.package);
        },
        ApplicationSource::Apt => {
            assert(args.len() == 3 && args[2] == application.package);
        },
        ApplicationSource::Dnf => {
            assert(args.len() == 3 && args[2] == application.package);
        },
        ApplicationSource::FlatpakUser => {
            assert(args.len() == 4 && args[3] == application.package);
        },
        ApplicationSource::FlatpakSystem => {
            assert(args.len() == 4 && args[3] == application.package);
        },
    }
}

/// What a preview shows is what is run: it is about the application that was asked for, names
/// the very command of the uninstall, lists at least one removal and keeps the user's data.
pub proof fn preview_shows_what_is_run(
    application: ApplicationView,
    calls: Seq<Call>,
    preview: PreviewView,
)
    requires
        preview_end(application, calls) == Ok::<PreviewView, Seq<char>>(preview),
    ensures
        valid_application(application),
        preview.application_id == application.id,
        preview.command == command_text(
            uninstall_command_view(application.source, application.package),
        ),
        preview.removals.len() > 0,
        preview.preserves_user_data,
{
}

/// A preview only asks: it runs one command at most, without privilege, and never one that a
/// cleanup may run.
pub proof fn preview_only_asks(application: ApplicationView, calls: Seq<Call>)
    requires
        commands_of(calls) == preview_commands(application),
    ensures
        calls.len() <= 1,
        !is_asked(application) ==> calls.len() == 0,
        forall|i: int|
            0 <= i < calls.len() ==> !(#[trigger] calls[i]).command.requires_root && !is_allowed(
                calls[i].command,
            ),
{
    assert(commands_of(calls).len() == calls.len());
    if calls.len() > 0 {
        assert(calls[0].command == commands_of(calls)[0]);
        lemma_preview_is_no_cleanup(application);
    }
}

proof fn lemma_preview_is_no_cleanup(application: ApplicationView)
    requires
        is_asked(application),
    ensures
        !is_allowed(preview_command_view(application.source, application.package)),
{
    reveal_strlit("pacman");
    reveal_strlit("apt-get");
    reveal_strlit("dnf");
    reveal_strlit("docker");
    reveal_strlit("flatpak");
    reveal_strlit("podman");
    reveal_strlit("ollama");
    reveal_strlit("paccache");
    reveal_strlit("journalctl");
    reveal_strlit("snap");
    assert("pacman"@.len() == 6 && "podman"@.len() == 6 && "docker"@.len() == 6);
    assert("pacman"@[1] == 'a' && "podman"@[1] == 'o' && "docker"@[0] == 'd');
    assert("pacman"@[0] == 'p' && "ollama"@.len() == 6 && "ollama"@[0] == 'o');
    assert("apt-get"@.len() == 7 && "flatpak"@.len() == 7 && "apt-get"@[0] == 'a');
    assert("flatpak"@[0] == 'f' && "dnf"@.len() == 3 && "snap"@.len() == 4);
}

/// Nothing but the command of its source is run to uninstall an application, and that once;
/// nothing at all is run for a protected one or in a dry run.
pub proof fn uninstall_runs_one_command(application: ApplicationView, dry_run: bool, calls: Seq<Call>)
    requires
        commands_of(calls) == uninstall_commands(application, dry_run),
    ensures
        dry_run || !valid_application(application) ==> calls.len() == 0,
        !dry_run && valid_application(application) ==> calls.len() == 1 && calls[0].command
            == uninstall_command_view(application.source, application.package),
{
    assert(commands_of(calls).len() == calls.len());
    if valid_application(application) {
        uninstall_command_is_allowed(application);
    }
    if calls.len() > 0 {
        assert(calls[0].command == commands_of(calls)[0]);
    }
}

/// An uninstall keeps the user's data, and a Flatpak application stays in the scope that it was
/// installed in: no command asks for more than the package, and the scope is named.
pub proof fn uninstall_keeps_data_and_scope(application: ApplicationView)
    requires
        valid_application(application),
    ensures
        ({
            let command = uninstall_command_view(application.source, application.package);
            &&& !command.args.contains("--delete-data"@)
            &&& !command.args.contains("--purge"@)
            &&& command.args.last() == application.package
            &&& application.source == ApplicationSource::FlatpakUser ==> command.args.contains(
                "--user"@,
            ) && !command.args.contains("--system"@)
            &&& application.source == ApplicationSource::FlatpakSystem ==> command.args.contains(
                "--system"@,
            ) && !command.args.contains("--user"@)
        }),
{
    reveal_strlit("--delete-data");
    reveal_strlit("--purge");
    reveal_strlit("--user");
    reveal_strlit("--system");
    reveal_strlit("--yes");
    reveal_strlit("--assumeyes");
    reveal_strlit("--noconfirm");
    reveal_strlit("-Rns");
    reveal_strlit("--");
    reveal_strlit("-y");
    reveal_strlit("remove");
    reveal_strlit("uninstall");
    let args = uninstall_command_view(application.source, application.package).args;
    assert("--purge"@[2] == 'p' && "--purge"@.len() == 7 && "--delete-data"@.len() == 13);
    assert("--delete-data"@[0] == '-' && "--purge"@[0] == '-');
    assert("--user"@[0] == '-' && "--system"@[0] == '-' && "--user"@.len() == 6);
    assert("--system"@.len() == 8 && "uninstall"@.len() == 9);
    assert("remove"@.len() == 6 && "remove"@[0] == 'r');
    assert(application.package[0] != '-');
    assert(args.contains(args[1]));
}

/// What passes every check is removed: the very entry that the item names, where it is there and
/// this is no dry run. What is not there is reported as done.
pub proof fn accepted_entry_is_removed(
    home: Seq<char>,
    item: ItemView,
    facts: PathFacts,
    dry_run: bool,
    calls: Seq<Call>,
    progress: ProgressView,
)
    requires
        progresses_to(home, item, facts, dry_run, calls, progress),
        match item.action {
            ActionView::RemovePath { path, contents_only } => path_verdict(home, path, facts) is Ok
                && link_verdict(path, facts.target) is Ok,
            ActionView::RemovePersonalFile { path, force } => file_verdict(home, path, facts, force)
                is Ok,
            _ => false,
        },
    ensures
        !dry_run && facts.exists ==> match item.action {
            ActionView::RemovePath { path, contents_only } => progress == (ProgressView::Remove {
                path,
                contents_only,
            }),
            ActionView::RemovePersonalFile { path, force } => progress == (ProgressView::Remove {
                path,
                contents_only: false,
            }),
            _ => true,
        },
        dry_run || !facts.exists ==> progress is Done && progress->Done_0.success,
{
}

/// What is refused is reported as failed, with the reason, and nothing is done.
pub proof fn refused_entry_stays(
    home: Seq<char>,
    item: ItemView,
    facts: PathFacts,
    dry_run: bool,
    calls: Seq<Call>,
    progress: ProgressView,
)
    requires
        progresses_to(home, item, facts, dry_run, calls, progress),
        match item.action {
            ActionView::RemovePath { path, contents_only } => path_verdict(home, path, facts) is Err
                || link_verdict(path, facts.target) is Err,
            ActionView::RemovePersonalFile { path, force } => file_verdict(home, path, facts, force)
                is Err,
            _ => false,
        },
    ensures
        calls.len() == 0,
        progress is Done,
        !progress->Done_0.success,
        match item.action {
            ActionView::RemovePath { path, contents_only } => path_verdict(home, path, facts)
                matches Err(fault) ==> progress->Done_0.message == execution_fault_text(fault),
            ActionView::RemovePersonalFile { path, force } => file_verdict(home, path, facts, force)
                matches Err(fault) ==> progress->Done_0.message == execution_fault_text(fault),
            _ => true,
        },
{
}

/// A report is about its item: it carries its id, label and bytes, says whether this was a dry
/// run, and succeeds exactly where the removal did.
pub proof fn report_is_about_its_item(
    home: Seq<char>,
    item: ItemView,
    facts: PathFacts,
    dry_run: bool,
    calls: Seq<Call>,
    progress: ProgressView,
)
    requires
        progresses_to(home, item, facts, dry_run, calls, progress),
        progress is Done,
    ensures
        progress->Done_0.item_id == item.id,
        progress->Done_0.label == item.label,
        progress->Done_0.estimated_bytes == item.estimated_bytes,
        progress->Done_0.dry_run == dry_run,
        progress->Done_0.success ==> progress->Done_0.message == "completed"@,
{
}

/// Each source is uninstalled from and asked through its own package manager, about that one
/// package: natively with privilege, which asking never needs, and in Flatpak without.
pub proof fn source_has_its_package_manager(source: ApplicationSource, package: Seq<char>)
    ensures
        ({
            let run = uninstall_command_view(source, package);
            &&& run.program == match source {
                ApplicationSource::Pacman => "pacman"@,
                ApplicationSource::Apt => "apt-get"@,
                ApplicationSource::Dnf => "dnf"@,
                _ => "flatpak"@,
            }
            &&& run.args.len() > 0 && run.args.last() == package
            &&& run.requires_root <==> !source.flatpak()
        }),
        !source.flatpak() ==> {
            let run = uninstall_command_view(source, package);
            let ask = preview_command_view(source, package);
            ask.program == run.program && ask.args.len() > 0 && ask.args.last() == package
                && !ask.requires_root
        },
{
}

/// The command is shown as it will be typed: the privilege first, then the program and its
/// arguments with a space before each.
pub proof fn command_is_shown_as_typed(command: CommandView)
    requires
        command.args.len() > 0,
    ensures
        !command.requires_root ==> command_text(command) == joined(
            seq![command.program] + command.args,
            " "@,
        ),
        command.requires_root ==> command_text(command) == joined(
            seq!["sudo"@, "--"@, command.program] + command.args,
            " "@,
        ),
{
    let space = " "@;
    let all = command.args;
    joining_puts_separators_between(seq![command.program], all, space);
    joining_puts_separators_between(seq!["sudo"@], seq!["--"@], space);
    joining_puts_separators_between(seq!["sudo"@, "--"@], seq![command.program], space);
    joining_puts_separators_between(seq!["sudo"@, "--"@, command.program], all, space);
    assert(seq!["sudo"@] + seq!["--"@] =~= seq!["sudo"@, "--"@]);
    assert(seq!["sudo"@, "--"@] + seq![command.program] =~= seq![
        "sudo"@,
        "--"@,
        command.program,
    ]);
    reveal_strlit("sudo -- ");
    reveal_strlit("sudo");
    reveal_strlit("--");
    reveal_strlit(" ");
    reveal_strlit("");
    assert("sudo -- "@ =~= "sudo"@ + " "@ + "--"@ + " "@);
    assert(command_text(command) =~= if command.requires_root {
        "sudo"@ + " "@ + "--"@ + " "@ + command.program + " "@ + joined(all, " "@)
    } else {
        command.program + " "@ + joined(all, " "@)
    });
}

/// An uninstall is reported under the application: its id and size, success as the command
/// ended, and that the data of the user was kept.
pub proof fn uninstall_is_reported(
    application: ApplicationView,
    dry_run: bool,
    outcome: Result<(), Seq<char>>,
)
    ensures
        ({
            let result = uninstall_result(application, dry_run, outcome);
            &&& result.item_id == application.id
            &&& result.estimated_bytes == application.installed_bytes
            &&& result.dry_run == dry_run
            &&& result.success <==> outcome is Ok
            &&& outcome matches Err(message) ==> result.message == message
        }),
{
}

/// Every application that may be uninstalled is uninstalled, one after the other and each by its
/// own command, whatever became of those before it; each has its own result, which says how its
/// command ended.
pub proof fn every_application_is_uninstalled(
    applications: Seq<ApplicationView>,
    calls: Seq<Call>,
    results: Seq<ResultView>,
    i: int,
)
    requires
        uninstalls_come_to(applications, false, calls, results),
        forall|k: int| 0 <= k < applications.len() ==> valid_application(#[trigger] applications[k]),
        0 <= i < applications.len(),
    ensures
        calls.len() == applications.len(),
        results.len() == applications.len(),
        calls[i].command == uninstall_command_view(applications[i].source, applications[i].package),
        results[i].item_id == applications[i].id,
        results[i].success <==> (calls[i].reply matches Ok(output) && output.success),
        !results[i].dry_run,
{
    let each = each_uninstall(false);
    let n = applications.len() as int;
    lemma_one_command_each(applications, n);
    lemma_one_command_each(applications, i);
    lemma_one_command_each(applications, i + 1);
    assert(commands_of(calls).len() == calls.len());
    assert(calls[i].command == commands_of(calls)[i]);
    let own = calls_for(applications, each, calls, i);
    assert(own =~= seq![calls[i]]);
    assert(own[0] == calls[i]);
    assert(results[i] == uninstall_end(applications[i], false, own));
    assert(valid_application(applications[i]));
    uninstall_command_is_allowed(applications[i]);
}

proof fn lemma_one_command_each(applications: Seq<ApplicationView>, count: int)
    requires
        0 <= count <= applications.len(),
        forall|k: int| 0 <= k < applications.len() ==> valid_application(#[trigger] applications[k]),
    ensures
        commands_before(applications, each_uninstall(false), count).len() == count,
        forall|k: int|
            0 <= k < count ==> #[trigger] commands_before(
                applications,
                each_uninstall(false),
                count,
            )[k] == uninstall_command_view(applications[k].source, applications[k].package),
    decreases count,
{
    if count > 0 {
        lemma_one_command_each(applications, count - 1);
        let last = applications[count - 1];
        assert(valid_application(last));
        uninstall_command_is_allowed(last);
        let run = uninstall_command_view(last.source, last.package);
        assert((each_uninstall(false))(last) == seq![run]);
        let before = commands_before(applications, each_uninstall(false), count - 1);
        let now = commands_before(applications, each_uninstall(false), count);
        assert(now =~= before.push(run));
        assert forall|k: int| 0 <= k < count implies #[trigger] now[k] == uninstall_command_view(
            applications[k].source,
            applications[k].package,
        ) by {
            if k < count - 1 {
                assert(now[k] == before[k]);
            }
        }
    }
}

/// Every application that was asked about has its preview, under its id, or nothing is previewed at
/// all and the first that failed says why.
pub proof fn every_application_is_previewed(
    applications: Seq<ApplicationView>,
    calls: Seq<Call>,
    previews: Seq<PreviewView>,
    i: int,
)
    requires
        previews_come_to(applications, calls, Ok(previews)),
        0 <= i < applications.len(),
    ensures
        previews.len() == applications.len(),
        previews[i].application_id == applications[i].id,
        previews[i].removals.len() > 0,
        valid_application(applications[i]),
        previews[i].command == command_text(
            uninstall_command_view(applications[i].source, applications[i].package),
        ),
{
    assert(preview_at(applications, calls, i) == Ok::<PreviewView, Seq<char>>(previews[i]));
}

/// An entry that was to be removed is reported as it ended: under its item, as a success exactly
/// where the removal was one, and otherwise with the reason.
pub proof fn removal_is_reported_as_it_ended<R: CommandRunner>(
    executor: &Executor<R>,
    item: &CleanupItem,
    outcome: Result<(), ExecutionError>,
    result: ActionResult,
)
    requires
        call_ensures(Executor::<R>::finish_removal, (executor, item, outcome), result),
    ensures
        result.item_id@ == item.id@,
        result.estimated_bytes == item.estimated_bytes,
        !result.dry_run,
        result.success <==> outcome is Ok,
        outcome matches Err(error) ==> result.message@ == execution_fault_text(error@),
{
    assert(result@.success == result.success);
}

/// A personal file is judged without force unless force is asked for: what only force lets pass is
/// refused without it.
pub proof fn force_is_asked_for<R: CommandRunner>(
    executor: &Executor<R>,
    path: &str,
    facts: &PathFacts,
    plain: Result<(), ExecutionError>,
    forced: Result<(), ExecutionError>,
)
    requires
        call_ensures(Executor::<R>::validate_personal_file, (executor, path, facts), plain),
        call_ensures(Executor::<R>::validate_personal_file_forced, (executor, path, facts), forced),
    ensures
        plain is Ok ==> forced is Ok,
        denylisted(parts_below(path@, executor.home@)) ==> plain is Err,
        facts.target is Directory && facts.git_root ==> plain is Err,
        plain is Ok || forced is Ok ==> stays_below(executor.home@, path@),
{
    if plain is Ok {
        forcing_only_widens(executor.home@, path@, *facts);
    }
}

} // verus!
