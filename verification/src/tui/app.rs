//! The application: which screen is shown, and what a key does on it.
use vstd::prelude::*;
use vstd::string::*;

use crate::tui::analyze::{
    active, delete_begun, delete_cancelled, entered, filter_begun, filter_typed, moved, opened,
    polled, refreshed, rows, stepped_back, switched, toggled, AnalyzeMode, AnalyzeState,
    AnalyzeView,
};
use crate::tui::execution::{ExecutionView, WorkflowExecution};
use crate::tui::keys::{stepped, Key, KeyPress, Motion};
use crate::tui::menu::{action_at, menu_actions, MenuAction};
use crate::tui::workflow::{
    authorized, keyed, started, OutcomeView, WorkflowOutcome, WorkflowState, WorkflowView,
};
use crate::uninstall::{application_views, Application, ApplicationView};

verus! {

// ---------------------------------------------------------------------------------------
// The explorer
// ---------------------------------------------------------------------------------------

/// What a key asks for on the explorer's screen beyond the change of its state.
#[derive(Debug, Clone, Copy, PartialEq, Eq, Structural)]
pub enum AnalyzeOutcome {
    Stay,
    /// Back to the menu.
    Leave,
    Quit,
    /// The removal that was confirmed is carried out.
    Remove,
}

/// What a key makes of the explorer. Help, results, the question before a removal and a filter
/// being typed take the key first, in this order.
pub open spec fn explored(state: AnalyzeView, press: KeyPress, git_root: bool) -> (
    AnalyzeView,
    AnalyzeOutcome,
) {
    let key = press.key;
    if state.show_help {
        (
            if key == Key::Esc || key == Key::Char('?') || key == Key::Enter {
                AnalyzeView { show_help: false, ..state }
            } else {
                state
            },
            AnalyzeOutcome::Stay,
        )
    } else if state.results is Some {
        (
            if key == Key::Esc || key == Key::Enter {
                AnalyzeView { results: None, ..state }
            } else {
                state
            },
            AnalyzeOutcome::Stay,
        )
    } else if state.confirming_delete {
        if key == Key::Enter {
            (state, AnalyzeOutcome::Remove)
        } else if key == Key::Esc || key == Key::Char('q') {
            (delete_cancelled(state), AnalyzeOutcome::Stay)
        } else {
            (state, AnalyzeOutcome::Stay)
        }
    } else if state.filtering {
        (filter_typed(state, key), AnalyzeOutcome::Stay)
    } else {
        match key {
            Key::Char('q') => (state, AnalyzeOutcome::Quit),
            Key::Char('?') => (AnalyzeView { show_help: true, ..state }, AnalyzeOutcome::Stay),
            Key::Up | Key::Char('k') => (moved(state, Motion::Up), AnalyzeOutcome::Stay),
            Key::Down | Key::Char('j') => (moved(state, Motion::Down), AnalyzeOutcome::Stay),
            Key::Enter | Key::Right | Key::Char('l') => (entered(state), AnalyzeOutcome::Stay),
            Key::Char(' ') => (toggled(state, press.shift, git_root), AnalyzeOutcome::Stay),
            Key::Char('S') => (toggled(state, true, git_root), AnalyzeOutcome::Stay),
            Key::Char('D') => (delete_begun(state, true, git_root), AnalyzeOutcome::Stay),
            Key::Char('d') | Key::Delete | Key::Backspace => (
                delete_begun(state, false, git_root),
                AnalyzeOutcome::Stay,
            ),
            Key::Char('t') => (switched(state), AnalyzeOutcome::Stay),
            Key::Char('/') => (filter_begun(state), AnalyzeOutcome::Stay),
            Key::Char('r') => (refreshed(state), AnalyzeOutcome::Stay),
            Key::Esc | Key::Left | Key::Char('h') => {
                let (back, out) = stepped_back(state);
                (
                    back,
                    if out {
                        AnalyzeOutcome::Leave
                    } else {
                        AnalyzeOutcome::Stay
                    },
                )
            },
            _ => (state, AnalyzeOutcome::Stay),
        }
    }
}

impl AnalyzeState {
    /// Takes a key. `git_root` says whether the row under the cursor holds an entry named
    /// `.git`.
    pub fn handle_key(&mut self, press: KeyPress, git_root: bool) -> (r: AnalyzeOutcome)
        requires
            old(self).well_formed(),
        ensures
            (final(self)@, r) == explored(old(self)@, press, git_root),
            final(self).well_formed(),
    {
        let key = press.key;
        if self.show_help {
            if key == Key::Esc || key == Key::Char('?') || key == Key::Enter {
                self.show_help = false;
            }
            return AnalyzeOutcome::Stay;
        }
        if self.results.is_some() {
            if key == Key::Esc || key == Key::Enter {
                self.results = None;
            }
            return AnalyzeOutcome::Stay;
        }
        if self.confirming_delete {
            if key == Key::Enter {
                return AnalyzeOutcome::Remove;
            }
            if key == Key::Esc || key == Key::Char('q') {
                self.cancel_delete();
            }
            return AnalyzeOutcome::Stay;
        }
        if self.filtering {
            self.handle_filter_key(key);
            return AnalyzeOutcome::Stay;
        }
        match key {
            Key::Char('q') => {
                return AnalyzeOutcome::Quit;
            },
            Key::Char('?') => {
                self.show_help = true;
            },
            Key::Up | Key::Char('k') => {
                self.move_selection(Motion::Up);
            },
            Key::Down | Key::Char('j') => {
                self.move_selection(Motion::Down);
            },
            Key::Enter | Key::Right | Key::Char('l') => {
                self.enter_selected();
            },
            Key::Char(' ') => {
                self.toggle_selection_impl(press.shift, git_root);
            },
            Key::Char('S') => {
                self.toggle_selection_impl(true, git_root);
            },
            Key::Char('D') => {
                self.begin_delete_impl(true, git_root);
            },
            Key::Char('d') | Key::Delete | Key::Backspace => {
                self.begin_delete_impl(false, git_root);
            },
            Key::Char('t') => {
                self.toggle_mode();
            },
            Key::Char('/') => {
                self.begin_filter();
            },
            Key::Char('r') => {
                self.refresh();
            },
            Key::Esc | Key::Left | Key::Char('h') => {
                if self.clear_filter_or_go_back() {
                    return AnalyzeOutcome::Leave;
                }
            },
            _ => {},
        }
        AnalyzeOutcome::Stay
    }
}

// ---------------------------------------------------------------------------------------
// The application
// ---------------------------------------------------------------------------------------

/// The screen that is shown.
#[derive(Debug)]
pub enum Screen {
    Home,
    Analyze(Box<AnalyzeState>),
    Workflow(Box<WorkflowState>),
}

#[derive(Debug)]
pub struct App {
    pub home: String,
    pub screen: Screen,
    /// The row of the menu under the cursor.
    pub menu: usize,
}

pub enum ScreenView {
    Home,
    Analyze(AnalyzeView),
    Workflow(WorkflowView),
}

pub struct AppView {
    pub home: Seq<char>,
    pub screen: ScreenView,
    pub menu: usize,
}

impl View for Screen {
    type V = ScreenView;

    open spec fn view(&self) -> ScreenView {
        match self {
            Screen::Home => ScreenView::Home,
            Screen::Analyze(state) => ScreenView::Analyze((*state)@),
            Screen::Workflow(state) => ScreenView::Workflow((*state)@),
        }
    }
}

impl View for App {
    type V = AppView;

    open spec fn view(&self) -> AppView {
        AppView { home: self.home@, screen: self.screen@, menu: self.menu }
    }
}

/// What a key asks for beyond the change of the application's state.
#[derive(Debug, PartialEq, Eq)]
pub enum UiOutcome {
    Continue,
    Quit,
    /// The removal that was confirmed in the explorer is carried out.
    Remove,
    /// The data of the workflow is loaded.
    Load,
    /// The removal of these applications is previewed.
    Prepare(Vec<Application>),
    /// The request is carried out.
    Execute(WorkflowExecution),
    /// The privilege of root is asked for.
    Authorize,
}

pub enum UiOutcomeView {
    Continue,
    Quit,
    Remove,
    Load,
    Prepare(Seq<ApplicationView>),
    Execute(ExecutionView),
    Authorize,
}

impl View for UiOutcome {
    type V = UiOutcomeView;

    open spec fn view(&self) -> UiOutcomeView {
        match self {
            UiOutcome::Continue => UiOutcomeView::Continue,
            UiOutcome::Quit => UiOutcomeView::Quit,
            UiOutcome::Remove => UiOutcomeView::Remove,
            UiOutcome::Load => UiOutcomeView::Load,
            UiOutcome::Prepare(applications) => UiOutcomeView::Prepare(
                application_views(applications@),
            ),
            UiOutcome::Execute(execution) => UiOutcomeView::Execute(execution@),
            UiOutcome::Authorize => UiOutcomeView::Authorize,
        }
    }
}

/// What has to be known of the system when a key is taken.
#[derive(Debug, Clone, Copy, PartialEq, Eq)]
pub struct KeyFacts {
    /// Whether the row under the cursor of the explorer holds an entry named `.git`.
    pub git_root: bool,
    /// Whether the process has the privilege of root.
    pub effective_root: bool,
}

/// What a key makes of the menu.
pub open spec fn menu_keyed(state: AppView, key: Key) -> (AppView, UiOutcomeView) {
    if key == Key::Up || key == Key::Char('k') {
        (
            AppView {
                menu: if state.menu > 0 {
                    (state.menu - 1) as usize
                } else {
                    0
                },
                ..state
            },
            UiOutcomeView::Continue,
        )
    } else if key == Key::Down || key == Key::Char('j') {
        (
            AppView {
                menu: if state.menu < 6 {
                    (state.menu + 1) as usize
                } else {
                    6
                },
                ..state
            },
            UiOutcomeView::Continue,
        )
    } else if key == Key::Enter {
        let action = menu_actions()[state.menu as int];
        if action == MenuAction::Analyze {
            (
                AppView { screen: ScreenView::Analyze(opened(state.home)), ..state },
                UiOutcomeView::Continue,
            )
        } else {
            (
                AppView { screen: ScreenView::Workflow(started(action)), ..state },
                UiOutcomeView::Load,
            )
        }
    } else if key == Key::Esc || key == Key::Char('q') {
        (state, UiOutcomeView::Quit)
    } else {
        (state, UiOutcomeView::Continue)
    }
}

/// What the outcome of a key means for the application.
pub open spec fn workflow_outcome(
    state: AppView,
    workflow: WorkflowView,
    outcome: OutcomeView,
) -> (AppView, UiOutcomeView) {
    let stays = AppView { screen: ScreenView::Workflow(workflow), ..state };
    match outcome {
        OutcomeView::Stay => (stays, UiOutcomeView::Continue),
        OutcomeView::Leave => (
            AppView { screen: ScreenView::Home, ..state },
            UiOutcomeView::Continue,
        ),
        OutcomeView::Load => (stays, UiOutcomeView::Load),
        OutcomeView::Prepare(applications) => (stays, UiOutcomeView::Prepare(applications)),
        OutcomeView::Execute(execution) => (stays, UiOutcomeView::Execute(execution)),
        OutcomeView::Authorize => (stays, UiOutcomeView::Authorize),
    }
}

/// What a key makes of the application.
pub open spec fn app_keyed(state: AppView, press: KeyPress, facts: KeyFacts) -> (
    AppView,
    UiOutcomeView,
) {
    match state.screen {
        ScreenView::Home => menu_keyed(state, press.key),
        ScreenView::Analyze(analyze) => {
            let (now, outcome) = explored(analyze, press, facts.git_root);
            let stays = AppView { screen: ScreenView::Analyze(now), ..state };
            match outcome {
                AnalyzeOutcome::Stay => (stays, UiOutcomeView::Continue),
                AnalyzeOutcome::Leave => (
                    AppView { screen: ScreenView::Home, ..state },
                    UiOutcomeView::Continue,
                ),
                AnalyzeOutcome::Quit => (stays, UiOutcomeView::Quit),
                AnalyzeOutcome::Remove => (stays, UiOutcomeView::Remove),
            }
        },
        ScreenView::Workflow(workflow) => {
            let (now, outcome) = keyed(workflow, press.key, facts.effective_root);
            workflow_outcome(state, now, outcome)
        },
    }
}

/// The next of the four frames of a spinner.
pub open spec fn next_frame(spinner: usize) -> usize {
    if spinner >= 3 {
        0
    } else {
        (spinner + 1) as usize
    }
}

/// A moment passes: spinners turn, and the explorer is brought up to date where that is due.
pub open spec fn ticked(state: AppView, due: bool) -> AppView {
    match state.screen {
        ScreenView::Home => state,
        ScreenView::Analyze(analyze) => {
            let now = polled(analyze, due);
            AppView {
                screen: ScreenView::Analyze(
                    AnalyzeView { spinner: next_frame(now.spinner), ..now },
                ),
                ..state
            }
        },
        ScreenView::Workflow(workflow) => AppView {
            screen: ScreenView::Workflow(
                WorkflowView { spinner: next_frame(workflow.spinner), ..workflow },
            ),
            ..state
        },
    }
}

fn frame_after(spinner: usize) -> (r: usize)
    ensures
        r == next_frame(spinner),
{
    if spinner >= 3 {
        0
    } else {
        spinner + 1
    }
}

impl App {
    pub open spec fn well_formed(self) -> bool {
        &&& self.menu < 7
        &&& match self.screen {
            Screen::Home => true,
            Screen::Analyze(state) => (*state).well_formed(),
            Screen::Workflow(state) => (*state).well_formed(),
        }
    }

    pub fn new(home: String) -> (r: Self)
        ensures
            r@ == (AppView { home: home@, screen: ScreenView::Home, menu: 0 }),
            r.well_formed(),
    {
        App { home, screen: Screen::Home, menu: 0 }
    }

    /// Lets a moment pass.
    pub fn tick(&mut self, due: bool)
        requires
            old(self).well_formed(),
        ensures
            final(self)@ == ticked(old(self)@, due),
            final(self).well_formed(),
    {
        match &mut self.screen {
            Screen::Home => {},
            Screen::Analyze(state) => {
                state.poll(due);
                state.spinner = frame_after(state.spinner);
            },
            Screen::Workflow(state) => {
                state.spinner = frame_after(state.spinner);
            },
        }
    }

    fn handle_menu_key(&mut self, key: Key) -> (r: UiOutcome)
        requires
            old(self).well_formed(),
            old(self).screen is Home,
        ensures
            (final(self)@, r@) == menu_keyed(old(self)@, key),
            final(self).well_formed(),
    {
        if key == Key::Up || key == Key::Char('k') {
            self.menu = if self.menu > 0 {
                self.menu - 1
            } else {
                0
            };
        } else if key == Key::Down || key == Key::Char('j') {
            self.menu = if self.menu < 6 {
                self.menu + 1
            } else {
                6
            };
        } else if key == Key::Enter {
            let action = action_at(self.menu);
            if action == MenuAction::Analyze {
                let state = AnalyzeState::new(self.home.clone());
                self.screen = Screen::Analyze(Box::new(state));
            } else {
                self.screen = Screen::Workflow(Box::new(WorkflowState::new(action)));
                return UiOutcome::Load;
            }
        } else if key == Key::Esc || key == Key::Char('q') {
            return UiOutcome::Quit;
        }
        UiOutcome::Continue
    }

    /// Takes a key.
    pub fn handle_key(&mut self, press: KeyPress, facts: KeyFacts) -> (r: UiOutcome)
        requires
            old(self).well_formed(),
        ensures
            (final(self)@, r@) == app_keyed(old(self)@, press, facts),
            final(self).well_formed(),
    {
        let mut leave = false;
        let outcome = match &mut self.screen {
            Screen::Home => {
                return self.handle_menu_key(press.key);
            },
            Screen::Analyze(state) => match state.handle_key(press, facts.git_root) {
                AnalyzeOutcome::Stay => UiOutcome::Continue,
                AnalyzeOutcome::Leave => {
                    leave = true;
                    UiOutcome::Continue
                },
                AnalyzeOutcome::Quit => UiOutcome::Quit,
                AnalyzeOutcome::Remove => UiOutcome::Remove,
            },
            Screen::Workflow(state) => match state.handle_key(press.key, facts.effective_root) {
                WorkflowOutcome::Stay => UiOutcome::Continue,
                WorkflowOutcome::Leave => {
                    leave = true;
                    UiOutcome::Continue
                },
                WorkflowOutcome::Load => UiOutcome::Load,
                WorkflowOutcome::Prepare(applications) => UiOutcome::Prepare(applications),
                WorkflowOutcome::Execute(execution) => UiOutcome::Execute(execution),
                WorkflowOutcome::Authorize => UiOutcome::Authorize,
            },
        };
        if leave {
            self.screen = Screen::Home;
        }
        outcome
    }

    /// Goes on after the privilege of root was asked for. Outside a workflow nothing happens.
    pub fn finish_authorization(&mut self, granted: Result<(), String>) -> (r: UiOutcome)
        requires
            old(self).well_formed(),
        ensures
            match old(self)@.screen {
                ScreenView::Workflow(workflow) => {
                    let (now, outcome) = authorized(
                        workflow,
                        match granted {
                            Ok(()) => Ok(()),
                            Err(error) => Err(error@),
                        },
                    );
                    (final(self)@, r@) == workflow_outcome(old(self)@, now, outcome)
                },
                _ => final(self)@ == old(self)@ && r@ == UiOutcomeView::Continue,
            },
            final(self).well_formed(),
    {
        match &mut self.screen {
            Screen::Workflow(state) => match state.finish_authorization(granted) {
                WorkflowOutcome::Execute(execution) => UiOutcome::Execute(execution),
                _ => UiOutcome::Continue,
            },
            _ => UiOutcome::Continue,
        }
    }
}

// ---------------------------------------------------------------------------------------
// Laws
// ---------------------------------------------------------------------------------------

/// Nothing is removed from the explorer unless the question was shown: a removal starts only
/// there, by Enter.
pub proof fn removal_needs_the_question(state: AnalyzeView, press: KeyPress, git_root: bool)
    requires
        explored(state, press, git_root).1 == AnalyzeOutcome::Remove,
    ensures
        state.confirming_delete,
        press.key == Key::Enter,
{
}

/// The question comes up only with something to remove.
pub proof fn question_names_something(state: AnalyzeView, press: KeyPress, git_root: bool)
    requires
        !state.confirming_delete,
        explored(state, press, git_root).0.confirming_delete,
    ensures
        explored(state, press, git_root).0.pending_delete.len() > 0,
{
}

/// Esc always leads back: from the first directory without filter or overlay, to the menu.
pub proof fn escape_leads_home(state: AnalyzeView, git_root: bool)
    requires
        !state.show_help,
        state.results is None,
        !state.confirming_delete,
        !state.filtering,
        state.filter.len() == 0,
        state.mode == AnalyzeMode::Browse,
        state.locations.len() <= 1,
    ensures
        explored(state, (KeyPress { key: Key::Esc, shift: false }), git_root) == (
            state,
            AnalyzeOutcome::Leave,
        ),
{
}

/// Enter opens what the cursor of the menu is on, and nothing else: the explorer, or the workflow
/// of that very action, whose data is then loaded.
pub proof fn menu_opens_its_action(state: AppView)
    requires
        state.menu < 7,
    ensures
        ({
            let action = menu_actions()[state.menu as int];
            let (after, outcome) = menu_keyed(state, Key::Enter);
            if action is Analyze {
                after.screen matches ScreenView::Analyze(analyze) && active(analyze).path
                    == state.home && outcome is Continue
            } else {
                after.screen matches ScreenView::Workflow(workflow) && workflow.action == action
                    && workflow.loading && outcome is Load
            }
        }),
        menu_keyed(state, Key::Up).0.menu == if state.menu > 0 {
            state.menu - 1
        } else {
            0
        },
        menu_keyed(state, Key::Down).0.menu == if state.menu < 6 {
            state.menu + 1
        } else {
            6
        },
{
}

/// While the question is shown, Enter removes and Escape does not; nothing else does either.
pub proof fn question_is_answered(state: AnalyzeView, press: KeyPress, git_root: bool)
    requires
        state.confirming_delete,
        !state.show_help,
        state.results is None,
    ensures
        explored(state, press, git_root).1 is Remove <==> press.key == Key::Enter,
        press.key == Key::Esc || press.key == Key::Char('q') ==> {
            let after = explored(state, press, git_root).0;
            !after.confirming_delete && after.pending_delete.len() == 0 && after.selected_files
                == state.selected_files
        },
        press.key == Key::Enter ==> explored(state, press, git_root).0.pending_delete
            == state.pending_delete,
{
}

/// Force is asked for by a shifted key alone: a plain space selects and a plain `d` removes without
/// it.
pub proof fn force_takes_a_shifted_key(state: AnalyzeView, git_root: bool)
    requires
        !state.confirming_delete && !state.show_help && state.results is None && !state.filtering,
    ensures
        explored(state, (KeyPress { key: Key::Char(' '), shift: false }), git_root).0 == toggled(
            state,
            false,
            git_root,
        ),
        explored(state, (KeyPress { key: Key::Char(' '), shift: true }), git_root).0 == toggled(
            state,
            true,
            git_root,
        ),
        explored(state, (KeyPress { key: Key::Char('d'), shift: false }), git_root).0
            == delete_begun(state, false, git_root),
        explored(state, (KeyPress { key: Key::Char('D'), shift: true }), git_root).0
            == delete_begun(state, true, git_root),
        explored(state, (KeyPress { key: Key::Char('S'), shift: true }), git_root).0 == toggled(
            state,
            true,
            git_root,
        ),
{
}

/// Letters stand for the arrows: `k` and `j` move as Up and Down do, `l` opens as Enter and Right
/// do, and `h` goes back as Escape and Left do. Moving leads to the neighbouring row.
pub proof fn letters_stand_for_arrows(state: AnalyzeView, shift: bool, git_root: bool)
    requires
        !state.confirming_delete && !state.show_help && state.results is None && !state.filtering,
    ensures
        explored(state, (KeyPress { key: Key::Char('k'), shift }), git_root) == explored(
            state,
            (KeyPress { key: Key::Up, shift }),
            git_root,
        ),
        explored(state, (KeyPress { key: Key::Char('j'), shift }), git_root) == explored(
            state,
            (KeyPress { key: Key::Down, shift }),
            git_root,
        ),
        explored(state, (KeyPress { key: Key::Char('l'), shift }), git_root) == explored(
            state,
            (KeyPress { key: Key::Enter, shift }),
            git_root,
        ),
        explored(state, (KeyPress { key: Key::Right, shift }), git_root) == explored(
            state,
            (KeyPress { key: Key::Enter, shift }),
            git_root,
        ),
        explored(state, (KeyPress { key: Key::Char('h'), shift }), git_root) == explored(
            state,
            (KeyPress { key: Key::Esc, shift }),
            git_root,
        ),
        explored(state, (KeyPress { key: Key::Left, shift }), git_root) == explored(
            state,
            (KeyPress { key: Key::Esc, shift }),
            git_root,
        ),
        explored(state, (KeyPress { key: Key::Down, shift }), git_root).0.cursor == stepped(
            state.cursor,
            Motion::Down,
            rows(state).len(),
        ),
        explored(state, (KeyPress { key: Key::Up, shift }), git_root).0.cursor == stepped(
            state.cursor,
            Motion::Up,
            rows(state).len(),
        ),
        explored(state, (KeyPress { key: Key::Char('q'), shift }), git_root).1 is Quit,
{
}

} // verus!
