//! A workflow: something is loaded, chosen, confirmed and carried out.
use vstd::prelude::*;
use vstd::string::*;

use crate::analyze::saturating;
use crate::history::HistoryRecord;
use crate::model::{item_views, CleanupItem, ScanReport};
use crate::number::{count_text, decimal};
use crate::purge::PurgeCandidate;
use crate::size::{format_bytes, size_text};
use crate::status::SystemStatus;
use crate::text::{copy_texts, kept};
use crate::tui::execution::{
    execution_needs_root, ExecutionView, WorkflowExecution, WorkflowResult,
};
use crate::tui::keys::{step, stepped, Key, Motion};
use crate::tui::menu::{action_title, title_of, MenuAction};
use crate::uninstall::{
    application_views, optional_text, preview_views, Application, ApplicationReport,
    ApplicationView, PreviewView, UninstallPreview,
};
use crate::update::UpdateInfo;

verus! {

/// What a workflow works on.
#[derive(Debug, PartialEq, Eq)]
pub enum WorkflowData {
    Clean(ScanReport),
    Uninstall(ApplicationReport),
    Purge(Vec<PurgeCandidate>),
    Status(SystemStatus),
    History(Vec<HistoryRecord>),
    Update(UpdateInfo),
}

/// The state of a workflow.
#[derive(Debug)]
pub struct WorkflowState {
    pub action: MenuAction,
    pub data: Option<WorkflowData>,
    pub loading: bool,
    pub preparing: bool,
    pub executing: bool,
    /// A request that waits for the privilege of root.
    pub pending_execution: Option<WorkflowExecution>,
    /// The row under the cursor.
    pub cursor: Option<usize>,
    /// The rows that are selected, in their order.
    pub selected: Vec<usize>,
    pub previews: Vec<UninstallPreview>,
    pub confirming: bool,
    pub result: Option<WorkflowResult>,
    pub error: Option<String>,
    pub status: String,
    pub spinner: usize,
}

pub struct WorkflowView {
    pub action: MenuAction,
    pub data: Option<WorkflowData>,
    pub loading: bool,
    pub preparing: bool,
    pub executing: bool,
    pub pending_execution: Option<ExecutionView>,
    pub cursor: Option<usize>,
    pub selected: Seq<usize>,
    pub previews: Seq<PreviewView>,
    pub confirming: bool,
    pub result: Option<WorkflowResult>,
    pub error: Option<Seq<char>>,
    pub status: Seq<char>,
    pub spinner: usize,
}

pub open spec fn optional_execution(execution: Option<WorkflowExecution>) -> Option<ExecutionView> {
    match execution {
        Some(execution) => Some(execution@),
        None => None,
    }
}

impl View for WorkflowState {
    type V = WorkflowView;

    open spec fn view(&self) -> WorkflowView {
        WorkflowView {
            action: self.action,
            data: self.data,
            loading: self.loading,
            preparing: self.preparing,
            executing: self.executing,
            pending_execution: optional_execution(self.pending_execution),
            cursor: self.cursor,
            selected: self.selected@,
            previews: preview_views(self.previews@),
            confirming: self.confirming,
            result: self.result,
            error: optional_text(self.error),
            status: self.status@,
            spinner: self.spinner,
        }
    }
}

/// What happened to the work in the background.
#[derive(Debug, PartialEq, Eq)]
pub enum WorkflowEvent {
    Loaded(Result<WorkflowData, String>),
    LoadLost,
    Prepared(Result<Vec<UninstallPreview>, String>),
    PrepareLost,
    Executed(Result<WorkflowResult, String>),
    ExecuteLost,
}

/// What a key asks for beyond the change of the state.
#[derive(Debug, PartialEq, Eq)]
pub enum WorkflowOutcome {
    Stay,
    /// Back to the menu.
    Leave,
    /// The data is loaded again.
    Load,
    /// The removal of these applications is previewed.
    Prepare(Vec<Application>),
    /// The request is carried out.
    Execute(WorkflowExecution),
    /// The privilege of root is asked for.
    Authorize,
}

pub enum OutcomeView {
    Stay,
    Leave,
    Load,
    Prepare(Seq<ApplicationView>),
    Execute(ExecutionView),
    Authorize,
}

impl View for WorkflowOutcome {
    type V = OutcomeView;

    open spec fn view(&self) -> OutcomeView {
        match self {
            WorkflowOutcome::Stay => OutcomeView::Stay,
            WorkflowOutcome::Leave => OutcomeView::Leave,
            WorkflowOutcome::Load => OutcomeView::Load,
            WorkflowOutcome::Prepare(applications) => OutcomeView::Prepare(
                application_views(applications@),
            ),
            WorkflowOutcome::Execute(execution) => OutcomeView::Execute(execution@),
            WorkflowOutcome::Authorize => OutcomeView::Authorize,
        }
    }
}

// ---------------------------------------------------------------------------------------
// Data
// ---------------------------------------------------------------------------------------

/// How many disks a status shows.
pub open spec fn shown_disks(status: SystemStatus) -> nat {
    if status.disks@.len() < status.disk_percents@.len() {
        status.disks@.len()
    } else {
        status.disk_percents@.len()
    }
}

/// How many rows the data has.
pub open spec fn row_count(data: WorkflowData) -> nat {
    match data {
        WorkflowData::Clean(report) => report.items@.len(),
        WorkflowData::Uninstall(report) => report.applications@.len(),
        WorkflowData::Purge(candidates) => candidates@.len(),
        WorkflowData::Status(status) => 6 + shown_disks(status),
        WorkflowData::History(records) => records@.len(),
        WorkflowData::Update(_) => 4,
    }
}

/// The data has fewer rows than there are numbers for them.
pub open spec fn data_fits(data: WorkflowData) -> bool {
    row_count(data) <= usize::MAX
}

/// How many rows the data has.
pub fn workflow_len(data: &WorkflowData) -> (r: usize)
    requires
        data_fits(*data),
    ensures
        r == row_count(*data),
{
    match data {
        WorkflowData::Clean(report) => report.items.len(),
        WorkflowData::Uninstall(report) => report.applications.len(),
        WorkflowData::Purge(candidates) => candidates.len(),
        WorkflowData::Status(status) => {
            let disks: usize = if status.disks.len() < status.disk_percents.len() {
                status.disks.len()
            } else {
                status.disk_percents.len()
            };
            6 + disks
        },
        WorkflowData::History(records) => records.len(),
        WorkflowData::Update(_) => 4,
    }
}

pub open spec fn selectable_data(data: Option<WorkflowData>) -> bool {
    match data {
        Some(WorkflowData::Clean(_)) => true,
        Some(WorkflowData::Uninstall(_)) => true,
        Some(WorkflowData::Purge(_)) => true,
        _ => false,
    }
}

/// Whether rows can be selected.
pub fn workflow_is_selectable(data: &Option<WorkflowData>) -> (r: bool)
    ensures
        r == selectable_data(*data),
{
    match data {
        Some(WorkflowData::Clean(_)) => true,
        Some(WorkflowData::Uninstall(_)) => true,
        Some(WorkflowData::Purge(_)) => true,
        _ => false,
    }
}

pub open spec fn actionable_data(data: Option<WorkflowData>) -> bool {
    selectable_data(data) || match data {
        Some(WorkflowData::Update(info)) => info.update_available,
        _ => false,
    }
}

/// Whether there is anything to carry out.
pub fn workflow_is_actionable(data: &Option<WorkflowData>) -> (r: bool)
    ensures
        r == actionable_data(*data),
{
    workflow_is_selectable(data) || (match data {
        Some(WorkflowData::Update(info)) => info.update_available,
        _ => false,
    })
}

/// The bytes of one row.
pub open spec fn row_bytes(data: WorkflowData, index: int) -> u64 {
    match data {
        WorkflowData::Clean(report) => if index < report.items@.len() {
            report.items@[index].estimated_bytes
        } else {
            0
        },
        WorkflowData::Uninstall(report) => if index < report.applications@.len() {
            report.applications@[index].installed_bytes
        } else {
            0
        },
        WorkflowData::Purge(candidates) => if index < candidates@.len() {
            candidates@[index].size
        } else {
            0
        },
        _ => 0,
    }
}

/// The bytes of the rows that are selected.
pub open spec fn selected_bytes(data: Option<WorkflowData>, selected: Seq<usize>) -> nat
    decreases selected.len(),
{
    match data {
        None => 0,
        Some(own) => if selected.len() == 0 {
            0
        } else {
            selected_bytes(data, selected.drop_last()) + row_bytes(
                own,
                selected.last() as int,
            ) as nat
        },
    }
}

fn bytes_of_row(data: &WorkflowData, index: usize) -> (r: u64)
    ensures
        r == row_bytes(*data, index as int),
{
    match data {
        WorkflowData::Clean(report) => {
            if index < report.items.len() {
                report.items[index].estimated_bytes
            } else {
                0
            }
        },
        WorkflowData::Uninstall(report) => {
            if index < report.applications.len() {
                report.applications[index].installed_bytes
            } else {
                0
            }
        },
        WorkflowData::Purge(candidates) => {
            if index < candidates.len() {
                candidates[index].size
            } else {
                0
            }
        },
        _ => 0,
    }
}

/// The bytes of the rows that are selected, as far as 64 bits reach.
pub fn selected_workflow_bytes(data: &Option<WorkflowData>, selected: &Vec<usize>) -> (r: u64)
    ensures
        r == saturating(selected_bytes(*data, selected@) as int),
{
    match data {
        None => 0,
        Some(own) => {
            let mut total: u64 = 0;
            let mut i: usize = 0;
            while i < selected.len()
                invariant
                    i <= selected@.len(),
                    *data == Some(*own),
                    total == saturating(selected_bytes(*data, selected@.take(i as int)) as int),
                decreases selected.len() - i,
            {
                let bytes: u64 = bytes_of_row(own, selected[i]);
                proof {
                    assert(selected@.take(i + 1).drop_last() =~= selected@.take(i as int));
                }
                total = if bytes > u64::MAX - total {
                    u64::MAX
                } else {
                    total + bytes
                };
                i = i + 1;
            }
            proof {
                assert(selected@.take(selected@.len() as int) =~= selected@);
            }
            total
        },
    }
}

pub open spec fn candidate_bytes(candidates: Seq<PurgeCandidate>) -> nat
    decreases candidates.len(),
{
    if candidates.len() == 0 {
        0
    } else {
        candidate_bytes(candidates.drop_last()) + candidates.last().size as nat
    }
}

fn add_candidates(candidates: &Vec<PurgeCandidate>) -> (r: u64)
    ensures
        r == saturating(candidate_bytes(candidates@) as int),
{
    let mut total: u64 = 0;
    let mut i: usize = 0;
    while i < candidates.len()
        invariant
            i <= candidates@.len(),
            total == saturating(candidate_bytes(candidates@.take(i as int)) as int),
        decreases candidates.len() - i,
    {
        let bytes: u64 = candidates[i].size;
        proof {
            assert(candidates@.take(i + 1).drop_last() =~= candidates@.take(i as int));
        }
        total = if bytes > u64::MAX - total {
            u64::MAX
        } else {
            total + bytes
        };
        i = i + 1;
    }
    proof {
        assert(candidates@.take(candidates@.len() as int) =~= candidates@);
    }
    total
}

/// What is said when the data is there.
pub open spec fn ready_text(data: WorkflowData) -> Seq<char> {
    match data {
        WorkflowData::Clean(report) => decimal(report.items@.len()) + " candidates · "@ + size_text(
            report.estimated_total_bytes as nat,
        ) + " estimated"@,
        WorkflowData::Uninstall(report) => decimal(report.applications@.len())
            + " installed applications"@,
        WorkflowData::Purge(candidates) => decimal(candidates@.len()) + " old artifacts · "@
            + size_text(saturating(candidate_bytes(candidates@) as int) as nat),
        WorkflowData::Status(_) => "Read-only system snapshot"@,
        WorkflowData::History(records) => decimal(records@.len()) + " recent operations"@,
        WorkflowData::Update(info) => if info.update_available {
            "Version "@ + info.available_version@ + " is available"@
        } else {
            "TuxCleaner is up to date"@
        },
    }
}

pub fn workflow_ready_status(data: &WorkflowData) -> (r: String)
    ensures
        r@ == ready_text(*data),
{
    match data {
        WorkflowData::Clean(report) => {
            count_text(report.items.len()).concat(" candidates · ").concat(
                format_bytes(report.estimated_total_bytes).as_str(),
            ).concat(" estimated")
        },
        WorkflowData::Uninstall(report) => {
            count_text(report.applications.len()).concat(" installed applications")
        },
        WorkflowData::Purge(candidates) => {
            count_text(candidates.len()).concat(" old artifacts · ").concat(
                format_bytes(add_candidates(candidates)).as_str(),
            )
        },
        WorkflowData::Status(_) => "Read-only system snapshot".to_owned(),
        WorkflowData::History(records) => {
            count_text(records.len()).concat(" recent operations")
        },
        WorkflowData::Update(info) => {
            if info.update_available {
                "Version ".to_owned().concat(info.available_version.as_str()).concat(
                    " is available",
                )
            } else {
                "TuxCleaner is up to date".to_owned()
            }
        },
    }
}

// ---------------------------------------------------------------------------------------
// Selection
// ---------------------------------------------------------------------------------------

pub open spec fn ascending(list: Seq<usize>) -> bool {
    forall|i: int, j: int| 0 <= i < j < list.len() ==> #[trigger] list[i] < #[trigger] list[j]
}

/// How many leading numbers are smaller, from the `i`-th on.
pub open spec fn smaller_from(list: Seq<usize>, index: usize, i: int) -> int
    decreases list.len() - i,
{
    if i < 0 || i >= list.len() || list[i] >= index {
        i
    } else {
        smaller_from(list, index, i + 1)
    }
}

/// The list with `index` in its place, or without it where it was in.
pub open spec fn toggled_index(list: Seq<usize>, index: usize) -> Seq<usize> {
    let at = smaller_from(list, index, 0);
    if at < list.len() && list[at] == index {
        list.remove(at)
    } else {
        list.insert(at, index)
    }
}

fn toggle_index(list: &mut Vec<usize>, index: usize)
    requires
        ascending(old(list)@),
    ensures
        final(list)@ == toggled_index(old(list)@, index),
        ascending(final(list)@),
{
    let ghost before = list@;
    let mut at: usize = 0;
    while at < list.len() && list[at] < index
        invariant
            at <= list@.len(),
            list@ == before,
            smaller_from(before, index, 0) == smaller_from(before, index, at as int),
            forall|j: int| 0 <= j < at ==> before[j] < index,
        decreases list.len() - at,
    {
        at = at + 1;
    }
    if at < list.len() && list[at] == index {
        let _ = list.remove(at);
    } else {
        list.insert(at, index);
    }
}

/// The members of a list at some positions, as far as there are such positions.
pub open spec fn picked<T>(list: Seq<T>, selected: Seq<usize>) -> Seq<T> {
    kept(
        selected,
        |index: usize|
            if index < list.len() {
                Some(list[index as int])
            } else {
                None
            },
    )
}

fn pick_items(items: &Vec<CleanupItem>, selected: &Vec<usize>) -> (r: Vec<CleanupItem>)
    ensures
        item_views(r@) == picked(item_views(items@), selected@),
{
    let ghost views = item_views(items@);
    let ghost keep = |index: usize|
        if index < views.len() {
            Some(views[index as int])
        } else {
            None
        };
    let mut out: Vec<CleanupItem> = Vec::new();
    let mut i: usize = 0;
    while i < selected.len()
        invariant
            i <= selected@.len(),
            views == item_views(items@),
            keep == (|index: usize|
                if index < views.len() {
                    Some(views[index as int])
                } else {
                    None
                }),
            item_views(out@) =~= kept(selected@.take(i as int), keep),
        decreases selected.len() - i,
    {
        let index: usize = selected[i];
        proof {
            assert(selected@.take(i + 1).drop_last() =~= selected@.take(i as int));
            assert(views.len() == items@.len());
        }
        if index < items.len() {
            let ghost before = out@;
            let item = items[index].clone();
            out.push(item);
            proof {
                assert(views[index as int] == items@[index as int]@);
                assert(item_views(out@) =~= item_views(before).push(item@));
            }
        }
        i = i + 1;
    }
    proof {
        assert(selected@.take(selected@.len() as int) =~= selected@);
    }
    out
}

fn pick_applications(applications: &Vec<Application>, selected: &Vec<usize>) -> (r: Vec<
    Application,
>)
    ensures
        application_views(r@) == picked(application_views(applications@), selected@),
{
    let ghost views = application_views(applications@);
    let ghost keep = |index: usize|
        if index < views.len() {
            Some(views[index as int])
        } else {
            None
        };
    let mut out: Vec<Application> = Vec::new();
    let mut i: usize = 0;
    while i < selected.len()
        invariant
            i <= selected@.len(),
            views == application_views(applications@),
            keep == (|index: usize|
                if index < views.len() {
                    Some(views[index as int])
                } else {
                    None
                }),
            application_views(out@) =~= kept(selected@.take(i as int), keep),
        decreases selected.len() - i,
    {
        let index: usize = selected[i];
        proof {
            assert(selected@.take(i + 1).drop_last() =~= selected@.take(i as int));
            assert(views.len() == applications@.len());
        }
        if index < applications.len() {
            let ghost before = out@;
            let application = applications[index].clone();
            out.push(application);
            proof {
                assert(views[index as int] == applications@[index as int]@);
                assert(application_views(out@) =~= application_views(before).push(application@));
            }
        }
        i = i + 1;
    }
    proof {
        assert(selected@.take(selected@.len() as int) =~= selected@);
    }
    out
}

fn pick_candidates(candidates: &Vec<PurgeCandidate>, selected: &Vec<usize>) -> (r: Vec<
    PurgeCandidate,
>)
    ensures
        r@ == picked(candidates@, selected@),
{
    let ghost keep = |index: usize|
        if index < candidates@.len() {
            Some(candidates@[index as int])
        } else {
            None
        };
    let mut out: Vec<PurgeCandidate> = Vec::new();
    let mut i: usize = 0;
    while i < selected.len()
        invariant
            i <= selected@.len(),
            keep == (|index: usize|
                if index < candidates@.len() {
                    Some(candidates@[index as int])
                } else {
                    None
                }),
            out@ =~= kept(selected@.take(i as int), keep),
        decreases selected.len() - i,
    {
        let index: usize = selected[i];
        proof {
            assert(selected@.take(i + 1).drop_last() =~= selected@.take(i as int));
        }
        if index < candidates.len() {
            out.push(candidates[index].clone());
        }
        i = i + 1;
    }
    proof {
        assert(selected@.take(selected@.len() as int) =~= selected@);
    }
    out
}

fn copy_previews(previews: &Vec<UninstallPreview>) -> (r: Vec<UninstallPreview>)
    ensures
        preview_views(r@) == preview_views(previews@),
{
    let ghost all = preview_views(previews@);
    let mut out: Vec<UninstallPreview> = Vec::new();
    let mut i: usize = 0;
    while i < previews.len()
        invariant
            i <= previews@.len(),
            all == preview_views(previews@),
            preview_views(out@) =~= all.take(i as int),
        decreases previews.len() - i,
    {
        let preview = &previews[i];
        let copy = UninstallPreview {
            application_id: preview.application_id.clone(),
            command: preview.command.clone(),
            removals: copy_texts(&preview.removals),
            raw: preview.raw.clone(),
            preserves_user_data: preview.preserves_user_data,
        };
        let ghost before = out@;
        out.push(copy);
        proof {
            assert(preview_views(out@) =~= preview_views(before).push(copy@));
            assert(all.take(i + 1) =~= all.take(i as int).push(all[i as int]));
        }
        i = i + 1;
    }
    proof {
        assert(all.take(previews@.len() as int) =~= all);
    }
    out
}

// ---------------------------------------------------------------------------------------
// Transitions
// ---------------------------------------------------------------------------------------

pub open spec fn loading_text(action: MenuAction) -> Seq<char> {
    "Loading "@ + title_of(action) + "..."@
}

/// A workflow as it opens: its data is being loaded.
pub open spec fn started(action: MenuAction) -> WorkflowView {
    WorkflowView {
        action,
        data: None,
        loading: true,
        preparing: false,
        executing: false,
        pending_execution: None,
        cursor: None,
        selected: seq![],
        previews: seq![],
        confirming: false,
        result: None,
        error: None,
        status: loading_text(action),
        spinner: 0,
    }
}

/// What an event makes of a workflow. An event that nothing waits for changes nothing.
pub open spec fn informed(state: WorkflowView, event: WorkflowEvent) -> WorkflowView {
    match event {
        WorkflowEvent::Loaded(result) => if !state.loading {
            state
        } else {
            match result {
                Ok(data) => WorkflowView {
                    data: Some(data),
                    loading: false,
                    cursor: if row_count(data) > 0 {
                        Some(0)
                    } else {
                        None
                    },
                    status: if row_count(data) == 0 {
                        "No matching items found"@
                    } else {
                        ready_text(data)
                    },
                    ..state
                },
                Err(error) => WorkflowView {
                    error: Some(error@),
                    loading: false,
                    status: "Loading failed"@,
                    ..state
                },
            }
        },
        WorkflowEvent::LoadLost => if !state.loading {
            state
        } else {
            WorkflowView {
                error: Some("background task stopped unexpectedly"@),
                loading: false,
                ..state
            }
        },
        WorkflowEvent::Prepared(result) => if !state.preparing {
            state
        } else {
            match result {
                Ok(previews) => WorkflowView {
                    previews: preview_views(previews@),
                    preparing: false,
                    confirming: true,
                    status: "Removal plan ready for review"@,
                    ..state
                },
                Err(error) => WorkflowView { error: Some(error@), preparing: false, ..state },
            }
        },
        WorkflowEvent::PrepareLost => if !state.preparing {
            state
        } else {
            WorkflowView {
                error: Some("preview task stopped unexpectedly"@),
                preparing: false,
                ..state
            }
        },
        WorkflowEvent::Executed(result) => if !state.executing {
            state
        } else {
            match result {
                Ok(result) => WorkflowView {
                    result: Some(result),
                    executing: false,
                    confirming: false,
                    selected: seq![],
                    status: "Operation completed"@,
                    ..state
                },
                Err(error) => WorkflowView {
                    error: Some(error@),
                    executing: false,
                    confirming: false,
                    ..state
                },
            }
        },
        WorkflowEvent::ExecuteLost => if !state.executing {
            state
        } else {
            WorkflowView {
                error: Some("operation stopped unexpectedly"@),
                executing: false,
                confirming: false,
                ..state
            }
        },
    }
}

/// The request that the selection stands for.
pub open spec fn request_of(state: WorkflowView) -> Option<ExecutionView> {
    match state.data {
        Some(WorkflowData::Clean(report)) => Some(
            ExecutionView::Clean {
                distribution: report.distribution@,
                items: picked(item_views(report.items@), state.selected),
            },
        ),
        Some(WorkflowData::Uninstall(report)) => Some(
            ExecutionView::Uninstall {
                distribution: report.distribution@,
                applications: picked(application_views(report.applications@), state.selected),
                previews: state.previews,
            },
        ),
        Some(WorkflowData::Purge(candidates)) => Some(
            ExecutionView::Purge { candidates: picked(candidates@, state.selected) },
        ),
        Some(WorkflowData::Update(_)) => Some(ExecutionView::Update),
        _ => None,
    }
}

/// A request starts to run.
pub open spec fn running(state: WorkflowView) -> WorkflowView {
    WorkflowView {
        status: "Running "@ + title_of(state.action) + "..."@,
        executing: true,
        ..state
    }
}

/// The confirmed request runs, or waits for the privilege of root.
pub open spec fn executed(state: WorkflowView, effective_root: bool) -> (WorkflowView, OutcomeView) {
    match request_of(state) {
        None => (state, OutcomeView::Stay),
        Some(request) => {
            let confirmed = WorkflowView { confirming: false, ..state };
            if execution_needs_root(request) && !effective_root {
                (
                    WorkflowView {
                        status: "Waiting for administrator authorization..."@,
                        pending_execution: Some(request),
                        ..confirmed
                    },
                    OutcomeView::Authorize,
                )
            } else {
                (running(confirmed), OutcomeView::Execute(request))
            }
        },
    }
}

/// The selection is to be confirmed; an uninstall is previewed first.
pub open spec fn confirmation_begun(state: WorkflowView) -> (WorkflowView, OutcomeView) {
    match state.data {
        Some(WorkflowData::Update(_)) => (
            WorkflowView { confirming: true, ..state },
            OutcomeView::Stay,
        ),
        _ => if state.selected.len() == 0 {
            (
                WorkflowView { status: "Select at least one item with Space"@, ..state },
                OutcomeView::Stay,
            )
        } else {
            match state.data {
                Some(WorkflowData::Uninstall(report)) => (
                    WorkflowView {
                        status: "Preparing package-manager removal plan..."@,
                        preparing: true,
                        ..state
                    },
                    OutcomeView::Prepare(
                        picked(application_views(report.applications@), state.selected),
                    ),
                ),
                _ => (WorkflowView { confirming: true, ..state }, OutcomeView::Stay),
            }
        },
    }
}

/// The row under the cursor is selected, or no longer selected.
pub open spec fn row_toggled(state: WorkflowView) -> WorkflowView {
    match state.cursor {
        None => state,
        Some(index) => {
            let selected = toggled_index(state.selected, index);
            WorkflowView {
                selected,
                status: if selected.len() == 0 {
                    ready_text(state.data->Some_0)
                } else {
                    decimal(selected.len()) + " selected · "@ + size_text(
                        saturating(selected_bytes(state.data, selected) as int) as nat,
                    )
                },
                ..state
            }
        },
    }
}

/// The cursor is moved by one row.
pub open spec fn row_moved(state: WorkflowView, motion: Motion) -> WorkflowView {
    WorkflowView {
        cursor: stepped(
            state.cursor,
            motion,
            match state.data {
                Some(data) => row_count(data),
                None => 0,
            },
        ),
        ..state
    }
}

/// The data is loaded again.
pub open spec fn reloaded(state: WorkflowView) -> WorkflowView {
    WorkflowView {
        data: None,
        selected: seq![],
        cursor: None,
        loading: true,
        status: loading_text(state.action),
        ..state
    }
}

/// What a key makes of a workflow. While a request runs, no key leads out.
pub open spec fn keyed(state: WorkflowView, key: Key, effective_root: bool) -> (
    WorkflowView,
    OutcomeView,
) {
    if state.error is Some {
        if key == Key::Esc || key == Key::Enter {
            (
                WorkflowView { error: None, ..state },
                if state.data is None {
                    OutcomeView::Leave
                } else {
                    OutcomeView::Stay
                },
            )
        } else {
            (state, OutcomeView::Stay)
        }
    } else if state.result is Some {
        (
            state,
            if key == Key::Esc || key == Key::Enter {
                OutcomeView::Leave
            } else {
                OutcomeView::Stay
            },
        )
    } else if state.executing {
        (
            WorkflowView {
                status: "Operation in progress; wait for the result before going back"@,
                ..state
            },
            OutcomeView::Stay,
        )
    } else if state.loading || state.preparing {
        (
            state,
            if key == Key::Esc {
                OutcomeView::Leave
            } else {
                OutcomeView::Stay
            },
        )
    } else if state.confirming {
        if key == Key::Enter {
            executed(state, effective_root)
        } else if key == Key::Esc || key == Key::Char('q') {
            (
                WorkflowView {
                    confirming: false,
                    previews: seq![],
                    status: "Operation cancelled"@,
                    ..state
                },
                OutcomeView::Stay,
            )
        } else {
            (state, OutcomeView::Stay)
        }
    } else if key == Key::Esc || key == Key::Left || key == Key::Char('h') || key == Key::Char(
        'q',
    ) {
        (state, OutcomeView::Leave)
    } else if key == Key::Up || key == Key::Char('k') {
        (row_moved(state, Motion::Up), OutcomeView::Stay)
    } else if key == Key::Down || key == Key::Char('j') {
        (row_moved(state, Motion::Down), OutcomeView::Stay)
    } else if key == Key::Char(' ') && selectable_data(state.data) {
        (row_toggled(state), OutcomeView::Stay)
    } else if key == Key::Enter && actionable_data(state.data) {
        confirmation_begun(state)
    } else if key == Key::Char('r') {
        (reloaded(state), OutcomeView::Load)
    } else {
        (state, OutcomeView::Stay)
    }
}

/// The privilege of root was granted or refused.
pub open spec fn authorized(state: WorkflowView, granted: Result<(), Seq<char>>) -> (
    WorkflowView,
    OutcomeView,
) {
    match granted {
        Ok(()) => match state.pending_execution {
            Some(request) => (
                running(WorkflowView { pending_execution: None, ..state }),
                OutcomeView::Execute(request),
            ),
            None => (
                WorkflowView {
                    error: Some("the privileged operation was not prepared"@),
                    ..state
                },
                OutcomeView::Stay,
            ),
        },
        Err(error) => (
            WorkflowView {
                pending_execution: None,
                error: Some(error),
                status: "Administrator authorization failed"@,
                ..state
            },
            OutcomeView::Stay,
        ),
    }
}

impl WorkflowState {
    pub open spec fn well_formed(self) -> bool {
        &&& ascending(self.selected@)
        &&& self.data matches Some(data) ==> data_fits(data)
    }

    pub fn new(action: MenuAction) -> (r: Self)
        ensures
            r@ == started(action),
            r.well_formed(),
    {
        let r = WorkflowState {
            action,
            data: None,
            loading: true,
            preparing: false,
            executing: false,
            pending_execution: None,
            cursor: None,
            selected: Vec::new(),
            previews: Vec::new(),
            confirming: false,
            result: None,
            error: None,
            status: "Loading ".to_owned().concat(action_title(action)).concat("..."),
            spinner: 0,
        };
        proof {
            assert(preview_views(r.previews@) =~= seq![]);
        }
        r
    }

    /// Takes in what happened in the background.
    pub fn poll(&mut self, event: WorkflowEvent)
        requires
            old(self).well_formed(),
            event matches WorkflowEvent::Loaded(Ok(data)) ==> data_fits(data),
        ensures
            final(self)@ == informed(old(self)@, event),
            final(self).well_formed(),
    {
        match event {
            WorkflowEvent::Loaded(result) => {
                if self.loading {
                    self.loading = false;
                    match result {
                        Ok(data) => {
                            let length: usize = workflow_len(&data);
                            self.cursor = if length > 0 {
                                Some(0)
                            } else {
                                None
                            };
                            self.status = if length == 0 {
                                "No matching items found".to_owned()
                            } else {
                                workflow_ready_status(&data)
                            };
                            self.data = Some(data);
                        },
                        Err(error) => {
                            self.error = Some(error);
                            self.status = "Loading failed".to_owned();
                        },
                    }
                }
            },
            WorkflowEvent::LoadLost => {
                if self.loading {
                    self.loading = false;
                    self.error = Some("background task stopped unexpectedly".to_owned());
                }
            },
            WorkflowEvent::Prepared(result) => {
                if self.preparing {
                    self.preparing = false;
                    match result {
                        Ok(previews) => {
                            self.previews = previews;
                            self.confirming = true;
                            self.status = "Removal plan ready for review".to_owned();
                        },
                        Err(error) => {
                            self.error = Some(error);
                        },
                    }
                }
            },
            WorkflowEvent::PrepareLost => {
                if self.preparing {
                    self.preparing = false;
                    self.error = Some("preview task stopped unexpectedly".to_owned());
                }
            },
            WorkflowEvent::Executed(result) => {
                if self.executing {
                    self.executing = false;
                    self.confirming = false;
                    match result {
                        Ok(result) => {
                            self.result = Some(result);
                            self.selected = Vec::new();
                            self.status = "Operation completed".to_owned();
                        },
                        Err(error) => {
                            self.error = Some(error);
                        },
                    }
                }
            },
            WorkflowEvent::ExecuteLost => {
                if self.executing {
                    self.executing = false;
                    self.confirming = false;
                    self.error = Some("operation stopped unexpectedly".to_owned());
                }
            },
        }
        proof {
            assert(self@.selected =~= informed(old(self)@, event).selected);
        }
    }

    pub fn move_selection(&mut self, motion: Motion)
        requires
            old(self).well_formed(),
        ensures
            final(self)@ == row_moved(old(self)@, motion),
            final(self).well_formed(),
    {
        let length: usize = match &self.data {
            Some(data) => workflow_len(data),
            None => 0,
        };
        self.cursor = step(self.cursor, motion, length);
    }

    pub fn toggle_selection(&mut self)
        requires
            old(self).well_formed(),
            old(self).data is Some,
        ensures
            final(self)@ == row_toggled(old(self)@),
            final(self).well_formed(),
    {
        let index: usize = match self.cursor {
            None => {
                return;
            },
            Some(index) => index,
        };
        toggle_index(&mut self.selected, index);
        let total: u64 = selected_workflow_bytes(&self.data, &self.selected);
        if self.selected.len() == 0 {
            match &self.data {
                Some(data) => {
                    self.status = workflow_ready_status(data);
                },
                None => {},
            }
        } else {
            self.status = count_text(self.selected.len()).concat(" selected · ").concat(
                format_bytes(total).as_str(),
            );
        }
    }

    /// Asks for a confirmation of the selection.
    pub fn begin_confirmation(&mut self) -> (r: WorkflowOutcome)
        requires
            old(self).well_formed(),
        ensures
            (final(self)@, r@) == confirmation_begun(old(self)@),
            final(self).well_formed(),
    {
        match &self.data {
            Some(WorkflowData::Update(_)) => {
                self.confirming = true;
                return WorkflowOutcome::Stay;
            },
            _ => {},
        }
        if self.selected.len() == 0 {
            self.status = "Select at least one item with Space".to_owned();
            return WorkflowOutcome::Stay;
        }
        match &self.data {
            Some(WorkflowData::Uninstall(report)) => {
                let applications = pick_applications(&report.applications, &self.selected);
                self.status = "Preparing package-manager removal plan...".to_owned();
                self.preparing = true;
                WorkflowOutcome::Prepare(applications)
            },
            _ => {
                self.confirming = true;
                WorkflowOutcome::Stay
            },
        }
    }

    /// The request that the selection stands for.
    fn request(&self) -> (r: Option<WorkflowExecution>)
        ensures
            optional_execution(r) == request_of(self@),
    {
        match &self.data {
            Some(WorkflowData::Clean(report)) => Some(
                WorkflowExecution::Clean {
                    distribution: report.distribution.clone(),
                    items: pick_items(&report.items, &self.selected),
                },
            ),
            Some(WorkflowData::Uninstall(report)) => Some(
                WorkflowExecution::Uninstall {
                    distribution: report.distribution.clone(),
                    applications: pick_applications(&report.applications, &self.selected),
                    previews: copy_previews(&self.previews),
                },
            ),
            Some(WorkflowData::Purge(candidates)) => Some(
                WorkflowExecution::Purge {
                    candidates: pick_candidates(candidates, &self.selected),
                },
            ),
            Some(WorkflowData::Update(_)) => Some(WorkflowExecution::Update),
            _ => None,
        }
    }

    fn start_execution(&mut self)
        requires
            old(self).well_formed(),
        ensures
            final(self)@ == running(old(self)@),
            final(self).well_formed(),
    {
        self.status = "Running ".to_owned().concat(action_title(self.action)).concat("...");
        self.executing = true;
    }

    /// Carries the confirmed request out, or asks for the privilege of root first.
    pub fn execute(&mut self, effective_root: bool) -> (r: WorkflowOutcome)
        requires
            old(self).well_formed(),
        ensures
            (final(self)@, r@) == executed(old(self)@, effective_root),
            final(self).well_formed(),
    {
        match self.request() {
            None => WorkflowOutcome::Stay,
            Some(request) => {
                self.confirming = false;
                if request.needs_privilege() && !effective_root {
                    self.status = "Waiting for administrator authorization...".to_owned();
                    self.pending_execution = Some(request);
                    WorkflowOutcome::Authorize
                } else {
                    self.start_execution();
                    WorkflowOutcome::Execute(request)
                }
            },
        }
    }

    /// Takes a key.
    pub fn handle_key(&mut self, key: Key, effective_root: bool) -> (r: WorkflowOutcome)
        requires
            old(self).well_formed(),
        ensures
            (final(self)@, r@) == keyed(old(self)@, key, effective_root),
            final(self).well_formed(),
    {
        if self.error.is_some() {
            if key == Key::Esc || key == Key::Enter {
                self.error = None;
                if self.data.is_none() {
                    return WorkflowOutcome::Leave;
                }
            }
            return WorkflowOutcome::Stay;
        }
        if self.result.is_some() {
            if key == Key::Esc || key == Key::Enter {
                return WorkflowOutcome::Leave;
            }
            return WorkflowOutcome::Stay;
        }
        if self.executing {
            self.status = "Operation in progress; wait for the result before going back".to_owned();
            return WorkflowOutcome::Stay;
        }
        if self.loading || self.preparing {
            if key == Key::Esc {
                return WorkflowOutcome::Leave;
            }
            return WorkflowOutcome::Stay;
        }
        if self.confirming {
            if key == Key::Enter {
                return self.execute(effective_root);
            }
            if key == Key::Esc || key == Key::Char('q') {
                self.confirming = false;
                self.previews = Vec::new();
                self.status = "Operation cancelled".to_owned();
                proof {
                    assert(preview_views(self.previews@) =~= seq![]);
                }
            }
            return WorkflowOutcome::Stay;
        }
        if key == Key::Esc || key == Key::Left || key == Key::Char('h') || key == Key::Char('q') {
            return WorkflowOutcome::Leave;
        }
        if key == Key::Up || key == Key::Char('k') {
            self.move_selection(Motion::Up);
            return WorkflowOutcome::Stay;
        }
        if key == Key::Down || key == Key::Char('j') {
            self.move_selection(Motion::Down);
            return WorkflowOutcome::Stay;
        }
        if key == Key::Char(' ') && workflow_is_selectable(&self.data) {
            self.toggle_selection();
            return WorkflowOutcome::Stay;
        }
        if key == Key::Enter && workflow_is_actionable(&self.data) {
            return self.begin_confirmation();
        }
        if key == Key::Char('r') {
            self.data = None;
            self.selected = Vec::new();
            self.cursor = None;
            self.loading = true;
            self.status = "Loading ".to_owned().concat(action_title(self.action)).concat("...");
            proof {
                assert(self.selected@ =~= seq![]);
            }
            return WorkflowOutcome::Load;
        }
        WorkflowOutcome::Stay
    }

    /// Goes on after the privilege of root was asked for.
    pub fn finish_authorization(&mut self, granted: Result<(), String>) -> (r: WorkflowOutcome)
        requires
            old(self).well_formed(),
        ensures
            (final(self)@, r@) == authorized(
                old(self)@,
                match granted {
                    Ok(()) => Ok(()),
                    Err(error) => Err(error@),
                },
            ),
            final(self).well_formed(),
    {
        match granted {
            Ok(()) => match self.pending_execution.take() {
                Some(request) => {
                    self.start_execution();
                    WorkflowOutcome::Execute(request)
                },
                None => {
                    self.error = Some("the privileged operation was not prepared".to_owned());
                    WorkflowOutcome::Stay
                },
            },
            Err(error) => {
                self.pending_execution = None;
                self.error = Some(error);
                self.status = "Administrator authorization failed".to_owned();
                WorkflowOutcome::Stay
            },
        }
    }
}

// ---------------------------------------------------------------------------------------
// Laws
// ---------------------------------------------------------------------------------------

/// While a request runs, no key leads out of the workflow or starts anything.
pub proof fn running_work_is_not_left(state: WorkflowView, key: Key, effective_root: bool)
    requires
        state.executing,
        state.error is None,
        state.result is None,
    ensures
        keyed(state, key, effective_root).1 == OutcomeView::Stay,
        keyed(state, key, effective_root).0.executing,
{
}

/// Nothing is carried out that was not confirmed: a request starts only from the question, by
/// Enter.
pub proof fn execution_needs_confirmation(state: WorkflowView, key: Key, effective_root: bool)
    requires
        keyed(state, key, effective_root).1 is Execute || keyed(
            state,
            key,
            effective_root,
        ).1 is Authorize,
    ensures
        state.confirming,
        key == Key::Enter,
        request_of(state) is Some,
{
}

/// A request that needs the privilege of root does not start without it: it waits until the
/// privilege was granted.
pub proof fn privilege_is_asked_first(state: WorkflowView, key: Key, request: ExecutionView)
    requires
        keyed(state, key, false).1 == OutcomeView::Execute(request),
    ensures
        !execution_needs_root(request),
{
}

/// A refused authorization starts nothing and forgets the request.
pub proof fn refused_authorization_starts_nothing(state: WorkflowView, error: Seq<char>)
    ensures
        authorized(state, Err(error)).1 == OutcomeView::Stay,
        authorized(state, Err(error)).0.pending_execution is None,
        authorized(state, Err(error)).0.executing == state.executing,
{
}

/// Selecting a row twice changes nothing.
pub proof fn toggling_twice_is_undone(list: Seq<usize>, index: usize)
    requires
        ascending(list),
    ensures
        toggled_index(toggled_index(list, index), index) == list,
{
    lemma_smaller(list, index, 0);
    let at = smaller_from(list, index, 0);
    let once = toggled_index(list, index);
    if at < list.len() && list[at] == index {
        assert forall|j: int| 0 <= j < at implies once[j] < index by {
            assert(once[j] == list[j]);
        }
        if at < once.len() {
            assert(once[at] == list[at + 1]);
            assert(list[at] < list[at + 1]);
        }
        lemma_smaller_is(once, index, 0, at);
        assert(once.insert(at, index) =~= list);
    } else {
        assert forall|j: int| 0 <= j < at implies once[j] < index by {
            assert(once[j] == list[j]);
        }
        lemma_smaller_is(once, index, 0, at);
        assert(once.remove(at) =~= list);
    }
}

proof fn lemma_smaller(list: Seq<usize>, index: usize, from: int)
    requires
        0 <= from <= list.len(),
    ensures
        from <= smaller_from(list, index, from) <= list.len(),
        forall|j: int| from <= j < smaller_from(list, index, from) ==> list[j] < index,
        smaller_from(list, index, from) < list.len() ==> list[smaller_from(list, index, from)]
            >= index,
    decreases list.len() - from,
{
    if from < list.len() && list[from] < index {
        lemma_smaller(list, index, from + 1);
    }
}

proof fn lemma_smaller_is(list: Seq<usize>, index: usize, from: int, at: int)
    requires
        0 <= from <= at <= list.len(),
        forall|j: int| from <= j < at ==> list[j] < index,
        at < list.len() ==> list[at] >= index,
    ensures
        smaller_from(list, index, from) == at,
    decreases at - from,
{
    if from < at {
        lemma_smaller_is(list, index, from + 1, at);
    }
}

/// What is picked are the members at the positions that are selected, each once and in order.
pub proof fn picking_takes_what_is_selected<T>(list: Seq<T>, selected: Seq<usize>)
    requires
        forall|k: int| 0 <= k < selected.len() ==> (#[trigger] selected[k]) < list.len(),
    ensures
        picked(list, selected).len() == selected.len(),
        forall|k: int|
            0 <= k < selected.len() ==> picked(list, selected)[k] == list[(
            #[trigger] selected[k]) as int],
    decreases selected.len(),
{
    if selected.len() > 0 {
        let before = selected.drop_last();
        assert forall|k: int| 0 <= k < before.len() implies (#[trigger] before[k]) < list.len() by {
            assert(before[k] == selected[k]);
        }
        picking_takes_what_is_selected(list, before);
        assert(selected[selected.len() - 1] < list.len());
        assert forall|k: int| 0 <= k < selected.len() implies picked(list, selected)[k] == list[(
        #[trigger] selected[k]) as int] by {
            if k < before.len() {
                assert(before[k] == selected[k]);
            }
        }
    }
}

/// A row that is selected or no longer selected changes itself and no other.
pub proof fn toggling_changes_one_row(list: Seq<usize>, index: usize, other: usize)
    requires
        ascending(list),
    ensures
        toggled_index(list, index).contains(index) <==> !list.contains(index),
        other != index ==> (toggled_index(list, index).contains(other) <==> list.contains(other)),
        ascending(toggled_index(list, index)),
{
    lemma_smaller(list, index, 0);
    let at = smaller_from(list, index, 0);
    let now = toggled_index(list, index);
    if at < list.len() && list[at] == index {
        assert(list.contains(index));
        assert forall|i: int, j: int| 0 <= i < j < now.len() implies #[trigger] now[i]
            < #[trigger] now[j] by {
            let a = if i < at { i } else { i + 1 };
            let b = if j < at { j } else { j + 1 };
            assert(now[i] == list[a] && now[j] == list[b]);
        }
        if now.contains(index) {
            let k = choose|k: int| 0 <= k < now.len() && now[k] == index;
            let a = if k < at { k } else { k + 1 };
            assert(now[k] == list[a]);
            if a < at {
                assert(list[a] < list[at]);
            } else {
                assert(list[at] < list[a]);
            }
        }
        if other != index && list.contains(other) {
            let k = choose|k: int| 0 <= k < list.len() && list[k] == other;
            let a = if k < at { k } else { k - 1 };
            assert(now[a] == other);
        }
        if now.contains(other) {
            let k = choose|k: int| 0 <= k < now.len() && now[k] == other;
            let a = if k < at { k } else { k + 1 };
            assert(list[a] == other);
        }
    } else {
        assert(now[at] == index);
        if list.contains(index) {
            let k = choose|k: int| 0 <= k < list.len() && list[k] == index;
            if k >= at && k > at {
                assert(list[at] < list[k]);
            }
        }
        assert forall|i: int, j: int| 0 <= i < j < now.len() implies #[trigger] now[i]
            < #[trigger] now[j] by {
            let a = if i < at { i } else { i - 1 };
            let b = if j < at { j } else { j - 1 };
            if i != at && j != at {
                assert(now[i] == list[a] && now[j] == list[b]);
            } else if i == at {
                assert(now[j] == list[b]);
                if b > at {
                    assert(list[at] < list[b]);
                }
            } else {
                assert(now[i] == list[i]);
            }
        }
        if other != index && list.contains(other) {
            let k = choose|k: int| 0 <= k < list.len() && list[k] == other;
            let a = if k < at { k } else { k + 1 };
            assert(now[a] == other);
        }
        if other != index && now.contains(other) {
            let k = choose|k: int| 0 <= k < now.len() && now[k] == other;
            let a = if k < at { k } else { k - 1 };
            assert(list[a] == other);
        }
    }
}

/// The bytes that are selected are those of each row that is selected, together.
pub proof fn selected_rows_add_up(data: WorkflowData, selected: Seq<usize>, index: usize)
    ensures
        selected_bytes(Some(data), Seq::empty()) == 0,
        selected_bytes(Some(data), selected.push(index)) == selected_bytes(Some(data), selected)
            + row_bytes(data, index as int),
        match data {
            WorkflowData::Clean(report) => index < report.items@.len() ==> row_bytes(
                data,
                index as int,
            ) == report.items@[index as int].estimated_bytes,
            WorkflowData::Uninstall(report) => index < report.applications@.len() ==> row_bytes(
                data,
                index as int,
            ) == report.applications@[index as int].installed_bytes,
            WorkflowData::Purge(candidates) => index < candidates@.len() ==> row_bytes(
                data,
                index as int,
            ) == candidates@[index as int].size,
            _ => row_bytes(data, index as int) == 0,
        },
{
    assert(selected.push(index).drop_last() =~= selected);
}

/// The question is open: nothing else takes the key.
pub open spec fn question_is_open(state: WorkflowView) -> bool {
    state.confirming && state.error is None && state.result is None && !state.executing
        && !state.loading && !state.preparing
}

/// What was selected is carried out once it is confirmed: exactly the rows that are selected, and
/// in an uninstall with the plan that was shown. Where privilege is missing, the same request waits
/// for it and goes on when it is granted.
pub proof fn confirmed_selection_is_carried_out(state: WorkflowView, effective_root: bool)
    requires
        question_is_open(state),
        state.data is Some,
        forall|k: int|
            0 <= k < state.selected.len() ==> (#[trigger] state.selected[k]) < row_count(
                state.data->Some_0,
            ),
    ensures
        ({
            let (after, outcome) = keyed(state, Key::Enter, effective_root);
            let request = match outcome {
                OutcomeView::Execute(request) => Some(request),
                _ => after.pending_execution,
            };
            match state.data->Some_0 {
                WorkflowData::Clean(report) => request matches Some(ExecutionView::Clean {
                    distribution,
                    items,
                }) && items.len() == state.selected.len() && forall|k: int|
                    0 <= k < items.len() ==> items[k] == report.items@[(
                    #[trigger] state.selected[k]) as int]@,
                WorkflowData::Uninstall(report) => request matches Some(ExecutionView::Uninstall {
                    distribution,
                    applications,
                    previews,
                }) && previews == state.previews && applications.len() == state.selected.len()
                    && forall|k: int|
                    0 <= k < applications.len() ==> applications[k] == report.applications@[(
                    #[trigger] state.selected[k]) as int]@,
                WorkflowData::Purge(list) => request matches Some(ExecutionView::Purge {
                    candidates,
                }) && candidates.len() == state.selected.len() && forall|k: int|
                    0 <= k < candidates.len() ==> candidates[k] == list@[(
                    #[trigger] state.selected[k]) as int],
                WorkflowData::Update(_) => outcome == OutcomeView::Execute(ExecutionView::Update),
                _ => outcome is Stay,
            }
        }),
        keyed(state, Key::Enter, effective_root).1 is Authorize ==> {
            let waiting = keyed(state, Key::Enter, effective_root).0;
            &&& !effective_root
            &&& request_of(state) matches Some(request) && execution_needs_root(request)
                && authorized(waiting, Ok(())).1 == OutcomeView::Execute(request)
        },
{
    match state.data->Some_0 {
        WorkflowData::Clean(report) => {
            picking_takes_what_is_selected(item_views(report.items@), state.selected);
        },
        WorkflowData::Uninstall(report) => {
            picking_takes_what_is_selected(application_views(report.applications@), state.selected);
        },
        WorkflowData::Purge(list) => {
            picking_takes_what_is_selected(list@, state.selected);
        },
        _ => {},
    }
}

/// An uninstall is previewed before it is asked about: the applications that are selected, all of
/// them, and the previews that come back are what the question shows.
pub proof fn uninstall_is_previewed_first(
    state: WorkflowView,
    effective_root: bool,
    previews: Vec<UninstallPreview>,
)
    requires
        !state.confirming && state.error is None && state.result is None && !state.executing
            && !state.loading && !state.preparing,
        state.data matches Some(WorkflowData::Uninstall(_)),
        state.selected.len() > 0,
    ensures
        ({
            let (after, outcome) = keyed(state, Key::Enter, effective_root);
            let ready = informed(after, WorkflowEvent::Prepared(Ok(previews)));
            &&& outcome matches OutcomeView::Prepare(applications) && applications == picked(
                application_views(state.data->Some_0->Uninstall_0.applications@),
                state.selected,
            )
            &&& !after.confirming && after.preparing
            &&& ready.confirming && ready.previews == preview_views(previews@)
            &&& ready.selected == state.selected && ready.data == state.data
        }),
{
}

/// What was loaded is shown, from its first row; what failed is said. What nothing waits for
/// changes nothing.
pub proof fn loaded_data_is_shown(state: WorkflowView, data: WorkflowData, error: String)
    ensures
        state.loading ==> {
            let shown = informed(state, WorkflowEvent::Loaded(Ok(data)));
            let failed = informed(state, WorkflowEvent::Loaded(Err(error)));
            &&& shown.data == Some(data) && !shown.loading && shown.error == state.error
            &&& row_count(data) > 0 ==> shown.cursor == Some(0usize)
            &&& failed.error == Some(error@) && !failed.loading && failed.data == state.data
        },
        !state.loading ==> informed(state, WorkflowEvent::Loaded(Ok(data))) == state && informed(
            state,
            WorkflowEvent::Loaded(Err(error)),
        ) == state,
{
}

/// What came of a request is shown, and what was selected is no longer selected; a failure is said.
pub proof fn result_is_shown(state: WorkflowView, result: WorkflowResult, error: String)
    requires
        state.executing,
    ensures
        ({
            let done = informed(state, WorkflowEvent::Executed(Ok(result)));
            let failed = informed(state, WorkflowEvent::Executed(Err(error)));
            &&& done.result == Some(result) && !done.executing && done.selected.len() == 0
            &&& failed.error == Some(error@) && !failed.executing && failed.result == state.result
            &&& informed(state, WorkflowEvent::ExecuteLost).error is Some
        }),
{
}

/// Nothing waits and nothing is asked: keys move, select and leave.
pub open spec fn is_idle(state: WorkflowView) -> bool {
    state.error is None && state.result is None && !state.executing && !state.loading
        && !state.preparing && !state.confirming
}

/// Space selects the row under the cursor, the arrows and their letters move by one row, and
/// Escape leaves; none of them carries anything out.
pub proof fn keys_select_and_move(state: WorkflowView, effective_root: bool, row: usize)
    requires
        is_idle(state),
        selectable_data(state.data),
        state.cursor == Some(row),
    ensures
        keyed(state, Key::Char(' '), effective_root).0.selected == toggled_index(
            state.selected,
            row,
        ),
        keyed(state, Key::Down, effective_root) == keyed(state, Key::Char('j'), effective_root),
        keyed(state, Key::Up, effective_root) == keyed(state, Key::Char('k'), effective_root),
        keyed(state, Key::Down, effective_root).0.cursor == stepped(
            Some(row),
            Motion::Down,
            row_count(state.data->Some_0),
        ),
        keyed(state, Key::Up, effective_root).0.cursor == stepped(
            Some(row),
            Motion::Up,
            row_count(state.data->Some_0),
        ),
        keyed(state, Key::Esc, effective_root).1 is Leave,
        state.selected.len() == 0 ==> keyed(state, Key::Enter, effective_root).1 is Stay && !keyed(
            state,
            Key::Enter,
            effective_root,
        ).0.confirming,
        state.selected.len() > 0 && !(state.data->Some_0 is Uninstall) ==> keyed(
            state,
            Key::Enter,
            effective_root,
        ).0.confirming,
        keyed(state, Key::Char('r'), effective_root).1 is Load,
{
}

} // verus!
