//! The disk explorer: directories, large files, and what is selected for removal.
use vstd::prelude::*;
use vstd::string::*;

use crate::analyze::{
    personal_file_item, saturating, DiskEntry, DiskEntryView, LargeFile, LargeFileView,
};
use crate::model::{
    item_views, result_views, ActionResult, ActionView, CleanupItem, ResultView,
};
use crate::number::{count_text, decimal};
use crate::order::{
    arranged, arranged_is_sorted, is_weak_order, sort_stable, sorted_is_arranged,
    sorting_carries_over, stably_sorted_by, sum_of, Ranked,
};
use crate::path::{lemma_parts_order, parts, path_before, same_path, Part};
use crate::path_map::{
    lemma_viewed_place, lemma_viewed_with, lemma_viewed_without, place_of, placed, places_before,
    taken_out, viewed, PathMap,
};
use crate::size::{format_bytes, size_text};
use crate::text::{chars_of, contains, has_infix, lower, text_of, to_lower};
use crate::tui::keys::{step, stepped, Key, Motion};
use crate::tui::location::{
    drained, entry_view, file_view, has_items, reordered, scanning_location, Location,
    LocationView, ScanUpdate,
};
use crate::tui::selection::{
    personal_file_refusal_message, personal_file_selectability, personal_file_selectability_forced,
    refusal_message, selectability, Candidate, PersonalFileRefusal,
};
use crate::uninstall::optional_text;

verus! {

#[derive(Debug, Clone, Copy, PartialEq, Eq, Structural)]
pub enum AnalyzeMode {
    Browse,
    TopFiles,
}

/// How urgent the message in the status line is.
#[derive(Debug, Clone, Copy, PartialEq, Eq, Structural)]
pub enum StatusSeverity {
    /// Progress and confirmations.
    Info,
    /// Why something did not happen.
    Warning,
    /// A failure.
    Error,
}

/// A path that is to be removed.
#[derive(Debug, Clone, Copy, PartialEq, Eq, Structural)]
pub struct PendingRemoval {
    pub size: u64,
    pub is_dir: bool,
    /// Whether the path was chosen with force.
    pub force: bool,
}

/// The state of the disk explorer.
#[derive(Debug)]
pub struct AnalyzeState {
    pub home: String,
    /// The directories that were entered one after the other; the last is the one shown.
    pub locations: Vec<Location>,
    pub mode: AnalyzeMode,
    /// The row under the cursor.
    pub cursor: Option<usize>,
    pub selected_files: PathMap<PendingRemoval>,
    pub pending_delete: PathMap<PendingRemoval>,
    pub confirming_delete: bool,
    pub results: Option<Vec<ActionResult>>,
    pub status: String,
    pub status_severity: StatusSeverity,
    pub filter: String,
    pub filtering: bool,
    pub show_help: bool,
    pub spinner: usize,
    /// The number of the next scan.
    pub next_scan: u64,
}

pub struct AnalyzeView {
    pub home: Seq<char>,
    pub locations: Seq<LocationView>,
    pub mode: AnalyzeMode,
    pub cursor: Option<usize>,
    pub selected_files: Seq<(Seq<char>, PendingRemoval)>,
    pub pending_delete: Seq<(Seq<char>, PendingRemoval)>,
    pub confirming_delete: bool,
    pub results: Option<Seq<ResultView>>,
    pub status: Seq<char>,
    pub status_severity: StatusSeverity,
    pub filter: Seq<char>,
    pub filtering: bool,
    pub show_help: bool,
    pub spinner: usize,
    pub next_scan: u64,
}

pub open spec fn removal_view() -> spec_fn(PendingRemoval) -> PendingRemoval {
    |removal: PendingRemoval| removal
}

pub open spec fn location_views(locations: Seq<Location>) -> Seq<LocationView> {
    locations.map_values(|location: Location| location@)
}

pub open spec fn optional_results(results: Option<Vec<ActionResult>>) -> Option<Seq<ResultView>> {
    match results {
        Some(results) => Some(result_views(results@)),
        None => None,
    }
}

impl View for AnalyzeState {
    type V = AnalyzeView;

    open spec fn view(&self) -> AnalyzeView {
        AnalyzeView {
            home: self.home@,
            locations: location_views(self.locations@),
            mode: self.mode,
            cursor: self.cursor,
            selected_files: viewed(self.selected_files.entries@, removal_view()),
            pending_delete: viewed(self.pending_delete.entries@, removal_view()),
            confirming_delete: self.confirming_delete,
            results: optional_results(self.results),
            status: self.status@,
            status_severity: self.status_severity,
            filter: self.filter@,
            filtering: self.filtering,
            show_help: self.show_help,
            spinner: self.spinner,
            next_scan: self.next_scan,
        }
    }
}

// ---------------------------------------------------------------------------------------
// Models
// ---------------------------------------------------------------------------------------

/// The directory that is shown.
pub open spec fn active(state: AnalyzeView) -> LocationView {
    state.locations.last()
}

pub open spec fn with_active(state: AnalyzeView, location: LocationView) -> AnalyzeView {
    AnalyzeView {
        locations: state.locations.drop_last().push(location),
        ..state
    }
}

pub open spec fn said(state: AnalyzeView, text: Seq<char>, severity: StatusSeverity) -> AnalyzeView {
    AnalyzeView { status: text, status_severity: severity, ..state }
}

pub open spec fn following(scan: u64) -> u64 {
    if scan == u64::MAX {
        0
    } else {
        (scan + 1) as u64
    }
}

/// The explorer as it opens: the home directory, being scanned.
pub open spec fn opened(home: Seq<char>) -> AnalyzeView {
    AnalyzeView {
        home,
        locations: seq![scanning_location(home, 0)],
        mode: AnalyzeMode::Browse,
        cursor: None,
        selected_files: seq![],
        pending_delete: seq![],
        confirming_delete: false,
        results: None,
        status: "Scanning disk usage..."@,
        status_severity: StatusSeverity::Info,
        filter: ""@,
        filtering: false,
        show_help: false,
        spinner: 0,
        next_scan: 1,
    }
}

/// The entry passes the filter, which is `query` in lower case.
pub open spec fn entry_matches(query: Seq<char>, entry: DiskEntryView) -> bool {
    query.len() == 0 || has_infix(lower(entry.name), query) || has_infix(lower(entry.path), query)
}

pub open spec fn file_matches(query: Seq<char>, file: LargeFileView) -> bool {
    query.len() == 0 || has_infix(lower(file.path), query)
}

/// The entries that are shown.
pub open spec fn shown_entries(state: AnalyzeView) -> Seq<DiskEntryView> {
    active(state).sorted.filter(
        |entry: DiskEntryView| entry_matches(lower(state.filter), entry),
    )
}

/// The order of large files: the larger first, files of one size by path.
pub open spec fn larger_before() -> spec_fn(LargeFileView, LargeFileView) -> bool {
    |a: LargeFileView, b: LargeFileView|
        if a.size != b.size {
            a.size > b.size
        } else {
            path_before(a.path, b.path)
        }
}

/// The large files that are shown.
pub open spec fn shown_files(state: AnalyzeView) -> Seq<LargeFileView> {
    arranged(
        active(state).large_files.filter(
            |file: LargeFileView| file_matches(lower(state.filter), file),
        ),
        larger_before(),
    )
}

/// A row that is shown: an entry or a large file.
pub struct RowView {
    pub path: Seq<char>,
    pub is_dir: bool,
    pub size: u64,
}

pub open spec fn entry_row(entry: DiskEntryView) -> RowView {
    RowView { path: entry.path, is_dir: entry.is_dir, size: entry.size }
}

pub open spec fn file_row(file: LargeFileView) -> RowView {
    RowView { path: file.path, is_dir: false, size: file.size }
}

/// The rows that are shown.
pub open spec fn rows(state: AnalyzeView) -> Seq<RowView> {
    match state.mode {
        AnalyzeMode::Browse => shown_entries(state).map_values(
            |entry: DiskEntryView| entry_row(entry),
        ),
        AnalyzeMode::TopFiles => shown_files(state).map_values(
            |file: LargeFileView| file_row(file),
        ),
    }
}

/// The position of the first row at a path, from the `i`-th on.
pub open spec fn row_place(list: Seq<RowView>, path: Seq<char>, i: int) -> Option<int>
    decreases list.len() - i,
{
    if i < 0 || i >= list.len() {
        None
    } else if parts(list[i].path) == parts(path) {
        Some(i)
    } else {
        row_place(list, path, i + 1)
    }
}

/// The path that the cursor is on, as far as the location remembers it.
pub open spec fn remembered(state: AnalyzeView) -> Option<Seq<char>> {
    match state.mode {
        AnalyzeMode::Browse => active(state).selected,
        AnalyzeMode::TopFiles => active(state).selected_large_file,
    }
}

/// The cursor is put on a row, and its path is remembered where there is such a row.
pub open spec fn put_on(state: AnalyzeView, row: Option<usize>) -> AnalyzeView {
    let moved = AnalyzeView { cursor: row, ..state };
    match row {
        Some(i) => if i < rows(state).len() {
            let path = Some(rows(state)[i as int].path);
            match state.mode {
                AnalyzeMode::Browse => with_active(
                    moved,
                    LocationView { selected: path, ..active(state) },
                ),
                AnalyzeMode::TopFiles => with_active(
                    moved,
                    LocationView { selected_large_file: path, ..active(state) },
                ),
            }
        } else {
            moved
        },
        None => moved,
    }
}

/// The cursor is put on the row of the path that it was on; on the first row where that is
/// gone.
pub open spec fn synced(state: AnalyzeView) -> AnalyzeView {
    let found = match remembered(state) {
        Some(path) => row_place(rows(state), path, 0),
        None => None,
    };
    put_on(
        state,
        match found {
            Some(i) => Some(i as usize),
            None => if rows(state).len() > 0 {
                Some(0usize)
            } else {
                None
            },
        },
    )
}

/// The cursor is put on the first row.
pub open spec fn on_first(state: AnalyzeView) -> AnalyzeView {
    put_on(
        state,
        if rows(state).len() > 0 {
            Some(0usize)
        } else {
            None
        },
    )
}

/// The cursor is moved by one row.
pub open spec fn moved(state: AnalyzeView, motion: Motion) -> AnalyzeView {
    put_on(state, stepped(state.cursor, motion, rows(state).len()))
}

/// What is shown is brought up to date where that is due.
pub open spec fn polled(state: AnalyzeView, due: bool) -> AnalyzeView {
    if active(state).needs_reorder || due {
        synced(with_active(state, reordered(active(state))))
    } else {
        state
    }
}

/// How many of the locations are being scanned.
pub open spec fn live_scans(locations: Seq<LocationView>) -> nat
    decreases locations.len(),
{
    if locations.len() == 0 {
        0
    } else {
        live_scans(locations.drop_first()) + if locations[0].scan is Some {
            1nat
        } else {
            0nat
        }
    }
}

/// At most this many locations are scanned at once.
pub const ANALYZE_LIVE_SCAN_CAP: usize = 3;

/// The locations with the newest scans kept; older scans are given up, what they found stays.
pub open spec fn capped(locations: Seq<LocationView>) -> Seq<LocationView>
    decreases locations.len(),
{
    if locations.len() == 0 {
        Seq::empty()
    } else {
        let first = if live_scans(locations) > ANALYZE_LIVE_SCAN_CAP {
            LocationView { scan: None, ..locations[0] }
        } else {
            locations[0]
        };
        seq![first] + capped(locations.drop_first())
    }
}

/// A directory is entered and scanned.
pub open spec fn pushed(state: AnalyzeView, path: Seq<char>) -> AnalyzeView {
    AnalyzeView {
        locations: capped(state.locations.push(scanning_location(path, state.next_scan))),
        next_scan: following(state.next_scan),
        filter: ""@,
        filtering: false,
        selected_files: seq![],
        cursor: None,
        status: "Scanning disk usage..."@,
        status_severity: StatusSeverity::Info,
        ..state
    }
}

/// The directory under the cursor is entered.
pub open spec fn entered(state: AnalyzeView) -> AnalyzeView {
    if state.mode == AnalyzeMode::TopFiles {
        state
    } else {
        match active(state).selected {
            None => state,
            Some(target) => match place_of(active(state).entries, parts(target), 0) {
                None => state,
                Some(i) => {
                    let entry = active(state).entries[i].1;
                    if entry.is_dir {
                        pushed(state, entry.path)
                    } else {
                        said(
                            state,
                            "Use Space to select the file, then d to remove it"@,
                            StatusSeverity::Warning,
                        )
                    }
                },
            },
        }
    }
}

/// The location shown is scanned again.
pub open spec fn rescanned(state: AnalyzeView) -> AnalyzeView {
    AnalyzeView {
        next_scan: following(state.next_scan),
        cursor: None,
        ..with_active(state, scanning_location(active(state).path, state.next_scan))
    }
}

/// What the explorer does on `r`.
pub open spec fn refreshed(state: AnalyzeView) -> AnalyzeView {
    if active(state).scan is Some {
        said(state, "A scan is already in progress"@, StatusSeverity::Warning)
    } else {
        said(
            rescanned(
                AnalyzeView { filter: ""@, filtering: false, selected_files: seq![], ..state },
            ),
            "Scanning disk usage..."@,
            StatusSeverity::Info,
        )
    }
}

/// The other list is shown, from its first row.
pub open spec fn switched(state: AnalyzeView) -> AnalyzeView {
    if !has_items(active(state)) {
        state
    } else {
        let mode = match state.mode {
            AnalyzeMode::Browse => AnalyzeMode::TopFiles,
            AnalyzeMode::TopFiles => AnalyzeMode::Browse,
        };
        said(
            on_first(
                AnalyzeView {
                    mode,
                    filter: ""@,
                    filtering: false,
                    selected_files: seq![],
                    cursor: None,
                    ..state
                },
            ),
            match mode {
                AnalyzeMode::Browse => "Directory explorer"@,
                AnalyzeMode::TopFiles => "Largest files in this location"@,
            },
            StatusSeverity::Info,
        )
    }
}

/// Typing a filter begins.
pub open spec fn filter_begun(state: AnalyzeView) -> AnalyzeView {
    if has_items(active(state)) {
        said(
            AnalyzeView { filtering: true, selected_files: seq![], ..state },
            "Type to filter, Enter to apply, Esc to clear"@,
            StatusSeverity::Info,
        )
    } else {
        state
    }
}

/// One step back: first the filter goes, then the list of large files, then the directory. The
/// flag says that there is nothing left to go back from.
pub open spec fn stepped_back(state: AnalyzeView) -> (AnalyzeView, bool) {
    if state.filter.len() > 0 {
        (on_first(AnalyzeView { filter: ""@, ..state }), false)
    } else if state.mode == AnalyzeMode::TopFiles {
        (switched(state), false)
    } else if state.locations.len() > 1 {
        let above = AnalyzeView {
            locations: state.locations.drop_last(),
            selected_files: seq![],
            cursor: None,
            ..state
        };
        (
            said(
                synced(with_active(above, reordered(active(above)))),
                "Returned to previous location"@,
                StatusSeverity::Info,
            ),
            false,
        )
    } else {
        (state, true)
    }
}

/// What a key does to the filter while it is typed.
pub open spec fn filter_typed(state: AnalyzeView, key: Key) -> AnalyzeView {
    let typed = match key {
        Key::Esc => AnalyzeView { filter: ""@, filtering: false, ..state },
        Key::Enter => AnalyzeView { filtering: false, ..state },
        Key::Backspace | Key::Delete => AnalyzeView {
            filter: if state.filter.len() > 0 {
                state.filter.drop_last()
            } else {
                state.filter
            },
            ..state
        },
        Key::Char(c) => AnalyzeView { filter: state.filter.push(c), ..state },
        _ => state,
    };
    AnalyzeView { selected_files: seq![], ..on_first(typed) }
}

/// A scan reports to the location that it belongs to.
pub open spec fn fed(
    state: AnalyzeView,
    scan: u64,
    updates: Seq<ScanUpdate>,
    lost: bool,
) -> AnalyzeView {
    AnalyzeView {
        locations: state.locations.map_values(
            |location: LocationView|
                if location.scan == Some(scan) {
                    drained(location, updates, 0, lost)
                } else {
                    location
                },
        ),
        ..state
    }
}

/// Why no row could be chosen.
#[derive(Debug, Clone, Copy, PartialEq, Eq, Structural)]
pub enum FocusRefusal {
    /// There is no row under the cursor.
    NoSelection,
    NotSelectable(PersonalFileRefusal),
}

/// The row under the cursor, where it can be chosen.
pub open spec fn focused(state: AnalyzeView, force: bool, git_root: bool) -> Result<
    (Seq<char>, PendingRemoval),
    FocusRefusal,
> {
    match state.cursor {
        None => Err(FocusRefusal::NoSelection),
        Some(i) => if i >= rows(state).len() {
            Err(FocusRefusal::NoSelection)
        } else {
            let row = rows(state)[i as int];
            match selectability(
                state.home,
                row.path,
                Candidate { is_dir: row.is_dir, git_root, size: row.size },
                force,
            ) {
                Ok(()) => Ok(
                    (row.path, PendingRemoval { size: row.size, is_dir: row.is_dir, force }),
                ),
                Err(refusal) => Err(FocusRefusal::NotSelectable(refusal)),
            }
        },
    }
}

/// The bytes of what is to be removed.
pub open spec fn removal_bytes(removals: Seq<(Seq<char>, PendingRemoval)>) -> nat
    decreases removals.len(),
{
    if removals.len() == 0 {
        0
    } else {
        removal_bytes(removals.drop_last()) + removals.last().1.size as nat
    }
}

/// How much is selected is said.
pub open spec fn selection_said(state: AnalyzeView) -> AnalyzeView {
    if state.selected_files.len() == 0 {
        said(
            state,
            "Scanned "@ + size_text(active(state).total_size as nat),
            StatusSeverity::Info,
        )
    } else {
        said(
            state,
            decimal(state.selected_files.len()) + " selected, "@ + size_text(
                saturating(removal_bytes(state.selected_files) as int) as nat,
            ),
            StatusSeverity::Info,
        )
    }
}

/// The row under the cursor is selected, or no longer selected.
pub open spec fn toggled(state: AnalyzeView, force: bool, git_root: bool) -> AnalyzeView {
    if !has_items(active(state)) {
        said(state, "Selection is available once items appear"@, StatusSeverity::Warning)
    } else {
        match focused(state, force, git_root) {
            Ok((path, removal)) => selection_said(
                AnalyzeView {
                    selected_files: if place_of(state.selected_files, parts(path), 0) is Some {
                        taken_out(state.selected_files, path)
                    } else {
                        placed(state.selected_files, path, removal)
                    },
                    ..state
                },
            ),
            Err(FocusRefusal::NoSelection) => said(
                state,
                "Nothing is selected"@,
                StatusSeverity::Warning,
            ),
            Err(FocusRefusal::NotSelectable(refusal)) => said(
                state,
                refusal_message(refusal),
                StatusSeverity::Warning,
            ),
        }
    }
}

pub open spec fn forced_removals(removals: Seq<(Seq<char>, PendingRemoval)>) -> Seq<
    (Seq<char>, PendingRemoval),
> {
    removals.map_values(
        |entry: (Seq<char>, PendingRemoval)|
            (entry.0, PendingRemoval { force: true, ..entry.1 }),
    )
}

/// What a removal would take: what is selected, or else the row under the cursor. Force covers
/// everything that is selected.
pub open spec fn removal_targets(state: AnalyzeView, force: bool, git_root: bool) -> Seq<
    (Seq<char>, PendingRemoval),
> {
    if state.selected_files.len() == 0 {
        match focused(state, force, git_root) {
            Ok(target) => seq![target],
            Err(_) => seq![],
        }
    } else if force {
        forced_removals(state.selected_files)
    } else {
        state.selected_files
    }
}

/// A removal is asked for; it has to be confirmed.
pub open spec fn delete_begun(state: AnalyzeView, force: bool, git_root: bool) -> AnalyzeView {
    let targets = removal_targets(state, force, git_root);
    let asked = AnalyzeView { pending_delete: targets, ..state };
    if !has_items(active(state)) {
        said(state, "Removal is available once items appear"@, StatusSeverity::Warning)
    } else if targets.len() == 0 {
        said(asked, "Select a personal file first"@, StatusSeverity::Warning)
    } else {
        AnalyzeView { confirming_delete: true, ..asked }
    }
}

pub open spec fn delete_cancelled(state: AnalyzeView) -> AnalyzeView {
    said(
        AnalyzeView { confirming_delete: false, pending_delete: seq![], ..state },
        "Removal cancelled"@,
        StatusSeverity::Info,
    )
}

pub open spec fn failures(results: Seq<ResultView>) -> nat
    decreases results.len(),
{
    if results.len() == 0 {
        0
    } else {
        failures(results.drop_last()) + if results.last().success {
            0nat
        } else {
            1nat
        }
    }
}

/// A removal that was confirmed is done: its results are shown and the location is scanned
/// again.
pub open spec fn delete_finished(state: AnalyzeView, results: Seq<ResultView>) -> AnalyzeView {
    let done = rescanned(
        AnalyzeView {
            confirming_delete: false,
            pending_delete: seq![],
            selected_files: seq![],
            results: Some(results),
            ..state
        },
    );
    if failures(results) > 0 {
        said(
            done,
            decimal(failures(results)) + " removal(s) failed"@,
            StatusSeverity::Error,
        )
    } else {
        said(done, "Scanning disk usage..."@, StatusSeverity::Info)
    }
}

// ---------------------------------------------------------------------------------------
// Rows
// ---------------------------------------------------------------------------------------

/// A row that is shown.
#[derive(Debug, PartialEq, Eq)]
pub struct Row {
    pub path: String,
    pub is_dir: bool,
    pub size: u64,
}

impl View for Row {
    type V = RowView;

    open spec fn view(&self) -> RowView {
        RowView { path: self.path@, is_dir: self.is_dir, size: self.size }
    }
}

pub open spec fn row_views(list: Seq<Row>) -> Seq<RowView> {
    list.map_values(|row: Row| row@)
}

pub proof fn lemma_larger_weak_order()
    ensures
        is_weak_order(larger_before()),
{
    let before = larger_before();
    assert forall|a: LargeFileView, b: LargeFileView|
        !(#[trigger] before(a, b) && before(b, a)) by {
        lemma_parts_order(parts(a.path), parts(b.path), parts(a.path));
    }
    assert forall|a: LargeFileView, b: LargeFileView, c: LargeFileView|
        !(#[trigger] before(b, a)) && !(#[trigger] before(c, b)) implies !before(c, a) by {
        lemma_parts_order(parts(a.path), parts(b.path), parts(c.path));
        lemma_parts_order(parts(b.path), parts(c.path), parts(a.path));
        lemma_parts_order(parts(c.path), parts(a.path), parts(b.path));
    }
}

/// The large files that are shown are those that match the filter, the larger first and files
/// of one size by path.
pub proof fn shown_files_are_sorted(state: AnalyzeView)
    ensures
        stably_sorted_by(
            active(state).large_files.filter(
                |file: LargeFileView| file_matches(lower(state.filter), file),
            ),
            shown_files(state),
            larger_before(),
        ),
{
    lemma_larger_weak_order();
    arranged_is_sorted(
        active(state).large_files.filter(
            |file: LargeFileView| file_matches(lower(state.filter), file),
        ),
        larger_before(),
    );
}

fn find_row(list: &Vec<Row>, path: &str) -> (r: Option<usize>)
    ensures
        match r {
            Some(i) => row_place(row_views(list@), path@, 0) == Some(i as int) && i < list@.len(),
            None => row_place(row_views(list@), path@, 0) is None,
        },
{
    let ghost views = row_views(list@);
    let mut i: usize = 0;
    while i < list.len()
        invariant
            i <= list@.len(),
            views == row_views(list@),
            row_place(views, path@, 0) == row_place(views, path@, i as int),
        decreases list.len() - i,
    {
        proof {
            assert(views[i as int] == list@[i as int]@);
        }
        if same_path(list[i].path.as_str(), path) {
            return Some(i);
        }
        i = i + 1;
    }
    None
}

impl AnalyzeState {
    pub open spec fn well_formed(self) -> bool {
        &&& self.locations@.len() > 0
        &&& forall|i: int|
            0 <= i < self.locations@.len() ==> (#[trigger] self.locations@[i]).well_formed()
        &&& self.selected_files.well_formed()
        &&& self.pending_delete.well_formed()
    }

    pub fn new(home: String) -> (r: Self)
        ensures
            r@ == opened(home@),
            r.well_formed(),
    {
        let mut root = Location::new(home.clone());
        root.start_scan(0);
        let mut locations: Vec<Location> = Vec::new();
        locations.push(root);
        let r = AnalyzeState {
            home,
            locations,
            mode: AnalyzeMode::Browse,
            cursor: None,
            selected_files: PathMap::new(),
            pending_delete: PathMap::new(),
            confirming_delete: false,
            results: None,
            status: "Scanning disk usage...".to_owned(),
            status_severity: StatusSeverity::Info,
            filter: "".to_owned(),
            filtering: false,
            show_help: false,
            spinner: 0,
            next_scan: 1,
        };
        proof {
            assert(location_views(r.locations@) =~= seq![scanning_location(home@, 0)]);
            assert(viewed(r.selected_files.entries@, removal_view()) =~= seq![]);
            assert(viewed(r.pending_delete.entries@, removal_view()) =~= seq![]);
        }
        r
    }

    /// Sets the message in the status line together with its urgency.
    pub fn set_status(&mut self, text: &str, severity: StatusSeverity)
        requires
            old(self).well_formed(),
        ensures
            final(self)@ == said(old(self)@, text@, severity),
            final(self).well_formed(),
    {
        self.status = text.to_owned();
        self.status_severity = severity;
    }

    /// The directory that is shown.
    pub fn active(&self) -> (r: &Location)
        requires
            self.well_formed(),
        ensures
            r@ == active(self@),
            *r == self.locations@.last(),
    {
        let last: usize = self.locations.len() - 1;
        proof {
            assert(location_views(self.locations@).last() == self.locations@[last as int]@);
        }
        &self.locations[last]
    }

    /// The entries that are shown.
    pub fn visible_entries(&self) -> (r: Vec<DiskEntry>)
        requires
            self.well_formed(),
        ensures
            r@.map_values(entry_view()) == shown_entries(self@),
    {
        let query = to_lower(self.filter.as_str());
        let location = self.active();
        let ghost all = location.sorted@.map_values(entry_view());
        let ghost test = |entry: DiskEntryView| entry_matches(lower(self.filter@), entry);
        let mut out: Vec<DiskEntry> = Vec::new();
        let mut i: usize = 0;
        proof {
            reveal(Seq::filter);
            assert(all.take(0).filter(test) =~= Seq::empty());
        }
        while i < location.sorted.len()
            invariant
                i <= location.sorted@.len(),
                query@ == lower(self.filter@),
                all == location.sorted@.map_values(entry_view()),
                test == (|entry: DiskEntryView| entry_matches(lower(self.filter@), entry)),
                out@.map_values(entry_view()) =~= all.take(i as int).filter(test),
            decreases location.sorted.len() - i,
        {
            let entry = &location.sorted[i];
            proof {
                reveal(Seq::filter);
                assert(all.take(i + 1).drop_last() =~= all.take(i as int));
                assert(all.take(i + 1).last() == entry@);
                assert(test(entry@) == entry_matches(lower(self.filter@), entry@));
            }
            if query.as_str().unicode_len() == 0 || contains(
                to_lower(entry.name.as_str()).as_str(),
                query.as_str(),
            ) || contains(to_lower(entry.path.as_str()).as_str(), query.as_str()) {
                let ghost before = out@;
                let copy = entry.clone();
                out.push(copy);
                proof {
                    assert(out@.map_values(entry_view()) =~= before.map_values(entry_view()).push(
                        entry@,
                    ));
                }
            }
            i = i + 1;
        }
        proof {
            assert(all.take(all.len() as int) =~= all);
        }
        out
    }

    /// The large files that are shown.
    pub fn visible_large_files(&self) -> (r: Vec<LargeFile>)
        requires
            self.well_formed(),
        ensures
            r@.map_values(file_view()) == shown_files(self@),
    {
        let query = to_lower(self.filter.as_str());
        let location = self.active();
        let ghost all = location.large_files@.map_values(file_view());
        let ghost test = |file: LargeFileView| file_matches(lower(self.filter@), file);
        let mut out: Vec<LargeFile> = Vec::new();
        let mut i: usize = 0;
        proof {
            reveal(Seq::filter);
            assert(all.take(0).filter(test) =~= Seq::empty());
        }
        while i < location.large_files.len()
            invariant
                i <= location.large_files@.len(),
                query@ == lower(self.filter@),
                all == location.large_files@.map_values(file_view()),
                test == (|file: LargeFileView| file_matches(lower(self.filter@), file)),
                out@.map_values(file_view()) =~= all.take(i as int).filter(test),
            decreases location.large_files.len() - i,
        {
            let file = &location.large_files[i];
            proof {
                reveal(Seq::filter);
                assert(all.take(i + 1).drop_last() =~= all.take(i as int));
                assert(all.take(i + 1).last() == file@);
                assert(test(file@) == file_matches(lower(self.filter@), file@));
            }
            if query.as_str().unicode_len() == 0 || contains(
                to_lower(file.path.as_str()).as_str(),
                query.as_str(),
            ) {
                let ghost before = out@;
                let copy = file.clone();
                out.push(copy);
                proof {
                    assert(out@.map_values(file_view()) =~= before.map_values(file_view()).push(
                        file@,
                    ));
                }
            }
            i = i + 1;
        }
        proof {
            assert(all.take(all.len() as int) =~= all);
        }
        let ghost plain = out@;
        let sorted = sort_stable(out);
        proof {
            assert forall|a: LargeFile, b: LargeFile| #[trigger]
                a.ranks_before(b) == (larger_before())((file_view())(a), (file_view())(b)) by {}
            sorting_carries_over(plain, sorted@, file_view(), larger_before());
            lemma_larger_weak_order();
            sorted_is_arranged(
                plain.map_values(file_view()),
                sorted@.map_values(file_view()),
                larger_before(),
            );
        }
        sorted
    }

    /// The rows that are shown.
    pub fn visible_rows(&self) -> (r: Vec<Row>)
        requires
            self.well_formed(),
        ensures
            row_views(r@) == rows(self@),
    {
        let mut out: Vec<Row> = Vec::new();
        let mut i: usize = 0;
        match self.mode {
            AnalyzeMode::Browse => {
                let entries = self.visible_entries();
                let ghost all = rows(self@);
                proof {
                    assert(all.len() == entries@.len());
                }
                while i < entries.len()
                    invariant
                        i <= entries@.len(),
                        entries@.map_values(entry_view()) == shown_entries(self@),
                        all.len() == entries@.len(),
                        all == shown_entries(self@).map_values(
                            |entry: DiskEntryView| entry_row(entry),
                        ),
                        row_views(out@) =~= all.take(i as int),
                    decreases entries.len() - i,
                {
                    let entry = &entries[i];
                    proof {
                        assert(shown_entries(self@)[i as int] == entry@);
                    }
                    let ghost before = out@;
                    let row = Row { path: entry.path.clone(), is_dir: entry.is_dir, size: entry.size };
                    out.push(row);
                    proof {
                        assert(row_views(out@) =~= row_views(before).push(row@));
                    }
                    i = i + 1;
                }
                proof {
                    assert(all.take(all.len() as int) =~= all);
                }
            },
            AnalyzeMode::TopFiles => {
                let files = self.visible_large_files();
                let ghost all = rows(self@);
                proof {
                    assert(all.len() == files@.len());
                }
                while i < files.len()
                    invariant
                        i <= files@.len(),
                        files@.map_values(file_view()) == shown_files(self@),
                        all.len() == files@.len(),
                        all == shown_files(self@).map_values(
                            |file: LargeFileView| file_row(file),
                        ),
                        row_views(out@) =~= all.take(i as int),
                    decreases files.len() - i,
                {
                    let file = &files[i];
                    proof {
                        assert(shown_files(self@)[i as int] == file@);
                    }
                    let ghost before = out@;
                    let row = Row { path: file.path.clone(), is_dir: false, size: file.size };
                    out.push(row);
                    proof {
                        assert(row_views(out@) =~= row_views(before).push(row@));
                    }
                    i = i + 1;
                }
                proof {
                    assert(all.take(all.len() as int) =~= all);
                }
            },
        }
        out
    }

    /// Puts the cursor on a row and remembers its path.
    fn put_cursor(&mut self, list: &Vec<Row>, row: Option<usize>)
        requires
            old(self).well_formed(),
            row_views(list@) == rows(old(self)@),
        ensures
            final(self)@ == put_on(old(self)@, row),
            final(self).well_formed(),
    {
        let ghost before = self@;
        proof {
            assert(row_views(list@).len() == list@.len());
        }
        self.cursor = row;
        match row {
            Some(i) => {
                if i < list.len() {
                    proof {
                        assert(rows(before)[i as int] == list@[i as int]@);
                    }
                    let path = list[i].path.clone();
                    let last: usize = self.locations.len() - 1;
                    match self.mode {
                        AnalyzeMode::Browse => {
                            self.locations[last].selected = Some(path);
                        },
                        AnalyzeMode::TopFiles => {
                            self.locations[last].selected_large_file = Some(path);
                        },
                    }
                    proof {
                        assert(location_views(self.locations@) =~= put_on(before, row).locations);
                    }
                }
            },
            None => {},
        }
    }

    /// Puts the cursor on the row of the path that it was on.
    pub fn reconcile_list_state(&mut self)
        requires
            old(self).well_formed(),
        ensures
            final(self)@ == synced(old(self)@),
            final(self).well_formed(),
    {
        let list = self.visible_rows();
        proof {
            assert(row_views(list@).len() == list@.len());
        }
        let location = self.active();
        let found = match self.mode {
            AnalyzeMode::Browse => match &location.selected {
                Some(path) => find_row(&list, path.as_str()),
                None => None,
            },
            AnalyzeMode::TopFiles => match &location.selected_large_file {
                Some(path) => find_row(&list, path.as_str()),
                None => None,
            },
        };
        let row = match found {
            Some(i) => Some(i),
            None => if list.len() > 0 {
                Some(0)
            } else {
                None
            },
        };
        self.put_cursor(&list, row);
    }

    /// Puts the cursor on the first row.
    pub fn select_first_if_available(&mut self)
        requires
            old(self).well_formed(),
        ensures
            final(self)@ == on_first(old(self)@),
            final(self).well_formed(),
    {
        let list = self.visible_rows();
        proof {
            assert(row_views(list@).len() == list@.len());
        }
        let row = if list.len() > 0 {
            Some(0)
        } else {
            None
        };
        self.put_cursor(&list, row);
    }

    /// Moves the cursor by one row.
    pub fn move_selection(&mut self, motion: Motion)
        requires
            old(self).well_formed(),
        ensures
            final(self)@ == moved(old(self)@, motion),
            final(self).well_formed(),
    {
        let list = self.visible_rows();
        proof {
            assert(row_views(list@).len() == list@.len());
        }
        let row = step(self.cursor, motion, list.len());
        self.put_cursor(&list, row);
    }

    fn reorder_active(&mut self)
        requires
            old(self).well_formed(),
        ensures
            final(self)@ == with_active(old(self)@, reordered(active(old(self)@))),
            final(self).well_formed(),
    {
        let ghost before = self@;
        let last: usize = self.locations.len() - 1;
        proof {
            assert(location_views(self.locations@).last() == self.locations@[last as int]@);
        }
        self.locations[last].reorder();
        proof {
            assert(location_views(self.locations@) =~= with_active(
                before,
                reordered(active(before)),
            ).locations);
        }
    }

    /// Brings what is shown up to date where that is due.
    pub fn poll(&mut self, due: bool)
        requires
            old(self).well_formed(),
        ensures
            final(self)@ == polled(old(self)@, due),
            final(self).well_formed(),
    {
        if self.active().needs_reorder || due {
            self.reorder_active();
            self.reconcile_list_state();
        }
    }

    /// Takes in what a scan reported.
    pub fn feed(&mut self, scan: u64, updates: &Vec<ScanUpdate>, lost: bool)
        requires
            old(self).well_formed(),
        ensures
            final(self)@ == fed(old(self)@, scan, updates@, lost),
            final(self).well_formed(),
    {
        let ghost before = self.locations@;
        let ghost change = |location: LocationView|
            if location.scan == Some(scan) {
                drained(location, updates@, 0, lost)
            } else {
                location
            };
        let ghost whole = fed(self@, scan, updates@, lost);
        let mut i: usize = 0;
        while i < self.locations.len()
            invariant
                i <= self.locations@.len(),
                self.locations@.len() == before.len(),
                self.well_formed(),
                change == (|location: LocationView|
                    if location.scan == Some(scan) {
                        drained(location, updates@, 0, lost)
                    } else {
                        location
                    }),
                whole == fed(old(self)@, scan, updates@, lost),
                whole.locations == location_views(before).map_values(change),
                self@ == (AnalyzeView { locations: location_views(self.locations@), ..whole }),
                forall|j: int|
                    0 <= j < i ==> (#[trigger] self.locations@[j])@ == change(before[j]@),
                forall|j: int| i <= j < before.len() ==> #[trigger] self.locations@[j] == before[j],
            decreases self.locations.len() - i,
        {
            match self.locations[i].scan {
                Some(own) => {
                    if own == scan {
                        self.locations[i].drain(updates, lost);
                    }
                },
                None => {},
            }
            i = i + 1;
        }
        proof {
            assert(location_views(self.locations@) =~= whole.locations);
        }
    }

    /// Gives up the oldest scans where there are too many.
    fn enforce_scan_depth_cap(&mut self)
        requires
            old(self).well_formed(),
        ensures
            final(self)@ == (AnalyzeView {
                locations: capped(old(self)@.locations),
                ..old(self)@
            }),
            final(self).well_formed(),
    {
        let ghost before = self.locations@;
        let ghost views = location_views(before);
        let ghost start = self@;
        let mut live: usize = 0;
        let mut i: usize = self.locations.len();
        proof {
            assert(views.skip(views.len() as int) =~= Seq::empty());
            assert(location_views(self.locations@) =~= views.take(views.len() as int) + capped(
                views.skip(views.len() as int),
            ));
        }
        while i > 0
            invariant
                i <= before.len() <= usize::MAX,
                self.locations@.len() == before.len(),
                self.well_formed(),
                views == location_views(before),
                live == live_scans(views.skip(i as int)),
                live <= before.len() - i,
                self@ == (AnalyzeView { locations: location_views(self.locations@), ..start }),
                location_views(self.locations@) == views.take(i as int) + capped(
                    views.skip(i as int),
                ),
            decreases i,
        {
            let at: usize = i - 1;
            let ghost rest = views.skip(i as int);
            let ghost tail = views.skip(at as int);
            proof {
                assert(tail.drop_first() =~= rest);
                assert(tail[0] == views[at as int]);
                assert(location_views(self.locations@)[at as int] == views[at as int]);
                assert(location_views(self.locations@)[at as int] == self.locations@[at as int]@);
            }
            if self.locations[at].scan.is_some() {
                live = live + 1;
            }
            let ghost now = location_views(self.locations@);
            if live > ANALYZE_LIVE_SCAN_CAP {
                self.locations[at].cancel_scan();
                proof {
                    let first = LocationView { scan: None, ..views[at as int] };
                    assert(location_views(self.locations@) =~= now.update(at as int, first));
                    assert(capped(tail) == seq![first] + capped(rest));
                    assert(location_views(self.locations@) =~= views.take(at as int) + capped(
                        tail,
                    ));
                }
            } else {
                proof {
                    assert(capped(tail) == seq![views[at as int]] + capped(rest));
                    assert(now =~= views.take(at as int) + capped(tail));
                }
            }
            i = at;
        }
        proof {
            assert(views.skip(0) =~= views);
            assert(location_views(self.locations@) =~= capped(views));
        }
    }

    fn number_scan(&mut self) -> (r: u64)
        requires
            old(self).well_formed(),
        ensures
            r == old(self).next_scan,
            final(self)@ == (AnalyzeView { next_scan: following(r), ..old(self)@ }),
            final(self).well_formed(),
    {
        let scan: u64 = self.next_scan;
        self.next_scan = if scan == u64::MAX {
            0
        } else {
            scan + 1
        };
        scan
    }

    fn push_location(&mut self, path: String)
        requires
            old(self).well_formed(),
        ensures
            final(self)@ == pushed(old(self)@, path@),
            final(self).well_formed(),
    {
        let ghost before = self@;
        let scan: u64 = self.number_scan();
        let mut location = Location::new(path);
        location.start_scan(scan);
        let ghost view = location@;
        self.locations.push(location);
        proof {
            assert(location_views(self.locations@) =~= before.locations.push(view));
        }
        self.enforce_scan_depth_cap();
        self.filter = "".to_owned();
        self.filtering = false;
        self.selected_files.clear();
        self.cursor = None;
        self.set_status("Scanning disk usage...", StatusSeverity::Info);
        proof {
            assert(viewed(self.selected_files.entries@, removal_view()) =~= seq![]);
        }
    }

    /// Enters the directory under the cursor.
    pub fn enter_selected(&mut self)
        requires
            old(self).well_formed(),
        ensures
            final(self)@ == entered(old(self)@),
            final(self).well_formed(),
    {
        match self.mode {
            AnalyzeMode::TopFiles => {
                return;
            },
            AnalyzeMode::Browse => {},
        }
        let location = self.active();
        let target = match &location.selected {
            Some(path) => path.clone(),
            None => {
                return;
            },
        };
        proof {
            lemma_viewed_place(location.entries.entries@, entry_view(), parts(target@), 0);
        }
        let (path, is_dir) = match location.entries.find(target.as_str()) {
            Some(i) => (
                location.entries.entries[i].1.path.clone(),
                location.entries.entries[i].1.is_dir,
            ),
            None => {
                return;
            },
        };
        if !is_dir {
            self.set_status(
                "Use Space to select the file, then d to remove it",
                StatusSeverity::Warning,
            );
            return;
        }
        self.push_location(path);
    }

    fn rescan(&mut self)
        requires
            old(self).well_formed(),
        ensures
            final(self)@ == rescanned(old(self)@),
            final(self).well_formed(),
    {
        let ghost before = self@;
        let scan: u64 = self.number_scan();
        let last: usize = self.locations.len() - 1;
        proof {
            assert(location_views(self.locations@).last() == self.locations@[last as int]@);
        }
        self.locations[last].start_scan(scan);
        self.cursor = None;
        proof {
            assert(location_views(self.locations@) =~= rescanned(before).locations);
        }
    }

    /// Scans the location again, unless it is being scanned.
    pub fn refresh(&mut self)
        requires
            old(self).well_formed(),
        ensures
            final(self)@ == refreshed(old(self)@),
            final(self).well_formed(),
    {
        if self.active().scan.is_some() {
            self.set_status("A scan is already in progress", StatusSeverity::Warning);
            return;
        }
        self.filter = "".to_owned();
        self.filtering = false;
        self.selected_files.clear();
        proof {
            assert(viewed(self.selected_files.entries@, removal_view()) =~= seq![]);
        }
        self.rescan();
        self.set_status("Scanning disk usage...", StatusSeverity::Info);
    }

    /// Shows the other list.
    pub fn toggle_mode(&mut self)
        requires
            old(self).well_formed(),
        ensures
            final(self)@ == switched(old(self)@),
            final(self).well_formed(),
    {
        if !self.active().has_data() {
            return;
        }
        self.mode = match self.mode {
            AnalyzeMode::Browse => AnalyzeMode::TopFiles,
            AnalyzeMode::TopFiles => AnalyzeMode::Browse,
        };
        self.filter = "".to_owned();
        self.filtering = false;
        self.selected_files.clear();
        self.cursor = None;
        proof {
            assert(viewed(self.selected_files.entries@, removal_view()) =~= seq![]);
        }
        self.select_first_if_available();
        match self.mode {
            AnalyzeMode::Browse => {
                self.set_status("Directory explorer", StatusSeverity::Info);
            },
            AnalyzeMode::TopFiles => {
                self.set_status("Largest files in this location", StatusSeverity::Info);
            },
        }
    }

    /// Begins to take keys as a filter.
    pub fn begin_filter(&mut self)
        requires
            old(self).well_formed(),
        ensures
            final(self)@ == filter_begun(old(self)@),
            final(self).well_formed(),
    {
        if self.active().has_data() {
            self.filtering = true;
            self.selected_files.clear();
            proof {
                assert(viewed(self.selected_files.entries@, removal_view()) =~= seq![]);
            }
            self.set_status("Type to filter, Enter to apply, Esc to clear", StatusSeverity::Info);
        }
    }

    /// Takes a key as part of the filter.
    pub fn handle_filter_key(&mut self, key: Key)
        requires
            old(self).well_formed(),
        ensures
            final(self)@ == filter_typed(old(self)@, key),
            final(self).well_formed(),
    {
        match key {
            Key::Esc => {
                self.filter = "".to_owned();
                self.filtering = false;
            },
            Key::Enter => {
                self.filtering = false;
            },
            Key::Backspace | Key::Delete => {
                let chars = chars_of(self.filter.as_str());
                if chars.len() > 0 {
                    let shorter = text_of(&chars, 0, chars.len() - 1);
                    proof {
                        assert(shorter@ =~= self.filter@.drop_last());
                    }
                    self.filter = shorter;
                }
            },
            Key::Char(c) => {
                let mut longer = self.filter.clone();
                longer.push(c);
                self.filter = longer;
            },
            _ => {},
        }
        self.select_first_if_available();
        self.selected_files.clear();
        proof {
            assert(viewed(self.selected_files.entries@, removal_view()) =~= seq![]);
        }
    }

    /// Goes one step back; returns whether there is nothing left to go back from.
    pub fn clear_filter_or_go_back(&mut self) -> (r: bool)
        requires
            old(self).well_formed(),
        ensures
            (final(self)@, r) == stepped_back(old(self)@),
            final(self).well_formed(),
    {
        if self.filter.as_str().unicode_len() > 0 {
            self.filter = "".to_owned();
            self.select_first_if_available();
            return false;
        }
        match self.mode {
            AnalyzeMode::TopFiles => {
                self.toggle_mode();
                return false;
            },
            AnalyzeMode::Browse => {},
        }
        proof {
            assert(location_views(self.locations@).len() == self.locations@.len());
        }
        if self.locations.len() > 1 {
            let ghost before = self@;
            let _ = self.locations.pop();
            self.selected_files.clear();
            self.cursor = None;
            proof {
                assert(location_views(self.locations@) =~= before.locations.drop_last());
                assert(viewed(self.selected_files.entries@, removal_view()) =~= seq![]);
            }
            self.reorder_active();
            self.reconcile_list_state();
            self.set_status("Returned to previous location", StatusSeverity::Info);
            return false;
        }
        true
    }

    // -----------------------------------------------------------------------------------
    // Selection and removal
    // -----------------------------------------------------------------------------------

    /// The row under the cursor, where it can be chosen. `git_root` says whether it holds an
    /// entry named `.git`.
    pub fn focused_file_impl(&self, force: bool, git_root: bool) -> (r: Result<
        (String, PendingRemoval),
        FocusRefusal,
    >)
        requires
            self.well_formed(),
        ensures
            (match r {
                Ok(target) => Ok::<(Seq<char>, PendingRemoval), FocusRefusal>(
                    (target.0@, target.1),
                ),
                Err(refusal) => Err(refusal),
            }) == focused(self@, force, git_root),
    {
        let index: usize = match self.cursor {
            None => {
                return Err(FocusRefusal::NoSelection);
            },
            Some(index) => index,
        };
        let list = self.visible_rows();
        proof {
            assert(row_views(list@).len() == list@.len());
        }
        if index >= list.len() {
            return Err(FocusRefusal::NoSelection);
        }
        let row = &list[index];
        proof {
            assert(rows(self@)[index as int] == row@);
        }
        let candidate = Candidate { is_dir: row.is_dir, git_root, size: row.size };
        let verdict = if force {
            personal_file_selectability_forced(self.home.as_str(), row.path.as_str(), candidate)
        } else {
            personal_file_selectability(self.home.as_str(), row.path.as_str(), candidate)
        };
        match verdict {
            Ok(()) => Ok(
                (row.path.clone(), PendingRemoval { size: row.size, is_dir: row.is_dir, force }),
            ),
            Err(refusal) => Err(FocusRefusal::NotSelectable(refusal)),
        }
    }

    /// The path of the row under the cursor.
    pub fn focused_path(&self) -> (r: Option<String>)
        requires
            self.well_formed(),
        ensures
            optional_text(r) == (match self.cursor {
                Some(i) => if i < rows(self@).len() {
                    Some(rows(self@)[i as int].path)
                } else {
                    None
                },
                None => None,
            }),
    {
        let index: usize = match self.cursor {
            None => {
                return None;
            },
            Some(index) => index,
        };
        let list = self.visible_rows();
        proof {
            assert(row_views(list@).len() == list@.len());
        }
        if index >= list.len() {
            return None;
        }
        proof {
            assert(rows(self@)[index as int] == list@[index as int]@);
        }
        Some(list[index].path.clone())
    }

    /// Says how much is selected.
    fn update_selection_status(&mut self)
        requires
            old(self).well_formed(),
        ensures
            final(self)@ == selection_said(old(self)@),
            final(self).well_formed(),
    {
        proof {
            assert(self@.selected_files.len() == self.selected_files.entries@.len());
        }
        if self.selected_files.is_empty() {
            let text = "Scanned ".to_owned().concat(
                format_bytes(self.active().total_size).as_str(),
            );
            self.set_status(text.as_str(), StatusSeverity::Info);
        } else {
            let total: u64 = total_removal(&self.selected_files);
            let text = count_text(self.selected_files.entries.len()).concat(" selected, ").concat(
                format_bytes(total).as_str(),
            );
            self.set_status(text.as_str(), StatusSeverity::Info);
        }
    }

    /// Selects the row under the cursor, or selects it no longer.
    pub fn toggle_selection_impl(&mut self, force: bool, git_root: bool)
        requires
            old(self).well_formed(),
        ensures
            final(self)@ == toggled(old(self)@, force, git_root),
            final(self).well_formed(),
    {
        if !self.active().has_data() {
            self.set_status("Selection is available once items appear", StatusSeverity::Warning);
            return;
        }
        match self.focused_file_impl(force, git_root) {
            Ok((path, removal)) => {
                proof {
                    let entries = self.selected_files.entries@;
                    lemma_viewed_place(entries, removal_view(), parts(path@), 0);
                    lemma_viewed_without(entries, removal_view(), path@);
                    lemma_viewed_with(entries, removal_view(), path, removal);
                }
                if self.selected_files.contains(path.as_str()) {
                    let _ = self.selected_files.remove(path.as_str());
                } else {
                    self.selected_files.insert(path, removal);
                }
                self.update_selection_status();
            },
            Err(FocusRefusal::NoSelection) => {
                self.set_status("Nothing is selected", StatusSeverity::Warning);
            },
            Err(FocusRefusal::NotSelectable(refusal)) => {
                let text = personal_file_refusal_message(refusal);
                self.set_status(text.as_str(), StatusSeverity::Warning);
            },
        }
    }

    /// Asks for the removal of what is selected, or of the row under the cursor.
    pub fn begin_delete_impl(&mut self, force: bool, git_root: bool)
        requires
            old(self).well_formed(),
        ensures
            final(self)@ == delete_begun(old(self)@, force, git_root),
            final(self).well_formed(),
    {
        if !self.active().has_data() {
            self.set_status("Removal is available once items appear", StatusSeverity::Warning);
            return;
        }
        let ghost targets = removal_targets(self@, force, git_root);
        proof {
            assert(self@.selected_files.len() == self.selected_files.entries@.len());
        }
        let pending = if self.selected_files.is_empty() {
            let mut single: PathMap<PendingRemoval> = PathMap::new();
            match self.focused_file_impl(force, git_root) {
                Ok((path, removal)) => {
                    let ghost target = (path@, removal);
                    single.entries.push((path, removal));
                    proof {
                        assert(viewed(single.entries@, removal_view()) =~= seq![target]);
                    }
                },
                Err(_) => {
                    proof {
                        assert(viewed(single.entries@, removal_view()) =~= seq![]);
                    }
                },
            }
            single
        } else {
            copy_removals(&self.selected_files, force)
        };
        self.pending_delete = pending;
        proof {
            assert(self@.pending_delete == targets);
            assert(self@.pending_delete.len() == self.pending_delete.entries@.len());
        }
        if self.pending_delete.is_empty() {
            self.set_status("Select a personal file first", StatusSeverity::Warning);
            return;
        }
        self.confirming_delete = true;
    }

    /// Takes back the request for a removal.
    pub fn cancel_delete(&mut self)
        requires
            old(self).well_formed(),
        ensures
            final(self)@ == delete_cancelled(old(self)@),
            final(self).well_formed(),
    {
        self.confirming_delete = false;
        self.pending_delete.clear();
        proof {
            assert(viewed(self.pending_delete.entries@, removal_view()) =~= seq![]);
        }
        self.set_status("Removal cancelled", StatusSeverity::Info);
    }

    /// The items that a confirmed removal consists of, in the order of their paths.
    pub fn removal_items(&self) -> (r: Vec<CleanupItem>)
        ensures
            item_views(r@) == self@.pending_delete.map_values(
                |entry: (Seq<char>, PendingRemoval)|
                    personal_file_item(entry.0, entry.1.size, entry.1.force),
            ),
    {
        let ghost all = self@.pending_delete.map_values(
            |entry: (Seq<char>, PendingRemoval)|
                personal_file_item(entry.0, entry.1.size, entry.1.force),
        );
        let mut out: Vec<CleanupItem> = Vec::new();
        let mut i: usize = 0;
        while i < self.pending_delete.entries.len()
            invariant
                i <= self.pending_delete.entries@.len(),
                all == self@.pending_delete.map_values(
                    |entry: (Seq<char>, PendingRemoval)|
                        personal_file_item(entry.0, entry.1.size, entry.1.force),
                ),
                item_views(out@) =~= all.take(i as int),
            decreases self.pending_delete.entries.len() - i,
        {
            let (path, removal) = &self.pending_delete.entries[i];
            let file = LargeFile {
                path: path.clone(),
                size: removal.size,
                modified_unix: None,
                app_data: false,
            };
            let item = file.cleanup_item(removal.force);
            let ghost before = out@;
            out.push(item);
            proof {
                assert(item_views(out@) =~= item_views(before).push(item@));
                assert(all.take(i + 1) =~= all.take(i as int).push(all[i as int]));
            }
            i = i + 1;
        }
        proof {
            assert(all.take(self.pending_delete.entries@.len() as int) =~= all);
        }
        out
    }

    /// Shows how a confirmed removal ended and scans the location again.
    pub fn finish_delete(&mut self, results: Vec<ActionResult>)
        requires
            old(self).well_formed(),
        ensures
            final(self)@ == delete_finished(old(self)@, result_views(results@)),
            final(self).well_formed(),
    {
        let failed: usize = count_failures(&results);
        self.confirming_delete = false;
        self.pending_delete.clear();
        self.selected_files.clear();
        self.results = Some(results);
        proof {
            assert(viewed(self.selected_files.entries@, removal_view()) =~= seq![]);
            assert(viewed(self.pending_delete.entries@, removal_view()) =~= seq![]);
        }
        self.rescan();
        if failed > 0 {
            let text = count_text(failed).concat(" removal(s) failed");
            self.set_status(text.as_str(), StatusSeverity::Error);
        } else {
            self.set_status("Scanning disk usage...", StatusSeverity::Info);
        }
    }
}

fn count_failures(results: &Vec<ActionResult>) -> (r: usize)
    ensures
        r == failures(result_views(results@)),
{
    let ghost views = result_views(results@);
    let mut count: usize = 0;
    let mut i: usize = 0;
    while i < results.len()
        invariant
            i <= results@.len(),
            count <= i,
            views == result_views(results@),
            count == failures(views.take(i as int)),
        decreases results.len() - i,
    {
        proof {
            assert(views.take(i + 1).drop_last() =~= views.take(i as int));
            assert(views.take(i + 1).last() == results@[i as int]@);
        }
        if !results[i].success {
            count = count + 1;
        }
        i = i + 1;
    }
    proof {
        assert(views.take(results@.len() as int) =~= views);
    }
    count
}

/// The bytes of what is to be removed, as far as 64 bits reach.
pub fn total_removal(removals: &PathMap<PendingRemoval>) -> (r: u64)
    ensures
        r == saturating(removal_bytes(viewed(removals.entries@, removal_view())) as int),
{
    let ghost views = viewed(removals.entries@, removal_view());
    let mut total: u64 = 0;
    let mut i: usize = 0;
    while i < removals.entries.len()
        invariant
            i <= removals.entries@.len(),
            views == viewed(removals.entries@, removal_view()),
            total == saturating(removal_bytes(views.take(i as int)) as int),
        decreases removals.entries.len() - i,
    {
        let size: u64 = removals.entries[i].1.size;
        proof {
            assert(views.take(i + 1).drop_last() =~= views.take(i as int));
            assert(views.take(i + 1).last().1.size == size);
        }
        total = if size > u64::MAX - total {
            u64::MAX
        } else {
            total + size
        };
        i = i + 1;
    }
    proof {
        assert(views.take(removals.entries@.len() as int) =~= views);
    }
    total
}

/// A copy of what is to be removed, forced where that is asked for.
fn copy_removals(removals: &PathMap<PendingRemoval>, force: bool) -> (r: PathMap<PendingRemoval>)
    requires
        removals.well_formed(),
    ensures
        r.well_formed(),
        viewed(r.entries@, removal_view()) == if force {
            forced_removals(viewed(removals.entries@, removal_view()))
        } else {
            viewed(removals.entries@, removal_view())
        },
{
    let ghost views = viewed(removals.entries@, removal_view());
    let ghost all = if force {
        forced_removals(views)
    } else {
        views
    };
    let mut out: PathMap<PendingRemoval> = PathMap::new();
    let mut i: usize = 0;
    while i < removals.entries.len()
        invariant
            i <= removals.entries@.len(),
            removals.well_formed(),
            views == viewed(removals.entries@, removal_view()),
            all == (if force {
                forced_removals(views)
            } else {
                views
            }),
            out.entries@.len() == i,
            forall|j: int|
                0 <= j < i ==> (#[trigger] out.entries@[j]).0 == removals.entries@[j].0,
            viewed(out.entries@, removal_view()) =~= all.take(i as int),
        decreases removals.entries.len() - i,
    {
        let (path, removal) = &removals.entries[i];
        let copy = if force {
            PendingRemoval { size: removal.size, is_dir: removal.is_dir, force: true }
        } else {
            *removal
        };
        out.entries.push((path.clone(), copy));
        i = i + 1;
    }
    proof {
        assert(all.take(removals.entries@.len() as int) =~= all);
        assert forall|a: int, b: int| 0 <= a < b < out.entries@.len() implies path_before(
            (#[trigger] out.entries@[a]).0@,
            (#[trigger] out.entries@[b]).0@,
        ) by {
            assert(path_before(removals.entries@[a].0@, removals.entries@[b].0@));
        }
    }
    out
}

// ---------------------------------------------------------------------------------------
// Laws
// ---------------------------------------------------------------------------------------

proof fn lemma_capped(locations: Seq<LocationView>)
    ensures
        capped(locations).len() == locations.len(),
        live_scans(capped(locations)) <= ANALYZE_LIVE_SCAN_CAP,
        live_scans(locations) <= ANALYZE_LIVE_SCAN_CAP ==> capped(locations) == locations,
        live_scans(capped(locations)) <= live_scans(locations),
    decreases locations.len(),
{
    if locations.len() > 0 {
        let rest = locations.drop_first();
        lemma_capped(rest);
        let now = capped(locations);
        assert(now.drop_first() =~= capped(rest));
        if live_scans(locations) <= ANALYZE_LIVE_SCAN_CAP {
            assert(now =~= locations);
        }
    } else {
        assert(capped(locations) =~= locations);
    }
}

/// However deep one goes, at most three directories are scanned at once.
pub proof fn scans_are_capped(state: AnalyzeView, path: Seq<char>)
    ensures
        live_scans(pushed(state, path).locations) <= ANALYZE_LIVE_SCAN_CAP,
        pushed(state, path).locations.len() == state.locations.len() + 1,
{
    lemma_capped(state.locations.push(scanning_location(path, state.next_scan)));
}

/// Nothing is removed without a confirmation: asking for a removal only shows the question, and
/// leaves what was found as it is.
pub proof fn asking_removes_nothing(state: AnalyzeView, force: bool, git_root: bool)
    ensures
        delete_begun(state, force, git_root).locations == state.locations,
        delete_begun(state, force, git_root).results == state.results,
        delete_begun(state, force, git_root).confirming_delete && !state.confirming_delete
            ==> delete_begun(state, force, git_root).pending_delete.len() > 0,
{
}

/// A plain removal never takes a row that the rules refuse: where nothing is selected and the
/// row under the cursor is refused, there is nothing to confirm.
pub proof fn refused_rows_are_not_removed(state: AnalyzeView, git_root: bool)
    requires
        state.selected_files.len() == 0,
        focused(state, false, git_root) is Err,
        !state.confirming_delete,
    ensures
        !delete_begun(state, false, git_root).confirming_delete,
{
}

/// Selecting a row twice changes nothing.
pub proof fn selecting_twice_is_undone(state: AnalyzeView, force: bool, git_root: bool)
    requires
        focused(state, force, git_root) is Ok,
        has_items(active(state)),
        place_of(state.selected_files, parts(focused(state, force, git_root)->Ok_0.0), 0) is None,
        is_in_path_order(state.selected_files),
    ensures
        toggled(toggled(state, force, git_root), force, git_root).selected_files
            == state.selected_files,
{
    let (path, removal) = focused(state, force, git_root)->Ok_0;
    let once = toggled(state, force, git_root);
    assert(active(once) == active(state));
    assert(rows(once) == rows(state));
    let before = state.selected_files;
    let now = placed(before, path, removal);
    let at = places_before(before, path, 0);
    lemma_place_in_order(before, path, 0);
    assert(now == before.insert(at, (path, removal)));
    assert forall|j: int| 0 <= j < at implies parts((#[trigger] now[j]).0) != parts(path) by {
        assert(now[j] == before[j]);
        lemma_not_placed(before, parts(path), 0, j);
    }
    lemma_placed_at(now, parts(path), at, 0);
    assert(now.remove(at) =~= before);
}

pub open spec fn is_in_path_order(entries: Seq<(Seq<char>, PendingRemoval)>) -> bool {
    forall|i: int, j: int|
        0 <= i < j < entries.len() ==> path_before(
            (#[trigger] entries[i]).0,
            (#[trigger] entries[j]).0,
        )
}

proof fn lemma_place_in_order(entries: Seq<(Seq<char>, PendingRemoval)>, path: Seq<char>, i: int)
    requires
        0 <= i <= entries.len(),
    ensures
        i <= places_before(entries, path, i) <= entries.len(),
    decreases entries.len() - i,
{
    if i < entries.len() && path_before(entries[i].0, path) {
        lemma_place_in_order(entries, path, i + 1);
    }
}

proof fn lemma_not_placed(
    entries: Seq<(Seq<char>, PendingRemoval)>,
    key: Seq<Part>,
    from: int,
    j: int,
)
    requires
        0 <= from <= j < entries.len(),
        place_of(entries, key, from) is None,
    ensures
        parts(entries[j].0) != key,
    decreases j - from,
{
    if from < j {
        lemma_not_placed(entries, key, from + 1, j);
    }
}

proof fn lemma_placed_at(
    entries: Seq<(Seq<char>, PendingRemoval)>,
    key: Seq<Part>,
    at: int,
    from: int,
)
    requires
        0 <= from <= at < entries.len(),
        parts(entries[at].0) == key,
        forall|j: int| from <= j < at ==> parts((#[trigger] entries[j]).0) != key,
    ensures
        place_of(entries, key, from) == Some(at),
    decreases at - from,
{
    if from < at {
        lemma_placed_at(entries, key, at, from + 1);
    }
}

/// The cursor stays on its path, whatever arrives meanwhile and however the rows move: where
/// the path that it was on is still shown, it is on a row at that path afterwards. This holds of
/// the entries as of the large files.
pub proof fn cursor_follows_its_path(state: AnalyzeView, path: Seq<char>, i: int)
    requires
        state.locations.len() > 0,
        rows(state).len() <= usize::MAX,
        remembered(state) == Some(path),
        0 <= i < rows(state).len(),
        parts(rows(state)[i].path) == parts(path),
    ensures
        rows(synced(state)) == rows(state),
        synced(state).cursor matches Some(row) && row < rows(state).len() && parts(
            rows(state)[row as int].path,
        ) == parts(path),
        remembered(synced(state)) matches Some(kept) && parts(kept) == parts(path),
{
    lemma_row_place(rows(state), path, 0, i);
    let after = synced(state);
    let last = state.locations.len() - 1;
    assert(after.locations[last] == active(after));
    assert(active(after).sorted == active(state).sorted);
    assert(active(after).large_files == active(state).large_files);
}

proof fn lemma_row_place(list: Seq<RowView>, path: Seq<char>, from: int, i: int)
    requires
        0 <= from <= i < list.len(),
        parts(list[i].path) == parts(path),
    ensures
        row_place(list, path, from) matches Some(k) && from <= k <= i && parts(list[k].path)
            == parts(path),
    decreases i - from,
{
    if parts(list[from].path) != parts(path) {
        lemma_row_place(list, path, from + 1, i);
    }
}

/// Without a filter everything is shown. With one, a row is shown exactly where its name or its
/// path has the text in it, in whatever case.
pub proof fn filter_shows_what_matches(state: AnalyzeView, i: int)
    requires
        0 <= i < active(state).sorted.len(),
    ensures
        state.filter.len() == 0 ==> shown_entries(state) == active(state).sorted,
        ({
            let entry = active(state).sorted[i];
            shown_entries(state).contains(entry) <==> state.filter.len() == 0 || has_infix(
                lower(entry.name),
                lower(state.filter),
            ) || has_infix(lower(entry.path), lower(state.filter))
        }),
{
    let all = active(state).sorted;
    let query = lower(state.filter);
    let keep = |entry: DiskEntryView| entry_matches(query, entry);
    assert(query.len() == state.filter.len());
    if keep(all[i]) {
        all.lemma_filter_contains(keep, i);
    }
    if shown_entries(state).contains(all[i]) {
        let k = choose|k: int|
            0 <= k < shown_entries(state).len() && shown_entries(state)[k] == all[i];
        all.lemma_filter_pred(keep, k);
    }
    if state.filter.len() == 0 {
        lemma_all_shown(all, keep);
    }
}

proof fn lemma_all_shown<A>(all: Seq<A>, keep: spec_fn(A) -> bool)
    requires
        forall|a: A| #[trigger] keep(a),
    ensures
        all.filter(keep) == all,
    decreases all.len(),
{
    reveal(Seq::filter);
    if all.len() > 0 {
        lemma_all_shown(all.drop_last(), keep);
        assert(keep(all.last()));
        assert(all.drop_last().push(all.last()) =~= all);
    } else {
        assert(all =~= Seq::empty());
    }
}

/// What is removed is what was asked for: everything that is selected, or else the row under the
/// cursor, with its own path and size. Nothing else is added, and force is what was pressed.
pub proof fn removal_takes_the_selection(state: AnalyzeView, force: bool, git_root: bool)
    requires
        has_items(active(state)),
    ensures
        ({
            let after = delete_begun(state, force, git_root);
            if state.selected_files.len() > 0 {
                &&& after.confirming_delete
                &&& after.pending_delete.len() == state.selected_files.len()
                &&& forall|k: int|
                    0 <= k < after.pending_delete.len() ==> {
                        let entry = #[trigger] after.pending_delete[k];
                        let chosen = state.selected_files[k];
                        &&& entry.0 == chosen.0
                        &&& entry.1.size == chosen.1.size && entry.1.is_dir == chosen.1.is_dir
                        &&& entry.1.force == (force || chosen.1.force)
                    }
            } else {
                match focused(state, force, git_root) {
                    Ok(target) => after.confirming_delete && after.pending_delete == seq![target],
                    Err(_) => after.pending_delete.len() == 0,
                }
            }
        }),
{
}

/// The row under the cursor is the one that is chosen, by its own path, size and kind.
pub proof fn cursor_chooses_its_row(state: AnalyzeView, row: usize, force: bool, git_root: bool)
    requires
        state.cursor == Some(row),
    ensures
        focused(state, force, git_root) matches Ok((path, removal)) ==> {
            &&& row < rows(state).len()
            &&& path == rows(state)[row as int].path
            &&& removal.size == rows(state)[row as int].size
            &&& removal.is_dir == rows(state)[row as int].is_dir
            &&& removal.force == force
        },
        row < rows(state).len() ==> (focused(state, force, git_root) is Ok <==> selectability(
            state.home,
            rows(state)[row as int].path,
            (Candidate {
                is_dir: rows(state)[row as int].is_dir,
                git_root,
                size: rows(state)[row as int].size,
            }),
            force,
        ) is Ok),
{
}

/// What is confirmed is removed as it was shown, by its own path and with the force that was asked
/// for; what came of it is shown, and nothing stays selected.
pub proof fn finished_removal_is_shown(state: AnalyzeView, results: Seq<ResultView>)
    ensures
        ({
            let after = delete_finished(state, results);
            &&& after.results == Some(results)
            &&& !after.confirming_delete
            &&& after.pending_delete.len() == 0 && after.selected_files.len() == 0
            &&& after.status_severity is Error <==> exists|i: int|
                0 <= i < results.len() && !(#[trigger] results[i]).success
        }),
{
    lemma_failures(results);
}

proof fn lemma_failures(results: Seq<ResultView>)
    ensures
        failures(results) > 0 <==> exists|i: int|
            0 <= i < results.len() && !(#[trigger] results[i]).success,
    decreases results.len(),
{
    if results.len() > 0 {
        let before = results.drop_last();
        lemma_failures(before);
        if failures(before) > 0 {
            let i = choose|i: int| 0 <= i < before.len() && !(#[trigger] before[i]).success;
            assert(results[i] == before[i]);
        }
        if exists|i: int| 0 <= i < results.len() && !(#[trigger] results[i]).success {
            let i = choose|i: int| 0 <= i < results.len() && !(#[trigger] results[i]).success;
            if i < before.len() {
                assert(before[i] == results[i]);
            }
        }
        if !results.last().success {
            assert(!results[results.len() - 1].success);
        }
    }
}

/// What is to be removed counts the bytes of each entry.
pub proof fn removals_add_up(removals: Seq<(Seq<char>, PendingRemoval)>)
    ensures
        removal_bytes(removals) == sum_of(
            removals,
            |entry: (Seq<char>, PendingRemoval)| entry.1.size as nat,
        ),
    decreases removals.len(),
{
    if removals.len() > 0 {
        removals_add_up(removals.drop_last());
    }
}

/// A directory under the cursor is entered by its own path, and one step back leads to the
/// directory that was shown before, with what was known of it.
pub proof fn entering_leads_back(state: AnalyzeView, path: Seq<char>)
    requires
        state.locations.len() > 0,
        state.mode is Browse,
    ensures
        ({
            let inside = pushed(state, path);
            let (back, out) = stepped_back(inside);
            &&& active(inside).path == path
            &&& active(inside).entries.len() == 0 && active(inside).scan is Some
            &&& !out
            &&& back.locations.len() == state.locations.len()
            &&& active(back).path == active(state).path
            &&& active(back).entries == active(state).entries
            &&& active(back).large_files == active(state).large_files
            &&& active(back).total_size == active(state).total_size
        }),
{
    let more = state.locations.push(scanning_location(path, state.next_scan));
    let inside = pushed(state, path);
    let n = state.locations.len() as int;
    lemma_capped(more);
    lemma_capped_keeps(more, n);
    lemma_capped_keeps(more, n - 1);
    lemma_newest_scan_stays(more);
    reveal_strlit("");
    assert(inside.filter.len() == 0);
    assert(active(inside) == inside.locations[n]);
    let above = AnalyzeView {
        locations: inside.locations.drop_last(),
        selected_files: seq![],
        cursor: None,
        ..inside
    };
    assert(active(above) == inside.locations[n - 1]);
    let shown = with_active(above, reordered(active(above)));
    assert(active(shown) == reordered(active(above)));
    lemma_sync_keeps(shown);
}

/// Syncing moves the cursor and nothing else.
proof fn lemma_sync_keeps(state: AnalyzeView)
    requires
        state.locations.len() > 0,
    ensures
        synced(state).locations.len() == state.locations.len(),
        active(synced(state)).path == active(state).path,
        active(synced(state)).entries == active(state).entries,
        active(synced(state)).large_files == active(state).large_files,
        active(synced(state)).total_size == active(state).total_size,
{
}

/// Giving up older scans keeps what every location knows.
proof fn lemma_capped_keeps(locations: Seq<LocationView>, i: int)
    requires
        0 <= i < locations.len(),
    ensures
        capped(locations).len() == locations.len(),
        capped(locations)[i] == (LocationView { scan: capped(locations)[i].scan, ..locations[i] }),
    decreases locations.len(),
{
    let rest = locations.drop_first();
    lemma_capped(rest);
    if i > 0 {
        lemma_capped_keeps(rest, i - 1);
        assert(capped(locations)[i] == capped(rest)[i - 1]);
        assert(rest[i - 1] == locations[i]);
    } else {
        lemma_capped(locations);
    }
}

/// The newest scan is not given up.
proof fn lemma_newest_scan_stays(locations: Seq<LocationView>)
    requires
        locations.len() > 0,
    ensures
        capped(locations).len() == locations.len(),
        capped(locations).last().scan == locations.last().scan,
    decreases locations.len(),
{
    let rest = locations.drop_first();
    lemma_capped(locations);
    if rest.len() > 0 {
        lemma_newest_scan_stays(rest);
        assert(capped(locations).last() == capped(rest).last());
        assert(rest.last() == locations.last());
    } else {
        reveal_with_fuel(live_scans, 2);
        assert(capped(locations)[0] == locations[0]);
    }
}

/// What a scan reports goes to the location that it belongs to, and to no other.
pub proof fn reports_go_to_their_location(
    state: AnalyzeView,
    scan: u64,
    updates: Seq<ScanUpdate>,
    lost: bool,
    i: int,
)
    requires
        0 <= i < state.locations.len(),
    ensures
        fed(state, scan, updates, lost).locations.len() == state.locations.len(),
        state.locations[i].scan == Some(scan) ==> fed(state, scan, updates, lost).locations[i]
            == drained(state.locations[i], updates, 0, lost),
        state.locations[i].scan != Some(scan) ==> fed(state, scan, updates, lost).locations[i]
            == state.locations[i],
{
}

/// What is typed is added to the filter and taken off again; Enter keeps it and Escape clears it.
pub proof fn filter_is_typed(state: AnalyzeView, c: char)
    ensures
        filter_typed(state, Key::Char(c)).filter == state.filter.push(c),
        filter_typed(filter_typed(state, Key::Char(c)), Key::Backspace).filter == state.filter,
        filter_typed(state, Key::Enter).filter == state.filter && !filter_typed(
            state,
            Key::Enter,
        ).filtering,
        filter_typed(state, Key::Esc).filter.len() == 0 && !filter_typed(state, Key::Esc).filtering,
{
    reveal_strlit("");
    assert(state.filter.push(c).drop_last() =~= state.filter);
}

/// What is confirmed is removed as it was shown: each entry by its own path and size, and by force
/// exactly where force was asked for.
pub proof fn confirmed_entries_are_removed(state: &AnalyzeState, items: Vec<CleanupItem>, k: int)
    requires
        call_ensures(AnalyzeState::removal_items, (state,), items),
        0 <= k < state@.pending_delete.len(),
    ensures
        items@.len() == state@.pending_delete.len(),
        items@[k]@.action == (ActionView::RemovePersonalFile {
            path: state@.pending_delete[k].0,
            force: state@.pending_delete[k].1.force,
        }),
        items@[k].estimated_bytes == state@.pending_delete[k].1.size,
{
    assert(item_views(items@).len() == items@.len());
    assert(item_views(items@)[k] == items@[k]@);
}

} // verus!
