//! What the screens show, as text.
use vstd::prelude::*;
use vstd::string::*;

use crate::analyze::{saturating, DiskEntry, LargeFile};
use crate::cli::information::{
    add_reclaimed, count_succeeded, reclaimed_bytes, succeeded_count,
};
use crate::cli::support::{add_covered, covered_bytes, successes_are_covered};
use crate::cli::uninstall::{truncate, truncated};
use crate::history::HistoryRecord;
use crate::model::{group_title, ActionResult, CleanupItem};
use crate::number::{count_text, decimal, decimal_text};
use crate::path::parts;
use crate::path_map::{lemma_viewed_place, place_of, viewed, PathMap};
use crate::purge::PurgeCandidate;
use crate::size::{format_bytes, size_text};
use crate::status::{DiskStatus, SystemStatus};
use crate::text::{
    has_infix, has_prefix, is_in, join, joined, kept, kept_in_order, list5, occurs_at, pad_left,
    pad_right, padded_left, padded_right, push_text, texts,
};
use crate::time::{date_or_unknown, duration_text, format_duration, or_unknown, utc_format, utc_text};
use crate::tui::analyze::{
    active, removal_bytes, removal_view, shown_entries, shown_files, total_removal, AnalyzeMode,
    AnalyzeState, AnalyzeView, PendingRemoval,
};
use crate::tui::execution::WorkflowResult;
use crate::tui::location::{entry_view, file_view, has_items};
use crate::tui::menu::{action_subtitle, action_title, subtitle_of, title_of};
use crate::tui::selection::{
    personal_file_refusal_tag, personal_file_selectability, refusal_tag, selectability, Candidate,
    PersonalFileRefusal,
};
use crate::tui::workflow::{
    row_count, selectable_data, selected_bytes, selected_workflow_bytes, shown_disks,
    workflow_is_selectable, WorkflowData, WorkflowState,
};
use crate::uninstall::{source_name, Application, UninstallPreview};
use crate::update::UpdateInfo;

verus! {

/// How the first line of a window is set off.
#[derive(Debug, Clone, Copy, PartialEq, Eq, Structural)]
pub enum Tone {
    Plain,
    Good,
    Caution,
    Danger,
}

/// A window in front of a screen.
#[derive(Debug, PartialEq, Eq)]
pub struct Overlay {
    pub title: String,
    pub tone: Tone,
    pub lines: Vec<String>,
    /// The line that warns, where there is one.
    pub warning: Option<usize>,
    pub width_percent: u16,
    pub height: u16,
}

pub struct OverlayView {
    pub title: Seq<char>,
    pub tone: Tone,
    pub lines: Seq<Seq<char>>,
    pub warning: Option<usize>,
    pub width_percent: u16,
    pub height: u16,
}

impl View for Overlay {
    type V = OverlayView;

    open spec fn view(&self) -> OverlayView {
        OverlayView {
            title: self.title@,
            tone: self.tone,
            lines: texts(self.lines@),
            warning: self.warning,
            width_percent: self.width_percent,
            height: self.height,
        }
    }
}

pub open spec fn optional_overlay(overlay: Option<Overlay>) -> Option<OverlayView> {
    match overlay {
        Some(overlay) => Some(overlay@),
        None => None,
    }
}

/// The main part of a screen.
#[derive(Debug, PartialEq, Eq)]
pub enum Body {
    Nothing,
    /// Work goes on in the background.
    Progress(String),
    Failure(String),
    Rows(Vec<String>),
}

pub enum BodyView {
    Nothing,
    Progress(Seq<char>),
    Failure(Seq<char>),
    Rows(Seq<Seq<char>>),
}

impl View for Body {
    type V = BodyView;

    open spec fn view(&self) -> BodyView {
        match self {
            Body::Nothing => BodyView::Nothing,
            Body::Progress(text) => BodyView::Progress(text@),
            Body::Failure(text) => BodyView::Failure(text@),
            Body::Rows(rows) => BodyView::Rows(texts(rows@)),
        }
    }
}

/// A screen: its heading, its main part with a title of its own, its footer, and a window in
/// front of it.
#[derive(Debug, PartialEq, Eq)]
pub struct ScreenText {
    pub heading: Vec<String>,
    pub body_title: String,
    pub body: Body,
    pub footer: Vec<String>,
    pub overlay: Option<Overlay>,
}

pub struct ScreenTextView {
    pub heading: Seq<Seq<char>>,
    pub body_title: Seq<char>,
    pub body: BodyView,
    pub footer: Seq<Seq<char>>,
    pub overlay: Option<OverlayView>,
}

impl View for ScreenText {
    type V = ScreenTextView;

    open spec fn view(&self) -> ScreenTextView {
        ScreenTextView {
            heading: texts(self.heading@),
            body_title: self.body_title@,
            body: self.body@,
            footer: texts(self.footer@),
            overlay: optional_overlay(self.overlay),
        }
    }
}

/// The frames of a spinner.
pub open spec fn frame_text(spinner: usize) -> Seq<char> {
    if spinner == 0 {
        "⠋"@
    } else if spinner == 1 {
        "⠙"@
    } else if spinner == 2 {
        "⠹"@
    } else {
        "⠸"@
    }
}

pub fn spinner_frame(spinner: usize) -> (r: &'static str)
    ensures
        r@ == frame_text(spinner),
{
    if spinner == 0 {
        "⠋"
    } else if spinner == 1 {
        "⠙"
    } else if spinner == 2 {
        "⠹"
    } else {
        "⠸"
    }
}

// ---------------------------------------------------------------------------------------
// Rows of the explorer
// ---------------------------------------------------------------------------------------

pub open spec fn marker_text(selected: bool, selectable: bool) -> Seq<char> {
    if selected {
        "●"@
    } else if selectable {
        "○"@
    } else {
        " "@
    }
}

pub fn selection_marker(selected: bool, selectable: bool) -> (r: &'static str)
    ensures
        r@ == marker_text(selected, selectable),
{
    if selected {
        "●"
    } else if selectable {
        "○"
    } else {
        " "
    }
}

/// What stands behind a row that cannot be selected.
pub open spec fn refusal_note(verdict: Result<(), PersonalFileRefusal>) -> Seq<char> {
    match verdict {
        Ok(()) => ""@,
        Err(refusal) => "  ("@ + refusal_tag(refusal) + ")"@,
    }
}

fn note_of(verdict: Result<(), PersonalFileRefusal>) -> (r: String)
    ensures
        r@ == refusal_note(verdict),
{
    match verdict {
        Ok(()) => "".to_owned(),
        Err(refusal) => {
            "  (".to_owned().concat(personal_file_refusal_tag(refusal).as_str()).concat(")")
        },
    }
}

/// What is drawn into a row: its share of the whole, as a number and as a bar, and whether it
/// holds an entry named `.git`.
#[derive(Debug, PartialEq, Eq)]
pub struct RowFacts {
    pub percent: String,
    pub bar: String,
    pub git_root: bool,
}

pub open spec fn entry_label(
    entry: DiskEntry,
    facts: RowFacts,
    selected: bool,
    verdict: Result<(), PersonalFileRefusal>,
) -> Seq<char> {
    marker_text(selected, verdict is Ok) + " "@ + padded_left(facts.percent@, 5) + "% "@
        + facts.bar@ + " "@ + (if entry.is_dir {
        "▸"@
    } else {
        " "@
    }) + " "@ + entry.name@ + "  "@ + padded_left(size_text(entry.size as nat), 10) + refusal_note(
        verdict,
    )
}

/// The row of an entry.
pub fn disk_item(
    entry: &DiskEntry,
    facts: &RowFacts,
    selected: bool,
    verdict: Result<(), PersonalFileRefusal>,
) -> (r: String)
    ensures
        r@ == entry_label(*entry, *facts, selected, verdict),
{
    let marker = selection_marker(selected, verdict.is_ok());
    let icon = if entry.is_dir {
        "▸"
    } else {
        " "
    };
    let size = format_bytes(entry.size);
    marker.to_owned().concat(" ").concat(pad_left(facts.percent.as_str(), 5).as_str()).concat(
        "% ",
    ).concat(facts.bar.as_str()).concat(" ").concat(icon).concat(" ").concat(
        entry.name.as_str(),
    ).concat("  ").concat(pad_left(size.as_str(), 10).as_str()).concat(note_of(verdict).as_str())
}

pub open spec fn large_file_label(
    file: LargeFile,
    facts: RowFacts,
    selected: bool,
    verdict: Result<(), PersonalFileRefusal>,
) -> Seq<char> {
    marker_text(selected, verdict is Ok) + " "@ + padded_left(facts.percent@, 5) + "% "@
        + facts.bar@ + "   "@ + file.path@ + "  "@ + padded_left(size_text(file.size as nat), 10)
        + refusal_note(verdict)
}

/// The row of a large file.
pub fn file_item(
    file: &LargeFile,
    facts: &RowFacts,
    selected: bool,
    verdict: Result<(), PersonalFileRefusal>,
) -> (r: String)
    ensures
        r@ == large_file_label(*file, *facts, selected, verdict),
{
    let marker = selection_marker(selected, verdict.is_ok());
    let size = format_bytes(file.size);
    marker.to_owned().concat(" ").concat(pad_left(facts.percent.as_str(), 5).as_str()).concat(
        "% ",
    ).concat(facts.bar.as_str()).concat("   ").concat(file.path.as_str()).concat("  ").concat(
        pad_left(size.as_str(), 10).as_str(),
    ).concat(note_of(verdict).as_str())
}

/// The row of the `i`-th entry that is shown.
pub open spec fn shown_entry_label(
    state: AnalyzeView,
    entry: DiskEntry,
    facts: RowFacts,
) -> Seq<char> {
    entry_label(
        entry,
        facts,
        place_of(state.selected_files, parts(entry.path@), 0) is Some,
        selectability(
            state.home,
            entry.path@,
            Candidate { is_dir: entry.is_dir, git_root: facts.git_root, size: entry.size },
            false,
        ),
    )
}

pub open spec fn shown_file_label(
    state: AnalyzeView,
    file: LargeFile,
    facts: RowFacts,
) -> Seq<char> {
    large_file_label(
        file,
        facts,
        place_of(state.selected_files, parts(file.path@), 0) is Some,
        selectability(
            state.home,
            file.path@,
            Candidate { is_dir: false, git_root: facts.git_root, size: file.size },
            false,
        ),
    )
}

/// `labels` are the rows that the explorer shows, as many as there are facts for.
pub open spec fn are_row_labels(
    state: AnalyzeView,
    facts: Seq<RowFacts>,
    labels: Seq<Seq<char>>,
) -> bool {
    match state.mode {
        AnalyzeMode::Browse => exists|entries: Seq<DiskEntry>|
            {
                &&& #[trigger] entries.map_values(entry_view()) == shown_entries(state)
                &&& labels.len() == if entries.len() < facts.len() {
                    entries.len()
                } else {
                    facts.len()
                }
                &&& forall|i: int|
                    0 <= i < labels.len() ==> #[trigger] labels[i] == shown_entry_label(
                        state,
                        entries[i],
                        facts[i],
                    )
            },
        AnalyzeMode::TopFiles => exists|files: Seq<LargeFile>|
            {
                &&& #[trigger] files.map_values(file_view()) == shown_files(state)
                &&& labels.len() == if files.len() < facts.len() {
                    files.len()
                } else {
                    facts.len()
                }
                &&& forall|i: int|
                    0 <= i < labels.len() ==> #[trigger] labels[i] == shown_file_label(
                        state,
                        files[i],
                        facts[i],
                    )
            },
    }
}

/// The rows that the explorer shows.
pub fn render_items(state: &AnalyzeState, facts: &Vec<RowFacts>) -> (r: Vec<String>)
    requires
        state.well_formed(),
    ensures
        are_row_labels(state@, facts@, texts(r@)),
{
    let mut out: Vec<String> = Vec::new();
    let mut i: usize = 0;
    match state.mode {
        AnalyzeMode::Browse => {
            let entries = state.visible_entries();
            while i < entries.len() && i < facts.len()
                invariant
                    i <= entries@.len(),
                    i <= facts@.len(),
                    texts(out@).len() == i,
                    forall|j: int|
                        0 <= j < i ==> #[trigger] texts(out@)[j] == shown_entry_label(
                            state@,
                            entries@[j],
                            facts@[j],
                        ),
                decreases entries.len() - i,
            {
                let entry = &entries[i];
                proof {
                    lemma_viewed_place(
                        state.selected_files.entries@,
                        removal_view(),
                        parts(entry.path@),
                        0,
                    );
                }
                let selected = state.selected_files.contains(entry.path.as_str());
                let verdict = personal_file_selectability(
                    state.home.as_str(),
                    entry.path.as_str(),
                    Candidate { is_dir: entry.is_dir, git_root: facts[i].git_root, size: entry.size },
                );
                push_text(&mut out, disk_item(entry, &facts[i], selected, verdict));
                i = i + 1;
            }
            proof {
                assert(entries@.map_values(entry_view()) == shown_entries(state@));
            }
        },
        AnalyzeMode::TopFiles => {
            let files = state.visible_large_files();
            while i < files.len() && i < facts.len()
                invariant
                    i <= files@.len(),
                    i <= facts@.len(),
                    texts(out@).len() == i,
                    forall|j: int|
                        0 <= j < i ==> #[trigger] texts(out@)[j] == shown_file_label(
                            state@,
                            files@[j],
                            facts@[j],
                        ),
                decreases files.len() - i,
            {
                let file = &files[i];
                proof {
                    lemma_viewed_place(
                        state.selected_files.entries@,
                        removal_view(),
                        parts(file.path@),
                        0,
                    );
                }
                let selected = state.selected_files.contains(file.path.as_str());
                let verdict = personal_file_selectability(
                    state.home.as_str(),
                    file.path.as_str(),
                    Candidate { is_dir: false, git_root: facts[i].git_root, size: file.size },
                );
                push_text(&mut out, file_item(file, &facts[i], selected, verdict));
                i = i + 1;
            }
            proof {
                assert(files@.map_values(file_view()) == shown_files(state@));
            }
        },
    }
    out
}

// ---------------------------------------------------------------------------------------
// Windows of the explorer
// ---------------------------------------------------------------------------------------

/// The rule that a forced removal overrides, in a few words.
pub open spec fn overridden(home: Seq<char>, entry: (Seq<char>, PendingRemoval), git_root: bool) -> Option<
    Seq<char>,
> {
    if !entry.1.force {
        None
    } else {
        match selectability(
            home,
            entry.0,
            Candidate { is_dir: entry.1.is_dir, git_root, size: entry.1.size },
            false,
        ) {
            Ok(()) => None,
            Err(refusal) => Some(refusal_tag(refusal)),
        }
    }
}

/// The rules that the first `count` removals override, each once.
pub open spec fn overridden_rules(
    home: Seq<char>,
    pending: Seq<(Seq<char>, PendingRemoval)>,
    git_roots: Seq<bool>,
    count: int,
) -> Seq<Seq<char>>
    decreases count,
{
    if count <= 0 {
        Seq::empty()
    } else {
        let before = overridden_rules(home, pending, git_roots, count - 1);
        let git_root = count - 1 < git_roots.len() && git_roots[count - 1];
        match overridden(home, pending[count - 1], git_root) {
            Some(tag) => if before.contains(tag) {
                before
            } else {
                before.push(tag)
            },
            None => before,
        }
    }
}

pub open spec fn some_directory(pending: Seq<(Seq<char>, PendingRemoval)>) -> bool {
    exists|i: int| 0 <= i < pending.len() && (#[trigger] pending[i]).1.is_dir
}

pub open spec fn some_forced(pending: Seq<(Seq<char>, PendingRemoval)>) -> bool {
    exists|i: int| 0 <= i < pending.len() && (#[trigger] pending[i]).1.force
}

/// The question before a removal. It says when directories go with all that they hold, and
/// which rules a forced removal overrides.
pub open spec fn delete_question(
    home: Seq<char>,
    pending: Seq<(Seq<char>, PendingRemoval)>,
    git_roots: Seq<bool>,
) -> OverlayView {
    let rules = overridden_rules(home, pending, git_roots, pending.len() as int);
    OverlayView {
        title: " Confirm removal "@,
        tone: Tone::Danger,
        lines: seq![
            if some_forced(pending) {
                "FORCE removal: permanently remove?"@
            } else {
                "Permanently remove?"@
            },
            ""@,
            if pending.len() == 1 {
                pending[0].0
            } else {
                decimal(pending.len()) + " selected files"@
            },
        ] + (if rules.len() > 0 {
            seq!["overriding: "@ + joined(rules, ", "@)]
        } else {
            seq![]
        }) + (if some_directory(pending) {
            seq![
                "This is a directory: it and all of its contents will be permanently removed."@,
            ]
        } else {
            seq![]
        }) + seq![
            "Total: "@ + size_text(saturating(removal_bytes(pending) as int) as nat),
            ""@,
            "Enter: confirm   Esc: cancel"@,
        ],
        warning: if !some_directory(pending) {
            None
        } else if rules.len() > 0 {
            Some(4)
        } else {
            Some(3)
        },
        width_percent: 70,
        height: if some_directory(pending) {
            11
        } else {
            9
        },
    }
}

fn has_directory(pending: &PathMap<PendingRemoval>) -> (r: bool)
    ensures
        r == some_directory(viewed(pending.entries@, removal_view())),
{
    let ghost views = viewed(pending.entries@, removal_view());
    let mut i: usize = 0;
    while i < pending.entries.len()
        invariant
            i <= pending.entries@.len(),
            views == viewed(pending.entries@, removal_view()),
            forall|j: int| 0 <= j < i ==> !(#[trigger] views[j]).1.is_dir,
        decreases pending.entries.len() - i,
    {
        if pending.entries[i].1.is_dir {
            proof {
                assert(views[i as int].1.is_dir);
            }
            return true;
        }
        i = i + 1;
    }
    false
}

fn has_forced(pending: &PathMap<PendingRemoval>) -> (r: bool)
    ensures
        r == some_forced(viewed(pending.entries@, removal_view())),
{
    let ghost views = viewed(pending.entries@, removal_view());
    let mut i: usize = 0;
    while i < pending.entries.len()
        invariant
            i <= pending.entries@.len(),
            views == viewed(pending.entries@, removal_view()),
            forall|j: int| 0 <= j < i ==> !(#[trigger] views[j]).1.force,
        decreases pending.entries.len() - i,
    {
        if pending.entries[i].1.force {
            proof {
                assert(views[i as int].1.force);
            }
            return true;
        }
        i = i + 1;
    }
    false
}

fn list_overridden(home: &str, pending: &PathMap<PendingRemoval>, git_roots: &Vec<bool>) -> (r: Vec<
    String,
>)
    ensures
        texts(r@) == overridden_rules(
            home@,
            viewed(pending.entries@, removal_view()),
            git_roots@,
            pending.entries@.len() as int,
        ),
{
    let ghost views = viewed(pending.entries@, removal_view());
    let mut out: Vec<String> = Vec::new();
    let mut i: usize = 0;
    proof {
        assert(texts(out@) =~= Seq::empty());
    }
    while i < pending.entries.len()
        invariant
            i <= pending.entries@.len(),
            views == viewed(pending.entries@, removal_view()),
            texts(out@) == overridden_rules(home@, views, git_roots@, i as int),
        decreases pending.entries.len() - i,
    {
        let (path, removal) = &pending.entries[i];
        proof {
            assert(views[i as int] == (path@, *removal));
        }
        if removal.force {
            let git_root = i < git_roots.len() && git_roots[i];
            match personal_file_selectability(
                home,
                path.as_str(),
                Candidate { is_dir: removal.is_dir, git_root, size: removal.size },
            ) {
                Ok(()) => {},
                Err(refusal) => {
                    let tag = personal_file_refusal_tag(refusal);
                    if !is_in(&out, tag.as_str()) {
                        push_text(&mut out, tag);
                    }
                },
            }
        }
        i = i + 1;
    }
    out
}

/// The question before a removal. `git_roots` says for each path whether it holds an entry
/// named `.git`.
pub fn delete_confirmation(state: &AnalyzeState, git_roots: &Vec<bool>) -> (r: Overlay)
    ensures
        r@ == delete_question(state.home@, state@.pending_delete, git_roots@),
{
    let pending = &state.pending_delete;
    let ghost views = viewed(pending.entries@, removal_view());
    proof {
        assert(views.len() == pending.entries@.len());
    }
    let forced = has_forced(pending);
    let directory = has_directory(pending);
    let rules = list_overridden(state.home.as_str(), pending, git_roots);
    proof {
        assert(texts(rules@).len() == rules@.len());
    }
    let mut lines: Vec<String> = Vec::new();
    push_text(
        &mut lines,
        (if forced {
            "FORCE removal: permanently remove?"
        } else {
            "Permanently remove?"
        }).to_owned(),
    );
    push_text(&mut lines, "".to_owned());
    if pending.entries.len() == 1 {
        proof {
            assert(views[0].0 == pending.entries@[0].0@);
        }
        push_text(&mut lines, pending.entries[0].0.clone());
    } else {
        push_text(&mut lines, count_text(pending.entries.len()).concat(" selected files"));
    }
    if rules.len() > 0 {
        push_text(&mut lines, "overriding: ".to_owned().concat(join(&rules, ", ").as_str()));
    }
    let mut warning: Option<usize> = None;
    if directory {
        warning = Some(lines.len());
        push_text(
            &mut lines,
            "This is a directory: it and all of its contents will be permanently removed.".to_owned(),
        );
    }
    push_text(
        &mut lines,
        "Total: ".to_owned().concat(format_bytes(total_removal(pending)).as_str()),
    );
    push_text(&mut lines, "".to_owned());
    push_text(&mut lines, "Enter: confirm   Esc: cancel".to_owned());
    let height: u16 = if directory {
        11
    } else {
        9
    };
    let overlay = Overlay {
        title: " Confirm removal ".to_owned(),
        tone: Tone::Danger,
        lines,
        warning,
        width_percent: 70,
        height,
    };
    proof {
        assert(overlay@.lines =~= delete_question(state.home@, views, git_roots@).lines);
    }
    overlay
}

/// The first three failures, as they are shown.
pub open spec fn failure_lines(results: Seq<ActionResult>) -> Seq<Seq<char>> {
    let all = kept(
        results,
        |result: ActionResult|
            if result.success {
                None
            } else {
                Some("Failed: "@ + result.message@)
            },
    );
    if all.len() > 3 {
        all.take(3)
    } else {
        all
    }
}

fn add_failures(out: &mut Vec<String>, results: &Vec<ActionResult>)
    ensures
        texts(final(out)@) == texts(old(out)@) + failure_lines(results@),
{
    let ghost start = texts(out@);
    let ghost keep = |result: ActionResult|
        if result.success {
            None
        } else {
            Some("Failed: "@ + result.message@)
        };
    let mut list: Vec<String> = Vec::new();
    let mut i: usize = 0;
    while i < results.len()
        invariant
            i <= results@.len(),
            keep == (|result: ActionResult|
                if result.success {
                    None
                } else {
                    Some("Failed: "@ + result.message@)
                }),
            texts(list@) =~= kept(results@.take(i as int), keep),
        decreases results.len() - i,
    {
        proof {
            assert(results@.take(i + 1).drop_last() =~= results@.take(i as int));
        }
        if !results[i].success {
            push_text(&mut list, "Failed: ".to_owned().concat(results[i].message.as_str()));
        }
        i = i + 1;
    }
    proof {
        assert(results@.take(results@.len() as int) =~= results@);
        assert(texts(list@).len() == list@.len());
    }
    if list.len() > 3 {
        let ghost whole = list@;
        list.truncate(3);
        proof {
            assert(texts(list@) =~= texts(whole).take(3));
        }
    }
    let ghost added = texts(list@);
    out.append(&mut list);
    proof {
        assert(texts(out@) =~= start + added);
    }
}

/// The bytes of the actions that succeeded, as far as 64 bits reach.
fn covered_total(results: &Vec<ActionResult>) -> (r: u64)
    ensures
        r == saturating(covered_bytes(results@) as int),
{
    match add_covered(results) {
        Some(bytes) => bytes,
        None => u64::MAX,
    }
}

/// A result is good where everything succeeded.
pub open spec fn result_tone(results: Seq<ActionResult>) -> Tone {
    if succeeded_count(results) == results.len() {
        Tone::Good
    } else {
        Tone::Caution
    }
}

fn tone_of(results: &Vec<ActionResult>) -> (r: Tone)
    ensures
        r == result_tone(results@),
{
    if count_succeeded(results) == results.len() {
        Tone::Good
    } else {
        Tone::Caution
    }
}

/// How a removal ended.
pub open spec fn removal_result(results: Seq<ActionResult>) -> OverlayView {
    OverlayView {
        title: " Result "@,
        tone: result_tone(results),
        lines: seq![
            decimal(succeeded_count(results)) + "/"@ + decimal(results.len())
                + " permanently removed"@,
            "Space covered: "@ + size_text(saturating(covered_bytes(results) as int) as nat),
            ""@,
        ] + failure_lines(results) + seq!["Enter or Esc: continue"@],
        warning: None,
        width_percent: 70,
        height: 9,
    }
}

pub fn removal_result_overlay(results: &Vec<ActionResult>) -> (r: Overlay)
    ensures
        r@ == removal_result(results@),
{
    let mut lines: Vec<String> = Vec::new();
    push_text(
        &mut lines,
        count_text(count_succeeded(results)).concat("/").concat(
            count_text(results.len()).as_str(),
        ).concat(" permanently removed"),
    );
    push_text(
        &mut lines,
        "Space covered: ".to_owned().concat(format_bytes(covered_total(results)).as_str()),
    );
    push_text(&mut lines, "".to_owned());
    add_failures(&mut lines, results);
    push_text(&mut lines, "Enter or Esc: continue".to_owned());
    let overlay = Overlay {
        title: " Result ".to_owned(),
        tone: tone_of(results),
        lines,
        warning: None,
        width_percent: 70,
        height: 9,
    };
    proof {
        assert(overlay@.lines =~= removal_result(results@).lines);
    }
    overlay
}

/// The keys of the explorer.
pub open spec fn help_window() -> OverlayView {
    OverlayView {
        title: " Analyze help "@,
        tone: Tone::Plain,
        lines: seq![
            "↑/↓ or j/k     Move selection"@,
            "Enter or →     Open directory"@,
            "Space          Select a personal file"@,
            "d/Delete       Permanently remove selection"@,
            "/              Filter current list"@,
            "t              Toggle top large files"@,
            "r              Refresh current location"@,
            "Esc or ←       Back"@,
            "q              Quit TuxCleaner"@,
            ""@,
            "Press ? or Esc to close"@,
        ],
        warning: None,
        width_percent: 66,
        height: 15,
    }
}

pub fn help_overlay() -> (r: Overlay)
    ensures
        r@ == help_window(),
{
    let mut lines: Vec<String> = Vec::new();
    push_text(&mut lines, "↑/↓ or j/k     Move selection".to_owned());
    push_text(&mut lines, "Enter or →     Open directory".to_owned());
    push_text(&mut lines, "Space          Select a personal file".to_owned());
    push_text(&mut lines, "d/Delete       Permanently remove selection".to_owned());
    push_text(&mut lines, "/              Filter current list".to_owned());
    push_text(&mut lines, "t              Toggle top large files".to_owned());
    push_text(&mut lines, "r              Refresh current location".to_owned());
    push_text(&mut lines, "Esc or ←       Back".to_owned());
    push_text(&mut lines, "q              Quit TuxCleaner".to_owned());
    push_text(&mut lines, "".to_owned());
    push_text(&mut lines, "Press ? or Esc to close".to_owned());
    let overlay = Overlay {
        title: " Analyze help ".to_owned(),
        tone: Tone::Plain,
        lines,
        warning: None,
        width_percent: 66,
        height: 15,
    };
    proof {
        assert(overlay@.lines =~= help_window().lines);
    }
    overlay
}

// ---------------------------------------------------------------------------------------
// The explorer
// ---------------------------------------------------------------------------------------

/// The heading of the explorer: where it is, and what is known of that.
pub open spec fn analyze_heading(state: AnalyzeView) -> Seq<Seq<char>> {
    let location = active(state);
    seq![
        "TuxCleaner › Analyze"@,
        if has_items(location) {
            location.path + "  ·  "@ + size_text(location.total_size as nat) + " across "@ + decimal(
                location.total_files as nat,
            ) + " files"@ + (if location.scan is Some && !location.complete {
                " (scanning…)"@
            } else {
                ""@
            })
        } else {
            location.path
        },
    ]
}

/// The first line of the footer: the filter, or what is selected, or the message.
pub open spec fn analyze_message(state: AnalyzeView) -> Seq<char> {
    if state.filtering {
        "Filter: "@ + state.filter + "▌"@
    } else if state.filter.len() > 0 {
        "Filter: "@ + state.filter
    } else if state.selected_files.len() == 0 {
        state.status
    } else {
        decimal(state.selected_files.len()) + " selected · "@ + size_text(
            saturating(removal_bytes(state.selected_files) as int) as nat,
        )
    }
}

pub open spec fn analyze_footer(state: AnalyzeView) -> Seq<Seq<char>> {
    if state.filtering {
        seq![analyze_message(state), "Type to filter   Enter: apply   Esc: clear"@]
    } else {
        seq![
            analyze_message(state),
            "↑/↓ move   Enter open   Space select   d Delete   / filter"@,
            "t top   r refresh   Esc back   ? help   q quit"@,
        ]
    }
}

pub open spec fn analyze_body_title(state: AnalyzeView) -> Seq<char> {
    let location = active(state);
    if (!has_items(location) && !location.complete) || location.error is Some || state.mode
        == AnalyzeMode::Browse {
        " Files "@
    } else {
        " Top large files "@
    }
}

/// The main part of the explorer: a first scan under way, a scan that failed, or the rows.
pub open spec fn is_analyze_body(state: AnalyzeView, facts: Seq<RowFacts>, body: BodyView) -> bool {
    let location = active(state);
    if !has_items(location) && !location.complete && location.error is None {
        body == BodyView::Progress("\n  "@ + frame_text(state.spinner) + " Scanning disk usage..."@)
    } else {
        match location.error {
            Some(error) => body == BodyView::Failure("\n  Scan failed: "@ + error),
            None => body matches BodyView::Rows(labels) && are_row_labels(state, facts, labels),
        }
    }
}

/// The window in front of the explorer. The results are given as they are held.
pub open spec fn analyze_overlay(state: AnalyzeState, git_roots: Seq<bool>) -> Option<OverlayView> {
    if state.confirming_delete {
        Some(delete_question(state.home@, state@.pending_delete, git_roots))
    } else {
        match state.results {
            Some(results) => Some(removal_result(results@)),
            None => if state.show_help {
                Some(help_window())
            } else {
                None
            },
        }
    }
}

/// The explorer as text. `facts` belong to the rows that are shown, `git_roots` to the paths
/// that are to be removed.
pub fn analyze_screen(
    state: &AnalyzeState,
    facts: &Vec<RowFacts>,
    git_roots: &Vec<bool>,
) -> (r: ScreenText)
    requires
        state.well_formed(),
    ensures
        r@.heading == analyze_heading(state@),
        r@.body_title == analyze_body_title(state@),
        is_analyze_body(state@, facts@, r@.body),
        r@.footer == analyze_footer(state@),
        r@.overlay == analyze_overlay(*state, git_roots@),
{
    let location = state.active();
    let has_data = location.has_data();
    let mut heading: Vec<String> = Vec::new();
    push_text(&mut heading, "TuxCleaner › Analyze".to_owned());
    if has_data {
        let suffix = if location.scan.is_some() && !location.complete {
            " (scanning…)"
        } else {
            ""
        };
        push_text(
            &mut heading,
            location.path.clone().concat("  ·  ").concat(
                format_bytes(location.total_size).as_str(),
            ).concat(" across ").concat(decimal_text(location.total_files).as_str()).concat(
                " files",
            ).concat(suffix),
        );
    } else {
        push_text(&mut heading, location.path.clone());
    }
    let first = !has_data && !location.complete;
    let failed = location.error.is_some();
    let browse = state.mode == AnalyzeMode::Browse;
    let body_title = if first || failed || browse {
        " Files "
    } else {
        " Top large files "
    };
    let body = if first && !failed {
        Body::Progress(
            "\n  ".to_owned().concat(spinner_frame(state.spinner)).concat(
                " Scanning disk usage...",
            ),
        )
    } else {
        match &location.error {
            Some(error) => {
                Body::Failure("\n  Scan failed: ".to_owned().concat(error.as_str()))
            },
            None => Body::Rows(render_items(state, facts)),
        }
    };
    proof {
        assert(state@.selected_files.len() == state.selected_files.entries@.len());
    }
    let message = if state.filtering {
        "Filter: ".to_owned().concat(state.filter.as_str()).concat("▌")
    } else if state.filter.as_str().unicode_len() > 0 {
        "Filter: ".to_owned().concat(state.filter.as_str())
    } else if state.selected_files.is_empty() {
        state.status.clone()
    } else {
        count_text(state.selected_files.entries.len()).concat(" selected · ").concat(
            format_bytes(total_removal(&state.selected_files)).as_str(),
        )
    };
    let mut footer: Vec<String> = Vec::new();
    push_text(&mut footer, message);
    if state.filtering {
        push_text(&mut footer, "Type to filter   Enter: apply   Esc: clear".to_owned());
    } else {
        push_text(
            &mut footer,
            "↑/↓ move   Enter open   Space select   d Delete   / filter".to_owned(),
        );
        push_text(&mut footer, "t top   r refresh   Esc back   ? help   q quit".to_owned());
    }
    let overlay = if state.confirming_delete {
        Some(delete_confirmation(state, git_roots))
    } else {
        match &state.results {
            Some(results) => Some(removal_result_overlay(results)),
            None => if state.show_help {
                Some(help_overlay())
            } else {
                None
            },
        }
    };
    let r = ScreenText { heading, body_title: body_title.to_owned(), body, footer, overlay };
    proof {
        assert(r@.heading =~= analyze_heading(state@));
        assert(r@.footer =~= analyze_footer(state@));
    }
    r
}

// ---------------------------------------------------------------------------------------
// Rows of a workflow
// ---------------------------------------------------------------------------------------

pub open spec fn clean_row(item: CleanupItem, selected: bool) -> Seq<char> {
    marker_text(selected, true) + " "@ + padded_left(size_text(item.estimated_bytes as nat), 10)
        + "  "@ + group_title(item.group) + " · "@ + item.label@
}

pub open spec fn uninstall_row(application: Application, selected: bool) -> Seq<char> {
    marker_text(selected, true) + " "@ + padded_left(
        size_text(application.installed_bytes as nat),
        10,
    ) + "  "@ + truncated(application.name@, 30) + " · "@ + source_name(application.source) + " · "@
        + application.package@
}

pub open spec fn purge_row(candidate: PurgeCandidate, selected: bool) -> Seq<char> {
    marker_text(selected, true) + " "@ + padded_left(size_text(candidate.size as nat), 10) + "  "@
        + candidate.kind@ + " · "@ + decimal(candidate.age_days as nat) + " days · "@
        + candidate.path@
}

pub open spec fn disk_row(disk: DiskStatus, percent: Seq<char>) -> Seq<char> {
    "  "@ + padded_right(disk.mount@, 20) + " "@ + padded_left(
        size_text(disk.used_bytes as nat),
        10,
    ) + " / "@ + padded_left(size_text(disk.total_bytes as nat), 10) + " ("@ + padded_left(
        percent,
        5,
    ) + "%)"@
}

/// The rows of a status.
pub open spec fn status_rows(status: SystemStatus) -> Seq<Seq<char>> {
    seq![
        "Host       "@ + status.hostname@,
        "CPU        "@ + decimal(status.logical_cpus as nat) + " logical cores · load "@
            + status.load_average@[0]@ + " / "@ + status.load_average@[1]@ + " / "@
            + status.load_average@[2]@,
        "Memory     "@ + size_text(status.memory.used_bytes as nat) + " / "@ + size_text(
            status.memory.total_bytes as nat,
        ) + " used ("@ + status.memory_percent@ + "%)"@,
        "Uptime     "@ + duration_text(status.uptime_seconds as nat),
        ""@,
        "Disks"@,
    ] + Seq::new(
        shown_disks(status),
        |i: int| disk_row(status.disks@[i], status.disk_percents@[i]@),
    )
}

/// The row of a cleanup, where the time is known as text.
pub open spec fn history_row(record: HistoryRecord, time: Seq<char>) -> Seq<char> {
    time + "  "@ + padded_right(record.command@, 20) + "  "@ + decimal(
        succeeded_count(record.results@),
    ) + "/"@ + decimal(record.results@.len()) + " succeeded  "@ + size_text(
        saturating(reclaimed_bytes(record.results@) as int) as nat,
    )
}

pub open spec fn record_time(record: HistoryRecord) -> Seq<char> {
    date_or_unknown(utc_format(record.timestamp as int, "%Y-%m-%d %H:%M UTC"@))
}

pub open spec fn update_rows(info: UpdateInfo) -> Seq<Seq<char>> {
    seq![
        "Installed version   "@ + info.current_version@,
        "Available version   "@ + info.available_version@,
        "Target              "@ + info.target@,
        if info.update_available {
            "An update is available. Press Enter to review installation."@
        } else {
            "TuxCleaner is already up to date."@
        },
    ]
}

/// The rows of a workflow.
pub open spec fn workflow_rows(data: WorkflowData, selected: Seq<usize>) -> Seq<Seq<char>> {
    match data {
        WorkflowData::Clean(report) => Seq::new(
            report.items@.len(),
            |i: int| clean_row(report.items@[i], selected.contains(i as usize)),
        ),
        WorkflowData::Uninstall(report) => Seq::new(
            report.applications@.len(),
            |i: int| uninstall_row(report.applications@[i], selected.contains(i as usize)),
        ),
        WorkflowData::Purge(candidates) => Seq::new(
            candidates@.len(),
            |i: int| purge_row(candidates@[i], selected.contains(i as usize)),
        ),
        WorkflowData::Status(status) => status_rows(status),
        WorkflowData::History(records) => Seq::new(
            records@.len(),
            |i: int| history_row(records@[i], record_time(records@[i])),
        ),
        WorkflowData::Update(info) => update_rows(info),
    }
}

fn is_selected(selected: &Vec<usize>, index: usize) -> (r: bool)
    ensures
        r == selected@.contains(index),
{
    let mut i: usize = 0;
    while i < selected.len()
        invariant
            i <= selected@.len(),
            forall|j: int| 0 <= j < i ==> selected@[j] != index,
        decreases selected.len() - i,
    {
        if selected[i] == index {
            return true;
        }
        i = i + 1;
    }
    false
}

fn clean_text(item: &CleanupItem, selected: bool) -> (r: String)
    ensures
        r@ == clean_row(*item, selected),
{
    let size = format_bytes(item.estimated_bytes);
    selection_marker(selected, true).to_owned().concat(" ").concat(
        pad_left(size.as_str(), 10).as_str(),
    ).concat("  ").concat(item.group.title()).concat(" · ").concat(item.label.as_str())
}

fn uninstall_text(application: &Application, selected: bool) -> (r: String)
    ensures
        r@ == uninstall_row(*application, selected),
{
    let size = format_bytes(application.installed_bytes);
    selection_marker(selected, true).to_owned().concat(" ").concat(
        pad_left(size.as_str(), 10).as_str(),
    ).concat("  ").concat(truncate(application.name.as_str(), 30).as_str()).concat(" · ").concat(
        application.source.name(),
    ).concat(" · ").concat(application.package.as_str())
}

fn purge_text(candidate: &PurgeCandidate, selected: bool) -> (r: String)
    ensures
        r@ == purge_row(*candidate, selected),
{
    let size = format_bytes(candidate.size);
    selection_marker(selected, true).to_owned().concat(" ").concat(
        pad_left(size.as_str(), 10).as_str(),
    ).concat("  ").concat(candidate.kind.as_str()).concat(" · ").concat(
        decimal_text(candidate.age_days).as_str(),
    ).concat(" days · ").concat(candidate.path.as_str())
}

fn disk_text(disk: &DiskStatus, percent: &str) -> (r: String)
    ensures
        r@ == disk_row(*disk, percent@),
{
    let used = format_bytes(disk.used_bytes);
    let total = format_bytes(disk.total_bytes);
    "  ".to_owned().concat(pad_right(disk.mount.as_str(), 20).as_str()).concat(" ").concat(
        pad_left(used.as_str(), 10).as_str(),
    ).concat(" / ").concat(pad_left(total.as_str(), 10).as_str()).concat(" (").concat(
        pad_left(percent, 5).as_str(),
    ).concat("%)")
}

/// The row of a cleanup, where the time is known as text.
pub fn dated_history_row(record: &HistoryRecord, time: &str) -> (r: String)
    ensures
        r@ == history_row(*record, time@),
{
    let reclaimed: u64 = match add_reclaimed(&record.results) {
        Some(bytes) => bytes,
        None => u64::MAX,
    };
    time.to_owned().concat("  ").concat(pad_right(record.command.as_str(), 20).as_str()).concat(
        "  ",
    ).concat(count_text(count_succeeded(&record.results)).as_str()).concat("/").concat(
        count_text(record.results.len()).as_str(),
    ).concat(" succeeded  ").concat(format_bytes(reclaimed).as_str())
}

/// The rows of a status.
pub fn status_lines(status: &SystemStatus) -> (r: Vec<String>)
    ensures
        texts(r@) == status_rows(*status),
{
    let mut out: Vec<String> = Vec::new();
    push_text(&mut out, "Host       ".to_owned().concat(status.hostname.as_str()));
    push_text(
        &mut out,
        "CPU        ".to_owned().concat(count_text(status.logical_cpus).as_str()).concat(
            " logical cores · load ",
        ).concat(status.load_average[0].as_str()).concat(" / ").concat(
            status.load_average[1].as_str(),
        ).concat(" / ").concat(status.load_average[2].as_str()),
    );
    push_text(
        &mut out,
        "Memory     ".to_owned().concat(format_bytes(status.memory.used_bytes).as_str()).concat(
            " / ",
        ).concat(format_bytes(status.memory.total_bytes).as_str()).concat(" used (").concat(
            status.memory_percent.as_str(),
        ).concat("%)"),
    );
    push_text(
        &mut out,
        "Uptime     ".to_owned().concat(format_duration(status.uptime_seconds).as_str()),
    );
    push_text(&mut out, "".to_owned());
    push_text(&mut out, "Disks".to_owned());
    let ghost start = texts(out@);
    let ghost all = Seq::new(
        shown_disks(*status),
        |i: int| disk_row(status.disks@[i], status.disk_percents@[i]@),
    );
    let mut i: usize = 0;
    proof {
        assert(start + all.take(0) =~= start);
    }
    while i < status.disks.len() && i < status.disk_percents.len()
        invariant
            i <= all.len(),
            all == Seq::new(
                shown_disks(*status),
                |i: int| disk_row(status.disks@[i], status.disk_percents@[i]@),
            ),
            texts(out@) == start + all.take(i as int),
        decreases status.disks.len() - i,
    {
        push_text(&mut out, disk_text(&status.disks[i], status.disk_percents[i].as_str()));
        proof {
            assert(start + all.take(i + 1) =~= (start + all.take(i as int)).push(all[i as int]));
        }
        i = i + 1;
    }
    proof {
        assert(all.take(i as int) =~= all);
        assert(texts(out@) =~= status_rows(*status));
    }
    out
}

/// The rows of a workflow.
pub fn workflow_items(data: &WorkflowData, selected: &Vec<usize>) -> (r: Vec<String>)
    ensures
        texts(r@) == workflow_rows(*data, selected@),
{
    let mut out: Vec<String> = Vec::new();
    let ghost all = workflow_rows(*data, selected@);
    let mut i: usize = 0;
    match data {
        WorkflowData::Clean(report) => {
            while i < report.items.len()
                invariant
                    i <= report.items@.len(),
                    all == Seq::new(
                        report.items@.len(),
                        |i: int| clean_row(report.items@[i], selected@.contains(i as usize)),
                    ),
                    texts(out@) =~= all.take(i as int),
                decreases report.items.len() - i,
            {
                push_text(&mut out, clean_text(&report.items[i], is_selected(selected, i)));
                i = i + 1;
            }
            proof {
                assert(all.take(i as int) =~= all);
            }
            out
        },
        WorkflowData::Uninstall(report) => {
            while i < report.applications.len()
                invariant
                    i <= report.applications@.len(),
                    all == Seq::new(
                        report.applications@.len(),
                        |i: int|
                            uninstall_row(
                                report.applications@[i],
                                selected@.contains(i as usize),
                            ),
                    ),
                    texts(out@) =~= all.take(i as int),
                decreases report.applications.len() - i,
            {
                push_text(
                    &mut out,
                    uninstall_text(&report.applications[i], is_selected(selected, i)),
                );
                i = i + 1;
            }
            proof {
                assert(all.take(i as int) =~= all);
            }
            out
        },
        WorkflowData::Purge(candidates) => {
            while i < candidates.len()
                invariant
                    i <= candidates@.len(),
                    all == Seq::new(
                        candidates@.len(),
                        |i: int| purge_row(candidates@[i], selected@.contains(i as usize)),
                    ),
                    texts(out@) =~= all.take(i as int),
                decreases candidates.len() - i,
            {
                push_text(&mut out, purge_text(&candidates[i], is_selected(selected, i)));
                i = i + 1;
            }
            proof {
                assert(all.take(i as int) =~= all);
            }
            out
        },
        WorkflowData::Status(status) => status_lines(status),
        WorkflowData::History(records) => {
            while i < records.len()
                invariant
                    i <= records@.len(),
                    all == Seq::new(
                        records@.len(),
                        |i: int| history_row(records@[i], record_time(records@[i])),
                    ),
                    texts(out@) =~= all.take(i as int),
                decreases records.len() - i,
            {
                let time = or_unknown(utc_text(records[i].timestamp, "%Y-%m-%d %H:%M UTC"));
                push_text(&mut out, dated_history_row(&records[i], time.as_str()));
                i = i + 1;
            }
            proof {
                assert(all.take(i as int) =~= all);
            }
            out
        },
        WorkflowData::Update(info) => {
            push_text(
                &mut out,
                "Installed version   ".to_owned().concat(info.current_version.as_str()),
            );
            push_text(
                &mut out,
                "Available version   ".to_owned().concat(info.available_version.as_str()),
            );
            push_text(&mut out, "Target              ".to_owned().concat(info.target.as_str()));
            push_text(
                &mut out,
                (if info.update_available {
                    "An update is available. Press Enter to review installation."
                } else {
                    "TuxCleaner is already up to date."
                }).to_owned(),
            );
            proof {
                assert(texts(out@) =~= update_rows(*info));
            }
            out
        },
    }
}

// ---------------------------------------------------------------------------------------
// Windows of a workflow
// ---------------------------------------------------------------------------------------

/// The title, the question and the warning before a request is carried out.
pub open spec fn confirmation_texts(data: WorkflowData, selected: Seq<usize>) -> Option<
    (Seq<char>, Seq<char>, Seq<char>),
> {
    let bytes = size_text(saturating(selected_bytes(Some(data), selected) as int) as nat);
    match data {
        WorkflowData::Clean(_) => Some(
            (
                " Confirm cleanup "@,
                "Clean "@ + decimal(selected.len()) + " selected item(s), "@ + bytes + "?"@,
                "Caches and other rebuildable data will be permanently removed."@,
            ),
        ),
        WorkflowData::Uninstall(_) => Some(
            (
                " Confirm uninstall "@,
                "Uninstall "@ + decimal(selected.len()) + " selected application(s)?"@,
                "The reviewed package-manager plan will run. User data is preserved."@,
            ),
        ),
        WorkflowData::Purge(_) => Some(
            (
                " Confirm purge "@,
                "Permanently remove "@ + decimal(selected.len()) + " artifact(s), "@ + bytes + "?"@,
                "Build artifacts will be permanently removed."@,
            ),
        ),
        WorkflowData::Update(info) => Some(
            (
                " Confirm update "@,
                "Replace TuxCleaner "@ + info.current_version@ + " with "@ + info.available_version@
                    + "?"@,
                "The release archive will be checksum-verified before replacement."@,
            ),
        ),
        _ => None,
    }
}

/// The commands of the first three previews.
pub open spec fn first_commands(previews: Seq<UninstallPreview>) -> Seq<Seq<char>> {
    Seq::new(
        if previews.len() < 3 {
            previews.len()
        } else {
            3
        },
        |i: int| previews[i].command@,
    )
}

/// The question before a request is carried out, with the commands of an uninstall.
pub open spec fn workflow_question(state: WorkflowState) -> Option<OverlayView> {
    match state.data {
        None => None,
        Some(data) => match confirmation_texts(data, state.selected@) {
            None => None,
            Some((title, summary, warning)) => Some(
                OverlayView {
                    title,
                    tone: Tone::Caution,
                    lines: seq![summary, ""@, warning] + (if state.previews@.len() > 0 {
                        seq![""@] + first_commands(state.previews@)
                    } else {
                        seq![]
                    }) + seq![""@, "Enter: confirm   Esc: cancel"@],
                    warning: None,
                    width_percent: 78,
                    height: 12,
                },
            ),
        },
    }
}

fn question_texts(data: &Option<WorkflowData>, selected: &Vec<usize>) -> (r: Option<
    (String, String, String),
>)
    ensures
        (match r {
            Some(three) => Some((three.0@, three.1@, three.2@)),
            None => None,
        }) == (match *data {
            Some(data) => confirmation_texts(data, selected@),
            None => None,
        }),
{
    let count = count_text(selected.len());
    let bytes = format_bytes(selected_workflow_bytes(data, selected));
    match data {
        Some(WorkflowData::Clean(_)) => Some(
            (
                " Confirm cleanup ".to_owned(),
                "Clean ".to_owned().concat(count.as_str()).concat(" selected item(s), ").concat(
                    bytes.as_str(),
                ).concat("?"),
                "Caches and other rebuildable data will be permanently removed.".to_owned(),
            ),
        ),
        Some(WorkflowData::Uninstall(_)) => Some(
            (
                " Confirm uninstall ".to_owned(),
                "Uninstall ".to_owned().concat(count.as_str()).concat(
                    " selected application(s)?",
                ),
                "The reviewed package-manager plan will run. User data is preserved.".to_owned(),
            ),
        ),
        Some(WorkflowData::Purge(_)) => Some(
            (
                " Confirm purge ".to_owned(),
                "Permanently remove ".to_owned().concat(count.as_str()).concat(
                    " artifact(s), ",
                ).concat(bytes.as_str()).concat("?"),
                "Build artifacts will be permanently removed.".to_owned(),
            ),
        ),
        Some(WorkflowData::Update(info)) => Some(
            (
                " Confirm update ".to_owned(),
                "Replace TuxCleaner ".to_owned().concat(info.current_version.as_str()).concat(
                    " with ",
                ).concat(info.available_version.as_str()).concat("?"),
                "The release archive will be checksum-verified before replacement.".to_owned(),
            ),
        ),
        _ => None,
    }
}

/// The question before a request is carried out.
pub fn workflow_confirmation(state: &WorkflowState) -> (r: Option<Overlay>)
    ensures
        optional_overlay(r) == workflow_question(*state),
{
    let (title, summary, warning) = match question_texts(&state.data, &state.selected) {
        Some(three) => three,
        None => {
            return None;
        },
    };
    let mut lines: Vec<String> = Vec::new();
    push_text(&mut lines, summary);
    push_text(&mut lines, "".to_owned());
    push_text(&mut lines, warning);
    if state.previews.len() > 0 {
        push_text(&mut lines, "".to_owned());
        let ghost start = texts(lines@);
        let ghost all = first_commands(state.previews@);
        let mut i: usize = 0;
        proof {
            assert(start + all.take(0) =~= start);
        }
        while i < state.previews.len() && i < 3
            invariant
                i <= all.len(),
                all == first_commands(state.previews@),
                texts(lines@) == start + all.take(i as int),
            decreases state.previews.len() - i,
        {
            push_text(&mut lines, state.previews[i].command.clone());
            proof {
                assert(start + all.take(i + 1) =~= (start + all.take(i as int)).push(
                    all[i as int],
                ));
            }
            i = i + 1;
        }
        proof {
            assert(all.take(i as int) =~= all);
        }
    }
    push_text(&mut lines, "".to_owned());
    push_text(&mut lines, "Enter: confirm   Esc: cancel".to_owned());
    let overlay = Overlay {
        title,
        tone: Tone::Caution,
        lines,
        warning: None,
        width_percent: 78,
        height: 12,
    };
    proof {
        assert(overlay@.lines =~= workflow_question(*state)->Some_0.lines);
    }
    Some(overlay)
}

/// How a request ended.
pub open spec fn result_window(result: WorkflowResult) -> OverlayView {
    OverlayView {
        title: " Result "@,
        tone: match result {
            WorkflowResult::Actions(results) => result_tone(results@),
            WorkflowResult::Update(_) => Tone::Good,
        },
        lines: match result {
            WorkflowResult::Actions(results) => seq![
                decimal(succeeded_count(results@)) + "/"@ + decimal(results@.len())
                    + " operations succeeded"@,
                "Estimated space covered: "@ + size_text(
                    saturating(covered_bytes(results@) as int) as nat,
                ),
                ""@,
            ] + failure_lines(results@) + seq!["Enter or Esc: return to the main menu"@],
            WorkflowResult::Update(result) => seq![
                if result.updated {
                    "TuxCleaner updated"@
                } else {
                    "TuxCleaner is already up to date"@
                },
                result.previous_version@ + " → "@ + result.installed_version@ + " ("@
                    + result.target@ + ")"@,
                ""@,
                "Enter or Esc: return to the main menu"@,
            ],
        },
        warning: None,
        width_percent: 76,
        height: 13,
    }
}

pub fn workflow_result_overlay(result: &WorkflowResult) -> (r: Overlay)
    ensures
        r@ == result_window(*result),
{
    let mut lines: Vec<String> = Vec::new();
    let tone = match result {
        WorkflowResult::Actions(results) => tone_of(results),
        WorkflowResult::Update(_) => Tone::Good,
    };
    match result {
        WorkflowResult::Actions(results) => {
            push_text(
                &mut lines,
                count_text(count_succeeded(results)).concat("/").concat(
                    count_text(results.len()).as_str(),
                ).concat(" operations succeeded"),
            );
            push_text(
                &mut lines,
                "Estimated space covered: ".to_owned().concat(
                    format_bytes(covered_total(results)).as_str(),
                ),
            );
            push_text(&mut lines, "".to_owned());
            add_failures(&mut lines, results);
        },
        WorkflowResult::Update(result) => {
            push_text(
                &mut lines,
                (if result.updated {
                    "TuxCleaner updated"
                } else {
                    "TuxCleaner is already up to date"
                }).to_owned(),
            );
            push_text(
                &mut lines,
                result.previous_version.clone().concat(" → ").concat(
                    result.installed_version.as_str(),
                ).concat(" (").concat(result.target.as_str()).concat(")"),
            );
            push_text(&mut lines, "".to_owned());
        },
    }
    push_text(&mut lines, "Enter or Esc: return to the main menu".to_owned());
    let overlay = Overlay {
        title: " Result ".to_owned(),
        tone,
        lines,
        warning: None,
        width_percent: 76,
        height: 13,
    };
    proof {
        assert(overlay@.lines =~= result_window(*result).lines);
    }
    overlay
}

pub open spec fn error_window(error: Seq<char>) -> OverlayView {
    OverlayView {
        title: " Error "@,
        tone: Tone::Danger,
        lines: seq!["Operation failed"@, ""@, error, ""@, "Enter or Esc: continue"@],
        warning: None,
        width_percent: 76,
        height: 11,
    }
}

pub fn error_overlay(error: &str) -> (r: Overlay)
    ensures
        r@ == error_window(error@),
{
    let lines = list5(
        "Operation failed",
        "",
        error,
        "",
        "Enter or Esc: continue",
    );
    Overlay {
        title: " Error ".to_owned(),
        tone: Tone::Danger,
        lines,
        warning: None,
        width_percent: 76,
        height: 11,
    }
}

// ---------------------------------------------------------------------------------------
// A workflow
// ---------------------------------------------------------------------------------------

pub open spec fn workflow_body(state: WorkflowState) -> (Seq<char>, BodyView) {
    if state.loading || state.preparing || state.executing {
        (
            " Progress "@,
            BodyView::Progress("\n  "@ + frame_text(state.spinner) + " "@ + state.status@),
        )
    } else {
        match state.data {
            Some(data) => (" Details "@, BodyView::Rows(workflow_rows(data, state.selected@))),
            None => (""@, BodyView::Nothing),
        }
    }
}

pub open spec fn workflow_footer(state: WorkflowState) -> Seq<Seq<char>> {
    if selectable_data(state.data) {
        seq![
            state.status@,
            "↑/↓ move   Space select   Enter review"@,
            "r refresh   Esc/q back"@,
        ]
    } else {
        match state.data {
            Some(WorkflowData::Update(_)) => seq![
                state.status@,
                "Enter install update   r check again"@,
                "Esc/q back"@,
            ],
            _ => seq![state.status@, "↑/↓ scroll   r refresh   Esc/q back"@],
        }
    }
}

pub open spec fn workflow_overlay(state: WorkflowState) -> Option<OverlayView> {
    if state.confirming {
        workflow_question(state)
    } else {
        match state.result {
            Some(result) => Some(result_window(result)),
            None => match state.error {
                Some(error) => Some(error_window(error@)),
                None => None,
            },
        }
    }
}

/// A workflow as text.
pub open spec fn workflow_text(state: WorkflowState) -> ScreenTextView {
    ScreenTextView {
        heading: seq!["TuxCleaner › "@ + title_of(state.action), subtitle_of(state.action)],
        body_title: workflow_body(state).0,
        body: workflow_body(state).1,
        footer: workflow_footer(state),
        overlay: workflow_overlay(state),
    }
}

/// A workflow as text.
pub fn workflow_screen(state: &WorkflowState) -> (r: ScreenText)
    ensures
        r@ == workflow_text(*state),
{
    let mut heading: Vec<String> = Vec::new();
    push_text(&mut heading, "TuxCleaner › ".to_owned().concat(action_title(state.action)));
    push_text(&mut heading, action_subtitle(state.action).to_owned());
    let (body_title, body) = if state.loading || state.preparing || state.executing {
        (
            " Progress ",
            Body::Progress(
                "\n  ".to_owned().concat(spinner_frame(state.spinner)).concat(" ").concat(
                    state.status.as_str(),
                ),
            ),
        )
    } else {
        match &state.data {
            Some(data) => (" Details ", Body::Rows(workflow_items(data, &state.selected))),
            None => ("", Body::Nothing),
        }
    };
    let mut footer: Vec<String> = Vec::new();
    push_text(&mut footer, state.status.clone());
    let update = match &state.data {
        Some(WorkflowData::Update(_)) => true,
        _ => false,
    };
    if workflow_is_selectable(&state.data) {
        push_text(&mut footer, "↑/↓ move   Space select   Enter review".to_owned());
        push_text(&mut footer, "r refresh   Esc/q back".to_owned());
    } else if update {
        push_text(&mut footer, "Enter install update   r check again".to_owned());
        push_text(&mut footer, "Esc/q back".to_owned());
    } else {
        push_text(&mut footer, "↑/↓ scroll   r refresh   Esc/q back".to_owned());
    }
    let overlay = if state.confirming {
        workflow_confirmation(state)
    } else {
        match &state.result {
            Some(result) => Some(workflow_result_overlay(result)),
            None => match &state.error {
                Some(error) => Some(error_overlay(error.as_str())),
                None => None,
            },
        }
    };
    let r = ScreenText { heading, body_title: body_title.to_owned(), body, footer, overlay };
    proof {
        assert(r@.heading =~= workflow_text(*state).heading);
        assert(r@.footer =~= workflow_footer(*state));
    }
    r
}

// ---------------------------------------------------------------------------------------
// Laws
// ---------------------------------------------------------------------------------------

/// Nobody overrides a rule unawares: where a removal was forced past a rule, the question says
/// that it is forced and names the rule.
pub proof fn forced_question_names_the_rule(
    home: Seq<char>,
    pending: Seq<(Seq<char>, PendingRemoval)>,
    git_roots: Seq<bool>,
    i: int,
)
    requires
        0 <= i < pending.len(),
        overridden(home, pending[i], i < git_roots.len() && git_roots[i]) is Some,
    ensures
        ({
            let question = delete_question(home, pending, git_roots);
            let rules = overridden_rules(home, pending, git_roots, pending.len() as int);
            let tag = overridden(home, pending[i], i < git_roots.len() && git_roots[i])->Some_0;
            &&& rules.contains(tag)
            &&& question.lines[0] == "FORCE removal: permanently remove?"@
            &&& question.lines[3] == "overriding: "@ + joined(rules, ", "@)
        }),
{
    let tag = overridden(home, pending[i], i < git_roots.len() && git_roots[i])->Some_0;
    lemma_rule_named(home, pending, git_roots, i, pending.len() as int);
    let rules = overridden_rules(home, pending, git_roots, pending.len() as int);
    assert(rules.len() > 0);
    assert(pending[i].1.force);
}

proof fn lemma_rule_named(
    home: Seq<char>,
    pending: Seq<(Seq<char>, PendingRemoval)>,
    git_roots: Seq<bool>,
    i: int,
    count: int,
)
    requires
        0 <= i < count <= pending.len(),
        overridden(home, pending[i], i < git_roots.len() && git_roots[i]) is Some,
    ensures
        overridden_rules(home, pending, git_roots, count).contains(
            overridden(home, pending[i], i < git_roots.len() && git_roots[i])->Some_0,
        ),
    decreases count,
{
    let tag = overridden(home, pending[i], i < git_roots.len() && git_roots[i])->Some_0;
    let before = overridden_rules(home, pending, git_roots, count - 1);
    let now = overridden_rules(home, pending, git_roots, count);
    if i == count - 1 {
        if !before.contains(tag) {
            assert(now == before.push(tag));
            assert(now[before.len() as int] == tag);
        }
    } else {
        lemma_rule_named(home, pending, git_roots, i, count - 1);
        let k = choose|k: int| 0 <= k < before.len() && before[k] == tag;
        assert(now[k] == tag);
    }
}

/// A workflow shows a row for everything that it works on, and no other.
pub proof fn every_row_is_shown(data: WorkflowData, selected: Seq<usize>)
    ensures
        workflow_rows(data, selected).len() == row_count(data),
{
}

/// The text ends in `tail`.
pub open spec fn ends_in(text: Seq<char>, tail: Seq<char>) -> bool {
    text.len() >= tail.len() && text.skip(text.len() - tail.len()) == tail
}

/// A row says what it is about: whether it is selected by its mark, its size, and last the item,
/// the package or the path.
pub proof fn row_says_what_it_is(data: WorkflowData, selected: Seq<usize>, i: usize)
    requires
        i < row_count(data),
        selectable_data(Some(data)),
    ensures
        ({
            let row = workflow_rows(data, selected)[i as int];
            &&& has_prefix(
                row,
                if selected.contains(i) {
                    "●"@
                } else {
                    "○"@
                },
            )
            &&& match data {
                WorkflowData::Clean(report) => ends_in(row, report.items@[i as int].label@)
                    && has_infix(row, size_text(report.items@[i as int].estimated_bytes as nat)),
                WorkflowData::Uninstall(report) => ends_in(
                    row,
                    report.applications@[i as int].package@,
                ) && has_infix(
                    row,
                    size_text(report.applications@[i as int].installed_bytes as nat),
                ),
                WorkflowData::Purge(candidates) => ends_in(row, candidates@[i as int].path@)
                    && has_infix(row, size_text(candidates@[i as int].size as nat)),
                _ => true,
            }
        }),
{
    let mark = marker_text(selected.contains(i), true);
    assert(i as int as usize == i);
    match data {
        WorkflowData::Clean(report) => {
            let item = report.items@[i as int];
            lemma_row(
                mark,
                size_text(item.estimated_bytes as nat),
                "  "@ + group_title(item.group) + " · "@,
                item.label@,
                clean_row(item, selected.contains(i)),
            );
        },
        WorkflowData::Uninstall(report) => {
            let application = report.applications@[i as int];
            lemma_row(
                mark,
                size_text(application.installed_bytes as nat),
                "  "@ + truncated(application.name@, 30) + " · "@ + source_name(application.source)
                    + " · "@,
                application.package@,
                uninstall_row(application, selected.contains(i)),
            );
        },
        WorkflowData::Purge(candidates) => {
            let candidate = candidates@[i as int];
            lemma_row(
                mark,
                size_text(candidate.size as nat),
                "  "@ + candidate.kind@ + " · "@ + decimal(candidate.age_days as nat) + " days · "@,
                candidate.path@,
                purge_row(candidate, selected.contains(i)),
            );
        },
        _ => {},
    }
}

/// The parts of a row: its mark, its size, what stands between, and what it is about.
proof fn lemma_row(
    mark: Seq<char>,
    size: Seq<char>,
    middle: Seq<char>,
    tail: Seq<char>,
    row: Seq<char>,
)
    requires
        row =~= mark + " "@ + padded_left(size, 10) + middle + tail,
    ensures
        has_prefix(row, mark),
        has_infix(row, size),
        ends_in(row, tail),
{
    let shown = padded_left(size, 10);
    let at = (mark + " "@).len() + shown.len() - size.len();
    assert(row.take(mark.len() as int) =~= mark);
    assert(row.skip(row.len() - tail.len()) =~= tail);
    assert(row.subrange(at, at + size.len()) =~= size);
    assert(occurs_at(row, size, at));
}

/// A question before a request says how many rows are selected, and the reviewed commands of an
/// uninstall are shown with it, the first three of them.
pub proof fn question_says_what_will_happen(state: WorkflowState, k: int)
    requires
        state.data is Some,
        selectable_data(state.data),
    ensures
        workflow_question(state) matches Some(window) && window.lines.len() > 0 && has_infix(
            window.lines[0],
            decimal(state.selected@.len()),
        ) && (0 <= k < state.previews@.len() && k < 3 ==> window.lines.contains(
            state.previews@[k].command@,
        )),
{
    let data = state.data->Some_0;
    let window = workflow_question(state)->Some_0;
    let count = decimal(state.selected@.len());
    let line = window.lines[0];
    let front = match data {
        WorkflowData::Clean(_) => "Clean "@,
        WorkflowData::Uninstall(_) => "Uninstall "@,
        _ => "Permanently remove "@,
    };
    let at = front.len() as int;
    assert(line.subrange(at, at + count.len()) =~= count);
    assert(occurs_at(line, count, at));
    if 0 <= k < state.previews@.len() && k < 3 {
        let commands = first_commands(state.previews@);
        assert(commands[k] == state.previews@[k].command@);
        assert(window.lines[4 + k] == commands[k]);
    }
}

/// Before a removal the user sees what goes: the path where it is one, how many otherwise, and the
/// bytes of all; and where a directory goes, a warning that stands out.
pub proof fn removal_question_says_what_goes(
    home: Seq<char>,
    pending: Seq<(Seq<char>, PendingRemoval)>,
    git_roots: Seq<bool>,
)
    ensures
        ({
            let window = delete_question(home, pending, git_roots);
            &&& window.lines.len() >= 6
            &&& pending.len() == 1 ==> window.lines[2] == pending[0].0
            &&& pending.len() != 1 ==> window.lines[2] == decimal(pending.len())
                + " selected files"@
            &&& window.lines[window.lines.len() - 3] == "Total: "@ + size_text(
                saturating(removal_bytes(pending) as int) as nat,
            )
            &&& window.tone is Danger
            &&& window.warning is Some <==> exists|i: int|
                0 <= i < pending.len() && (#[trigger] pending[i]).1.is_dir
            &&& window.warning matches Some(at) ==> at < window.lines.len() && window.lines[at as int]
                == "This is a directory: it and all of its contents will be permanently removed."@
        }),
{
}

/// A result is good exactly where everything succeeded, and says how many did; of what failed, the
/// first three are named.
pub proof fn result_says_what_failed(results: Seq<ActionResult>)
    ensures
        removal_result(results).tone is Good <==> forall|i: int|
            0 <= i < results.len() ==> (#[trigger] results[i]).success,
        has_prefix(removal_result(results).lines[0], decimal(succeeded_count(results))),
        failure_lines(results).len() <= 3,
        failure_lines(results).len() > 0 <==> exists|i: int|
            0 <= i < results.len() && !(#[trigger] results[i]).success,
{
    successes_are_covered(results);
    let line = removal_result(results).lines[0];
    let count = decimal(succeeded_count(results));
    assert(line.take(count.len() as int) =~= count);
    let keep = |result: ActionResult|
        if result.success {
            None
        } else {
            Some("Failed: "@ + result.message@)
        };
    let places = kept_in_order(results, keep);
    if exists|i: int| 0 <= i < results.len() && !(#[trigger] results[i]).success {
        let i = choose|i: int| 0 <= i < results.len() && !(#[trigger] results[i]).success;
        assert(keep(results[i]) is Some);
        assert(places.contains(i));
    }
    if failure_lines(results).len() > 0 {
        assert(keep(results[places[0]]) is Some);
        assert(!results[places[0]].success);
    }
}

/// What went wrong is shown, and what came of a request is shown before it.
pub proof fn errors_are_shown(state: WorkflowState)
    ensures
        !state.confirming && state.result is None ==> (match state.error {
            Some(error) => workflow_overlay(state) matches Some(window) && window.lines.contains(
                error@,
            ) && window.tone is Danger,
            None => workflow_overlay(state) is None,
        }),
{
    if let Some(error) = state.error {
        assert(error_window(error@).lines[2] == error@);
    }
}

/// The memory is shown as what is used, then what there is; and a disk in the same way.
pub proof fn used_is_shown_before_total(status: SystemStatus, i: int)
    ensures
        has_prefix(
            status_rows(status)[2],
            "Memory     "@ + size_text(status.memory.used_bytes as nat) + " / "@ + size_text(
                status.memory.total_bytes as nat,
            ),
        ),
        0 <= i < shown_disks(status) ==> {
            let row = status_rows(status)[6 + i];
            let disk = status.disks@[i];
            exists|at: int, later: int|
                at < later && #[trigger] occurs_at(row, size_text(disk.used_bytes as nat), at)
                    && #[trigger] occurs_at(row, size_text(disk.total_bytes as nat), later)
        },
{
    let line = status_rows(status)[2];
    let front = "Memory     "@ + size_text(status.memory.used_bytes as nat) + " / "@ + size_text(
        status.memory.total_bytes as nat,
    );
    assert(line.take(front.len() as int) =~= front);
    if 0 <= i < shown_disks(status) {
        reveal_strlit("  ");
        reveal_strlit(" ");
        reveal_strlit(" / ");
        let disk = status.disks@[i];
        let row = disk_row(disk, status.disk_percents@[i]@);
        assert(status_rows(status)[6 + i] == row);
        let used = size_text(disk.used_bytes as nat);
        let total = size_text(disk.total_bytes as nat);
        let a = padded_right(disk.mount@, 20);
        let b = padded_left(used, 10);
        let c = padded_left(total, 10);
        let at = 2 + a.len() + 1 + b.len() - used.len();
        let later = 2 + a.len() + 1 + b.len() + 3 + c.len() - total.len();
        assert(row.subrange(at, at + used.len()) =~= used);
        assert(row.subrange(later, later + total.len()) =~= total);
        assert(occurs_at(row, used, at) && occurs_at(row, total, later));
    }
}

/// A row of the explorer says whether it is selected by its mark, what it is called and how large
/// it is.
pub proof fn entry_row_says_what_it_is(
    entry: DiskEntry,
    facts: RowFacts,
    selected: bool,
    verdict: Result<(), PersonalFileRefusal>,
)
    ensures
        ({
            let row = entry_label(entry, facts, selected, verdict);
            &&& selected ==> has_prefix(row, "●"@)
            &&& !selected && verdict is Ok ==> has_prefix(row, "○"@)
            &&& has_infix(row, entry.name@)
            &&& has_infix(row, size_text(entry.size as nat))
        }),
{
    let mark = marker_text(selected, verdict is Ok);
    let front = mark + " "@ + padded_left(facts.percent@, 5) + "% "@ + facts.bar@ + " "@ + (
    if entry.is_dir {
        "▸"@
    } else {
        " "@
    }) + " "@;
    assert(front.take(mark.len() as int) =~= mark);
    lemma_explorer_row(
        mark,
        front,
        entry.name@,
        size_text(entry.size as nat),
        refusal_note(verdict),
    );
}

/// The same holds of the row of a large file, which is called by its path.
pub proof fn file_row_says_what_it_is(
    file: LargeFile,
    facts: RowFacts,
    selected: bool,
    verdict: Result<(), PersonalFileRefusal>,
)
    ensures
        ({
            let row = large_file_label(file, facts, selected, verdict);
            &&& selected ==> has_prefix(row, "●"@)
            &&& !selected && verdict is Ok ==> has_prefix(row, "○"@)
            &&& has_infix(row, file.path@)
            &&& has_infix(row, size_text(file.size as nat))
        }),
{
    let mark = marker_text(selected, verdict is Ok);
    let front = mark + " "@ + padded_left(facts.percent@, 5) + "% "@ + facts.bar@ + "   "@;
    assert(front.take(mark.len() as int) =~= mark);
    lemma_explorer_row(
        mark,
        front,
        file.path@,
        size_text(file.size as nat),
        refusal_note(verdict),
    );
}

proof fn lemma_explorer_row(
    mark: Seq<char>,
    front: Seq<char>,
    name: Seq<char>,
    size: Seq<char>,
    note: Seq<char>,
)
    requires
        mark.len() <= front.len(),
        front.take(mark.len() as int) == mark,
    ensures
        ({
            let row = front + name + "  "@ + padded_left(size, 10) + note;
            has_prefix(row, mark) && has_infix(row, name) && has_infix(row, size)
        }),
{
    let shown = padded_left(size, 10);
    let row = front + name + "  "@ + shown + note;
    let at = front.len() as int;
    let later = (front + name + "  "@).len() + shown.len() - size.len();
    assert(row.take(mark.len() as int) =~= front.take(mark.len() as int));
    assert(row.subrange(at, at + name.len()) =~= name);
    assert(occurs_at(row, name, at));
    assert(row.subrange(later, later + size.len()) =~= size);
    assert(occurs_at(row, size, later));
}

/// The heading of the explorer says where it is and, once anything is known, how much lies there.
pub proof fn heading_says_where_it_is(state: AnalyzeView)
    ensures
        has_prefix(analyze_heading(state)[1], active(state).path),
        has_items(active(state)) ==> has_infix(
            analyze_heading(state)[1],
            size_text(active(state).total_size as nat),
        ),
{
    let line = analyze_heading(state)[1];
    let path = active(state).path;
    assert(line.take(path.len() as int) =~= path);
    if has_items(active(state)) {
        let size = size_text(active(state).total_size as nat);
        let at = (path + "  ·  "@).len() as int;
        assert(line.subrange(at, at + size.len()) =~= size);
        assert(occurs_at(line, size, at));
    }
}

} // verus!
