//! The interactive screens.
use tuxcleaner::analyze::{DiskEntry, LargeFile};
use tuxcleaner::command::{CommandOutput, CommandRunner};
use tuxcleaner::executor::{Executor, Progress};
use tuxcleaner::guard::{EntryKind, PathFacts};
use tuxcleaner::history::HistoryRecord;
use tuxcleaner::model::{
    ActionResult, CleanupAction, CleanupGroup, CleanupItem, CommandSpec, Risk, ScanReport,
};
use tuxcleaner::path_map::PathMap;
use tuxcleaner::purge::PurgeCandidate;
use tuxcleaner::size::format_bytes;
use tuxcleaner::status::{DiskStatus, MemoryStatus, SystemStatus};
use tuxcleaner::tui::analyze::{
    AnalyzeMode, AnalyzeState, FocusRefusal, PendingRemoval, StatusSeverity, ANALYZE_LIVE_SCAN_CAP,
};
use tuxcleaner::tui::app::{App, KeyFacts, Screen, UiOutcome};
use tuxcleaner::tui::execution::{
    check_reviewed_plan, cleanup_action_requires_root, WorkflowExecution, WorkflowResult,
};
use tuxcleaner::tui::keys::{step, Key, KeyPress, Motion};
use tuxcleaner::tui::location::{reorder_and_reconcile, Location, ScanUpdate};
use tuxcleaner::tui::menu::{action_title, menu_rows, MenuAction};
use tuxcleaner::tui::selection::{
    personal_file_refusal_message, personal_file_selectability, personal_file_selectability_forced,
    Candidate, PersonalFileRefusal, ANALYZE_MINIMUM_SIZE,
};
use tuxcleaner::tui::view::{
    analyze_screen, delete_confirmation, disk_item, file_item, removal_result_overlay,
    status_lines, workflow_confirmation, workflow_items, workflow_result_overlay, workflow_screen,
    Body, RowFacts, ScreenText, Tone,
};
use tuxcleaner::tui::workflow::{
    selected_workflow_bytes, workflow_ready_status, WorkflowData, WorkflowEvent, WorkflowOutcome,
    WorkflowState,
};
use tuxcleaner::uninstall::{Application, ApplicationReport, ApplicationSource, UninstallPreview};
use tuxcleaner::update::{UpdateInfo, UpdateResult};

const HOME: &str = "/home/tester";

struct SuccessfulRunner;

impl CommandRunner for SuccessfulRunner {
    fn run(&self, _: &str, _: &[String], _: bool) -> Result<CommandOutput, String> {
        Ok(CommandOutput {
            success: true,
            status: "exit status: 0".to_string(),
            stdout: Vec::new(),
            stderr: Vec::new(),
        })
    }
}

fn executor() -> Executor<SuccessfulRunner> {
    Executor::with_runner(HOME.to_string(), SuccessfulRunner)
}

fn at(relative: &str) -> String {
    format!("{HOME}/{relative}")
}

fn name_of(path: &str) -> String {
    path.rsplit('/').next().unwrap().to_string()
}

/// An explorer on a directory with one file, whose scan is over.
fn ready_analyze(file: &str, size: u64) -> AnalyzeState {
    let mut location = Location::new(HOME.to_string());
    let entry = DiskEntry {
        name: name_of(file),
        path: file.to_string(),
        size,
        is_dir: false,
    };
    location.entries.insert(file.to_string(), entry.clone());
    location.sorted = vec![entry];
    location.large_files = vec![LargeFile {
        path: file.to_string(),
        size,
        modified_unix: None,
        app_data: false,
    }];
    location.total_size = size;
    location.total_files = 1;
    location.complete = true;
    location.needs_reorder = false;
    location.selected = Some(file.to_string());
    state_with(location, AnalyzeMode::Browse, Some(0))
}

fn state_with(location: Location, mode: AnalyzeMode, cursor: Option<usize>) -> AnalyzeState {
    AnalyzeState {
        home: HOME.to_string(),
        locations: vec![location],
        mode,
        cursor,
        selected_files: PathMap::new(),
        pending_delete: PathMap::new(),
        confirming_delete: false,
        results: None,
        status: "Ready".to_string(),
        status_severity: StatusSeverity::Info,
        filter: String::new(),
        filtering: false,
        show_help: false,
        spinner: 0,
        next_scan: 1,
    }
}

fn app_with(state: AnalyzeState) -> App {
    let mut app = App::new(HOME.to_string());
    app.screen = Screen::Analyze(Box::new(state));
    app
}

fn key(key: Key) -> KeyPress {
    KeyPress { key, shift: false }
}

fn shift_key(key: Key) -> KeyPress {
    KeyPress { key, shift: true }
}

fn plain() -> KeyFacts {
    KeyFacts {
        git_root: false,
        effective_root: false,
    }
}

fn press(app: &mut App, press: KeyPress) -> UiOutcome {
    app.handle_key(press, plain())
}

fn explorer(app: &App) -> &AnalyzeState {
    match &app.screen {
        Screen::Analyze(state) => state,
        _ => panic!("expected Analyze screen"),
    }
}

fn present(kind: EntryKind) -> PathFacts {
    let mut way = Vec::new();
    for _ in 0..10 {
        way.push(EntryKind::Directory);
    }
    PathFacts {
        hf_home: None,
        way,
        target: kind,
        git_root: false,
        exists: true,
    }
}

/// Carries out what the explorer asks for, and says which paths go.
fn carry_out(app: &mut App) -> Vec<String> {
    let mut removed = Vec::new();
    if let Screen::Analyze(state) = &mut app.screen {
        let mut results = Vec::new();
        for item in state.removal_items() {
            match executor().execute(&item, &present(EntryKind::File), false) {
                Progress::Done(result) => results.push(result),
                Progress::Remove { path, .. } => {
                    removed.push(path);
                    results.push(executor().finish_removal(&item, Ok(())));
                }
            }
        }
        state.finish_delete(results);
    }
    removed
}

fn candidate(is_dir: bool, size: u64) -> Candidate {
    Candidate {
        is_dir,
        git_root: false,
        size,
    }
}

fn selectable(path: &str, is_dir: bool, size: u64) -> bool {
    personal_file_selectability(HOME, path, candidate(is_dir, size)).is_ok()
}

fn selectable_forced(path: &str, is_dir: bool, size: u64) -> bool {
    personal_file_selectability_forced(HOME, path, candidate(is_dir, size)).is_ok()
}

fn row_facts(count: usize) -> Vec<RowFacts> {
    let mut facts = Vec::new();
    for _ in 0..count {
        facts.push(RowFacts {
            percent: "100.0".to_string(),
            bar: "████████████".to_string(),
            git_root: false,
        });
    }
    facts
}

/// Everything that a screen shows.
fn rendered(screen: &ScreenText) -> String {
    let body = match &screen.body {
        Body::Nothing => String::new(),
        Body::Progress(text) | Body::Failure(text) => text.clone(),
        Body::Rows(rows) => rows.join("\n"),
    };
    let overlay = match &screen.overlay {
        Some(overlay) => overlay.lines.join("\n"),
        None => String::new(),
    };
    format!(
        "{}\n{}\n{}\n{}\n{}",
        screen.heading.join("\n"),
        screen.body_title,
        body,
        screen.footer.join("\n"),
        overlay
    )
}

#[test]
fn escape_from_analyze_root_returns_to_home() {
    let mut app = app_with(ready_analyze(&at("large.bin"), ANALYZE_MINIMUM_SIZE));
    assert!(matches!(
        press(&mut app, key(Key::Esc)),
        UiOutcome::Continue
    ));
    assert!(matches!(app.screen, Screen::Home));
}

#[test]
fn analyze_requires_confirmation_before_permanently_removing_a_file() {
    let file = at("Downloads/large.bin");
    let mut app = app_with(ready_analyze(&file, ANALYZE_MINIMUM_SIZE));
    assert!(matches!(
        press(&mut app, key(Key::Char(' '))),
        UiOutcome::Continue
    ));
    assert!(matches!(
        press(&mut app, key(Key::Char('d'))),
        UiOutcome::Continue
    ));
    assert!(explorer(&app).confirming_delete);
    assert!(matches!(press(&mut app, key(Key::Enter)), UiOutcome::Remove));
    assert_eq!(carry_out(&mut app), [file]);
}

#[test]
fn hidden_files_are_selectable_but_protected_locations_are_not() {
    assert!(!selectable(
        "/home/tester/.config/private.bin",
        false,
        ANALYZE_MINIMUM_SIZE
    ));
    assert!(selectable(
        "/home/tester/.ollama/models/blobs/sha256-abc",
        false,
        ANALYZE_MINIMUM_SIZE
    ));
    assert!(selectable(
        "/home/tester/Downloads/archive.iso",
        false,
        ANALYZE_MINIMUM_SIZE
    ));
    assert!(!selectable(
        "/home/tester/Downloads/note.txt",
        false,
        ANALYZE_MINIMUM_SIZE - 1
    ));
}

#[test]
fn selectability_reasons_are_specific_to_the_refusal_cause() {
    let verdict = |path: &str, is_dir: bool, size: u64| {
        personal_file_selectability(HOME, path, candidate(is_dir, size))
    };
    assert_eq!(
        verdict("/home/tester/Downloads", true, ANALYZE_MINIMUM_SIZE),
        Ok(())
    );
    assert_eq!(
        verdict(
            "/home/tester/Downloads/note.txt",
            false,
            ANALYZE_MINIMUM_SIZE - 1
        ),
        Err(PersonalFileRefusal::BelowMinimumSize)
    );
    assert_eq!(
        verdict("/home/tester/.config/big.bin", false, ANALYZE_MINIMUM_SIZE),
        Err(PersonalFileRefusal::ProtectedLocation)
    );
    assert_eq!(
        verdict(
            "/home/tester/go/pkg/mod/archive.bin",
            false,
            ANALYZE_MINIMUM_SIZE
        ),
        Err(PersonalFileRefusal::ProtectedLocation)
    );
    assert_eq!(
        verdict("/somewhere/else/archive.iso", false, ANALYZE_MINIMUM_SIZE),
        Err(PersonalFileRefusal::OutsideHome)
    );
    assert_eq!(
        verdict(
            "/home/tester/Downloads/archive.iso",
            false,
            ANALYZE_MINIMUM_SIZE
        ),
        Ok(())
    );
}

#[test]
fn git_repository_root_directories_are_refused_with_a_specific_reason() {
    let project = at("code/project");
    let repository = Candidate {
        is_dir: true,
        git_root: true,
        size: ANALYZE_MINIMUM_SIZE,
    };
    assert_eq!(
        personal_file_selectability(HOME, &project, repository),
        Err(PersonalFileRefusal::GitRepository)
    );
    let mut facts = present(EntryKind::Directory);
    facts.git_root = true;
    assert!(executor().validate_personal_file(&project, &facts).is_err());
}

#[test]
fn selectable_paths_are_always_accepted_by_validate_personal_file() {
    let executor = executor();
    let big = ANALYZE_MINIMUM_SIZE;
    let cases: &[(&str, u64, bool, bool)] = &[
        ("Downloads/archive.iso", big, false, true),
        (".ollama/models/blobs/sha256-abc", big, false, true),
        (
            ".local/share/containers/storage/disk.qcow2",
            big,
            false,
            true,
        ),
        ("Videos/recordings", big, true, true),
        ("go/pkg/mod/archive.bin", big, false, false),
        (".ssh/id_rsa_backup", big, false, false),
        (".gnupg/secring.gpg", big, false, false),
        (".config/app/state.bin", big, false, false),
        (".git/objects/pack/big.pack", big, false, false),
        ("code/project/.git/objects/pack/big.pack", big, false, false),
        (".ssh", big, true, false),
        (".gnupg", big, true, false),
        (".config", big, true, false),
        (".git", big, true, false),
        ("go/pkg", big, true, false),
    ];
    for (relative, size, is_dir, expected_selectable) in cases {
        let path = at(relative);
        let facts = if *is_dir {
            present(EntryKind::Directory)
        } else {
            present(EntryKind::File)
        };
        let is_row_selectable = selectable(&path, *is_dir, *size);
        assert_eq!(
            is_row_selectable, *expected_selectable,
            "unexpected selectability for {relative}"
        );
        if is_row_selectable {
            assert!(
                executor.validate_personal_file(&path, &facts).is_ok(),
                "validate_personal_file disagreed with personal_file_selectability for {relative}"
            );
        } else {
            assert!(
                executor.validate_personal_file(&path, &facts).is_err(),
                "protected location {relative} was unexpectedly accepted by validate_personal_file"
            );
        }
    }
}

#[test]
fn forced_selection_accepts_paths_the_unforced_rules_refuse() {
    let big = ANALYZE_MINIMUM_SIZE;
    let small = at("Downloads/note.txt");
    assert!(!selectable(&small, false, big - 1));
    assert!(selectable_forced(&small, false, big - 1));

    let project = at("code/project");
    let repository = || Candidate {
        is_dir: true,
        git_root: true,
        size: big,
    };
    assert!(personal_file_selectability(HOME, &project, repository()).is_err());
    assert!(personal_file_selectability_forced(HOME, &project, repository()).is_ok());

    for relative in [".ssh", ".gnupg", ".config", ".git", "go/pkg"] {
        let dir = at(relative);
        assert!(
            !selectable(&dir, true, big),
            "expected unforced selection to still refuse {relative}"
        );
        assert!(
            selectable_forced(&dir, true, big),
            "expected forced selection to accept {relative}"
        );
    }
}

#[test]
fn forced_selection_agrees_with_forced_executor_validation() {
    let executor = executor();
    let big = ANALYZE_MINIMUM_SIZE;
    let project = at("code/project");
    let mut facts = present(EntryKind::Directory);
    facts.git_root = true;
    assert!(selectable_forced(&project, true, big));
    assert!(executor
        .validate_personal_file_forced(&project, &facts)
        .is_ok());
    for relative in [".ssh", ".gnupg", ".config", ".git", "go/pkg"] {
        let dir = at(relative);
        assert!(selectable_forced(&dir, true, big));
        assert!(
            executor
                .validate_personal_file_forced(&dir, &present(EntryKind::Directory))
                .is_ok(),
            "forced executor validation disagreed with forced selectability for {relative}"
        );
    }
}

#[test]
fn forced_selection_still_refuses_a_path_outside_home() {
    assert_eq!(
        personal_file_selectability_forced(
            HOME,
            "/somewhere/else/archive.iso",
            candidate(false, ANALYZE_MINIMUM_SIZE)
        ),
        Err(PersonalFileRefusal::OutsideHome)
    );
}

fn personal_item(path: &str, label: &str, bytes: u64) -> CleanupItem {
    CleanupItem {
        id: "large-file:test".to_string(),
        group: CleanupGroup::User,
        label: label.to_string(),
        estimated_bytes: bytes,
        risk: Risk::Explicit,
        action: CleanupAction::RemovePersonalFile {
            path: path.to_string(),
            force: false,
        },
    }
}

#[test]
fn large_directory_is_selectable_and_removed_recursively() {
    let dir = at("Videos/recordings");
    assert!(selectable(&dir, true, ANALYZE_MINIMUM_SIZE));
    let mut executor = executor();
    let facts = present(EntryKind::Directory);
    assert!(executor.validate_personal_file(&dir, &facts).is_ok());
    let item = personal_item(&dir, "recordings", 16);
    assert!(matches!(
        executor.execute(&item, &facts, false),
        Progress::Remove {
            contents_only: false,
            ..
        }
    ));
    let result = executor.finish_removal(&item, Ok(()));
    assert!(result.success, "{}", result.message);
}

#[test]
fn symlinked_directory_is_refused_and_its_target_survives() {
    let link = at("linked-large-dir");
    let mut executor = executor();
    let facts = present(EntryKind::Symlink);
    assert!(executor.validate_personal_file(&link, &facts).is_err());
    let item = personal_item(&link, "linked-large-dir", ANALYZE_MINIMUM_SIZE);
    match executor.execute(&item, &facts, false) {
        Progress::Done(result) => assert!(!result.success),
        Progress::Remove { path, .. } => panic!("{path} would be removed"),
    }
}

#[test]
fn unsafe_directory_targets_are_still_refused() {
    let executor = executor();
    let directory = present(EntryKind::Directory);
    assert!(executor.validate_personal_file(HOME, &directory).is_err());
    let escaping = at("Videos/../../etc");
    assert!(executor
        .validate_personal_file(&escaping, &directory)
        .is_err());
    assert!(executor
        .validate_personal_file(&at("linked-dir"), &present(EntryKind::Symlink))
        .is_err());
    let mut below_link = present(EntryKind::Directory);
    below_link.way = vec![EntryKind::Symlink, EntryKind::Directory];
    assert!(executor
        .validate_personal_file(&at("ancestor-link/nested-dir"), &below_link)
        .is_err());
}

#[test]
fn analyze_view_makes_removal_and_back_navigation_discoverable() {
    let state = ready_analyze(&at("large.bin"), ANALYZE_MINIMUM_SIZE);
    let screen = analyze_screen(&state, &row_facts(1), &Vec::new());
    let text = rendered(&screen);
    assert!(text.contains("large.bin"));
    assert!(text.contains("d Delete"));
    assert!(text.contains("Esc back"));
}

#[test]
fn non_selectable_rows_carry_an_inline_refusal_tag_and_selectable_rows_do_not() {
    let entry = DiskEntry {
        name: "example".to_string(),
        path: "/home/tester/example".to_string(),
        size: ANALYZE_MINIMUM_SIZE,
        is_dir: false,
    };
    let file = LargeFile {
        path: "/home/tester/example.bin".to_string(),
        size: ANALYZE_MINIMUM_SIZE,
        modified_unix: None,
        app_data: false,
    };
    let facts = &row_facts(1)[0];
    let cases: &[(PersonalFileRefusal, String)] = &[
        (PersonalFileRefusal::OutsideHome, "outside home".to_string()),
        (
            PersonalFileRefusal::ProtectedLocation,
            "protected location".to_string(),
        ),
        (
            PersonalFileRefusal::GitRepository,
            "git repository".to_string(),
        ),
        (
            PersonalFileRefusal::BelowMinimumSize,
            format!("below {}", format_bytes(ANALYZE_MINIMUM_SIZE)),
        ),
    ];
    let selectable_disk_row = disk_item(&entry, facts, false, Ok(()));
    let selectable_file_row = file_item(&file, facts, false, Ok(()));
    for (_, tag) in cases {
        let annotation = format!("({tag})");
        assert!(
            !selectable_disk_row.contains(&annotation),
            "a selectable directory row must not carry a refusal tag: {selectable_disk_row}"
        );
        assert!(
            !selectable_file_row.contains(&annotation),
            "a selectable file row must not carry a refusal tag: {selectable_file_row}"
        );
    }
    for (refusal, tag) in cases {
        let disk_row = disk_item(&entry, facts, false, Err(*refusal));
        assert!(
            disk_row.contains(&format!("({tag})")),
            "expected disk row to contain tag {tag:?}: {disk_row}"
        );
        let file_row = file_item(&file, facts, false, Err(*refusal));
        assert!(
            file_row.contains(&format!("({tag})")),
            "expected file row to contain tag {tag:?}: {file_row}"
        );
    }
    assert_eq!(
        selectable_disk_row,
        "○ 100.0% ████████████   example   476.8 MiB"
    );
}

#[test]
fn entering_analyze_renders_loading_immediately_and_escape_cancels_scan() {
    let state = AnalyzeState::new(HOME.to_string());
    assert!(state.locations[0].scan.is_some());
    let screen = analyze_screen(&state, &Vec::new(), &Vec::new());
    assert!(rendered(&screen).contains("Scanning disk usage"));
    let mut app = app_with(state);
    press(&mut app, key(Key::Esc));
    // With the explorer its scan is gone.
    assert!(matches!(app.screen, Screen::Home));
}

#[test]
fn every_main_menu_action_opens_an_immediate_loading_screen() {
    for action in [
        MenuAction::Clean,
        MenuAction::Uninstall,
        MenuAction::Purge,
        MenuAction::Status,
        MenuAction::History,
        MenuAction::Update,
    ] {
        let mut workflow = WorkflowState::new(action);
        assert!(workflow.loading);
        let text = rendered(&workflow_screen(&workflow));
        assert!(
            text.contains(&format!("Loading {}", action_title(action))),
            "missing loading state for {}",
            action_title(action)
        );
        assert!(matches!(
            workflow.handle_key(Key::Esc, false),
            WorkflowOutcome::Leave
        ));
    }
}

fn workflow(action: MenuAction) -> WorkflowState {
    let mut state = WorkflowState::new(action);
    state.loading = false;
    state
}

#[test]
fn destructive_workflow_cannot_go_back_while_execution_is_active() {
    let mut state = workflow(MenuAction::Clean);
    state.executing = true;
    state.status = "Running Clean...".to_string();
    assert!(matches!(
        state.handle_key(Key::Esc, false),
        WorkflowOutcome::Stay
    ));
    assert!(state.status.contains("wait for the result"));
}

#[test]
fn workflow_detects_every_root_command_before_execution() {
    let direct = CleanupAction::Command {
        program: "apt-get".to_string(),
        args: vec!["clean".to_string()],
        requires_root: true,
    };
    let sequence = CleanupAction::CommandSequence {
        commands: vec![CommandSpec {
            program: "paccache".to_string(),
            args: vec!["-rk1".to_string()],
            requires_root: true,
        }],
    };
    let personal = CleanupAction::RemovePersonalFile {
        path: "/home/tester/Downloads/file.iso".to_string(),
        force: false,
    };
    assert!(cleanup_action_requires_root(&direct));
    assert!(cleanup_action_requires_root(&sequence));
    assert!(!cleanup_action_requires_root(&personal));
}

fn entry(name: &str, size: u64) -> DiskEntry {
    DiskEntry {
        name: name.to_string(),
        path: format!("/root/{name}"),
        size,
        is_dir: true,
    }
}

fn entries(list: &[(&str, u64)]) -> PathMap<DiskEntry> {
    let mut map = PathMap::new();
    for (name, size) in list {
        map.insert(format!("/root/{name}"), entry(name, *size));
    }
    map
}

#[test]
fn reorder_keeps_cursor_on_the_same_path_after_a_size_change() {
    let known = entries(&[("a", 10), ("b", 5)]);
    let previous_sorted = vec![entry("a", 10), entry("b", 5)];
    let selected = Some("/root/b".to_string());
    let (sorted, resolved) = reorder_and_reconcile(&known, &previous_sorted, &selected);
    assert_eq!(sorted[1].path, "/root/b");
    assert_eq!(resolved, Some("/root/b".to_string()));

    let grown = entries(&[("a", 10), ("b", 50)]);
    let (sorted, resolved) = reorder_and_reconcile(&grown, &sorted, &resolved);
    assert_eq!(sorted[0].path, "/root/b");
    assert_eq!(resolved, Some("/root/b".to_string()));
}

#[test]
fn enter_targets_the_selected_path_even_after_a_same_tick_reorder() {
    let known = entries(&[("a", 1), ("b", 100), ("c", 2)]);
    let previous_sorted = vec![entry("b", 100), entry("c", 2), entry("a", 1)];
    let (sorted, resolved) =
        reorder_and_reconcile(&known, &previous_sorted, &Some("/root/c".to_string()));
    assert_eq!(resolved, Some("/root/c".to_string()));
    assert!(sorted.iter().any(|item| item.path == "/root/c"));
}

fn large_file(path: &str, size: u64) -> LargeFile {
    LargeFile {
        path: path.to_string(),
        size,
        modified_unix: None,
        app_data: false,
    }
}

#[test]
fn topfiles_cursor_survives_a_larger_file_arriving_after_it_is_placed() {
    let mut location = Location::new("/root".to_string());
    location.large_files = vec![
        large_file("/root/a.bin", ANALYZE_MINIMUM_SIZE + 10),
        large_file("/root/b.bin", ANALYZE_MINIMUM_SIZE + 5),
    ];
    location.selected_large_file = Some("/root/b.bin".to_string());
    location.complete = true;
    location.needs_reorder = false;
    let mut state = state_with(location, AnalyzeMode::TopFiles, Some(1));
    state.home = "/root".to_string();

    state.locations[0]
        .large_files
        .push(large_file("/root/c.bin", ANALYZE_MINIMUM_SIZE + 100));
    state.reconcile_list_state();

    assert_eq!(
        state.active().selected_large_file.as_deref(),
        Some("/root/b.bin"),
        "the identity-tracked selection must stay on the originally highlighted file"
    );
    assert_eq!(
        state.cursor,
        Some(2),
        "the numeric cursor must follow \"b.bin\" to its new position"
    );
    let (path, _) = state
        .focused_file_impl(false, false)
        .expect("b.bin is selectable");
    assert_eq!(path, "/root/b.bin");
}

fn below_floor() -> App {
    app_with(ready_analyze(&at("Downloads/small.bin"), 10))
}

#[test]
fn plain_d_still_refuses_a_row_the_size_floor_refuses() {
    let mut app = below_floor();
    assert!(matches!(
        press(&mut app, key(Key::Char('d'))),
        UiOutcome::Continue
    ));
    assert!(!explorer(&app).confirming_delete);
}

#[test]
fn shift_d_force_deletes_a_row_the_size_floor_refuses() {
    let mut app = below_floor();
    assert!(matches!(
        press(&mut app, key(Key::Char('D'))),
        UiOutcome::Continue
    ));
    assert!(explorer(&app).confirming_delete);
    assert!(!explorer(&app).pending_delete.is_empty());
    assert!(explorer(&app)
        .pending_delete
        .entries
        .iter()
        .all(|entry| entry.1.force));
    assert!(matches!(press(&mut app, key(Key::Enter)), UiOutcome::Remove));
    assert_eq!(carry_out(&mut app), [at("Downloads/small.bin")]);
}

#[test]
fn plain_space_selects_normally_without_a_modifier() {
    let mut app = app_with(ready_analyze(
        &at("Downloads/large.bin"),
        ANALYZE_MINIMUM_SIZE,
    ));
    press(&mut app, key(Key::Char(' ')));
    let selected = &explorer(&app).selected_files.entries;
    assert_eq!(selected.len(), 1);
    assert!(selected.iter().all(|entry| !entry.1.force));
}

#[test]
fn space_with_shift_modifier_force_selects_a_row_the_normal_rules_refuse() {
    let mut app = below_floor();
    press(&mut app, key(Key::Char(' ')));
    assert!(explorer(&app).selected_files.is_empty());
    press(&mut app, shift_key(Key::Char(' ')));
    let selected = &explorer(&app).selected_files.entries;
    assert_eq!(selected.len(), 1);
    assert!(selected.iter().all(|entry| entry.1.force));
}

#[test]
fn s_is_a_portable_alias_for_force_select() {
    let mut app = below_floor();
    press(&mut app, key(Key::Char('S')));
    let selected = &explorer(&app).selected_files.entries;
    assert_eq!(selected.len(), 1);
    assert!(selected.iter().all(|entry| entry.1.force));
}

#[test]
fn toggle_selection_refusal_sets_warning_severity() {
    let mut app = below_floor();
    press(&mut app, key(Key::Char(' ')));
    assert_eq!(explorer(&app).status_severity, StatusSeverity::Warning);
    assert_eq!(
        explorer(&app).status,
        personal_file_refusal_message(PersonalFileRefusal::BelowMinimumSize)
    );
}

#[test]
fn confirm_delete_execution_failure_sets_error_severity() {
    let mut state = ready_analyze(&at("Downloads/large.bin"), ANALYZE_MINIMUM_SIZE);
    state.pending_delete.insert(
        at(".config/state.bin"),
        PendingRemoval {
            size: 8,
            is_dir: false,
            force: false,
        },
    );
    let mut app = app_with(state);
    assert!(carry_out(&mut app).is_empty());
    let state = explorer(&app);
    assert_eq!(state.status_severity, StatusSeverity::Error);
    assert_eq!(state.status, "1 removal(s) failed");
    assert!(state
        .results
        .as_ref()
        .unwrap()
        .iter()
        .any(|result| !result.success));
}

#[test]
fn forced_confirmation_dialog_names_the_overridden_guard() {
    let file = at("Downloads/small.bin");
    let mut state = ready_analyze(&file, 10);
    state.pending_delete.insert(
        file,
        PendingRemoval {
            size: 10,
            is_dir: false,
            force: true,
        },
    );
    let text = delete_confirmation(&state, &vec![false]).lines.join("\n");
    assert!(text.contains("FORCE removal"));
    assert!(text.contains("overriding:"));
    assert!(text.contains(&format!("below {}", format_bytes(ANALYZE_MINIMUM_SIZE))));
}

// What follows states the laws of the screens on chosen values.

#[test]
fn each_overridden_rule_is_named_once() {
    let mut state = ready_analyze(&at("a.bin"), 10);
    for (name, is_dir) in [("a.bin", false), ("b.bin", false), (".ssh", true), ("repo", true)] {
        state.pending_delete.insert(
            at(name),
            PendingRemoval {
                size: 10,
                is_dir,
                force: true,
            },
        );
    }
    // The paths stand in their order: `.ssh`, `a.bin`, `b.bin`, `repo`.
    let overlay = delete_confirmation(&state, &vec![false, false, false, true]);
    assert_eq!(
        overlay.lines,
        [
            "FORCE removal: permanently remove?",
            "",
            "4 selected files",
            "overriding: protected location, below 476.8 MiB, git repository",
            "This is a directory: it and all of its contents will be permanently removed.",
            "Total: 40 B",
            "",
            "Enter: confirm   Esc: cancel",
        ]
    );
    assert_eq!(overlay.height, 11);
    assert_eq!(overlay.tone, Tone::Danger);
    assert_eq!(overlay.warning, Some(4));
}

#[test]
fn selecting_a_row_twice_changes_nothing() {
    let mut app = app_with(ready_analyze(&at("x.bin"), ANALYZE_MINIMUM_SIZE));
    press(&mut app, key(Key::Char(' ')));
    assert!(!explorer(&app).selected_files.is_empty());
    press(&mut app, key(Key::Char(' ')));
    assert!(explorer(&app).selected_files.is_empty());
}

#[test]
fn a_question_can_be_cancelled() {
    let mut app = app_with(ready_analyze(&at("x.bin"), ANALYZE_MINIMUM_SIZE));
    press(&mut app, key(Key::Char('d')));
    assert!(explorer(&app).confirming_delete);
    assert!(matches!(
        press(&mut app, key(Key::Esc)),
        UiOutcome::Continue
    ));
    assert!(!explorer(&app).confirming_delete);
    // Without the question Enter removes nothing.
    assert!(matches!(
        press(&mut app, key(Key::Enter)),
        UiOutcome::Continue
    ));
}

#[test]
fn a_repository_under_the_cursor_is_refused() {
    let mut state = ready_analyze(&at("repo"), ANALYZE_MINIMUM_SIZE);
    state.locations[0].sorted[0].is_dir = true;
    assert_eq!(
        state.focused_file_impl(false, true).err(),
        Some(FocusRefusal::NotSelectable(PersonalFileRefusal::GitRepository))
    );
    assert!(state.focused_file_impl(true, true).is_ok());
    state.cursor = None;
    assert_eq!(
        state.focused_file_impl(false, false).err(),
        Some(FocusRefusal::NoSelection)
    );
}

#[test]
fn a_cursor_goes_round_its_list() {
    assert_eq!(step(None, Motion::Down, 0), None);
    assert_eq!(step(Some(0), Motion::Down, 3), Some(1));
    let last = step(Some(2), Motion::Down, 3).unwrap();
    assert!(last < 3);
    let first = step(Some(0), Motion::Up, 3).unwrap();
    assert!(first < 3);
}

#[test]
fn the_menu_shows_every_action() {
    let rows = menu_rows();
    assert_eq!(rows.len(), 7);
    assert!(rows[0].starts_with("Clean     "));
    let mut app = App::new(HOME.to_string());
    assert!(matches!(press(&mut app, key(Key::Enter)), UiOutcome::Load));
    assert!(matches!(app.screen, Screen::Workflow(_)));
    let mut app = App::new(HOME.to_string());
    assert!(matches!(press(&mut app, key(Key::Char('q'))), UiOutcome::Quit));
}

fn progress(top: &str, size: u64, files: u64) -> ScanUpdate {
    ScanUpdate::Progress {
        top: at(top),
        size,
        files,
        is_dir: true,
    }
}

#[test]
fn repeated_progress_counts_once() {
    let mut location = Location::new(HOME.to_string());
    location.start_scan(0);
    location.drain(
        &vec![
            progress("a", 10, 1),
            progress("a", 30, 4),
            progress("b", 5, 1),
            ScanUpdate::Skipped(2),
            ScanUpdate::Large(large_file(&at("a/x"), 25)),
        ],
        false,
    );
    assert_eq!(location.total_size, 35);
    assert_eq!(location.total_files, 5);
    assert_eq!(location.skipped, 2);
    assert!(location.has_data());
    location.reorder();
    let names: Vec<&str> = location
        .sorted
        .iter()
        .map(|entry| entry.name.as_str())
        .collect();
    assert_eq!(names, ["a", "b"]);
    location.drain(
        &vec![ScanUpdate::Done {
            total_size: 40,
            total_files: 6,
            skipped: 2,
        }],
        false,
    );
    assert!(location.complete);
    assert_eq!(location.total_size, 40);
}

#[test]
fn directories_are_entered_and_left() {
    let mut app = App::new(HOME.to_string());
    app.screen = Screen::Analyze(Box::new(AnalyzeState::new(HOME.to_string())));
    if let Screen::Analyze(state) = &mut app.screen {
        let scan = state.locations[0].scan.unwrap();
        state.feed(scan, &vec![progress("a", 10, 1)], false);
        state.poll(true);
    }
    assert_eq!(explorer(&app).cursor, Some(0));
    press(&mut app, key(Key::Enter));
    assert_eq!(explorer(&app).locations.len(), 2);
    assert_eq!(explorer(&app).active().path, at("a"));
    press(&mut app, key(Key::Esc));
    assert_eq!(explorer(&app).locations.len(), 1);
    assert_eq!(explorer(&app).active().path, HOME);
}

#[test]
fn few_scans_run_at_once() {
    let mut state = AnalyzeState::new(HOME.to_string());
    let mut path = String::new();
    for depth in 0..6 {
        let scan = state.active().scan.unwrap();
        let name = format!("d{depth}");
        path = if path.is_empty() {
            name
        } else {
            format!("{path}/{name}")
        };
        state.feed(scan, &vec![progress(&path, 10, 1)], false);
        state.poll(true);
        state.enter_selected();
        assert_eq!(state.active().path, at(&path));
    }
    let running = state
        .locations
        .iter()
        .filter(|location| location.scan.is_some())
        .count();
    assert!(running <= ANALYZE_LIVE_SCAN_CAP);
}

#[test]
fn a_filter_narrows_the_rows() {
    let mut app = app_with(ready_analyze(&at("large.bin"), ANALYZE_MINIMUM_SIZE));
    press(&mut app, key(Key::Char('/')));
    assert!(explorer(&app).filtering);
    press(&mut app, key(Key::Char('Z')));
    press(&mut app, key(Key::Enter));
    assert!(explorer(&app).visible_rows().is_empty());
    let screen = analyze_screen(explorer(&app), &Vec::new(), &Vec::new());
    assert_eq!(screen.footer[0], "Filter: Z");
    press(&mut app, key(Key::Esc));
    assert_eq!(explorer(&app).visible_rows().len(), 1);
}

#[test]
fn failures_are_shown() {
    let mut state = ready_analyze(&at("x.bin"), 10);
    state.locations[0].error = Some("denied".to_string());
    let screen = analyze_screen(&state, &row_facts(1), &Vec::new());
    assert_eq!(screen.body, Body::Failure("\n  Scan failed: denied".to_string()));
    assert_eq!(
        screen.heading,
        ["TuxCleaner › Analyze", "/home/tester  ·  10 B across 1 files"]
    );
}

fn item(id: &str, group: CleanupGroup, bytes: u64, root: bool) -> CleanupItem {
    CleanupItem {
        id: id.to_string(),
        group,
        label: id.to_string(),
        estimated_bytes: bytes,
        risk: Risk::Low,
        action: CleanupAction::Command {
            program: "docker".to_string(),
            args: Vec::new(),
            requires_root: root,
        },
    }
}

fn clean_data(root: bool) -> WorkflowData {
    WorkflowData::Clean(ScanReport::from_items(
        "Arch".to_string(),
        vec![
            item("one", CleanupGroup::Dev, 1024, root),
            item("two", CleanupGroup::User, 2048, root),
        ],
        Vec::new(),
    ))
}

fn loaded(action: MenuAction, data: WorkflowData) -> WorkflowState {
    let mut state = WorkflowState::new(action);
    state.poll(WorkflowEvent::Loaded(Ok(data)));
    state
}

#[test]
fn a_cleanup_is_reviewed_before_it_runs() {
    let mut state = loaded(MenuAction::Clean, clean_data(false));
    assert_eq!(state.status, "2 candidates · 3.0 KiB estimated");
    // Nothing is selected, so there is nothing to confirm.
    state.handle_key(Key::Enter, false);
    assert!(!state.confirming);
    state.handle_key(Key::Char(' '), false);
    assert_eq!(state.selected, [0]);
    state.handle_key(Key::Enter, false);
    assert!(state.confirming);
    let overlay = workflow_confirmation(&state).unwrap();
    assert_eq!(
        overlay.lines,
        [
            "Clean 1 selected item(s), 1.0 KiB?",
            "",
            "Caches and other rebuildable data will be permanently removed.",
            "",
            "Enter: confirm   Esc: cancel",
        ]
    );
    match state.handle_key(Key::Enter, false) {
        WorkflowOutcome::Execute(WorkflowExecution::Clean {
            distribution,
            items,
        }) => {
            assert_eq!(distribution, "Arch");
            assert_eq!(items.len(), 1);
            assert_eq!(items[0].id, "one");
        }
        _ => panic!("expected an execution"),
    }
    assert!(state.executing);
}

#[test]
fn root_is_asked_for_first() {
    let mut state = loaded(MenuAction::Clean, clean_data(true));
    state.handle_key(Key::Char(' '), false);
    state.handle_key(Key::Enter, false);
    assert!(matches!(
        state.handle_key(Key::Enter, false),
        WorkflowOutcome::Authorize
    ));
    assert!(!state.executing);
    assert!(matches!(
        state.finish_authorization(Err("no".to_string())),
        WorkflowOutcome::Stay
    ));
    assert!(!state.executing);

    let mut state = loaded(MenuAction::Clean, clean_data(true));
    state.handle_key(Key::Char(' '), false);
    state.handle_key(Key::Enter, false);
    assert!(matches!(
        state.handle_key(Key::Enter, true),
        WorkflowOutcome::Execute(_)
    ));
}

#[test]
fn toggling_a_row_twice_changes_nothing() {
    let mut state = loaded(MenuAction::Clean, clean_data(false));
    state.toggle_selection();
    state.move_selection(Motion::Down);
    state.toggle_selection();
    assert_eq!(state.selected, [0, 1]);
    assert_eq!(selected_workflow_bytes(&state.data, &state.selected), 3072);
    state.toggle_selection();
    assert_eq!(state.selected, [0]);
}

fn application(package: &str) -> Application {
    Application {
        id: Application::new_id(ApplicationSource::Apt, package),
        name: package.to_string(),
        package: package.to_string(),
        version: "1".to_string(),
        source: ApplicationSource::Apt,
        installed_bytes: 2048,
        user_data_bytes: 0,
        desktop_file: None,
        user_data_paths: Vec::new(),
    }
}

fn preview(application: &Application, command: &str) -> UninstallPreview {
    UninstallPreview {
        application_id: application.id.clone(),
        command: command.to_string(),
        removals: Vec::new(),
        raw: String::new(),
        preserves_user_data: true,
    }
}

#[test]
fn an_uninstall_is_previewed_before_it_is_confirmed() {
    let report = ApplicationReport {
        distribution: "Debian".to_string(),
        applications: vec![application("vlc")],
        warnings: Vec::new(),
    };
    let mut state = loaded(MenuAction::Uninstall, WorkflowData::Uninstall(report));
    assert_eq!(
        workflow_items(state.data.as_ref().unwrap(), &state.selected),
        ["○    2.0 KiB  vlc · apt · vlc"]
    );
    state.handle_key(Key::Char(' '), false);
    match state.handle_key(Key::Enter, false) {
        WorkflowOutcome::Prepare(applications) => assert_eq!(applications.len(), 1),
        _ => panic!("expected a preview"),
    }
    assert!(state.preparing);
    let plan = vec![preview(&application("vlc"), "apt-get remove vlc")];
    state.poll(WorkflowEvent::Prepared(Ok(plan)));
    assert!(state.confirming);
    let overlay = workflow_confirmation(&state).unwrap();
    assert_eq!(overlay.lines[4], "apt-get remove vlc");
}

#[test]
fn a_plan_must_be_the_reviewed_one() {
    let applications = vec![application("vlc")];
    let plan = vec![preview(&applications[0], "x")];
    assert_eq!(check_reviewed_plan(&applications, &plan), Ok(()));
    assert!(check_reviewed_plan(&applications, &Vec::new()).is_err());
}

#[test]
fn lost_work_is_reported() {
    let mut state = WorkflowState::new(MenuAction::Clean);
    state.poll(WorkflowEvent::Loaded(Err("no disk".to_string())));
    let text = rendered(&workflow_screen(&state));
    assert!(text.contains("Operation failed"));
    assert!(text.contains("no disk"));
    let mut state = WorkflowState::new(MenuAction::Clean);
    state.poll(WorkflowEvent::LoadLost);
    assert!(!state.loading);
    assert!(state.error.is_some());
}

fn result(success: bool, dry_run: bool, bytes: u64) -> ActionResult {
    ActionResult {
        item_id: "x".to_string(),
        label: "x".to_string(),
        success,
        dry_run,
        estimated_bytes: bytes,
        message: "busy".to_string(),
    }
}

#[test]
fn results_are_summed_up() {
    let results = vec![
        result(true, false, 1024),
        result(false, false, 5),
        result(false, false, 5),
        result(false, false, 5),
        result(false, false, 5),
    ];
    assert_eq!(
        removal_result_overlay(&results).lines,
        [
            "1/5 permanently removed",
            "Space covered: 1.0 KiB",
            "",
            "Failed: busy",
            "Failed: busy",
            "Failed: busy",
            "Enter or Esc: continue",
        ]
    );
    assert_eq!(removal_result_overlay(&results).tone, Tone::Caution);
    let outcome = workflow_result_overlay(&WorkflowResult::Actions(results));
    assert_eq!(outcome.lines[1], "Estimated space covered: 1.0 KiB");
    assert_eq!(outcome.tone, Tone::Caution);
    let good = vec![result(true, false, 1024)];
    assert_eq!(removal_result_overlay(&good).tone, Tone::Good);
    let update = WorkflowResult::Update(UpdateResult {
        previous_version: "0.4.0".to_string(),
        installed_version: "0.5.0".to_string(),
        target: "x86_64-unknown-linux-gnu".to_string(),
        updated: true,
    });
    assert_eq!(
        workflow_result_overlay(&update).lines[1],
        "0.4.0 → 0.5.0 (x86_64-unknown-linux-gnu)"
    );
    assert_eq!(workflow_result_overlay(&update).tone, Tone::Good);
}

#[test]
fn a_history_row_shows_its_time() {
    let record = HistoryRecord {
        timestamp: 1_700_000_000,
        distribution: "Arch".to_string(),
        command: "clean".to_string(),
        results: vec![result(true, false, 1024), result(true, true, 1024)],
    };
    assert_eq!(
        workflow_items(&WorkflowData::History(vec![record]), &Vec::new()),
        ["2023-11-14 22:13 UTC  clean                 2/2 succeeded  1.0 KiB"]
    );
}

#[test]
fn other_rows_show_what_they_hold() {
    let candidates = vec![PurgeCandidate {
        path: at("p/target"),
        kind: "target".to_string(),
        size: 1024,
        age_days: 12,
    }];
    assert_eq!(
        workflow_items(&WorkflowData::Purge(candidates), &vec![0]),
        ["●    1.0 KiB  target · 12 days · /home/tester/p/target"]
    );
    let info = UpdateInfo {
        current_version: "0.4.0".to_string(),
        available_version: "0.5.0".to_string(),
        target: "x".to_string(),
        update_available: true,
    };
    let data = WorkflowData::Update(info);
    assert_eq!(workflow_ready_status(&data), "Version 0.5.0 is available");
    assert_eq!(workflow_items(&data, &Vec::new()).len(), 4);
    let status = SystemStatus {
        hostname: "tux".to_string(),
        logical_cpus: 8,
        load_average: ["0.10".to_string(), "0.20".to_string(), "0.30".to_string()],
        uptime_seconds: 90_061,
        memory: MemoryStatus {
            total_bytes: 2048,
            available_bytes: 1024,
            used_bytes: 1024,
        },
        memory_percent: "50.0".to_string(),
        disks: vec![DiskStatus {
            filesystem: "/dev/sda".to_string(),
            mount: "/".to_string(),
            total_bytes: 2048,
            used_bytes: 1024,
            available_bytes: 1024,
        }],
        disk_percents: vec!["50.0".to_string()],
    };
    assert_eq!(
        status_lines(&status),
        [
            "Host       tux",
            "CPU        8 logical cores · load 0.10 / 0.20 / 0.30",
            "Memory     1.0 KiB / 2.0 KiB used (50.0%)",
            "Uptime     1d 1h 1m",
            "",
            "Disks",
            "  /                       1.0 KiB /    2.0 KiB ( 50.0%)",
        ]
    );
}
