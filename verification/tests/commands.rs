//! The command line: what it plans and what it prints.
use tuxcleaner::analyze::{AnalysisReport, DiskEntry, LargeFile};
use tuxcleaner::cli::analyze::{
    chosen_files, confirm_removal_prompt, large_file_labels, personal_candidates, plan_analyze,
    select_exact_large_files, AnalyzePlan, RequestedFile,
};
use tuxcleaner::cli::args::{
    AnalyzeArgs, CleanArgs, HistoryArgs, PurgeArgs, UninstallArgs, UpdateArgs,
};
use tuxcleaner::cli::clean::{
    choose_groups, chosen_groups, progress_line, select_items, CleanPlan,
};
use tuxcleaner::cli::information::{
    confirm_update_prompt, history_line, plan_update, release_line, status_report_lines,
    update_result_line, validate_update, UpdatePlan,
};
use tuxcleaner::cli::purge::{
    artifact_labels, chosen_artifacts, confirm_purge_prompt, plan_purge, PurgePlan,
};
use tuxcleaner::cli::support::{
    analysis_report_lines, default_project_roots, fail_if_actions_failed, project_candidates,
    purge_candidate_lines, result_lines, scan_report_lines, validate_noninteractive,
};
use tuxcleaner::cli::uninstall::{
    application_labels, application_report_lines, chosen_applications, confirm_uninstall_prompt,
    filter_applications, needs_confirmation, plan_uninstall, select_exact_applications, truncate,
    uninstall_preview_lines, validate_uninstall, UninstallPlan,
};
use tuxcleaner::history::HistoryRecord;
use tuxcleaner::model::{
    ActionResult, CleanupAction, CleanupGroup, CleanupItem, Risk, ScanReport,
};
use tuxcleaner::purge::PurgeCandidate;
use tuxcleaner::status::{parse_disks, parse_hostname, parse_memory, SystemStatus};
use tuxcleaner::time::{format_duration, format_timestamp};
use tuxcleaner::uninstall::{Application, ApplicationReport, ApplicationSource, UninstallPreview};
use tuxcleaner::update::{UpdateInfo, UpdateResult};

#[test]
fn uninstall_yes_requires_exact_application_ids() {
    let args = UninstallArgs {
        yes: true,
        ..UninstallArgs::default()
    };
    let error = validate_uninstall(&args, true).unwrap_err();
    assert!(error.contains("requires at least one exact --app"));
}

fn application(source: ApplicationSource, package: &str) -> Application {
    Application {
        id: Application::new_id(source, package),
        name: package.to_string(),
        package: package.to_string(),
        version: "1.0-1".to_string(),
        source,
        installed_bytes: 250 * 1024 * 1024,
        user_data_bytes: 0,
        desktop_file: None,
        user_data_paths: Vec::new(),
    }
}

#[test]
fn uninstall_dry_run_uses_fixture_catalog_without_removing_anything() {
    let catalog = vec![application(ApplicationSource::Pacman, "firefox")];
    let args = UninstallArgs {
        dry_run: true,
        yes: true,
        json: true,
        applications: vec!["pacman:firefox".to_string()],
        ..UninstallArgs::default()
    };
    assert_eq!(validate_uninstall(&args, false), Ok(()));
    let found = filter_applications(&catalog, &args);
    match plan_uninstall(&args, &found) {
        UninstallPlan::Exact(selected) => {
            assert_eq!(selected.len(), 1);
            assert_eq!(selected[0].id, "pacman:firefox");
        }
        _ => panic!("expected an exact plan"),
    }
    let args = UninstallArgs {
        dry_run: true,
        yes: true,
        json: true,
        applications: vec!["pacman:not-installed".to_string()],
        ..UninstallArgs::default()
    };
    let found = filter_applications(&catalog, &args);
    match plan_uninstall(&args, &found) {
        UninstallPlan::Refuse(message) => {
            assert!(message.contains("none of the requested application IDs were found"));
        }
        _ => panic!("expected a refusal"),
    }
}

#[test]
fn analyze_json_is_machine_readable_and_read_only() {
    let args = AnalyzeArgs {
        path: Some("/data".to_string()),
        min_size: "100".to_string(),
        json: true,
        ..AnalyzeArgs::default()
    };
    assert_eq!(
        plan_analyze(&args, "/data", "/home/tester", false),
        AnalyzePlan::ReportOnly
    );
    let events = vec![tuxcleaner::analyze::WalkEvent::Entry {
        path: "/data/large.bin".to_string(),
        file: Some(128),
        modified_unix: None,
        top_is_dir: false,
    }];
    let minimum = tuxcleaner::size::parse_size(&args.min_size).unwrap();
    let report = tuxcleaner::analyze::analyze("/data", &events, minimum);
    assert_eq!(report.total_files, 1);
    assert_eq!(report.large_files.len(), 1);
}

fn item(id: &str, group: CleanupGroup, bytes: u64) -> CleanupItem {
    CleanupItem {
        id: id.to_string(),
        group,
        label: id.to_string(),
        estimated_bytes: bytes,
        risk: Risk::Low,
        action: CleanupAction::RemovePath {
            path: format!("/tmp/{id}"),
            contents_only: false,
        },
    }
}

fn report() -> ScanReport {
    ScanReport::from_items(
        "Test Linux".to_string(),
        vec![
            item("dev.a", CleanupGroup::Dev, 64),
            item("user.a", CleanupGroup::User, 2048),
        ],
        vec!["careful".to_string()],
    )
}

#[test]
fn clean_json_without_yes_only_reports_candidates() {
    let args = CleanArgs {
        json: true,
        ..CleanArgs::default()
    };
    assert_eq!(validate_noninteractive(args.yes, args.json, false, "clean"), Ok(()));
    assert_eq!(choose_groups(&report(), &args), CleanPlan::ReportOnly);
}

fn artifact() -> PurgeCandidate {
    PurgeCandidate {
        path: "/home/tester/Projects/example/target".to_string(),
        kind: "target".to_string(),
        size: 64,
        age_days: 0,
    }
}

#[test]
fn purge_dry_run_preserves_selected_artifacts() {
    let args = PurgeArgs {
        paths: vec!["/home/tester/Projects".to_string()],
        older_than_days: 0,
        dry_run: true,
        yes: true,
        ..PurgeArgs::default()
    };
    assert_eq!(plan_purge(&args, 1), PurgePlan::All);
    let results = vec![result(true, true, 64)];
    assert!(result_lines(&results).join("\n").contains("[dry-run]"));
}

fn result(success: bool, dry_run: bool, bytes: u64) -> ActionResult {
    ActionResult {
        item_id: "x".to_string(),
        label: "Thing".to_string(),
        success,
        dry_run,
        estimated_bytes: bytes,
        message: if success { "completed" } else { "busy" }.to_string(),
    }
}

#[test]
fn results_are_printed_line_by_line() {
    let results = vec![result(true, false, 1024), result(false, true, 5)];
    assert_eq!(
        result_lines(&results),
        [
            "",
            "  [OK] Thing: completed",
            "  [FAIL] Thing [dry-run]: busy",
            "Estimated space covered: 1.0 KiB",
        ]
    );
    assert_eq!(
        fail_if_actions_failed(&results),
        Err(
            "1 cleanup operation(s) failed; successful operations were not rolled back"
                .to_string()
        )
    );
    assert_eq!(fail_if_actions_failed(&vec![result(true, false, 1)]), Ok(()));
}

#[test]
fn a_scan_is_printed_group_by_group() {
    assert_eq!(
        scan_report_lines(&report()),
        [
            "TuxCleaner scan on Test Linux",
            "",
            "  User & app caches    2.0 KiB  1 item(s)",
            "  Developer caches       64 B  1 item(s)",
            "  Docker, Podman & Flatpak        0 B  0 item(s)",
            "  LLM model caches        0 B  0 item(s)",
            "  System & packages        0 B  0 item(s)",
            "  Estimated total             2.1 KiB",
            "Warning: careful",
        ]
    );
}

#[test]
fn groups_are_cleaned_only_when_named_or_chosen() {
    let report = report();
    let args = CleanArgs::default();
    match choose_groups(&report, &args) {
        CleanPlan::Ask { groups, labels } => {
            assert_eq!(groups, [CleanupGroup::User, CleanupGroup::Dev]);
            assert_eq!(labels[0], "User & app caches: 2.0 KiB across 1 item(s)");
            assert_eq!(chosen_groups(&groups, &vec![1]), [CleanupGroup::Dev]);
        }
        _ => panic!("expected a question"),
    }
    let named = CleanArgs {
        groups: vec![CleanupGroup::Dev],
        ..CleanArgs::default()
    };
    assert_eq!(
        choose_groups(&report, &named),
        CleanPlan::Groups(vec![CleanupGroup::Dev])
    );
    let all = CleanArgs {
        yes: true,
        ..CleanArgs::default()
    };
    assert_eq!(
        choose_groups(&report, &all),
        CleanPlan::Groups(vec![CleanupGroup::User, CleanupGroup::Dev])
    );
    let items = select_items(&report, &vec![CleanupGroup::Dev]);
    assert_eq!(items.len(), 1);
    assert_eq!(items[0].id, "dev.a");
    assert_eq!(progress_line(true, 2), "Previewing 2 item(s).");
    assert_eq!(progress_line(false, 1), "Cleaning 1 item(s).");
}

#[test]
fn commands_need_a_terminal_or_consent() {
    assert!(validate_noninteractive(false, false, false, "purge")
        .unwrap_err()
        .starts_with("purge needs an interactive terminal"));
    assert_eq!(validate_noninteractive(false, false, true, "purge"), Ok(()));
    assert_eq!(validate_noninteractive(true, false, false, "purge"), Ok(()));
    assert!(validate_update(&UpdateArgs::default(), false).is_err());
    assert_eq!(validate_update(&UpdateArgs::default(), true), Ok(()));
}

fn large(path: &str, size: u64, app_data: bool) -> LargeFile {
    LargeFile {
        path: path.to_string(),
        size,
        modified_unix: Some(1_700_000_000),
        app_data,
    }
}

fn analysis() -> AnalysisReport {
    AnalysisReport {
        root: "/home/tester".to_string(),
        entries: vec![DiskEntry {
            name: "a".to_string(),
            path: "/home/tester/a".to_string(),
            size: 3072,
            is_dir: true,
        }],
        large_files: vec![
            large("/home/tester/a/x", 2048, false),
            large("/home/tester/.b/y", 1024, true),
        ],
        total_size: 3072,
        total_files: 2,
        skipped_entries: 1,
    }
}

#[test]
fn an_analysis_is_printed() {
    assert_eq!(
        analysis_report_lines(&analysis()),
        [
            "Disk analysis: /home/tester",
            "3.0 KiB across 2 files (1 entries skipped)",
            "",
            "Top-level usage:",
            "     3.0 KiB  /home/tester/a",
            "",
            "Large personal files:",
            "     2.0 KiB  2023-11-14  /home/tester/a/x",
            "",
            "Application data (review carefully; removal can break or erase application data):",
            "     1.0 KiB  /home/tester/.b/y",
        ]
    );
    let empty = AnalysisReport {
        root: "/".to_string(),
        entries: Vec::new(),
        large_files: Vec::new(),
        total_size: 0,
        total_files: 0,
        skipped_entries: 0,
    };
    assert_eq!(
        analysis_report_lines(&empty).last().unwrap(),
        "  None above the selected threshold."
    );
}

#[test]
fn large_files_are_removed_by_exact_names() {
    let candidates = personal_candidates(&analysis());
    assert_eq!(candidates.len(), 1);
    let request = |given: &str, resolved: Result<&str, &str>| RequestedFile {
        given: given.to_string(),
        resolved: resolved.map(str::to_string).map_err(str::to_string),
    };
    let selected = select_exact_large_files(
        &candidates,
        &vec![
            request("a/x", Ok("/home/tester/a/x")),
            request("./a/x", Ok("/home/tester/a/x")),
        ],
    )
    .unwrap();
    assert_eq!(selected.len(), 1);
    assert_eq!(
        select_exact_large_files(&candidates, &vec![request("y", Ok("/home/tester/.b/y"))])
            .unwrap_err(),
        "y is not a personal file in the current large-file analysis"
    );
    assert_eq!(
        select_exact_large_files(&candidates, &vec![request("gone", Err("No such file"))])
            .unwrap_err(),
        "failed to resolve selected file gone: No such file"
    );
    assert_eq!(
        large_file_labels(&candidates),
        ["/home/tester/a/x | 2.0 KiB | 2023-11-14"]
    );
    assert_eq!(chosen_files(&candidates, &vec![0]).len(), 1);
    assert_eq!(
        confirm_removal_prompt(3),
        "Permanently remove 3 selected personal file(s)?"
    );
}

#[test]
fn removal_is_planned_with_care() {
    let home = "/home/tester";
    let base = || AnalyzeArgs {
        remove: true,
        ..AnalyzeArgs::default()
    };
    assert!(matches!(
        plan_analyze(&base(), "/data", home, true),
        AnalyzePlan::Refuse(_)
    ));
    assert_eq!(plan_analyze(&base(), home, home, true), AnalyzePlan::Ask);
    assert!(matches!(
        plan_analyze(&base(), home, home, false),
        AnalyzePlan::Refuse(_)
    ));
    let yes = AnalyzeArgs { yes: true, ..base() };
    assert!(matches!(
        plan_analyze(&yes, home, home, true),
        AnalyzePlan::Refuse(_)
    ));
    let exact = AnalyzeArgs {
        yes: true,
        files: vec!["x".to_string()],
        ..base()
    };
    assert_eq!(plan_analyze(&exact, home, home, false), AnalyzePlan::Exact);
}

#[test]
fn artifacts_are_listed() {
    let candidates = vec![artifact()];
    assert_eq!(
        purge_candidate_lines(&candidates, &vec!["/a".to_string(), "/b".to_string()], 30),
        [
            "Project artifact scan (older than 30 days)",
            "Roots: /a, /b",
            "        64 B     0 days  /home/tester/Projects/example/target",
        ]
    );
    assert_eq!(
        purge_candidate_lines(&Vec::new(), &Vec::new(), 30)[2],
        "No matching artifacts found."
    );
    assert_eq!(
        artifact_labels(&candidates),
        ["/home/tester/Projects/example/target | 64 B | 0 days old"]
    );
    assert_eq!(chosen_artifacts(&candidates, &vec![0]).len(), 1);
    assert_eq!(
        confirm_purge_prompt(1),
        "Permanently remove 1 selected artifact(s)?"
    );
    let args = PurgeArgs::default();
    assert_eq!(plan_purge(&args, 0), PurgePlan::Nothing);
    assert_eq!(plan_purge(&args, 2), PurgePlan::Ask);
    let json = PurgeArgs {
        json: true,
        ..PurgeArgs::default()
    };
    assert_eq!(plan_purge(&json, 2), PurgePlan::ReportOnly);
}

#[test]
fn projects_are_looked_for_at_home() {
    assert_eq!(
        project_candidates("/home/tester"),
        [
            "/home/tester/Projects",
            "/home/tester/Progetti",
            "/home/tester/GitHub",
            "/home/tester/Code",
            "/home/tester/dev",
        ]
    );
    assert_eq!(default_project_roots(Vec::new(), "/here"), ["/here"]);
    assert_eq!(
        default_project_roots(vec!["/home/tester/dev".to_string()], "/here"),
        ["/home/tester/dev"]
    );
}

#[test]
fn applications_are_filtered_and_selected() {
    let catalog = vec![
        application(ApplicationSource::Apt, "vlc"),
        application(ApplicationSource::FlatpakUser, "org.VideoLAN.VLC"),
        application(ApplicationSource::Apt, "gimp"),
    ];
    let search = UninstallArgs {
        search: Some("VLC".to_string()),
        ..UninstallArgs::default()
    };
    assert_eq!(filter_applications(&catalog, &search).len(), 2);
    let source = UninstallArgs {
        source: vec![ApplicationSource::Apt],
        search: Some("vlc".to_string()),
        ..UninstallArgs::default()
    };
    let found = filter_applications(&catalog, &source);
    assert_eq!(found.len(), 1);
    assert_eq!(found[0].id, "apt:vlc");
    let ids = vec!["apt:gimp".to_string(), "apt:gimp".to_string()];
    assert_eq!(select_exact_applications(&catalog, &ids).unwrap().len(), 1);
    assert!(
        select_exact_applications(&catalog, &vec!["apt:x".to_string()])
            .unwrap_err()
            .starts_with("application apt:x was not found")
    );
    assert_eq!(chosen_applications(&catalog, &vec![2])[0].package, "gimp");
    assert!(needs_confirmation(&UninstallArgs::default()));
    assert!(matches!(
        plan_uninstall(&UninstallArgs::default(), &catalog),
        UninstallPlan::Ask
    ));
    assert!(matches!(
        plan_uninstall(&UninstallArgs::default(), &Vec::new()),
        UninstallPlan::Nothing
    ));
    assert!(validate_uninstall(&UninstallArgs::default(), false).is_err());
}

#[test]
fn applications_are_printed() {
    let mut vlc = application(ApplicationSource::Apt, "vlc");
    vlc.user_data_bytes = 2048;
    vlc.user_data_paths = vec!["/home/tester/.config/vlc".to_string()];
    let preview = UninstallPreview {
        application_id: vlc.id.clone(),
        command: "sudo -- apt-get --yes remove vlc".to_string(),
        removals: vec!["vlc".to_string()],
        raw: String::new(),
        preserves_user_data: true,
    };
    let applications = vec![vlc];
    assert_eq!(
        uninstall_preview_lines(&applications, &vec![preview]),
        [
            "",
            "Removal plan:",
            "  vlc (apt:vlc)",
            "    Command: sudo -- apt-get --yes remove vlc",
            "    Packages or applications affected:",
            "      - vlc",
            "    Preserved user data: 2.0 KiB",
        ]
    );
    assert_eq!(application_labels(&applications).len(), 1);
    let report = ApplicationReport {
        distribution: "Debian".to_string(),
        applications,
        warnings: Vec::new(),
    };
    let lines = application_report_lines(&report);
    assert_eq!(lines[0], "Installed applications on Debian");
    assert_eq!(
        lines[2],
        "  Application                       Size  Source           Package"
    );
    assert_eq!(
        lines[4],
        "    User data preserved: 2.0 KiB across 1 path(s)"
    );
    assert_eq!(
        confirm_uninstall_prompt(2),
        "Uninstall 2 selected application(s) while preserving user data?"
    );
}

#[test]
fn long_names_are_cut() {
    assert_eq!(truncate("abcdef", 4), "abc…");
    assert_eq!(truncate("abc", 4), "abc");
    assert_eq!(truncate("abcd", 4), "abc…");
    assert_eq!(truncate("", 0), "");
}

#[test]
fn times_are_printed() {
    assert_eq!(format_timestamp(Some(0)), "1970-01-01");
    assert_eq!(format_timestamp(Some(1_700_000_000)), "2023-11-14");
    assert_eq!(format_timestamp(None), "unknown");
    assert_eq!(format_timestamp(Some(u64::MAX / 2)), "unknown");
    assert_eq!(format_duration(90_061), "1d 1h 1m");
    let record = HistoryRecord {
        timestamp: 1_700_000_000,
        distribution: "Arch".to_string(),
        command: "purge".to_string(),
        results: vec![result(true, false, 1024), result(false, false, 9)],
    };
    assert_eq!(
        history_line(&record),
        "2023-11-14 22:13:20 UTC  purge   1/2 succeeded  estimated 1.0 KiB"
    );
}

#[test]
fn the_status_is_read_and_printed() {
    assert_eq!(parse_hostname(" tux\n"), "tux");
    let memory =
        parse_memory("MemTotal:       4 kB\nMemFree: 1 kB\nMemAvailable:   1 kB\n");
    assert_eq!(memory.total_bytes, 4096);
    assert_eq!(memory.available_bytes, 1024);
    assert_eq!(memory.used_bytes, 3072);
    let disks = parse_disks(
        "Filesystem 1B Used Available Capacity Mounted on\n\
         /dev/sda1 2048 1024 1024 50% /mnt/my disk\n\
         tmpfs 1 1 1 1% /run\n\
         /dev/bad x 1 1 1% /bad\n",
    );
    assert_eq!(disks.len(), 1);
    assert_eq!(disks[0].mount, "/mnt/my disk");
    assert_eq!(disks[0].used_bytes, 1024);
    let status = SystemStatus {
        hostname: "tux".to_string(),
        logical_cpus: 4,
        load_average: ["0.10".to_string(), "0.20".to_string(), "0.30".to_string()],
        uptime_seconds: 61,
        memory,
        memory_percent: "75.0".to_string(),
        disks,
        disk_percents: vec!["50.0".to_string()],
    };
    assert_eq!(
        status_report_lines(&status),
        [
            "TuxCleaner status for tux",
            "CPU: 4 logical cores | load 0.10 / 0.20 / 0.30",
            "Memory: 3.0 KiB / 4.0 KiB used (75.0%)",
            "Uptime: 0d 0h 1m",
            "",
            "Disks:",
            "  /mnt/my disk          1.0 KiB /  2.0 KiB ( 50.0%)  /dev/sda1",
        ]
    );
}

#[test]
fn an_update_is_planned_and_printed() {
    let info = UpdateInfo {
        current_version: "0.4.0".to_string(),
        available_version: "0.5.0".to_string(),
        target: "t".to_string(),
        update_available: true,
    };
    let args = UpdateArgs::default();
    assert_eq!(plan_update(&args, true), UpdatePlan::Ask);
    assert_eq!(plan_update(&args, false), UpdatePlan::ReportOnly);
    let yes = UpdateArgs {
        yes: true,
        ..UpdateArgs::default()
    };
    assert_eq!(plan_update(&yes, true), UpdatePlan::Install);
    let dry = UpdateArgs {
        yes: true,
        dry_run: true,
        ..UpdateArgs::default()
    };
    assert_eq!(plan_update(&dry, true), UpdatePlan::ReportOnly);
    assert_eq!(
        release_line(&dry, &info),
        "TuxCleaner 0.4.0 is installed; release 0.5.0 is available for t (dry-run)."
    );
    assert_eq!(
        confirm_update_prompt(&info),
        "Replace TuxCleaner 0.4.0 with 0.5.0?"
    );
    let done = UpdateResult {
        previous_version: "0.4.0".to_string(),
        installed_version: "0.5.0".to_string(),
        target: "t".to_string(),
        updated: true,
    };
    assert_eq!(
        update_result_line(&done),
        "Updated TuxCleaner from 0.4.0 to 0.5.0 for t."
    );
}

#[test]
fn options_have_their_defaults() {
    assert_eq!(HistoryArgs::default().limit, 20);
    assert_eq!(AnalyzeArgs::default().min_size, "500M");
    assert!(!CleanArgs::default().yes);
    assert!(PurgeArgs::default().older_than_days > 0);
}
