//! The commands step by step.
use std::cell::RefCell;
use std::rc::Rc;

use sha2::{Digest, Sha256};
use tuxcleaner::analyze::{AnalysisReport, LargeFile};
use tuxcleaner::cli::analyze::RequestedFile;
use tuxcleaner::cli::args::{AnalyzeArgs, CleanArgs, PurgeArgs, UninstallArgs, UpdateArgs};
use tuxcleaner::cli::run::analyze::{AnalyzeEvent, AnalyzePhase, AnalyzeRun};
use tuxcleaner::cli::run::clean::{CleanEvent, CleanPhase, CleanRun};
use tuxcleaner::cli::run::purge::{PurgeEvent, PurgePhase, PurgeRun};
use tuxcleaner::cli::run::uninstall::{UninstallEvent, UninstallPhase, UninstallRun};
use tuxcleaner::cli::run::update::{UpdateEvent, UpdatePhase, UpdateRun};
use tuxcleaner::cli::run::{Json, Next, Step};
use tuxcleaner::command::{CommandOutput, CommandRunner};
use tuxcleaner::executor::Executor;
use tuxcleaner::model::{
    ActionResult, CleanupAction, CleanupGroup, CleanupItem, Risk, ScanReport,
};
use tuxcleaner::purge::PurgeCandidate;
use tuxcleaner::tui::execution::uninstall_reviewed;
use tuxcleaner::uninstall::{Application, ApplicationReport, ApplicationSource, UninstallPreview};
use tuxcleaner::update::{verified_program, UpdateError, UpdateInfo, UpdateResult};

fn finished(step: &Step) -> (Option<&str>, Option<Json>, Result<(), &str>) {
    match &step.next {
        Next::Finish {
            record,
            json,
            outcome,
        } => (
            record.as_deref(),
            *json,
            match outcome {
                Ok(()) => Ok(()),
                Err(message) => Err(message.as_str()),
            },
        ),
        other => panic!("not over: {other:?}"),
    }
}

fn result(success: bool) -> ActionResult {
    ActionResult {
        item_id: "x".to_string(),
        label: "Thing".to_string(),
        success,
        dry_run: false,
        estimated_bytes: 1024,
        message: "completed".to_string(),
    }
}

fn application(package: &str) -> Application {
    Application {
        id: Application::new_id(ApplicationSource::Apt, package),
        name: package.to_string(),
        package: package.to_string(),
        version: "1".to_string(),
        source: ApplicationSource::Apt,
        installed_bytes: 2048,
        user_data_bytes: 0,
        desktop_file: None,
        user_data_paths: Vec::new(),
    }
}

fn catalog() -> ApplicationReport {
    ApplicationReport {
        distribution: "Debian".to_string(),
        applications: vec![application("vlc"), application("gimp")],
        warnings: Vec::new(),
    }
}

fn preview(application: &Application) -> UninstallPreview {
    UninstallPreview {
        application_id: application.id.clone(),
        command: "sudo -- apt-get --yes remove x".to_string(),
        removals: vec!["x".to_string()],
        raw: String::new(),
        preserves_user_data: true,
    }
}

#[test]
fn an_uninstall_asks_twice() {
    let (run, step) = UninstallRun::start(UninstallArgs::default(), true);
    assert_eq!(step.next, Next::Look);
    let (run, step) = run.next(UninstallEvent::Found(catalog()));
    match &step.next {
        Next::Choose { labels, .. } => assert_eq!(labels.len(), 2),
        other => panic!("{other:?}"),
    }
    let (run, step) = run.next(UninstallEvent::Chosen(vec![1]));
    assert_eq!(step.next, Next::Preview);
    let selected = match &run.phase {
        UninstallPhase::Previewing(selected) => selected[0].clone(),
        other => panic!("{other:?}"),
    };
    assert_eq!(selected.id, "apt:gimp");
    // What does not belong here changes nothing.
    let (run, step) = run.next(UninstallEvent::Answered(true));
    assert_eq!(step.next, Next::Ignore);
    let (run, step) = run.next(UninstallEvent::Previewed(Ok(vec![preview(&selected)])));
    assert!(matches!(step.next, Next::Confirm(_)));
    assert_eq!(step.lines[1], "Removal plan:");
    let (run, step) = run.next(UninstallEvent::Answered(true));
    assert_eq!(step.next, Next::Execute { dry_run: false });
    let (run, step) = run.next(UninstallEvent::Executed(vec![result(true)]));
    assert_eq!(finished(&step), (Some("uninstall"), None, Ok(())));
    assert_eq!(
        step.lines.last().unwrap(),
        "Application configuration and user data were preserved."
    );
    assert_eq!(run.phase, UninstallPhase::Over);
}

#[test]
fn an_uninstall_can_be_called_off() {
    let (run, _) = UninstallRun::start(UninstallArgs::default(), true);
    let (run, _) = run.next(UninstallEvent::Found(catalog()));
    let (run, _) = run.next(UninstallEvent::Chosen(vec![0]));
    let (run, _) = run.next(UninstallEvent::Previewed(Ok(vec![preview(&application(
        "vlc",
    ))])));
    let (run, step) = run.next(UninstallEvent::Answered(false));
    assert_eq!(step.lines, ["Cancelled."]);
    assert_eq!(run.phase, UninstallPhase::Over);

    let (run, _) = UninstallRun::start(UninstallArgs::default(), true);
    let (run, _) = run.next(UninstallEvent::Found(catalog()));
    let (run, step) = run.next(UninstallEvent::Chosen(Vec::new()));
    assert_eq!(step.lines, ["Nothing selected."]);
    assert_eq!(run.phase, UninstallPhase::Over);
}

#[test]
fn a_failed_preview_ends_an_uninstall() {
    let args = UninstallArgs {
        yes: true,
        applications: vec!["apt:vlc".to_string()],
        ..UninstallArgs::default()
    };
    let (run, _) = UninstallRun::start(args, false);
    let (run, step) = run.next(UninstallEvent::Found(catalog()));
    assert_eq!(step.next, Next::Preview);
    let (run, step) = run.next(UninstallEvent::Previewed(Err("no apt".to_string())));
    assert_eq!(finished(&step), (None, None, Err("no apt")));
    assert_eq!(run.phase, UninstallPhase::Over);
}

#[test]
fn a_catalog_as_json_is_read_only() {
    let args = UninstallArgs {
        json: true,
        ..UninstallArgs::default()
    };
    let (run, _) = UninstallRun::start(args, false);
    let (run, step) = run.next(UninstallEvent::Found(catalog()));
    assert_eq!(finished(&step), (None, Some(Json::Report), Ok(())));
    assert_eq!(run.phase, UninstallPhase::Over);
    let (_, step) = UninstallRun::start(UninstallArgs::default(), false);
    assert!(finished(&step).2.is_err());
}

fn item(id: &str, group: CleanupGroup) -> CleanupItem {
    CleanupItem {
        id: id.to_string(),
        group,
        label: id.to_string(),
        estimated_bytes: 1024,
        risk: Risk::Low,
        action: CleanupAction::RemovePath {
            path: format!("/tmp/{id}"),
            contents_only: false,
        },
    }
}

fn scan() -> ScanReport {
    ScanReport::from_items(
        "Arch".to_string(),
        vec![item("dev.a", CleanupGroup::Dev), item("user.a", CleanupGroup::User)],
        Vec::new(),
    )
}

#[test]
fn a_cleanup_cleans_what_was_chosen() {
    let (run, _) = CleanRun::start(CleanArgs::default(), true);
    let (run, step) = run.next(CleanEvent::Found(scan()));
    assert!(matches!(step.next, Next::Choose { .. }));
    let (run, step) = run.next(CleanEvent::Chosen(vec![0]));
    assert_eq!(step.next, Next::Execute { dry_run: false });
    assert_eq!(step.lines.last().unwrap(), "Cleaning 1 item(s).");
    match &run.phase {
        CleanPhase::Executing(items) => assert_eq!(items[0].id, "dev.a"),
        other => panic!("{other:?}"),
    }
    let (_, step) = run.next(CleanEvent::Executed(vec![result(false)]));
    assert_eq!(
        finished(&step),
        (
            Some("clean"),
            None,
            Err("1 cleanup operation(s) failed; successful operations were not rolled back")
        )
    );
}

#[test]
fn a_cleanup_of_nothing_is_over() {
    let (run, _) = CleanRun::start(CleanArgs::default(), true);
    let (run, _) = run.next(CleanEvent::Found(scan()));
    let (run, step) = run.next(CleanEvent::Chosen(Vec::new()));
    assert_eq!(step.lines.last().unwrap(), "Nothing selected.");
    assert_eq!(run.phase, CleanPhase::Over);
    let json = CleanArgs {
        json: true,
        groups: vec![CleanupGroup::Dev],
        ..CleanArgs::default()
    };
    let (run, _) = CleanRun::start(json, false);
    let (_, step) = run.next(CleanEvent::Found(scan()));
    assert_eq!(finished(&step), (None, Some(Json::Results), Ok(())));
    let (_, step) = CleanRun::start(CleanArgs::default(), false);
    assert!(finished(&step).2.is_err());
}

fn artifacts() -> PurgeEvent {
    let candidate = |path: &str| PurgeCandidate {
        path: path.to_string(),
        kind: "target".to_string(),
        size: 64,
        age_days: 40,
    };
    PurgeEvent::Found {
        roots: vec!["/p".to_string()],
        candidates: vec![candidate("/p/a/target"), candidate("/p/b/target")],
    }
}

#[test]
fn a_purge_removes_what_was_confirmed() {
    let (run, _) = PurgeRun::start(PurgeArgs::default(), true);
    let (run, step) = run.next(artifacts());
    assert!(matches!(step.next, Next::Choose { .. }));
    let (run, step) = run.next(PurgeEvent::Chosen(vec![1]));
    assert_eq!(
        step.next,
        Next::Confirm("Permanently remove 1 selected artifact(s)?".to_string())
    );
    assert!(run.items().is_empty());
    let (run, step) = run.next(PurgeEvent::Answered(true));
    assert_eq!(step.next, Next::Execute { dry_run: false });
    let items = run.items();
    assert_eq!(items.len(), 1);
    assert_eq!(
        items[0].action,
        CleanupAction::RemovePath {
            path: "/p/b/target".to_string(),
            contents_only: false
        }
    );
    let (run, step) = run.next(PurgeEvent::Executed(vec![result(true)]));
    assert_eq!(finished(&step), (Some("purge"), None, Ok(())));
    assert_eq!(run.phase, PurgePhase::Over);
}

#[test]
fn a_purge_with_consent_removes_everything_found() {
    let args = PurgeArgs {
        yes: true,
        dry_run: true,
        ..PurgeArgs::default()
    };
    let (run, _) = PurgeRun::start(args, false);
    let (run, step) = run.next(artifacts());
    assert_eq!(step.next, Next::Execute { dry_run: true });
    assert_eq!(run.items().len(), 2);
    let json = PurgeArgs {
        json: true,
        ..PurgeArgs::default()
    };
    let (run, _) = PurgeRun::start(json, false);
    let (_, step) = run.next(artifacts());
    assert_eq!(finished(&step), (None, Some(Json::Report), Ok(())));
}

fn analysis() -> AnalysisReport {
    AnalysisReport {
        root: "/home/tester".to_string(),
        entries: Vec::new(),
        large_files: vec![LargeFile {
            path: "/home/tester/x.iso".to_string(),
            size: 9,
            modified_unix: None,
            app_data: false,
        }],
        total_size: 9,
        total_files: 1,
        skipped_entries: 0,
    }
}

fn remove_args() -> AnalyzeArgs {
    AnalyzeArgs {
        remove: true,
        ..AnalyzeArgs::default()
    }
}

#[test]
fn an_analysis_alone_only_reports() {
    let (run, step) = AnalyzeRun::start(AnalyzeArgs::default(), "/home/tester".to_string(), true);
    assert_eq!(step.next, Next::Look);
    assert_eq!(
        run.phase,
        AnalyzePhase::Looking {
            minimum: 500 * 1024 * 1024
        }
    );
    let (_, step) = run.next(AnalyzeEvent::Found(analysis()));
    assert_eq!(finished(&step), (None, None, Ok(())));
    let bad = AnalyzeArgs {
        min_size: "10XB".to_string(),
        ..AnalyzeArgs::default()
    };
    let (_, step) = AnalyzeRun::start(bad, "/home/tester".to_string(), true);
    assert_eq!(finished(&step).2, Err("unsupported size suffix: XB"));
}

#[test]
fn a_large_file_is_removed_after_a_question() {
    let (run, _) = AnalyzeRun::start(remove_args(), "/home/tester".to_string(), true);
    let (run, step) = run.next(AnalyzeEvent::Found(analysis()));
    assert!(matches!(step.next, Next::Choose { .. }));
    let (run, step) = run.next(AnalyzeEvent::Chosen(vec![0]));
    assert!(matches!(step.next, Next::Confirm(_)));
    let (run, step) = run.next(AnalyzeEvent::Answered(true));
    assert_eq!(step.next, Next::Execute { dry_run: false });
    let items = run.items();
    assert_eq!(
        items[0].action,
        CleanupAction::RemovePersonalFile {
            path: "/home/tester/x.iso".to_string(),
            force: false
        }
    );
    let (_, step) = run.next(AnalyzeEvent::Executed(vec![result(true)]));
    assert_eq!(finished(&step), (Some("large-file-cleanup"), None, Ok(())));
}

#[test]
fn a_named_file_is_removed_with_consent() {
    let args = AnalyzeArgs {
        yes: true,
        files: vec!["x.iso".to_string()],
        ..remove_args()
    };
    let (run, _) = AnalyzeRun::start(args, "/home/tester".to_string(), false);
    let (run, step) = run.next(AnalyzeEvent::Found(analysis()));
    assert_eq!(step.next, Next::Resolve);
    let (run, step) = run.next(AnalyzeEvent::Resolved(vec![RequestedFile {
        given: "x.iso".to_string(),
        resolved: Ok("/home/tester/x.iso".to_string()),
    }]));
    assert_eq!(step.next, Next::Execute { dry_run: false });
    assert_eq!(run.items().len(), 1);
    let (run, _) = AnalyzeRun::start(remove_args(), "/home/other".to_string(), true);
    let (_, step) = run.next(AnalyzeEvent::Found(analysis()));
    assert!(finished(&step).2.is_err());
}

fn info(update_available: bool) -> UpdateInfo {
    UpdateInfo {
        current_version: "0.4.0".to_string(),
        available_version: "0.5.0".to_string(),
        target: "t".to_string(),
        update_available,
    }
}

#[test]
fn an_update_is_confirmed() {
    let (run, _) = UpdateRun::start(UpdateArgs::default(), true);
    let (run, step) = run.next(UpdateEvent::Found(Ok(info(true))));
    assert!(matches!(step.next, Next::Confirm(_)));
    let (run, step) = run.next(UpdateEvent::Answered(true));
    assert_eq!(step.next, Next::Install);
    let (run, step) = run.next(UpdateEvent::Installed(Ok(UpdateResult {
        previous_version: "0.4.0".to_string(),
        installed_version: "0.5.0".to_string(),
        target: "t".to_string(),
        updated: true,
    })));
    assert_eq!(step.lines, ["Updated TuxCleaner from 0.4.0 to 0.5.0 for t."]);
    assert_eq!(run.phase, UpdatePhase::Over);
}

#[test]
fn a_check_installs_nothing() {
    let args = UpdateArgs {
        check: true,
        yes: true,
        ..UpdateArgs::default()
    };
    let (run, _) = UpdateRun::start(args, false);
    let (run, step) = run.next(UpdateEvent::Found(Ok(info(true))));
    assert_eq!(finished(&step), (None, None, Ok(())));
    assert_eq!(run.phase, UpdatePhase::Over);
    let (run, _) = UpdateRun::start(UpdateArgs::default(), true);
    let (_, step) = run.next(UpdateEvent::Found(Err("offline".to_string())));
    assert_eq!(finished(&step).2, Err("offline"));
}

struct CountingRunner {
    programs: Rc<RefCell<Vec<String>>>,
}

impl CommandRunner for CountingRunner {
    fn run(&self, program: &str, args: &[String], _: bool) -> Result<CommandOutput, String> {
        self.programs
            .borrow_mut()
            .push(format!("{program} {}", args.join(" ")));
        Ok(CommandOutput {
            success: true,
            status: "exit status: 0".to_string(),
            stdout: b"Remv vlc [3]\n".to_vec(),
            stderr: Vec::new(),
        })
    }
}

fn counting() -> (Executor<CountingRunner>, Rc<RefCell<Vec<String>>>) {
    let programs = Rc::new(RefCell::new(Vec::new()));
    let runner = CountingRunner {
        programs: programs.clone(),
    };
    (
        Executor::with_runner("/home/tester".to_string(), runner),
        programs,
    )
}

#[test]
fn several_applications_are_previewed_and_uninstalled() {
    let (mut executor, programs) = counting();
    let applications = vec![application("vlc"), application("gimp")];
    let previews = executor.preview_all(&applications).unwrap();
    assert_eq!(previews.len(), 2);
    assert_eq!(previews[0].application_id, "apt:vlc");
    assert_eq!(previews[0].removals, ["vlc"]);
    let results = uninstall_reviewed(&mut executor, &applications, &previews).unwrap();
    assert!(results.iter().all(|result| result.success));
    assert_eq!(programs.borrow().len(), 4);
    assert_eq!(
        programs.borrow()[3],
        "apt-get --yes remove gimp"
    );
}

#[test]
fn a_plan_for_others_uninstalls_nothing() {
    let (mut executor, programs) = counting();
    let applications = vec![application("vlc")];
    let previews = vec![preview(&application("gimp"))];
    assert_eq!(
        uninstall_reviewed(&mut executor, &applications, &previews),
        Err("the reviewed removal plan no longer matches the selection".to_string())
    );
    assert!(programs.borrow().is_empty());
    assert!(executor
        .preview_all(&vec![application("vlc"), application("systemd")])
        .is_err());
}

#[test]
fn an_archive_is_checked_before_it_is_opened() {
    let wrong = "0".repeat(64);
    assert_eq!(
        verified_program(b"no archive", wrong.as_bytes()),
        Err(UpdateError::ChecksumMismatch)
    );
    let right = format!("{:x}", Sha256::digest(b"no archive"));
    assert!(matches!(
        verified_program(b"no archive", right.as_bytes()),
        Err(UpdateError::ArchiveUnreadable(_)) | Err(UpdateError::ArchiveEntryUnreadable(_))
    ));
}
