//! Checks before a removal, and the commands that are run.
use std::cell::RefCell;
use std::rc::Rc;

use tuxcleaner::command::{
    command_line, execute_command, is_allowed_command, is_effective_root, outcome_of,
    silent_command_line, CommandOutput, CommandRunner,
};
use tuxcleaner::executor::{Executor, Progress};
use tuxcleaner::guard::{
    entries_on_the_way, is_denylisted_personal_file_path, EntryKind, ExecutionError, PathFacts,
};
use tuxcleaner::model::{
    ActionResult, CleanupAction, CleanupGroup, CleanupItem, CommandSpec, Risk,
};
use tuxcleaner::preview::{parse_uninstall_removals, preview_from_reply, uninstall_command};
use tuxcleaner::recorder::Recorder;
use tuxcleaner::uninstall::{
    is_protected_package, is_valid_identifier, Application, ApplicationSource,
};

const HOME: &str = "/home/tester";

struct SuccessfulRunner;

fn success(stdout: &[u8]) -> CommandOutput {
    CommandOutput {
        success: true,
        status: "exit status: 0".to_string(),
        stdout: stdout.to_vec(),
        stderr: Vec::new(),
    }
}

impl CommandRunner for SuccessfulRunner {
    fn run(&self, _: &str, _: &[String], _: bool) -> Result<CommandOutput, String> {
        Ok(success(b""))
    }
}

type RecordedCalls = Rc<RefCell<Vec<(String, Vec<String>, bool)>>>;

struct RecordingRunner {
    calls: RecordedCalls,
}

impl CommandRunner for RecordingRunner {
    fn run(
        &self,
        program: &str,
        args: &[String],
        requires_root: bool,
    ) -> Result<CommandOutput, String> {
        self.calls
            .borrow_mut()
            .push((program.to_string(), args.to_vec(), requires_root));
        Ok(success(b"firefox\t1.0\t100\n"))
    }
}

/// A runner whose commands all end in the same way.
struct FixedRunner {
    calls: RecordedCalls,
    success: bool,
    stderr: Vec<u8>,
}

impl CommandRunner for FixedRunner {
    fn run(
        &self,
        program: &str,
        args: &[String],
        requires_root: bool,
    ) -> Result<CommandOutput, String> {
        self.calls
            .borrow_mut()
            .push((program.to_string(), args.to_vec(), requires_root));
        Ok(CommandOutput {
            success: self.success,
            status: "exit status: 1".to_string(),
            stdout: Vec::new(),
            stderr: self.stderr.clone(),
        })
    }
}

fn words(list: &[&str]) -> Vec<String> {
    list.iter().map(|word| word.to_string()).collect()
}

fn executor() -> Executor<SuccessfulRunner> {
    Executor::with_runner(HOME.to_string(), SuccessfulRunner)
}

fn recording() -> (Executor<RecordingRunner>, RecordedCalls) {
    let calls: RecordedCalls = Rc::new(RefCell::new(Vec::new()));
    let runner = RecordingRunner {
        calls: calls.clone(),
    };
    (Executor::with_runner(HOME.to_string(), runner), calls)
}

/// What is known of a path that does not exist.
fn absent() -> PathFacts {
    PathFacts {
        hf_home: None,
        way: vec![EntryKind::Missing],
        target: EntryKind::Missing,
        git_root: false,
        exists: false,
    }
}

/// What is known of a path below directories, `depth` entries deep.
fn present(kind: EntryKind, depth: usize) -> PathFacts {
    let mut way: Vec<EntryKind> = Vec::new();
    for _ in 1..depth {
        way.push(EntryKind::Directory);
    }
    way.push(copy(&kind));
    PathFacts {
        hf_home: None,
        way,
        target: kind,
        git_root: false,
        exists: true,
    }
}

fn copy(kind: &EntryKind) -> EntryKind {
    match kind {
        EntryKind::Missing => EntryKind::Missing,
        EntryKind::Symlink => EntryKind::Symlink,
        EntryKind::Directory => EntryKind::Directory,
        EntryKind::File => EntryKind::File,
        EntryKind::Other => EntryKind::Other,
        EntryKind::Failed(source) => EntryKind::Failed(source.clone()),
    }
}

fn depth_of(relative: &str) -> usize {
    relative.split('/').count()
}

fn at(relative: &str) -> String {
    format!("{HOME}/{relative}")
}

fn item(path: &str) -> CleanupItem {
    CleanupItem {
        id: "test".to_string(),
        group: CleanupGroup::Dev,
        label: "test".to_string(),
        estimated_bytes: 1,
        risk: Risk::Explicit,
        action: CleanupAction::RemovePath {
            path: path.to_string(),
            contents_only: false,
        },
    }
}

fn personal_item(path: &str, label: &str, bytes: u64, force: bool) -> CleanupItem {
    CleanupItem {
        id: "large-file:test".to_string(),
        group: CleanupGroup::User,
        label: label.to_string(),
        estimated_bytes: bytes,
        risk: Risk::Explicit,
        action: CleanupAction::RemovePersonalFile {
            path: path.to_string(),
            force,
        },
    }
}

fn done(progress: Progress) -> ActionResult {
    match progress {
        Progress::Done(result) => result,
        Progress::Remove { path, .. } => panic!("{path} would be removed"),
    }
}

/// The path that is to be removed, and whether only what it holds.
fn removal(progress: Progress) -> (String, bool) {
    match progress {
        Progress::Done(result) => panic!("{}", result.message),
        Progress::Remove {
            path,
            contents_only,
        } => (path, contents_only),
    }
}

fn accepts(path: &str) -> bool {
    executor().validate_path(path, &absent()).is_ok()
}

#[test]
fn rejects_home_root_and_git_paths() {
    assert!(!accepts(HOME));
    assert!(!accepts("/"));
    assert!(!accepts("/home/tester/project/.git/target"));
}

#[test]
fn refuses_unknown_paths_even_inside_home() {
    assert!(!accepts("/home/tester/Documents"));
}

#[test]
fn accepts_a_correctly_named_huggingface_repo_under_the_hub_directory() {
    assert!(accepts(
        "/home/tester/.cache/huggingface/hub/models--fake--demo"
    ));
    assert!(accepts(
        "/home/tester/.cache/huggingface/hub/datasets--fake--demo"
    ));
}

#[test]
fn rejects_a_non_matching_sibling_under_the_huggingface_hub_directory() {
    assert!(!accepts("/home/tester/.cache/huggingface/hub/version.txt"));
}

#[test]
fn rejects_a_correctly_named_huggingface_repo_under_the_wrong_parent() {
    assert!(!accepts("/home/tester/models--fake--demo"));
}

#[test]
fn refuses_a_near_miss_sibling_of_a_known_cache_path() {
    assert!(!accepts("/home/tester/.cache/uv-evil"));
    assert!(accepts("/home/tester/.cache/uv"));
    assert!(accepts("/home/tester/.pnpm-store"));
}

#[test]
fn refuses_a_symlinked_known_cache_path() {
    let link = at(".cache/uv");
    let facts = present(EntryKind::Symlink, 2);
    let result = done(executor().execute(&item(&link), &facts, false));
    assert!(!result.success);
    assert_eq!(
        executor().validate_path(&link, &facts),
        Err(ExecutionError::Symlink(link.clone()))
    );
}

#[test]
fn accepts_the_new_dev_and_browser_cache_paths() {
    for accepted in [
        "/home/tester/.cache/terragrunt",
        "/home/tester/.terraform.d/plugin-cache",
        "/home/tester/.cache/ms-playwright",
        "/home/tester/.cache/.bun",
        "/home/tester/.cache/zig",
        "/home/tester/.cache/pre-commit",
        "/home/tester/.cache/go-build",
        "/home/tester/.cache/ms-playwright-go",
        "/home/tester/.cache/microsoft-edge",
    ] {
        assert!(accepts(accepted), "expected {accepted} to be accepted");
    }
}

#[test]
fn rejects_terraform_d_itself_and_near_miss_siblings() {
    assert!(!accepts("/home/tester/.terraform.d"));
    assert!(!accepts(
        "/home/tester/.terraform.d/credentials.tfrc.json"
    ));
    assert!(!accepts("/home/tester/.cache/zig-evil"));
    assert!(!accepts("/home/tester/.cache/pre-commit-evil"));
}

#[test]
fn accepts_the_new_project_artifact_names() {
    for accepted in [
        "/home/tester/project/.pytest_cache",
        "/home/tester/project/.ruff_cache",
        "/home/tester/project/.mypy_cache",
        "/home/tester/project/.tox",
        "/home/tester/project/.next",
        "/home/tester/project/.turbo",
        "/home/tester/project/.parcel-cache",
    ] {
        assert!(accepts(accepted), "expected {accepted} to be accepted");
    }
}

#[test]
fn rejects_explicitly_omitted_artifact_names() {
    for rejected in [
        "/home/tester/project/pkg/__pycache__",
        "/home/tester/project/vendor",
        "/home/tester/project/.direnv",
    ] {
        assert!(!accepts(rejected), "expected {rejected} to be rejected");
    }
}

#[test]
fn artifact_filename_match_is_not_depth_aware() {
    assert!(accepts(&at(".terraform")));
    assert!(accepts(&at("project/nested/.terraform")));
}

#[test]
fn removes_exact_build_artifact_after_validation() {
    let target = at("project/target");
    let mut executor = executor();
    let step = executor.execute(&item(&target), &present(EntryKind::Directory, 2), false);
    assert_eq!(removal(step), (target.clone(), false));
    let result = executor.finish_removal(&item(&target), Ok(()));
    assert!(result.success, "{}", result.message);
    assert_eq!(result.message, "completed");
    assert!(!result.dry_run);
}

#[test]
fn dry_run_preserves_target() {
    let target = at("project/target");
    let result = done(executor().execute(
        &item(&target),
        &present(EntryKind::Directory, 2),
        true,
    ));
    assert!(result.success);
    assert!(result.dry_run);
}

#[test]
fn removes_an_exact_personal_file() {
    let file = at("Downloads/archive.iso");
    let item = personal_item(&file, "archive.iso", 4, false);
    let mut executor = executor();
    let step = executor.execute(&item, &present(EntryKind::File, 2), false);
    assert_eq!(removal(step), (file, false));
    let result = executor.finish_removal(&item, Ok(()));
    assert!(result.success, "{}", result.message);
}

#[test]
fn accepts_hidden_application_data_as_a_personal_file() {
    let file = at(".models/model.bin");
    assert!(executor()
        .validate_personal_file(&file, &present(EntryKind::File, 2))
        .is_ok());
}

#[test]
fn rejects_protected_personal_file_locations_at_any_size() {
    for relative in [
        ".ssh/id_rsa_backup",
        ".gnupg/secring.gpg",
        ".config/app/state.bin",
        ".git/objects/pack/big.pack",
        "code/project/.git/objects/pack/big.pack",
        "backups/.ssh/id_rsa",
    ] {
        let facts = present(EntryKind::File, depth_of(relative));
        assert!(
            executor()
                .validate_personal_file(&at(relative), &facts)
                .is_err(),
            "expected {relative} to be rejected"
        );
    }
}

#[test]
fn accepts_and_recursively_removes_a_large_directory() {
    let dir = at("Videos/recordings");
    let facts = present(EntryKind::Directory, 2);
    let mut executor = executor();
    assert!(executor.validate_personal_file(&dir, &facts).is_ok());
    let item = personal_item(&dir, "recordings", 13, false);
    assert_eq!(removal(executor.execute(&item, &facts, false)), (dir, false));
    let result = executor.finish_removal(&item, Ok(()));
    assert!(result.success, "{}", result.message);
}

#[test]
fn rejects_a_directory_that_is_a_git_repository_root() {
    let project = at("code/project");
    let mut facts = present(EntryKind::Directory, 2);
    facts.git_root = true;
    assert_eq!(
        executor().validate_personal_file(&project, &facts),
        Err(ExecutionError::UnsafePath(project.clone()))
    );
}

#[test]
fn rejects_protected_personal_directory_locations() {
    for relative in [".ssh", ".gnupg", ".config", ".git", "go/pkg"] {
        let facts = present(EntryKind::Directory, depth_of(relative));
        assert!(
            executor()
                .validate_personal_file(&at(relative), &facts)
                .is_err(),
            "expected directory {relative} to be rejected"
        );
    }
}

#[test]
fn symlinked_directory_removal_is_refused_and_target_survives() {
    let link = at("linked-large-dir");
    let facts = present(EntryKind::Symlink, 1);
    assert!(executor().validate_personal_file(&link, &facts).is_err());
    let item = personal_item(&link, "linked-large-dir", 4, false);
    let result = done(executor().execute(&item, &facts, false));
    assert!(!result.success);
}

#[test]
fn rejects_unsafe_directory_targets() {
    let executor = executor();
    assert!(executor
        .validate_personal_file(HOME, &present(EntryKind::Directory, 1))
        .is_err());
    let escaping = at("Videos/../../etc");
    assert!(executor
        .validate_personal_file(&escaping, &present(EntryKind::Directory, 4))
        .is_err());
    let link = at("linked-dir");
    assert!(executor
        .validate_personal_file(&link, &present(EntryKind::Symlink, 1))
        .is_err());
    let nested = at("ancestor-link/nested-dir");
    let facts = PathFacts {
        hf_home: None,
        way: vec![EntryKind::Symlink, EntryKind::Directory],
        target: EntryKind::Directory,
        git_root: false,
        exists: true,
    };
    assert_eq!(
        executor.validate_personal_file(&nested, &facts),
        Err(ExecutionError::Symlink(at("ancestor-link")))
    );
}

#[test]
fn forced_validation_accepts_each_protected_denylist_location() {
    let executor = executor();
    for relative in [".ssh", ".gnupg", ".config", ".git", "go/pkg"] {
        let facts = present(EntryKind::Directory, depth_of(relative));
        assert!(
            executor
                .validate_personal_file(&at(relative), &facts)
                .is_err(),
            "expected unforced validation to still reject {relative}"
        );
        assert!(
            executor
                .validate_personal_file_forced(&at(relative), &facts)
                .is_ok(),
            "expected forced validation to accept {relative}"
        );
    }
}

#[test]
fn forced_validation_accepts_a_git_repository_root() {
    let project = at("code/project");
    let mut facts = present(EntryKind::Directory, 2);
    facts.git_root = true;
    assert!(executor().validate_personal_file(&project, &facts).is_err());
    assert!(executor()
        .validate_personal_file_forced(&project, &facts)
        .is_ok());
}

#[test]
fn forced_validation_still_refuses_every_hard_check() {
    let executor = executor();
    assert!(executor
        .validate_personal_file_forced("/etc/passwd", &present(EntryKind::File, 2))
        .is_err());
    assert!(executor
        .validate_personal_file_forced(HOME, &present(EntryKind::Directory, 1))
        .is_err());
    let escaping = at("Videos/../../etc");
    assert!(executor
        .validate_personal_file_forced(&escaping, &present(EntryKind::Directory, 4))
        .is_err());
    let link = at("linked-dir");
    assert!(executor
        .validate_personal_file_forced(&link, &present(EntryKind::Symlink, 1))
        .is_err());
    let nested = at("ancestor-link/nested-dir");
    let facts = PathFacts {
        hf_home: None,
        way: vec![EntryKind::Symlink, EntryKind::Directory],
        target: EntryKind::Directory,
        git_root: false,
        exists: true,
    };
    assert!(executor
        .validate_personal_file_forced(&nested, &facts)
        .is_err());
}

#[test]
fn forced_symlinked_protected_directory_is_still_refused_and_target_survives() {
    let link = at(".ssh");
    let facts = present(EntryKind::Symlink, 1);
    assert!(executor()
        .validate_personal_file_forced(&link, &facts)
        .is_err());
    let item = personal_item(&link, "linked-protected-dir", 4, true);
    let result = done(executor().execute(&item, &facts, false));
    assert!(!result.success);
}

#[test]
fn forced_execution_removes_a_protected_location_when_authorized() {
    let dir = at(".config/oversized-app-state");
    let facts = present(EntryKind::Directory, 2);
    let item = personal_item(&dir, "oversized-app-state", 8, true);
    let mut executor = executor();
    assert_eq!(removal(executor.execute(&item, &facts, false)), (dir, false));
    let result = executor.finish_removal(&item, Ok(()));
    assert!(result.success, "{}", result.message);
}

fn application(package: &str) -> Application {
    application_from(ApplicationSource::Pacman, package)
}

fn application_from(source: ApplicationSource, package: &str) -> Application {
    Application {
        id: Application::new_id(source, package),
        name: package.to_string(),
        package: package.to_string(),
        version: "1.0".to_string(),
        source,
        installed_bytes: 100,
        user_data_bytes: 0,
        desktop_file: None,
        user_data_paths: Vec::new(),
    }
}

#[test]
fn uninstall_uses_an_exact_source_specific_command() {
    let (mut executor, calls) = recording();
    let result = executor.execute_uninstall(&application("firefox"), false);
    assert!(result.success, "{}", result.message);
    assert_eq!(
        calls.borrow().as_slice(),
        [(
            "pacman".to_string(),
            words(&["-Rns", "--noconfirm", "--", "firefox"]),
            true,
        )]
    );
}

fn ollama_rm_item(name: &str) -> CleanupItem {
    CleanupItem {
        id: format!("models.ollama.{name}"),
        group: CleanupGroup::Models,
        label: format!("Ollama model {name}"),
        estimated_bytes: 1,
        risk: Risk::Elevated,
        action: CleanupAction::Command {
            program: "ollama".to_string(),
            args: words(&["rm", name]),
            requires_root: false,
        },
    }
}

#[test]
fn ollama_rm_is_invoked_with_exact_args() {
    let (mut executor, calls) = recording();
    let result = done(executor.execute(
        &ollama_rm_item("qwen3-coder:latest"),
        &absent(),
        false,
    ));
    assert!(result.success, "{}", result.message);
    assert_eq!(
        calls.borrow().as_slice(),
        [(
            "ollama".to_string(),
            words(&["rm", "qwen3-coder:latest"]),
            false,
        )]
    );
}

#[test]
fn ollama_rm_refuses_a_malicious_model_name() {
    let (mut executor, calls) = recording();
    let semicolon = done(executor.execute(&ollama_rm_item("model; rm -rf /"), &absent(), false));
    assert!(!semicolon.success);
    let leading_dash = done(executor.execute(&ollama_rm_item("-rf"), &absent(), false));
    assert!(!leading_dash.success);
    assert!(calls.borrow().is_empty());
}

#[test]
fn uninstall_preview_reports_package_manager_impact() {
    let (mut executor, _) = recording();
    let preview = executor.preview_uninstall(&application("firefox")).unwrap();
    assert_eq!(preview.removals, ["firefox 1.0 (100 B)"]);
    assert!(preview.preserves_user_data);
}

#[test]
fn protected_packages_never_reach_the_command_runner() {
    let (mut executor, calls) = recording();
    let result = executor.execute_uninstall(&application("systemd"), false);
    assert!(!result.success);
    assert!(calls.borrow().is_empty());
}

fn snap_item(name: &str, revision: &str) -> CleanupItem {
    CleanupItem {
        id: format!("packages.snap.{name}.{revision}"),
        group: CleanupGroup::System,
        label: format!("Disabled snap revision {name} r{revision}"),
        estimated_bytes: 1_000,
        risk: Risk::Elevated,
        action: CleanupAction::Command {
            program: "snap".to_string(),
            args: vec![
                "remove".to_string(),
                format!("--revision={revision}"),
                name.to_string(),
            ],
            requires_root: true,
        },
    }
}

#[test]
fn snap_revision_removal_uses_the_exact_command_shape_and_requires_root() {
    let (mut executor, calls) = recording();
    let result = done(executor.execute(&snap_item("firefox", "8664"), &absent(), false));
    assert!(result.success, "{}", result.message);
    assert_eq!(
        calls.borrow().as_slice(),
        [(
            "snap".to_string(),
            words(&["remove", "--revision=8664", "firefox"]),
            true,
        )]
    );
}

#[test]
fn snap_removal_rejects_names_with_shell_metacharacters() {
    assert!(!is_allowed_command(
        "snap",
        &words(&["remove", "--revision=8664", "firefox; rm -rf ~"]),
        true
    ));
}

#[test]
fn snap_removal_rejects_names_with_a_leading_dash() {
    assert!(!is_allowed_command(
        "snap",
        &words(&["remove", "--revision=8664", "-firefox"]),
        true
    ));
}

#[test]
fn snap_removal_rejects_non_numeric_revisions() {
    assert!(!is_allowed_command(
        "snap",
        &words(&["remove", "--revision=x1", "firefox"]),
        true
    ));
    assert!(!is_allowed_command(
        "snap",
        &words(&["remove", "8664", "firefox"]),
        true
    ));
}

#[test]
fn snap_removal_without_root_is_rejected() {
    assert!(!is_allowed_command(
        "snap",
        &words(&["remove", "--revision=8664", "firefox"]),
        false
    ));
}

// What follows states the laws of the checks on chosen values.

#[test]
fn snap_removal_with_root_is_allowed() {
    assert!(is_allowed_command(
        "snap",
        &words(&["remove", "--revision=8664", "firefox"]),
        true
    ));
}

#[test]
fn volumes_are_kept_by_every_allowed_command() {
    for extra in ["--volumes", "--all"] {
        assert!(!is_allowed_command(
            "docker",
            &words(&["system", "prune", "--force", extra]),
            false
        ));
        assert!(!is_allowed_command(
            "podman",
            &words(&["system", "prune", "--force", extra]),
            false
        ));
    }
    assert!(!is_allowed_command(
        "docker",
        &words(&["volume", "prune", "--force"]),
        false
    ));
}

#[test]
fn a_refused_command_is_named_in_the_message() {
    let (mut executor, calls) = recording();
    let item = CleanupItem {
        id: "x".to_string(),
        group: CleanupGroup::System,
        label: "x".to_string(),
        estimated_bytes: 0,
        risk: Risk::Low,
        action: CleanupAction::Command {
            program: "rm".to_string(),
            args: words(&["-rf", "/"]),
            requires_root: false,
        },
    };
    let result = done(executor.execute(&item, &absent(), false));
    assert!(!result.success);
    assert_eq!(result.message, "cleanup command is not allowed: rm -rf /");
    // A dry run refuses it as well.
    let result = done(executor.execute(&item, &absent(), true));
    assert!(!result.success);
    assert!(calls.borrow().is_empty());
}

#[test]
fn a_dry_run_runs_no_command() {
    let (mut executor, calls) = recording();
    let result = done(executor.execute(&snap_item("firefox", "8664"), &absent(), true));
    assert!(result.success);
    assert!(result.dry_run);
    assert!(calls.borrow().is_empty());
    let result = executor.execute_uninstall(&application("firefox"), true);
    assert!(result.success);
    assert!(calls.borrow().is_empty());
}

#[test]
fn a_sequence_ends_at_the_first_failure() {
    let calls: RecordedCalls = Rc::new(RefCell::new(Vec::new()));
    let mut executor = Executor::with_runner(
        HOME.to_string(),
        FixedRunner {
            calls: calls.clone(),
            success: false,
            stderr: b"no space\n".to_vec(),
        },
    );
    let snap = |name: &str| CommandSpec {
        program: "snap".to_string(),
        args: words(&["remove", "--revision=1", name]),
        requires_root: true,
    };
    let item = CleanupItem {
        id: "x".to_string(),
        group: CleanupGroup::System,
        label: "x".to_string(),
        estimated_bytes: 0,
        risk: Risk::Low,
        action: CleanupAction::CommandSequence {
            commands: vec![snap("a"), snap("b")],
        },
    };
    let result = done(executor.execute(&item, &absent(), false));
    assert!(!result.success);
    assert_eq!(result.message, "no space");
    assert_eq!(calls.borrow().len(), 1);
}

#[test]
fn a_missing_cache_counts_as_removed() {
    let result = done(executor().execute(&item(&at(".cache/uv")), &absent(), false));
    assert!(result.success);
    assert_eq!(result.message, "completed");
}

#[test]
fn a_missing_personal_file_is_an_error() {
    let file = at("Downloads/gone.iso");
    assert_eq!(
        executor().validate_personal_file(&file, &absent()),
        Err(ExecutionError::Io {
            path: file.clone(),
            source: "No such file or directory (os error 2)".to_string(),
        })
    );
}

#[test]
fn a_failed_look_is_an_error() {
    let file = at("Downloads/secret.iso");
    let facts = PathFacts {
        hf_home: None,
        way: vec![EntryKind::Failed("Permission denied (os error 13)".to_string())],
        target: EntryKind::Missing,
        git_root: false,
        exists: false,
    };
    assert_eq!(
        executor().validate_personal_file(&file, &facts),
        Err(ExecutionError::Io {
            path: at("Downloads"),
            source: "Permission denied (os error 13)".to_string(),
        })
    );
}

#[test]
fn only_files_and_directories_are_personal_files() {
    let pipe = at("Downloads/pipe");
    assert_eq!(
        executor().validate_personal_file(&pipe, &present(EntryKind::Other, 2)),
        Err(ExecutionError::UnsafePath(pipe.clone()))
    );
}

#[test]
fn errors_say_what_they_refuse() {
    assert_eq!(
        ExecutionError::UnsafePath("/etc".to_string()).message(),
        "unsafe cleanup target rejected: /etc"
    );
    assert_eq!(
        ExecutionError::Symlink("/a".to_string()).message(),
        "symbolic-link cleanup target rejected: /a"
    );
    assert_eq!(
        ExecutionError::Io {
            path: "/a".to_string(),
            source: "no".to_string()
        }
        .message(),
        "I/O error while processing /a: no"
    );
}

#[test]
fn a_failed_removal_is_reported() {
    let target = at("project/target");
    let error = ExecutionError::Io {
        path: target.clone(),
        source: "busy".to_string(),
    };
    let message = error.message();
    let result = executor().finish_removal(&item(&target), Err(error));
    assert!(!result.success);
    assert_eq!(result.message, message);
}

#[test]
fn the_way_leads_from_home_to_the_path() {
    assert_eq!(
        entries_on_the_way(HOME, "/home/tester/a/b/c"),
        ["/home/tester/a", "/home/tester/a/b", "/home/tester/a/b/c"]
    );
}

#[test]
fn protected_names_count_at_every_depth() {
    assert!(is_denylisted_personal_file_path("go/pkg/mod"));
    assert!(is_denylisted_personal_file_path("a/b/.ssh/c"));
    assert!(!is_denylisted_personal_file_path("a/go/pkg"));
    assert!(!is_denylisted_personal_file_path("go/src"));
    assert!(!is_denylisted_personal_file_path("a/.sshd"));
}

#[test]
fn a_hub_elsewhere_is_recognised() {
    let mut facts = absent();
    facts.hf_home = Some("/home/tester/hf".to_string());
    assert!(executor()
        .validate_path("/home/tester/hf/hub/models--a--b", &facts)
        .is_ok());
    assert!(executor()
        .validate_path("/home/tester/.cache/huggingface/hub/models--a--b", &facts)
        .is_err());
}

#[test]
fn every_source_has_its_command() {
    let cases = [
        (
            ApplicationSource::Pacman,
            "pacman",
            vec!["-Rns", "--noconfirm", "--", "app"],
            true,
        ),
        (
            ApplicationSource::Apt,
            "apt-get",
            vec!["--yes", "remove", "app"],
            true,
        ),
        (
            ApplicationSource::Dnf,
            "dnf",
            vec!["--assumeyes", "remove", "app"],
            true,
        ),
        (
            ApplicationSource::FlatpakUser,
            "flatpak",
            vec!["uninstall", "--user", "-y", "app"],
            false,
        ),
        (
            ApplicationSource::FlatpakSystem,
            "flatpak",
            vec!["uninstall", "--system", "-y", "app"],
            false,
        ),
    ];
    for (source, program, args, root) in cases {
        let (found, list, needs_root) = uninstall_command(&application_from(source, "app"));
        assert_eq!(found, program);
        assert_eq!(list, words(&args));
        assert_eq!(needs_root, root);
        assert!(is_allowed_command(found, &list, needs_root));
    }
}

#[test]
fn protected_packages_are_refused_by_name() {
    assert!(is_protected_package("systemd"));
    assert!(!is_protected_package("firefox"));
    assert!(is_valid_identifier("org.mozilla.firefox"));
    assert!(!is_valid_identifier("-firefox"));
    assert!(!is_valid_identifier(""));
    assert!(!is_valid_identifier("a b"));
}

#[test]
fn a_preview_lists_what_goes_by_source() {
    assert_eq!(
        parse_uninstall_removals(ApplicationSource::Apt, "Reading...\nRemv vlc [3.0]\nRemv a\n"),
        ["vlc", "a"]
    );
    assert_eq!(
        parse_uninstall_removals(ApplicationSource::Pacman, "a\t1\t2048\nb\t2\tx\n\nc\n"),
        ["a 1 (2.0 KiB)", "b 2 (x)", "c"]
    );
    assert_eq!(
        parse_uninstall_removals(
            ApplicationSource::Dnf,
            "Dependencies resolved.\n\n vlc x86_64 \nTransaction Summary\nOperation aborted.\n"
        ),
        ["vlc x86_64"]
    );
    assert!(parse_uninstall_removals(ApplicationSource::FlatpakUser, "x\n").is_empty());
}

#[test]
fn bytes_of_a_reply_become_text() {
    // A byte that is no text stands as the replacement character.
    let reply = Ok(CommandOutput {
        success: false,
        status: "exit status: 1".to_string(),
        stdout: Vec::new(),
        stderr: vec![b'b', b'a', b'd', 0xff, b'\n'],
    });
    assert_eq!(outcome_of(reply), Err("bad\u{fffd}".to_string()));
    let silent = Ok(CommandOutput {
        success: false,
        status: "exit status: 7".to_string(),
        stdout: Vec::new(),
        stderr: Vec::new(),
    });
    assert_eq!(
        outcome_of(silent),
        Err("command exited with exit status: 7".to_string())
    );
    assert_eq!(outcome_of(Err("not found".to_string())), Err("not found".to_string()));
    assert_eq!(outcome_of(Ok(success(b""))), Ok(()));
}

#[test]
fn a_preview_fails_with_the_command() {
    let reply = Err("no such program".to_string());
    assert!(preview_from_reply(&application("firefox"), reply).is_err());
    let flatpak = application_from(ApplicationSource::FlatpakUser, "org.app");
    let preview = executor().preview_uninstall(&flatpak).unwrap();
    assert_eq!(preview.application_id, "flatpak-user:org.app");
    assert!(preview.preserves_user_data);
}

#[test]
fn root_is_reached_through_sudo() {
    let args = words(&["clean"]);
    assert_eq!(
        command_line("dnf", &args, true, false),
        ("sudo".to_string(), words(&["--", "dnf", "clean"]))
    );
    assert_eq!(
        silent_command_line("dnf", &args, true, false),
        ("sudo".to_string(), words(&["-n", "--", "dnf", "clean"]))
    );
    assert_eq!(
        silent_command_line("dnf", &args, true, true),
        ("dnf".to_string(), args.clone())
    );
    assert_eq!(
        command_line("dnf", &args, true, true),
        ("dnf".to_string(), args.clone())
    );
    assert_eq!(
        command_line("dnf", &args, false, false),
        ("dnf".to_string(), args.clone())
    );
}

#[test]
fn the_effective_user_is_the_second_number() {
    assert!(is_effective_root("Name:\tx\nUid:\t1000\t0\t0\t0\n"));
    assert!(!is_effective_root("Name:\tx\nUid:\t0\t1000\t0\t0\n"));
    assert!(!is_effective_root(""));
}

#[test]
fn a_command_reports_its_outcome() {
    let calls: RecordedCalls = Rc::new(RefCell::new(Vec::new()));
    let mut runner = Recorder::new(RecordingRunner {
        calls: calls.clone(),
    });
    let args = words(&["rm", "llama3"]);
    assert_eq!(execute_command(&mut runner, "ollama", &args, false, false), Ok(()));
    assert_eq!(calls.borrow().len(), 1);
    assert_eq!(execute_command(&mut runner, "ollama", &args, false, true), Ok(()));
    assert_eq!(calls.borrow().len(), 1);
    assert!(execute_command(&mut runner, "ollama", &args, true, false).is_err());
    assert_eq!(calls.borrow().len(), 1);
}

#[test]
fn entries_that_were_not_looked_at_are_refused() {
    let cache = at(".cache/uv");
    let mut facts = present(EntryKind::Directory, 2);
    assert_eq!(executor().validate_path(&cache, &facts), Ok(()));
    facts.way = vec![EntryKind::Directory];
    assert_eq!(
        executor().validate_path(&cache, &facts),
        Err(ExecutionError::UnsafePath(cache.clone()))
    );
    facts.way = Vec::new();
    assert_eq!(
        executor().validate_path(&cache, &facts),
        Err(ExecutionError::UnsafePath(at(".cache")))
    );
}

#[test]
fn a_preview_runs_the_simulation_and_nothing_else() {
    let (mut executor, calls) = recording();
    executor.preview_uninstall(&application("firefox")).unwrap();
    assert_eq!(
        calls.borrow().as_slice(),
        [(
            "pacman".to_string(),
            words(&["-Rs", "--print", "--print-format", "%n\t%v\t%s", "--", "firefox"]),
            false,
        )]
    );
    let (mut executor, calls) = recording();
    let flatpak = application_from(ApplicationSource::FlatpakSystem, "org.app");
    executor.preview_uninstall(&flatpak).unwrap();
    assert!(executor.preview_uninstall(&application("systemd")).is_err());
    assert!(calls.borrow().is_empty());
}

#[test]
fn a_sequence_runs_in_its_order() {
    let (mut executor, calls) = recording();
    let snap = |name: &str, root: bool| CommandSpec {
        program: "snap".to_string(),
        args: words(&["remove", "--revision=1", name]),
        requires_root: root,
    };
    let item = CleanupItem {
        id: "x".to_string(),
        group: CleanupGroup::System,
        label: "x".to_string(),
        estimated_bytes: 0,
        risk: Risk::Low,
        action: CleanupAction::CommandSequence {
            commands: vec![snap("a", true), snap("b", true), snap("c", false), snap("d", true)],
        },
    };
    let result = done(executor.execute(&item, &absent(), false));
    // The third is not allowed: the two before it have run, the one behind it has not.
    assert!(!result.success);
    let names: Vec<String> = calls.borrow().iter().map(|call| call.1[2].clone()).collect();
    assert_eq!(names, ["a", "b"]);
}

#[test]
fn protection_reaches_down() {
    for path in [".ssh", "a/.gnupg", ".config", "a/b/.git", "go/pkg"] {
        assert!(is_denylisted_personal_file_path(path), "{path}");
        for rest in ["x", "./x/y", "../z", "", "go"] {
            let below = format!("{path}/{rest}");
            assert!(is_denylisted_personal_file_path(&below), "{below}");
        }
    }
    // A protected name protects wherever it is joined; `go/pkg` only at the start, as a whole.
    for path in ["", ".", "a", "go", "../a/./b"] {
        let joined = format!("{path}/./x/.ssh/y");
        let joined = joined.trim_start_matches('/');
        assert!(is_denylisted_personal_file_path(joined), "{joined}");
    }
    for path in ["x/go/pkg", "gopher/pkg", "go/pkgs", "go", "go/../pkg"] {
        assert!(!is_denylisted_personal_file_path(path), "{path}");
    }
}
