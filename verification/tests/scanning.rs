//! What a scan finds.
use std::cell::RefCell;
use std::rc::Rc;

use tuxcleaner::command::{CommandOutput, CommandRunner};
use tuxcleaner::containers::{
    connections_from_entries, connections_from_reply, discover_podman_connections, docker_item,
    flatpak_item, podman_connection_item, podman_rootful_item, podman_rootless_item,
};
use tuxcleaner::distro::{Distribution, DistroFamily};
use tuxcleaner::executor::{Executor, Progress};
use tuxcleaner::facts::Measured;
use tuxcleaner::guard::{EntryKind, PathFacts};
use tuxcleaner::model::{ActionResult, CleanupAction, CleanupGroup, CleanupItem, Risk, ScanReport};
use tuxcleaner::models::{
    blob_path, do_models_fit, huggingface_hub_dir, is_valid_ollama_model_name, ollama_display_name,
    ollama_models_root, HubEntry, Manifest, ManifestEntry, ModelFacts, OllamaFacts,
};
use tuxcleaner::recorder::Recorder;
use tuxcleaner::scanner::{sort_items_by_group_size, summarize_by_group, ScanFacts, Scanner};
use tuxcleaner::snaps::{
    discover_disabled_snap_revisions, parse_snap_revision_filename, SnapEntry, SnapFacts, SnapLink,
};

const HOME: &str = "/home/tester";

type RecordedCalls = Rc<RefCell<Vec<(String, Vec<String>, bool)>>>;

fn output(success: bool, stdout: &str) -> CommandOutput {
    CommandOutput {
        success,
        status: "exit status: 0".to_string(),
        stdout: stdout.as_bytes().to_vec(),
        stderr: Vec::new(),
    }
}

struct RecordingRunner {
    calls: RecordedCalls,
}

impl CommandRunner for RecordingRunner {
    fn run(
        &self,
        program: &str,
        args: &[String],
        requires_root: bool,
    ) -> Result<CommandOutput, String> {
        self.calls
            .borrow_mut()
            .push((program.to_string(), args.to_vec(), requires_root));
        Ok(output(true, ""))
    }
}

/// A runner whose reply to `podman system connection list` is given; every other command
/// succeeds.
struct ScriptedConnectionListRunner {
    calls: RecordedCalls,
    response: Result<(bool, String), ()>,
}

impl CommandRunner for ScriptedConnectionListRunner {
    fn run(
        &self,
        program: &str,
        args: &[String],
        requires_root: bool,
    ) -> Result<CommandOutput, String> {
        self.calls
            .borrow_mut()
            .push((program.to_string(), args.to_vec(), requires_root));
        if program == "podman"
            && args.first().map(String::as_str) == Some("system")
            && args.get(1).map(String::as_str) == Some("connection")
        {
            return match &self.response {
                Ok((success, stdout)) => Ok(output(*success, stdout)),
                Err(()) => Err("podman not found".to_string()),
            };
        }
        Ok(output(true, ""))
    }
}

fn scripted(response: Result<(bool, String), ()>) -> Recorder<ScriptedConnectionListRunner> {
    scripted_with(response).0
}

fn scripted_with(
    response: Result<(bool, String), ()>,
) -> (Recorder<ScriptedConnectionListRunner>, RecordedCalls) {
    let calls: RecordedCalls = Rc::new(RefCell::new(Vec::new()));
    let runner = ScriptedConnectionListRunner {
        calls: calls.clone(),
        response,
    };
    (Recorder::new(runner), calls)
}

fn recording() -> (Executor<RecordingRunner>, RecordedCalls) {
    let calls: RecordedCalls = Rc::new(RefCell::new(Vec::new()));
    let runner = RecordingRunner {
        calls: calls.clone(),
    };
    (Executor::with_runner(HOME.to_string(), runner), calls)
}

fn run(executor: &mut Executor<RecordingRunner>, item: &CleanupItem) -> ActionResult {
    let facts = PathFacts {
        hf_home: None,
        way: Vec::new(),
        target: EntryKind::Missing,
        git_root: false,
        exists: false,
    };
    match executor.execute(item, &facts, false) {
        Progress::Done(result) => result,
        Progress::Remove { path, .. } => panic!("{path} would be removed"),
    }
}

fn words(list: &[&str]) -> Vec<String> {
    list.iter().map(|word| word.to_string()).collect()
}

#[test]
fn podman_rootless_and_rootful_produce_the_exact_prune_command_shape() {
    let (mut executor, calls) = recording();
    let rootless = run(&mut executor, &podman_rootless_item());
    assert!(rootless.success, "{}", rootless.message);
    let rootful = run(&mut executor, &podman_rootful_item());
    assert!(rootful.success, "{}", rootful.message);
    assert_eq!(
        calls.borrow().as_slice(),
        [
            (
                "podman".to_string(),
                words(&["system", "prune", "-f"]),
                false,
            ),
            (
                "podman".to_string(),
                words(&["system", "prune", "-f"]),
                true,
            ),
        ]
    );
}

#[test]
fn podman_connection_item_produces_the_exact_connection_scoped_command_shape() {
    let (mut executor, calls) = recording();
    let result = run(&mut executor, &podman_connection_item("staging"));
    assert!(result.success, "{}", result.message);
    assert_eq!(
        calls.borrow().as_slice(),
        [(
            "podman".to_string(),
            words(&["--connection", "staging", "system", "prune", "-f"]),
            false,
        )]
    );
}

#[test]
fn refuses_connection_names_containing_shell_metacharacters() {
    let (mut executor, calls) = recording();
    let result = run(&mut executor, &podman_connection_item("staging; rm -rf ~"));
    assert!(!result.success);
    assert!(calls.borrow().is_empty());
}

#[test]
fn refuses_connection_names_with_a_leading_dash() {
    let (mut executor, calls) = recording();
    let result = run(&mut executor, &podman_connection_item("-x"));
    assert!(!result.success);
    assert!(calls.borrow().is_empty());
}

#[test]
fn discovers_connections_and_skips_malformed_entries_with_a_warning() {
    let mut runner = scripted(Ok((
        true,
        r#"[{"Name":"staging"},{"NoName":"oops"},{"Name":"-bad"}]"#.to_string(),
    )));
    let mut warnings = Vec::new();
    let names = discover_podman_connections(&mut runner, &mut warnings);
    assert_eq!(names, ["staging".to_string()]);
    assert_eq!(warnings.len(), 2);
}

#[test]
fn gracefully_degrades_when_connection_listing_fails() {
    let mut runner = scripted(Ok((false, String::new())));
    let mut items = Vec::new();
    let mut warnings = Vec::new();
    items.push(podman_rootless_item());
    items.push(podman_rootful_item());
    for name in discover_podman_connections(&mut runner, &mut warnings) {
        items.push(podman_connection_item(&name));
    }
    assert_eq!(items.len(), 2);
    assert!(warnings.is_empty());
    assert!(items
        .iter()
        .all(|item| item.id != "containers.podman.connection"));
}

#[test]
fn gracefully_degrades_when_the_podman_binary_cannot_be_invoked() {
    let mut runner = scripted(Err(()));
    let mut warnings = Vec::new();
    let names = discover_podman_connections(&mut runner, &mut warnings);
    assert!(names.is_empty());
    assert!(warnings.is_empty());
}

#[test]
fn scan_with_runner_never_emits_a_volume_pruning_item() {
    let mut runner = scripted(Ok((true, r#"[{"Name":"staging"}]"#.to_string())));
    let mut items = Vec::new();
    let mut warnings = Vec::new();
    let tools = words(&["docker", "podman", "flatpak"]);
    tuxcleaner::containers::scan(&mut runner, &tools, &mut items, &mut warnings);
    assert_eq!(items.len(), 5);
    for item in &items {
        if let CleanupAction::Command { args, .. } = &item.action {
            assert!(!args.iter().any(|arg| arg == "--volumes"));
        }
    }
}

#[test]
fn containers_are_asked_only_where_the_tool_is_installed() {
    let (mut runner, calls) = scripted_with(Ok((true, "[]".to_string())));
    let mut items = Vec::new();
    let mut warnings = Vec::new();
    tuxcleaner::containers::scan(&mut runner, &Vec::new(), &mut items, &mut warnings);
    assert!(items.is_empty());
    assert!(calls.borrow().is_empty());
    // Discovery asks for the connections, and runs nothing else.
    let tools = words(&["docker", "podman", "flatpak"]);
    tuxcleaner::containers::scan(&mut runner, &tools, &mut items, &mut warnings);
    assert_eq!(
        calls.borrow().as_slice(),
        [(
            "podman".to_string(),
            words(&["system", "connection", "list", "--format", "json"]),
            false,
        )]
    );
    assert_eq!(docker_item().group, CleanupGroup::Containers);
    assert_eq!(flatpak_item().group, CleanupGroup::Containers);
}

#[test]
fn a_connection_list_is_read_entry_by_entry() {
    // Names that are no text, and what is no list at all, are complained about.
    let mut warnings = Vec::new();
    let reply = Ok(output(true, r#"[{"Name":7}, "text", {"Name":"prod.eu"}]"#));
    assert_eq!(connections_from_reply(reply, &mut warnings), ["prod.eu"]);
    assert_eq!(warnings.len(), 2);
    let mut warnings = Vec::new();
    let reply = Ok(output(true, r#"{"Name":"prod"}"#));
    assert!(connections_from_reply(reply, &mut warnings).is_empty());
    assert_eq!(warnings.len(), 1);
    let mut warnings = Vec::new();
    let entries = Some(vec![r#"{"Name":"a-b"}"#.to_string()]);
    assert_eq!(connections_from_entries(entries, &mut warnings), ["a-b"]);
    assert!(warnings.is_empty());
}

#[test]
fn detects_arch_derivatives_from_id_like() {
    let distro =
        Distribution::parse_os_release("NAME=EndeavourOS\nID=endeavouros\nID_LIKE=\"arch\"\n");
    assert_eq!(distro.family, DistroFamily::Arch);
}

#[test]
fn detects_ubuntu_as_debian_family() {
    let distro =
        Distribution::parse_os_release("NAME=\"Ubuntu\"\nID=ubuntu\nID_LIKE=\"debian\"\n");
    assert_eq!(distro.family, DistroFamily::Debian);
}

#[test]
fn detects_fedora_family() {
    let distro = Distribution::parse_os_release("NAME=Fedora Linux\nID=fedora\n");
    assert_eq!(distro.family, DistroFamily::Fedora);
}

#[test]
fn unknown_distribution_remains_safe() {
    let distro = Distribution::parse_os_release("NAME=Custom Linux\nID=custom\n");
    assert_eq!(distro.family, DistroFamily::Unsupported);
    assert!(distro.package_cleanup_item(100).is_none());
}

#[test]
fn distribution_fixture_matrix_selects_the_expected_adapter() {
    let fixtures = [
        (
            "NAME=\"Arch Linux\"\nID=arch\n",
            DistroFamily::Arch,
            "paccache",
        ),
        (
            "NAME=\"Ubuntu\"\nID=ubuntu\nID_LIKE=debian\n",
            DistroFamily::Debian,
            "apt-get",
        ),
        (
            "NAME=\"Fedora Linux\"\nID=fedora\n",
            DistroFamily::Fedora,
            "dnf",
        ),
    ];
    for (content, expected_family, expected_program) in fixtures {
        let distro = Distribution::parse_os_release(content);
        assert_eq!(distro.family, expected_family);
        let action = distro.package_cleanup_item(1024).unwrap().action;
        let debug = format!("{action:?}");
        assert!(debug.contains(expected_program), "{content}: {debug}");
        assert_eq!(distro.package_tool(), Some(expected_program));
    }
}

#[test]
fn names_of_a_distribution_lose_their_quotes() {
    let distro = Distribution::parse_os_release("ID=\"fedora\"\nPRETTY_NAME='x'\nNAME=\"Fedora Linux\"\n");
    assert_eq!(distro.id, "fedora");
    assert_eq!(distro.name, "Fedora Linux");
}

#[test]
fn ollama_display_name_matches_ollama_conventions() {
    assert_eq!(
        ollama_display_name("registry.ollama.ai", "library", "qwen3-coder", "latest"),
        "qwen3-coder:latest"
    );
    assert_eq!(
        ollama_display_name("registry.ollama.ai", "myuser", "mymodel", "latest"),
        "myuser/mymodel:latest"
    );
    assert_eq!(
        ollama_display_name("example.com", "myuser", "mymodel", "v1"),
        "example.com/myuser/mymodel:v1"
    );
}

#[test]
fn ollama_model_name_validator_is_strict() {
    assert!(is_valid_ollama_model_name("qwen3-coder:latest"));
    assert!(is_valid_ollama_model_name("myuser/mymodel:latest"));
    assert!(is_valid_ollama_model_name("example.com/myuser/mymodel:v1"));
    assert!(!is_valid_ollama_model_name(""));
    assert!(!is_valid_ollama_model_name("-rf"));
    assert!(!is_valid_ollama_model_name("model; rm -rf /"));
    assert!(!is_valid_ollama_model_name("model && evil"));
    assert!(!is_valid_ollama_model_name("../etc/passwd"));
    assert!(!is_valid_ollama_model_name("/absolute"));
    assert!(!is_valid_ollama_model_name("trailing/"));
}

fn measured(path: &str, bytes: u64) -> Measured {
    Measured {
        path: path.to_string(),
        bytes,
    }
}

fn no_ollama() -> OllamaFacts {
    OllamaFacts {
        ollama_models: None,
        manifests_found: false,
        entries: Vec::new(),
        blobs: Vec::new(),
    }
}

fn model_facts(ollama: OllamaFacts, hub: Vec<HubEntry>) -> ModelFacts {
    ModelFacts {
        ollama,
        hf_home: None,
        hub,
    }
}

fn scan_models(tools: &[&str], facts: &ModelFacts) -> (Vec<CleanupItem>, Vec<String>) {
    assert!(do_models_fit(HOME, facts));
    let mut items = Vec::new();
    let mut warnings = Vec::new();
    tuxcleaner::models::scan(
        HOME,
        &words(tools),
        &Vec::new(),
        facts,
        &mut items,
        &mut warnings,
    );
    (items, warnings)
}

#[test]
fn scan_ollama_discovers_models_and_sums_blob_sizes() {
    let facts = model_facts(
        OllamaFacts {
            ollama_models: Some("/models".to_string()),
            manifests_found: true,
            entries: vec![
                ManifestEntry::NoFile,
                ManifestEntry::File {
                    path: "/models/manifests/registry.ollama.ai/library/qwen3-coder/latest"
                        .to_string(),
                    manifest: Some(Manifest {
                        config: Some("sha256:config".to_string()),
                        layers: words(&["sha256:model", "sha256:license"]),
                    }),
                },
            ],
            blobs: vec![
                measured("/models/blobs/sha256-model", 1000),
                measured("/models/blobs/sha256-license", 20),
                measured("/models/blobs/sha256-config", 5),
            ],
        },
        Vec::new(),
    );
    let (items, warnings) = scan_models(&["ollama"], &facts);
    assert!(warnings.is_empty(), "unexpected warnings: {warnings:?}");
    assert_eq!(items.len(), 1);
    let item = &items[0];
    assert_eq!(item.id, "models.ollama.qwen3-coder.latest");
    assert_eq!(item.group, CleanupGroup::Models);
    assert_eq!(item.risk, Risk::Elevated);
    assert_eq!(item.estimated_bytes, 1025);
    match &item.action {
        CleanupAction::Command {
            program,
            args,
            requires_root,
        } => {
            assert_eq!(program, "ollama");
            assert_eq!(args, &["rm".to_string(), "qwen3-coder:latest".to_string()]);
            assert!(!requires_root);
        }
        other => panic!("unexpected action: {other:?}"),
    }
}

#[test]
fn scan_ollama_warns_but_does_not_abort_when_root_is_missing() {
    let mut ollama = no_ollama();
    ollama.ollama_models = Some("/models/does-not-exist".to_string());
    let (items, warnings) = scan_models(&["ollama"], &model_facts(ollama, Vec::new()));
    assert!(items.is_empty());
    assert_eq!(warnings.len(), 1);
}

#[test]
fn broken_manifests_are_complained_about() {
    let facts = model_facts(
        OllamaFacts {
            ollama_models: None,
            manifests_found: true,
            entries: vec![
                ManifestEntry::Unreadable,
                ManifestEntry::File {
                    path: "/home/tester/.ollama/models/manifests/too/short".to_string(),
                    manifest: None,
                },
            ],
            blobs: Vec::new(),
        },
        Vec::new(),
    );
    let (items, warnings) = scan_models(&["ollama"], &facts);
    assert!(items.is_empty());
    assert_eq!(warnings.len(), 1, "{warnings:?}");
}

fn hub_entry(name: &str, directory: bool, bytes: u64) -> HubEntry {
    HubEntry {
        name: name.to_string(),
        directory,
        bytes,
    }
}

#[test]
fn scan_huggingface_size_is_not_double_counted_through_symlinks() {
    // The directory holds one blob and a link to it: its size is that of the blob.
    let facts = model_facts(
        no_ollama(),
        vec![hub_entry("models--fake--demo", true, 4096)],
    );
    let (items, _) = scan_models(&[], &facts);
    assert_eq!(items.len(), 1);
    assert_eq!(items[0].estimated_bytes, 4096);
    assert_eq!(items[0].group, CleanupGroup::Models);
    assert_eq!(items[0].risk, Risk::Elevated);
    assert!(matches!(
        &items[0].action,
        CleanupAction::RemovePath {
            contents_only: false,
            ..
        }
    ));
}

#[test]
fn scan_huggingface_ignores_non_matching_children() {
    let facts = model_facts(no_ollama(), vec![hub_entry("version.txt", false, 1)]);
    let (items, _) = scan_models(&[], &facts);
    assert!(items.is_empty());
}

#[test]
fn models_lie_where_the_environment_says() {
    assert_eq!(
        huggingface_hub_dir(None, HOME),
        "/home/tester/.cache/huggingface/hub"
    );
    assert_eq!(huggingface_hub_dir(Some("/hf"), HOME), "/hf/hub");
    assert_eq!(ollama_models_root(&None, HOME), "/home/tester/.ollama/models");
    assert_eq!(
        ollama_models_root(&Some("/models".to_string()), HOME),
        "/models"
    );
    assert_eq!(
        blob_path("/models/blobs", "sha256:ab"),
        Some("/models/blobs/sha256-ab".to_string())
    );
    assert_eq!(blob_path("/models/blobs", "md5:ab"), None);
}

fn no_snaps() -> SnapFacts {
    SnapFacts {
        snaps_dir: "/var/lib/snapd/snaps".to_string(),
        entries: Ok(Vec::new()),
        links: Vec::new(),
    }
}

fn scan_facts(sizes: Vec<Measured>) -> ScanFacts {
    ScanFacts {
        tools: Vec::new(),
        sizes,
        snaps: no_snaps(),
        models: model_facts(no_ollama(), Vec::new()),
    }
}

fn custom_scanner() -> Scanner {
    Scanner::new(
        HOME.to_string(),
        Distribution::parse_os_release("ID=custom\nNAME=Custom\n"),
    )
}

fn scan(scanner: &Scanner, facts: &ScanFacts) -> ScanReport {
    scanner
        .scan(&mut scripted(Ok((true, "[]".to_string()))), facts)
        .unwrap()
}

#[test]
fn scan_only_includes_existing_known_cache_paths() {
    let facts = scan_facts(vec![measured("/home/tester/.cache/pip", 123)]);
    let report = scan(&custom_scanner(), &facts);
    assert!(report.items.iter().any(|item| item.id == "dev..cache.pip"));
    assert!(!report.items.iter().any(|item| item.id.contains("mozilla")));
    assert_eq!(report.estimated_total_bytes, 123);
}

#[test]
fn scan_includes_uv_and_pnpm_store_only_when_populated() {
    let scanner = custom_scanner();
    let report = scan(&scanner, &scan_facts(Vec::new()));
    assert!(!report.items.iter().any(|item| item.id == "dev..cache.uv"));
    assert!(!report.items.iter().any(|item| item.id == "dev..pnpm-store"));
    let facts = scan_facts(vec![
        measured("/home/tester/.cache/uv", 64),
        measured("/home/tester/.pnpm-store", 64),
    ]);
    let report = scan(&scanner, &facts);
    assert!(report.items.iter().any(|item| item.id == "dev..cache.uv"));
    assert!(report.items.iter().any(|item| item.id == "dev..pnpm-store"));
}

#[test]
fn scan_includes_additional_dev_and_browser_caches_only_when_populated() {
    let scanner = custom_scanner();
    let populated = [
        (".cache/terragrunt", "dev..cache.terragrunt"),
        (".terraform.d/plugin-cache", "dev..terraform.d.plugin-cache"),
        (".cache/ms-playwright", "dev..cache.ms-playwright"),
        (".cache/.bun", "dev..cache..bun"),
        (".cache/zig", "dev..cache.zig"),
        (".cache/pre-commit", "dev..cache.pre-commit"),
        (".cache/go-build", "dev..cache.go-build"),
        (".cache/ms-playwright-go", "dev..cache.ms-playwright-go"),
        (".cache/microsoft-edge", "user..cache.microsoft-edge"),
    ];
    let report = scan(&scanner, &scan_facts(Vec::new()));
    for (_, id) in populated {
        assert!(
            !report.items.iter().any(|item| item.id == id),
            "expected {id} to be absent before the directory exists"
        );
    }
    let sizes = populated
        .iter()
        .map(|(relative, _)| measured(&format!("{HOME}/{relative}"), 32))
        .collect();
    let report = scan(&scanner, &scan_facts(sizes));
    for (_, id) in populated {
        assert!(
            report.items.iter().any(|item| item.id == id),
            "expected {id} to be present once the directory is populated"
        );
    }
}

#[test]
fn a_scan_asks_for_every_kind_of_item() {
    let scanner = Scanner::new(
        HOME.to_string(),
        Distribution::parse_os_release("ID=arch\nNAME=Arch\n"),
    );
    let mut facts = scan_facts(vec![
        measured("/var/cache/pacman/pkg", 100),
        measured("/var/log/journal", 201 * 1024 * 1024),
        measured("/home/tester/.local/share/Trash", 7),
    ]);
    facts.tools = words(&["paccache", "journalctl", "docker", "podman", "flatpak", "snap"]);
    let report = scan(&scanner, &facts);
    let ids: Vec<&str> = report.items.iter().map(|item| item.id.as_str()).collect();
    assert!(ids.contains(&"system.journal"));
    assert!(ids.contains(&"user.trash"));
    let journal = report
        .items
        .iter()
        .find(|item| item.id == "system.journal")
        .unwrap();
    assert_eq!(journal.estimated_bytes, 1024 * 1024);
    let total: u64 = report.items.iter().map(|item| item.estimated_bytes).sum();
    assert_eq!(report.estimated_total_bytes, total);
    let grouped: u64 = report.groups.iter().map(|group| group.estimated_bytes).sum();
    assert_eq!(grouped, total);
    assert!(report.warnings.is_empty(), "{:?}", report.warnings);
}

#[test]
fn a_cache_without_its_tool_is_complained_about() {
    let scanner = Scanner::new(
        HOME.to_string(),
        Distribution::parse_os_release("ID=fedora\nNAME=Fedora\n"),
    );
    let facts = scan_facts(vec![measured("/var/cache/dnf", 10)]);
    let report = scan(&scanner, &facts);
    assert_eq!(
        report.warnings,
        ["dnf is not installed; the package cache was measured but cannot be cleaned safely"]
    );
}

#[test]
fn an_unsupported_distribution_is_complained_about() {
    let report = scan(&custom_scanner(), &scan_facts(Vec::new()));
    assert_eq!(
        report.warnings,
        ["Custom is not yet supported for package cleanup; user and developer caches are still available"]
    );
}

#[test]
fn sizes_that_do_not_fit_give_no_report() {
    let facts = scan_facts(vec![
        measured("/home/tester/.cache/uv", u64::MAX),
        measured("/home/tester/.pnpm-store", 1),
    ]);
    let mut runner = scripted(Ok((true, "[]".to_string())));
    assert!(custom_scanner().scan(&mut runner, &facts).is_none());
}

fn snap_file(name: &str, bytes: u64) -> SnapEntry {
    SnapEntry::File {
        path: format!("/var/lib/snapd/snaps/{name}"),
        bytes,
    }
}

fn snap_link(name: &str, target: Option<&str>) -> SnapLink {
    SnapLink {
        name: name.to_string(),
        target: target.map(str::to_string),
    }
}

#[test]
fn discovers_disabled_snap_revisions_and_never_returns_the_active_one() {
    let facts = SnapFacts {
        snaps_dir: "/var/lib/snapd/snaps".to_string(),
        entries: Ok(vec![
            snap_file("firefox_8664.snap", 500),
            snap_file("firefox_8754.snap", 700),
            snap_file("core20_2769.snap", 300),
            snap_file("core20_2866.snap", 400),
        ]),
        links: vec![
            snap_link("firefox", Some("8754")),
            snap_link("core20", Some("2866")),
        ],
    };
    let (items, warnings) = discover_disabled_snap_revisions(&facts);
    assert!(warnings.is_empty(), "{warnings:?}");
    let ids: Vec<_> = items.iter().map(|item| item.id.clone()).collect();
    assert_eq!(ids.len(), 2);
    assert!(ids.contains(&"packages.snap.firefox.8664".to_string()));
    assert!(ids.contains(&"packages.snap.core20.2769".to_string()));
    assert!(!ids.iter().any(|id| id.ends_with(".8754")));
    assert!(!ids.iter().any(|id| id.ends_with(".2866")));

    let firefox_item = items
        .iter()
        .find(|item| item.id == "packages.snap.firefox.8664")
        .unwrap();
    assert_eq!(firefox_item.estimated_bytes, 500);
    assert_eq!(firefox_item.group, CleanupGroup::System);
    assert_eq!(firefox_item.risk, Risk::Elevated);
    assert_eq!(
        firefox_item.action,
        CleanupAction::Command {
            program: "snap".to_string(),
            args: words(&["remove", "--revision=8664", "firefox"]),
            requires_root: true,
        }
    );
}

#[test]
fn skips_a_snap_when_its_active_revision_cannot_be_determined() {
    let facts = SnapFacts {
        snaps_dir: "/var/lib/snapd/snaps".to_string(),
        entries: Ok(vec![
            snap_file("hwctl_72.snap", 10),
            snap_file("hwctl_123.snap", 20),
        ]),
        links: Vec::new(),
    };
    let (items, warnings) = discover_disabled_snap_revisions(&facts);
    assert!(items.is_empty());
    assert_eq!(warnings.len(), 1);
    assert!(warnings[0].contains("hwctl"));
}

#[test]
fn skips_unparseable_snap_filenames_with_a_warning_but_keeps_scanning() {
    let facts = SnapFacts {
        snaps_dir: "/var/lib/snapd/snaps".to_string(),
        entries: Ok(vec![
            snap_file("noRevisionMarker.snap", 10),
            snap_file("mysnap_x1.snap", 10),
            snap_file("firefox_8664.snap", 10),
            snap_file("firefox_8754.snap", 10),
        ]),
        links: vec![snap_link("firefox", Some("8754"))],
    };
    let (items, warnings) = discover_disabled_snap_revisions(&facts);
    assert_eq!(items.len(), 1);
    assert_eq!(items[0].id, "packages.snap.firefox.8664");
    assert_eq!(warnings.len(), 2, "{warnings:?}");
}

#[test]
fn discovery_degrades_gracefully_when_the_snaps_directory_is_unreadable() {
    let facts = SnapFacts {
        snaps_dir: "/nonexistent/tuxcleaner-snap-revision-test-dir".to_string(),
        entries: Err("No such file or directory (os error 2)".to_string()),
        links: Vec::new(),
    };
    let (items, warnings) = discover_disabled_snap_revisions(&facts);
    assert!(items.is_empty());
    assert_eq!(warnings.len(), 1);
}

#[test]
fn snap_names_are_taken_apart_at_the_last_mark() {
    assert_eq!(
        parse_snap_revision_filename("/x/my_snap_12.snap"),
        Some(("my_snap".to_string(), "12".to_string()))
    );
    assert_eq!(parse_snap_revision_filename("/x/snap_x1.snap"), None);
    assert_eq!(parse_snap_revision_filename("/x/plain.snap"), None);
}

fn item(id: &str, group: CleanupGroup, estimated_bytes: u64) -> CleanupItem {
    CleanupItem {
        id: id.to_string(),
        group,
        label: id.to_string(),
        estimated_bytes,
        risk: Risk::Low,
        action: CleanupAction::RemovePath {
            path: format!("/tmp/{id}"),
            contents_only: false,
        },
    }
}

#[test]
fn sort_orders_groups_by_total_and_items_by_size_within_group() {
    let items = vec![
        item("system.a", CleanupGroup::System, 100),
        item("user.a", CleanupGroup::User, 50),
        item("user.b", CleanupGroup::User, 80),
        item("dev.a", CleanupGroup::Dev, 200),
    ];
    let items = sort_items_by_group_size(items);
    let ids: Vec<_> = items.iter().map(|item| item.id.as_str()).collect();
    assert_eq!(ids, ["dev.a", "user.b", "user.a", "system.a"]);
}

#[test]
fn sort_breaks_ties_deterministically_by_id() {
    let items = vec![
        item("dev.b", CleanupGroup::Dev, 100),
        item("dev.a", CleanupGroup::Dev, 100),
    ];
    let items = sort_items_by_group_size(items);
    let ids: Vec<_> = items.iter().map(|item| item.id.as_str()).collect();
    assert_eq!(ids, ["dev.a", "dev.b"]);
}

#[test]
fn scan_report_groups_order_matches_item_order() {
    let items = vec![
        item("system.a", CleanupGroup::System, 100),
        item("user.a", CleanupGroup::User, 50),
        item("user.b", CleanupGroup::User, 80),
        item("dev.a", CleanupGroup::Dev, 200),
    ];
    let items = sort_items_by_group_size(items);
    let report = ScanReport::from_items("Test".to_string(), items, Vec::new());

    let groups_with_items: Vec<_> = report
        .groups
        .iter()
        .filter(|summary| summary.item_count > 0)
        .map(|summary| summary.group)
        .collect();
    assert_eq!(
        groups_with_items,
        [CleanupGroup::Dev, CleanupGroup::User, CleanupGroup::System]
    );
    let mut first_seen = Vec::new();
    for item in &report.items {
        if !first_seen.contains(&item.group) {
            first_seen.push(item.group);
        }
    }
    assert_eq!(groups_with_items, first_seen);
}

#[test]
fn from_items_orders_groups_by_estimated_bytes_descending() {
    let items = vec![
        item("system.a", CleanupGroup::System, 100),
        item("dev.a", CleanupGroup::Dev, 200),
        item("user.a", CleanupGroup::User, 50),
    ];
    let report = ScanReport::from_items("Test".to_string(), items, Vec::new());
    let order: Vec<_> = report.groups.iter().map(|summary| summary.group).collect();
    assert_eq!(
        order,
        [
            CleanupGroup::Dev,
            CleanupGroup::System,
            CleanupGroup::User,
            CleanupGroup::Containers,
            CleanupGroup::Models,
        ]
    );
}

#[test]
fn from_items_breaks_group_ties_deterministically_by_title() {
    let items = vec![
        item("dev.a", CleanupGroup::Dev, 100),
        item("system.a", CleanupGroup::System, 100),
    ];
    let report = ScanReport::from_items("Test".to_string(), items, Vec::new());
    let tied: Vec<_> = report
        .groups
        .iter()
        .filter(|summary| summary.estimated_bytes == 100)
        .map(|summary| summary.group)
        .collect();
    assert_eq!(tied, [CleanupGroup::Dev, CleanupGroup::System]);
}

#[test]
fn sums_by_group_add_up() {
    let items = vec![
        item("a", CleanupGroup::System, 1),
        item("b", CleanupGroup::Dev, 2),
        item("c", CleanupGroup::System, 4),
    ];
    let sums = summarize_by_group(&items);
    let of = |group: CleanupGroup| {
        sums.iter()
            .find(|entry| entry.0 == group)
            .map(|entry| entry.1)
    };
    assert_eq!(of(CleanupGroup::System), Some(5));
    assert_eq!(of(CleanupGroup::Dev), Some(2));
    assert_eq!(of(CleanupGroup::User), None);
    assert_eq!(sums.iter().map(|entry| entry.1).sum::<u64>(), 7);
}

#[test]
fn what_a_scan_finds_can_be_removed() {
    let facts = scan_facts(vec![
        measured("/home/tester/.cache/uv", 64),
        measured("/home/tester/.cache/mozilla", 64),
        measured("/home/tester/go/pkg/mod", 64),
        measured("/home/tester/.local/share/Trash", 7),
    ]);
    let report = scan(&custom_scanner(), &facts);
    assert_eq!(report.items.len(), 4);
    let (executor, _) = recording();
    for item in &report.items {
        let path = match &item.action {
            CleanupAction::RemovePath { path, .. } => path.clone(),
            other => panic!("unexpected action: {other:?}"),
        };
        let clear = PathFacts {
            hf_home: None,
            way: vec![EntryKind::Missing],
            target: EntryKind::Directory,
            git_root: false,
            exists: true,
        };
        assert_eq!(executor.validate_path(&path, &clear), Ok(()), "{path}");
    }
}

#[test]
fn a_scan_says_what_it_has_to_know() {
    let scanner = Scanner::new(
        HOME.to_string(),
        Distribution::parse_os_release("ID=fedora\nNAME=Fedora\n"),
    );
    let paths = scanner.measured_paths();
    for wanted in [
        "/var/log/journal",
        "/home/tester/.local/share/Trash",
        "/home/tester/.cache/uv",
        "/home/tester/.cache/mozilla",
        "/home/tester/.cache/whisper",
    ] {
        assert!(paths.iter().any(|path| path == wanted), "{wanted}");
    }
    assert_eq!(
        scanner.tools(),
        ["dnf", "journalctl", "snap", "docker", "podman", "flatpak", "ollama"]
    );
    assert_eq!(custom_scanner().tools().len(), 6);
}

#[test]
fn only_what_a_scan_asks_for_plays_a_part() {
    let sizes = |extra: bool| {
        let mut list = vec![measured("/home/tester/.cache/uv", 64)];
        if extra {
            list.push(measured("/home/tester/Documents", 9000));
        }
        list
    };
    let plain = scan(&custom_scanner(), &scan_facts(sizes(false)));
    let more = scan(&custom_scanner(), &scan_facts(sizes(true)));
    assert_eq!(plain, more);
}

fn release(text: &str) -> (String, String, DistroFamily) {
    let distro = Distribution::parse_os_release(text);
    (distro.id, distro.name, distro.family)
}

#[test]
fn idle_lines_of_a_release_change_nothing() {
    let plain = release("ID=pop\nNAME=Pop\nID_LIKE=\"ubuntu debian\"\n");
    assert_eq!(
        plain,
        ("pop".to_string(), "Pop".to_string(), DistroFamily::Debian)
    );
    for line in ["", "  \t", "# ID=arch", "ID", "VERSION=1", "id=arch", "ID =arch"] {
        for text in [
            format!("{line}\nID=pop\nNAME=Pop\nID_LIKE=\"ubuntu debian\"\n"),
            format!("ID=pop\n{line}\r\nNAME=Pop\nID_LIKE=\"ubuntu debian\"\n"),
            format!("ID=pop\nNAME=Pop\nID_LIKE=\"ubuntu debian\"\n{line}"),
        ] {
            assert_eq!(release(&text), plain, "{text}");
        }
    }
    // The line feed at the end is optional, and lines may come in any order.
    assert_eq!(release("ID=pop\nNAME=Pop\nID_LIKE=\"ubuntu debian\""), plain);
    assert_eq!(
        release("ID_LIKE=\"ubuntu debian\"\nNAME=Pop\nID=pop\n"),
        plain
    );
}

#[test]
fn the_last_assignment_of_a_release_counts() {
    assert_eq!(
        release("ID=arch\nNAME=Arch\nID=fedora\nNAME=Fedora\n"),
        (
            "fedora".to_string(),
            "Fedora".to_string(),
            DistroFamily::Fedora
        )
    );
}

#[test]
fn models_keep_names_of_their_own() {
    let names = [
        ollama_display_name("registry.ollama.ai", "library", "m", "t"),
        ollama_display_name("registry.ollama.ai", "user", "m", "t"),
        ollama_display_name("example.com", "library", "m", "t"),
        ollama_display_name("example.com", "user", "m", "t"),
        ollama_display_name("user", "m", "m", "t"),
    ];
    assert_eq!(
        names,
        [
            "m:t",
            "user/m:t",
            "example.com/library/m:t",
            "example.com/user/m:t",
            "user/m/m:t"
        ]
    );
}

#[test]
fn sorting_again_or_from_another_order_changes_nothing() {
    let found = || {
        vec![
            item("a", CleanupGroup::User, 5),
            item("b", CleanupGroup::Dev, 9),
            item("c", CleanupGroup::User, 5),
            item("d", CleanupGroup::System, 10),
            item("e", CleanupGroup::Dev, 1),
        ]
    };
    let ids = |items: &Vec<CleanupItem>| -> Vec<String> {
        items.iter().map(|item| item.id.clone()).collect()
    };
    let sorted = sort_items_by_group_size(found());
    assert_eq!(ids(&sorted), ["b", "e", "d", "a", "c"]);
    let expected = ids(&sorted);
    assert_eq!(ids(&sort_items_by_group_size(sorted)), expected);
    for turn in 0..5 {
        let mut turned = found();
        turned.rotate_left(turn);
        assert_eq!(ids(&sort_items_by_group_size(turned)), expected);
        let mut reversed = found();
        reversed.rotate_left(turn);
        reversed.reverse();
        assert_eq!(ids(&sort_items_by_group_size(reversed)), expected);
    }
}
