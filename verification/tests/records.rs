//! The history of cleanups, and the analysis of a directory.
use std::collections::BTreeMap;

use tuxcleaner::analyze::{
    analyze, count_file, is_hidden_below, should_visit, top_entry, LargeFile, WalkEvent,
};
use tuxcleaner::catalog::{
    described, desktop_name, field, flatpak_application, package_owner,
};
use tuxcleaner::history::{is_blank_line, read_recent, HistoryStore, Rotation};
use tuxcleaner::model::{CleanupAction, CleanupGroup, Risk};
use tuxcleaner::purge::{judge_artifact, purge_step, PurgeCandidate, WalkStep};
use tuxcleaner::uninstall::ApplicationSource;

/// The files of a history, each with its lines. Every line counts ten bytes, and a record is
/// nothing but its command.
struct Files {
    store: HistoryStore,
    files: BTreeMap<String, Vec<Vec<u8>>>,
}

impl Files {
    fn new(store: HistoryStore) -> Files {
        Files {
            store,
            files: BTreeMap::new(),
        }
    }

    fn append(&mut self, command: &str) {
        let current = self
            .files
            .get(self.store.path())
            .map(|lines| 10 * lines.len() as u64);
        match self.store.rotation_needed(current, 10) {
            Rotation::Keep => {}
            Rotation::Truncate => {
                self.files.remove(self.store.path());
            }
            Rotation::Rename(pairs) => {
                for (from, to) in pairs {
                    if let Some(lines) = self.files.remove(&from) {
                        self.files.insert(to, lines);
                    }
                }
            }
        }
        self.write(&serde_json::to_vec(command).unwrap());
    }

    /// Adds a line as it is.
    fn write(&mut self, line: &[u8]) {
        self.files
            .entry(self.store.path().to_string())
            .or_default()
            .push(line.to_vec());
    }

    fn read_recent(&self, limit: usize) -> Vec<String> {
        let mut all = Vec::new();
        for path in self.store.history_paths_oldest_first() {
            if let Some(lines) = self.files.get(&path) {
                let records = lines.iter().filter(|line| !is_blank_line(line));
                all.extend(records.map(|line| serde_json::from_slice::<String>(line).ok()));
            }
        }
        read_recent(all, limit)
    }
}

#[test]
fn returns_newest_history_first() {
    let mut files = Files::new(HistoryStore::new("/state/history.jsonl".to_string()));
    for command in ["first", "second", "third"] {
        files.append(command);
    }
    let records = files.read_recent(2);
    assert_eq!(records[0], "third");
    assert_eq!(records[1], "second");
    assert_eq!(records.len(), 2);
}

#[test]
fn rotates_history_and_drops_files_beyond_retention() {
    let store = HistoryStore::with_retention("/state/history.jsonl".to_string(), 1, 2);
    let mut files = Files::new(store);
    for command in ["first", "second", "third", "fourth"] {
        files.append(command);
    }
    assert_eq!(files.read_recent(10), ["fourth", "third", "second"]);
    assert!(files.files.contains_key(&files.store.rotated_path(2)));
    assert!(!files.files.contains_key(&files.store.rotated_path(3)));
}

#[test]
fn a_history_without_older_files_starts_over() {
    let store = HistoryStore::with_retention("/state/history.jsonl".to_string(), 1, 0);
    let mut files = Files::new(store);
    files.append("first");
    files.append("second");
    assert_eq!(files.read_recent(10), ["second"]);
}

#[test]
fn rotated_files_have_names_of_their_own() {
    let store = HistoryStore::with_retention("/state/history.jsonl".to_string(), 1, 3);
    assert_eq!(store.rotated_path(1), "/state/history.jsonl.1");
    assert_eq!(store.lock_path(), "/state/history.jsonl.lock");
    assert_eq!(
        store.history_paths_oldest_first(),
        [
            "/state/history.jsonl.3",
            "/state/history.jsonl.2",
            "/state/history.jsonl.1",
            "/state/history.jsonl",
        ]
    );
    assert_eq!(store.rotation_needed(None, 5), Rotation::Keep);
    assert_eq!(store.rotation_needed(Some(0), 5), Rotation::Keep);
    assert!(matches!(
        store.rotation_needed(Some(u64::MAX), u64::MAX),
        Rotation::Rename(_)
    ));
}

#[test]
fn blank_lines_hold_no_record() {
    assert!(is_blank_line(b""));
    assert!(is_blank_line(b" \t\r\n"));
    assert!(!is_blank_line(b" x"));
}

fn file(path: &str, size: u64) -> WalkEvent {
    WalkEvent::Entry {
        path: path.to_string(),
        file: Some(size),
        modified_unix: None,
        top_is_dir: true,
    }
}

fn directory(path: &str) -> WalkEvent {
    WalkEvent::Entry {
        path: path.to_string(),
        file: None,
        modified_unix: None,
        top_is_dir: true,
    }
}

#[test]
fn analyzes_top_level_usage_and_marks_hidden_app_data() {
    let events = vec![
        directory("/root"),
        directory("/root/Documents"),
        file("/root/Documents/video.mkv", 100),
        directory("/root/.models"),
        file("/root/.models/model.bin", 200),
    ];
    let report = analyze("/root", &events, 50);
    assert_eq!(report.total_size, 300);
    assert_eq!(report.large_files.len(), 2);
    assert!(report.large_files[0].app_data);
}

#[test]
fn excludes_git_and_node_modules_trees() {
    let tree = [
        ("/root", 0, None),
        ("/root/project", 1, None),
        ("/root/project/.git", 2, None),
        ("/root/project/.git/object", 3, Some(100)),
        ("/root/project/node_modules", 2, None),
        ("/root/project/node_modules/module", 3, Some(100)),
        ("/root/project/source.rs", 2, Some(10)),
    ];
    // A walk does not descend into what is not visited.
    let mut events = Vec::new();
    let mut closed: Vec<String> = Vec::new();
    for (path, depth, size) in tree {
        let name = path.rsplit('/').next().unwrap();
        if closed.iter().any(|dir| path.starts_with(dir.as_str())) {
            continue;
        }
        if !should_visit(depth, name) {
            closed.push(format!("{path}/"));
            continue;
        }
        events.push(match size {
            Some(size) => file(path, size),
            None => directory(path),
        });
    }
    let report = analyze("/root", &events, 1);
    assert_eq!(report.total_size, 10);
}

#[test]
fn the_root_is_always_visited() {
    assert!(should_visit(0, ".git"));
    assert!(!should_visit(1, ".git"));
    assert!(!should_visit(1, "node_modules"));
    assert!(should_visit(1, "src"));
}

#[test]
fn entries_stand_by_size_then_name() {
    let events = vec![
        file("/root/b/1", 5),
        file("/root/a/1", 5),
        file("/root/c/1", 7),
        file("/root/c/2", 1),
        WalkEvent::Skipped,
        file("/elsewhere/x", 99),
    ];
    let report = analyze("/root", &events, 6);
    let names: Vec<&str> = report
        .entries
        .iter()
        .map(|entry| entry.name.as_str())
        .collect();
    assert_eq!(names, ["c", "a", "b"]);
    assert_eq!(report.total_size, 18);
    assert_eq!(report.total_files, 4);
    assert_eq!(report.skipped_entries, 1);
    assert_eq!(report.large_files.len(), 1);
    assert_eq!(report.large_files[0].path, "/root/c/1");
    assert_eq!(top_entry("/root", "/root/c/2"), Some("/root/c".to_string()));
    assert_eq!(top_entry("/root", "/root"), None);
}

#[test]
fn sums_stop_at_the_largest_number() {
    let events = vec![file("/root/a/1", u64::MAX), file("/root/a/2", 1)];
    let report = analyze("/root", &events, 1);
    assert_eq!(report.total_size, u64::MAX);
    assert_eq!(report.entries[0].size, u64::MAX);
}

#[test]
fn a_large_file_becomes_an_item() {
    let file = LargeFile {
        path: "/home/tester/x.iso".to_string(),
        size: 9,
        modified_unix: None,
        app_data: false,
    };
    let item = file.cleanup_item(true);
    assert_eq!(item.group, CleanupGroup::User);
    assert_eq!(item.risk, Risk::Explicit);
    assert_eq!(item.estimated_bytes, 9);
    assert_eq!(
        item.action,
        CleanupAction::RemovePersonalFile {
            path: "/home/tester/x.iso".to_string(),
            force: true,
        }
    );
}

#[test]
fn an_artifact_becomes_an_item() {
    let candidate = PurgeCandidate {
        path: "/home/tester/p/target".to_string(),
        kind: "target".to_string(),
        size: 9,
        age_days: 3,
    };
    let item = candidate.cleanup_item();
    assert_eq!(item.group, CleanupGroup::Dev);
    assert_eq!(
        item.action,
        CleanupAction::RemovePath {
            path: "/home/tester/p/target".to_string(),
            contents_only: false,
        }
    );
}

#[test]
fn entries_add_up_to_the_total() {
    let events = vec![
        file("/root/a/1", 5),
        file("/root/b/1", 6),
        file("/root/a/2/3", 7),
        file("/root/top.bin", 8),
        directory("/root/empty"),
    ];
    let report = analyze("/root", &events, 1);
    let sum: u64 = report.entries.iter().map(|entry| entry.size).sum();
    assert_eq!(sum, report.total_size);
    assert_eq!(report.total_size, 26);
    assert_eq!(report.entries.len(), 4);
}

#[test]
fn hidden_locations_are_told_from_others() {
    assert!(is_hidden_below("/home/tester", "/home/tester/a/.b/c"));
    assert!(!is_hidden_below("/home/.tester", "/home/.tester/a"));
    assert!(!is_hidden_below("/home/tester", "/etc/.x"));
}

#[test]
fn old_artifacts_are_candidates() {
    let day = 86_400;
    let found = judge_artifact("/p/target", 9, 10 * day, 45 * day + 1, 30).unwrap();
    assert_eq!(found.kind, "target");
    assert_eq!(found.age_days, 35);
    assert_eq!(found.size, 9);
    assert!(judge_artifact("/p/target", 9, 10 * day, 39 * day, 30).is_none());
    assert!(judge_artifact("/p/src", 9, 0, 45 * day, 30).is_none());
    // Clocks may run backwards.
    assert_eq!(
        judge_artifact("/p/target", 9, 10, 5, 0).unwrap().age_days,
        0
    );
}

#[test]
fn applications_are_described_by_their_packages() {
    let desktop = "[Desktop Entry]\nType=Application\nName=Firefox\nName[de]=Feuerfuchs\n";
    assert_eq!(desktop_name(desktop), Some("Firefox".to_string()));
    assert_eq!(desktop_name("Type=Link\nName=x\n"), None);
    assert_eq!(
        desktop_name("Type=Application\nName=x\nNoDisplay=true\n"),
        None
    );
    assert_eq!(desktop_name("Type=Application\nName=x\nHidden=true\n"), None);
    assert_eq!(
        package_owner("vlc: /usr/share/applications/vlc.desktop\n"),
        Some("vlc".to_string())
    );
    let flatpak = flatpak_application("org.app\tApp\t2.1\t1.5\u{a0}MB\tuser").unwrap();
    assert_eq!(flatpak.id, "flatpak-user:org.app");
    assert_eq!(flatpak.source, ApplicationSource::FlatpakUser);
    assert_eq!(flatpak.installed_bytes, 1_572_864);
    assert!(flatpak_application("org.app\tApp\t2.1\t1 MB\tother").is_none());
    assert!(flatpak_application("org.app\tApp").is_none());
    let info = "Name : firefox\nVersion : 1.0-1\nInstalled Size : 250 MiB\n";
    assert_eq!(field(info, ':', "Version"), Some("1.0-1".to_string()));
    let application = described(
        ApplicationSource::Pacman,
        "firefox",
        "Firefox",
        info,
        "/usr/share/applications/firefox.desktop",
    );
    assert_eq!(application.id, "pacman:firefox");
    assert_eq!(application.version, "1.0-1");
    assert_eq!(application.installed_bytes, 250 * 1024 * 1024);
    let unknown = described(ApplicationSource::Pacman, "x", "X", "", "/x.desktop");
    assert_eq!(unknown.version, "unknown");
    assert_eq!(unknown.installed_bytes, 0);
}

#[test]
fn skips_corrupt_records_without_losing_valid_history() {
    let mut files = Files::new(HistoryStore::new("/state/history.jsonl".to_string()));
    files.append("before");
    files.write(b"not valid json\n");
    files.write(b"\xff\n");
    files.append("after");
    assert_eq!(files.read_recent(10), ["after", "before"]);
}

#[test]
fn lines_that_are_no_records_count_nothing() {
    let mut files = Files::new(HistoryStore::new("/state/history.jsonl".to_string()));
    files.write(b"{");
    for command in ["first", "second", "third"] {
        files.append(command);
        files.write(b" \t\n");
        files.write(b"???");
    }
    assert_eq!(files.read_recent(2), ["third", "second"]);
    assert_eq!(files.read_recent(3), ["third", "second", "first"]);
    assert_eq!(files.read_recent(10), ["third", "second", "first"]);
    assert!(files.read_recent(0).is_empty());
}

#[test]
fn a_search_for_artifacts_stops_at_them() {
    assert_eq!(purge_step(".git"), WalkStep::Skip);
    for name in ["node_modules", "target", ".venv"] {
        assert_eq!(purge_step(name), WalkStep::Judge);
    }
    for name in ["src", ".github", "targets", "Target", ""] {
        assert_eq!(purge_step(name), WalkStep::Enter);
    }
}

#[test]
fn files_are_counted_one_by_one() {
    assert_eq!(count_file(10, 2, 5, 6), (15, 3, false));
    assert_eq!(count_file(10, 2, 6, 6), (16, 3, true));
    assert_eq!(count_file(u64::MAX - 1, 2, 6, 6), (u64::MAX, 3, true));
    assert_eq!(count_file(0, u64::MAX, 0, 1), (0, u64::MAX, false));
}
