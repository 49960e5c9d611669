//! The arguments of the commands.
use vstd::prelude::*;
use vstd::string::*;

use crate::model::CleanupGroup;
use crate::uninstall::ApplicationSource;

verus! {

/// A command line: a command, or none for the interactive menu.
#[derive(Debug, PartialEq, Eq)]
pub struct Cli {
    pub command: Option<Commands>,
}

#[derive(Debug, PartialEq, Eq)]
pub enum Commands {
    /// Scan known caches and clean explicitly selected groups.
    Clean(CleanArgs),
    /// List installed desktop applications and uninstall explicit selections.
    Uninstall(UninstallArgs),
    /// Analyze disk usage and optionally remove explicitly selected large files.
    Analyze(AnalyzeArgs),
    /// Find and remove old project build artifacts.
    Purge(PurgeArgs),
    /// Show a read-only system health snapshot.
    Status(StatusArgs),
    /// Review previous cleanup operations.
    History(HistoryArgs),
    /// Check for or install a verified release.
    Update(UpdateArgs),
}

#[derive(Debug, PartialEq, Eq)]
pub struct CleanArgs {
    pub dry_run: bool,
    pub yes: bool,
    pub groups: Vec<CleanupGroup>,
    pub json: bool,
}

impl Default for CleanArgs {
    fn default() -> (r: Self)
        ensures
            !r.dry_run,
            !r.yes,
            r.groups@.len() == 0,
            !r.json,
    {
        CleanArgs { dry_run: false, yes: false, groups: Vec::new(), json: false }
    }
}

#[derive(Debug, PartialEq, Eq)]
pub struct UninstallArgs {
    pub dry_run: bool,
    pub yes: bool,
    pub applications: Vec<String>,
    pub source: Vec<ApplicationSource>,
    pub search: Option<String>,
    pub json: bool,
}

impl Default for UninstallArgs {
    fn default() -> (r: Self)
        ensures
            !r.dry_run,
            !r.yes,
            r.applications@.len() == 0,
            r.source@.len() == 0,
            r.search is None,
            !r.json,
    {
        UninstallArgs {
            dry_run: false,
            yes: false,
            applications: Vec::new(),
            source: Vec::new(),
            search: None,
            json: false,
        }
    }
}

#[derive(Debug, PartialEq, Eq)]
pub struct AnalyzeArgs {
    pub path: Option<String>,
    pub min_size: String,
    pub max_depth: usize,
    pub remove: bool,
    pub dry_run: bool,
    pub yes: bool,
    pub files: Vec<String>,
    pub json: bool,
}

impl Default for AnalyzeArgs {
    fn default() -> (r: Self)
        ensures
            r.path is None,
            r.min_size@ == "500M"@,
            r.max_depth == 20,
            !r.remove,
            !r.dry_run,
            !r.yes,
            r.files@.len() == 0,
            !r.json,
    {
        AnalyzeArgs {
            path: None,
            min_size: "500M".to_owned(),
            max_depth: 20,
            remove: false,
            dry_run: false,
            yes: false,
            files: Vec::new(),
            json: false,
        }
    }
}

#[derive(Debug, PartialEq, Eq)]
pub struct PurgeArgs {
    pub paths: Vec<String>,
    pub older_than_days: u64,
    pub dry_run: bool,
    pub yes: bool,
    pub json: bool,
}

impl Default for PurgeArgs {
    fn default() -> (r: Self)
        ensures
            r.paths@.len() == 0,
            r.older_than_days == 30,
            !r.dry_run,
            !r.yes,
            !r.json,
    {
        PurgeArgs {
            paths: Vec::new(),
            older_than_days: 30,
            dry_run: false,
            yes: false,
            json: false,
        }
    }
}

#[derive(Debug, Clone, Copy, PartialEq, Eq)]
pub struct StatusArgs {
    pub json: bool,
}

impl Default for StatusArgs {
    fn default() -> (r: Self)
        ensures
            !r.json,
    {
        StatusArgs { json: false }
    }
}

#[derive(Debug, Clone, Copy, PartialEq, Eq)]
pub struct HistoryArgs {
    pub limit: usize,
    pub json: bool,
}

impl Default for HistoryArgs {
    fn default() -> (r: Self)
        ensures
            r.limit == 20,
            !r.json,
    {
        HistoryArgs { limit: 20, json: false }
    }
}

#[derive(Debug, PartialEq, Eq)]
pub struct UpdateArgs {
    pub check: bool,
    pub dry_run: bool,
    pub target_version: Option<String>,
    pub yes: bool,
    pub json: bool,
}

impl Default for UpdateArgs {
    fn default() -> (r: Self)
        ensures
            !r.check,
            !r.dry_run,
            r.target_version is None,
            !r.yes,
            !r.json,
    {
        UpdateArgs { check: false, dry_run: false, target_version: None, yes: false, json: false }
    }
}

} // verus!
