//! Which paths may be removed.
//!
//! Every path is judged twice: by what it is called, and by what lies on the way to it. What
//! the file system says about it is handed in as facts.
use vstd::prelude::*;
use vstd::string::*;

use crate::models::{hub_dir, huggingface_hub_dir};
use crate::path::{
    absolute, absolute_starts_at_root, component_parts, components, components_are_names,
    components_below, file_name, is_absolute, is_child_of, is_within, join_path, joined_path,
    joining_appends, joining_relative, last_name, lies_directly_in, lies_in, name_is_plain,
    one_more_component, parts, parts_below, relative_text, same_path, simple_name, text_below,
    without_lead, Component, Part,
};
use crate::text::{has_prefix, is_one_of, same, starts_with, str_texts, texts};
use crate::uninstall::optional_text;

verus! {

// ---------------------------------------------------------------------------------------
// Facts and faults
// ---------------------------------------------------------------------------------------

/// What the file system says of one path, without following a symbolic link.
#[derive(Debug, PartialEq, Eq)]
pub enum EntryKind {
    Missing,
    Symlink,
    Directory,
    File,
    Other,
    /// The path could not be looked at; the text says why.
    Failed(String),
}

/// What the file system says about a path that is to be removed.
#[derive(Debug, PartialEq, Eq)]
pub struct PathFacts {
    /// The value of `HF_HOME`.
    pub hf_home: Option<String>,
    /// The entries on the way from the home directory to the path, the path itself last. The
    /// list may end with the first entry that is missing, and nowhere before.
    pub way: Vec<EntryKind>,
    /// The path itself.
    pub target: EntryKind,
    /// Whether the path holds an entry named `.git`.
    pub git_root: bool,
    /// Whether the path exists, symbolic links followed.
    pub exists: bool,
}

/// Why a removal was refused or failed.
#[derive(Debug, PartialEq, Eq)]
pub enum ExecutionError {
    UnsafePath(String),
    Symlink(String),
    UnsafeCommand { program: String, args: String },
    Io { path: String, source: String },
}

pub enum ExecutionFault {
    UnsafePath(Seq<char>),
    Symlink(Seq<char>),
    UnsafeCommand { program: Seq<char>, args: Seq<char> },
    Io { path: Seq<char>, source: Seq<char> },
}

impl View for ExecutionError {
    type V = ExecutionFault;

    open spec fn view(&self) -> ExecutionFault {
        match self {
            ExecutionError::UnsafePath(path) => ExecutionFault::UnsafePath(path@),
            ExecutionError::Symlink(path) => ExecutionFault::Symlink(path@),
            ExecutionError::UnsafeCommand { program, args } => ExecutionFault::UnsafeCommand {
                program: program@,
                args: args@,
            },
            ExecutionError::Io { path, source } => ExecutionFault::Io {
                path: path@,
                source: source@,
            },
        }
    }
}

pub open spec fn execution_fault_text(fault: ExecutionFault) -> Seq<char> {
    match fault {
        ExecutionFault::UnsafePath(path) => "unsafe cleanup target rejected: "@ + path,
        ExecutionFault::Symlink(path) => "symbolic-link cleanup target rejected: "@ + path,
        ExecutionFault::UnsafeCommand { program, args } => "cleanup command is not allowed: "@
            + program + " "@ + args,
        ExecutionFault::Io { path, source } => "I/O error while processing "@ + path + ": "@
            + source,
    }
}

impl ExecutionError {
    pub fn message(&self) -> (r: String)
        ensures
            r@ == execution_fault_text(self@),
    {
        match self {
            ExecutionError::UnsafePath(path) => {
                "unsafe cleanup target rejected: ".to_owned().concat(path.as_str())
            },
            ExecutionError::Symlink(path) => {
                "symbolic-link cleanup target rejected: ".to_owned().concat(path.as_str())
            },
            ExecutionError::UnsafeCommand { program, args } => {
                "cleanup command is not allowed: ".to_owned().concat(program.as_str()).concat(
                    " ",
                ).concat(args.as_str())
            },
            ExecutionError::Io { path, source } => {
                "I/O error while processing ".to_owned().concat(path.as_str()).concat(": ").concat(
                    source.as_str(),
                )
            },
        }
    }
}

pub open spec fn verdict_view(verdict: Result<(), ExecutionError>) -> Result<(), ExecutionFault> {
    match verdict {
        Ok(()) => Ok(()),
        Err(error) => Err(error@),
    }
}

// ---------------------------------------------------------------------------------------
// Names
// ---------------------------------------------------------------------------------------

/// What no removal passes, whatever authorized it: the path is absolute, lies strictly below
/// the home directory and takes no step up.
pub open spec fn stays_below(home: Seq<char>, path: Seq<char>) -> bool {
    &&& absolute(path)
    &&& parts(path) != seq![Part::Root]
    &&& parts(path) != parts(home)
    &&& lies_in(path, home)
    &&& !parts(path).contains(Part::Parent)
}

/// A location that holds keys, settings or history.
pub open spec fn protected_name(part: Part) -> bool {
    ||| part == Part::Normal(".ssh"@)
    ||| part == Part::Normal(".gnupg"@)
    ||| part == Part::Normal(".config"@)
    ||| part == Part::Normal(".git"@)
}

/// A personal file that lies in a protected location, at any depth.
pub open spec fn denylisted(below: Seq<Part>) -> bool {
    ||| below.len() >= 2 && below[0] == Part::Normal("go"@) && below[1] == Part::Normal("pkg"@)
    ||| exists|i: int| 0 <= i < below.len() && protected_name(#[trigger] below[i])
}

/// The caches that tools keep at a fixed place below the home directory.
pub open spec fn known_caches() -> Seq<Seq<char>> {
    seq![
        ".cache/yay"@,
        ".cache/paru"@,
        ".cache/thumbnails"@,
        ".cache/mozilla"@,
        ".cache/chromium"@,
        ".cache/google-chrome"@,
        ".cache/microsoft-edge"@,
        ".cache/BraveSoftware"@,
        ".cache/vivaldi"@,
        ".cache/opera"@,
        ".local/share/Trash"@,
        ".cache/pip"@,
        ".npm/_cacache"@,
        ".cache/pnpm"@,
        ".cache/yarn"@,
        ".cargo/registry/cache"@,
        ".cargo/registry/src"@,
        ".cargo/git"@,
        "go/pkg/mod"@,
        ".gradle/caches"@,
        ".cache/composer"@,
        ".cache/uv"@,
        ".pnpm-store"@,
        ".cache/terragrunt"@,
        ".terraform.d/plugin-cache"@,
        ".cache/ms-playwright"@,
        ".cache/.bun"@,
        ".cache/zig"@,
        ".cache/pre-commit"@,
        ".cache/go-build"@,
        ".cache/ms-playwright-go"@,
    ]
}

/// The directories that a build leaves in a project.
pub open spec fn artifact_names() -> Seq<Seq<char>> {
    seq![
        "node_modules"@,
        "target"@,
        ".build"@,
        "build"@,
        "dist"@,
        ".venv"@,
        ".terraform"@,
        ".terragrunt-cache"@,
        ".flatpak-builder"@,
        ".pytest_cache"@,
        ".ruff_cache"@,
        ".mypy_cache"@,
        ".tox"@,
        ".next"@,
        ".turbo"@,
        ".parcel-cache"@,
    ]
}

/// The name of a repository in the Hugging Face hub.
pub open spec fn repository_name(name: Seq<char>) -> bool {
    ||| has_prefix(name, "models--"@)
    ||| has_prefix(name, "datasets--"@)
    ||| has_prefix(name, "spaces--"@)
}

/// The path is called like a cache or an artifact.
pub open spec fn reproducible(home: Seq<char>, path: Seq<char>, hub: Seq<char>) -> bool {
    ||| known_caches().contains(text_below(path, home))
    ||| last_name(path) matches Some(name) && artifact_names().contains(name)
    ||| is_child_of(path, hub) && (last_name(path) matches Some(name) && repository_name(name))
}

/// The path may be removed by what it is called: it stays below the home directory, outside
/// version control and settings, and is called like a cache or an artifact.
pub open spec fn removable_path(home: Seq<char>, path: Seq<char>, hub: Seq<char>) -> bool {
    let below = parts_below(path, home);
    &&& stays_below(home, path)
    &&& !below.contains(Part::Normal(".git"@))
    &&& !(below.len() > 0 && (below[0] == Part::Normal(".config"@) || below[0] == Part::Normal(
        ".ssh"@,
    ) || below[0] == Part::Normal(".gnupg"@)))
    &&& reproducible(home, path, hub)
}

/// The personal file may be removed by what it is called. `force` lifts the protected
/// locations and nothing else.
pub open spec fn removable_file(home: Seq<char>, path: Seq<char>, force: bool) -> bool {
    stays_below(home, path) && (force || !denylisted(parts_below(path, home)))
}

// ---------------------------------------------------------------------------------------
// The way to a path
// ---------------------------------------------------------------------------------------

pub open spec fn part_text(part: Part) -> Seq<char> {
    match part {
        Part::Root => "/"@,
        Part::Current => "."@,
        Part::Parent => ".."@,
        Part::Normal(name) => name,
    }
}

/// The path after `count` steps from `home`.
pub open spec fn step(home: Seq<char>, below: Seq<Part>, count: int) -> Seq<char>
    decreases count,
{
    if count <= 0 {
        home
    } else {
        joined_path(step(home, below, count - 1), part_text(below[count - 1]))
    }
}

/// The entries on the way from `home` to `path`, the path itself last.
pub open spec fn way_to(home: Seq<char>, path: Seq<char>) -> Seq<Seq<char>> {
    let below = parts_below(path, home);
    Seq::new(below.len(), |i: int| step(home, below, i + 1))
}

/// Judges the entries from `i` on: a symbolic link, an entry that cannot be looked at and one
/// that was not looked at end the way; behind a missing entry there is nothing.
pub open spec fn way_verdict(way: Seq<Seq<char>>, kinds: Seq<EntryKind>, i: int) -> Result<
    (),
    ExecutionFault,
>
    decreases way.len() - i,
{
    if i < 0 || i >= way.len() {
        Ok(())
    } else if i >= kinds.len() {
        Err(ExecutionFault::UnsafePath(way[i]))
    } else {
        match kinds[i] {
            EntryKind::Missing => Ok(()),
            EntryKind::Symlink => Err(ExecutionFault::Symlink(way[i])),
            EntryKind::Failed(source) => Err(ExecutionFault::Io { path: way[i], source: source@ }),
            _ => way_verdict(way, kinds, i + 1),
        }
    }
}

/// The verdict on a cache or an artifact.
pub open spec fn path_verdict(home: Seq<char>, path: Seq<char>, facts: PathFacts) -> Result<
    (),
    ExecutionFault,
> {
    if !removable_path(home, path, hub_dir(optional_text(facts.hf_home), home)) {
        Err(ExecutionFault::UnsafePath(path))
    } else {
        way_verdict(way_to(home, path), facts.way@, 0)
    }
}

/// The verdict on the entry itself.
pub open spec fn link_verdict(path: Seq<char>, target: EntryKind) -> Result<(), ExecutionFault> {
    match target {
        EntryKind::Symlink => Err(ExecutionFault::Symlink(path)),
        EntryKind::Failed(source) => Err(ExecutionFault::Io { path, source: source@ }),
        _ => Ok(()),
    }
}

/// The verdict on a personal file: a plain file, or a directory that is no repository unless
/// forced; it must be there.
pub open spec fn file_verdict(
    home: Seq<char>,
    path: Seq<char>,
    facts: PathFacts,
    force: bool,
) -> Result<(), ExecutionFault> {
    if !removable_file(home, path, force) {
        Err(ExecutionFault::UnsafePath(path))
    } else {
        match way_verdict(way_to(home, path), facts.way@, 0) {
            Err(fault) => Err(fault),
            Ok(()) => match facts.target {
                EntryKind::Missing => Err(
                    ExecutionFault::Io { path, source: "No such file or directory (os error 2)"@ },
                ),
                EntryKind::Failed(source) => Err(ExecutionFault::Io { path, source: source@ }),
                EntryKind::Symlink => Err(ExecutionFault::UnsafePath(path)),
                EntryKind::Other => Err(ExecutionFault::UnsafePath(path)),
                EntryKind::File => Ok(()),
                EntryKind::Directory => if !force && facts.git_root {
                    Err(ExecutionFault::UnsafePath(path))
                } else {
                    Ok(())
                },
            },
        }
    }
}

// ---------------------------------------------------------------------------------------
// Functions
// ---------------------------------------------------------------------------------------

/// Whether one of the components is `..`.
fn has_parent_step(all: &Vec<Component>) -> (r: bool)
    ensures
        r == component_parts(all@).contains(Part::Parent),
{
    let mut i: usize = 0;
    while i < all.len()
        invariant
            i <= all@.len(),
            forall|j: int| 0 <= j < i ==> component_parts(all@)[j] != Part::Parent,
        decreases all.len() - i,
    {
        match &all[i] {
            Component::Parent => {
                proof {
                    assert(component_parts(all@)[i as int] == Part::Parent);
                }
                return true;
            },
            _ => {},
        }
        i = i + 1;
    }
    false
}

/// Whether the path stays strictly below the home directory.
pub fn is_below_home(home: &str, path: &str) -> (r: bool)
    ensures
        r == stays_below(home@, path@),
{
    let all = components(path);
    proof {
        assert(parts(path@).len() == all@.len());
        if all@.len() == 1 {
            assert(parts(path@)[0] == all@[0]@);
            if all@[0] is Root {
                assert(parts(path@) =~= seq![Part::Root]);
            }
        }
        if parts(path@) == seq![Part::Root] {
            assert(parts(path@)[0] == Part::Root);
        }
    }
    let root = all.len() == 1 && (match &all[0] {
        Component::Root => true,
        _ => false,
    });
    is_absolute(path) && !root && !same_path(path, home) && is_within(path, home)
        && !has_parent_step(&all)
}

/// The name of a component that has one.
fn is_named(component: &Component, name: &str) -> (r: bool)
    ensures
        r == (component@ == Part::Normal(name@)),
{
    match component {
        Component::Normal(own) => same(own.as_str(), name),
        _ => false,
    }
}

fn is_protected_name(component: &Component) -> (r: bool)
    ensures
        r == protected_name(component@),
{
    is_named(component, ".ssh") || is_named(component, ".gnupg") || is_named(component, ".config")
        || is_named(component, ".git")
}

fn are_denylisted(below: &Vec<Component>) -> (r: bool)
    ensures
        r == denylisted(component_parts(below@)),
{
    let ghost views = component_parts(below@);
    proof {
        assert(views.len() == below@.len());
    }
    if below.len() >= 2 && is_named(&below[0], "go") && is_named(&below[1], "pkg") {
        return true;
    }
    let mut i: usize = 0;
    while i < below.len()
        invariant
            i <= below@.len(),
            views == component_parts(below@),
            forall|j: int| 0 <= j < i ==> !protected_name(#[trigger] views[j]),
        decreases below.len() - i,
    {
        if is_protected_name(&below[i]) {
            proof {
                assert(protected_name(views[i as int]));
            }
            return true;
        }
        i = i + 1;
    }
    false
}

/// Whether a path relative to the home directory lies in a protected location. The selection
/// of personal files and their removal both ask this.
pub fn is_denylisted_personal_file_path(relative: &str) -> (r: bool)
    ensures
        r == denylisted(parts(relative@)),
{
    are_denylisted(&components(relative))
}

/// Whether a path below the home directory lies in a protected location.
pub fn is_denylisted_below(home: &str, path: &str) -> (r: bool)
    requires
        lies_in(path@, home@),
    ensures
        r == denylisted(parts_below(path@, home@)),
{
    are_denylisted(&components_below(path, home))
}

fn is_known_cache(text: &str) -> (r: bool)
    ensures
        r == known_caches().contains(text@),
{
    let list = [
        ".cache/yay",
        ".cache/paru",
        ".cache/thumbnails",
        ".cache/mozilla",
        ".cache/chromium",
        ".cache/google-chrome",
        ".cache/microsoft-edge",
        ".cache/BraveSoftware",
        ".cache/vivaldi",
        ".cache/opera",
        ".local/share/Trash",
        ".cache/pip",
        ".npm/_cacache",
        ".cache/pnpm",
        ".cache/yarn",
        ".cargo/registry/cache",
        ".cargo/registry/src",
        ".cargo/git",
        "go/pkg/mod",
        ".gradle/caches",
        ".cache/composer",
        ".cache/uv",
        ".pnpm-store",
        ".cache/terragrunt",
        ".terraform.d/plugin-cache",
        ".cache/ms-playwright",
        ".cache/.bun",
        ".cache/zig",
        ".cache/pre-commit",
        ".cache/go-build",
        ".cache/ms-playwright-go",
    ];
    proof {
        assert(str_texts(list@) =~= known_caches());
    }
    is_one_of(&list, text)
}

pub fn is_artifact_name(name: &str) -> (r: bool)
    ensures
        r == artifact_names().contains(name@),
{
    let list = [
        "node_modules",
        "target",
        ".build",
        "build",
        "dist",
        ".venv",
        ".terraform",
        ".terragrunt-cache",
        ".flatpak-builder",
        ".pytest_cache",
        ".ruff_cache",
        ".mypy_cache",
        ".tox",
        ".next",
        ".turbo",
        ".parcel-cache",
    ];
    proof {
        assert(str_texts(list@) =~= artifact_names());
    }
    is_one_of(&list, name)
}

/// Whether `name` is that of a repository in the Hugging Face hub.
pub fn is_repository_name(name: &str) -> (r: bool)
    ensures
        r == repository_name(name@),
{
    starts_with(name, "models--") || starts_with(name, "datasets--") || starts_with(
        name,
        "spaces--",
    )
}

fn is_reproducible(home: &str, path: &str, hub: &str) -> (r: bool)
    requires
        lies_in(path@, home@),
    ensures
        r == reproducible(home@, path@, hub@),
{
    let known = match relative_text(path, home) {
        Some(text) => is_known_cache(text.as_str()),
        None => false,
    };
    let artifact = match file_name(path) {
        Some(name) => is_artifact_name(name.as_str()),
        None => false,
    };
    let repository = lies_directly_in(path, hub) && (match file_name(path) {
        Some(name) => is_repository_name(name.as_str()),
        None => false,
    });
    known || artifact || repository
}

/// Whether a cache or an artifact may be removed by what it is called.
pub fn is_removable_path(home: &str, path: &str, hub: &str) -> (r: bool)
    ensures
        r == removable_path(home@, path@, hub@),
{
    if !is_below_home(home, path) {
        return false;
    }
    let below = components_below(path, home);
    let ghost views = parts_below(path@, home@);
    proof {
        assert(views.len() == below@.len());
    }
    let mut i: usize = 0;
    while i < below.len()
        invariant
            i <= below@.len(),
            views == component_parts(below@),
            views == parts_below(path@, home@),
            forall|j: int| 0 <= j < i ==> views[j] != Part::Normal(".git"@),
        decreases below.len() - i,
    {
        if is_named(&below[i], ".git") {
            proof {
                assert(views[i as int] == Part::Normal(".git"@));
            }
            return false;
        }
        i = i + 1;
    }
    proof {
        assert(!views.contains(Part::Normal(".git"@)));
    }
    if below.len() > 0 && (is_named(&below[0], ".config") || is_named(&below[0], ".ssh")
        || is_named(&below[0], ".gnupg")) {
        return false;
    }
    is_reproducible(home, path, hub)
}

/// Whether a personal file may be removed by what it is called.
pub fn is_removable_file(home: &str, path: &str, force: bool) -> (r: bool)
    ensures
        r == removable_file(home@, path@, force),
{
    is_below_home(home, path) && (force || !is_denylisted_below(home, path))
}

/// The entries on the way from `home` to `path` that have to be looked at.
pub fn entries_on_the_way(home: &str, path: &str) -> (r: Vec<String>)
    requires
        lies_in(path@, home@),
    ensures
        texts(r@) == way_to(home@, path@),
{
    let below = components_below(path, home);
    let ghost views = parts_below(path@, home@);
    let mut out: Vec<String> = Vec::new();
    let mut current = home.to_owned();
    let mut i: usize = 0;
    proof {
        assert(views.len() == below@.len());
    }
    while i < below.len()
        invariant
            i <= below@.len(),
            views == component_parts(below@),
            views.len() == below@.len(),
            views == parts_below(path@, home@),
            current@ == step(home@, views, i as int),
            texts(out@) =~= way_to(home@, path@).take(i as int),
        decreases below.len() - i,
    {
        let text = match &below[i] {
            Component::Root => "/",
            Component::Current => ".",
            Component::Parent => "..",
            Component::Normal(name) => name.as_str(),
        };
        proof {
            assert(views[i as int] == below@[i as int]@);
            assert(text@ == part_text(views[i as int]));
        }
        current = join_path(current.as_str(), text);
        let ghost before = out@;
        out.push(current.clone());
        proof {
            assert(texts(out@) =~= texts(before).push(current@));
            assert(way_to(home@, path@).take(i + 1) =~= way_to(home@, path@).take(i as int).push(
                current@,
            ));
        }
        i = i + 1;
    }
    proof {
        assert(way_to(home@, path@).take(views.len() as int) =~= way_to(home@, path@));
    }
    out
}

fn judge_way(way: &Vec<String>, kinds: &Vec<EntryKind>) -> (r: Result<(), ExecutionError>)
    ensures
        verdict_view(r) == way_verdict(texts(way@), kinds@, 0),
{
    let ghost views = texts(way@);
    let mut i: usize = 0;
    while i < way.len()
        invariant
            i <= way@.len(),
            views == texts(way@),
            way_verdict(views, kinds@, 0) == way_verdict(views, kinds@, i as int),
        decreases way.len() - i,
    {
        proof {
            assert(views[i as int] == way@[i as int]@);
        }
        if i >= kinds.len() {
            return Err(ExecutionError::UnsafePath(way[i].clone()));
        }
        match &kinds[i] {
            EntryKind::Missing => {
                return Ok(());
            },
            EntryKind::Symlink => {
                return Err(ExecutionError::Symlink(way[i].clone()));
            },
            EntryKind::Failed(source) => {
                return Err(ExecutionError::Io { path: way[i].clone(), source: source.clone() });
            },
            _ => {},
        }
        i = i + 1;
    }
    Ok(())
}

/// Judges a cache or an artifact.
pub fn judge_path(home: &str, path: &str, facts: &PathFacts) -> (r: Result<(), ExecutionError>)
    ensures
        verdict_view(r) == path_verdict(home@, path@, *facts),
{
    let hub = match &facts.hf_home {
        Some(dir) => huggingface_hub_dir(Some(dir.as_str()), home),
        None => huggingface_hub_dir(None, home),
    };
    if !is_removable_path(home, path, hub.as_str()) {
        return Err(ExecutionError::UnsafePath(path.to_owned()));
    }
    let way = entries_on_the_way(home, path);
    judge_way(&way, &facts.way)
}

/// Judges the entry itself: it must be no symbolic link.
pub fn judge_link(path: &str, target: &EntryKind) -> (r: Result<(), ExecutionError>)
    ensures
        verdict_view(r) == link_verdict(path@, *target),
{
    match target {
        EntryKind::Symlink => Err(ExecutionError::Symlink(path.to_owned())),
        EntryKind::Failed(source) => Err(
            ExecutionError::Io { path: path.to_owned(), source: source.clone() },
        ),
        _ => Ok(()),
    }
}

/// Judges a personal file.
pub fn judge_file(home: &str, path: &str, facts: &PathFacts, force: bool) -> (r: Result<
    (),
    ExecutionError,
>)
    ensures
        verdict_view(r) == file_verdict(home@, path@, *facts, force),
{
    if !is_removable_file(home, path, force) {
        return Err(ExecutionError::UnsafePath(path.to_owned()));
    }
    let way = entries_on_the_way(home, path);
    match judge_way(&way, &facts.way) {
        Err(error) => {
            return Err(error);
        },
        Ok(()) => {},
    }
    match &facts.target {
        EntryKind::Missing => Err(
            ExecutionError::Io {
                path: path.to_owned(),
                source: "No such file or directory (os error 2)".to_owned(),
            },
        ),
        EntryKind::Failed(source) => Err(
            ExecutionError::Io { path: path.to_owned(), source: source.clone() },
        ),
        EntryKind::Symlink => Err(ExecutionError::UnsafePath(path.to_owned())),
        EntryKind::Other => Err(ExecutionError::UnsafePath(path.to_owned())),
        EntryKind::File => Ok(()),
        EntryKind::Directory => {
            if !force && facts.git_root {
                Err(ExecutionError::UnsafePath(path.to_owned()))
            } else {
                Ok(())
            }
        },
    }
}

// ---------------------------------------------------------------------------------------
// Laws
// ---------------------------------------------------------------------------------------

/// Every entry on the way was looked at, as far as there are entries, and none is a symbolic
/// link.
pub open spec fn way_is_clear(way: Seq<Seq<char>>, kinds: Seq<EntryKind>) -> bool {
    forall|i: int|
        0 <= i < way.len() && (forall|j: int|
            0 <= j < i ==> !(#[trigger] kinds[j] is Missing)) ==> i < kinds.len() && !(
        #[trigger] kinds[i] is Symlink) && !(kinds[i] is Failed)
}

proof fn lemma_way(way: Seq<Seq<char>>, kinds: Seq<EntryKind>, from: int)
    requires
        0 <= from,
        way_verdict(way, kinds, from) is Ok,
    ensures
        forall|i: int|
            from <= i < way.len() && (forall|j: int|
                from <= j < i ==> !(#[trigger] kinds[j] is Missing)) ==> i < kinds.len() && !(
            #[trigger] kinds[i] is Symlink) && !(kinds[i] is Failed),
    decreases way.len() - from,
{
    if from < way.len() && !(kinds[from] is Missing) {
        lemma_way(way, kinds, from + 1);
    }
}

/// What passes is safe by every rule: below the home directory and outside version control and
/// settings, called like a cache or an artifact, and reached without a symbolic link.
pub proof fn accepted_path_is_safe(home: Seq<char>, path: Seq<char>, facts: PathFacts)
    requires
        path_verdict(home, path, facts) is Ok,
    ensures
        stays_below(home, path),
        !parts_below(path, home).contains(Part::Normal(".git"@)),
        reproducible(home, path, hub_dir(optional_text(facts.hf_home), home)),
        way_is_clear(way_to(home, path), facts.way@),
{
    lemma_way(way_to(home, path), facts.way@, 0);
}

/// Forcing lifts no hard check: a forced removal too stays below the home directory, takes no
/// step up, and meets no symbolic link, neither on the way nor at its end.
pub proof fn forcing_keeps_the_hard_checks(
    home: Seq<char>,
    path: Seq<char>,
    facts: PathFacts,
    force: bool,
)
    requires
        file_verdict(home, path, facts, force) is Ok,
    ensures
        stays_below(home, path),
        way_is_clear(way_to(home, path), facts.way@),
        facts.target is File || facts.target is Directory,
{
    lemma_way(way_to(home, path), facts.way@, 0);
}

/// Forcing only ever widens: what passes without it passes with it.
pub proof fn forcing_only_widens(home: Seq<char>, path: Seq<char>, facts: PathFacts)
    requires
        file_verdict(home, path, facts, false) is Ok,
    ensures
        file_verdict(home, path, facts, true) is Ok,
{
}

/// Neither the root, nor the home directory itself, nor anything outside it is ever removed.
pub proof fn home_and_root_are_kept(home: Seq<char>, path: Seq<char>, facts: PathFacts, force: bool)
    requires
        parts(path) == parts(home) || parts(path) == seq![Part::Root] || !lies_in(path, home)
            || !absolute(path) || parts(path).contains(Part::Parent),
    ensures
        path_verdict(home, path, facts) == Err::<(), ExecutionFault>(
            ExecutionFault::UnsafePath(path),
        ),
        file_verdict(home, path, facts, force) == Err::<(), ExecutionFault>(
            ExecutionFault::UnsafePath(path),
        ),
{
}

/// Some component of the path has a protected name.
pub open spec fn holds_protected_name(all: Seq<Part>) -> bool {
    exists|i: int| 0 <= i < all.len() && protected_name(#[trigger] all[i])
}

/// Protection reaches down: what lies below a protected location is protected too, and a path
/// with a protected name in it is protected wherever it is joined.
pub proof fn protection_reaches_down(path: Seq<char>, rest: Seq<char>)
    requires
        !absolute(rest),
    ensures
        denylisted(parts(path)) ==> denylisted(parts(joined_path(path, rest))),
        holds_protected_name(parts(rest)) ==> denylisted(parts(joined_path(path, rest))),
{
    let all = parts(joined_path(path, rest));
    if path.len() == 0 {
        assert(joined_path(path, rest) =~= rest);
        assert(path =~= Seq::empty());
        assert(parts(path).len() == 0);
    } else {
        joining_relative(path, rest);
        let above = parts(path);
        let below = without_lead(parts(rest));
        assert forall|i: int| 0 <= i < above.len() implies all[i] == #[trigger] above[i] by {}
        if holds_protected_name(parts(rest)) {
            let i = choose|i: int|
                0 <= i < parts(rest).len() && protected_name(#[trigger] parts(rest)[i]);
            let dropped = parts(rest).len() - below.len();
            assert(below[i - dropped] == parts(rest)[i]);
            assert(all[above.len() + i - dropped] == parts(rest)[i]);
        }
        if exists|i: int| 0 <= i < above.len() && protected_name(#[trigger] above[i]) {
            let i = choose|i: int| 0 <= i < above.len() && protected_name(#[trigger] above[i]);
            assert(all[i] == above[i]);
        }
    }
}

/// Where no name in a path is protected, its first two components decide, each as a whole:
/// only `go` and below it `pkg` are protected.
pub proof fn go_packages_are_protected(first: Seq<char>, second: Seq<char>, rest: Seq<char>)
    requires
        simple_name(first),
        simple_name(second),
        !absolute(rest),
        !holds_protected_name(parts(joined_path(joined_path(first, second), rest))),
    ensures
        denylisted(parts(joined_path(joined_path(first, second), rest))) == (first == "go"@
            && second == "pkg"@),
{
    name_is_plain(first);
    name_is_plain(second);
    joining_appends(first, second);
    joining_relative(joined_path(first, second), rest);
    let all = parts(joined_path(joined_path(first, second), rest));
    assert(all[0] == Part::Normal(first));
    assert(all[1] == Part::Normal(second));
}

/// Every entry on the way was looked at, is there, and is no symbolic link.
pub open spec fn way_is_open(way: Seq<Seq<char>>, kinds: Seq<EntryKind>) -> bool {
    &&& kinds.len() >= way.len()
    &&& forall|i: int|
        0 <= i < way.len() ==> (#[trigger] kinds[i]) is Directory || kinds[i] is File || kinds[i]
            is Other
}

proof fn lemma_open_way(way: Seq<Seq<char>>, kinds: Seq<EntryKind>, from: int)
    requires
        way_is_open(way, kinds),
        0 <= from <= way.len(),
    ensures
        way_verdict(way, kinds, from) is Ok,
    decreases way.len() - from,
{
    if from < way.len() {
        assert(kinds[from] is Directory || kinds[from] is File || kinds[from] is Other);
        lemma_open_way(way, kinds, from + 1);
    }
}

/// Nothing is refused without a reason: a cache or an artifact by its name, on an open way, passes.
pub proof fn open_way_is_passed(home: Seq<char>, path: Seq<char>, facts: PathFacts)
    requires
        removable_path(home, path, hub_dir(optional_text(facts.hf_home), home)),
        way_is_open(way_to(home, path), facts.way@),
    ensures
        path_verdict(home, path, facts) is Ok,
        link_verdict(path, facts.target) is Ok <==> !(facts.target is Symlink)
            && !(facts.target is Failed),
{
    lemma_open_way(way_to(home, path), facts.way@, 0);
}

/// A symbolic link on the way is named: nothing behind it is ever reached.
pub proof fn link_on_the_way_is_named(way: Seq<Seq<char>>, kinds: Seq<EntryKind>, at: int)
    requires
        0 <= at < way.len(),
        at < kinds.len(),
        kinds[at] is Symlink,
        forall|i: int|
            0 <= i < at ==> (#[trigger] kinds[i]) is Directory || kinds[i] is File || kinds[i]
                is Other,
    ensures
        way_verdict(way, kinds, 0) == Err::<(), ExecutionFault>(ExecutionFault::Symlink(way[at])),
{
    lemma_link_on_the_way(way, kinds, at, 0);
}

proof fn lemma_link_on_the_way(way: Seq<Seq<char>>, kinds: Seq<EntryKind>, at: int, from: int)
    requires
        0 <= from <= at < way.len(),
        at < kinds.len(),
        kinds[at] is Symlink,
        forall|i: int|
            0 <= i < at ==> (#[trigger] kinds[i]) is Directory || kinds[i] is File || kinds[i]
                is Other,
    ensures
        way_verdict(way, kinds, from) == Err::<(), ExecutionFault>(
            ExecutionFault::Symlink(way[at]),
        ),
    decreases at - from,
{
    if from < at {
        assert(kinds[from] is Directory || kinds[from] is File || kinds[from] is Other);
        lemma_link_on_the_way(way, kinds, at, from + 1);
    }
}

/// The way leads from the home directory to the path step by step, one component each, and ends
/// at the path itself: no entry between them is left out.
pub proof fn way_leads_to_the_path(home: Seq<char>, path: Seq<char>, i: int)
    requires
        home.len() > 0,
        lies_in(path, home),
        0 <= i < way_to(home, path).len(),
    ensures
        way_to(home, path).len() == parts(path).len() - parts(home).len(),
        parts(way_to(home, path)[i]) == parts(path).take(parts(home).len() as int + i + 1),
        i == way_to(home, path).len() - 1 ==> parts(way_to(home, path)[i]) == parts(path),
{
    lemma_steps(home, path, i + 1);
    assert(parts(path).take(parts(path).len() as int) =~= parts(path));
}

proof fn lemma_steps(home: Seq<char>, path: Seq<char>, count: int)
    requires
        home.len() > 0,
        lies_in(path, home),
        0 <= count <= parts(path).len() - parts(home).len(),
    ensures
        parts(step(home, parts_below(path, home), count)) == parts(path).take(
            parts(home).len() as int + count,
        ),
        step(home, parts_below(path, home), count).len() > 0,
    decreases count,
{
    let below = parts_below(path, home);
    let n = parts(home).len() as int;
    if count > 0 {
        lemma_steps(home, path, count - 1);
        components_are_names(home);
        components_are_names(path);
        let part = below[count - 1];
        assert(part == parts(path)[n + count - 1]);
        let before = step(home, below, count - 1);
        one_more_component(before, part);
        assert(parts(path).take(n + count) =~= parts(path).take(n + count - 1).push(part));
        assert(joined_path(before, part_text(part)).len() > 0);
    } else {
        assert(parts(path).take(n) =~= parts(home));
    }
}

/// A personal file is judged by what it is: below the home directory, off the protected places
/// and on an open way, a plain file may go, and so may a directory that is no repository. Forcing
/// lifts the protected places and the repository.
pub proof fn personal_files_may_go(
    home: Seq<char>,
    path: Seq<char>,
    facts: PathFacts,
    force: bool,
)
    requires
        stays_below(home, path),
        way_is_open(way_to(home, path), facts.way@),
    ensures
        file_verdict(home, path, facts, force) is Ok <==> {
            &&& force || !denylisted(parts_below(path, home))
            &&& facts.target is File || (facts.target is Directory && (force || !facts.git_root))
        },
{
    lemma_open_way(way_to(home, path), facts.way@, 0);
}

/// What lies below the home directory by plain names stays below it, and nothing with a step up or
/// beside the home directory does.
pub proof fn names_below_home_stay_below(home: Seq<char>, rest: Seq<char>)
    requires
        absolute(home),
        !parts(home).contains(Part::Parent),
        !absolute(rest),
        without_lead(parts(rest)).len() > 0,
    ensures
        stays_below(home, joined_path(home, rest)) <==> !parts(rest).contains(Part::Parent),
{
    let path = joined_path(home, rest);
    let below = without_lead(parts(rest));
    joining_relative(home, rest);
    absolute_starts_at_root(home);
    let all = parts(path);
    let n = parts(home).len() as int;
    assert(path[0] == home[0]);
    assert(all.len() == n + below.len());
    if all.len() == 1 {
        assert(n == 0);
    }
    let dropped = parts(rest).len() - below.len();
    if parts(rest).contains(Part::Parent) {
        let i = choose|i: int| 0 <= i < parts(rest).len() && parts(rest)[i] == Part::Parent;
        assert(below[i - dropped] == Part::Parent);
        assert(all[n + i - dropped] == Part::Parent);
    }
    if all.contains(Part::Parent) {
        let i = choose|i: int| 0 <= i < all.len() && all[i] == Part::Parent;
        if i < n {
            assert(parts(home)[i] == Part::Parent);
        } else {
            assert(below[i - n] == Part::Parent);
            assert(parts(rest)[i - n + dropped] == Part::Parent);
        }
    }
}

/// A reason names what it is about: every message of a refusal ends in, or holds, the path.
pub proof fn refusals_name_the_path(path: Seq<char>, source: Seq<char>)
    ensures
        ({
            let text = execution_fault_text(ExecutionFault::UnsafePath(path));
            text.len() > path.len() && text.skip(text.len() - path.len()) == path
        }),
        ({
            let text = execution_fault_text(ExecutionFault::Symlink(path));
            text.len() > path.len() && text.skip(text.len() - path.len()) == path
        }),
        ({
            let text = execution_fault_text(ExecutionFault::Io { path, source });
            text.skip(text.len() - source.len()) == source && text.skip(
                text.len() - source.len() - 2 - path.len(),
            ).take(path.len() as int) == path
        }),
{
    reveal_strlit("unsafe cleanup target rejected: ");
    reveal_strlit("symbolic-link cleanup target rejected: ");
    reveal_strlit("I/O error while processing ");
    reveal_strlit(": ");
    let a = execution_fault_text(ExecutionFault::UnsafePath(path));
    assert(a.skip(a.len() - path.len()) =~= path);
    let b = execution_fault_text(ExecutionFault::Symlink(path));
    assert(b.skip(b.len() - path.len()) =~= path);
    let c = execution_fault_text(ExecutionFault::Io { path, source });
    assert(c.skip(c.len() - source.len()) =~= source);
    assert(c.skip(c.len() - source.len() - 2 - path.len()).take(path.len() as int) =~= path);
}

/// Four names are protected at any depth, and no others.
pub proof fn four_names_are_protected(name: Seq<char>)
    ensures
        protected_name(Part::Normal(name)) <==> name == ".ssh"@ || name == ".gnupg"@ || name
            == ".config"@ || name == ".git"@,
        !protected_name(Part::Parent) && !protected_name(Part::Root),
{
}

/// What is removed as a cache is a known one below the home directory, an artifact by its last
/// name, or a repository directly in the hub; nothing else may be removed as one.
pub proof fn only_caches_and_artifacts_are_removable(
    home: Seq<char>,
    path: Seq<char>,
    hub: Seq<char>,
)
    requires
        removable_path(home, path, hub),
    ensures
        parts(path).len() > parts(home).len(),
        known_caches().contains(text_below(path, home)) || (parts(path).last() matches Part::Normal(
            name,
        ) && (artifact_names().contains(name) || (is_child_of(path, hub) && (has_prefix(
            name,
            "models--"@,
        ) || has_prefix(name, "datasets--"@) || has_prefix(name, "spaces--"@))))),
        !parts_below(path, home).contains(Part::Normal(".git"@)),
        parts_below(path, home)[0] != Part::Normal(".config"@) && parts_below(path, home)[0]
            != Part::Normal(".ssh"@) && parts_below(path, home)[0] != Part::Normal(".gnupg"@),
{
    let n = parts(home).len() as int;
    if parts(path).len() == n {
        assert(parts(path).take(n) =~= parts(path));
    }
    if !known_caches().contains(text_below(path, home)) {
        let name = last_name(path)->Some_0;
        assert(parts(path).last() == Part::Normal(name));
    }
}

} // verus!
