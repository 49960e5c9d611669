//! Build artifacts of old projects.
use vstd::prelude::*;
use vstd::string::*;

use crate::guard::{
    artifact_names, is_artifact_name, protected_name, removable_path, stays_below,
};
use crate::model::{ActionView, CleanupAction, CleanupGroup, CleanupItem, ItemView, Risk};
use crate::path::{
    file_name, joined_path, joining_appends, last_name, name_is_plain, parts, parts_below,
    simple_name, Part,
};
use crate::text::same;

verus! {

/// A directory that a build left behind.
#[derive(Debug, PartialEq, Eq)]
pub struct PurgeCandidate {
    pub path: String,
    /// What kind of artifact it is: the name of the directory.
    pub kind: String,
    pub size: u64,
    pub age_days: u64,
}

impl Clone for PurgeCandidate {
    fn clone(&self) -> (r: Self)
        ensures
            r == *self,
    {
        PurgeCandidate {
            path: self.path.clone(),
            kind: self.kind.clone(),
            size: self.size,
            age_days: self.age_days,
        }
    }
}

/// The item that removes an artifact.
pub open spec fn artifact_item(path: Seq<char>, size: u64) -> ItemView {
    ItemView {
        id: "purge:"@ + path,
        group: CleanupGroup::Dev,
        label: path,
        estimated_bytes: size,
        risk: Risk::Explicit,
        action: ActionView::RemovePath { path, contents_only: false },
    }
}

impl PurgeCandidate {
    /// The item that removes this artifact.
    pub fn cleanup_item(&self) -> (r: CleanupItem)
        ensures
            r@ == artifact_item(self.path@, self.size),
    {
        CleanupItem {
            id: "purge:".to_owned().concat(self.path.as_str()),
            group: CleanupGroup::Dev,
            label: self.path.clone(),
            estimated_bytes: self.size,
            risk: Risk::Explicit,
            action: CleanupAction::RemovePath { path: self.path.clone(), contents_only: false },
        }
    }
}

/// What a search for artifacts does with a directory.
#[derive(Debug, Clone, Copy, PartialEq, Eq, Structural)]
pub enum WalkStep {
    /// Neither the directory nor what is in it is looked at.
    Skip,
    /// The search goes on in it.
    Enter,
    /// It is an artifact: it is judged as a whole, and the search does not go on in it.
    Judge,
}

/// Version control is left alone, and an artifact is not looked into.
pub open spec fn walk_step(name: Seq<char>) -> WalkStep {
    if name == ".git"@ {
        WalkStep::Skip
    } else if artifact_names().contains(name) {
        WalkStep::Judge
    } else {
        WalkStep::Enter
    }
}

/// What a search for artifacts does with a directory of that name.
pub fn purge_step(name: &str) -> (r: WalkStep)
    ensures
        r == walk_step(name@),
{
    if same(name, ".git") {
        WalkStep::Skip
    } else if is_artifact_name(name) {
        WalkStep::Judge
    } else {
        WalkStep::Enter
    }
}

/// The whole days between two points in time, given in seconds.
pub open spec fn days_between(earlier: u64, later: u64) -> nat {
    if later > earlier {
        (later - earlier) as nat / 86_400
    } else {
        0
    }
}

/// What a directory is to a purge: a candidate where it is called like an artifact and has not
/// changed for so many days.
pub open spec fn artifact_of(
    path: Seq<char>,
    size: u64,
    modified: u64,
    now: u64,
    older_than_days: u64,
) -> Option<(Seq<char>, u64, nat)> {
    match last_name(path) {
        Some(name) => if artifact_names().contains(name) && days_between(modified, now)
            >= older_than_days {
            Some((name, size, days_between(modified, now)))
        } else {
            None
        },
        None => None,
    }
}

/// Judges a directory that was found in a project. The times are in seconds.
pub fn judge_artifact(
    path: &str,
    size: u64,
    modified: u64,
    now: u64,
    older_than_days: u64,
) -> (r: Option<PurgeCandidate>)
    ensures
        match r {
            Some(candidate) => candidate.path@ == path@ && artifact_of(
                path@,
                size,
                modified,
                now,
                older_than_days,
            ) == Some((candidate.kind@, candidate.size, candidate.age_days as nat)),
            None => artifact_of(path@, size, modified, now, older_than_days) is None,
        },
{
    let age_days: u64 = if now > modified {
        (now - modified) / 86_400
    } else {
        0
    };
    match file_name(path) {
        Some(kind) => {
            if is_artifact_name(kind.as_str()) && age_days >= older_than_days {
                Some(PurgeCandidate { path: path.to_owned(), kind, size, age_days })
            } else {
                None
            }
        },
        None => None,
    }
}

// ---------------------------------------------------------------------------------------
// Laws
// ---------------------------------------------------------------------------------------

/// An artifact that a purge finds may be removed wherever its project lies below the home
/// directory, outside version control and settings.
pub proof fn found_artifact_is_removable(
    home: Seq<char>,
    path: Seq<char>,
    hub: Seq<char>,
    size: u64,
    modified: u64,
    now: u64,
    older_than_days: u64,
)
    requires
        artifact_of(path, size, modified, now, older_than_days) is Some,
        stays_below(home, path),
        !parts_below(path, home).contains(Part::Normal(".git"@)),
        !protected_name(parts_below(path, home)[0]),
    ensures
        removable_path(home, path, hub),
{
}

/// A directory that is called like an artifact is found exactly where it has not changed for as
/// many days as was asked for; it is found under its name, with its size and its age.
pub proof fn old_artifacts_are_found(
    dir: Seq<char>,
    name: Seq<char>,
    size: u64,
    modified: u64,
    now: u64,
    older_than_days: u64,
)
    requires
        dir.len() > 0,
        simple_name(name),
    ensures
        match artifact_of(joined_path(dir, name), size, modified, now, older_than_days) {
            Some((kind, bytes, age)) => {
                &&& artifact_names().contains(name)
                &&& kind == name
                &&& bytes == size
                &&& age >= older_than_days
                &&& modified <= now ==> modified + age * 86_400 <= now < modified + (age + 1)
                    * 86_400
                &&& now < modified ==> age == 0
            },
            None => !artifact_names().contains(name) || now < modified + older_than_days * 86_400,
        },
{
    name_is_plain(name);
    joining_appends(dir, name);
    assert(parts(joined_path(dir, name)).last() == Part::Normal(name));
    assert(last_name(joined_path(dir, name)) == Some(name));
}

/// What was found stays found as time goes by, and where a smaller age is asked for.
pub proof fn artifacts_only_grow_older(
    path: Seq<char>,
    size: u64,
    modified: u64,
    now: u64,
    later: u64,
    older_than_days: u64,
    fewer_days: u64,
)
    requires
        artifact_of(path, size, modified, now, older_than_days) is Some,
        now <= later,
        fewer_days <= older_than_days,
    ensures
        artifact_of(path, size, modified, later, older_than_days) is Some,
        artifact_of(path, size, modified, now, fewer_days) is Some,
{
    if later > modified {
        let (a, b) = ((now - modified) as int, (later - modified) as int);
        assert(a / 86_400 <= b / 86_400);
    }
}

/// A search stops exactly at what is judged: a directory is judged where a purge could remove it,
/// version control is passed over, and the search goes on in every other directory.
pub proof fn search_judges_what_can_be_removed(dir: Seq<char>, name: Seq<char>, size: u64, now: u64)
    requires
        dir.len() > 0,
        simple_name(name),
    ensures
        walk_step(name) is Judge <==> artifact_of(joined_path(dir, name), size, now, now, 0)
            is Some,
        walk_step(name) is Skip <==> name == ".git"@,
{
    old_artifacts_are_found(dir, name, size, now, now, 0);
    assert(!artifact_names().contains(".git"@)) by {
        lemma_git_is_no_artifact();
    }
}

proof fn lemma_git_is_no_artifact()
    ensures
        !artifact_names().contains(".git"@),
{
    reveal_strlit(".git");
    reveal_strlit("node_modules");
    reveal_strlit("target");
    reveal_strlit(".build");
    reveal_strlit("build");
    reveal_strlit("dist");
    reveal_strlit(".venv");
    reveal_strlit(".terraform");
    reveal_strlit(".terragrunt-cache");
    reveal_strlit(".flatpak-builder");
    reveal_strlit(".pytest_cache");
    reveal_strlit(".ruff_cache");
    reveal_strlit(".mypy_cache");
    reveal_strlit(".tox");
    reveal_strlit(".next");
    reveal_strlit(".turbo");
    reveal_strlit(".parcel-cache");
    let git = ".git"@;
    assert(git.len() == 4 && git[0] == '.' && git[1] == 'g');
    assert("dist"@[0] == 'd' && ".tox"@[1] == 't' && "dist"@.len() == 4 && ".tox"@.len() == 4);
    if artifact_names().contains(git) {
        let i = choose|i: int| 0 <= i < artifact_names().len() && artifact_names()[i] == git;
        assert(artifact_names()[i].len() == 4);
        assert(0 <= i < 16);
    }
}

/// The item of an artifact removes all of it, names its path and its size, and is never removed
/// without being asked for.
pub proof fn artifact_item_is_exact(path: Seq<char>, size: u64)
    ensures
        ({
            let item = artifact_item(path, size);
            &&& item.action == ActionView::RemovePath { path, contents_only: false }
            &&& item.estimated_bytes == size
            &&& item.label == path
            &&& item.risk is Explicit
        }),
{
}

/// The directories that builds leave behind are judged wherever a search meets them.
pub proof fn build_directories_are_judged(name: &str, step: WalkStep)
    requires
        call_ensures(purge_step, (name,), step),
    ensures
        name@ == "node_modules"@ || name@ == "target"@ || name@ == ".build"@ || name@ == "build"@
            || name@ == "dist"@ || name@ == ".venv"@ || name@ == ".terraform"@ || name@
            == ".terragrunt-cache"@ || name@ == ".flatpak-builder"@ || name@ == ".pytest_cache"@
            || name@ == ".ruff_cache"@ || name@ == ".mypy_cache"@ || name@ == ".tox"@ || name@
            == ".next"@ || name@ == ".turbo"@ || name@ == ".parcel-cache"@ ==> step is Judge,
        step is Skip <==> name@ == ".git"@,
{
    let all = artifact_names();
    lemma_git_is_no_artifact();
    assert(all[0] == "node_modules"@ && all[1] == "target"@ && all[2] == ".build"@ && all[3]
        == "build"@ && all[4] == "dist"@ && all[5] == ".venv"@ && all[6] == ".terraform"@ && all[7]
        == ".terragrunt-cache"@);
    assert(all[8] == ".flatpak-builder"@ && all[9] == ".pytest_cache"@ && all[10] == ".ruff_cache"@
        && all[11] == ".mypy_cache"@ && all[12] == ".tox"@ && all[13] == ".next"@ && all[14]
        == ".turbo"@ && all[15] == ".parcel-cache"@);
}

/// What is judged an artifact is the directory that was found, with its own size and age.
pub proof fn judged_artifact_is_what_was_found(
    path: &str,
    size: u64,
    modified: u64,
    now: u64,
    older_than_days: u64,
    candidate: PurgeCandidate,
)
    requires
        call_ensures(judge_artifact, (path, size, modified, now, older_than_days), Some(candidate)),
    ensures
        candidate.path@ == path@,
        candidate.size == size,
        last_name(path@) == Some(candidate.kind@),
        candidate.age_days >= older_than_days,
        modified <= now ==> modified + candidate.age_days * 86_400 <= now,
{
}

} // verus!
