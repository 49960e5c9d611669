//! Which personal files can be selected for removal, and why others cannot.
use vstd::prelude::*;
use vstd::string::*;

use crate::guard::{
    denylisted, file_verdict, is_denylisted_below, stays_below, way_to, way_verdict, PathFacts,
};
use crate::path::{is_within, lies_in, parts_below};
use crate::size::{format_bytes, size_text};

verus! {

/// The least size from which on a file can be selected without force.
pub const ANALYZE_MINIMUM_SIZE: u64 = 500_000_000;

/// Why a path cannot be selected.
#[derive(Debug, Clone, Copy, PartialEq, Eq, Structural)]
pub enum PersonalFileRefusal {
    OutsideHome,
    ProtectedLocation,
    GitRepository,
    BelowMinimumSize,
}

/// What stands under the cursor.
#[derive(Debug, Clone, Copy, PartialEq, Eq, Structural)]
pub struct Candidate {
    pub is_dir: bool,
    /// Whether the path holds an entry named `.git`.
    pub git_root: bool,
    pub size: u64,
}

/// Whether a path can be selected: below the home directory, in no protected location, no
/// repository, and large. Force lifts all but the first.
pub open spec fn selectability(
    home: Seq<char>,
    path: Seq<char>,
    candidate: Candidate,
    force: bool,
) -> Result<(), PersonalFileRefusal> {
    if !lies_in(path, home) {
        Err(PersonalFileRefusal::OutsideHome)
    } else if force {
        Ok(())
    } else if denylisted(parts_below(path, home)) {
        Err(PersonalFileRefusal::ProtectedLocation)
    } else if candidate.is_dir && candidate.git_root {
        Err(PersonalFileRefusal::GitRepository)
    } else if candidate.size < ANALYZE_MINIMUM_SIZE {
        Err(PersonalFileRefusal::BelowMinimumSize)
    } else {
        Ok(())
    }
}

/// Whether a path can be selected.
pub fn personal_file_selectability(home: &str, path: &str, candidate: Candidate) -> (r: Result<
    (),
    PersonalFileRefusal,
>)
    ensures
        r == selectability(home@, path@, candidate, false),
{
    if !is_within(path, home) {
        return Err(PersonalFileRefusal::OutsideHome);
    }
    if is_denylisted_below(home, path) {
        return Err(PersonalFileRefusal::ProtectedLocation);
    }
    if candidate.is_dir && candidate.git_root {
        return Err(PersonalFileRefusal::GitRepository);
    }
    if candidate.size < ANALYZE_MINIMUM_SIZE {
        return Err(PersonalFileRefusal::BelowMinimumSize);
    }
    Ok(())
}

/// Whether a path can be selected with force.
pub fn personal_file_selectability_forced(home: &str, path: &str, candidate: Candidate) -> (r:
    Result<(), PersonalFileRefusal>)
    ensures
        r == selectability(home@, path@, candidate, true),
{
    if is_within(path, home) {
        Ok(())
    } else {
        Err(PersonalFileRefusal::OutsideHome)
    }
}

pub open spec fn refusal_message(refusal: PersonalFileRefusal) -> Seq<char> {
    match refusal {
        PersonalFileRefusal::OutsideHome => "Only files under the home directory can be selected"@,
        PersonalFileRefusal::ProtectedLocation =>
            "This is a protected location (.ssh, .gnupg, .config, .git, or go/pkg) and cannot be selected"@,
        PersonalFileRefusal::GitRepository => "This is a git repository and cannot be removed here"@,
        PersonalFileRefusal::BelowMinimumSize => "Only files at or above "@ + size_text(
            ANALYZE_MINIMUM_SIZE as nat,
        ) + " can be selected"@,
    }
}

/// Why a path cannot be selected, as a sentence.
pub fn personal_file_refusal_message(refusal: PersonalFileRefusal) -> (r: String)
    ensures
        r@ == refusal_message(refusal),
{
    match refusal {
        PersonalFileRefusal::OutsideHome => {
            "Only files under the home directory can be selected".to_owned()
        },
        PersonalFileRefusal::ProtectedLocation => {
            "This is a protected location (.ssh, .gnupg, .config, .git, or go/pkg) and cannot be selected".to_owned()
        },
        PersonalFileRefusal::GitRepository => {
            "This is a git repository and cannot be removed here".to_owned()
        },
        PersonalFileRefusal::BelowMinimumSize => {
            "Only files at or above ".to_owned().concat(
                format_bytes(ANALYZE_MINIMUM_SIZE).as_str(),
            ).concat(" can be selected")
        },
    }
}

pub open spec fn refusal_tag(refusal: PersonalFileRefusal) -> Seq<char> {
    match refusal {
        PersonalFileRefusal::OutsideHome => "outside home"@,
        PersonalFileRefusal::ProtectedLocation => "protected location"@,
        PersonalFileRefusal::GitRepository => "git repository"@,
        PersonalFileRefusal::BelowMinimumSize => "below "@ + size_text(
            ANALYZE_MINIMUM_SIZE as nat,
        ),
    }
}

/// Why a path cannot be selected, in a few words.
pub fn personal_file_refusal_tag(refusal: PersonalFileRefusal) -> (r: String)
    ensures
        r@ == refusal_tag(refusal),
{
    match refusal {
        PersonalFileRefusal::OutsideHome => "outside home".to_owned(),
        PersonalFileRefusal::ProtectedLocation => "protected location".to_owned(),
        PersonalFileRefusal::GitRepository => "git repository".to_owned(),
        PersonalFileRefusal::BelowMinimumSize => {
            "below ".to_owned().concat(format_bytes(ANALYZE_MINIMUM_SIZE).as_str())
        },
    }
}

// ---------------------------------------------------------------------------------------
// Laws
// ---------------------------------------------------------------------------------------

/// What can be selected is accepted when it is removed: on an existing file or directory that
/// is reached without a link and lies strictly below the home directory, the selection and the
/// executor agree, with force and without.
pub proof fn selectable_is_removable(
    home: Seq<char>,
    path: Seq<char>,
    candidate: Candidate,
    facts: PathFacts,
    force: bool,
)
    requires
        selectability(home, path, candidate, force) is Ok,
        stays_below(home, path),
        way_verdict(way_to(home, path), facts.way@, 0) is Ok,
        facts.target is Directory || facts.target is File,
        candidate.is_dir == (facts.target is Directory),
        candidate.git_root == facts.git_root,
    ensures
        file_verdict(home, path, facts, force) is Ok,
{
}

/// A protected location or a repository that cannot be selected is refused when it is removed,
/// too.
pub proof fn protected_is_refused_twice(
    home: Seq<char>,
    path: Seq<char>,
    candidate: Candidate,
    facts: PathFacts,
)
    requires
        selectability(home, path, candidate, false) == Err::<(), PersonalFileRefusal>(
            PersonalFileRefusal::ProtectedLocation,
        ) || selectability(home, path, candidate, false) == Err::<(), PersonalFileRefusal>(
            PersonalFileRefusal::GitRepository,
        ) || selectability(home, path, candidate, false) == Err::<(), PersonalFileRefusal>(
            PersonalFileRefusal::OutsideHome,
        ),
        candidate.is_dir == (facts.target is Directory),
        candidate.git_root == facts.git_root,
    ensures
        file_verdict(home, path, facts, false) is Err,
{
}

/// Nothing outside the home directory can be selected, not even with force.
pub proof fn force_stays_in_home(home: Seq<char>, path: Seq<char>, candidate: Candidate, force: bool)
    requires
        !lies_in(path, home),
    ensures
        selectability(home, path, candidate, force) == Err::<(), PersonalFileRefusal>(
            PersonalFileRefusal::OutsideHome,
        ),
{
}

/// A row can be selected exactly where nothing speaks against it: it lies in the home directory, in
/// no protected place, is no repository, and has at least 500,000,000 bytes. Force asks for the
/// first alone.
pub proof fn large_personal_files_can_be_selected(
    home: Seq<char>,
    path: Seq<char>,
    candidate: Candidate,
)
    ensures
        selectability(home, path, candidate, false) is Ok <==> {
            &&& lies_in(path, home)
            &&& !denylisted(parts_below(path, home))
            &&& !(candidate.is_dir && candidate.git_root)
            &&& candidate.size >= 500_000_000
        },
        selectability(home, path, candidate, true) is Ok <==> lies_in(path, home),
{
}

/// Each reason has words of its own.
pub proof fn refusals_are_told_apart(a: PersonalFileRefusal, b: PersonalFileRefusal)
    requires
        refusal_message(a) == refusal_message(b),
    ensures
        a == b,
{
    reveal_strlit("Only files under the home directory can be selected");
    reveal_strlit(
        "This is a protected location (.ssh, .gnupg, .config, .git, or go/pkg) and cannot be selected",
    );
    reveal_strlit("This is a git repository and cannot be removed here");
    reveal_strlit("Only files at or above ");
    let outside = refusal_message(PersonalFileRefusal::OutsideHome);
    let protected = refusal_message(PersonalFileRefusal::ProtectedLocation);
    let git = refusal_message(PersonalFileRefusal::GitRepository);
    let small = refusal_message(PersonalFileRefusal::BelowMinimumSize);
    assert(outside[0] == 'O' && protected[0] == 'T' && git[0] == 'T' && small[0] == 'O');
    assert(outside[11] == 'u' && small[11] == 'a');
    assert(protected[10] == 'p' && git[10] == 'g');
}

} // verus!
