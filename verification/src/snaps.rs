//! Disabled revisions of snaps.
//!
//! A revision counts as disabled only where the active one is known and is another.
use vstd::prelude::*;
use vstd::string::*;

use crate::model::{
    item_views, ActionView, CleanupAction, CleanupGroup, CleanupItem, CommandView, ItemView, Risk,
};
use crate::path::{
    file_name, joined_path, joining_appends, last_name, name_is_plain, parts, simple_name, Part,
};
use crate::text::{chars_of, is_digit, is_in, kept, kept_in_order, list3, same, text_of, texts};
use crate::uninstall::{
    is_identifier_char, is_valid_identifier, is_valid_snap_revision, optional_text,
    valid_identifier, valid_snap_revision,
};

verus! {

/// The last position of `mark` in `s[..end]`; minus one if there is none.
pub open spec fn last_position(s: Seq<char>, mark: char, end: int) -> int
    decreases end,
{
    if end <= 0 {
        -1
    } else if s[end - 1] == mark {
        end - 1
    } else {
        last_position(s, mark, end - 1)
    }
}

fn find_last(chars: &Vec<char>, mark: char, end: usize) -> (r: Option<usize>)
    requires
        end <= chars@.len(),
    ensures
        match r {
            Some(at) => last_position(chars@, mark, end as int) == at && at < end,
            None => last_position(chars@, mark, end as int) == -1,
        },
{
    let mut i: usize = end;
    while i > 0
        invariant
            i <= end <= chars@.len(),
            last_position(chars@, mark, end as int) == last_position(chars@, mark, i as int),
        decreases i,
    {
        if chars[i - 1] == mark {
            return Some(i - 1);
        }
        i = i - 1;
    }
    None
}

/// A file name cut at its last dot. A dot in front of the name does not count.
pub open spec fn stem_and_extension(name: Seq<char>) -> (Seq<char>, Option<Seq<char>>) {
    let dot = last_position(name, '.', name.len() as int);
    if dot <= 0 {
        (name, None)
    } else {
        (name.take(dot), Some(name.skip(dot + 1)))
    }
}

/// The snap and the revision that a stem such as `firefox_8664` names.
pub open spec fn stem_revision(stem: Seq<char>) -> Option<(Seq<char>, Seq<char>)> {
    let at = last_position(stem, '_', stem.len() as int);
    if at < 0 {
        None
    } else {
        let name = stem.take(at);
        let revision = stem.skip(at + 1);
        if valid_identifier(name) && valid_snap_revision(revision) {
            Some((name, revision))
        } else {
            None
        }
    }
}

/// The path is called like the payload of a snap.
pub open spec fn is_snap_file(path: Seq<char>) -> bool {
    match last_name(path) {
        Some(name) => stem_and_extension(name).1 == Some("snap"@),
        None => false,
    }
}

/// The snap and the revision that a payload belongs to.
pub open spec fn snap_revision(path: Seq<char>) -> Option<(Seq<char>, Seq<char>)> {
    match last_name(path) {
        Some(name) => stem_revision(stem_and_extension(name).0),
        None => None,
    }
}

fn split_extension(name: &str) -> (r: (String, Option<String>))
    ensures
        (r.0@, optional_text(r.1)) == stem_and_extension(name@),
{
    let chars = chars_of(name);
    match find_last(&chars, '.', chars.len()) {
        Some(dot) if dot > 0 => {
            let stem = text_of(&chars, 0, dot);
            let extension = text_of(&chars, dot + 1, chars.len());
            proof {
                assert(stem@ =~= name@.take(dot as int));
                assert(extension@ =~= name@.skip(dot + 1));
            }
            (stem, Some(extension))
        },
        _ => (name.to_owned(), None),
    }
}

pub fn has_snap_extension(path: &str) -> (r: bool)
    ensures
        r == is_snap_file(path@),
{
    match file_name(path) {
        Some(name) => {
            let (_, extension) = split_extension(name.as_str());
            match extension {
                Some(extension) => same(extension.as_str(), "snap"),
                None => false,
            }
        },
        None => false,
    }
}

/// The snap and the revision that a payload such as `firefox_8664.snap` belongs to.
pub fn parse_snap_revision_filename(path: &str) -> (r: Option<(String, String)>)
    ensures
        match r {
            Some(pair) => snap_revision(path@) == Some((pair.0@, pair.1@)),
            None => snap_revision(path@) is None,
        },
{
    let name = match file_name(path) {
        Some(name) => name,
        None => {
            return None;
        },
    };
    let (stem, _) = split_extension(name.as_str());
    let chars = chars_of(stem.as_str());
    match find_last(&chars, '_', chars.len()) {
        None => None,
        Some(at) => {
            let snap = text_of(&chars, 0, at);
            let revision = text_of(&chars, at + 1, chars.len());
            proof {
                assert(snap@ =~= stem@.take(at as int));
                assert(revision@ =~= stem@.skip(at + 1));
            }
            if is_valid_identifier(snap.as_str()) && is_valid_snap_revision(revision.as_str()) {
                Some((snap, revision))
            } else {
                None
            }
        },
    }
}

/// An entry of the directory of payloads.
#[derive(Debug, PartialEq, Eq)]
pub enum SnapEntry {
    /// The entry could not be read; the text says why.
    Unreadable(String),
    /// A payload with its size, nothing where that cannot be told.
    File { path: String, bytes: u64 },
}

/// Where the `current` link of a snap leads; nothing where there is no such link.
#[derive(Debug, PartialEq, Eq)]
pub struct SnapLink {
    pub name: String,
    pub target: Option<String>,
}

/// What was found of the snaps of a system.
#[derive(Debug, PartialEq, Eq)]
pub struct SnapFacts {
    pub snaps_dir: String,
    /// The entries of the directory of payloads, or why it cannot be read.
    pub entries: Result<Vec<SnapEntry>, String>,
    pub links: Vec<SnapLink>,
}

/// Where the link of a snap leads, from the `i`-th link on.
pub open spec fn link_target(links: Seq<SnapLink>, name: Seq<char>, i: int) -> Option<Seq<char>>
    decreases links.len() - i,
{
    if i < 0 || i >= links.len() {
        None
    } else if links[i].name@ == name {
        optional_text(links[i].target)
    } else {
        link_target(links, name, i + 1)
    }
}

/// The active revision of a snap: what its link leads to is called after it.
pub open spec fn active_revision(links: Seq<SnapLink>, name: Seq<char>) -> Option<Seq<char>> {
    match link_target(links, name, 0) {
        Some(target) => last_name(target),
        None => None,
    }
}

/// The active revision of a snap.
fn read_active_snap_revision(links: &Vec<SnapLink>, name: &str) -> (r: Option<String>)
    ensures
        optional_text(r) == active_revision(links@, name@),
{
    let mut i: usize = 0;
    while i < links.len()
        invariant
            i <= links@.len(),
            link_target(links@, name@, 0) == link_target(links@, name@, i as int),
        decreases links.len() - i,
    {
        if same(links[i].name.as_str(), name) {
            return match &links[i].target {
                Some(target) => file_name(target.as_str()),
                None => None,
            };
        }
        i = i + 1;
    }
    None
}

/// The item that removes a revision.
pub open spec fn snap_item(name: Seq<char>, revision: Seq<char>, bytes: u64) -> ItemView {
    ItemView {
        id: "packages.snap."@ + name + "."@ + revision,
        group: CleanupGroup::System,
        label: "Disabled snap revision "@ + name + " r"@ + revision,
        estimated_bytes: bytes,
        risk: Risk::Elevated,
        action: ActionView::Command(
            CommandView {
                program: "snap"@,
                args: seq!["remove"@, "--revision="@ + revision, name],
                requires_root: true,
            },
        ),
    }
}

/// The item for a payload that is known to be disabled.
pub open spec fn disabled_item(links: Seq<SnapLink>, entry: SnapEntry) -> Option<ItemView> {
    match entry {
        SnapEntry::Unreadable(_) => None,
        SnapEntry::File { path, bytes } => if !is_snap_file(path@) {
            None
        } else {
            match snap_revision(path@) {
                None => None,
                Some((name, revision)) => match active_revision(links, name) {
                    None => None,
                    Some(active) => if active == revision {
                        None
                    } else {
                        Some(snap_item(name, revision, bytes))
                    },
                },
            }
        },
    }
}

/// The snap of a payload whose active revision is not known.
pub open spec fn unknown_snap(links: Seq<SnapLink>, entry: SnapEntry) -> Option<Seq<char>> {
    match entry {
        SnapEntry::Unreadable(_) => None,
        SnapEntry::File { path, bytes } => if !is_snap_file(path@) {
            None
        } else {
            match snap_revision(path@) {
                None => None,
                Some((name, _)) => if active_revision(links, name) is None {
                    Some(name)
                } else {
                    None
                },
            }
        },
    }
}

pub open spec fn unknown_snaps(links: Seq<SnapLink>, entries: Seq<SnapEntry>) -> Seq<Seq<char>> {
    kept(entries, |entry: SnapEntry| unknown_snap(links, entry))
}

pub open spec fn unreadable_entry_text(snaps_dir: Seq<char>, error: Seq<char>) -> Seq<char> {
    "failed to read an entry in "@ + snaps_dir + ": "@ + error
}

pub open spec fn unparseable_text(path: Seq<char>) -> Seq<char> {
    "skipping unparseable snap revision file: "@ + path
}

pub open spec fn unknown_revision_text(name: Seq<char>) -> Seq<char> {
    "cannot determine the active revision for snap "@ + name
        + "; skipping its revisions to avoid removing the active one"@
}

/// The complaint about an entry, given the snaps that were complained about before.
pub open spec fn entry_warning(
    snaps_dir: Seq<char>,
    links: Seq<SnapLink>,
    before: Seq<Seq<char>>,
    entry: SnapEntry,
) -> Option<Seq<char>> {
    match entry {
        SnapEntry::Unreadable(error) => Some(unreadable_entry_text(snaps_dir, error@)),
        SnapEntry::File { path, bytes } => if !is_snap_file(path@) {
            None
        } else if snap_revision(path@) is None {
            Some(unparseable_text(path@))
        } else {
            match unknown_snap(links, entry) {
                Some(name) => if before.contains(name) {
                    None
                } else {
                    Some(unknown_revision_text(name))
                },
                None => None,
            }
        },
    }
}

/// The complaints about the entries, at most one for each snap whose active revision is not
/// known.
pub open spec fn snap_warnings(
    snaps_dir: Seq<char>,
    links: Seq<SnapLink>,
    entries: Seq<SnapEntry>,
) -> Seq<Seq<char>>
    decreases entries.len(),
{
    if entries.len() == 0 {
        Seq::empty()
    } else {
        let before = snap_warnings(snaps_dir, links, entries.drop_last());
        match entry_warning(
            snaps_dir,
            links,
            unknown_snaps(links, entries.drop_last()),
            entries.last(),
        ) {
            Some(warning) => before.push(warning),
            None => before,
        }
    }
}

/// The items and the complaints of a search for disabled revisions.
pub open spec fn snap_findings(facts: SnapFacts) -> (Seq<ItemView>, Seq<Seq<char>>) {
    match facts.entries {
        Err(error) => (
            Seq::empty(),
            seq!["failed to read "@ + facts.snaps_dir@ + ": "@ + error@],
        ),
        Ok(entries) => (
            kept(entries@, |entry: SnapEntry| disabled_item(facts.links@, entry)),
            snap_warnings(facts.snaps_dir@, facts.links@, entries@),
        ),
    }
}

fn make_snap_item(name: &str, revision: &str, bytes: u64) -> (r: CleanupItem)
    ensures
        r@ == snap_item(name@, revision@, bytes),
{
    let flag = "--revision=".to_owned().concat(revision);
    CleanupItem {
        id: "packages.snap.".to_owned().concat(name).concat(".").concat(revision),
        group: CleanupGroup::System,
        label: "Disabled snap revision ".to_owned().concat(name).concat(" r").concat(revision),
        estimated_bytes: bytes,
        risk: Risk::Elevated,
        action: CleanupAction::Command {
            program: "snap".to_owned(),
            args: list3("remove", flag.as_str(), name),
            requires_root: true,
        },
    }
}

/// What one entry comes to.
enum Finding {
    Nothing,
    Complaint(String),
    Unknown(String),
    Disabled(CleanupItem),
}

fn look_at(snaps_dir: &str, links: &Vec<SnapLink>, entry: &SnapEntry) -> (r: Finding)
    ensures
        match r {
            Finding::Nothing => disabled_item(links@, *entry) is None && unknown_snap(
                links@,
                *entry,
            ) is None && forall|before: Seq<Seq<char>>|
                entry_warning(snaps_dir@, links@, before, *entry) is None,
            Finding::Complaint(text) => disabled_item(links@, *entry) is None && unknown_snap(
                links@,
                *entry,
            ) is None && forall|before: Seq<Seq<char>>|
                entry_warning(snaps_dir@, links@, before, *entry) == Some(text@),
            Finding::Unknown(name) => disabled_item(links@, *entry) is None && unknown_snap(
                links@,
                *entry,
            ) == Some(name@) && forall|before: Seq<Seq<char>>|
                #[trigger] entry_warning(snaps_dir@, links@, before, *entry)
                    == if before.contains(name@) {
                    None
                } else {
                    Some(unknown_revision_text(name@))
                },
            Finding::Disabled(item) => disabled_item(links@, *entry) == Some(item@)
                && unknown_snap(links@, *entry) is None && forall|before: Seq<Seq<char>>|
                entry_warning(snaps_dir@, links@, before, *entry) is None,
        },
{
    match entry {
        SnapEntry::Unreadable(error) => Finding::Complaint(
            "failed to read an entry in ".to_owned().concat(snaps_dir).concat(": ").concat(
                error.as_str(),
            ),
        ),
        SnapEntry::File { path, bytes } => {
            if !has_snap_extension(path.as_str()) {
                return Finding::Nothing;
            }
            match parse_snap_revision_filename(path.as_str()) {
                None => Finding::Complaint(
                    "skipping unparseable snap revision file: ".to_owned().concat(path.as_str()),
                ),
                Some((name, revision)) => {
                    match read_active_snap_revision(links, name.as_str()) {
                        None => Finding::Unknown(name),
                        Some(active) => {
                            if active == revision {
                                Finding::Nothing
                            } else {
                                Finding::Disabled(
                                    make_snap_item(name.as_str(), revision.as_str(), *bytes),
                                )
                            }
                        },
                    }
                },
            }
        },
    }
}

/// The disabled revisions of the snaps of a system, and what is to be complained about. An
/// entry that is not understood is passed over and ends nothing.
pub fn discover_disabled_snap_revisions(facts: &SnapFacts) -> (r: (Vec<CleanupItem>, Vec<String>))
    ensures
        item_views(r.0@) == snap_findings(*facts).0,
        texts(r.1@) == snap_findings(*facts).1,
{
    let mut items: Vec<CleanupItem> = Vec::new();
    let mut warnings: Vec<String> = Vec::new();
    let snaps_dir = facts.snaps_dir.as_str();
    let links = &facts.links;
    let entries = match &facts.entries {
        Err(error) => {
            warnings.push(
                "failed to read ".to_owned().concat(snaps_dir).concat(": ").concat(error.as_str()),
            );
            proof {
                assert(item_views(items@) =~= snap_findings(*facts).0);
                assert(texts(warnings@) =~= snap_findings(*facts).1);
            }
            return (items, warnings);
        },
        Ok(entries) => entries,
    };
    let mut warned: Vec<String> = Vec::new();
    let ghost disabled = |entry: SnapEntry| disabled_item(links@, entry);
    let ghost unknown = |entry: SnapEntry| unknown_snap(links@, entry);
    let mut i: usize = 0;
    while i < entries.len()
        invariant
            i <= entries@.len(),
            disabled == (|entry: SnapEntry| disabled_item(links@, entry)),
            unknown == (|entry: SnapEntry| unknown_snap(links@, entry)),
            item_views(items@) =~= kept(entries@.take(i as int), disabled),
            texts(warned@) =~= kept(entries@.take(i as int), unknown),
            texts(warnings@) =~= snap_warnings(snaps_dir@, links@, entries@.take(i as int)),
        decreases entries.len() - i,
    {
        let entry = &entries[i];
        let ghost taken = entries@.take(i + 1);
        proof {
            assert(taken.drop_last() =~= entries@.take(i as int));
            assert(taken.last() == *entry);
            assert(disabled(*entry) == disabled_item(links@, *entry));
            assert(unknown(*entry) == unknown_snap(links@, *entry));
            assert(unknown_snaps(links@, entries@.take(i as int)) == texts(warned@));
        }
        let ghost old_items = items@;
        let ghost old_warnings = warnings@;
        let ghost old_warned = warned@;
        match look_at(snaps_dir, links, entry) {
            Finding::Nothing => {},
            Finding::Complaint(text) => {
                warnings.push(text);
                proof {
                    assert(texts(warnings@) =~= texts(old_warnings).push(text@));
                }
            },
            Finding::Unknown(name) => {
                if !is_in(&warned, name.as_str()) {
                    let warning =
                        "cannot determine the active revision for snap ".to_owned().concat(
                        name.as_str(),
                    ).concat("; skipping its revisions to avoid removing the active one");
                    warnings.push(warning);
                    proof {
                        assert(texts(warnings@) =~= texts(old_warnings).push(warning@));
                    }
                }
                warned.push(name);
                proof {
                    assert(texts(warned@) =~= texts(old_warned).push(name@));
                }
            },
            Finding::Disabled(item) => {
                items.push(item);
                proof {
                    assert(item_views(items@) =~= item_views(old_items).push(item@));
                }
            },
        }
        i = i + 1;
    }
    proof {
        assert(entries@.take(entries@.len() as int) =~= entries@);
    }
    (items, warnings)
}

// ---------------------------------------------------------------------------------------
// Laws
// ---------------------------------------------------------------------------------------

/// The active revision of a snap is never offered for removal: every item that is found names
/// a revision other than the active one, which is known.
pub proof fn active_revision_is_never_offered(links: Seq<SnapLink>, entry: SnapEntry)
    requires
        disabled_item(links, entry) is Some,
    ensures
        exists|name: Seq<char>, revision: Seq<char>, bytes: u64|
            {
                &&& disabled_item(links, entry) == Some(#[trigger] snap_item(name, revision, bytes))
                &&& active_revision(links, name) is Some
                &&& active_revision(links, name) != Some(revision)
                &&& valid_identifier(name)
                &&& valid_snap_revision(revision)
            },
{
    match entry {
        SnapEntry::Unreadable(_) => {},
        SnapEntry::File { path, bytes } => {
            let (name, revision) = snap_revision(path@).unwrap();
            assert(disabled_item(links, entry) == Some(snap_item(name, revision, bytes)));
        },
    }
}

proof fn lemma_last_mark(a: Seq<char>, mark: char, b: Seq<char>, end: int)
    requires
        !b.contains(mark),
        a.len() < end <= a.len() + 1 + b.len(),
    ensures
        last_position(a.push(mark) + b, mark, end) == a.len(),
    decreases end,
{
    let s = a.push(mark) + b;
    if end - 1 > a.len() {
        assert(s[end - 1] == b[end - 2 - a.len()]);
        assert(b.contains(b[end - 2 - a.len()]));
        lemma_last_mark(a, mark, b, end - 1);
    } else {
        assert(s[end - 1] == mark);
    }
}

/// The name of the payload of a revision.
pub open spec fn payload_name(name: Seq<char>, revision: Seq<char>) -> Seq<char> {
    name + "_"@ + revision + ".snap"@
}

/// A payload is called after its snap and its revision, and both are read back from its name, in
/// whatever directory it lies.
pub proof fn payload_names_its_revision(dir: Seq<char>, name: Seq<char>, revision: Seq<char>)
    requires
        dir.len() > 0,
        valid_identifier(name),
        valid_snap_revision(revision),
    ensures
        is_snap_file(joined_path(dir, payload_name(name, revision))),
        snap_revision(joined_path(dir, payload_name(name, revision))) == Some((name, revision)),
{
    reveal_strlit("_");
    reveal_strlit(".snap");
    reveal_strlit("snap");
    let file = payload_name(name, revision);
    let stem = name + "_"@ + revision;
    let extension = "snap"@;
    assert(file =~= stem.push('.') + extension);
    assert(stem =~= name.push('_') + revision);
    assert(!extension.contains('.'));
    assert(!revision.contains('_')) by {
        if revision.contains('_') {
            let i = choose|i: int| 0 <= i < revision.len() && revision[i] == '_';
            assert(is_digit(revision[i]));
        }
    }
    lemma_last_mark(stem, '.', extension, file.len() as int);
    lemma_last_mark(name, '_', revision, stem.len() as int);
    assert(file.take(stem.len() as int) =~= stem);
    assert(file.skip(stem.len() as int + 1) =~= extension);
    assert(stem.take(name.len() as int) =~= name);
    assert(stem.skip(name.len() as int + 1) =~= revision);
    assert(simple_name(file)) by {
        assert forall|i: int| 0 <= i < file.len() implies file[i] != '/' by {
            if i < name.len() {
                assert(is_identifier_char(name[i]));
            } else if name.len() < i < stem.len() {
                assert(is_digit(revision[i - name.len() - 1]));
            } else if i > stem.len() {
                assert(extension[i - stem.len() - 1] != '/');
            }
        }
        assert(file.len() > 5);
    }
    name_is_plain(file);
    joining_appends(dir, file);
    assert(parts(joined_path(dir, file)).last() == Part::Normal(file));
}

/// The link of a snap tells its active revision: the first link of that name counts, and what it
/// leads to is called after the revision.
pub proof fn link_tells_the_active_revision(
    links: Seq<SnapLink>,
    at: int,
    name: Seq<char>,
    dir: Seq<char>,
    revision: Seq<char>,
)
    requires
        0 <= at < links.len(),
        links[at].name@ == name,
        forall|i: int| 0 <= i < at ==> (#[trigger] links[i]).name@ != name,
    ensures
        links[at].target is None ==> active_revision(links, name) is None,
        dir.len() > 0 && simple_name(revision) && optional_text(links[at].target) == Some(
            joined_path(dir, revision),
        ) ==> active_revision(links, name) == Some(revision),
        simple_name(revision) && optional_text(links[at].target) == Some(revision)
            ==> active_revision(links, name) == Some(revision),
{
    lemma_link(links, at, name, 0);
    if simple_name(revision) {
        name_is_plain(revision);
        assert(parts(revision).last() == Part::Normal(revision));
        if dir.len() > 0 {
            joining_appends(dir, revision);
            assert(parts(joined_path(dir, revision)).last() == Part::Normal(revision));
        }
    }
}

proof fn lemma_link(links: Seq<SnapLink>, at: int, name: Seq<char>, from: int)
    requires
        0 <= from <= at < links.len(),
        links[at].name@ == name,
        forall|i: int| 0 <= i < at ==> (#[trigger] links[i]).name@ != name,
    ensures
        link_target(links, name, from) == optional_text(links[at].target),
    decreases at - from,
{
    if from < at {
        lemma_link(links, at, name, from + 1);
    }
}

/// A revision that was found is offered exactly where the active one is known and is another: it
/// is removed through `snap`, by its number and no other, and with the size of its payload.
pub proof fn disabled_revisions_are_offered(
    links: Seq<SnapLink>,
    entry: SnapEntry,
    dir: Seq<char>,
    name: Seq<char>,
    revision: Seq<char>,
    bytes: u64,
)
    requires
        dir.len() > 0,
        valid_identifier(name),
        valid_snap_revision(revision),
        entry matches SnapEntry::File { path, bytes: size } && path@ == joined_path(
            dir,
            payload_name(name, revision),
        ) && size == bytes,
    ensures
        match disabled_item(links, entry) {
            Some(item) => {
                &&& active_revision(links, name) matches Some(active) && active != revision
                &&& item.estimated_bytes == bytes
                &&& item.action == ActionView::Command(
                    CommandView {
                        program: "snap"@,
                        args: seq!["remove"@, "--revision="@ + revision, name],
                        requires_root: true,
                    },
                )
            },
            None => active_revision(links, name) is None || active_revision(links, name) == Some(
                revision,
            ),
        },
{
    payload_names_its_revision(dir, name, revision);
}

/// Every payload that was found is looked at: what is known to be disabled is among the items,
/// and nothing else is.
pub proof fn every_payload_is_looked_at(facts: SnapFacts, i: int)
    ensures
        match facts.entries {
            Ok(entries) => {
                &&& 0 <= i < entries@.len() ==> (disabled_item(facts.links@, entries@[i]) matches Some(
                    item,
                ) ==> snap_findings(facts).0.contains(item))
                &&& 0 <= i < snap_findings(facts).0.len() ==> exists|j: int|
                    0 <= j < entries@.len() && disabled_item(
                        facts.links@,
                        #[trigger] entries@[j],
                    ) == Some(snap_findings(facts).0[i])
            },
            Err(_) => snap_findings(facts).0.len() == 0,
        },
{
    match facts.entries {
        Ok(entries) => {
            let keep = |entry: SnapEntry| disabled_item(facts.links@, entry);
            let found = snap_findings(facts).0;
            let places = kept_in_order(entries@, keep);
            if 0 <= i < entries@.len() && keep(entries@[i]) is Some {
                let k = choose|k: int| 0 <= k < places.len() && places[k] == i;
                assert(keep(entries@[i]) == Some(found[k]));
            }
            if 0 <= i < found.len() {
                assert(keep(entries@[places[i]]) == Some(found[i]));
            }
        },
        Err(_) => {},
    }
}

/// An entry that cannot be read or understood is complained about, with the reason or the path; one
/// that is no payload is passed over.
pub proof fn odd_entries_are_complained_about(
    snaps_dir: Seq<char>,
    links: Seq<SnapLink>,
    before: Seq<Seq<char>>,
    entry: SnapEntry,
)
    ensures
        entry matches SnapEntry::Unreadable(error) ==> (entry_warning(
            snaps_dir,
            links,
            before,
            entry,
        ) matches Some(text) && text.len() >= error@.len() && text.skip(
            text.len() - error@.len(),
        ) == error@),
        entry matches SnapEntry::File { path, bytes } ==> {
            let warning = entry_warning(snaps_dir, links, before, entry);
            &&& !is_snap_file(path@) ==> warning is None
            &&& is_snap_file(path@) && snap_revision(path@) is None ==> (warning matches Some(text)
                && text.len() >= path@.len() && text.skip(text.len() - path@.len()) == path@)
            &&& snap_revision(path@) matches Some((name, _)) ==> active_revision(links, name)
                is Some ==> warning is None
        },
{
    match entry {
        SnapEntry::Unreadable(error) => {
            let text = unreadable_entry_text(snaps_dir, error@);
            assert(text.skip(text.len() - error@.len()) =~= error@);
        },
        SnapEntry::File { path, bytes } => {
            let text = unparseable_text(path@);
            assert(text.skip(text.len() - path@.len()) =~= path@);
        },
    }
}

/// The last mark parts the name of a payload: what stands before it may hold further marks.
pub proof fn last_mark_parts(a: Seq<char>, mark: char, b: Seq<char>)
    requires
        !b.contains(mark),
    ensures
        last_position(a.push(mark) + b, mark, (a.len() + 1 + b.len()) as int) == a.len(),
{
    lemma_last_mark(a, mark, b, (a.len() + 1 + b.len()) as int);
}

/// Only a file whose name ends in `.snap`, with something in front of it, is a payload.
pub proof fn payloads_end_in_snap(path: Seq<char>)
    requires
        is_snap_file(path),
    ensures
        last_name(path) matches Some(name) && name.len() > 5 && name.skip(name.len() - 5)
            == ".snap"@,
{
    reveal_strlit(".snap");
    reveal_strlit("snap");
    let name = last_name(path)->Some_0;
    let dot = last_position(name, '.', name.len() as int);
    lemma_last_position(name, '.', name.len() as int);
    assert(name.skip(dot + 1).len() == 4);
    assert(dot == name.len() - 5);
    assert(name.skip(dot + 1) =~= "snap"@);
    assert(name.skip(name.len() - 5) =~= ".snap"@) by {
        assert forall|i: int| 0 <= i < 5 implies name.skip(name.len() - 5)[i] == ".snap"@[i] by {
            if i > 0 {
                assert(name.skip(dot + 1)[i - 1] == "snap"@[i - 1]);
            }
        }
    }
}

proof fn lemma_last_position(s: Seq<char>, mark: char, end: int)
    requires
        0 <= end <= s.len(),
    ensures
        -1 <= last_position(s, mark, end) < end || (end == 0 && last_position(s, mark, end) == -1),
        last_position(s, mark, end) >= 0 ==> s[last_position(s, mark, end)] == mark,
    decreases end,
{
    if end > 0 && s[end - 1] != mark {
        lemma_last_position(s, mark, end - 1);
    }
}

} // verus!
