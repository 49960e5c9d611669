//! The distribution that a system runs, and how its package cache is cleaned.
use vstd::prelude::*;
use vstd::string::*;

use crate::model::{
    command_views, ActionView, CleanupAction, CleanupGroup, CleanupItem, CommandSpec, CommandView,
    ItemView, Risk,
};
use crate::text::{
    all_white, ends_line, first_mark_parts, has_prefix, is_one_of, is_white, last_line_is_closed,
    line_stands_alone, lines, lines_add_up, list1, list2, lower, marks_around_are_stripped,
    no_white, same, split_first, split_lines, split_once, split_words, str_texts, stripped_of,
    texts, to_lower, trim, trim_mark, trimmed, trimming_leaves_the_core, white_around_is_trimmed,
    white_space_holds_no_words, without_return, word_stands_alone, words, words_add_up,
};

verus! {

#[derive(Debug, Clone, Copy, PartialEq, Eq, Structural)]
pub enum DistroFamily {
    Arch,
    Debian,
    Fedora,
    Unsupported,
}

#[derive(Debug, PartialEq, Eq)]
pub struct Distribution {
    pub id: String,
    pub name: String,
    pub family: DistroFamily,
}

impl Clone for Distribution {
    fn clone(&self) -> (r: Self)
        ensures
            r == *self,
    {
        Distribution { id: self.id.clone(), name: self.name.clone(), family: self.family }
    }
}

/// The key and the value that a line of an os-release file assigns. Blank lines and comments
/// assign nothing; quotes around a value do not belong to it.
pub open spec fn assignment(raw: Seq<char>) -> Option<(Seq<char>, Seq<char>)> {
    let line = trimmed(raw);
    if line.len() == 0 || line[0] == '#' {
        None
    } else {
        match split_first(line, '=') {
            Some((key, value)) => Some((key, stripped_of(stripped_of(trimmed(value), '"'), '\''))),
            None => None,
        }
    }
}

/// The value that the lines assign to `key`: the last one counts.
pub open spec fn assigned(all: Seq<Seq<char>>, key: Seq<char>) -> Option<Seq<char>>
    decreases all.len(),
{
    if all.len() == 0 {
        None
    } else {
        match assignment(all.last()) {
            Some((k, value)) => if k == key {
                Some(value)
            } else {
                assigned(all.drop_last(), key)
            },
            None => assigned(all.drop_last(), key),
        }
    }
}

pub open spec fn release_id(input: Seq<char>) -> Seq<char> {
    match assigned(lines(input), "ID"@) {
        Some(value) => lower(value),
        None => "unknown"@,
    }
}

pub open spec fn release_name(input: Seq<char>) -> Seq<char> {
    match assigned(lines(input), "NAME"@) {
        Some(value) => value,
        None => "Unknown Linux"@,
    }
}

pub open spec fn release_id_like(input: Seq<char>) -> Seq<char> {
    match assigned(lines(input), "ID_LIKE"@) {
        Some(value) => lower(value),
        None => ""@,
    }
}

pub open spec fn arch_names() -> Seq<Seq<char>> {
    seq!["arch"@, "manjaro"@, "endeavouros"@]
}

pub open spec fn debian_names() -> Seq<Seq<char>> {
    seq!["debian"@, "ubuntu"@, "linuxmint"@, "pop"@]
}

pub open spec fn fedora_names() -> Seq<Seq<char>> {
    seq!["fedora"@, "rhel"@, "centos"@, "rocky"@, "almalinux"@]
}

pub open spec fn names_one_of(identifiers: Seq<Seq<char>>, names: Seq<Seq<char>>) -> bool {
    exists|i: int| 0 <= i < identifiers.len() && names.contains(#[trigger] identifiers[i])
}

/// The family that the identifiers name; Arch counts before Debian, Debian before Fedora.
pub open spec fn family_of(identifiers: Seq<Seq<char>>) -> DistroFamily {
    if names_one_of(identifiers, arch_names()) {
        DistroFamily::Arch
    } else if names_one_of(identifiers, debian_names()) {
        DistroFamily::Debian
    } else if names_one_of(identifiers, fedora_names()) {
        DistroFamily::Fedora
    } else {
        DistroFamily::Unsupported
    }
}

fn read_assignment(raw: &str) -> (r: Option<(String, String)>)
    ensures
        match r {
            Some(pair) => assignment(raw@) == Some((pair.0@, pair.1@)),
            None => assignment(raw@) is None,
        },
{
    let line = trim(raw);
    if line.as_str().unicode_len() == 0 || line.as_str().get_char(0) == '#' {
        return None;
    }
    match split_once(line.as_str(), '=') {
        None => None,
        Some((key, raw_value)) => {
            let plain = trim(raw_value.as_str());
            let unquoted = trim_mark(plain.as_str(), '"');
            Some((key, trim_mark(unquoted.as_str(), '\'')))
        },
    }
}

fn is_any_of(identifiers: &Vec<String>, names: &[&str]) -> (r: bool)
    ensures
        r == names_one_of(texts(identifiers@), str_texts(names@)),
{
    let ghost views = texts(identifiers@);
    let mut i: usize = 0;
    while i < identifiers.len()
        invariant
            i <= identifiers@.len(),
            views == texts(identifiers@),
            forall|j: int| 0 <= j < i ==> !str_texts(names@).contains(#[trigger] views[j]),
        decreases identifiers.len() - i,
    {
        if is_one_of(names, identifiers[i].as_str()) {
            proof {
                assert(str_texts(names@).contains(views[i as int]));
            }
            return true;
        }
        i = i + 1;
    }
    false
}

fn find_family(identifiers: &Vec<String>) -> (r: DistroFamily)
    ensures
        r == family_of(texts(identifiers@)),
{
    let arch = ["arch", "manjaro", "endeavouros"];
    let debian = ["debian", "ubuntu", "linuxmint", "pop"];
    let fedora = ["fedora", "rhel", "centos", "rocky", "almalinux"];
    proof {
        assert(str_texts(arch@) =~= arch_names());
        assert(str_texts(debian@) =~= debian_names());
        assert(str_texts(fedora@) =~= fedora_names());
    }
    if is_any_of(identifiers, &arch) {
        DistroFamily::Arch
    } else if is_any_of(identifiers, &debian) {
        DistroFamily::Debian
    } else if is_any_of(identifiers, &fedora) {
        DistroFamily::Fedora
    } else {
        DistroFamily::Unsupported
    }
}

pub open spec fn arch_commands() -> Seq<CommandView> {
    seq![
        CommandView { program: "paccache"@, args: seq!["-rk1"@], requires_root: true },
        CommandView { program: "paccache"@, args: seq!["-ruk0"@], requires_root: true },
    ]
}

/// The item that cleans the package cache of a family.
pub open spec fn package_item(family: DistroFamily, estimated_bytes: u64) -> Option<ItemView> {
    match family {
        DistroFamily::Arch => Some(
            ItemView {
                id: "packages.arch.paccache"@,
                group: CleanupGroup::System,
                label: "Old pacman package versions (keeps one installed version)"@,
                estimated_bytes,
                risk: Risk::Elevated,
                action: ActionView::CommandSequence(arch_commands()),
            },
        ),
        DistroFamily::Debian => Some(
            ItemView {
                id: "packages.debian.apt"@,
                group: CleanupGroup::System,
                label: "Downloaded APT package files"@,
                estimated_bytes,
                risk: Risk::Elevated,
                action: ActionView::Command(
                    CommandView {
                        program: "apt-get"@,
                        args: seq!["clean"@],
                        requires_root: true,
                    },
                ),
            },
        ),
        DistroFamily::Fedora => Some(
            ItemView {
                id: "packages.fedora.dnf"@,
                group: CleanupGroup::System,
                label: "DNF repository and package caches"@,
                estimated_bytes,
                risk: Risk::Elevated,
                action: ActionView::Command(
                    CommandView {
                        program: "dnf"@,
                        args: seq!["clean"@, "all"@],
                        requires_root: true,
                    },
                ),
            },
        ),
        DistroFamily::Unsupported => None,
    }
}

/// Where a family keeps the packages that it downloaded.
pub open spec fn cache_paths(family: DistroFamily) -> Seq<Seq<char>> {
    match family {
        DistroFamily::Arch => seq!["/var/cache/pacman/pkg"@],
        DistroFamily::Debian => seq!["/var/cache/apt/archives"@],
        DistroFamily::Fedora => seq!["/var/cache/dnf"@, "/var/cache/libdnf5"@],
        DistroFamily::Unsupported => seq![],
    }
}

/// The program that cleans the package cache of a family.
pub open spec fn package_tool(family: DistroFamily) -> Option<Seq<char>> {
    match family {
        DistroFamily::Arch => Some("paccache"@),
        DistroFamily::Debian => Some("apt-get"@),
        DistroFamily::Fedora => Some("dnf"@),
        DistroFamily::Unsupported => None,
    }
}

impl Distribution {
    /// The distribution that the text of an os-release file names.
    pub fn parse_os_release(input: &str) -> (r: Distribution)
        ensures
            r.id@ == release_id(input@),
            r.name@ == release_name(input@),
            r.family == family_of(words(release_id(input@) + " "@ + release_id_like(input@))),
    {
        let all = split_lines(input);
        let ghost views = texts(all@);
        let mut id = "unknown".to_owned();
        let mut name = "Unknown Linux".to_owned();
        let mut id_like = "".to_owned();
        let mut i: usize = 0;
        proof {
            reveal_strlit("ID");
            reveal_strlit("NAME");
            reveal_strlit("ID_LIKE");
            assert("ID"@.len() == 2 && "NAME"@.len() == 4 && "ID_LIKE"@.len() == 7);
        }
        while i < all.len()
            invariant
                i <= all@.len(),
                views == texts(all@),
                views == lines(input@),
                "ID"@.len() == 2,
                "NAME"@.len() == 4,
                "ID_LIKE"@.len() == 7,
                id@ == (match assigned(views.take(i as int), "ID"@) {
                    Some(value) => lower(value),
                    None => "unknown"@,
                }),
                name@ == (match assigned(views.take(i as int), "NAME"@) {
                    Some(value) => value,
                    None => "Unknown Linux"@,
                }),
                id_like@ == (match assigned(views.take(i as int), "ID_LIKE"@) {
                    Some(value) => lower(value),
                    None => ""@,
                }),
            decreases all.len() - i,
        {
            proof {
                assert(views.take(i + 1).drop_last() =~= views.take(i as int));
                assert(views.take(i + 1).last() == all@[i as int]@);
            }
            match read_assignment(all[i].as_str()) {
                Some((key, value)) => {
                    if same(key.as_str(), "ID") {
                        id = to_lower(value.as_str());
                    } else if same(key.as_str(), "NAME") {
                        name = value;
                    } else if same(key.as_str(), "ID_LIKE") {
                        id_like = to_lower(value.as_str());
                    }
                },
                None => {},
            }
            i = i + 1;
        }
        proof {
            assert(views.take(views.len() as int) =~= views);
        }
        let identifiers = id.clone().concat(" ").concat(id_like.as_str());
        let family = find_family(&split_words(identifiers.as_str()));
        Distribution { id, name, family }
    }

    pub fn package_cache_paths(&self) -> (r: Vec<String>)
        ensures
            texts(r@) == cache_paths(self.family),
    {
        match self.family {
            DistroFamily::Arch => list1("/var/cache/pacman/pkg"),
            DistroFamily::Debian => list1("/var/cache/apt/archives"),
            DistroFamily::Fedora => list2("/var/cache/dnf", "/var/cache/libdnf5"),
            DistroFamily::Unsupported => {
                let none: Vec<String> = Vec::new();
                proof {
                    assert(texts(none@) =~= seq![]);
                }
                none
            },
        }
    }

    /// The item that cleans the package cache, where the family has one.
    pub fn package_cleanup_item(&self, estimated_bytes: u64) -> (r: Option<CleanupItem>)
        ensures
            match r {
                Some(item) => package_item(self.family, estimated_bytes) == Some(item@),
                None => package_item(self.family, estimated_bytes) is None,
            },
    {
        match self.family {
            DistroFamily::Arch => {
                let mut commands: Vec<CommandSpec> = Vec::new();
                commands.push(
                    CommandSpec {
                        program: "paccache".to_owned(),
                        args: list1("-rk1"),
                        requires_root: true,
                    },
                );
                commands.push(
                    CommandSpec {
                        program: "paccache".to_owned(),
                        args: list1("-ruk0"),
                        requires_root: true,
                    },
                );
                proof {
                    assert(command_views(commands@) =~= arch_commands());
                }
                Some(
                    CleanupItem {
                        id: "packages.arch.paccache".to_owned(),
                        group: CleanupGroup::System,
                        label: "Old pacman package versions (keeps one installed version)".to_owned(),
                        estimated_bytes,
                        risk: Risk::Elevated,
                        action: CleanupAction::CommandSequence { commands },
                    },
                )
            },
            DistroFamily::Debian => Some(
                CleanupItem {
                    id: "packages.debian.apt".to_owned(),
                    group: CleanupGroup::System,
                    label: "Downloaded APT package files".to_owned(),
                    estimated_bytes,
                    risk: Risk::Elevated,
                    action: CleanupAction::Command {
                        program: "apt-get".to_owned(),
                        args: list1("clean"),
                        requires_root: true,
                    },
                },
            ),
            DistroFamily::Fedora => Some(
                CleanupItem {
                    id: "packages.fedora.dnf".to_owned(),
                    group: CleanupGroup::System,
                    label: "DNF repository and package caches".to_owned(),
                    estimated_bytes,
                    risk: Risk::Elevated,
                    action: CleanupAction::Command {
                        program: "dnf".to_owned(),
                        args: list2("clean", "all"),
                        requires_root: true,
                    },
                },
            ),
            DistroFamily::Unsupported => None,
        }
    }

    /// The program that cleans the package cache, where the family has one.
    pub fn package_tool(&self) -> (r: Option<&'static str>)
        ensures
            match r {
                Some(tool) => package_tool(self.family) == Some(tool@),
                None => package_tool(self.family) is None,
            },
    {
        match self.family {
            DistroFamily::Arch => Some("paccache"),
            DistroFamily::Debian => Some("apt-get"),
            DistroFamily::Fedora => Some("dnf"),
            DistroFamily::Unsupported => None,
        }
    }
}

// ---------------------------------------------------------------------------------------
// Laws
// ---------------------------------------------------------------------------------------

/// The line assigns a value to `key`.
pub open spec fn assigns(line: Seq<char>, key: Seq<char>) -> bool {
    match assignment(line) {
        Some((k, _)) => k == key,
        None => false,
    }
}

/// The two texts name the same distribution: the identifier, the name, and the relatives, which
/// decide the family together with the identifier.
pub open spec fn same_release(a: Seq<char>, b: Seq<char>) -> bool {
    &&& release_id(a) == release_id(b)
    &&& release_name(a) == release_name(b)
    &&& release_id_like(a) == release_id_like(b)
}

/// What later lines assign counts, and what earlier lines assign where they do not.
pub proof fn later_lines_count(a: Seq<Seq<char>>, b: Seq<Seq<char>>, key: Seq<char>)
    ensures
        assigned(a + b, key) == match assigned(b, key) {
            Some(value) => Some(value),
            None => assigned(a, key),
        },
    decreases b.len(),
{
    if b.len() == 0 {
        assert(a + b =~= a);
    } else {
        assert((a + b).last() == b.last());
        assert((a + b).drop_last() =~= a + b.drop_last());
        later_lines_count(a, b.drop_last(), key);
    }
}

/// A carriage return at the end of a line makes no difference.
proof fn lemma_return_is_trimmed(line: Seq<char>)
    ensures
        assignment(without_return(line)) == assignment(line),
{
    if line.len() > 0 && line.last() == '\r' {
        let back = seq!['\r'];
        white_around_is_trimmed(Seq::empty(), line.drop_last(), back);
        assert(Seq::<char>::empty() + line.drop_last() + back =~= line);
    }
}

/// The values that `line` between `before` and `after` leads to.
proof fn lemma_inserted(before: Seq<char>, line: Seq<char>, after: Seq<char>, key: Seq<char>)
    requires
        ends_line(before),
        !line.contains('\n'),
    ensures
        assigned(lines(before + after), key) == match assigned(lines(after), key) {
            Some(value) => Some(value),
            None => assigned(lines(before), key),
        },
        assigned(lines(before + line.push('\n') + after), key) == match assigned(
            lines(after),
            key,
        ) {
            Some(value) => Some(value),
            None => if assigns(line, key) {
                Some(assignment(line)->Some_0.1)
            } else {
                assigned(lines(before), key)
            },
        },
{
    let one = line.push('\n');
    let alone = seq![without_return(line)];
    lines_add_up(before, after);
    later_lines_count(lines(before), lines(after), key);
    line_stands_alone(line);
    lines_add_up(before, one);
    assert(ends_line(before + one));
    lines_add_up(before + one, after);
    later_lines_count(lines(before) + alone, lines(after), key);
    later_lines_count(lines(before), alone, key);
    lemma_return_is_trimmed(line);
    assert(alone.drop_last() =~= Seq::empty());
    assert(assigned(alone.drop_last(), key) is None);
}

/// A blank line, a comment, a line that assigns nothing and a line that assigns anything but
/// the identifier, the name and the relatives change nothing, wherever they stand.
pub proof fn idle_lines_change_nothing(before: Seq<char>, line: Seq<char>, after: Seq<char>)
    requires
        ends_line(before),
        !line.contains('\n'),
        !assigns(line, "ID"@) && !assigns(line, "NAME"@) && !assigns(line, "ID_LIKE"@),
    ensures
        same_release(before + line.push('\n') + after, before + after),
{
    lemma_inserted(before, line, after, "ID"@);
    lemma_inserted(before, line, after, "NAME"@);
    lemma_inserted(before, line, after, "ID_LIKE"@);
}

/// Whether a line feed stands behind the last line makes no difference.
pub proof fn closing_line_feed_is_optional(text: Seq<char>)
    requires
        !ends_line(text),
    ensures
        same_release(text.push('\n'), text),
{
    let open = lines(text);
    let closed = lines(text.push('\n'));
    last_line_is_closed(text);
    lemma_return_is_trimmed(open.last());
    assert(closed.drop_last() =~= open.drop_last());
    assert(closed.last() == without_return(open.last()));
    assert forall|key: Seq<char>| assigned(closed, key) == #[trigger] assigned(open, key) by {}
}

/// Lines that are blank, comments, or without `=`, assign nothing.
pub proof fn idle_lines_assign_nothing(line: Seq<char>, key: Seq<char>)
    requires
        trimmed(line).len() == 0 || trimmed(line)[0] == '#' || split_first(trimmed(line), '=')
            is None,
    ensures
        !assigns(line, key),
{
}

/// Of two lines that assign to the same key only the last counts: without the first one
/// nothing changes.
pub proof fn last_assignment_counts(
    before: Seq<char>,
    first: Seq<char>,
    between: Seq<char>,
    last: Seq<char>,
    after: Seq<char>,
    key: Seq<char>,
)
    requires
        ends_line(before),
        ends_line(between),
        !first.contains('\n'),
        !last.contains('\n'),
        assigns(first, key),
        assigns(last, key),
    ensures
        same_release(
            before + first.push('\n') + (between + last.push('\n') + after),
            before + (between + last.push('\n') + after),
        ),
{
    let rest = between + last.push('\n') + after;
    lemma_inserted(between, last, after, key);
    lemma_inserted(before, first, rest, "ID"@);
    lemma_inserted(before, first, rest, "NAME"@);
    lemma_inserted(before, first, rest, "ID_LIKE"@);
}

/// Neighbouring lines that do not assign to the same key may change places.
pub proof fn lines_may_change_places(
    before: Seq<char>,
    first: Seq<char>,
    second: Seq<char>,
    after: Seq<char>,
)
    requires
        ends_line(before),
        !first.contains('\n'),
        !second.contains('\n'),
        forall|key: Seq<char>| !(#[trigger] assigns(first, key) && assigns(second, key)),
    ensures
        same_release(
            before + first.push('\n') + (second.push('\n') + after),
            before + second.push('\n') + (first.push('\n') + after),
        ),
{
    lemma_places(before, first, second, after, "ID"@);
    lemma_places(before, first, second, after, "NAME"@);
    lemma_places(before, first, second, after, "ID_LIKE"@);
}

proof fn lemma_places(
    before: Seq<char>,
    first: Seq<char>,
    second: Seq<char>,
    after: Seq<char>,
    key: Seq<char>,
)
    requires
        ends_line(before),
        !first.contains('\n'),
        !second.contains('\n'),
        !(assigns(first, key) && assigns(second, key)),
    ensures
        assigned(lines(before + first.push('\n') + (second.push('\n') + after)), key) == assigned(
            lines(before + second.push('\n') + (first.push('\n') + after)),
            key,
        ),
{
    let none = Seq::<char>::empty();
    assert(none + second.push('\n') + after =~= second.push('\n') + after);
    assert(none + first.push('\n') + after =~= first.push('\n') + after);
    lemma_inserted(none, second, after, key);
    lemma_inserted(none, first, after, key);
    assert(lines(none).len() == 0) by {
        lines_add_up(none, none);
        assert(none + none =~= none);
    }
    assert(assigned(lines(none), key) is None);
    lemma_inserted(before, first, second.push('\n') + after, key);
    lemma_inserted(before, second, first.push('\n') + after, key);
}

/// A line `KEY=value` assigns the value to the key, with or without white space around it and with
/// or without quotes of either kind.
pub proof fn assignment_is_read(front: Seq<char>, key: Seq<char>, value: Seq<char>, back: Seq<char>)
    requires
        all_white(front) && all_white(back),
        key.len() > 0 && !key.contains('=') && key[0] != '#' && !is_white(key[0]),
        value.len() > 0 && !is_white(value[0]) && !is_white(value.last()),
        value[0] != '"' && value.last() != '"' && value[0] != '\'' && value.last() != '\'',
    ensures
        assignment(front + (key.push('=') + value) + back) == Some((key, value)),
        assignment(front + (key.push('=') + (seq!['"'] + value + seq!['"'])) + back) == Some(
            (key, value),
        ),
        assignment(front + (key.push('=') + (seq!['\''] + value + seq!['\''])) + back) == Some(
            (key, value),
        ),
{
    let none = Seq::<char>::empty();
    let double = seq!['"'] + value + seq!['"'];
    let single = seq!['\''] + value + seq!['\''];
    lemma_assignment(front, key, value, back);
    lemma_assignment(front, key, double, back);
    lemma_assignment(front, key, single, back);
    marks_around_are_stripped('"', value);
    marks_around_are_stripped('\'', value);
    marks_around_are_stripped('"', single);
}

proof fn lemma_assignment(front: Seq<char>, key: Seq<char>, raw: Seq<char>, back: Seq<char>)
    requires
        all_white(front) && all_white(back),
        key.len() > 0 && !key.contains('=') && key[0] != '#' && !is_white(key[0]),
        raw.len() > 0 && !is_white(raw[0]) && !is_white(raw.last()),
    ensures
        assignment(front + (key.push('=') + raw) + back) == Some(
            (key, stripped_of(stripped_of(raw, '"'), '\'')),
        ),
{
    let none = Seq::<char>::empty();
    let line = key.push('=') + raw;
    assert(line[0] == key[0] && line.last() == raw.last());
    trimming_leaves_the_core(front, line, back);
    trimming_leaves_the_core(none, raw, none);
    first_mark_parts(key, '=', raw);
}

/// What a line assigns to the identifier and the name is what the distribution is called, in lower
/// case for the identifier, where no later line says otherwise.
pub proof fn last_line_names_the_distribution(
    before: Seq<char>,
    line: Seq<char>,
    key: Seq<char>,
    value: Seq<char>,
)
    requires
        ends_line(before),
        !line.contains('\n'),
        assignment(line) == Some((key, value)),
    ensures
        key == "ID"@ ==> release_id(before + line.push('\n')) == lower(value),
        key == "NAME"@ ==> release_name(before + line.push('\n')) == value,
        key == "ID_LIKE"@ ==> release_id_like(before + line.push('\n')) == lower(value),
{
    let none = Seq::<char>::empty();
    lemma_inserted(before, line, none, key);
    assert(before + line.push('\n') + none =~= before + line.push('\n'));
    assert(lines(none).len() == 0) by {
        lines_add_up(none, none);
        assert(none + none =~= none);
    }
    assert(assigned(lines(none), key) is None);
}

/// The family is that of the identifiers: a name of a family makes the family, unless one of an
/// earlier family is there as well, and without a known name there is none.
pub proof fn names_make_the_family(identifiers: Seq<Seq<char>>, i: int)
    requires
        0 <= i < identifiers.len(),
    ensures
        identifiers[i] == "arch"@ || identifiers[i] == "manjaro"@ || identifiers[i]
            == "endeavouros"@ ==> family_of(identifiers) is Arch,
        identifiers[i] == "debian"@ || identifiers[i] == "ubuntu"@ || identifiers[i]
            == "linuxmint"@ || identifiers[i] == "pop"@ ==> family_of(identifiers) is Arch
            || family_of(identifiers) is Debian,
        identifiers[i] == "fedora"@ || identifiers[i] == "rhel"@ || identifiers[i] == "centos"@
            || identifiers[i] == "rocky"@ || identifiers[i] == "almalinux"@ ==> !(family_of(
            identifiers,
        ) is Unsupported),
        family_of(identifiers) is Arch ==> exists|k: int|
            0 <= k < identifiers.len() && (#[trigger] identifiers[k] == "arch"@ || identifiers[k]
                == "manjaro"@ || identifiers[k] == "endeavouros"@),
        family_of(identifiers) is Debian ==> exists|k: int|
            0 <= k < identifiers.len() && (#[trigger] identifiers[k] == "debian"@ || identifiers[k]
                == "ubuntu"@ || identifiers[k] == "linuxmint"@ || identifiers[k] == "pop"@),
        family_of(identifiers) is Fedora ==> exists|k: int|
            0 <= k < identifiers.len() && (#[trigger] identifiers[k] == "fedora"@ || identifiers[k]
                == "rhel"@ || identifiers[k] == "centos"@ || identifiers[k] == "rocky"@
                || identifiers[k] == "almalinux"@),
{
    assert(arch_names()[0] == "arch"@ && arch_names()[1] == "manjaro"@ && arch_names()[2]
        == "endeavouros"@);
    assert(debian_names()[0] == "debian"@ && debian_names()[1] == "ubuntu"@ && debian_names()[2]
        == "linuxmint"@ && debian_names()[3] == "pop"@);
    assert(fedora_names()[0] == "fedora"@ && fedora_names()[1] == "rhel"@ && fedora_names()[2]
        == "centos"@ && fedora_names()[3] == "rocky"@ && fedora_names()[4] == "almalinux"@);
    if family_of(identifiers) is Arch {
        let k = choose|k: int|
            0 <= k < identifiers.len() && arch_names().contains(#[trigger] identifiers[k]);
        let n = choose|n: int| 0 <= n < 3 && arch_names()[n] == identifiers[k];
    }
    if family_of(identifiers) is Debian {
        let k = choose|k: int|
            0 <= k < identifiers.len() && debian_names().contains(#[trigger] identifiers[k]);
        let n = choose|n: int| 0 <= n < 4 && debian_names()[n] == identifiers[k];
    }
    if family_of(identifiers) is Fedora {
        let k = choose|k: int|
            0 <= k < identifiers.len() && fedora_names().contains(#[trigger] identifiers[k]);
        let n = choose|n: int| 0 <= n < 5 && fedora_names()[n] == identifiers[k];
    }
}

/// A family cleans its cache through its own tool, with privilege, and keeps its packages below
/// `/var/cache`.
pub proof fn family_cleans_through_its_tool(family: DistroFamily, bytes: u64, i: int)
    ensures
        package_item(family, bytes) is Some <==> package_tool(family) is Some,
        package_tool(family) is None <==> family is Unsupported,
        match (package_item(family, bytes), package_tool(family)) {
            (Some(item), Some(tool)) => item.estimated_bytes == bytes && match item.action {
                ActionView::Command(command) => command.program == tool && command.requires_root
                    && command.args.contains("clean"@),
                ActionView::CommandSequence(commands) => commands.len() > 0 && forall|k: int|
                    0 <= k < commands.len() ==> (#[trigger] commands[k]).program == tool
                        && commands[k].requires_root,
                _ => false,
            },
            _ => true,
        },
        0 <= i < cache_paths(family).len() ==> has_prefix(cache_paths(family)[i], "/var/cache/"@),
        cache_paths(family).len() > 0 <==> package_tool(family) is Some,
{
    assert(arch_commands().len() == 2);
    assert(seq!["clean"@].contains("clean"@)) by {
        assert(seq!["clean"@][0] == "clean"@);
    }
    assert(seq!["clean"@, "all"@].contains("clean"@)) by {
        assert(seq!["clean"@, "all"@][0] == "clean"@);
    }
    reveal_strlit("/var/cache/");
    reveal_strlit("/var/cache/pacman/pkg");
    reveal_strlit("/var/cache/apt/archives");
    reveal_strlit("/var/cache/dnf");
    reveal_strlit("/var/cache/libdnf5");
    let front = "/var/cache/"@;
    assert("/var/cache/pacman/pkg"@.take(11) =~= front);
    assert("/var/cache/apt/archives"@.take(11) =~= front);
    assert("/var/cache/dnf"@.take(11) =~= front);
    assert("/var/cache/libdnf5"@.take(11) =~= front);
}

/// The family is told by the identifier and by the relatives: every word of either counts.
pub proof fn relatives_tell_the_family(input: &str, distribution: Distribution, i: int)
    requires
        call_ensures(Distribution::parse_os_release, (input,), distribution),
    ensures
        distribution.id@ == release_id(input@),
        distribution.name@ == release_name(input@),
        ({
            let identifiers = words(release_id(input@)) + words(release_id_like(input@));
            &&& distribution.family == family_of(identifiers)
            &&& 0 <= i < words(release_id_like(input@)).len() && words(release_id_like(input@))[i]
                == "arch"@ ==> distribution.family is Arch
            &&& 0 <= i < words(release_id(input@)).len() && words(release_id(input@))[i] == "arch"@
                ==> distribution.family is Arch
        }),
{
    reveal_strlit(" ");
    assert(" "@ =~= seq![' ']);
    let own = words(release_id(input@));
    let like = words(release_id_like(input@));
    words_add_up(release_id(input@), " "@, release_id_like(input@));
    let identifiers = own + like;
    if 0 <= i < like.len() && like[i] == "arch"@ {
        assert(identifiers[own.len() + i] == "arch"@);
        names_make_the_family(identifiers, own.len() + i);
    }
    if 0 <= i < own.len() && own[i] == "arch"@ {
        assert(identifiers[i] == "arch"@);
        names_make_the_family(identifiers, i);
    }
}

/// A file that says nothing names nothing known, and the distribution is then not supported.
pub proof fn silent_file_is_unsupported(input: &str, distribution: Distribution)
    requires
        call_ensures(Distribution::parse_os_release, (input,), distribution),
        assigned(lines(input@), "ID"@) is None,
        assigned(lines(input@), "NAME"@) is None,
        assigned(lines(input@), "ID_LIKE"@) is None,
    ensures
        distribution.id@ == "unknown"@,
        distribution.name@ == "Unknown Linux"@,
        distribution.family is Unsupported,
{
    relatives_tell_the_family(input, distribution, 0);
    reveal_strlit("");
    reveal_strlit("unknown");
    white_space_holds_no_words(""@);
    assert(no_white("unknown"@));
    word_stands_alone("unknown"@);
    let identifiers = words("unknown"@) + words(""@);
    assert(identifiers =~= seq!["unknown"@]);
    reveal_strlit("arch");
    reveal_strlit("manjaro");
    reveal_strlit("endeavouros");
    reveal_strlit("debian");
    reveal_strlit("ubuntu");
    reveal_strlit("linuxmint");
    reveal_strlit("pop");
    reveal_strlit("fedora");
    reveal_strlit("rhel");
    reveal_strlit("centos");
    reveal_strlit("rocky");
    reveal_strlit("almalinux");
    assert("unknown"@.len() == 7 && "unknown"@[0] == 'u' && "manjaro"@[0] == 'm');
    names_make_the_family(identifiers, 0);
    assert(identifiers[0] == "unknown"@);
}

} // verus!
