//! Installed applications and the names that package managers may be given.
use vstd::prelude::*;
use vstd::string::*;

use crate::number::{all_digits, decimal, lemma_decimal_value};
use crate::text::{
    chars_of, copy_texts, first_mark_parts, has_prefix, is_ascii_alphanumeric, is_digit, is_white,
    no_white, same, texts,
};

verus! {

/// Where an application was installed from.
#[derive(Debug, Clone, Copy, PartialEq, Eq, Structural)]
pub enum ApplicationSource {
    Pacman,
    Apt,
    Dnf,
    FlatpakUser,
    FlatpakSystem,
}

pub open spec fn source_name(source: ApplicationSource) -> Seq<char> {
    match source {
        ApplicationSource::Pacman => "pacman"@,
        ApplicationSource::Apt => "apt"@,
        ApplicationSource::Dnf => "dnf"@,
        ApplicationSource::FlatpakUser => "flatpak-user"@,
        ApplicationSource::FlatpakSystem => "flatpak-system"@,
    }
}

impl ApplicationSource {
    pub open spec fn flatpak(self) -> bool {
        self == ApplicationSource::FlatpakUser || self == ApplicationSource::FlatpakSystem
    }

    /// Whether the application comes from Flatpak, in either scope.
    pub fn is_flatpak(self) -> (r: bool)
        ensures
            r == self.flatpak(),
    {
        match self {
            ApplicationSource::FlatpakUser | ApplicationSource::FlatpakSystem => true,
            _ => false,
        }
    }

    pub fn name(self) -> (r: &'static str)
        ensures
            r@ == source_name(self),
    {
        match self {
            ApplicationSource::Pacman => "pacman",
            ApplicationSource::Apt => "apt",
            ApplicationSource::Dnf => "dnf",
            ApplicationSource::FlatpakUser => "flatpak-user",
            ApplicationSource::FlatpakSystem => "flatpak-system",
        }
    }
}

/// An application that can be uninstalled. The paths and bytes of its user data are shown;
/// an uninstall keeps them.
#[derive(Debug, PartialEq, Eq)]
pub struct Application {
    pub id: String,
    pub name: String,
    pub package: String,
    pub version: String,
    pub source: ApplicationSource,
    pub installed_bytes: u64,
    pub user_data_bytes: u64,
    pub desktop_file: Option<String>,
    pub user_data_paths: Vec<String>,
}

/// The applications of a system.
#[derive(Debug, PartialEq, Eq)]
pub struct ApplicationReport {
    pub distribution: String,
    pub applications: Vec<Application>,
    pub warnings: Vec<String>,
}

/// What uninstalling an application would do.
#[derive(Debug, PartialEq, Eq)]
pub struct UninstallPreview {
    pub application_id: String,
    pub command: String,
    pub removals: Vec<String>,
    pub raw: String,
    pub preserves_user_data: bool,
}

pub struct ApplicationView {
    pub id: Seq<char>,
    pub name: Seq<char>,
    pub package: Seq<char>,
    pub version: Seq<char>,
    pub source: ApplicationSource,
    pub installed_bytes: u64,
    pub user_data_bytes: u64,
    pub desktop_file: Option<Seq<char>>,
    pub user_data_paths: Seq<Seq<char>>,
}

pub struct PreviewView {
    pub application_id: Seq<char>,
    pub command: Seq<char>,
    pub removals: Seq<Seq<char>>,
    pub raw: Seq<char>,
    pub preserves_user_data: bool,
}

pub open spec fn optional_text(text: Option<String>) -> Option<Seq<char>> {
    match text {
        Some(text) => Some(text@),
        None => None,
    }
}

impl View for Application {
    type V = ApplicationView;

    open spec fn view(&self) -> ApplicationView {
        ApplicationView {
            id: self.id@,
            name: self.name@,
            package: self.package@,
            version: self.version@,
            source: self.source,
            installed_bytes: self.installed_bytes,
            user_data_bytes: self.user_data_bytes,
            desktop_file: optional_text(self.desktop_file),
            user_data_paths: texts(self.user_data_paths@),
        }
    }
}

impl View for UninstallPreview {
    type V = PreviewView;

    open spec fn view(&self) -> PreviewView {
        PreviewView {
            application_id: self.application_id@,
            command: self.command@,
            removals: texts(self.removals@),
            raw: self.raw@,
            preserves_user_data: self.preserves_user_data,
        }
    }
}

pub open spec fn application_views(applications: Seq<Application>) -> Seq<ApplicationView> {
    applications.map_values(|application: Application| application@)
}

pub open spec fn preview_views(previews: Seq<UninstallPreview>) -> Seq<PreviewView> {
    previews.map_values(|preview: UninstallPreview| preview@)
}

impl Clone for Application {
    fn clone(&self) -> (r: Self)
        ensures
            r@ == self@,
    {
        Application {
            id: self.id.clone(),
            name: self.name.clone(),
            package: self.package.clone(),
            version: self.version.clone(),
            source: self.source,
            installed_bytes: self.installed_bytes,
            user_data_bytes: self.user_data_bytes,
            desktop_file: match &self.desktop_file {
                Some(path) => Some(path.clone()),
                None => None,
            },
            user_data_paths: copy_texts(&self.user_data_paths),
        }
    }
}

/// The id by which an application is asked for: its source and its package.
pub open spec fn application_id(source: ApplicationSource, package: Seq<char>) -> Seq<char> {
    source_name(source) + ":"@ + package
}

impl Application {
    pub fn new_id(source: ApplicationSource, package: &str) -> (r: String)
        ensures
            r@ == application_id(source, package@),
    {
        source.name().to_owned().concat(":").concat(package)
    }
}

pub open spec fn is_identifier_char(c: char) -> bool {
    is_ascii_alphanumeric(c) || c == '.' || c == '_' || c == '+' || c == ':' || c == '@' || c == '-'
}

/// A name that can stand as one argument of a package manager: from a fixed set of
/// characters, not an option, and of bounded length.
pub open spec fn valid_identifier(name: Seq<char>) -> bool {
    &&& 0 < name.len() <= 255
    &&& name[0] != '-'
    &&& forall|i: int| 0 <= i < name.len() ==> is_identifier_char(#[trigger] name[i])
}

pub fn is_valid_identifier(value: &str) -> (r: bool)
    ensures
        r == valid_identifier(value@),
{
    let chars = chars_of(value);
    if chars.len() == 0 || chars.len() > 255 || chars[0] == '-' {
        return false;
    }
    let mut i: usize = 0;
    while i < chars.len()
        invariant
            i <= chars@.len(),
            chars@ == value@,
            forall|j: int| 0 <= j < i ==> is_identifier_char(#[trigger] value@[j]),
        decreases chars.len() - i,
    {
        let c = chars[i];
        let letter = ('a' <= c && c <= 'z') || ('A' <= c && c <= 'Z') || ('0' <= c && c <= '9');
        if !(letter || c == '.' || c == '_' || c == '+' || c == ':' || c == '@' || c == '-') {
            proof {
                assert(!is_identifier_char(value@[i as int]));
            }
            return false;
        }
        i = i + 1;
    }
    true
}

/// A revision of a snap: decimal digits.
pub open spec fn valid_snap_revision(revision: Seq<char>) -> bool {
    &&& revision.len() > 0
    &&& forall|i: int| 0 <= i < revision.len() ==> is_digit(#[trigger] revision[i])
}

pub fn is_valid_snap_revision(value: &str) -> (r: bool)
    ensures
        r == valid_snap_revision(value@),
{
    let chars = chars_of(value);
    let mut i: usize = 0;
    while i < chars.len()
        invariant
            i <= chars@.len(),
            chars@ == value@,
            forall|j: int| 0 <= j < i ==> is_digit(#[trigger] value@[j]),
        decreases chars.len() - i,
    {
        let c = chars[i];
        if !('0' <= c && c <= '9') {
            proof {
                assert(!is_digit(value@[i as int]));
            }
            return false;
        }
        i = i + 1;
    }
    chars.len() > 0
}

/// The packages without which a system does not start, log in or install packages.
pub open spec fn protected_package(name: Seq<char>) -> bool {
    ||| name == "systemd"@
    ||| name == "linux"@
    ||| name == "linux-lts"@
    ||| name == "kernel"@
    ||| name == "glibc"@
    ||| name == "libc6"@
    ||| name == "base"@
    ||| name == "filesystem"@
    ||| name == "bash"@
    ||| name == "coreutils"@
    ||| name == "sudo"@
    ||| name == "dbus"@
    ||| name == "grub"@
    ||| name == "pacman"@
    ||| name == "apt"@
    ||| name == "dpkg"@
    ||| name == "dnf"@
    ||| name == "rpm"@
    ||| name == "networkmanager"@
    ||| name == "NetworkManager"@
    ||| name == "network-manager"@
}

pub fn is_protected_package(package: &str) -> (r: bool)
    ensures
        r == protected_package(package@),
{
    same(package, "systemd") || same(package, "linux") || same(package, "linux-lts") || same(
        package,
        "kernel",
    ) || same(package, "glibc") || same(package, "libc6") || same(package, "base") || same(
        package,
        "filesystem",
    ) || same(package, "bash") || same(package, "coreutils") || same(package, "sudo") || same(
        package,
        "dbus",
    ) || same(package, "grub") || same(package, "pacman") || same(package, "apt") || same(
        package,
        "dpkg",
    ) || same(package, "dnf") || same(package, "rpm") || same(package, "networkmanager") || same(
        package,
        "NetworkManager",
    ) || same(package, "network-manager")
}

// ---------------------------------------------------------------------------------------
// Laws
// ---------------------------------------------------------------------------------------


/// The id tells an application from every other: two ids are the same only where source and
/// package are.
pub proof fn application_ids_differ(
    source: ApplicationSource,
    package: Seq<char>,
    other_source: ApplicationSource,
    other_package: Seq<char>,
)
    requires
        application_id(source, package) == application_id(other_source, other_package),
    ensures
        source == other_source,
        package == other_package,
{
    lemma_source_has_no_mark(source);
    lemma_source_has_no_mark(other_source);
    reveal_strlit(":");
    let (a, b) = (source_name(source), source_name(other_source));
    assert(application_id(source, package) =~= a.push(':') + package);
    assert(application_id(other_source, other_package) =~= b.push(':') + other_package);
    first_mark_parts(a, ':', package);
    first_mark_parts(b, ':', other_package);
    lemma_sources_differ(source, other_source);
}

proof fn lemma_sources_differ(a: ApplicationSource, b: ApplicationSource)
    requires
        source_name(a) == source_name(b),
    ensures
        a == b,
{
    reveal_strlit("pacman");
    reveal_strlit("apt");
    reveal_strlit("dnf");
    reveal_strlit("flatpak-user");
    reveal_strlit("flatpak-system");
    assert("pacman"@.len() == 6 && "apt"@.len() == 3 && "dnf"@.len() == 3);
    assert("flatpak-user"@.len() == 12 && "flatpak-system"@.len() == 14);
    assert("apt"@[0] == 'a' && "dnf"@[0] == 'd');
}

proof fn lemma_source_has_no_mark(source: ApplicationSource)
    ensures
        !source_name(source).contains(':'),
{
    reveal_strlit("pacman");
    reveal_strlit("apt");
    reveal_strlit("dnf");
    reveal_strlit("flatpak-user");
    reveal_strlit("flatpak-system");
}

/// A name for a package manager is one argument: not empty, not an option, without white space,
/// separators of paths or anything that a shell would read, and not too long.
pub proof fn identifiers_are_one_argument(name: Seq<char>)
    requires
        valid_identifier(name),
    ensures
        0 < name.len() <= 255,
        name[0] != '-',
        no_white(name),
        forall|c: char|
            #[trigger] name.contains(c) ==> c != '/' && c != ';' && c != '$' && c != '`' && c != '|'
                && c != '&' && c != '<' && c != '>' && c != '*' && c != '?' && c != '(' && c != ')'
                && c != '\'' && c != '"' && c != '\\' && c != '=' && c != '~' && c != '#',
{
    assert forall|i: int| 0 <= i < name.len() implies !is_white(#[trigger] name[i]) by {
        assert(is_identifier_char(name[i]));
    }
    assert forall|c: char| #[trigger] name.contains(c) implies c != '/' && c != ';' && c != '$' && c
        != '`' && c != '|' && c != '&' && c != '<' && c != '>' && c != '*' && c != '?' && c != '('
        && c != ')' && c != '\'' && c != '"' && c != '\\' && c != '=' && c != '~' && c != '#' by {
        let i = choose|i: int| 0 <= i < name.len() && name[i] == c;
        assert(is_identifier_char(name[i]));
    }
}

/// Letters, digits and the marks of package names may stand in any order, as long as the name does
/// not start like an option.
pub proof fn package_names_are_identifiers(name: Seq<char>)
    requires
        0 < name.len() <= 255,
        name[0] != '-',
        forall|i: int|
            0 <= i < name.len() ==> ('a' <= #[trigger] name[i] && name[i] <= 'z') || ('A' <= name[i]
                && name[i] <= 'Z') || ('0' <= name[i] && name[i] <= '9') || name[i] == '.' || name[i]
                == '_' || name[i] == '+' || name[i] == ':' || name[i] == '@' || name[i] == '-',
    ensures
        valid_identifier(name),
{
}

/// A revision is a number in decimal, and nothing else is one.
pub proof fn revisions_are_numbers(n: nat, revision: Seq<char>)
    ensures
        valid_snap_revision(decimal(n)),
        valid_snap_revision(revision) <==> revision.len() > 0 && all_digits(revision),
        valid_snap_revision(revision) ==> no_white(revision),
{
    lemma_decimal_value(n);
    if valid_snap_revision(revision) {
        assert forall|i: int| 0 <= i < revision.len() implies !is_white(#[trigger] revision[i]) by {
            assert(is_digit(revision[i]));
        }
    }
}

/// A native package manager never removes itself.
pub proof fn package_managers_are_protected(source: ApplicationSource)
    requires
        !source.flatpak(),
    ensures
        protected_package(source_name(source)),
{
}

/// Applications come from Flatpak exactly where their source is one of its two scopes.
pub proof fn flatpak_has_two_scopes(source: ApplicationSource)
    ensures
        source.flatpak() <==> has_prefix(source_name(source), "flatpak-"@),
{
    reveal_strlit("pacman");
    reveal_strlit("apt");
    reveal_strlit("dnf");
    reveal_strlit("flatpak-user");
    reveal_strlit("flatpak-system");
    reveal_strlit("flatpak-");
    assert("flatpak-user"@.take(8) =~= "flatpak-"@);
    assert("flatpak-system"@.take(8) =~= "flatpak-"@);
}

} // verus!
