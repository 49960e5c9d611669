//! The catalog of installed applications: what desktop files and package managers say.
use vstd::prelude::*;
use vstd::string::*;

use crate::number::{decimal, decimal_holds_no_white};
use crate::size::{is_unit, parse_size, parsed_size, whole_sizes_are_exact};
use crate::text::{
    all_white, chars_of, ends_line, first_mark_parts, is_white, is_whitespace, line_end_is_trimmed,
    lines, lines_add_up, lines_one_more, no_white, piece_stands_alone, pieces_add_up, same, split,
    split_first, split_lines, split_on, split_once, texts, trim, trimmed, upper, without_return,
};
use crate::uninstall::{application_id, Application, ApplicationSource, ApplicationView};

verus! {

/// What a line says of `key`, where it has the form key, mark, value.
pub open spec fn line_field(line: Seq<char>, mark: char, key: Seq<char>) -> Option<Seq<char>> {
    match split_first(line, mark) {
        Some((name, value)) => if trimmed(name) == key {
            Some(trimmed(value))
        } else {
            None
        },
        None => None,
    }
}

/// What the first line that speaks of `key` says, from the `i`-th line on.
pub open spec fn field_from(all: Seq<Seq<char>>, mark: char, key: Seq<char>, i: int) -> Option<
    Seq<char>,
>
    decreases all.len() - i,
{
    if i < 0 || i >= all.len() {
        None
    } else {
        match line_field(all[i], mark, key) {
            Some(value) => Some(value),
            None => field_from(all, mark, key, i + 1),
        }
    }
}

pub open spec fn field_of(content: Seq<char>, mark: char, key: Seq<char>) -> Option<Seq<char>> {
    field_from(lines(content), mark, key, 0)
}

/// The value of the first field with this name.
pub fn field(content: &str, mark: char, key: &str) -> (r: Option<String>)
    ensures
        match r {
            Some(value) => field_of(content@, mark, key@) == Some(value@),
            None => field_of(content@, mark, key@) is None,
        },
{
    let all = split_lines(content);
    let mut i: usize = 0;
    while i < all.len()
        invariant
            i <= all@.len(),
            texts(all@) == lines(content@),
            field_of(content@, mark, key@) == field_from(texts(all@), mark, key@, i as int),
        decreases all.len() - i,
    {
        proof {
            assert(texts(all@)[i as int] == all@[i as int]@);
        }
        match split_once(all[i].as_str(), mark) {
            Some((name, value)) => {
                if same(trim(name.as_str()).as_str(), key) {
                    return Some(trim(value.as_str()));
                }
            },
            None => {},
        }
        i = i + 1;
    }
    proof {
        assert(texts(all@).len() == all@.len());
    }
    None
}

/// The desktop file describes an application that is shown in menus.
pub open spec fn is_visible_application(content: Seq<char>) -> bool {
    &&& field_of(content, '=', "Type"@) == Some("Application"@)
    &&& field_of(content, '=', "NoDisplay"@) != Some("true"@)
    &&& field_of(content, '=', "Hidden"@) != Some("true"@)
}

/// The name that a desktop file gives an application; `None` where it describes no application,
/// or one that is not shown.
pub open spec fn desktop_name_of(content: Seq<char>) -> Option<Seq<char>> {
    if is_visible_application(content) {
        field_of(content, '=', "Name"@)
    } else {
        None
    }
}

fn says(content: &str, key: &str, wanted: &str) -> (r: bool)
    ensures
        r == (field_of(content@, '=', key@) == Some(wanted@)),
{
    match field(content, '=', key) {
        Some(value) => same(value.as_str(), wanted),
        None => false,
    }
}

pub fn desktop_name(content: &str) -> (r: Option<String>)
    ensures
        match r {
            Some(name) => desktop_name_of(content@) == Some(name@),
            None => desktop_name_of(content@) is None,
        },
{
    if says(content, "Type", "Application") && !says(content, "NoDisplay", "true") && !says(
        content,
        "Hidden",
        "true",
    ) {
        field(content, '=', "Name")
    } else {
        None
    }
}

/// A size as package managers write it, with white space before its unit. What cannot be
/// understood counts nothing.
pub open spec fn package_size(text: Seq<char>) -> nat {
    match parsed_size(without_spaces(text)) {
        Ok(bytes) => bytes,
        Err(_) => 0,
    }
}

pub open spec fn without_spaces(text: Seq<char>) -> Seq<char> {
    text.filter(|c: char| !is_white(c))
}

fn drop_spaces(text: &str) -> (r: String)
    ensures
        r@ == without_spaces(text@),
{
    let mut out = String::new();
    let ghost keep = |c: char| !is_white(c);
    let chars = chars_of(text);
    let mut i: usize = 0;
    proof {
        reveal(Seq::filter);
    }
    while i < chars.len()
        invariant
            i <= chars@.len(),
            chars@ == text@,
            keep == (|c: char| !is_white(c)),
            out@ == text@.take(i as int).filter(keep),
        decreases chars.len() - i,
    {
        proof {
            reveal(Seq::filter);
            assert(text@.take(i + 1).drop_last() =~= text@.take(i as int));
        }
        if !is_whitespace(chars[i]) {
            out.push(chars[i]);
        }
        i = i + 1;
    }
    proof {
        assert(text@.take(text@.len() as int) =~= text@);
    }
    out
}

/// The package in a line such as `vlc: /usr/share/applications/vlc.desktop`.
pub open spec fn owner_of(report: Seq<char>) -> Option<Seq<char>> {
    match split_first(report, ':') {
        Some((package, _)) => Some(trimmed(package)),
        None => None,
    }
}

pub fn package_owner(report: &str) -> (r: Option<String>)
    ensures
        match r {
            Some(package) => owner_of(report@) == Some(package@),
            None => owner_of(report@) is None,
        },
{
    match split_once(report, ':') {
        Some((package, _)) => Some(trim(package.as_str())),
        None => None,
    }
}

/// The source that Flatpak calls an installation.
pub open spec fn flatpak_source(installation: Seq<char>) -> Option<ApplicationSource> {
    if installation == "user"@ {
        Some(ApplicationSource::FlatpakUser)
    } else if installation == "system"@ {
        Some(ApplicationSource::FlatpakSystem)
    } else {
        None
    }
}

/// The application that a line of Flatpak's list describes: its package, name, version, size and
/// installation, with tabs between them.
pub open spec fn flatpak_application_of(line: Seq<char>) -> Option<ApplicationView> {
    let fields = split(line, '\t');
    if fields.len() < 5 {
        None
    } else {
        match flatpak_source(fields[4]) {
            None => None,
            Some(source) => Some(
                ApplicationView {
                    id: application_id(source, fields[0]),
                    name: fields[1],
                    package: fields[0],
                    version: fields[2],
                    source,
                    installed_bytes: package_size(fields[3]) as u64,
                    user_data_bytes: 0,
                    desktop_file: None,
                    user_data_paths: seq![],
                },
            ),
        }
    }
}

fn read_package_size(text: &str) -> (r: u64)
    ensures
        r == package_size(text@),
{
    match parse_size(drop_spaces(text).as_str()) {
        Ok(bytes) => bytes,
        Err(_) => 0,
    }
}

pub fn flatpak_application(line: &str) -> (r: Option<Application>)
    ensures
        match r {
            Some(application) => flatpak_application_of(line@) == Some(application@),
            None => flatpak_application_of(line@) is None,
        },
{
    let fields = split_on(line, '\t');
    proof {
        assert(texts(fields@).len() == fields@.len());
    }
    if fields.len() < 5 {
        return None;
    }
    proof {
        assert(texts(fields@)[0] == fields@[0]@);
        assert(texts(fields@)[1] == fields@[1]@);
        assert(texts(fields@)[2] == fields@[2]@);
        assert(texts(fields@)[3] == fields@[3]@);
        assert(texts(fields@)[4] == fields@[4]@);
    }
    let source = if same(fields[4].as_str(), "user") {
        ApplicationSource::FlatpakUser
    } else if same(fields[4].as_str(), "system") {
        ApplicationSource::FlatpakSystem
    } else {
        return None;
    };
    let application = Application {
        id: Application::new_id(source, fields[0].as_str()),
        name: fields[1].clone(),
        package: fields[0].clone(),
        version: fields[2].clone(),
        source,
        installed_bytes: read_package_size(fields[3].as_str()),
        user_data_bytes: 0,
        desktop_file: None,
        user_data_paths: Vec::new(),
    };
    proof {
        assert(application@.user_data_paths =~= seq![]);
    }
    Some(application)
}

/// An application as its desktop file and the package manager's report describe it.
pub fn described(
    source: ApplicationSource,
    package: &str,
    name: &str,
    info: &str,
    desktop_file: &str,
) -> (r: Application)
    ensures
        r.id@ == application_id(source, package@),
        r.name@ == name@,
        r.package@ == package@,
        r.source == source,
        r.version@ == match field_of(info@, ':', "Version"@) {
            Some(version) => version,
            None => "unknown"@,
        },
        r.installed_bytes == match field_of(info@, ':', "Installed Size"@) {
            Some(size) => package_size(size),
            None => 0nat,
        },
        r.user_data_bytes == 0,
        r.user_data_paths@.len() == 0,
        r.desktop_file matches Some(path) && path@ == desktop_file@,
{
    let version = match field(info, ':', "Version") {
        Some(version) => version,
        None => "unknown".to_owned(),
    };
    let installed_bytes: u64 = match field(info, ':', "Installed Size") {
        Some(size) => read_package_size(size.as_str()),
        None => 0,
    };
    Application {
        id: Application::new_id(source, package),
        name: name.to_owned(),
        package: package.to_owned(),
        version,
        source,
        installed_bytes,
        user_data_bytes: 0,
        desktop_file: Some(desktop_file.to_owned()),
        user_data_paths: Vec::new(),
    }
}

// ---------------------------------------------------------------------------------------
// Laws
// ---------------------------------------------------------------------------------------


/// The first line that speaks of a key decides, whatever stands before and behind it; names and
/// values lose the white space around them.
pub proof fn first_field_counts(
    before: Seq<char>,
    name: Seq<char>,
    mark: char,
    value: Seq<char>,
    after: Seq<char>,
)
    requires
        ends_line(before),
        field_of(before, mark, trimmed(name)) is None,
        !name.contains(mark) && !name.contains('\n') && mark != '\n' && mark != '\r',
        !value.contains('\n'),
    ensures
        field_of(
            before + (name.push(mark) + value).push('\n') + after,
            mark,
            trimmed(name),
        ) == Some(trimmed(value)),
{
    let key = trimmed(name);
    let line = name.push(mark) + value;
    let content = before + line.push('\n') + after;
    assert(!line.contains('\n')) by {
        assert forall|i: int| 0 <= i < line.len() implies line[i] != '\n' by {
            if i < name.len() {
                assert(name.contains(name[i]));
            } else if i > name.len() {
                assert(value.contains(value[i - name.len() - 1]));
            }
        }
    }
    lines_one_more(before, line);
    lines_add_up(before + line.push('\n'), after);
    let all = lines(content);
    let at = lines(before).len() as int;
    let shown = without_return(line);
    assert(all[at] == shown);
    let rest = without_return(value);
    line_end_is_trimmed(value);
    assert(shown =~= name.push(mark) + rest);
    first_mark_parts(name, mark, rest);
    lemma_no_field(lines(before), all, mark, key, 0);
}

proof fn lemma_no_field(
    few: Seq<Seq<char>>,
    all: Seq<Seq<char>>,
    mark: char,
    key: Seq<char>,
    from: int,
)
    requires
        0 <= from <= few.len() <= all.len(),
        forall|i: int| 0 <= i < few.len() ==> few[i] == all[i],
        field_from(few, mark, key, from) is None,
    ensures
        field_from(all, mark, key, from) == field_from(all, mark, key, few.len() as int),
    decreases few.len() - from,
{
    if from < few.len() {
        lemma_no_field(few, all, mark, key, from + 1);
    }
}

/// A line that speaks of something else says nothing of a key.
pub proof fn other_lines_say_nothing(line: Seq<char>, mark: char, key: Seq<char>)
    ensures
        !line.contains(mark) ==> line_field(line, mark, key) is None,
        forall|name: Seq<char>, value: Seq<char>|
            !name.contains(mark) && trimmed(name) != key ==> #[trigger] line_field(
                name.push(mark) + value,
                mark,
                key,
            ) is None,
{
    if !line.contains(mark) {
        first_mark_parts(line, mark, Seq::empty());
    }
    assert forall|name: Seq<char>, value: Seq<char>|
        !name.contains(mark) && trimmed(name) != key implies #[trigger] line_field(
        name.push(mark) + value,
        mark,
        key,
    ) is None by {
        first_mark_parts(name, mark, value);
    }
}

/// An application is listed under the name in its desktop file, exactly where the file describes
/// an application that is shown.
pub proof fn hidden_applications_are_not_listed(content: Seq<char>)
    ensures
        field_of(content, '=', "Type"@) != Some("Application"@) ==> desktop_name_of(content)
            is None,
        field_of(content, '=', "NoDisplay"@) == Some("true"@) ==> desktop_name_of(content) is None,
        field_of(content, '=', "Hidden"@) == Some("true"@) ==> desktop_name_of(content) is None,
        field_of(content, '=', "Type"@) == Some("Application"@) && field_of(
            content,
            '=',
            "NoDisplay"@,
        ) is None && field_of(content, '=', "Hidden"@) is None ==> desktop_name_of(content)
            == field_of(content, '=', "Name"@),
{
}

/// The owner of a file is what stands before the first colon.
pub proof fn owner_stands_before_the_colon(package: Seq<char>, rest: Seq<char>)
    requires
        !package.contains(':'),
    ensures
        owner_of(package.push(':') + rest) == Some(trimmed(package)),
        owner_of(package) is None,
{
    first_mark_parts(package, ':', rest);
}

/// A size is read whatever white space stands between the number and its unit.
pub proof fn package_sizes_are_read(n: nat, gap: Seq<char>, suffix: Seq<char>, bytes: nat)
    requires
        is_unit(upper(suffix), bytes),
        all_white(gap),
        no_white(suffix),
        n * bytes <= 0x20_0000_0000_0000,
    ensures
        package_size(decimal(n) + gap + suffix) == n * bytes,
{
    let keep = |c: char| !is_white(c);
    let digits = decimal(n);
    decimal_holds_no_white(n);
    Seq::filter_distributes_over_add(digits + gap, suffix, keep);
    Seq::filter_distributes_over_add(digits, gap, keep);
    lemma_all_kept(digits);
    lemma_all_kept(suffix);
    lemma_none_kept(gap);
    assert(digits + Seq::<char>::empty() + suffix =~= digits + suffix);
    whole_sizes_are_exact(n, suffix, bytes);
}

proof fn lemma_all_kept(s: Seq<char>)
    requires
        no_white(s),
    ensures
        s.filter(|c: char| !is_white(c)) == s,
    decreases s.len(),
{
    reveal(Seq::filter);
    if s.len() > 0 {
        let before = s.drop_last();
        assert forall|i: int| 0 <= i < before.len() implies !is_white(#[trigger] before[i]) by {
            assert(before[i] == s[i]);
        }
        lemma_all_kept(before);
        assert(!is_white(s[s.len() - 1]));
        assert(before.push(s.last()) =~= s);
    } else {
        assert(s =~= Seq::empty());
    }
}

proof fn lemma_none_kept(s: Seq<char>)
    requires
        all_white(s),
    ensures
        s.filter(|c: char| !is_white(c)) == Seq::<char>::empty(),
    decreases s.len(),
{
    reveal(Seq::filter);
    if s.len() > 0 {
        let before = s.drop_last();
        assert forall|i: int| 0 <= i < before.len() implies is_white(#[trigger] before[i]) by {
            assert(before[i] == s[i]);
        }
        lemma_none_kept(before);
        assert(is_white(s[s.len() - 1]));
    }
}

/// A line of Flatpak's list is read field by field, between tabs: the package, the name, the
/// version, the size and the scope. What stands behind them does not count.
pub proof fn flatpak_line_is_read(
    package: Seq<char>,
    name: Seq<char>,
    version: Seq<char>,
    size: Seq<char>,
    scope: Seq<char>,
)
    requires
        !package.contains('\t') && !name.contains('\t') && !version.contains('\t'),
        !size.contains('\t') && !scope.contains('\t'),
    ensures
        match flatpak_application_of(
            package.push('\t') + (name.push('\t') + (version.push('\t') + (size.push('\t') + scope))),
        ) {
            Some(application) => {
                &&& application.package == package
                &&& application.name == name
                &&& application.version == version
                &&& application.installed_bytes == package_size(size) as u64
                &&& application.id == application_id(application.source, package)
                &&& application.source is FlatpakUser <==> scope == "user"@
                &&& application.source is FlatpakSystem <==> scope == "system"@
                &&& application.source.flatpak()
            },
            None => scope != "user"@ && scope != "system"@,
        },
{
    let e = size.push('\t') + scope;
    let d = version.push('\t') + e;
    let c = name.push('\t') + d;
    let line = package.push('\t') + c;
    pieces_add_up(package, '\t', c);
    pieces_add_up(name, '\t', d);
    pieces_add_up(version, '\t', e);
    pieces_add_up(size, '\t', scope);
    piece_stands_alone(package, '\t');
    piece_stands_alone(name, '\t');
    piece_stands_alone(version, '\t');
    piece_stands_alone(size, '\t');
    piece_stands_alone(scope, '\t');
    assert(split(line, '\t') =~= seq![package, name, version, size, scope]);
    reveal_strlit("user");
    reveal_strlit("system");
    assert("user"@.len() != "system"@.len());
}

/// A line with fewer than five fields describes no application.
pub proof fn short_lines_describe_nothing(line: Seq<char>)
    requires
        split(line, '\t').len() < 5,
    ensures
        flatpak_application_of(line) is None,
{
}

/// An application is described by what its package manager reports: its version stands under
/// `Version` and its size under `Installed Size`, and what is missing is unknown or nothing.
pub proof fn application_is_described(
    source: ApplicationSource,
    package: &str,
    name: &str,
    info: &str,
    desktop_file: &str,
    application: Application,
)
    requires
        call_ensures(described, (source, package, name, info, desktop_file), application),
    ensures
        application.id@ == application_id(source, package@),
        application.source == source,
        application.package@ == package@ && application.name@ == name@,
        field_of(info@, ':', "Version"@) matches Some(version) ==> application.version@ == version,
        field_of(info@, ':', "Installed Size"@) matches Some(size) ==> application.installed_bytes
            == package_size(size),
        field_of(info@, ':', "Installed Size"@) is None ==> application.installed_bytes == 0,
{
}

} // verus!
