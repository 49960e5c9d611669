//! What uninstalling an application would remove.
use vstd::prelude::*;
use vstd::string::*;

use crate::command::{lossy_text, text_from_bytes, CommandOutput};
use crate::model::CommandView;
use crate::number::{decimal, decimal_is_read_back, lemma_decimal_value, number_up_to, parse_u64};
use crate::size::{format_bytes, size_text};
use crate::text::{
    all_white, contains, ends_line, first_word_is_read, has_infix, has_prefix, is_digit, is_white,
    join, joined, kept, kept_in_order, kept_one_more, line_end_is_trimmed, lines, lines_add_up,
    lines_one_more, list3, list4, list6, no_white, occurs_at, only_white_space_is_trimmed_away,
    piece_stands_alone, pieces_add_up, split, split_lines, split_on, split_words, starts_with,
    strip_prefix, texts, trim, trimmed, without_return, words,
};
use crate::uninstall::{
    application_id, is_protected_package, is_valid_identifier, protected_package, valid_identifier,
    Application, ApplicationSource, ApplicationView, PreviewView, UninstallPreview,
};

verus! {

/// The application may be uninstalled: its package is a well-formed name, its id is the one
/// that its source and package give, and it is no protected native package.
pub open spec fn valid_application(application: ApplicationView) -> bool {
    &&& valid_identifier(application.package)
    &&& application.id == application_id(application.source, application.package)
    &&& application.source.flatpak() || !protected_package(application.package)
}

pub open spec fn refused_application_text(application: ApplicationView) -> Seq<char> {
    "unsafe or protected application identifier rejected: "@ + application.id
}

/// Whether the application may be uninstalled; the error says that it may not.
pub fn validate_application(application: &Application) -> (r: Result<(), String>)
    ensures
        match r {
            Ok(()) => valid_application(application@),
            Err(message) => !valid_application(application@) && message@
                == refused_application_text(application@),
        },
{
    let id = Application::new_id(application.source, application.package.as_str());
    if !is_valid_identifier(application.package.as_str()) || application.id != id || (
    !application.source.is_flatpak() && is_protected_package(application.package.as_str())) {
        return Err(
            "unsafe or protected application identifier rejected: ".to_owned().concat(
                application.id.as_str(),
            ),
        );
    }
    Ok(())
}

/// The command that uninstalls a package from its source.
pub open spec fn uninstall_command_view(
    source: ApplicationSource,
    package: Seq<char>,
) -> CommandView {
    match source {
        ApplicationSource::Pacman => CommandView {
            program: "pacman"@,
            args: seq!["-Rns"@, "--noconfirm"@, "--"@, package],
            requires_root: true,
        },
        ApplicationSource::Apt => CommandView {
            program: "apt-get"@,
            args: seq!["--yes"@, "remove"@, package],
            requires_root: true,
        },
        ApplicationSource::Dnf => CommandView {
            program: "dnf"@,
            args: seq!["--assumeyes"@, "remove"@, package],
            requires_root: true,
        },
        ApplicationSource::FlatpakUser => CommandView {
            program: "flatpak"@,
            args: seq!["uninstall"@, "--user"@, "-y"@, package],
            requires_root: false,
        },
        ApplicationSource::FlatpakSystem => CommandView {
            program: "flatpak"@,
            args: seq!["uninstall"@, "--system"@, "-y"@, package],
            requires_root: false,
        },
    }
}

pub fn uninstall_command(application: &Application) -> (r: (&'static str, Vec<String>, bool))
    ensures
        (CommandView { program: r.0@, args: texts(r.1@), requires_root: r.2 })
            == uninstall_command_view(application.source, application.package@),
{
    let package = application.package.as_str();
    match application.source {
        ApplicationSource::Pacman => (
            "pacman",
            list4("-Rns", "--noconfirm", "--", package),
            true,
        ),
        ApplicationSource::Apt => ("apt-get", list3("--yes", "remove", package), true),
        ApplicationSource::Dnf => ("dnf", list3("--assumeyes", "remove", package), true),
        ApplicationSource::FlatpakUser => (
            "flatpak",
            list4("uninstall", "--user", "-y", package),
            false,
        ),
        ApplicationSource::FlatpakSystem => (
            "flatpak",
            list4("uninstall", "--system", "-y", package),
            false,
        ),
    }
}

/// A command as it is shown to the user.
pub open spec fn command_text(command: CommandView) -> Seq<char> {
    (if command.requires_root {
        "sudo -- "@
    } else {
        ""@
    }) + command.program + " "@ + joined(command.args, " "@)
}

fn uninstall_command_display(application: &Application) -> (r: String)
    ensures
        r@ == command_text(uninstall_command_view(application.source, application.package@)),
{
    let (program, args, requires_root) = uninstall_command(application);
    let prefix = if requires_root {
        "sudo -- "
    } else {
        ""
    };
    prefix.to_owned().concat(program).concat(" ").concat(join(&args, " ").as_str())
}

/// The command that reports what uninstalling a native package would remove.
pub open spec fn preview_command_view(
    source: ApplicationSource,
    package: Seq<char>,
) -> CommandView {
    match source {
        ApplicationSource::Pacman => CommandView {
            program: "pacman"@,
            args: seq!["-Rs"@, "--print"@, "--print-format"@, "%n\t%v\t%s"@, "--"@, package],
            requires_root: false,
        },
        ApplicationSource::Apt => CommandView {
            program: "apt-get"@,
            args: seq!["--simulate"@, "remove"@, package],
            requires_root: false,
        },
        _ => CommandView {
            program: "dnf"@,
            args: seq!["--assumeno"@, "remove"@, package],
            requires_root: false,
        },
    }
}

pub(crate) fn preview_command(application: &Application) -> (r: (&'static str, Vec<String>))
    ensures
        (CommandView { program: r.0@, args: texts(r.1@), requires_root: false })
            == preview_command_view(application.source, application.package@),
{
    let package = application.package.as_str();
    match application.source {
        ApplicationSource::Pacman => (
            "pacman",
            list6("-Rs", "--print", "--print-format", "%n\t%v\t%s", "--", package),
        ),
        ApplicationSource::Apt => ("apt-get", list3("--simulate", "remove", package)),
        _ => ("dnf", list3("--assumeno", "remove", package)),
    }
}

/// Both streams of a command, the error stream behind the other where it says anything.
pub open spec fn combined_text(output: CommandOutput) -> Seq<char> {
    let out = lossy_text(output.stdout@);
    let err = lossy_text(output.stderr@);
    if trimmed(err).len() == 0 {
        out
    } else if out.len() > 0 && out.last() != '\n' {
        out.push('\n') + err
    } else {
        out + err
    }
}

fn combined_output(output: &CommandOutput) -> (r: String)
    ensures
        r@ == combined_text(*output),
{
    let mut text = text_from_bytes(output.stdout.as_slice());
    let err = text_from_bytes(output.stderr.as_slice());
    if trim(err.as_str()).as_str().unicode_len() > 0 {
        let length: usize = text.as_str().unicode_len();
        if length > 0 && text.as_str().get_char(length - 1) != '\n' {
            text.push('\n');
        }
        text.append(err.as_str());
    }
    text
}

/// What one line of a report says is removed.
pub open spec fn removal_of(source: ApplicationSource, line: Seq<char>) -> Option<Seq<char>> {
    match source {
        ApplicationSource::Pacman => {
            let fields = split(line, '\t');
            if trimmed(line).len() == 0 {
                None
            } else if fields.len() >= 3 {
                let size = match number_up_to(fields[2], u64::MAX as nat) {
                    Some(bytes) => size_text(bytes),
                    None => fields[2],
                };
                Some(fields[0] + " "@ + fields[1] + " ("@ + size + ")"@)
            } else {
                Some(trimmed(line))
            }
        },
        ApplicationSource::Apt => {
            if has_prefix(line, "Remv "@) {
                let found = words(line.skip("Remv "@.len() as int));
                if found.len() > 0 {
                    Some(found[0])
                } else {
                    None
                }
            } else {
                None
            }
        },
        ApplicationSource::Dnf => {
            let text = trimmed(line);
            if text.len() == 0 || has_prefix(text, "Dependencies resolved"@) || has_prefix(
                text,
                "Transaction Summary"@,
            ) || has_prefix(text, "Operation aborted"@) {
                None
            } else {
                Some(text)
            }
        },
        _ => None,
    }
}

/// What a report says is removed. Of the lines of DNF, the first eighty count.
pub open spec fn removals_of(source: ApplicationSource, raw: Seq<char>) -> Seq<Seq<char>> {
    let all = kept(lines(raw), |line: Seq<char>| removal_of(source, line));
    if source == ApplicationSource::Dnf && all.len() > 80 {
        all.take(80)
    } else {
        all
    }
}

fn pacman_removal(line: &str) -> (r: Option<String>)
    ensures
        match r {
            Some(text) => removal_of(ApplicationSource::Pacman, line@) == Some(text@),
            None => removal_of(ApplicationSource::Pacman, line@) is None,
        },
{
    let plain = trim(line);
    if plain.as_str().unicode_len() == 0 {
        return None;
    }
    let fields = split_on(line, '\t');
    proof {
        assert(texts(fields@).len() == fields@.len());
    }
    if fields.len() < 3 {
        return Some(plain);
    }
    proof {
        assert(texts(fields@)[0] == fields@[0]@);
        assert(texts(fields@)[1] == fields@[1]@);
        assert(texts(fields@)[2] == fields@[2]@);
    }
    let size = match parse_u64(fields[2].as_str()) {
        Some(bytes) => format_bytes(bytes),
        None => fields[2].clone(),
    };
    Some(
        fields[0].clone().concat(" ").concat(fields[1].as_str()).concat(" (").concat(
            size.as_str(),
        ).concat(")"),
    )
}

fn apt_removal(line: &str) -> (r: Option<String>)
    ensures
        match r {
            Some(text) => removal_of(ApplicationSource::Apt, line@) == Some(text@),
            None => removal_of(ApplicationSource::Apt, line@) is None,
        },
{
    match strip_prefix(line, "Remv ") {
        None => None,
        Some(rest) => {
            let found = split_words(rest.as_str());
            proof {
                assert(texts(found@).len() == found@.len());
            }
            if found.len() > 0 {
                proof {
                    assert(texts(found@)[0] == found@[0]@);
                }
                Some(found[0].clone())
            } else {
                None
            }
        },
    }
}

fn dnf_removal(line: &str) -> (r: Option<String>)
    ensures
        match r {
            Some(text) => removal_of(ApplicationSource::Dnf, line@) == Some(text@),
            None => removal_of(ApplicationSource::Dnf, line@) is None,
        },
{
    let text = trim(line);
    if text.as_str().unicode_len() == 0 || starts_with(text.as_str(), "Dependencies resolved")
        || starts_with(text.as_str(), "Transaction Summary") || starts_with(
        text.as_str(),
        "Operation aborted",
    ) {
        None
    } else {
        Some(text)
    }
}

/// What the report of a package manager says is removed.
pub fn parse_uninstall_removals(source: ApplicationSource, raw: &str) -> (r: Vec<String>)
    ensures
        texts(r@) == removals_of(source, raw@),
{
    let all = split_lines(raw);
    let ghost keep = |line: Seq<char>| removal_of(source, line);
    let mut out: Vec<String> = Vec::new();
    let mut i: usize = 0;
    while i < all.len()
        invariant
            i <= all@.len(),
            texts(all@) == lines(raw@),
            keep == (|line: Seq<char>| removal_of(source, line)),
            texts(out@) =~= kept(texts(all@).take(i as int), keep),
        decreases all.len() - i,
    {
        let line = all[i].as_str();
        let found = match source {
            ApplicationSource::Pacman => pacman_removal(line),
            ApplicationSource::Apt => apt_removal(line),
            ApplicationSource::Dnf => dnf_removal(line),
            _ => None,
        };
        proof {
            let taken = texts(all@).take(i + 1);
            assert(taken.drop_last() =~= texts(all@).take(i as int));
            assert(taken.last() == line@);
            assert(keep(line@) == removal_of(source, line@));
        }
        let ghost before = out@;
        match found {
            Some(text) => {
                out.push(text);
                proof {
                    assert(texts(out@) =~= texts(before).push(text@));
                }
            },
            None => {},
        }
        i = i + 1;
    }
    proof {
        assert(texts(all@).take(all@.len() as int) =~= texts(all@));
        assert(texts(out@).len() == out@.len());
    }
    if (match source {
        ApplicationSource::Dnf => true,
        _ => false,
    }) && out.len() > 80 {
        let ghost whole = out@;
        out.truncate(80);
        proof {
            assert(texts(out@) =~= texts(whole).take(80));
        }
    }
    out
}

/// The preview of an uninstall from Flatpak, which is not asked.
pub open spec fn flatpak_preview(application: ApplicationView) -> PreviewView {
    PreviewView {
        application_id: application.id,
        command: command_text(uninstall_command_view(application.source, application.package)),
        removals: seq![application.package + " ("@ + application.version + ")"@],
        raw: "Flatpak application data is preserved by default."@,
        preserves_user_data: true,
    }
}

pub(crate) fn preview_of_flatpak(application: &Application) -> (r: UninstallPreview)
    ensures
        r@ == flatpak_preview(application@),
{
    let removal = application.package.clone().concat(" (").concat(
        application.version.as_str(),
    ).concat(")");
    UninstallPreview {
        application_id: application.id.clone(),
        command: uninstall_command_display(application),
        removals: crate::text::list1(removal.as_str()),
        raw: "Flatpak application data is preserved by default.".to_owned(),
        preserves_user_data: true,
    }
}

/// The preview of an uninstall of a native package, from what its package manager replied.
/// DNF ends its report with a failure, so there the report only has to name the package.
pub open spec fn native_preview(
    application: ApplicationView,
    reply: Result<CommandOutput, String>,
) -> Result<PreviewView, Seq<char>> {
    match reply {
        Err(error) => Err("failed to preview "@ + application.id + ": "@ + error@),
        Ok(output) => {
            let raw = combined_text(output);
            let removals = removals_of(application.source, raw);
            if application.source != ApplicationSource::Dnf && !output.success {
                Err("preview command exited with "@ + output.status@ + ": "@ + trimmed(raw))
            } else if application.source == ApplicationSource::Dnf && !output.success
                && !has_infix(raw, application.package) {
                Err(
                    "DNF could not produce a removal plan for "@ + application.id + ": "@ + trimmed(
                        raw,
                    ),
                )
            } else if removals.len() == 0 {
                Err(
                    "the package manager returned an empty removal plan for "@ + application.id,
                )
            } else {
                Ok(
                    PreviewView {
                        application_id: application.id,
                        command: command_text(
                            uninstall_command_view(application.source, application.package),
                        ),
                        removals,
                        raw,
                        preserves_user_data: true,
                    },
                )
            }
        },
    }
}

pub open spec fn preview_result_view(result: Result<UninstallPreview, String>) -> Result<
    PreviewView,
    Seq<char>,
> {
    match result {
        Ok(preview) => Ok(preview@),
        Err(message) => Err(message@),
    }
}

/// The preview of an uninstall, from what the package manager replied.
pub fn preview_from_reply(application: &Application, reply: Result<CommandOutput, String>) -> (r:
    Result<UninstallPreview, String>)
    ensures
        preview_result_view(r) == native_preview(application@, reply),
{
    let output = match reply {
        Err(error) => {
            return Err(
                "failed to preview ".to_owned().concat(application.id.as_str()).concat(
                    ": ",
                ).concat(error.as_str()),
            );
        },
        Ok(output) => output,
    };
    let raw = combined_output(&output);
    let dnf = application.source == ApplicationSource::Dnf;
    if !dnf && !output.success {
        return Err(
            "preview command exited with ".to_owned().concat(output.status.as_str()).concat(
                ": ",
            ).concat(trim(raw.as_str()).as_str()),
        );
    }
    if dnf && !output.success && !contains(raw.as_str(), application.package.as_str()) {
        return Err(
            "DNF could not produce a removal plan for ".to_owned().concat(
                application.id.as_str(),
            ).concat(": ").concat(trim(raw.as_str()).as_str()),
        );
    }
    let removals = parse_uninstall_removals(application.source, raw.as_str());
    proof {
        assert(texts(removals@).len() == removals@.len());
    }
    if removals.len() == 0 {
        return Err(
            "the package manager returned an empty removal plan for ".to_owned().concat(
                application.id.as_str(),
            ),
        );
    }
    Ok(
        UninstallPreview {
            application_id: application.id.clone(),
            command: uninstall_command_display(application),
            removals,
            raw,
            preserves_user_data: true,
        },
    )
}

// ---------------------------------------------------------------------------------------
// Laws
// ---------------------------------------------------------------------------------------


/// The values come from the lines at these places, one behind the other.
pub open spec fn listed_at(all: Seq<Seq<char>>, places: Seq<int>, found: Seq<Seq<char>>) -> bool {
    &&& places.len() == found.len()
    &&& forall|k: int|
        0 <= k < places.len() ==> 0 <= (#[trigger] places[k]) < all.len() && found[k] == trimmed(
            all[places[k]],
        )
    &&& forall|k: int, l: int| 0 <= k < l < places.len() ==> places[k] < places[l]
}

/// DNF's report is shown line by line: every line that says anything, but for the three
/// headings, is listed as it stands without the white space around it, in its order, and none is
/// passed over before eighty are listed.
pub proof fn every_line_of_dnf_is_listed(raw: Seq<char>) -> (places: Seq<int>)
    ensures
        listed_at(lines(raw), places, removals_of(ApplicationSource::Dnf, raw)),
        removals_of(ApplicationSource::Dnf, raw).len() <= 80,
        forall|i: int|
            0 <= i < lines(raw).len() ==> {
                let text = trimmed(#[trigger] lines(raw)[i]);
                let says = text.len() > 0 && !has_prefix(text, "Dependencies resolved"@)
                    && !has_prefix(text, "Transaction Summary"@) && !has_prefix(
                    text,
                    "Operation aborted"@,
                );
                &&& places.contains(i) ==> says
                &&& says ==> places.contains(i) || (places.len() == 80 && places.last() < i)
            },
{
    let source = ApplicationSource::Dnf;
    let keep = |line: Seq<char>| removal_of(source, line);
    let all = lines(raw);
    let whole = kept_in_order(all, keep);
    let places = if whole.len() > 80 {
        whole.take(80)
    } else {
        whole
    };
    assert forall|i: int| 0 <= i < all.len() implies {
        let text = trimmed(#[trigger] all[i]);
        let says = text.len() > 0 && !has_prefix(text, "Dependencies resolved"@) && !has_prefix(
            text,
            "Transaction Summary"@,
        ) && !has_prefix(text, "Operation aborted"@);
        &&& places.contains(i) ==> says
        &&& says ==> places.contains(i) || (places.len() == 80 && places.last() < i)
    } by {
        if places.contains(i) {
            let k = choose|k: int| 0 <= k < places.len() && places[k] == i;
            assert(whole[k] == i);
        }
        if keep(all[i]) is Some {
            let k = choose|k: int| 0 <= k < whole.len() && whole[k] == i;
            if k < places.len() {
                assert(places[k] == i);
            } else {
                assert(whole[79] < whole[k]);
            }
        }
    }
    assert forall|k: int| 0 <= k < places.len() implies 0 <= (#[trigger] places[k]) < all.len()
        && removals_of(source, raw)[k] == trimmed(all[places[k]]) by {
        assert(whole[k] == places[k]);
    }
    places
}

/// One more line of a report of DNF is one more removal, unless it is blank, a heading, or
/// behind eighty others.
pub proof fn dnf_lists_one_more_line(raw: Seq<char>, line: Seq<char>)
    requires
        ends_line(raw),
        !line.contains('\n'),
    ensures
        ({
            let text = trimmed(line);
            let before = removals_of(ApplicationSource::Dnf, raw);
            let after = removals_of(ApplicationSource::Dnf, raw + line.push('\n'));
            if text.len() == 0 || has_prefix(text, "Dependencies resolved"@) || has_prefix(
                text,
                "Transaction Summary"@,
            ) || has_prefix(text, "Operation aborted"@) || before.len() >= 80 {
                after == before
            } else {
                after == before.push(text)
            }
        }),
{
    let source = ApplicationSource::Dnf;
    let keep = |line: Seq<char>| removal_of(source, line);
    lines_one_more(raw, line);
    line_end_is_trimmed(line);
    kept_one_more(lines(raw), without_return(line), keep);
    let before = kept(lines(raw), keep);
    let after = kept(lines(raw + line.push('\n')), keep);
    if before.len() >= 80 {
        assert(after.take(80) =~= before.take(80));
        assert(before.len() == 80 ==> before.take(80) =~= before);
    }
}

/// One more package in a report of Pacman is one more removal, with its version and its size.
pub proof fn pacman_lists_one_more_package(
    raw: Seq<char>,
    name: Seq<char>,
    version: Seq<char>,
    bytes: u64,
)
    requires
        ends_line(raw),
        !name.contains('\t') && !name.contains('\n'),
        !version.contains('\t') && !version.contains('\n'),
    ensures
        ({
            let line = name.push('\t') + version.push('\t') + decimal(bytes as nat);
            removals_of(ApplicationSource::Pacman, raw + line.push('\n')) == removals_of(
                ApplicationSource::Pacman,
                raw,
            ).push(name + " "@ + version + " ("@ + size_text(bytes as nat) + ")"@)
        }),
{
    let source = ApplicationSource::Pacman;
    let keep = |line: Seq<char>| removal_of(source, line);
    let digits = decimal(bytes as nat);
    let line = name.push('\t') + version.push('\t') + digits;
    lemma_decimal_value(bytes as nat);
    decimal_is_read_back(bytes);
    assert(is_digit(digits[digits.len() - 1]) && is_digit(digits[0]));
    assert(line.last() == digits[digits.len() - 1]);
    assert forall|i: int| 0 <= i < line.len() implies line[i] != '\n' by {
        if i < name.len() {
            assert(name.contains(name[i]));
        } else if name.len() < i < name.len() + 1 + version.len() {
            assert(version.contains(version[i - name.len() - 1]));
        } else if i >= name.len() + version.len() + 2 {
            assert(is_digit(digits[i - name.len() - version.len() - 2]));
        }
    }
    lines_one_more(raw, line);
    kept_one_more(lines(raw), line, keep);
    assert(!digits.contains('\t')) by {
        assert forall|i: int| 0 <= i < digits.len() implies digits[i] != '\t' by {
            assert(is_digit(digits[i]));
        }
    }
    pieces_add_up(name, '\t', version.push('\t') + digits);
    pieces_add_up(version, '\t', digits);
    piece_stands_alone(name, '\t');
    piece_stands_alone(version, '\t');
    piece_stands_alone(digits, '\t');
    assert(name.push('\t') + (version.push('\t') + digits) =~= line);
    assert(split(line, '\t') =~= seq![name, version, digits]);
    only_white_space_is_trimmed_away(line);
    assert(!is_white(line[line.len() - 1]));
}

/// A line of Pacman that is no table of name, version and size is listed as it stands, and a
/// blank one is not.
pub proof fn pacman_lists_other_lines(raw: Seq<char>, line: Seq<char>)
    requires
        ends_line(raw),
        !line.contains('\n'),
        split(without_return(line), '\t').len() < 3,
    ensures
        removals_of(ApplicationSource::Pacman, raw + line.push('\n')) == if trimmed(line).len()
            == 0 {
            removals_of(ApplicationSource::Pacman, raw)
        } else {
            removals_of(ApplicationSource::Pacman, raw).push(trimmed(line))
        },
{
    let source = ApplicationSource::Pacman;
    lines_one_more(raw, line);
    line_end_is_trimmed(line);
    kept_one_more(
        lines(raw),
        without_return(line),
        |line: Seq<char>| removal_of(source, line),
    );
}

/// One more package that APT announces to remove is one more removal; what else it says is not.
pub proof fn apt_lists_one_more_package(
    raw: Seq<char>,
    gap: Seq<char>,
    name: Seq<char>,
    rest: Seq<char>,
    other: Seq<char>,
)
    requires
        ends_line(raw),
        all_white(gap) && !gap.contains('\n'),
        name.len() > 0 && no_white(name),
        rest.len() > 0 ==> is_white(rest[0]),
        !rest.contains('\n') && !rest.contains('\r'),
        !other.contains('\n'),
        !has_prefix(without_return(other), "Remv "@),
    ensures
        removals_of(
            ApplicationSource::Apt,
            raw + ("Remv "@ + gap + name + rest).push('\n'),
        ) == removals_of(ApplicationSource::Apt, raw).push(name),
        removals_of(ApplicationSource::Apt, raw + other.push('\n')) == removals_of(
            ApplicationSource::Apt,
            raw,
        ),
{
    let source = ApplicationSource::Apt;
    let keep = |line: Seq<char>| removal_of(source, line);
    let front = "Remv "@;
    let line = front + gap + name + rest;
    reveal_strlit("Remv ");
    assert(front.len() == 5);
    assert forall|i: int| 0 <= i < line.len() implies line[i] != '\n' by {
        let j = i - 5 - gap.len();
        if i < 5 {
            assert(front[i] != '\n');
        } else if j < 0 {
            assert(gap.contains(gap[i - 5]));
        } else if j < name.len() {
            assert(!is_white(name[j]));
        } else {
            assert(rest.contains(rest[j - name.len()]));
        }
    }
    assert(line.last() != '\r') by {
        if rest.len() > 0 {
            assert(rest.contains(rest[rest.len() - 1]));
        } else {
            assert(!is_white(name[name.len() - 1]));
        }
    }
    lines_one_more(raw, line);
    kept_one_more(lines(raw), line, keep);
    assert(line.take(5) =~= front);
    assert(line.skip(5) =~= gap + name + rest);
    first_word_is_read(gap, name, rest);
    lines_one_more(raw, other);
    kept_one_more(lines(raw), without_return(other), keep);
}

/// A report that says nothing removes nothing, and Flatpak is not asked for one.
pub proof fn nothing_is_listed_of_nothing(source: ApplicationSource, raw: Seq<char>)
    ensures
        removals_of(source, Seq::empty()) == Seq::<Seq<char>>::empty(),
        source.flatpak() ==> removals_of(source, raw) == Seq::<Seq<char>>::empty(),
{
    let keep = |line: Seq<char>| removal_of(source, line);
    let none = Seq::<char>::empty();
    lines_add_up(none, none);
    assert(none + none =~= none);
    assert(lines(none).len() == 0);
    assert(kept(lines(none), keep) =~= Seq::empty());
    if source.flatpak() {
        let places = kept_in_order(lines(raw), keep);
        if places.len() > 0 {
            assert(keep(lines(raw)[places[0]]) is None);
        }
        assert(kept(lines(raw), keep) =~= Seq::empty());
    }
}

/// What was said on both streams is part of the preview: the output as it stands, and behind it
/// the errors where there are any.
pub proof fn both_streams_are_shown(output: CommandOutput)
    ensures
        ({
            let text = combined_text(output);
            let out = lossy_text(output.stdout@);
            let err = lossy_text(output.stderr@);
            &&& has_prefix(text, out)
            &&& all_white(err) ==> text == out
            &&& !all_white(err) ==> text.len() >= out.len() + err.len() && text.skip(
                text.len() - err.len(),
            ) == err && text.len() <= out.len() + 1 + err.len() && (out.len() > 0 ==> text[text.len()
                - err.len() - 1] == '\n')
        }),
{
    let text = combined_text(output);
    let out = lossy_text(output.stdout@);
    let err = lossy_text(output.stderr@);
    only_white_space_is_trimmed_away(err);
    assert(text.take(out.len() as int) =~= out);
    if !all_white(err) {
        assert(text.skip(text.len() - err.len()) =~= err);
    }
}

/// A native preview comes about only where the package manager answered, did not fail, or is DNF
/// and named the package, and listed something; it then shows what was listed, the whole answer
/// and the command that will be run, and keeps the data of the user.
pub proof fn preview_shows_the_plan(
    application: ApplicationView,
    reply: Result<CommandOutput, String>,
)
    ensures
        match (native_preview(application, reply), reply) {
            (Ok(preview), Ok(output)) => {
                &&& output.success || (application.source is Dnf && has_infix(
                    preview.raw,
                    application.package,
                ))
                &&& preview.application_id == application.id
                &&& preview.raw == combined_text(output)
                &&& preview.removals == removals_of(application.source, preview.raw)
                &&& preview.removals.len() > 0
                &&& preview.command == command_text(
                    uninstall_command_view(application.source, application.package),
                )
                &&& preview.preserves_user_data
            },
            (Ok(_), Err(_)) => false,
            (Err(_), Ok(output)) => !output.success || removals_of(
                application.source,
                combined_text(output),
            ).len() == 0,
            (Err(message), Err(error)) => message == "failed to preview "@ + application.id + ": "@
                + error@,
        },
{
}

/// Reading a report of DNF with one more line lists that line as well, behind all the others,
/// unless it is blank, a heading, or behind eighty others; and reading nothing lists nothing.
pub proof fn longer_report_lists_more(
    raw: &str,
    removals: Vec<String>,
    longer: &str,
    more: Vec<String>,
    line: Seq<char>,
)
    requires
        call_ensures(parse_uninstall_removals, (ApplicationSource::Dnf, raw), removals),
        call_ensures(parse_uninstall_removals, (ApplicationSource::Dnf, longer), more),
        ends_line(raw@),
        !line.contains('\n'),
        longer@ == raw@ + line.push('\n'),
    ensures
        ({
            let text = trimmed(line);
            if text.len() == 0 || has_prefix(text, "Dependencies resolved"@) || has_prefix(
                text,
                "Transaction Summary"@,
            ) || has_prefix(text, "Operation aborted"@) || removals@.len() >= 80 {
                texts(more@) == texts(removals@)
            } else {
                texts(more@) == texts(removals@).push(text)
            }
        }),
        raw@.len() == 0 ==> removals@.len() == 0,
        more@.len() <= 80,
{
    assert(texts(removals@).len() == removals@.len());
    assert(texts(more@).len() == more@.len());
    dnf_lists_one_more_line(raw@, line);
    let places = every_line_of_dnf_is_listed(longer@);
    if raw@.len() == 0 {
        assert(raw@ =~= Seq::empty());
        nothing_is_listed_of_nothing(ApplicationSource::Dnf, raw@);
    }
}

/// A Flatpak application is previewed without asking anyone: what goes is the package, with its
/// version, and nothing of the user's data.
pub proof fn flatpak_preview_names_the_package(application: ApplicationView)
    ensures
        ({
            let preview = flatpak_preview(application);
            &&& preview.removals.len() == 1
            &&& has_prefix(preview.removals[0], application.package)
            &&& has_infix(preview.removals[0], application.version)
            &&& preview.application_id == application.id
            &&& preview.preserves_user_data
            &&& preview.command == command_text(
                uninstall_command_view(application.source, application.package),
            )
        }),
{
    let text = flatpak_preview(application).removals[0];
    let at = (application.package + " ("@).len() as int;
    assert(text.take(application.package.len() as int) =~= application.package);
    assert(text.subrange(at, at + application.version.len()) =~= application.version);
    assert(occurs_at(text, application.version, at));
}

/// The packages without which a system does not start, log in or install anything are never
/// uninstalled through a native package manager.
pub proof fn core_packages_are_never_uninstalled(application: ApplicationView)
    requires
        !application.source.flatpak(),
        application.package == "systemd"@ || application.package == "linux"@ || application.package
            == "linux-lts"@ || application.package == "kernel"@ || application.package == "glibc"@
            || application.package == "libc6"@ || application.package == "base"@
            || application.package == "filesystem"@ || application.package == "bash"@
            || application.package == "coreutils"@ || application.package == "sudo"@
            || application.package == "dbus"@ || application.package == "grub"@
            || application.package == "pacman"@ || application.package == "apt"@
            || application.package == "dpkg"@ || application.package == "dnf"@
            || application.package == "rpm"@ || application.package == "networkmanager"@
            || application.package == "NetworkManager"@ || application.package
            == "network-manager"@,
    ensures
        !valid_application(application),
{
}

/// A size that is no number is shown as Pacman wrote it.
pub proof fn pacman_sizes_without_a_number_stay(
    raw: Seq<char>,
    name: Seq<char>,
    version: Seq<char>,
    size: Seq<char>,
)
    requires
        ends_line(raw),
        !name.contains('\t') && !name.contains('\n'),
        !version.contains('\t') && !version.contains('\n'),
        !size.contains('\t') && !size.contains('\n') && !size.contains('\r'),
        size.len() > 0 && !is_white(size.last()),
        number_up_to(size, u64::MAX as nat) is None,
    ensures
        removals_of(
            ApplicationSource::Pacman,
            raw + (name.push('\t') + version.push('\t') + size).push('\n'),
        ) == removals_of(ApplicationSource::Pacman, raw).push(
            name + " "@ + version + " ("@ + size + ")"@,
        ),
{
    let source = ApplicationSource::Pacman;
    let keep = |line: Seq<char>| removal_of(source, line);
    let line = name.push('\t') + version.push('\t') + size;
    assert(line.last() == size.last());
    assert(size.last() != '\r') by {
        assert(size.contains(size[size.len() - 1]));
    }
    assert forall|i: int| 0 <= i < line.len() implies line[i] != '\n' by {
        if i < name.len() {
            assert(name.contains(name[i]));
        } else if name.len() < i < name.len() + 1 + version.len() {
            assert(version.contains(version[i - name.len() - 1]));
        } else if i >= name.len() + version.len() + 2 {
            assert(size.contains(size[i - name.len() - version.len() - 2]));
        }
    }
    lines_one_more(raw, line);
    kept_one_more(lines(raw), line, keep);
    pieces_add_up(name, '\t', version.push('\t') + size);
    pieces_add_up(version, '\t', size);
    piece_stands_alone(name, '\t');
    piece_stands_alone(version, '\t');
    piece_stands_alone(size, '\t');
    assert(name.push('\t') + (version.push('\t') + size) =~= line);
    assert(split(line, '\t') =~= seq![name, version, size]);
    only_white_space_is_trimmed_away(line);
    assert(!is_white(line[line.len() - 1]));
}

/// As many removals are shown for DNF as its report has lines that say anything, but for the three
/// headings, and eighty where it has more.
pub proof fn dnf_removals_are_counted(raw: &str, removals: Vec<String>)
    requires
        call_ensures(parse_uninstall_removals, (ApplicationSource::Dnf, raw), removals),
    ensures
        ({
            let told = lines(raw@).filter(
                |line: Seq<char>|
                    {
                        let text = trimmed(line);
                        text.len() > 0 && !has_prefix(text, "Dependencies resolved"@)
                            && !has_prefix(text, "Transaction Summary"@) && !has_prefix(
                            text,
                            "Operation aborted"@,
                        )
                    },
            );
            &&& told.len() <= 80 ==> removals@.len() == told.len()
            &&& told.len() > 80 ==> removals@.len() == 80
            &&& forall|k: int|
                0 <= k < removals@.len() ==> (#[trigger] removals@[k])@ == trimmed(told[k])
        }),
{
    let says = |line: Seq<char>|
        {
            let text = trimmed(line);
            text.len() > 0 && !has_prefix(text, "Dependencies resolved"@) && !has_prefix(
                text,
                "Transaction Summary"@,
            ) && !has_prefix(text, "Operation aborted"@)
        };
    let keep = |line: Seq<char>| removal_of(ApplicationSource::Dnf, line);
    let told = lines(raw@).filter(says);
    lemma_told(lines(raw@), keep, says);
    assert(texts(removals@).len() == removals@.len());
    assert forall|k: int| 0 <= k < removals@.len() implies (#[trigger] removals@[k])@ == trimmed(
        told[k],
    ) by {
        assert(texts(removals@)[k] == removals@[k]@);
    }
}

proof fn lemma_told(
    all: Seq<Seq<char>>,
    keep: spec_fn(Seq<char>) -> Option<Seq<char>>,
    says: spec_fn(Seq<char>) -> bool,
)
    requires
        forall|line: Seq<char>|
            #[trigger] keep(line) == if says(line) {
                Some(trimmed(line))
            } else {
                None
            },
    ensures
        kept(all, keep).len() == all.filter(says).len(),
        forall|k: int|
            0 <= k < kept(all, keep).len() ==> #[trigger] kept(all, keep)[k] == trimmed(
                all.filter(says)[k],
            ),
    decreases all.len(),
{
    reveal(Seq::filter);
    if all.len() > 0 {
        lemma_told(all.drop_last(), keep, says);
        assert(keep(all.last()) is Some <==> says(all.last()));
    }
}

} // verus!
