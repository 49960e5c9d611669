//! The commands that a cleanup may run, and what comes back from them.
use vstd::prelude::*;
use vstd::string::*;
use vstd::utf8::{decode_utf8, valid_utf8};

use crate::model::CommandView;
use crate::models::{is_valid_ollama_model_name, valid_ollama_name};
use crate::number::{
    decimal, decimal_holds_no_white, decimal_is_read_back, lemma_decimal_value, number_up_to,
    numbers_are_digits, parse_u64,
};
use crate::recorder::{
    commands_of, continues, lemma_nothing_made, lemma_one_made, made, Call, Recorder,
};
use crate::text::{
    ends_line, has_prefix, is_digit, is_list1, is_list2, is_list3, is_white, join, joined, lines,
    lines_add_up, lines_one_more, no_white, same, split_lines, split_words, starts_with,
    strip_prefix, texts, trim, trimmed, word_stands_alone, words, words_add_up,
};
use crate::uninstall::{
    is_protected_package, is_valid_identifier, is_valid_snap_revision, protected_package,
    valid_identifier, valid_snap_revision,
};

verus! {

// ---------------------------------------------------------------------------------------
// What may be run
// ---------------------------------------------------------------------------------------

/// The commands without a variable part.
pub open spec fn fixed_command(program: Seq<char>, args: Seq<Seq<char>>, root: bool) -> bool {
    ||| program == "paccache"@ && args == seq!["-rk1"@] && root
    ||| program == "paccache"@ && args == seq!["-ruk0"@] && root
    ||| program == "apt-get"@ && args == seq!["clean"@] && root
    ||| program == "dnf"@ && args == seq!["clean"@, "all"@] && root
    ||| program == "journalctl"@ && args == seq!["--vacuum-size=200M"@] && root
    ||| program == "docker"@ && args == seq!["system"@, "prune"@, "-f"@] && !root
    ||| program == "flatpak"@ && args == seq!["uninstall"@, "--unused"@, "-y"@] && !root
    ||| program == "podman"@ && args == seq!["system"@, "prune"@, "-f"@]
}

/// A native package that may be removed.
pub open spec fn removable_package(name: Seq<char>) -> bool {
    valid_identifier(name) && !protected_package(name)
}

/// The commands that name what they remove.
pub open spec fn naming_command(program: Seq<char>, args: Seq<Seq<char>>, root: bool) -> bool {
    ||| {
        &&& program == "pacman"@ && root && args.len() == 4
        &&& args[0] == "-Rns"@ && args[1] == "--noconfirm"@ && args[2] == "--"@
        &&& removable_package(args[3])
    }
    ||| {
        &&& program == "apt-get"@ && root && args.len() == 3
        &&& args[0] == "--yes"@ && args[1] == "remove"@
        &&& removable_package(args[2])
    }
    ||| {
        &&& program == "dnf"@ && root && args.len() == 3
        &&& args[0] == "--assumeyes"@ && args[1] == "remove"@
        &&& removable_package(args[2])
    }
    ||| {
        &&& program == "flatpak"@ && !root && args.len() == 4
        &&& args[0] == "uninstall"@ && (args[1] == "--user"@ || args[1] == "--system"@)
        &&& args[2] == "-y"@
        &&& valid_identifier(args[3])
    }
    ||| {
        &&& program == "podman"@ && !root && args.len() == 5
        &&& args[0] == "--connection"@
        &&& valid_identifier(args[1])
        &&& args[2] == "system"@ && args[3] == "prune"@ && args[4] == "-f"@
    }
    ||| {
        &&& program == "ollama"@ && !root && args.len() == 2
        &&& args[0] == "rm"@
        &&& valid_ollama_name(args[1])
    }
    ||| {
        &&& program == "snap"@ && root && args.len() == 3
        &&& args[0] == "remove"@
        &&& has_prefix(args[1], "--revision="@) && valid_snap_revision(
            args[1].skip("--revision="@.len() as int),
        )
        &&& valid_identifier(args[2])
    }
}

/// The commands that a cleanup may run, each with its exact arguments and privilege.
pub open spec fn allowed_command(program: Seq<char>, args: Seq<Seq<char>>, root: bool) -> bool {
    fixed_command(program, args, root) || naming_command(program, args, root)
}

/// The commands that only report: what an uninstall would remove, and the Podman connections.
pub open spec fn reporting_command(program: Seq<char>, args: Seq<Seq<char>>, root: bool) -> bool {
    ||| {
        &&& program == "pacman"@ && !root && args.len() == 6
        &&& args[0] == "-Rs"@ && args[1] == "--print"@ && args[2] == "--print-format"@
        &&& args[3] == "%n\t%v\t%s"@ && args[4] == "--"@
        &&& removable_package(args[5])
    }
    ||| {
        &&& program == "apt-get"@ && !root && args.len() == 3
        &&& args[0] == "--simulate"@ && args[1] == "remove"@
        &&& removable_package(args[2])
    }
    ||| {
        &&& program == "dnf"@ && !root && args.len() == 3
        &&& args[0] == "--assumeno"@ && args[1] == "remove"@
        &&& removable_package(args[2])
    }
    ||| {
        &&& program == "podman"@ && !root
        &&& args == seq!["system"@, "connection"@, "list"@, "--format"@, "json"@]
    }
}

/// The commands that ever reach a runner.
pub open spec fn runnable_command(program: Seq<char>, args: Seq<Seq<char>>, root: bool) -> bool {
    allowed_command(program, args, root) || reporting_command(program, args, root)
}

fn is_fixed_command(program: &str, args: &[String], root: bool) -> (r: bool)
    ensures
        r == fixed_command(program@, texts(args@), root),
{
    (same(program, "paccache") && root && (is_list1(args, "-rk1") || is_list1(args, "-ruk0"))) || (
    same(program, "apt-get") && root && is_list1(args, "clean")) || (same(program, "dnf") && root
        && is_list2(args, "clean", "all")) || (same(program, "journalctl") && root && is_list1(
        args,
        "--vacuum-size=200M",
    )) || (same(program, "docker") && !root && is_list3(args, "system", "prune", "-f")) || (same(
        program,
        "flatpak",
    ) && !root && is_list3(args, "uninstall", "--unused", "-y")) || (same(program, "podman")
        && is_list3(args, "system", "prune", "-f"))
}

fn is_removable_package(name: &str) -> (r: bool)
    ensures
        r == removable_package(name@),
{
    is_valid_identifier(name) && !is_protected_package(name)
}

fn is_revision_flag(flag: &str) -> (r: bool)
    ensures
        r == (has_prefix(flag@, "--revision="@) && valid_snap_revision(
            flag@.skip("--revision="@.len() as int),
        )),
{
    match strip_prefix(flag, "--revision=") {
        Some(revision) => is_valid_snap_revision(revision.as_str()),
        None => false,
    }
}

fn is_naming_command(program: &str, args: &[String], root: bool) -> (r: bool)
    ensures
        r == naming_command(program@, texts(args@), root),
{
    let ghost views = texts(args@);
    proof {
        assert(views.len() == args@.len());
    }
    let pacman = same(program, "pacman") && root && args.len() == 4 && same(
        args[0].as_str(),
        "-Rns",
    ) && same(args[1].as_str(), "--noconfirm") && same(args[2].as_str(), "--")
        && is_removable_package(args[3].as_str());
    let apt = same(program, "apt-get") && root && args.len() == 3 && same(
        args[0].as_str(),
        "--yes",
    ) && same(args[1].as_str(), "remove") && is_removable_package(args[2].as_str());
    let dnf = same(program, "dnf") && root && args.len() == 3 && same(
        args[0].as_str(),
        "--assumeyes",
    ) && same(args[1].as_str(), "remove") && is_removable_package(args[2].as_str());
    let flatpak = same(program, "flatpak") && !root && args.len() == 4 && same(
        args[0].as_str(),
        "uninstall",
    ) && (same(args[1].as_str(), "--user") || same(args[1].as_str(), "--system")) && same(
        args[2].as_str(),
        "-y",
    ) && is_valid_identifier(args[3].as_str());
    let podman = same(program, "podman") && !root && args.len() == 5 && same(
        args[0].as_str(),
        "--connection",
    ) && is_valid_identifier(args[1].as_str()) && same(args[2].as_str(), "system") && same(
        args[3].as_str(),
        "prune",
    ) && same(args[4].as_str(), "-f");
    let ollama = same(program, "ollama") && !root && args.len() == 2 && same(args[0].as_str(), "rm")
        && is_valid_ollama_model_name(args[1].as_str());
    let snap = same(program, "snap") && root && args.len() == 3 && same(args[0].as_str(), "remove")
        && is_revision_flag(args[1].as_str()) && is_valid_identifier(args[2].as_str());
    pacman || apt || dnf || flatpak || podman || ollama || snap
}

/// Whether a cleanup may run the command: the program, every argument and the privilege count.
pub fn is_allowed_command(program: &str, args: &[String], requires_root: bool) -> (r: bool)
    ensures
        r == allowed_command(program@, texts(args@), requires_root),
{
    is_fixed_command(program, args, requires_root) || is_naming_command(
        program,
        args,
        requires_root,
    )
}

// ---------------------------------------------------------------------------------------
// Running
// ---------------------------------------------------------------------------------------

/// What a finished process left behind.
#[derive(Debug, PartialEq, Eq)]
pub struct CommandOutput {
    pub success: bool,
    /// The exit status in words.
    pub status: String,
    pub stdout: Vec<u8>,
    pub stderr: Vec<u8>,
}

/// What runs commands. A runner is only ever handed a command that may be run.
pub trait CommandRunner {
    /// The commands that this runner takes. A runner takes every command that may be run, unless
    /// it says otherwise; a function that asks for nothing but some commands to be taken can
    /// hand over no others.
    open spec fn accepts(&self, command: CommandView) -> bool {
        runnable_command(command.program, command.args, command.requires_root)
    }

    /// Runs the command to its end. The error says why it could not be started.
    fn run(&self, program: &str, args: &[String], requires_root: bool) -> (r: Result<
        CommandOutput,
        String,
    >)
        requires
            runnable_command(program@, texts(args@), requires_root),
            self.accepts(CommandView { program: program@, args: texts(args@), requires_root }),
    ;
}

/// The text that `bytes` stand for, with replacement characters for what is not UTF-8.
pub uninterp spec fn lossy_text(bytes: Seq<u8>) -> Seq<char>;

/// `String::from_utf8_lossy`: what is UTF-8 is decoded as it stands. How the replacement
/// characters fall in other input is left to its name.
#[verifier::external_body]
pub(crate) fn text_from_bytes(bytes: &[u8]) -> (r: String)
    ensures
        r@ == lossy_text(bytes@),
        valid_utf8(bytes@) ==> r@ == decode_utf8(bytes@),
{
    String::from_utf8_lossy(bytes).into_owned()
}

/// How a command ended: the reason is what it wrote to its error stream, or else its status.
pub open spec fn command_outcome(reply: Result<CommandOutput, String>) -> Result<(), Seq<char>> {
    match reply {
        Err(error) => Err(error@),
        Ok(output) => if output.success {
            Ok(())
        } else {
            let detail = trimmed(lossy_text(output.stderr@));
            if detail.len() == 0 {
                Err("command exited with "@ + output.status@)
            } else {
                Err(detail)
            }
        },
    }
}

pub open spec fn outcome_view(outcome: Result<(), String>) -> Result<(), Seq<char>> {
    match outcome {
        Ok(()) => Ok(()),
        Err(message) => Err(message@),
    }
}

/// How a command ended, from what came back.
pub fn outcome_of(reply: Result<CommandOutput, String>) -> (r: Result<(), String>)
    ensures
        outcome_view(r) == command_outcome(reply),
{
    match reply {
        Err(error) => Err(error),
        Ok(output) => {
            if output.success {
                return Ok(());
            }
            let stderr = text_from_bytes(output.stderr.as_slice());
            let detail = trim(stderr.as_str());
            if detail.as_str().unicode_len() == 0 {
                Err("command exited with ".to_owned().concat(output.status.as_str()))
            } else {
                Err(detail)
            }
        },
    }
}

pub open spec fn refused_command_text(program: Seq<char>, args: Seq<Seq<char>>) -> Seq<char> {
    "cleanup command is not allowed: "@ + program + " "@ + joined(args, " "@)
}

/// Whether a cleanup command is handed to the runner: it must be allowed, and this no dry run.
pub open spec fn is_run(command: CommandView, dry_run: bool) -> bool {
    allowed_command(command.program, command.args, command.requires_root) && !dry_run
}

/// The commands that are handed to the runner for one cleanup command: just that one, or none.
pub open spec fn commands_run(command: CommandView, dry_run: bool) -> Seq<CommandView> {
    if is_run(command, dry_run) {
        seq![command]
    } else {
        seq![]
    }
}

/// How a cleanup command ends, given the calls that were made for it: refused without being
/// run, not run in a dry run, and otherwise as the reply says.
pub open spec fn command_end(command: CommandView, dry_run: bool, calls: Seq<Call>) -> Result<
    (),
    Seq<char>,
> {
    if !allowed_command(command.program, command.args, command.requires_root) {
        Err(refused_command_text(command.program, command.args))
    } else if dry_run {
        Ok(())
    } else {
        command_outcome(calls[0].reply)
    }
}

/// Runs the command if it is allowed and this is no dry run.
pub fn execute_command<R: CommandRunner>(
    runner: &mut Recorder<R>,
    program: &str,
    args: &Vec<String>,
    requires_root: bool,
    dry_run: bool,
) -> (r: Result<(), String>)
    requires
        old(runner).accepts_all(
            commands_run(
                CommandView { program: program@, args: texts(args@), requires_root },
                dry_run,
            ),
        ),
    ensures
        final(runner).inner() == old(runner).inner(),
        continues(old(runner).calls(), final(runner).calls()),
        ({
            let command = CommandView { program: program@, args: texts(args@), requires_root };
            let calls = made(old(runner).calls(), final(runner).calls());
            commands_of(calls) == commands_run(command, dry_run) && outcome_view(r) == command_end(
                command,
                dry_run,
                calls,
            )
        }),
{
    let ghost command = CommandView { program: program@, args: texts(args@), requires_root };
    let ghost before = runner.calls();
    proof {
        lemma_nothing_made(before);
        assert(commands_of(Seq::empty()) =~= seq![]);
    }
    if !is_allowed_command(program, args.as_slice(), requires_root) {
        let mut message = "cleanup command is not allowed: ".to_owned();
        message.append(program);
        message.append(" ");
        message.append(join(args, " ").as_str());
        return Err(message);
    }
    if dry_run {
        return Ok(());
    }
    proof {
        assert(commands_run(command, dry_run)[0] == command);
    }
    let reply = runner.run(program, args.as_slice(), requires_root);
    proof {
        lemma_one_made(before, Call { command, reply });
        assert(commands_of(seq![Call { command, reply }]) =~= seq![command]);
    }
    outcome_of(reply)
}

// ---------------------------------------------------------------------------------------
// Privilege
// ---------------------------------------------------------------------------------------

/// The command line that gives a command its privilege: through `sudo` unless the process has
/// it already.
pub open spec fn privileged_line(
    program: Seq<char>,
    args: Seq<Seq<char>>,
    requires_root: bool,
    effective_root: bool,
) -> (Seq<char>, Seq<Seq<char>>) {
    if requires_root && !effective_root {
        ("sudo"@, seq!["--"@, program] + args)
    } else {
        (program, args)
    }
}

pub fn command_line(
    program: &str,
    args: &[String],
    requires_root: bool,
    effective_root: bool,
) -> (r: (String, Vec<String>))
    ensures
        (r.0@, texts(r.1@)) == privileged_line(
            program@,
            texts(args@),
            requires_root,
            effective_root,
        ),
{
    let mut out: Vec<String> = Vec::new();
    let sudo = requires_root && !effective_root;
    if sudo {
        out.push("--".to_owned());
        out.push(program.to_owned());
    }
    let ghost front = texts(out@);
    let mut i: usize = 0;
    while i < args.len()
        invariant
            i <= args@.len(),
            texts(out@) =~= front + texts(args@).take(i as int),
        decreases args.len() - i,
    {
        let ghost before = out@;
        out.push(args[i].clone());
        proof {
            assert(texts(out@) =~= texts(before).push(args@[i as int]@));
            assert(texts(args@).take(i + 1) =~= texts(args@).take(i as int).push(args@[i as int]@));
        }
        i = i + 1;
    }
    proof {
        assert(texts(args@).take(args@.len() as int) =~= texts(args@));
        if sudo {
            assert(front =~= seq!["--"@, program@]);
        } else {
            assert(front + texts(args@) =~= texts(args@));
        }
    }
    if sudo {
        ("sudo".to_owned(), out)
    } else {
        (program.to_owned(), out)
    }
}

/// The command line while the screens are shown: `sudo` must not ask for a password.
pub open spec fn silent_line(
    program: Seq<char>,
    args: Seq<Seq<char>>,
    requires_root: bool,
    effective_root: bool,
) -> (Seq<char>, Seq<Seq<char>>) {
    if requires_root && !effective_root {
        ("sudo"@, seq!["-n"@, "--"@, program] + args)
    } else {
        (program, args)
    }
}

pub fn silent_command_line(
    program: &str,
    args: &[String],
    requires_root: bool,
    effective_root: bool,
) -> (r: (String, Vec<String>))
    ensures
        (r.0@, texts(r.1@)) == silent_line(program@, texts(args@), requires_root, effective_root),
{
    let (first, mut rest) = command_line(program, args, requires_root, effective_root);
    if requires_root && !effective_root {
        let ghost before = texts(rest@);
        rest.insert(0, "-n".to_owned());
        proof {
            assert(texts(rest@) =~= seq!["-n"@] + before);
            assert(texts(rest@) =~= seq!["-n"@, "--"@, program@] + texts(args@));
        }
    }
    (first, rest)
}

/// The first line that names the user ids of a process, from line `i` on.
pub open spec fn user_id_line(all: Seq<Seq<char>>, i: int) -> Option<Seq<char>>
    decreases all.len() - i,
{
    if i < 0 || i >= all.len() {
        None
    } else if has_prefix(all[i], "Uid:"@) {
        Some(all[i])
    } else {
        user_id_line(all, i + 1)
    }
}

/// The process whose status file reads `status` has the effective user id zero.
pub open spec fn effective_root(status: Seq<char>) -> bool {
    match user_id_line(lines(status), 0) {
        Some(line) => words(line).len() > 2 && number_up_to(words(line)[2], u32::MAX as nat)
            == Some(0nat),
        None => false,
    }
}

pub fn is_effective_root(status: &str) -> (r: bool)
    ensures
        r == effective_root(status@),
{
    let all = split_lines(status);
    let mut i: usize = 0;
    proof {
        assert(texts(all@).len() == all@.len());
    }
    while i < all.len()
        invariant
            i <= all@.len(),
            all@.len() == lines(status@).len(),
            texts(all@) == lines(status@),
            user_id_line(lines(status@), 0) == user_id_line(lines(status@), i as int),
        decreases all.len() - i,
    {
        proof {
            assert(texts(all@)[i as int] == all@[i as int]@);
        }
        if starts_with(all[i].as_str(), "Uid:") {
            let fields = split_words(all[i].as_str());
            proof {
                assert(texts(fields@).len() == fields@.len());
            }
            if fields.len() <= 2 {
                return false;
            }
            proof {
                assert(texts(fields@)[2] == fields@[2]@);
            }
            return match parse_u64(fields[2].as_str()) {
                Some(id) => id == 0,
                None => false,
            };
        }
        i = i + 1;
    }
    false
}


// ---------------------------------------------------------------------------------------
// Laws
// ---------------------------------------------------------------------------------------

/// No cleanup of containers ever reaches volumes: no command that is allowed carries
/// `--volumes`.
pub proof fn volumes_are_never_pruned(program: Seq<char>, args: Seq<Seq<char>>, root: bool)
    requires
        allowed_command(program, args, root),
    ensures
        !args.contains("--volumes"@),
{
    reveal_strlit("--volumes");
    reveal_strlit("-rk1");
    reveal_strlit("-ruk0");
    reveal_strlit("clean");
    reveal_strlit("all");
    reveal_strlit("--vacuum-size=200M");
    reveal_strlit("system");
    reveal_strlit("prune");
    reveal_strlit("-f");
    reveal_strlit("uninstall");
    reveal_strlit("--unused");
    reveal_strlit("-y");
    reveal_strlit("-Rns");
    reveal_strlit("--noconfirm");
    reveal_strlit("--");
    reveal_strlit("--yes");
    reveal_strlit("remove");
    reveal_strlit("--assumeyes");
    reveal_strlit("--user");
    reveal_strlit("--system");
    reveal_strlit("--connection");
    reveal_strlit("rm");
    reveal_strlit("--revision=");
    let volumes = "--volumes"@;
    assert(volumes.len() == 9 && volumes[0] == '-' && volumes[2] == 'v' && volumes[3] == 'o');
    assert forall|i: int| 0 <= i < args.len() implies args[i] != volumes by {
        if args[i] == volumes {
            assert(args[i].len() == 9);
            assert(args[i][0] == '-');
            assert(args[i][2] == 'v');
            if program == "snap"@ && args.len() == 3 && i == 1 && has_prefix(
                args[1],
                "--revision="@,
            ) {
                assert("--revision="@.len() == 11);
            }
        }
    }
}

/// Docker, Flatpak and Ollama are never run with the privilege of root, and neither is a Podman
/// connection.
pub proof fn user_tools_run_without_root(program: Seq<char>, args: Seq<Seq<char>>, root: bool)
    requires
        allowed_command(program, args, root),
        program == "docker"@ || program == "flatpak"@ || program == "ollama"@ || (program
            == "podman"@ && args.len() == 5),
    ensures
        !root,
{
    reveal_strlit("docker");
    reveal_strlit("flatpak");
    reveal_strlit("ollama");
    reveal_strlit("podman");
    reveal_strlit("paccache");
    reveal_strlit("apt-get");
    reveal_strlit("dnf");
    reveal_strlit("journalctl");
    reveal_strlit("pacman");
    reveal_strlit("snap");
    assert("docker"@[0] == 'd' && "docker"@.len() == 6);
    assert("flatpak"@[0] == 'f');
    assert("ollama"@[0] == 'o');
    assert("podman"@[1] == 'o' && "podman"@.len() == 6);
    assert("pacman"@[1] == 'a');
    assert("paccache"@.len() == 8);
    assert("apt-get"@[0] == 'a');
    assert("dnf"@.len() == 3);
    assert("journalctl"@[0] == 'j');
    assert("snap"@.len() == 4);
}

/// A protected package is in no command that reaches a runner through a native package
/// manager, not even one that only reports.
pub proof fn protected_packages_stay(
    program: Seq<char>,
    args: Seq<Seq<char>>,
    root: bool,
    package: Seq<char>,
)
    requires
        runnable_command(program, args, root),
        args.len() > 1,
        args.last() == package,
        protected_package(package),
    ensures
        program == "flatpak"@ || program == "podman"@ || program == "ollama"@ || program
            == "snap"@ || program == "docker"@ || fixed_command(program, args, root),
{
}

/// A command succeeds exactly where it was started and ended well; otherwise something is said
/// about it: why it could not be started, what it complained about, or how it ended.
pub proof fn outcome_follows_the_reply(reply: Result<CommandOutput, String>)
    ensures
        command_outcome(reply) is Ok <==> (reply matches Ok(output) && output.success),
        reply matches Err(error) ==> command_outcome(reply) == Err::<(), Seq<char>>(error@),
        match (reply, command_outcome(reply)) {
            (Ok(output), Err(message)) => {
                let said = trimmed(lossy_text(output.stderr@));
                if said.len() > 0 {
                    message == said
                } else {
                    message.len() >= output.status@.len() && message.skip(
                        message.len() - output.status@.len(),
                    ) == output.status@
                }
            },
            _ => true,
        },
{
    if let Ok(output) = reply {
        let message = "command exited with "@ + output.status@;
        assert(message.skip(message.len() - output.status@.len()) =~= output.status@);
    }
}

/// Privilege goes through `sudo`, and only where it is needed and not there already: the command
/// itself stands unchanged behind the mark that ends the options of `sudo`. While screens are
/// shown, `sudo` is told not to ask.
pub proof fn privilege_goes_through_sudo(
    program: Seq<char>,
    args: Seq<Seq<char>>,
    requires_root: bool,
    effective_root: bool,
)
    ensures
        ({
            let (first, rest) = privileged_line(program, args, requires_root, effective_root);
            let (silent_first, silent_rest) = silent_line(
                program,
                args,
                requires_root,
                effective_root,
            );
            if requires_root && !effective_root {
                &&& first == "sudo"@ && silent_first == "sudo"@
                &&& rest.len() == args.len() + 2
                &&& rest[0] == "--"@ && rest[1] == program && rest.skip(2) == args
                &&& silent_rest == seq!["-n"@] + rest
            } else {
                &&& first == program && rest == args
                &&& silent_first == program && silent_rest == args
            }
        }),
{
    let (_, rest) = privileged_line(program, args, requires_root, effective_root);
    if requires_root && !effective_root {
        assert(rest.skip(2) =~= args);
        assert(seq!["-n"@, "--"@, program] + args =~= seq!["-n"@] + rest);
    }
}

/// The second number of the first line on user ids decides whether the process has privilege; the
/// first, of the user who started it, does not.
pub proof fn effective_user_decides(
    before: Seq<char>,
    starter: u64,
    effective: u64,
    rest: Seq<char>,
    after: Seq<char>,
)
    requires
        ends_line(before),
        forall|i: int|
            0 <= i < lines(before).len() ==> !has_prefix(#[trigger] lines(before)[i], "Uid:"@),
        effective <= u32::MAX,
        rest.len() > 0 ==> is_white(rest[0]),
        !rest.contains('\n') && !rest.contains('\r'),
    ensures
        effective_root(
            before + ("Uid:\t"@ + decimal(starter as nat) + "\t"@ + decimal(effective as nat)
                + rest).push('\n') + after,
        ) <==> effective == 0,
{
    let key = "Uid:"@;
    let tab = "\t"@;
    let (a, b) = (decimal(starter as nat), decimal(effective as nat));
    let line = "Uid:\t"@ + a + tab + b + rest;
    reveal_strlit("Uid:\t");
    reveal_strlit("Uid:");
    reveal_strlit("\t");
    assert("Uid:\t"@ =~= key + tab);
    decimal_holds_no_white(starter as nat);
    decimal_holds_no_white(effective as nat);
    decimal_is_read_back(effective);
    numbers_are_digits(b, u32::MAX as nat, u64::MAX as nat);
    assert(number_up_to(b, u32::MAX as nat) == Some(effective as nat)) by {
        lemma_decimal_value(effective as nat);
        assert(is_digit(b[0]));
    }
    assert forall|i: int| 0 <= i < line.len() implies line[i] != '\n' by {
        let j = i - 5;
        if 0 <= j < a.len() {
            assert(a.contains(a[j]));
        } else if j > a.len() && j - a.len() - 1 < b.len() {
            assert(b.contains(b[j - a.len() - 1]));
        } else if j - a.len() - 1 >= b.len() {
            assert(rest.contains(rest[j - a.len() - 1 - b.len()]));
        }
    }
    assert(line.last() != '\r') by {
        if rest.len() > 0 {
            assert(rest.contains(rest[rest.len() - 1]));
        } else {
            assert(!is_white(b[b.len() - 1]));
        }
    }
    lines_one_more(before, line);
    lines_add_up(before + line.push('\n'), after);
    let all = lines(before + line.push('\n') + after);
    let at = lines(before).len() as int;
    assert(all[at] == line);
    assert(line.take(key.len() as int) =~= key);
    assert forall|i: int| 0 <= i < at implies !has_prefix(#[trigger] all[i], key) by {
        assert(all[i] == lines(before)[i]);
    }
    lemma_user_id_line(all, at, 0);
    assert(no_white(key));
    word_stands_alone(key);
    word_stands_alone(a);
    word_stands_alone(b);
    let last = b + rest;
    if rest.len() > 0 {
        let mark = seq![rest[0]];
        words_add_up(b, mark, rest.skip(1));
        assert(b + mark + rest.skip(1) =~= last);
    } else {
        assert(last =~= b);
    }
    words_add_up(a, tab, last);
    words_add_up(key, tab, a + tab + last);
    assert(key + tab + (a + tab + last) =~= line);
}

proof fn lemma_user_id_line(all: Seq<Seq<char>>, at: int, from: int)
    requires
        0 <= from <= at < all.len(),
        has_prefix(all[at], "Uid:"@),
        forall|i: int| 0 <= i < at ==> !has_prefix(#[trigger] all[i], "Uid:"@),
    ensures
        user_id_line(all, from) == Some(all[at]),
    decreases at - from,
{
    if from < at {
        lemma_user_id_line(all, at, from + 1);
    }
}

} // verus!
