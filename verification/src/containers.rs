//! What Docker, Podman and Flatpak can give back.
use serde_json::Value;
use vstd::prelude::*;
use vstd::string::*;

use crate::command::{
    allowed_command, lossy_text, runnable_command, text_from_bytes, CommandOutput, CommandRunner,
};
use crate::model::{
    item_views, ActionView, CleanupAction, CleanupGroup, CleanupItem, CommandView, ItemView, Risk,
};
use crate::recorder::{
    commands_of, continues, lemma_nothing_made, lemma_one_made, made, Call, Recorder,
};
use crate::text::{has_prefix, is_in, kept, kept_in_order, list3, list5, texts};
use crate::uninstall::{is_valid_identifier, valid_identifier};

verus! {

pub open spec fn container_item(id: Seq<char>, label: Seq<char>, command: CommandView) -> ItemView {
    ItemView {
        id,
        group: CleanupGroup::Containers,
        label,
        estimated_bytes: 0,
        risk: Risk::Elevated,
        action: ActionView::Command(command),
    }
}

pub open spec fn docker_view() -> ItemView {
    container_item(
        "containers.docker"@,
        "Stopped containers, dangling images, networks, and build cache (never volumes)"@,
        CommandView {
            program: "docker"@,
            args: seq!["system"@, "prune"@, "-f"@],
            requires_root: false,
        },
    )
}

pub open spec fn flatpak_view() -> ItemView {
    container_item(
        "containers.flatpak"@,
        "Unused Flatpak runtimes"@,
        CommandView {
            program: "flatpak"@,
            args: seq!["uninstall"@, "--unused"@, "-y"@],
            requires_root: false,
        },
    )
}

pub open spec fn podman_rootless_view() -> ItemView {
    container_item(
        "containers.podman.rootless"@,
        "Podman (rootless): stopped containers, dangling images, networks, and build cache (never volumes)"@,
        CommandView {
            program: "podman"@,
            args: seq!["system"@, "prune"@, "-f"@],
            requires_root: false,
        },
    )
}

pub open spec fn podman_rootful_view() -> ItemView {
    container_item(
        "containers.podman.rootful"@,
        "Podman (root): stopped containers, dangling images, networks, and build cache (never volumes)"@,
        CommandView {
            program: "podman"@,
            args: seq!["system"@, "prune"@, "-f"@],
            requires_root: true,
        },
    )
}

pub open spec fn podman_connection_view(name: Seq<char>) -> ItemView {
    container_item(
        "containers.podman.connection."@ + name,
        "Podman connection \""@ + name
            + "\": stopped containers, dangling images, networks, and build cache (never volumes)"@,
        CommandView {
            program: "podman"@,
            args: seq!["--connection"@, name, "system"@, "prune"@, "-f"@],
            requires_root: false,
        },
    )
}

fn command_item(
    id: String,
    label: String,
    program: &str,
    args: Vec<String>,
    requires_root: bool,
) -> (r: CleanupItem)
    ensures
        r@ == container_item(
            id@,
            label@,
            CommandView { program: program@, args: texts(args@), requires_root },
        ),
{
    CleanupItem {
        id,
        group: CleanupGroup::Containers,
        label,
        estimated_bytes: 0,
        risk: Risk::Elevated,
        action: CleanupAction::Command { program: program.to_owned(), args, requires_root },
    }
}

pub fn docker_item() -> (r: CleanupItem)
    ensures
        r@ == docker_view(),
{
    command_item(
        "containers.docker".to_owned(),
        "Stopped containers, dangling images, networks, and build cache (never volumes)".to_owned(),
        "docker",
        list3("system", "prune", "-f"),
        false,
    )
}

pub fn flatpak_item() -> (r: CleanupItem)
    ensures
        r@ == flatpak_view(),
{
    command_item(
        "containers.flatpak".to_owned(),
        "Unused Flatpak runtimes".to_owned(),
        "flatpak",
        list3("uninstall", "--unused", "-y"),
        false,
    )
}

pub fn podman_rootless_item() -> (r: CleanupItem)
    ensures
        r@ == podman_rootless_view(),
{
    command_item(
        "containers.podman.rootless".to_owned(),
        "Podman (rootless): stopped containers, dangling images, networks, and build cache (never volumes)".to_owned(),
        "podman",
        list3("system", "prune", "-f"),
        false,
    )
}

pub fn podman_rootful_item() -> (r: CleanupItem)
    ensures
        r@ == podman_rootful_view(),
{
    command_item(
        "containers.podman.rootful".to_owned(),
        "Podman (root): stopped containers, dangling images, networks, and build cache (never volumes)".to_owned(),
        "podman",
        list3("system", "prune", "-f"),
        true,
    )
}

pub fn podman_connection_item(name: &str) -> (r: CleanupItem)
    ensures
        r@ == podman_connection_view(name@),
{
    command_item(
        "containers.podman.connection.".to_owned().concat(name),
        "Podman connection \"".to_owned().concat(name).concat(
            "\": stopped containers, dangling images, networks, and build cache (never volumes)",
        ),
        "podman",
        list5("--connection", name, "system", "prune", "-f"),
        false,
    )
}

// ---------------------------------------------------------------------------------------
// Podman connections
// ---------------------------------------------------------------------------------------

/// The members of the JSON array that a text holds, each written as JSON; `None` where the text
/// is no JSON array.
pub uninterp spec fn json_array(text: Seq<char>) -> Option<Seq<Seq<char>>>;

/// The text that a JSON object has under a key; `None` where the value is no object, the key
/// is not there, or what it leads to is no text.
pub uninterp spec fn json_text_field(value: Seq<char>, key: Seq<char>) -> Option<Seq<char>>;

/// `serde_json::from_str` into a list of values, each written out again with
/// `Value::to_string`. Which texts are arrays, and how the members read, is left to the name.
#[verifier::external_body]
fn parse_json_array(text: &str) -> (r: Option<Vec<String>>)
    ensures
        match r {
            Some(members) => json_array(text@) == Some(texts(members@)),
            None => json_array(text@) is None,
        },
{
    let values: Vec<Value> = serde_json::from_str(text).ok()?;
    Some(values.iter().map(Value::to_string).collect())
}

/// `serde_json::from_str` into a value, then `Value::get` and `Value::as_str`. What they find
/// is left to the name.
#[verifier::external_body]
fn read_text_field(value: &str, key: &str) -> (r: Option<String>)
    ensures
        match r {
            Some(text) => json_text_field(value@, key@) == Some(text@),
            None => json_text_field(value@, key@) is None,
        },
{
    let value: Value = serde_json::from_str(value).ok()?;
    value.get(key)?.as_str().map(str::to_owned)
}

/// The command that lists the Podman connections.
pub open spec fn connection_listing() -> CommandView {
    CommandView {
        program: "podman"@,
        args: seq!["system"@, "connection"@, "list"@, "--format"@, "json"@],
        requires_root: false,
    }
}

/// The name of a connection, where the entry has a well-formed one.
pub open spec fn connection_name(entry: Seq<char>) -> Option<Seq<char>> {
    match json_text_field(entry, "Name"@) {
        Some(name) => if valid_identifier(name) {
            Some(name)
        } else {
            None
        },
        None => None,
    }
}

/// The complaint about an entry without a well-formed name.
pub open spec fn connection_warning(entry: Seq<char>) -> Option<Seq<char>> {
    if connection_name(entry) is None {
        Some("skipped a malformed Podman connection entry while scanning: "@ + entry)
    } else {
        None
    }
}

/// The connections that a list of entries names, and the complaints about it.
pub open spec fn named_connections(entries: Option<Seq<Seq<char>>>) -> (
    Seq<Seq<char>>,
    Seq<Seq<char>>,
) {
    match entries {
        None => (
            seq![],
            seq![
                "failed to parse Podman connection list output; skipping connection-scoped cleanup items"@,
            ],
        ),
        Some(entries) => (
            kept(entries, |entry: Seq<char>| connection_name(entry)),
            kept(entries, |entry: Seq<char>| connection_warning(entry)),
        ),
    }
}

/// The connections that the listing names, and the complaints about it. A listing that failed
/// names none and is not complained about.
pub open spec fn listed_connections(reply: Result<CommandOutput, String>) -> (
    Seq<Seq<char>>,
    Seq<Seq<char>>,
) {
    match reply {
        Ok(output) => if output.success {
            named_connections(json_array(lossy_text(output.stdout@)))
        } else {
            (seq![], seq![])
        },
        Err(_) => (seq![], seq![]),
    }
}

pub open spec fn optional_texts(entries: Option<Vec<String>>) -> Option<Seq<Seq<char>>> {
    match entries {
        Some(entries) => Some(texts(entries@)),
        None => None,
    }
}

/// The connections that a list of entries names; the complaints are added to `warnings`.
pub fn connections_from_entries(entries: Option<Vec<String>>, warnings: &mut Vec<String>) -> (r:
    Vec<String>)
    ensures
        texts(r@) == named_connections(optional_texts(entries)).0,
        texts(final(warnings)@) == texts(old(warnings)@) + named_connections(
            optional_texts(entries),
        ).1,
{
    let mut names: Vec<String> = Vec::new();
    let ghost before = texts(warnings@);
    let list = match entries {
        None => {
            let message =
                "failed to parse Podman connection list output; skipping connection-scoped cleanup items";
            warnings.push(message.to_owned());
            proof {
                assert(texts(warnings@) =~= before + seq![message@]);
                assert(texts(names@) =~= seq![]);
            }
            return names;
        },
        Some(list) => list,
    };
    let ghost name = |entry: Seq<char>| connection_name(entry);
    let ghost complaint = |entry: Seq<char>| connection_warning(entry);
    let mut i: usize = 0;
    while i < list.len()
        invariant
            i <= list@.len(),
            name == (|entry: Seq<char>| connection_name(entry)),
            complaint == (|entry: Seq<char>| connection_warning(entry)),
            texts(names@) =~= kept(texts(list@).take(i as int), name),
            texts(warnings@) =~= before + kept(texts(list@).take(i as int), complaint),
        decreases list.len() - i,
    {
        let entry = list[i].as_str();
        let found = read_text_field(entry, "Name");
        proof {
            let taken = texts(list@).take(i + 1);
            assert(taken.drop_last() =~= texts(list@).take(i as int));
            assert(taken.last() == entry@);
            assert(name(entry@) == connection_name(entry@));
            assert(complaint(entry@) == connection_warning(entry@));
        }
        let ghost old_names = names@;
        let ghost old_warnings = warnings@;
        let valid = match &found {
            Some(text) => is_valid_identifier(text.as_str()),
            None => false,
        };
        match found {
            Some(text) if valid => {
                names.push(text);
                proof {
                    assert(texts(names@) =~= texts(old_names).push(text@));
                }
            },
            _ => {
                let warning =
                    "skipped a malformed Podman connection entry while scanning: ".to_owned().concat(
                    entry,
                );
                warnings.push(warning);
                proof {
                    assert(texts(warnings@) =~= texts(old_warnings).push(warning@));
                }
            },
        }
        i = i + 1;
    }
    proof {
        assert(texts(list@).take(list@.len() as int) =~= texts(list@));
    }
    names
}

/// The connections that the reply to the listing names.
pub fn connections_from_reply(
    reply: Result<CommandOutput, String>,
    warnings: &mut Vec<String>,
) -> (r: Vec<String>)
    ensures
        texts(r@) == listed_connections(reply).0,
        texts(final(warnings)@) == texts(old(warnings)@) + listed_connections(reply).1,
{
    let stdout = match reply {
        Ok(output) => {
            if output.success {
                Some(text_from_bytes(output.stdout.as_slice()))
            } else {
                None
            }
        },
        Err(_) => None,
    };
    match stdout {
        Some(stdout) => connections_from_entries(parse_json_array(stdout.as_str()), warnings),
        None => {
            let none: Vec<String> = Vec::new();
            proof {
                assert(texts(none@) =~= listed_connections(reply).0);
                assert(texts(warnings@) =~= texts(warnings@) + listed_connections(reply).1);
            }
            none
        },
    }
}

/// The names of the Podman connections, always asked for without privilege. A listing that
/// fails leaves the list empty.
pub fn discover_podman_connections<R: CommandRunner>(
    runner: &mut Recorder<R>,
    warnings: &mut Vec<String>,
) -> (r: Vec<String>)
    requires
        old(runner).inner().accepts(connection_listing()),
    ensures
        final(runner).inner() == old(runner).inner(),
        continues(old(runner).calls(), final(runner).calls()),
        ({
            let calls = made(old(runner).calls(), final(runner).calls());
            &&& commands_of(calls) == seq![connection_listing()]
            &&& texts(r@) == listed_connections(calls[0].reply).0
            &&& texts(final(warnings)@) == texts(old(warnings)@) + listed_connections(
                calls[0].reply,
            ).1
        }),
{
    let args = list5("system", "connection", "list", "--format", "json");
    proof {
        assert(runnable_command("podman"@, texts(args@), false));
    }
    let ghost before = runner.calls();
    let reply = runner.run("podman", args.as_slice(), false);
    proof {
        let call = Call { command: connection_listing(), reply };
        lemma_one_made(before, call);
        assert(commands_of(seq![call]) =~= seq![connection_listing()]);
    }
    connections_from_reply(reply, warnings)
}

// ---------------------------------------------------------------------------------------
// Scan
// ---------------------------------------------------------------------------------------

pub open spec fn connection_items(names: Seq<Seq<char>>) -> Seq<ItemView> {
    names.map_values(|name: Seq<char>| podman_connection_view(name))
}

/// What the installed tools can clean, given the names of the Podman connections.
pub open spec fn container_items(tools: Seq<Seq<char>>, connections: Seq<Seq<char>>) -> Seq<
    ItemView,
> {
    (if tools.contains("docker"@) {
        seq![docker_view()]
    } else {
        seq![]
    }) + (if tools.contains("podman"@) {
        seq![podman_rootless_view(), podman_rootful_view()] + connection_items(connections)
    } else {
        seq![]
    }) + (if tools.contains("flatpak"@) {
        seq![flatpak_view()]
    } else {
        seq![]
    })
}

/// The commands that are run to find out what can be cleaned: the listing of the Podman
/// connections, where Podman is installed.
pub open spec fn discovery_commands(tools: Seq<Seq<char>>) -> Seq<CommandView> {
    if tools.contains("podman"@) {
        seq![connection_listing()]
    } else {
        seq![]
    }
}

/// The connections and the complaints that the calls of a discovery give.
pub open spec fn discovered(tools: Seq<Seq<char>>, calls: Seq<Call>) -> (
    Seq<Seq<char>>,
    Seq<Seq<char>>,
) {
    if tools.contains("podman"@) {
        listed_connections(calls[0].reply)
    } else {
        (seq![], seq![])
    }
}

/// Adds what Docker, Podman and Flatpak can clean, each only where it is one of the installed
/// `tools`.
pub fn scan<R: CommandRunner>(
    runner: &mut Recorder<R>,
    tools: &Vec<String>,
    items: &mut Vec<CleanupItem>,
    warnings: &mut Vec<String>,
)
    requires
        old(runner).accepts_all(discovery_commands(texts(tools@))),
    ensures
        final(runner).inner() == old(runner).inner(),
        continues(old(runner).calls(), final(runner).calls()),
        ({
            let calls = made(old(runner).calls(), final(runner).calls());
            let found = discovered(texts(tools@), calls);
            &&& commands_of(calls) == discovery_commands(texts(tools@))
            &&& item_views(final(items)@) == item_views(old(items)@) + container_items(
                texts(tools@),
                found.0,
            )
            &&& texts(final(warnings)@) == texts(old(warnings)@) + found.1
        }),
{
    let ghost start = item_views(items@);
    let ghost complaints = texts(warnings@);
    proof {
        lemma_nothing_made(runner.calls());
        assert(commands_of(Seq::empty()) =~= seq![]);
        assert(complaints =~= complaints + Seq::<Seq<char>>::empty());
    }
    let docker = is_in(tools, "docker");
    let podman = is_in(tools, "podman");
    let flatpak = is_in(tools, "flatpak");
    let ghost first: Seq<ItemView> = if docker {
        seq![docker_view()]
    } else {
        seq![]
    };
    if docker {
        items.push(docker_item());
    }
    proof {
        assert(item_views(items@) =~= start + first);
    }
    let ghost mut middle: Seq<ItemView> = seq![];
    let ghost mut names: Seq<Seq<char>> = seq![];
    if podman {
        items.push(podman_rootless_item());
        items.push(podman_rootful_item());
        let ghost base = seq![podman_rootless_view(), podman_rootful_view()];
        proof {
            assert(item_views(items@) =~= start + first + base);
        }
        proof {
            assert(discovery_commands(texts(tools@))[0] == connection_listing());
        }
        let found = discover_podman_connections(runner, warnings);
        proof {
            names = texts(found@);
        }
        let mut i: usize = 0;
        while i < found.len()
            invariant
                i <= found@.len(),
                names == texts(found@),
                item_views(items@) =~= start + first + base + connection_items(
                    names.take(i as int),
                ),
            decreases found.len() - i,
        {
            let item = podman_connection_item(found[i].as_str());
            let ghost before = items@;
            items.push(item);
            proof {
                assert(item_views(items@) =~= item_views(before).push(item@));
                assert(connection_items(names.take(i + 1)) =~= connection_items(
                    names.take(i as int),
                ).push(podman_connection_view(found@[i as int]@)));
            }
            i = i + 1;
        }
        proof {
            assert(names.take(found@.len() as int) =~= names);
            middle = base + connection_items(names);
            assert(item_views(items@) =~= start + first + middle);
        }
    }
    proof {
        assert(item_views(items@) =~= start + first + middle);
    }
    let ghost so_far = items@;
    if flatpak {
        items.push(flatpak_item());
    }
    proof {
        let last: Seq<ItemView> = if flatpak {
            seq![flatpak_view()]
        } else {
            seq![]
        };
        assert(item_views(items@) =~= item_views(so_far) + last);
        assert(start + first + middle + last =~= start + (first + middle + last));
    }
}

// ---------------------------------------------------------------------------------------
// Laws
// ---------------------------------------------------------------------------------------

/// A discovery only asks: it runs one command at most, without privilege, and never one that a
/// cleanup may run.
pub proof fn discovery_only_asks(tools: Seq<Seq<char>>, calls: Seq<Call>)
    requires
        commands_of(calls) == discovery_commands(tools),
    ensures
        calls.len() <= 1,
        !tools.contains("podman"@) ==> calls.len() == 0,
        forall|i: int|
            0 <= i < calls.len() ==> !(#[trigger] calls[i]).command.requires_root
                && !allowed_command(
                calls[i].command.program,
                calls[i].command.args,
                calls[i].command.requires_root,
            ),
{
    assert(commands_of(calls).len() == calls.len());
    if calls.len() > 0 {
        let listing = connection_listing();
        assert(calls[0].command == commands_of(calls)[0]);
        reveal_strlit("podman");
        reveal_strlit("pacman");
        reveal_strlit("apt-get");
        reveal_strlit("dnf");
        reveal_strlit("docker");
        reveal_strlit("flatpak");
        reveal_strlit("ollama");
        reveal_strlit("paccache");
        reveal_strlit("journalctl");
        reveal_strlit("snap");
        reveal_strlit("system");
        reveal_strlit("--connection");
        assert("pacman"@.len() == 6 && "podman"@.len() == 6 && "docker"@.len() == 6);
        assert("pacman"@[1] == 'a' && "podman"@[1] == 'o' && "docker"@[0] == 'd');
        assert("podman"@[0] == 'p' && "ollama"@.len() == 6 && "ollama"@[0] == 'o');
        assert("system"@.len() == 6 && "--connection"@.len() == 12);
        assert(listing.args.len() == 5 && listing.args[0] == "system"@);
        assert(seq!["system"@, "prune"@, "-f"@].len() == 3);
    }
}

/// Every entry of a listing is either named or complained about, and none is both: a name is taken
/// as it stands where it is one argument, and a complaint shows the entry.
pub proof fn every_entry_is_named_or_complained_about(entries: Seq<Seq<char>>, i: int)
    requires
        0 <= i < entries.len(),
    ensures
        named_connections(Some(entries)).0.len() + named_connections(Some(entries)).1.len()
            == entries.len(),
        match json_text_field(entries[i], "Name"@) {
            Some(name) => valid_identifier(name) ==> named_connections(Some(entries)).0.contains(
                name,
            ),
            None => true,
        },
        connection_name(entries[i]) is None ==> exists|k: int|
            {
                let complaint = #[trigger] named_connections(Some(entries)).1[k];
                &&& 0 <= k < named_connections(Some(entries)).1.len()
                &&& complaint.len() >= entries[i].len()
                &&& complaint.skip(complaint.len() - entries[i].len()) == entries[i]
            },
        named_connections(None).0.len() == 0 && named_connections(None).1.len() == 1,
{
    let name = |entry: Seq<char>| connection_name(entry);
    let complaint = |entry: Seq<char>| connection_warning(entry);
    lemma_named_or_complained(entries);
    let named = kept_in_order(entries, name);
    let complained = kept_in_order(entries, complaint);
    if connection_name(entries[i]) is Some {
        assert(name(entries[i]) is Some);
        let k = choose|k: int| 0 <= k < named.len() && named[k] == i;
        assert(named_connections(Some(entries)).0[k] == connection_name(entries[i])->Some_0);
    } else {
        assert(complaint(entries[i]) is Some);
        let k = choose|k: int| 0 <= k < complained.len() && complained[k] == i;
        let text = named_connections(Some(entries)).1[k];
        assert(text == connection_warning(entries[i])->Some_0);
        assert(text.skip(text.len() - entries[i].len()) =~= entries[i]);
    }
}

proof fn lemma_named_or_complained(entries: Seq<Seq<char>>)
    ensures
        kept(entries, |entry: Seq<char>| connection_name(entry)).len() + kept(
            entries,
            |entry: Seq<char>| connection_warning(entry),
        ).len() == entries.len(),
    decreases entries.len(),
{
    if entries.len() > 0 {
        lemma_named_or_complained(entries.drop_last());
    }
}

/// A listing that failed names no connection and is not complained about; one that succeeded is
/// read from what it wrote.
pub proof fn failed_listing_is_passed_over(reply: Result<CommandOutput, String>)
    ensures
        match reply {
            Ok(output) => if output.success {
                listed_connections(reply) == named_connections(
                    json_array(lossy_text(output.stdout@)),
                )
            } else {
                listed_connections(reply).0.len() == 0 && listed_connections(reply).1.len() == 0
            },
            Err(_) => listed_connections(reply).0.len() == 0 && listed_connections(reply).1.len()
                == 0,
        },
{
}

/// Each item cleans through the tool that it is called after, and prunes nothing else: Docker with
/// `docker`, Podman with `podman`, and only the rootful one with privilege.
pub proof fn items_run_their_own_tool(
    docker: CleanupItem,
    flatpak: CleanupItem,
    rootless: CleanupItem,
    rootful: CleanupItem,
    name: &str,
    connection: CleanupItem,
)
    requires
        call_ensures(docker_item, (), docker),
        call_ensures(flatpak_item, (), flatpak),
        call_ensures(podman_rootless_item, (), rootless),
        call_ensures(podman_rootful_item, (), rootful),
        call_ensures(podman_connection_item, (name,), connection),
    ensures
        runs(docker@, "docker"@, false) && has_prefix(docker@.id, "containers.docker"@),
        runs(flatpak@, "flatpak"@, false) && has_prefix(flatpak@.id, "containers.flatpak"@),
        runs(rootless@, "podman"@, false) && has_prefix(rootless@.id, "containers.podman"@),
        runs(rootful@, "podman"@, true) && has_prefix(rootful@.id, "containers.podman"@),
        runs(connection@, "podman"@, false) && has_prefix(connection@.id, "containers.podman"@),
        connection@.action->Command_0.args.contains(name@),
        docker@.action->Command_0.args == rootless@.action->Command_0.args,
        rootful@.action->Command_0.args == rootless@.action->Command_0.args,
{
    reveal_strlit("containers.docker");
    reveal_strlit("containers.flatpak");
    reveal_strlit("containers.podman");
    reveal_strlit("containers.podman.rootless");
    reveal_strlit("containers.podman.rootful");
    reveal_strlit("containers.podman.connection.");
    let front = "containers.podman"@;
    assert(docker@.id.take(17) =~= "containers.docker"@);
    assert(flatpak@.id.take(18) =~= "containers.flatpak"@);
    assert(rootless@.id.take(17) =~= front);
    assert(rootful@.id.take(17) =~= front);
    assert(connection@.id.take(17) =~= front);
    assert(connection@.action->Command_0.args[1] == name@);
}

/// The item runs the program, with that privilege, and belongs to the containers.
pub open spec fn runs(item: ItemView, program: Seq<char>, root: bool) -> bool {
    &&& item.group is Containers
    &&& item.action matches ActionView::Command(command) && command.program == program
        && command.requires_root == root
}

/// Where Podman is there, its connections are those that it lists; where it is not, there are none.
pub proof fn discovery_gives_what_is_listed(tools: Seq<Seq<char>>, calls: Seq<Call>)
    requires
        commands_of(calls) == discovery_commands(tools),
    ensures
        tools.contains("podman"@) ==> calls.len() == 1 && discovered(tools, calls)
            == listed_connections(calls[0].reply),
        !tools.contains("podman"@) ==> calls.len() == 0 && discovered(tools, calls).0.len() == 0
            && discovered(tools, calls).1.len() == 0,
{
    assert(commands_of(calls).len() == calls.len());
}

} // verus!
