//! What a scan offers: each item for something that was found, and through a tool that is there.
use vstd::prelude::*;
use vstd::string::*;

use crate::accepted::kept_comes_from;
use crate::command::{allowed_command, fixed_command, naming_command, removable_package};
use crate::containers::{
    connection_items, container_items, docker_view, flatpak_view, podman_connection_view,
    podman_rootful_view, podman_rootless_view,
};
use crate::distro::{arch_commands, cache_paths, package_item, package_tool, DistroFamily};
use crate::executor::item_commands;
use crate::facts::{measured, measured_from, Measured};
use crate::guard::known_caches;
use crate::measure::asked_tools;
use crate::model::{
    group_bytes, group_is_part_of_total, item_views, total_bytes, ActionView, CleanupGroup,
    CleanupItem, CommandView, ItemView, ScanReport,
};
use crate::models::{
    hub_dir, hub_item, hub_items, manifest_outcome, model_findings, ollama_findings, ollama_item,
    ollama_root, outcome_item, place_item, place_items, static_caches, static_kind,
    valid_ollama_name, CacheKind, CachePlace, HubEntry, ManifestEntry,
};
use crate::order::{is_ordering, lemma_members_mapped, sum_of, Ranked};
use crate::path::joined_path;
use crate::preview::uninstall_command_view;
use crate::scanner::{
    dev_caches, dev_kind, installed_snap_findings, journal_item, journal_items, measured_total,
    package_findings, reports, scan_findings, sorted_by_group, sorting_keeps_items,
    sorting_keeps_totals, trash_items, unsupported_warnings, user_caches, user_kind, views_total,
    with_totals, ScanFacts,
};
use crate::snaps::{disabled_item, snap_findings, snap_item, SnapEntry, SnapFacts};
use crate::text::{has_prefix, kept_in_order, texts};
use crate::uninstall::{
    optional_text, protected_package, valid_identifier, valid_snap_revision, ApplicationSource,
};

verus! {

/// Every command of the item runs one of the tools, and belongs to the group of that tool.
pub open spec fn runs_installed(tools: Seq<Seq<char>>, item: ItemView) -> bool {
    forall|k: int|
        0 <= k < item_commands(item).len() ==> {
            let program = (#[trigger] item_commands(item)[k]).program;
            &&& tools.contains(program)
            &&& program == "docker"@ || program == "podman"@ || program == "flatpak"@ ==> item.group
                is Containers
            &&& program == "ollama"@ ==> item.group is Models
            &&& item.group is System || item.group is Containers || item.group is Models
        }
}

/// What runs a command is never of low risk, whether it needs privilege or not.
pub open spec fn command_has_risk(item: ItemView) -> bool {
    item_commands(item).len() > 0 ==> item.risk is Elevated
}

proof fn lemma_container_tools(tools: Seq<Seq<char>>, names: Seq<Seq<char>>, i: int)
    requires
        0 <= i < container_items(tools, names).len(),
    ensures
        runs_installed(tools, container_items(tools, names)[i]),
        command_has_risk(container_items(tools, names)[i]),
        container_items(tools, names)[i].group is Containers,
        container_items(tools, names)[i].action is Command,
{
    let item = container_items(tools, names)[i];
    let first: Seq<ItemView> = if tools.contains("docker"@) {
        seq![docker_view()]
    } else {
        seq![]
    };
    let second: Seq<ItemView> = if tools.contains("podman"@) {
        seq![podman_rootless_view(), podman_rootful_view()] + connection_items(names)
    } else {
        seq![]
    };
    lemma_programs_differ();
    if i < first.len() {
        assert(item == first[i]);
    } else if i < first.len() + second.len() {
        let k = i - first.len();
        assert(item == second[k]);
        if k >= 2 {
            assert(item == connection_items(names)[k - 2]);
            assert(item == podman_connection_view(names[k - 2]));
        }
    }
}

proof fn lemma_programs_differ()
    ensures
        "docker"@ != "ollama"@ && "podman"@ != "ollama"@ && "flatpak"@ != "ollama"@,
        "docker"@ != "podman"@ && "docker"@ != "flatpak"@ && "podman"@ != "flatpak"@,
{
    reveal_strlit("docker");
    reveal_strlit("podman");
    reveal_strlit("flatpak");
    reveal_strlit("ollama");
    assert("docker"@.len() == 6 && "podman"@.len() == 6 && "ollama"@.len() == 6);
    assert("flatpak"@.len() == 7);
    assert("docker"@[0] == 'd' && "podman"@[0] == 'p' && "ollama"@[0] == 'o');
}

proof fn lemma_system_programs_differ(program: Seq<char>)
    requires
        program == "paccache"@ || program == "apt-get"@ || program == "dnf"@ || program
            == "journalctl"@ || program == "snap"@,
    ensures
        program != "docker"@ && program != "podman"@ && program != "flatpak"@,
        program != "ollama"@,
{
    reveal_strlit("docker");
    reveal_strlit("podman");
    reveal_strlit("flatpak");
    reveal_strlit("ollama");
    reveal_strlit("paccache");
    reveal_strlit("apt-get");
    reveal_strlit("dnf");
    reveal_strlit("journalctl");
    reveal_strlit("snap");
    assert("docker"@.len() == 6 && "podman"@.len() == 6 && "ollama"@.len() == 6);
    assert("flatpak"@.len() == 7 && "apt-get"@.len() == 7);
    assert("flatpak"@[0] == 'f' && "apt-get"@[0] == 'a');
    assert("paccache"@.len() == 8 && "dnf"@.len() == 3 && "journalctl"@.len() == 10);
    assert("snap"@.len() == 4);
}

/// The item removes a repository of the Hugging Face hub that was found there, with its size.
pub open spec fn removes_repository(home: Seq<char>, facts: ScanFacts, item: ItemView) -> bool {
    exists|j: int|
        {
            &&& 0 <= j < facts.models.hub@.len()
            &&& (#[trigger] facts.models.hub@[j]).directory
            &&& has_prefix(facts.models.hub@[j].name@, "models--"@) || has_prefix(
                facts.models.hub@[j].name@,
                "datasets--"@,
            ) || has_prefix(facts.models.hub@[j].name@, "spaces--"@)
            &&& item.estimated_bytes == facts.models.hub@[j].bytes
            &&& item.action == ActionView::RemovePath {
                path: joined_path(
                    hub_dir(optional_text(facts.models.hf_home), home),
                    facts.models.hub@[j].name@,
                ),
                contents_only: false,
            }
        }
}

/// What an item removes was found: a directory that was measured and is not empty, with the size
/// that was measured, or a repository of the Hugging Face hub.
pub open spec fn removes_what_was_found(
    home: Seq<char>,
    facts: ScanFacts,
    item: ItemView,
) -> bool {
    match item.action {
        ActionView::RemovePath { path, contents_only } => {
            &&& item.estimated_bytes > 0
            &&& item.estimated_bytes == measured(facts.sizes@, path) || removes_repository(
                home,
                facts,
                item,
            )
            &&& contents_only ==> path == joined_path(home, ".local/share/Trash"@) && item.risk
                is Explicit
            &&& item.group is User || item.group is Dev || item.group is Models
            &&& item.group is Models ==> item.risk is Elevated
            &&& item.group is Dev ==> item.risk is Low
            &&& item.group is User && !contents_only ==> item.risk is Low
        },
        ActionView::RemovePersonalFile { path, force } => false,
        _ => true,
    }
}

/// The parts of which a scan is made, one behind the other.
spec fn found_parts(
    home: Seq<char>,
    family: DistroFamily,
    facts: ScanFacts,
    names: Seq<Seq<char>>,
) -> Seq<Seq<ItemView>> {
    let tools = texts(facts.tools@);
    let sizes = facts.sizes@;
    seq![
        package_findings(family, tools, sizes).0,
        journal_items(tools, sizes),
        installed_snap_findings(tools, facts.snaps).0,
        place_items(home, sizes, user_kind(), user_caches()),
        trash_items(home, sizes),
        place_items(home, sizes, dev_kind(), dev_caches()),
        container_items(tools, names),
        place_items(home, sizes, static_kind(), static_caches()),
        ollama_findings(home, tools, facts.models.ollama).0,
        hub_items(hub_dir(optional_text(facts.models.hf_home), home), facts.models.hub@),
    ]
}

/// Every item of a scan stands in one of its parts, and every item of a part in the scan.
proof fn lemma_parts(
    home: Seq<char>,
    family: DistroFamily,
    name: Seq<char>,
    facts: ScanFacts,
    connections: (Seq<Seq<char>>, Seq<Seq<char>>),
)
    ensures
        ({
            let all = scan_findings(home, family, name, facts, connections).0;
            let parts = found_parts(home, family, facts, connections.0);
            &&& forall|i: int|
                0 <= i < all.len() ==> exists|k: int|
                    0 <= k < 10 && (#[trigger] parts[k]).contains(#[trigger] all[i])
            &&& forall|k: int, j: int|
                0 <= k < 10 && 0 <= j < parts[k].len() ==> all.contains(
                    #[trigger] (#[trigger] parts[k])[j],
                )
        }),
{
    let all = scan_findings(home, family, name, facts, connections).0;
    let p = found_parts(home, family, facts, connections.0);
    let models = model_findings(home, texts(facts.tools@), facts.sizes@, facts.models).0;
    assert(models =~= p[7] + p[8] + p[9]);
    assert(all =~= p[0] + p[1] + p[2] + p[3] + p[4] + p[5] + p[6] + models);
    let n1 = p[0].len() as int;
    let n2 = n1 + p[1].len();
    let n3 = n2 + p[2].len();
    let n4 = n3 + p[3].len();
    let n5 = n4 + p[4].len();
    let n6 = n5 + p[5].len();
    let n7 = n6 + p[6].len();
    let n8 = n7 + p[7].len();
    let n9 = n8 + p[8].len();
    assert forall|i: int| 0 <= i < all.len() implies exists|k: int|
        0 <= k < 10 && (#[trigger] p[k]).contains(#[trigger] all[i]) by {
        if i < n1 {
            assert(p[0][i] == all[i]);
        } else if i < n2 {
            assert(p[1][i - n1] == all[i]);
        } else if i < n3 {
            assert(p[2][i - n2] == all[i]);
        } else if i < n4 {
            assert(p[3][i - n3] == all[i]);
        } else if i < n5 {
            assert(p[4][i - n4] == all[i]);
        } else if i < n6 {
            assert(p[5][i - n5] == all[i]);
        } else if i < n7 {
            assert(p[6][i - n6] == all[i]);
        } else if i < n8 {
            assert(p[7][i - n7] == all[i]);
        } else if i < n9 {
            assert(p[8][i - n8] == all[i]);
        } else {
            assert(p[9][i - n9] == all[i]);
        }
    }
    assert forall|k: int, j: int| 0 <= k < 10 && 0 <= j < p[k].len() implies all.contains(
        #[trigger] (#[trigger] p[k])[j],
    ) by {
        let at = if k == 0 {
            0
        } else if k == 1 {
            n1
        } else if k == 2 {
            n2
        } else if k == 3 {
            n3
        } else if k == 4 {
            n4
        } else if k == 5 {
            n5
        } else if k == 6 {
            n6
        } else if k == 7 {
            n7
        } else if k == 8 {
            n8
        } else {
            n9
        };
        assert(all[at + j] == p[k][j]);
    }
}

proof fn lemma_place_found(
    home: Seq<char>,
    facts: ScanFacts,
    kind: CacheKind,
    all: Seq<CachePlace>,
    i: int,
)
    requires
        0 <= i < place_items(home, facts.sizes@, kind, all).len(),
        kind.group is User || kind.group is Dev || kind.group is Models,
        kind.risk is Elevated <==> kind.group is Models,
        kind.risk is Low <==> !(kind.group is Models),
    ensures
        removes_what_was_found(home, facts, place_items(home, facts.sizes@, kind, all)[i]),
        place_items(home, facts.sizes@, kind, all)[i].action is RemovePath,
{
    let keep = |place: CachePlace| place_item(home, facts.sizes@, kind, place);
    let j = kept_comes_from(all, keep, i);
}

proof fn lemma_snap_tool(tools: Seq<Seq<char>>, facts: SnapFacts, i: int)
    requires
        tools.contains("snap"@),
        0 <= i < snap_findings(facts).0.len(),
    ensures
        runs_installed(tools, snap_findings(facts).0[i]),
        command_has_risk(snap_findings(facts).0[i]),
        snap_findings(facts).0[i].action is Command,
{
    lemma_system_programs_differ("snap"@);
    match facts.entries {
        Err(_) => {},
        Ok(entries) => {
            let keep = |entry: SnapEntry| disabled_item(facts.links@, entry);
            let j = kept_comes_from(entries@, keep, i);
        },
    }
}

proof fn lemma_ollama_tool(home: Seq<char>, tools: Seq<Seq<char>>, facts: ScanFacts, i: int)
    requires
        0 <= i < ollama_findings(home, tools, facts.models.ollama).0.len(),
    ensures
        runs_installed(tools, ollama_findings(home, tools, facts.models.ollama).0[i]),
        command_has_risk(ollama_findings(home, tools, facts.models.ollama).0[i]),
        ollama_findings(home, tools, facts.models.ollama).0[i].action is Command,
{
    lemma_programs_differ();
    let root = ollama_root(optional_text(facts.models.ollama.ollama_models), home);
    let keep = |entry: ManifestEntry|
        outcome_item(
            manifest_outcome(
                joined_path(root, "manifests"@),
                joined_path(root, "blobs"@),
                facts.models.ollama.blobs@,
                entry,
            ),
        );
    let j = kept_comes_from(facts.models.ollama.entries@, keep, i);
}

// ---------------------------------------------------------------------------------------
// Laws
// ---------------------------------------------------------------------------------------

/// A scan offers nothing that is not there: every command of every item runs a tool that was found
/// and is of elevated risk, and what is removed was measured, is not empty and is offered with its
/// size: caches at low risk, models at an elevated one, and the trash only explicitly. A container
/// tool is run only by an item for containers, and Ollama only by one for models.
pub proof fn scan_offers_what_is_there(
    home: Seq<char>,
    family: DistroFamily,
    name: Seq<char>,
    facts: ScanFacts,
    connections: (Seq<Seq<char>>, Seq<Seq<char>>),
    i: int,
)
    requires
        0 <= i < scan_findings(home, family, name, facts, connections).0.len(),
    ensures
        ({
            let item = scan_findings(home, family, name, facts, connections).0[i];
            &&& runs_installed(texts(facts.tools@), item)
            &&& command_has_risk(item)
            &&& removes_what_was_found(home, facts, item)
        }),
{
    let tools = texts(facts.tools@);
    let sizes = facts.sizes@;
    let item = scan_findings(home, family, name, facts, connections).0[i];
    let p = found_parts(home, family, facts, connections.0);
    lemma_parts(home, family, name, facts, connections);
    let k = choose|k: int| 0 <= k < 10 && (#[trigger] p[k]).contains(item);
    let j = choose|j: int| 0 <= j < p[k].len() && p[k][j] == item;
    if k == 0 {
        lemma_system_programs_differ("paccache"@);
        lemma_system_programs_differ("apt-get"@);
        lemma_system_programs_differ("dnf"@);
        assert(arch_commands().len() == 2);
        assert(Some(item) == package_item(
            family,
            measured_total(sizes, cache_paths(family)) as u64,
        ));
        assert(package_tool(family) matches Some(tool) && tools.contains(tool));
    } else if k == 1 {
        lemma_system_programs_differ("journalctl"@);
    } else if k == 2 {
        lemma_snap_tool(tools, facts.snaps, j);
    } else if k == 3 {
        lemma_place_found(home, facts, user_kind(), user_caches(), j);
    } else if k == 4 {
    } else if k == 5 {
        lemma_place_found(home, facts, dev_kind(), dev_caches(), j);
    } else if k == 6 {
        lemma_container_tools(tools, connections.0, j);
    } else if k == 7 {
        lemma_place_found(home, facts, static_kind(), static_caches(), j);
    } else if k == 8 {
        lemma_ollama_tool(home, tools, facts, j);
    } else {
        let hub = hub_dir(optional_text(facts.models.hf_home), home);
        let keep = |entry: HubEntry| hub_item(hub, entry);
        let e = kept_comes_from(facts.models.hub@, keep, j);
        assert(removes_repository(home, facts, item));
    }
}

/// The scan offers a command of the group, with no more risk than stated.
pub open spec fn offers_command(
    items: Seq<ItemView>,
    group: CleanupGroup,
    command: CommandView,
) -> bool {
    exists|i: int|
        0 <= i < items.len() && (#[trigger] items[i]).action == ActionView::Command(command)
            && items[i].group == group
}

/// The arguments that clean up behind a container tool.
pub open spec fn prune() -> Seq<Seq<char>> {
    seq!["system"@, "prune"@, "-f"@]
}

/// A container tool that was found is offered with its own clean-up and with nothing else: Docker
/// and Podman prune, Podman with and without privilege and on every connection, and Flatpak drops
/// what is unused. No item runs one of them that was not found.
pub proof fn container_tools_are_offered(
    home: Seq<char>,
    family: DistroFamily,
    name: Seq<char>,
    facts: ScanFacts,
    connections: (Seq<Seq<char>>, Seq<Seq<char>>),
)
    ensures
        ({
            let items = scan_findings(home, family, name, facts, connections).0;
            let tools = texts(facts.tools@);
            let group = CleanupGroup::Containers;
            &&& tools.contains("docker"@) <==> offers_command(
                items,
                group,
                CommandView { program: "docker"@, args: prune(), requires_root: false },
            )
            &&& tools.contains("podman"@) <==> offers_command(
                items,
                group,
                CommandView { program: "podman"@, args: prune(), requires_root: false },
            )
            &&& tools.contains("podman"@) <==> offers_command(
                items,
                group,
                CommandView { program: "podman"@, args: prune(), requires_root: true },
            )
            &&& tools.contains("flatpak"@) <==> offers_command(
                items,
                group,
                CommandView {
                    program: "flatpak"@,
                    args: seq!["uninstall"@, "--unused"@, "-y"@],
                    requires_root: false,
                },
            )
            &&& forall|c: int|
                0 <= c < connections.0.len() && tools.contains("podman"@) ==> offers_command(
                    items,
                    group,
                    CommandView {
                        program: "podman"@,
                        args: seq!["--connection"@, #[trigger] connections.0[c]] + prune(),
                        requires_root: false,
                    },
                )
        }),
{
    let items = scan_findings(home, family, name, facts, connections).0;
    let tools = texts(facts.tools@);
    let p = found_parts(home, family, facts, connections.0);
    let own = container_items(tools, connections.0);
    lemma_parts(home, family, name, facts, connections);
    lemma_programs_differ();
    assert(p[6] == own);
    assert forall|i: int| 0 <= i < items.len() implies runs_installed(
        tools,
        #[trigger] items[i],
    ) by {
        scan_offers_what_is_there(home, family, name, facts, connections, i);
    }
    assert forall|i: int|
        0 <= i < items.len() && (#[trigger] items[i]).action is Command implies tools.contains(
        items[i].action->Command_0.program,
    ) by {
        assert(runs_installed(tools, items[i]));
        assert(item_commands(items[i])[0] == items[i].action->Command_0);
    }
    assert forall|j: int| 0 <= j < own.len() implies items.contains(#[trigger] own[j]) by {
        assert(items.contains(p[6][j]));
    }
    let d = if tools.contains("docker"@) {
        1int
    } else {
        0
    };
    if tools.contains("docker"@) {
        assert(own[0] == docker_view());
        lemma_offers(items, docker_view());
    }
    if tools.contains("podman"@) {
        assert(own[d] == podman_rootless_view());
        assert(own[d + 1] == podman_rootful_view());
        lemma_offers(items, podman_rootless_view());
        lemma_offers(items, podman_rootful_view());
        assert forall|c: int| 0 <= c < connections.0.len() implies offers_command(
            items,
            CleanupGroup::Containers,
            CommandView {
                program: "podman"@,
                args: seq!["--connection"@, #[trigger] connections.0[c]] + prune(),
                requires_root: false,
            },
        ) by {
            let view = podman_connection_view(connections.0[c]);
            assert(own[d + 2 + c] == connection_items(connections.0)[c]);
            assert(own[d + 2 + c] == view);
            lemma_offers(items, view);
            assert(seq!["--connection"@, connections.0[c]] + prune() =~= seq![
                "--connection"@,
                connections.0[c],
                "system"@,
                "prune"@,
                "-f"@,
            ]);
        }
    }
    if tools.contains("flatpak"@) {
        assert(own.last() == flatpak_view());
        assert(own[own.len() - 1] == flatpak_view());
        lemma_offers(items, flatpak_view());
    }
}

proof fn lemma_offers(items: Seq<ItemView>, item: ItemView)
    requires
        items.contains(item),
        item.action is Command,
    ensures
        offers_command(items, item.group, item.action->Command_0),
{
    let i = choose|i: int| 0 <= i < items.len() && items[i] == item;
    assert(items[i].action == ActionView::Command(item.action->Command_0));
}

/// The scan offers to remove what lies at a path, all of it, with that size.
pub open spec fn offers_removal(items: Seq<ItemView>, path: Seq<char>, bytes: u64) -> bool {
    exists|i: int|
        0 <= i < items.len() && (#[trigger] items[i]).action == (ActionView::RemovePath {
            path,
            contents_only: false,
        }) && items[i].estimated_bytes == bytes
}

/// Every cache that the executor knows, but for the trash, is looked at: where it holds anything
/// it is offered with the size that was measured.
pub proof fn filled_caches_are_offered(
    home: Seq<char>,
    family: DistroFamily,
    name: Seq<char>,
    facts: ScanFacts,
    connections: (Seq<Seq<char>>, Seq<Seq<char>>),
    relative: Seq<char>,
)
    requires
        known_caches().contains(relative) || exists|j: int|
            0 <= j < static_caches().len() && (#[trigger] static_caches()[j]).relative == relative,
        relative != ".local/share/Trash"@,
        measured(facts.sizes@, joined_path(home, relative)) > 0,
    ensures
        offers_removal(
            scan_findings(home, family, name, facts, connections).0,
            joined_path(home, relative),
            measured(facts.sizes@, joined_path(home, relative)),
        ),
{
    let p = found_parts(home, family, facts, connections.0);
    let items = scan_findings(home, family, name, facts, connections).0;
    lemma_parts(home, family, name, facts, connections);
    if exists|j: int|
        0 <= j < static_caches().len() && (#[trigger] static_caches()[j]).relative == relative {
        let j = choose|j: int|
            0 <= j < static_caches().len() && (#[trigger] static_caches()[j]).relative == relative;
        lemma_place_offered(home, facts, static_kind(), static_caches(), j, p[7]);
        lemma_removal(items, p[7], joined_path(home, relative));
    } else {
        let k = choose|k: int| 0 <= k < known_caches().len() && known_caches()[k] == relative;
        if k < 10 {
            assert(user_caches()[k].relative == known_caches()[k]);
            lemma_place_offered(home, facts, user_kind(), user_caches(), k, p[3]);
            lemma_removal(items, p[3], joined_path(home, relative));
        } else {
            assert(known_caches()[10] == ".local/share/Trash"@);
            assert(dev_caches()[k - 11].relative == known_caches()[k]);
            lemma_place_offered(home, facts, dev_kind(), dev_caches(), k - 11, p[5]);
            lemma_removal(items, p[5], joined_path(home, relative));
        }
    }
}

proof fn lemma_place_offered(
    home: Seq<char>,
    facts: ScanFacts,
    kind: CacheKind,
    all: Seq<CachePlace>,
    j: int,
    found: Seq<ItemView>,
)
    requires
        0 <= j < all.len(),
        found == place_items(home, facts.sizes@, kind, all),
        measured(facts.sizes@, joined_path(home, all[j].relative)) > 0,
    ensures
        offers_removal(
            found,
            joined_path(home, all[j].relative),
            measured(facts.sizes@, joined_path(home, all[j].relative)),
        ),
{
    let keep = |place: CachePlace| place_item(home, facts.sizes@, kind, place);
    let places = kept_in_order(all, keep);
    assert(keep(all[j]) is Some);
    let k = choose|k: int| 0 <= k < places.len() && places[k] == j;
    assert(Some(found[k]) == place_item(home, facts.sizes@, kind, all[j]));
}

proof fn lemma_removal(items: Seq<ItemView>, part: Seq<ItemView>, path: Seq<char>)
    requires
        forall|j: int| 0 <= j < part.len() ==> items.contains(#[trigger] part[j]),
    ensures
        forall|bytes: u64| #[trigger]
            offers_removal(part, path, bytes) ==> offers_removal(items, path, bytes),
{
    assert forall|bytes: u64| #[trigger] offers_removal(part, path, bytes) implies offers_removal(
        items,
        path,
        bytes,
    ) by {
        let j = choose|j: int|
            0 <= j < part.len() && (#[trigger] part[j]).action == (ActionView::RemovePath {
                path,
                contents_only: false,
            }) && part[j].estimated_bytes == bytes;
        let i = choose|i: int| 0 <= i < items.len() && items[i] == part[j];
        assert(items[i].action == part[j].action);
    }
}

/// A directory of the Hugging Face hub that is called like a repository and holds anything is
/// offered with its size.
pub proof fn repositories_are_offered(
    home: Seq<char>,
    family: DistroFamily,
    name: Seq<char>,
    facts: ScanFacts,
    connections: (Seq<Seq<char>>, Seq<Seq<char>>),
    e: int,
)
    requires
        0 <= e < facts.models.hub@.len(),
        facts.models.hub@[e].directory,
        facts.models.hub@[e].bytes > 0,
        has_prefix(facts.models.hub@[e].name@, "models--"@) || has_prefix(
            facts.models.hub@[e].name@,
            "datasets--"@,
        ) || has_prefix(facts.models.hub@[e].name@, "spaces--"@),
    ensures
        offers_removal(
            scan_findings(home, family, name, facts, connections).0,
            joined_path(
                hub_dir(optional_text(facts.models.hf_home), home),
                facts.models.hub@[e].name@,
            ),
            facts.models.hub@[e].bytes,
        ),
{
    let p = found_parts(home, family, facts, connections.0);
    let items = scan_findings(home, family, name, facts, connections).0;
    let entries = facts.models.hub@;
    let hub = hub_dir(optional_text(facts.models.hf_home), home);
    lemma_parts(home, family, name, facts, connections);
    let keep = |entry: HubEntry| hub_item(hub, entry);
    let places = kept_in_order(entries, keep);
    assert(keep(entries[e]) is Some);
    let k = choose|k: int| 0 <= k < places.len() && places[k] == e;
    assert(Some(p[9][k]) == hub_item(hub, entries[e]));
    let path = joined_path(hub, entries[e].name@);
    assert(offers_removal(p[9], path, entries[e].bytes));
    lemma_removal(items, p[9], path);
}

/// Trash that is not empty is offered, with its size; only what is in it goes, and only where
/// that was asked for.
pub proof fn trash_is_emptied_not_removed(
    home: Seq<char>,
    family: DistroFamily,
    name: Seq<char>,
    facts: ScanFacts,
    connections: (Seq<Seq<char>>, Seq<Seq<char>>),
)
    ensures
        ({
            let items = scan_findings(home, family, name, facts, connections).0;
            let path = joined_path(home, ".local/share/Trash"@);
            measured(facts.sizes@, path) > 0 <==> exists|i: int|
                0 <= i < items.len() && (#[trigger] items[i]).action == (ActionView::RemovePath {
                    path,
                    contents_only: true,
                }) && items[i].estimated_bytes == measured(facts.sizes@, path) && items[i].risk
                    is Explicit && items[i].group is User
        }),
{
    let p = found_parts(home, family, facts, connections.0);
    let items = scan_findings(home, family, name, facts, connections).0;
    let path = joined_path(home, ".local/share/Trash"@);
    lemma_parts(home, family, name, facts, connections);
    if measured(facts.sizes@, path) > 0 {
        let item = p[4][0];
        assert(items.contains(p[4][0]));
        let i = choose|i: int| 0 <= i < items.len() && items[i] == item;
        assert(items[i].action == item.action);
    } else {
        assert forall|i: int| 0 <= i < items.len() implies !((#[trigger] items[i]).action == (
        ActionView::RemovePath { path, contents_only: true })) || items[i].estimated_bytes != 0 by {
            scan_offers_what_is_there(home, family, name, facts, connections, i);
        }
    }
}

/// The journal is offered exactly where its tool was found and it is larger than 200 MiB, with
/// what it holds above that.
pub proof fn journal_above_its_limit_is_offered(tools: Seq<Seq<char>>, sizes: Seq<Measured>)
    ensures
        ({
            let items = journal_items(tools, sizes);
            let bytes = measured(sizes, "/var/log/journal"@);
            let limit = 209_715_200int;
            &&& items.len() == 1 <==> tools.contains("journalctl"@) && bytes > limit
            &&& items.len() <= 1
            &&& items.len() == 1 ==> items[0].estimated_bytes + limit == bytes
                && item_commands(items[0]) == seq![
                CommandView {
                    program: "journalctl"@,
                    args: seq!["--vacuum-size=200M"@],
                    requires_root: true,
                },
            ]
        }),
{
}

/// The package cache is offered through the tool of the family where that was found, with all the
/// bytes of the cache; without the tool it is complained about where it holds anything, by the
/// name of the tool, and not offered.
pub proof fn package_cache_needs_its_tool(
    family: DistroFamily,
    tools: Seq<Seq<char>>,
    sizes: Seq<Measured>,
)
    requires
        measured_total(sizes, cache_paths(family)) <= u64::MAX,
    ensures
        ({
            let (items, complaints) = package_findings(family, tools, sizes);
            let bytes = measured_total(sizes, cache_paths(family));
            match package_tool(family) {
                Some(tool) => if tools.contains(tool) {
                    &&& items.len() == 1 && complaints.len() == 0
                    &&& items[0].estimated_bytes == bytes
                    &&& item_commands(items[0]).len() > 0
                    &&& forall|k: int|
                        0 <= k < item_commands(items[0]).len() ==> (
                        #[trigger] item_commands(items[0])[k]).program == tool
                } else {
                    &&& items.len() == 0
                    &&& complaints.len() == 1 <==> bytes > 0
                    &&& complaints.len() == 1 ==> has_prefix(complaints[0], tool)
                    &&& complaints.len() <= 1
                },
                None => items.len() == 0 && complaints.len() == 0 && family is Unsupported,
            }
        }),
{
    assert(arch_commands().len() == 2);
    match package_tool(family) {
        Some(tool) => {
            let complaint = tool
                + " is not installed; the package cache was measured but cannot be cleaned safely"@;
            assert(complaint.take(tool.len() as int) =~= tool);
        },
        None => {},
    }
}

/// The bytes of several directories are those of each of them together.
pub proof fn measured_bytes_add_up(
    sizes: Seq<Measured>,
    paths: Seq<Seq<char>>,
    path: Seq<char>,
)
    ensures
        measured_total(sizes, Seq::empty()) == 0,
        measured_total(sizes, paths.push(path)) == measured_total(sizes, paths) + measured(
            sizes,
            path,
        ),
{
    assert(paths.push(path).drop_last() =~= paths);
}

/// A measurement is found by its path; the first at a path counts, and where none was made there
/// is nothing.
pub proof fn measurement_is_found(sizes: Seq<Measured>, i: int, path: Seq<char>)
    requires
        0 <= i <= sizes.len(),
        forall|j: int| 0 <= j < i ==> (#[trigger] sizes[j]).path@ != path,
        i < sizes.len() ==> sizes[i].path@ == path,
    ensures
        measured(sizes, path) == if i < sizes.len() {
            sizes[i].bytes
        } else {
            0
        },
{
    lemma_measurement(sizes, i, path, 0);
}

proof fn lemma_measurement(sizes: Seq<Measured>, i: int, path: Seq<char>, from: int)
    requires
        0 <= from <= i <= sizes.len(),
        forall|j: int| 0 <= j < i ==> (#[trigger] sizes[j]).path@ != path,
        i < sizes.len() ==> sizes[i].path@ == path,
    ensures
        measured_from(sizes, path, from) == if i < sizes.len() {
            sizes[i].bytes
        } else {
            0
        },
    decreases i - from,
{
    if from < i {
        lemma_measurement(sizes, i, path, from + 1);
    }
}

/// The command is one that a scan can offer: the clean-up of a package manager, of the journal or
/// of a container tool, or the removal of a snap revision or of an Ollama model.
pub open spec fn is_offered_command(command: CommandView) -> bool {
    ||| exists|family: DistroFamily|
        match #[trigger] package_item(family, 0) {
            Some(item) => item_commands(item).contains(command),
            None => false,
        }
    ||| journal_item(0).action == ActionView::Command(command)
    ||| docker_view().action == ActionView::Command(command)
    ||| flatpak_view().action == ActionView::Command(command)
    ||| podman_rootless_view().action == ActionView::Command(command)
    ||| podman_rootful_view().action == ActionView::Command(command)
    ||| exists|name: Seq<char>|
        valid_identifier(name) && (#[trigger] podman_connection_view(name)).action
            == ActionView::Command(command)
    ||| exists|name: Seq<char>, revision: Seq<char>|
        valid_identifier(name) && valid_snap_revision(revision) && (#[trigger] snap_item(
            name,
            revision,
            0,
        )).action == ActionView::Command(command)
    ||| exists|name: Seq<char>|
        valid_ollama_name(name) && (#[trigger] ollama_item(name, 0)).action == ActionView::Command(
            command,
        )
}

/// The command uninstalls an application that may be uninstalled.
pub open spec fn is_uninstall_command(command: CommandView) -> bool {
    exists|source: ApplicationSource, package: Seq<char>|
        valid_identifier(package) && (source.flatpak() || !protected_package(package)) && command
            == #[trigger] uninstall_command_view(source, package)
}

/// A cleanup may run what the library offers, and nothing beyond it: every command that is allowed
/// is offered by a scan or uninstalls an application.
pub proof fn only_offered_commands_are_allowed(command: CommandView)
    requires
        allowed_command(command.program, command.args, command.requires_root),
    ensures
        is_offered_command(command) || is_uninstall_command(command),
{
    let program = command.program;
    let args = command.args;
    let root = command.requires_root;
    if fixed_command(program, args, root) {
        lemma_fixed_is_offered(command);
    } else {
        lemma_naming_is_offered(command);
    }
}

proof fn lemma_fixed_is_offered(command: CommandView)
    requires
        fixed_command(command.program, command.args, command.requires_root),
    ensures
        is_offered_command(command),
{
    let arch = package_item(DistroFamily::Arch, 0);
    let debian = package_item(DistroFamily::Debian, 0);
    let fedora = package_item(DistroFamily::Fedora, 0);
    assert(item_commands(arch->Some_0) == arch_commands());
    assert(arch_commands()[0].args =~= seq!["-rk1"@]);
    assert(arch_commands()[1].args =~= seq!["-ruk0"@]);
    if command == arch_commands()[0] || command == arch_commands()[1] {
        assert(item_commands(arch->Some_0).contains(command));
    } else if command.program == "apt-get"@ && command.args == seq!["clean"@]
        && command.requires_root {
        assert(item_commands(debian->Some_0)[0] == command);
        assert(item_commands(debian->Some_0).contains(command));
    } else if command.program == "dnf"@ && command.args == seq!["clean"@, "all"@]
        && command.requires_root {
        assert(item_commands(fedora->Some_0)[0] == command);
        assert(item_commands(fedora->Some_0).contains(command));
    }
}

proof fn lemma_naming_is_offered(command: CommandView)
    requires
        naming_command(command.program, command.args, command.requires_root),
    ensures
        is_offered_command(command) || is_uninstall_command(command),
{
    let args = command.args;
    let root = command.requires_root;
    if command.program == "pacman"@ && root && args.len() == 4 && args[0] == "-Rns"@ && args[1]
        == "--noconfirm"@ && args[2] == "--"@ && removable_package(args[3]) {
        let run = uninstall_command_view(ApplicationSource::Pacman, args[3]);
        assert(run.args =~= args);
        assert(is_uninstall_command(command));
    } else if command.program == "apt-get"@ && root && args.len() == 3 && args[0] == "--yes"@
        && args[1] == "remove"@ && removable_package(args[2]) {
        let run = uninstall_command_view(ApplicationSource::Apt, args[2]);
        assert(run.args =~= args);
        assert(is_uninstall_command(command));
    } else if command.program == "dnf"@ && root && args.len() == 3 && args[0] == "--assumeyes"@
        && args[1] == "remove"@ && removable_package(args[2]) {
        let run = uninstall_command_view(ApplicationSource::Dnf, args[2]);
        assert(run.args =~= args);
        assert(is_uninstall_command(command));
    } else if command.program == "flatpak"@ && !root && args.len() == 4 && args[0] == "uninstall"@
        && (args[1] == "--user"@ || args[1] == "--system"@) && args[2] == "-y"@ && valid_identifier(
        args[3],
    ) {
        let user = uninstall_command_view(ApplicationSource::FlatpakUser, args[3]);
        let system = uninstall_command_view(ApplicationSource::FlatpakSystem, args[3]);
        if args[1] == "--user"@ {
            assert(user.args =~= args);
        } else {
            assert(system.args =~= args);
        }
        assert(is_uninstall_command(command));
    } else if command.program == "podman"@ && !root && args.len() == 5 && args[0]
        == "--connection"@ && valid_identifier(args[1]) && args[2] == "system"@ && args[3]
        == "prune"@ && args[4] == "-f"@ {
        let item = podman_connection_view(args[1]);
        assert(item.action->Command_0.args =~= args);
    } else if command.program == "ollama"@ && !root && args.len() == 2 && args[0] == "rm"@
        && valid_ollama_name(args[1]) {
        let item = ollama_item(args[1], 0);
        assert(item.action->Command_0.args =~= args);
    } else {
        let mark = "--revision="@;
        let revision = args[1].skip(mark.len() as int);
        assert(mark + revision =~= args[1]);
        let item = snap_item(args[2], revision, 0);
        assert(item.action->Command_0.args =~= args);
    }
}

/// A report holds what was found and nothing else: every item of the findings stands in it as often
/// as it was found, with the complaints in their order and the bytes of all items together.
pub proof fn report_holds_the_findings(
    name: Seq<char>,
    findings: (Seq<ItemView>, Seq<Seq<char>>),
    report: ScanReport,
)
    requires
        reports(name, findings, report),
    ensures
        item_views(report.items@).to_multiset() == findings.0.to_multiset(),
        texts(report.warnings@) == findings.1,
        report.distribution@ == name,
        report.estimated_total_bytes == sum_of(
            findings.0,
            |item: ItemView| item.estimated_bytes as nat,
        ),
{
    let found = choose|found: Seq<CleanupItem>|
        #[trigger] item_views(found) == findings.0 && sorted_by_group(found, report.items@);
    sorting_keeps_items(found, report.items@);
    lemma_members_mapped(found, report.items@, |item: CleanupItem| item@);
    lemma_views_sum(findings.0);
}

proof fn lemma_views_sum(views: Seq<ItemView>)
    ensures
        views_total(views) == sum_of(views, |item: ItemView| item.estimated_bytes as nat),
    decreases views.len(),
{
    if views.len() > 0 {
        lemma_views_sum(views.drop_last());
    }
}

/// In a report the group that holds the most comes first, and in a group the item that holds the
/// most.
pub proof fn largest_items_come_first(
    name: Seq<char>,
    findings: (Seq<ItemView>, Seq<Seq<char>>),
    report: ScanReport,
    i: int,
    j: int,
)
    requires
        reports(name, findings, report),
        total_bytes(report.items@) <= u64::MAX,
        0 <= i < j < report.items@.len(),
    ensures
        group_bytes(report.items@, report.items@[i].group) >= group_bytes(
            report.items@,
            report.items@[j].group,
        ),
        report.items@[i].group == report.items@[j].group ==> report.items@[i].estimated_bytes
            >= report.items@[j].estimated_bytes,
{
    let items = report.items@;
    let found = choose|found: Seq<CleanupItem>|
        #[trigger] item_views(found) == findings.0 && sorted_by_group(found, items);
    let ranked = with_totals(items, found);
    let order = choose|order: Seq<int>| is_ordering(with_totals(found, found), ranked, order);
    assert(!ranked[j].ranks_before(ranked[i]));
    sorting_keeps_totals(found, items, items[i].group);
    sorting_keeps_totals(found, items, items[j].group);
    group_is_part_of_total(items, items[i].group);
    group_is_part_of_total(items, items[j].group);
}

/// Two systems have the same of the tools that a scan asks for.
pub open spec fn same_tools(a: Seq<Seq<char>>, b: Seq<Seq<char>>, asked: Seq<Seq<char>>) -> bool {
    forall|i: int|
        0 <= i < asked.len() ==> a.contains(#[trigger] asked[i]) == b.contains(asked[i])
}

/// A scan asks for every tool that plays a part: what else is installed changes nothing.
pub proof fn asked_tools_decide(
    home: Seq<char>,
    family: DistroFamily,
    name: Seq<char>,
    a: ScanFacts,
    b: ScanFacts,
    connections: (Seq<Seq<char>>, Seq<Seq<char>>),
)
    requires
        a.sizes == b.sizes,
        a.snaps == b.snaps,
        a.models == b.models,
        same_tools(texts(a.tools@), texts(b.tools@), asked_tools(family)),
    ensures
        scan_findings(home, family, name, a, connections) == scan_findings(
            home,
            family,
            name,
            b,
            connections,
        ),
{
    let asked = asked_tools(family);
    let n = match package_tool(family) {
        Some(tool) => 1int,
        None => 0,
    };
    let (x, y) = (texts(a.tools@), texts(b.tools@));
    assert(asked[n] == "journalctl"@ && asked[n + 1] == "snap"@ && asked[n + 2] == "docker"@
        && asked[n + 3] == "podman"@ && asked[n + 4] == "flatpak"@ && asked[n + 5] == "ollama"@);
    assert(x.contains(asked[n]) == y.contains(asked[n]));
    assert(x.contains(asked[n + 1]) == y.contains(asked[n + 1]));
    assert(x.contains(asked[n + 2]) == y.contains(asked[n + 2]));
    assert(x.contains(asked[n + 3]) == y.contains(asked[n + 3]));
    assert(x.contains(asked[n + 4]) == y.contains(asked[n + 4]));
    assert(x.contains(asked[n + 5]) == y.contains(asked[n + 5]));
    if let Some(tool) = package_tool(family) {
        assert(asked[0] == tool);
        assert(x.contains(asked[0]) == y.contains(asked[0]));
    }
}

/// A distribution without a known package manager is complained about by its name, and no other is.
pub proof fn unsupported_distribution_is_complained_about(family: DistroFamily, name: Seq<char>)
    ensures
        family is Unsupported <==> unsupported_warnings(family, name).len() > 0,
        family is Unsupported ==> has_prefix(unsupported_warnings(family, name)[0], name),
{
    if family is Unsupported {
        assert(unsupported_warnings(family, name)[0].take(name.len() as int) =~= name);
    }
}

/// The caches of model runners are looked at, each where its tool keeps it.
pub proof fn model_caches_are_offered(
    home: Seq<char>,
    family: DistroFamily,
    name: Seq<char>,
    facts: ScanFacts,
    connections: (Seq<Seq<char>>, Seq<Seq<char>>),
    relative: Seq<char>,
)
    requires
        relative == ".cache/torch/hub"@ || relative == ".cache/whisper"@ || relative
            == ".lmstudio/models"@ || relative == ".cache/gpt4all"@ || relative
            == ".cache/torch/sentence_transformers"@ || relative == ".cache/modelscope/hub"@,
        measured(facts.sizes@, joined_path(home, relative)) > 0,
    ensures
        offers_removal(
            scan_findings(home, family, name, facts, connections).0,
            joined_path(home, relative),
            measured(facts.sizes@, joined_path(home, relative)),
        ),
{
    let all = static_caches();
    reveal_strlit(".local/share/Trash");
    reveal_strlit(".cache/torch/hub");
    reveal_strlit(".cache/whisper");
    reveal_strlit(".lmstudio/models");
    reveal_strlit(".cache/gpt4all");
    reveal_strlit(".cache/torch/sentence_transformers");
    reveal_strlit(".cache/modelscope/hub");
    assert(".local/share/Trash"@.len() == 18 && relative.len() != 18);
    assert(all[0].relative == ".cache/torch/hub"@ && all[1].relative == ".cache/whisper"@
        && all[2].relative == ".lmstudio/models"@ && all[3].relative == ".cache/gpt4all"@
        && all[4].relative == ".cache/torch/sentence_transformers"@ && all[5].relative
        == ".cache/modelscope/hub"@);
    filled_caches_are_offered(home, family, name, facts, connections, relative);
}

/// The command for a model is allowed wherever the name of the model is one that may be given to
/// `ollama`.
pub proof fn model_removal_is_allowed(name: Seq<char>, bytes: u64)
    requires
        valid_ollama_name(name),
    ensures
        ({
            let command = ollama_item(name, bytes).action->Command_0;
            allowed_command(command.program, command.args, command.requires_root)
        }),
{
}

} // verus!
