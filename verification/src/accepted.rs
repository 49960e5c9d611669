//! What a scan finds, the executor accepts.
use vstd::prelude::*;
use vstd::string::*;

use crate::command::{allowed_command, lossy_text, CommandOutput};
use crate::containers::{
    connection_items, connection_name, container_items, docker_view, flatpak_view, json_array,
    listed_connections, podman_connection_view, podman_rootful_view,
    podman_rootless_view,
};
use crate::distro::{arch_commands, DistroFamily};
use crate::guard::{known_caches, removable_path};
use crate::model::{ActionView, CleanupGroup, ItemView};
use crate::models::{
    hub_dir, hub_item, hub_items, manifest_outcome, model_findings, ollama_findings, ollama_root,
    outcome_item, place_item, place_items, static_caches, static_kind, CacheKind, CachePlace,
    HubEntry, ManifestEntry,
};
use crate::path::{
    absolute, absolute_starts_at_root, joined_path, joining_appends, lies_in, name_extends_plain,
    name_is_plain, parts, parts_below, plain, simple_name, Part,
};
use crate::scanner::{
    dev_caches, dev_kind, installed_snap_findings, journal_items, package_findings, scan_findings,
    trash_items, user_caches, user_kind, ScanFacts,
};
use crate::snaps::{
    active_revision_is_never_offered, disabled_item, snap_findings, snap_item, SnapEntry, SnapFacts,
};
use crate::text::{has_prefix, kept, texts};
use crate::uninstall::{optional_text, valid_identifier, valid_snap_revision};

verus! {

/// The executor accepts the item by what it removes or runs.
pub open spec fn acceptable(home: Seq<char>, hub: Seq<char>, item: ItemView) -> bool {
    match item.action {
        ActionView::RemovePath { path, contents_only } => removable_path(home, path, hub),
        ActionView::RemovePersonalFile { path, force } => false,
        ActionView::Command(command) => allowed_command(
            command.program,
            command.args,
            command.requires_root,
        ),
        ActionView::CommandSequence(commands) => forall|i: int|
            0 <= i < commands.len() ==> allowed_command(
                (#[trigger] commands[i]).program,
                commands[i].args,
                commands[i].requires_root,
            ),
    }
}

/// A home directory: an absolute path without a step up.
pub open spec fn proper_home(home: Seq<char>) -> bool {
    absolute(home) && !parts(home).contains(Part::Parent)
}

/// A component that no rule keeps from being removed.
pub open spec fn open_name(part: Part) -> bool {
    part matches Part::Normal(name) && name != ".git"@ && name != ".config"@ && name != ".ssh"@
        && name != ".gnupg"@
}

/// A plain path of such components.
pub open spec fn tame(path: Seq<char>) -> bool {
    plain(path) && forall|i: int| 0 <= i < parts(path).len() ==> open_name(#[trigger] parts(path)[i])
}

/// None of the first `n` characters is a separator.
spec fn bare(s: Seq<char>, n: int) -> bool
    decreases n,
{
    n <= 0 || (s[n - 1] != '/' && bare(s, n - 1))
}

proof fn lemma_bare(s: Seq<char>, n: int, i: int)
    requires
        bare(s, n),
        0 <= i < n,
    ensures
        s[i] != '/',
    decreases n,
{
    if i < n - 1 {
        lemma_bare(s, n - 1, i);
    }
}

/// A name by its first characters: a component, and none of those that rules speak of.
spec fn free_name(name: Seq<char>) -> bool {
    &&& 2 < name.len() <= 16 || (name.len() == 2 && name[0] != '.')
    &&& bare(name, name.len() as int)
    &&& name[0] == '.' ==> name[1] != 's' && !(name[1] == 'g' && (name[2] == 'i' || name[2] == 'n'))
        && !(name[1] == 'c' && name[2] == 'o')
}

proof fn lemma_free_name(name: Seq<char>)
    requires
        free_name(name),
    ensures
        simple_name(name),
        open_name(Part::Normal(name)),
{
    assert forall|i: int| 0 <= i < name.len() implies name[i] != '/' by {
        lemma_bare(name, name.len() as int, i);
    }
    reveal_strlit(".git");
    reveal_strlit(".config");
    reveal_strlit(".ssh");
    reveal_strlit(".gnupg");
    assert(".git"@[0] == '.' && ".git"@[1] == 'g' && ".git"@[2] == 'i');
    assert(".config"@[0] == '.' && ".config"@[1] == 'c' && ".config"@[2] == 'o');
    assert(".ssh"@[0] == '.' && ".ssh"@[1] == 's');
    assert(".gnupg"@[0] == '.' && ".gnupg"@[1] == 'g' && ".gnupg"@[2] == 'n');
    if name == seq!['.', '.'] {
        assert(name[0] == '.');
    }
    if name == seq!['.'] {
        assert(name.len() == 1);
    }
}

proof fn lemma_one(path: Seq<char>)
    requires
        free_name(path),
    ensures
        tame(path),
{
    lemma_free_name(path);
    name_is_plain(path);
}

proof fn lemma_two(path: Seq<char>, a: Seq<char>, b: Seq<char>)
    requires
        free_name(a),
        free_name(b),
        path =~= a.push('/') + b,
    ensures
        tame(path),
{
    lemma_free_name(a);
    lemma_free_name(b);
    name_is_plain(b);
    assert(a.contains(a.last()));
    assert(b.contains(b[0]));
    assert(joined_path(a, b) =~= path);
    name_extends_plain(a, b);
    assert(parts(path) =~= seq![Part::Normal(a), Part::Normal(b)]);
}

proof fn lemma_three(path: Seq<char>, a: Seq<char>, b: Seq<char>, c: Seq<char>)
    requires
        free_name(a),
        free_name(b),
        free_name(c),
        path =~= a.push('/') + b.push('/') + c,
    ensures
        tame(path),
{
    let rest = b.push('/') + c;
    lemma_two(rest, b, c);
    lemma_free_name(a);
    assert(a.contains(a.last()));
    assert(joined_path(a, rest) =~= path);
    name_extends_plain(a, rest);
    assert(parts(path).len() == 1 + parts(rest).len());
    assert forall|i: int| 0 <= i < parts(path).len() implies open_name(
        #[trigger] parts(path)[i],
    ) by {
        if i > 0 {
            assert(parts(path)[i] == parts(rest)[i - 1]);
        }
    }
}

proof fn lemma_caches_a()
    ensures
        tame(".cache/yay"@),
        tame(".cache/paru"@),
        tame(".cache/thumbnails"@),
        tame(".cache/mozilla"@),
        tame(".cache/chromium"@),
        tame(".cache/google-chrome"@),
{
    reveal_with_fuel(bare, 18);
    assert(tame(".cache/yay"@)) by {
        reveal_strlit(".cache/yay");
        reveal_strlit(".cache");
        reveal_strlit("yay");
        lemma_two(".cache/yay"@, ".cache"@, "yay"@);
    }
    assert(tame(".cache/paru"@)) by {
        reveal_strlit(".cache/paru");
        reveal_strlit(".cache");
        reveal_strlit("paru");
        lemma_two(".cache/paru"@, ".cache"@, "paru"@);
    }
    assert(tame(".cache/thumbnails"@)) by {
        reveal_strlit(".cache/thumbnails");
        reveal_strlit(".cache");
        reveal_strlit("thumbnails");
        lemma_two(".cache/thumbnails"@, ".cache"@, "thumbnails"@);
    }
    assert(tame(".cache/mozilla"@)) by {
        reveal_strlit(".cache/mozilla");
        reveal_strlit(".cache");
        reveal_strlit("mozilla");
        lemma_two(".cache/mozilla"@, ".cache"@, "mozilla"@);
    }
    assert(tame(".cache/chromium"@)) by {
        reveal_strlit(".cache/chromium");
        reveal_strlit(".cache");
        reveal_strlit("chromium");
        lemma_two(".cache/chromium"@, ".cache"@, "chromium"@);
    }
    assert(tame(".cache/google-chrome"@)) by {
        reveal_strlit(".cache/google-chrome");
        reveal_strlit(".cache");
        reveal_strlit("google-chrome");
        lemma_two(".cache/google-chrome"@, ".cache"@, "google-chrome"@);
    }
}

proof fn lemma_caches_b()
    ensures
        tame(".cache/microsoft-edge"@),
        tame(".cache/BraveSoftware"@),
        tame(".cache/vivaldi"@),
        tame(".cache/opera"@),
        tame(".local/share/Trash"@),
        tame(".cache/pip"@),
{
    reveal_with_fuel(bare, 18);
    assert(tame(".cache/microsoft-edge"@)) by {
        reveal_strlit(".cache/microsoft-edge");
        reveal_strlit(".cache");
        reveal_strlit("microsoft-edge");
        lemma_two(".cache/microsoft-edge"@, ".cache"@, "microsoft-edge"@);
    }
    assert(tame(".cache/BraveSoftware"@)) by {
        reveal_strlit(".cache/BraveSoftware");
        reveal_strlit(".cache");
        reveal_strlit("BraveSoftware");
        lemma_two(".cache/BraveSoftware"@, ".cache"@, "BraveSoftware"@);
    }
    assert(tame(".cache/vivaldi"@)) by {
        reveal_strlit(".cache/vivaldi");
        reveal_strlit(".cache");
        reveal_strlit("vivaldi");
        lemma_two(".cache/vivaldi"@, ".cache"@, "vivaldi"@);
    }
    assert(tame(".cache/opera"@)) by {
        reveal_strlit(".cache/opera");
        reveal_strlit(".cache");
        reveal_strlit("opera");
        lemma_two(".cache/opera"@, ".cache"@, "opera"@);
    }
    assert(tame(".local/share/Trash"@)) by {
        reveal_strlit(".local/share/Trash");
        reveal_strlit(".local");
        reveal_strlit("share");
        reveal_strlit("Trash");
        lemma_three(".local/share/Trash"@, ".local"@, "share"@, "Trash"@);
    }
    assert(tame(".cache/pip"@)) by {
        reveal_strlit(".cache/pip");
        reveal_strlit(".cache");
        reveal_strlit("pip");
        lemma_two(".cache/pip"@, ".cache"@, "pip"@);
    }
}

proof fn lemma_caches_c()
    ensures
        tame(".npm/_cacache"@),
        tame(".cache/pnpm"@),
        tame(".cache/yarn"@),
        tame(".cargo/registry/cache"@),
        tame(".cargo/registry/src"@),
        tame(".cargo/git"@),
{
    reveal_with_fuel(bare, 18);
    assert(tame(".npm/_cacache"@)) by {
        reveal_strlit(".npm/_cacache");
        reveal_strlit(".npm");
        reveal_strlit("_cacache");
        lemma_two(".npm/_cacache"@, ".npm"@, "_cacache"@);
    }
    assert(tame(".cache/pnpm"@)) by {
        reveal_strlit(".cache/pnpm");
        reveal_strlit(".cache");
        reveal_strlit("pnpm");
        lemma_two(".cache/pnpm"@, ".cache"@, "pnpm"@);
    }
    assert(tame(".cache/yarn"@)) by {
        reveal_strlit(".cache/yarn");
        reveal_strlit(".cache");
        reveal_strlit("yarn");
        lemma_two(".cache/yarn"@, ".cache"@, "yarn"@);
    }
    assert(tame(".cargo/registry/cache"@)) by {
        reveal_strlit(".cargo/registry/cache");
        reveal_strlit(".cargo");
        reveal_strlit("registry");
        reveal_strlit("cache");
        lemma_three(".cargo/registry/cache"@, ".cargo"@, "registry"@, "cache"@);
    }
    assert(tame(".cargo/registry/src"@)) by {
        reveal_strlit(".cargo/registry/src");
        reveal_strlit(".cargo");
        reveal_strlit("registry");
        reveal_strlit("src");
        lemma_three(".cargo/registry/src"@, ".cargo"@, "registry"@, "src"@);
    }
    assert(tame(".cargo/git"@)) by {
        reveal_strlit(".cargo/git");
        reveal_strlit(".cargo");
        reveal_strlit("git");
        lemma_two(".cargo/git"@, ".cargo"@, "git"@);
    }
}

proof fn lemma_caches_d()
    ensures
        tame("go/pkg/mod"@),
        tame(".gradle/caches"@),
        tame(".cache/composer"@),
        tame(".cache/uv"@),
        tame(".pnpm-store"@),
        tame(".cache/terragrunt"@),
{
    reveal_with_fuel(bare, 18);
    assert(tame("go/pkg/mod"@)) by {
        reveal_strlit("go/pkg/mod");
        reveal_strlit("go");
        reveal_strlit("pkg");
        reveal_strlit("mod");
        lemma_three("go/pkg/mod"@, "go"@, "pkg"@, "mod"@);
    }
    assert(tame(".gradle/caches"@)) by {
        reveal_strlit(".gradle/caches");
        reveal_strlit(".gradle");
        reveal_strlit("caches");
        lemma_two(".gradle/caches"@, ".gradle"@, "caches"@);
    }
    assert(tame(".cache/composer"@)) by {
        reveal_strlit(".cache/composer");
        reveal_strlit(".cache");
        reveal_strlit("composer");
        lemma_two(".cache/composer"@, ".cache"@, "composer"@);
    }
    assert(tame(".cache/uv"@)) by {
        reveal_strlit(".cache/uv");
        reveal_strlit(".cache");
        reveal_strlit("uv");
        lemma_two(".cache/uv"@, ".cache"@, "uv"@);
    }
    assert(tame(".pnpm-store"@)) by {
        reveal_strlit(".pnpm-store");
        lemma_one(".pnpm-store"@);
    }
    assert(tame(".cache/terragrunt"@)) by {
        reveal_strlit(".cache/terragrunt");
        reveal_strlit(".cache");
        reveal_strlit("terragrunt");
        lemma_two(".cache/terragrunt"@, ".cache"@, "terragrunt"@);
    }
}

proof fn lemma_caches_e()
    ensures
        tame(".terraform.d/plugin-cache"@),
        tame(".cache/ms-playwright"@),
        tame(".cache/.bun"@),
        tame(".cache/zig"@),
        tame(".cache/pre-commit"@),
        tame(".cache/go-build"@),
{
    reveal_with_fuel(bare, 18);
    assert(tame(".terraform.d/plugin-cache"@)) by {
        reveal_strlit(".terraform.d/plugin-cache");
        reveal_strlit(".terraform.d");
        reveal_strlit("plugin-cache");
        lemma_two(".terraform.d/plugin-cache"@, ".terraform.d"@, "plugin-cache"@);
    }
    assert(tame(".cache/ms-playwright"@)) by {
        reveal_strlit(".cache/ms-playwright");
        reveal_strlit(".cache");
        reveal_strlit("ms-playwright");
        lemma_two(".cache/ms-playwright"@, ".cache"@, "ms-playwright"@);
    }
    assert(tame(".cache/.bun"@)) by {
        reveal_strlit(".cache/.bun");
        reveal_strlit(".cache");
        reveal_strlit(".bun");
        lemma_two(".cache/.bun"@, ".cache"@, ".bun"@);
    }
    assert(tame(".cache/zig"@)) by {
        reveal_strlit(".cache/zig");
        reveal_strlit(".cache");
        reveal_strlit("zig");
        lemma_two(".cache/zig"@, ".cache"@, "zig"@);
    }
    assert(tame(".cache/pre-commit"@)) by {
        reveal_strlit(".cache/pre-commit");
        reveal_strlit(".cache");
        reveal_strlit("pre-commit");
        lemma_two(".cache/pre-commit"@, ".cache"@, "pre-commit"@);
    }
    assert(tame(".cache/go-build"@)) by {
        reveal_strlit(".cache/go-build");
        reveal_strlit(".cache");
        reveal_strlit("go-build");
        lemma_two(".cache/go-build"@, ".cache"@, "go-build"@);
    }
}

proof fn lemma_caches_f()
    ensures
        tame(".cache/ms-playwright-go"@),
{
    reveal_with_fuel(bare, 18);
    assert(tame(".cache/ms-playwright-go"@)) by {
        reveal_strlit(".cache/ms-playwright-go");
        reveal_strlit(".cache");
        reveal_strlit("ms-playwright-go");
        lemma_two(".cache/ms-playwright-go"@, ".cache"@, "ms-playwright-go"@);
    }
}

/// Every cache that the executor knows lies at a path that no other rule keeps.
pub proof fn known_caches_are_tame(path: Seq<char>)
    requires
        known_caches().contains(path),
    ensures
        tame(path),
{
    lemma_caches_a();
    lemma_caches_b();
    lemma_caches_c();
    lemma_caches_d();
    lemma_caches_e();
    lemma_caches_f();
    let i = choose|i: int| 0 <= i < known_caches().len() && known_caches()[i] == path;
    assert(0 <= i < 31);
}

/// A cache that the executor knows may be removed from every home directory.
pub proof fn known_cache_is_removable(home: Seq<char>, relative: Seq<char>, hub: Seq<char>)
    requires
        proper_home(home),
        known_caches().contains(relative),
    ensures
        removable_path(home, joined_path(home, relative), hub),
{
    known_caches_are_tame(relative);
    let path = joined_path(home, relative);
    joining_appends(home, relative);
    absolute_starts_at_root(home);
    assert(path[0] == home[0]);
    assert(parts(relative).len() > 0);
    assert(parts(path).len() == parts(home).len() + parts(relative).len());
    assert(parts(path).len() >= 2);
    assert(!parts(path).contains(Part::Parent)) by {
        if parts(path).contains(Part::Parent) {
            let i = choose|i: int| 0 <= i < parts(path).len() && parts(path)[i] == Part::Parent;
            if i < parts(home).len() {
                assert(parts(home)[i] == Part::Parent);
            } else {
                assert(open_name(parts(relative)[i - parts(home).len()]));
            }
        }
    }
    let below = parts_below(path, home);
    assert(!below.contains(Part::Normal(".git"@))) by {
        if below.contains(Part::Normal(".git"@)) {
            let i = choose|i: int| 0 <= i < below.len() && below[i] == Part::Normal(".git"@);
            assert(open_name(parts(relative)[i]));
        }
    }
    assert(open_name(parts(relative)[0]));
}


/// What is kept of a list was made of one of its members.
pub proof fn kept_comes_from<A, B>(list: Seq<A>, keep: spec_fn(A) -> Option<B>, i: int) -> (j: int)
    requires
        0 <= i < kept(list, keep).len(),
    ensures
        0 <= j < list.len(),
        keep(list[j]) == Some(kept(list, keep)[i]),
    decreases list.len(),
{
    let n = list.len() as int;
    let before = kept(list.drop_last(), keep);
    if i < before.len() {
        kept_comes_from(list.drop_last(), keep, i)
    } else {
        n - 1
    }
}

proof fn lemma_places(
    home: Seq<char>,
    hub: Seq<char>,
    facts: ScanFacts,
    kind: CacheKind,
    all: Seq<CachePlace>,
    i: int,
)
    requires
        proper_home(home),
        forall|j: int|
            0 <= j < all.len() ==> known_caches().contains((#[trigger] all[j]).relative),
        0 <= i < place_items(home, facts.sizes@, kind, all).len(),
    ensures
        acceptable(home, hub, place_items(home, facts.sizes@, kind, all)[i]),
{
    let keep = |place: CachePlace| place_item(home, facts.sizes@, kind, place);
    let j = kept_comes_from(all, keep, i);
    known_cache_is_removable(home, all[j].relative, hub);
}

/// Every place that a scan measures for applications and developers is a cache that the
/// executor knows.
pub proof fn scanned_places_are_known(j: int)
    ensures
        0 <= j < user_caches().len() ==> known_caches().contains(user_caches()[j].relative),
        0 <= j < dev_caches().len() ==> known_caches().contains(dev_caches()[j].relative),
        known_caches().contains(".local/share/Trash"@),
{
    assert(known_caches()[10] == ".local/share/Trash"@);
    if 0 <= j < user_caches().len() {
        assert(user_caches()[j].relative == known_caches()[j]);
    }
    if 0 <= j < dev_caches().len() {
        assert(dev_caches()[j].relative == known_caches()[j + 11]);
    }
}

proof fn lemma_snap(home: Seq<char>, hub: Seq<char>, facts: SnapFacts, i: int)
    requires
        0 <= i < snap_findings(facts).0.len(),
    ensures
        acceptable(home, hub, snap_findings(facts).0[i]),
{
    match facts.entries {
        Err(_) => {},
        Ok(entries) => {
            let keep = |entry: SnapEntry| disabled_item(facts.links@, entry);
            let j = kept_comes_from(entries@, keep, i);
            active_revision_is_never_offered(facts.links@, entries@[j]);
            let (name, revision, bytes) = choose|
                name: Seq<char>,
                revision: Seq<char>,
                bytes: u64,
            |
                {
                    &&& disabled_item(facts.links@, entries@[j]) == Some(
                        #[trigger] snap_item(name, revision, bytes),
                    )
                    &&& valid_identifier(name)
                    &&& valid_snap_revision(revision)
                };
            let flag = "--revision="@ + revision;
            let n = "--revision="@.len() as int;
            assert(flag.take(n) =~= "--revision="@);
            assert(flag.skip(n) =~= revision);
            assert(has_prefix(flag, "--revision="@));
        },
    }
}

proof fn lemma_container(
    home: Seq<char>,
    hub: Seq<char>,
    tools: Seq<Seq<char>>,
    names: Seq<Seq<char>>,
    i: int,
)
    requires
        forall|j: int| 0 <= j < names.len() ==> valid_identifier(#[trigger] names[j]),
        0 <= i < container_items(tools, names).len(),
    ensures
        acceptable(home, hub, container_items(tools, names)[i]),
{
    let item = container_items(tools, names)[i];
    let first: Seq<ItemView> = if tools.contains("docker"@) {
        seq![docker_view()]
    } else {
        seq![]
    };
    let second: Seq<ItemView> = if tools.contains("podman"@) {
        seq![podman_rootless_view(), podman_rootful_view()] + connection_items(names)
    } else {
        seq![]
    };
    assert(acceptable(home, hub, docker_view()));
    assert(acceptable(home, hub, podman_rootless_view()));
    assert(acceptable(home, hub, podman_rootful_view()));
    assert(acceptable(home, hub, flatpak_view()));
    if i < first.len() {
        assert(item == first[i]);
    } else if i < first.len() + second.len() {
        let k = i - first.len();
        assert(item == second[k]);
        if k >= 2 {
            assert(item == connection_items(names)[k - 2]);
            assert(item == podman_connection_view(names[k - 2]));
            assert(valid_identifier(names[k - 2]));
        }
    }
}

/// The names that a listing of connections gives are well-formed.
pub proof fn listed_names_are_valid(
    reply: Result<CommandOutput, String>,
    i: int,
)
    requires
        0 <= i < listed_connections(reply).0.len(),
    ensures
        valid_identifier(listed_connections(reply).0[i]),
{
    let entries = json_array(
        lossy_text(reply->Ok_0.stdout@),
    );
    let list = entries->Some_0;
    let keep = |entry: Seq<char>| connection_name(entry);
    let j = kept_comes_from(list, keep, i);
}

/// Outside the model caches, the executor accepts every item that a scan finds: no rule of
/// the scan and the executor drifts apart.
pub proof fn scanned_items_are_accepted(
    home: Seq<char>,
    hub: Seq<char>,
    family: DistroFamily,
    name: Seq<char>,
    facts: ScanFacts,
    connections: (Seq<Seq<char>>, Seq<Seq<char>>),
    i: int,
)
    requires
        proper_home(home),
        forall|j: int| 0 <= j < connections.0.len() ==> valid_identifier(
            #[trigger] connections.0[j],
        ),
        0 <= i < scan_findings(home, family, name, facts, connections).0.len(),
        scan_findings(home, family, name, facts, connections).0[i].group != CleanupGroup::Models,
    ensures
        acceptable(home, hub, scan_findings(home, family, name, facts, connections).0[i]),
{
    let tools = texts(facts.tools@);
    let sizes = facts.sizes@;
    let item = scan_findings(home, family, name, facts, connections).0[i];
    let packages = package_findings(family, tools, sizes).0;
    let journal = journal_items(tools, sizes);
    let snaps = installed_snap_findings(tools, facts.snaps).0;
    let user = place_items(home, sizes, user_kind(), user_caches());
    let trash = trash_items(home, sizes);
    let dev = place_items(home, sizes, dev_kind(), dev_caches());
    let containers = container_items(tools, connections.0);
    let n1 = packages.len() as int;
    let n2 = n1 + journal.len();
    let n3 = n2 + snaps.len();
    let n4 = n3 + user.len();
    let n5 = n4 + trash.len();
    let n6 = n5 + dev.len();
    let n7 = n6 + containers.len();
    assert forall|j: int| 0 <= j < user_caches().len() implies known_caches().contains(
        (#[trigger] user_caches()[j]).relative,
    ) by {
        scanned_places_are_known(j);
    }
    assert forall|j: int| 0 <= j < dev_caches().len() implies known_caches().contains(
        (#[trigger] dev_caches()[j]).relative,
    ) by {
        scanned_places_are_known(j);
    }
    if i < n1 {
        assert(item == packages[i]);
        assert(arch_commands().len() == 2);
    } else if i < n2 {
        assert(item == journal[i - n1]);
    } else if i < n3 {
        assert(item == snaps[i - n2]);
        lemma_snap(home, hub, facts.snaps, i - n2);
    } else if i < n4 {
        assert(item == user[i - n3]);
        lemma_places(home, hub, facts, user_kind(), user_caches(), i - n3);
    } else if i < n5 {
        assert(item == trash[i - n4]);
        scanned_places_are_known(0);
        known_cache_is_removable(home, ".local/share/Trash"@, hub);
    } else if i < n6 {
        assert(item == dev[i - n5]);
        lemma_places(home, hub, facts, dev_kind(), dev_caches(), i - n5);
    } else if i < n7 {
        assert(item == containers[i - n6]);
        lemma_container(home, hub, tools, connections.0, i - n6);
    } else {
        lemma_models_group(home, tools, facts, i - n7);
    }
}

/// Every item of a scan for models belongs to the group of models.
proof fn lemma_models_group(
    home: Seq<char>,
    tools: Seq<Seq<char>>,
    facts: ScanFacts,
    i: int,
)
    requires
        0 <= i < model_findings(home, tools, facts.sizes@, facts.models).0.len(),
    ensures
        model_findings(home, tools, facts.sizes@, facts.models).0[i].group
            == CleanupGroup::Models,
{
    let found = model_findings(home, tools, facts.sizes@, facts.models).0;
    let places = place_items(
        home,
        facts.sizes@,
        static_kind(),
        static_caches(),
    );
    let ollama = ollama_findings(home, tools, facts.models.ollama).0;
    let hub = hub_dir(optional_text(facts.models.hf_home), home);
    let repositories = hub_items(hub, facts.models.hub@);
    let n1 = places.len() as int;
    let n2 = n1 + ollama.len();
    if i < n1 {
        assert(found[i] == places[i]);
        let keep = |place: CachePlace|
            place_item(home, facts.sizes@, static_kind(), place);
        let j = kept_comes_from(static_caches(), keep, i);
    } else if i < n2 {
        assert(found[i] == ollama[i - n1]);
        let root = ollama_root(
            optional_text(facts.models.ollama.ollama_models),
            home,
        );
        let keep = |entry: ManifestEntry|
            outcome_item(
                manifest_outcome(
                    joined_path(root, "manifests"@),
                    joined_path(root, "blobs"@),
                    facts.models.ollama.blobs@,
                    entry,
                ),
            );
        let j = kept_comes_from(facts.models.ollama.entries@, keep, i - n1);
    } else {
        assert(found[i] == repositories[i - n2]);
        let keep = |entry: HubEntry| hub_item(hub, entry);
        let j = kept_comes_from(facts.models.hub@, keep, i - n2);
    }
}

/// A repository of the Hugging Face hub is accepted wherever the hub lies strictly below the
/// home directory, outside version control and settings.
pub proof fn hub_repositories_are_accepted(
    home: Seq<char>,
    hub: Seq<char>,
    entry: HubEntry,
)
    requires
        proper_home(home),
        hub_item(hub, entry) is Some,
        simple_name(entry.name@),
        absolute(hub),
        lies_in(hub, home),
        parts(hub).len() > parts(home).len(),
        forall|i: int|
            parts(home).len() <= i < parts(hub).len() ==> open_name(#[trigger] parts(hub)[i]),
    ensures
        acceptable(home, hub, hub_item(hub, entry).unwrap()),
{
    let name = entry.name@;
    let path = joined_path(hub, name);
    let n = parts(home).len() as int;
    name_is_plain(name);
    joining_appends(hub, name);
    absolute_starts_at_root(home);
    assert(path[0] == hub[0]);
    assert(parts(path) =~= parts(hub).push(Part::Normal(name)));
    assert(parts(path).drop_last() =~= parts(hub));
    assert(parts(path).take(n) =~= parts(hub).take(n));
    assert(!parts(path).contains(Part::Parent)) by {
        if parts(path).contains(Part::Parent) {
            let i = choose|i: int| 0 <= i < parts(path).len() && parts(path)[i] == Part::Parent;
            if i < n {
                assert(parts(home)[i] == parts(hub).take(n)[i]);
                assert(parts(home)[i] == Part::Parent);
            } else if i < parts(hub).len() {
                assert(open_name(parts(hub)[i]));
            }
        }
    }
    let below = parts_below(path, home);
    reveal_strlit(".git");
    reveal_strlit("models--");
    reveal_strlit("datasets--");
    reveal_strlit("spaces--");
    assert(name != ".git"@) by {
        assert(".git"@.len() == 4);
        assert("models--"@.len() == 8 && "datasets--"@.len() == 10 && "spaces--"@.len() == 8);
    }
    assert(!below.contains(Part::Normal(".git"@))) by {
        if below.contains(Part::Normal(".git"@)) {
            let i = choose|i: int| 0 <= i < below.len() && below[i] == Part::Normal(".git"@);
            if n + i < parts(hub).len() {
                assert(open_name(parts(hub)[n + i]));
            }
        }
    }
    assert(below[0] == parts(hub)[n]);
    assert(open_name(parts(hub)[n]));
}

} // verus!
