//! What a scan has to know the size of.
use vstd::prelude::*;
use vstd::string::*;

use crate::distro::{cache_paths, package_tool, DistroFamily};
use crate::facts::{measured, Measured};

use crate::models::{
    place_item, place_items, places, static_caches, static_definitions, static_kind, CacheKind,
    CachePlace,
};
use crate::path::{join_path, joined_path};
use crate::scanner::{
    dev_caches, dev_definitions, dev_kind, measured_total, scan_findings, user_caches,
    user_definitions, user_kind, ScanFacts, Scanner,
};
use crate::text::{push_text, texts};

verus! {

pub open spec fn place_paths(home: Seq<char>, all: Seq<CachePlace>) -> Seq<Seq<char>> {
    all.map_values(|place: CachePlace| joined_path(home, place.relative))
}

/// The paths whose sizes a scan asks for.
pub open spec fn measured_places(home: Seq<char>, family: DistroFamily) -> Seq<Seq<char>> {
    cache_paths(family) + seq![
        "/var/log/journal"@,
        joined_path(home, ".local/share/Trash"@),
    ] + place_paths(home, user_caches()) + place_paths(home, dev_caches()) + place_paths(
        home,
        static_caches(),
    )
}

fn add_places(home: &str, definitions: &[(&str, &str)], out: &mut Vec<String>)
    ensures
        texts(final(out)@) == texts(old(out)@) + place_paths(home@, places(definitions@)),
{
    let ghost start = texts(out@);
    let ghost all = place_paths(home@, places(definitions@));
    let mut i: usize = 0;
    proof {
        assert(start + all.take(0) =~= start);
    }
    while i < definitions.len()
        invariant
            i <= definitions@.len(),
            all == place_paths(home@, places(definitions@)),
            texts(out@) == start + all.take(i as int),
        decreases definitions.len() - i,
    {
        push_text(out, join_path(home, definitions[i].0));
        proof {
            assert(all[i as int] == joined_path(home@, definitions@[i as int].0@));
            assert(start + all.take(i + 1) =~= (start + all.take(i as int)).push(all[i as int]));
        }
        i = i + 1;
    }
    proof {
        assert(all.take(i as int) =~= all);
    }
}

impl Scanner {
    /// The paths whose sizes a scan asks for.
    pub fn measured_paths(&self) -> (r: Vec<String>)
        ensures
            texts(r@) == measured_places(self.home@, self.distro.family),
    {
        let mut out = self.distro.package_cache_paths();
        let ghost packages = texts(out@);
        push_text(&mut out, "/var/log/journal".to_owned());
        push_text(&mut out, join_path(self.home.as_str(), ".local/share/Trash"));
        proof {
            assert(texts(out@) =~= packages + seq![
                "/var/log/journal"@,
                joined_path(self.home@, ".local/share/Trash"@),
            ]);
        }
        add_places(self.home.as_str(), &user_definitions(), &mut out);
        add_places(self.home.as_str(), &dev_definitions(), &mut out);
        add_places(self.home.as_str(), &static_definitions(), &mut out);
        out
    }
}

/// The programs that a scan asks for: that of the package manager, and those of the other
/// groups.
pub open spec fn asked_tools(family: DistroFamily) -> Seq<Seq<char>> {
    (match package_tool(family) {
        Some(tool) => seq![tool],
        None => seq![],
    }) + seq!["journalctl"@, "snap"@, "docker"@, "podman"@, "flatpak"@, "ollama"@]
}

impl Scanner {
    /// The programs that a scan asks for.
    pub fn tools(&self) -> (r: Vec<String>)
        ensures
            texts(r@) == asked_tools(self.distro.family),
    {
        let mut out: Vec<String> = Vec::new();
        match self.distro.package_tool() {
            Some(tool) => push_text(&mut out, tool.to_owned()),
            None => {},
        }
        push_text(&mut out, "journalctl".to_owned());
        push_text(&mut out, "snap".to_owned());
        push_text(&mut out, "docker".to_owned());
        push_text(&mut out, "podman".to_owned());
        push_text(&mut out, "flatpak".to_owned());
        push_text(&mut out, "ollama".to_owned());
        proof {
            assert(texts(out@) =~= asked_tools(self.distro.family));
        }
        out
    }
}

// ---------------------------------------------------------------------------------------
// Laws
// ---------------------------------------------------------------------------------------

/// Two measurements agree on a list of paths.
pub open spec fn agree_on(a: Seq<Measured>, b: Seq<Measured>, paths: Seq<Seq<char>>) -> bool {
    forall|i: int| 0 <= i < paths.len() ==> measured(a, #[trigger] paths[i]) == measured(b, paths[i])
}

/// A scan finds the same whatever else was measured: only the sizes of the paths that it asks
/// for play a part.
pub proof fn measured_places_decide(
    home: Seq<char>,
    family: DistroFamily,
    name: Seq<char>,
    a: ScanFacts,
    b: ScanFacts,
    connections: (Seq<Seq<char>>, Seq<Seq<char>>),
)
    requires
        a.tools == b.tools,
        a.snaps == b.snaps,
        a.models == b.models,
        agree_on(a.sizes@, b.sizes@, measured_places(home, family)),
    ensures
        scan_findings(home, family, name, a, connections) == scan_findings(
            home,
            family,
            name,
            b,
            connections,
        ),
{
    let all = measured_places(home, family);
    let packages = cache_paths(family);
    let users = place_paths(home, user_caches());
    let devs = place_paths(home, dev_caches());
    let statics = place_paths(home, static_caches());
    let n = packages.len() as int;
    assert(all[n] == "/var/log/journal"@);
    assert(all[n + 1] == joined_path(home, ".local/share/Trash"@));
    assert forall|i: int| 0 <= i < packages.len() implies measured(a.sizes@, #[trigger] packages[i])
        == measured(b.sizes@, packages[i]) by {
        assert(all[i] == packages[i]);
    }
    assert forall|i: int| 0 <= i < users.len() implies measured(a.sizes@, #[trigger] users[i])
        == measured(b.sizes@, users[i]) by {
        assert(all[n + 2 + i] == users[i]);
    }
    assert forall|i: int| 0 <= i < devs.len() implies measured(a.sizes@, #[trigger] devs[i])
        == measured(b.sizes@, devs[i]) by {
        assert(all[n + 2 + users.len() + i] == devs[i]);
    }
    assert forall|i: int| 0 <= i < statics.len() implies measured(a.sizes@, #[trigger] statics[i])
        == measured(b.sizes@, statics[i]) by {
        assert(all[n + 2 + users.len() + devs.len() + i] == statics[i]);
    }
    lemma_same_total(a.sizes@, b.sizes@, packages);
    lemma_same_places(home, a.sizes@, b.sizes@, user_kind(), user_caches());
    lemma_same_places(home, a.sizes@, b.sizes@, dev_kind(), dev_caches());
    lemma_same_places(home, a.sizes@, b.sizes@, static_kind(), static_caches());
}

proof fn lemma_same_total(a: Seq<Measured>, b: Seq<Measured>, paths: Seq<Seq<char>>)
    requires
        agree_on(a, b, paths),
    ensures
        measured_total(a, paths) == measured_total(b, paths),
    decreases paths.len(),
{
    if paths.len() > 0 {
        let last = paths.len() - 1;
        assert(measured(a, paths[last]) == measured(b, paths[last]));
        assert forall|i: int| 0 <= i < last implies measured(a, #[trigger] paths.drop_last()[i])
            == measured(b, paths.drop_last()[i]) by {
            assert(paths.drop_last()[i] == paths[i]);
        }
        lemma_same_total(a, b, paths.drop_last());
    }
}

proof fn lemma_same_places(
    home: Seq<char>,
    a: Seq<Measured>,
    b: Seq<Measured>,
    kind: CacheKind,
    all: Seq<CachePlace>,
)
    requires
        agree_on(a, b, place_paths(home, all)),
    ensures
        place_items(home, a, kind, all) == place_items(home, b, kind, all),
    decreases all.len(),
{
    if all.len() > 0 {
        let paths = place_paths(home, all);
        let last = all.len() - 1;
        assert(measured(a, paths[last]) == measured(b, paths[last]));
        assert(place_item(home, a, kind, all.last()) == place_item(home, b, kind, all.last()));
        let before = place_paths(home, all.drop_last());
        assert forall|i: int| 0 <= i < last implies measured(a, #[trigger] before[i]) == measured(
            b,
            before[i],
        ) by {
            assert(before[i] == paths[i]);
        }
        lemma_same_places(home, a, b, kind, all.drop_last());
    }
}

} // verus!
