//! Caches of language models and model weights.
use vstd::prelude::*;
use vstd::string::*;

use crate::facts::{bytes_at, measured, Measured};
use crate::guard::{is_repository_name, part_text, repository_name};
use crate::model::{
    item_views, ActionView, CleanupAction, CleanupGroup, CleanupItem, CommandView, ItemView, Risk,
};
use crate::path::{
    absolute, components_below, is_within, join_path, joined_path, joining_appends,
    joining_relative, last_name, lies_in, name_is_plain, one_more_component, parts, parts_below,
    simple_name, Component, Part,
};
use crate::text::{
    chars_of, contains, has_infix, has_prefix, is_ascii_alphanumeric, is_in, is_white, kept, list2,
    no_white, occurs_at, replace_char, replaced, same, strip_prefix, texts,
};
use crate::uninstall::optional_text;

verus! {

pub open spec fn is_model_name_char(c: char) -> bool {
    is_ascii_alphanumeric(c) || c == '.' || c == '_' || c == '+' || c == ':' || c == '@' || c == '/'
        || c == '-'
}

/// A name that `ollama rm` may be given, such as `library/model:tag`: from a fixed set of
/// characters, not an option, of bounded length, and without a step out of a directory.
pub open spec fn valid_ollama_name(name: Seq<char>) -> bool {
    &&& 0 < name.len() <= 255
    &&& name[0] != '-'
    &&& name[0] != '/'
    &&& name.last() != '/'
    &&& !has_infix(name, ".."@)
    &&& !has_infix(name, "//"@)
    &&& forall|i: int| 0 <= i < name.len() ==> is_model_name_char(#[trigger] name[i])
}

pub fn is_valid_ollama_model_name(value: &str) -> (r: bool)
    ensures
        r == valid_ollama_name(value@),
{
    let chars = chars_of(value);
    if chars.len() == 0 || chars.len() > 255 {
        return false;
    }
    if chars[0] == '-' || chars[0] == '/' || chars[chars.len() - 1] == '/' {
        return false;
    }
    if contains(value, "..") || contains(value, "//") {
        return false;
    }
    let mut i: usize = 0;
    while i < chars.len()
        invariant
            i <= chars@.len(),
            chars@ == value@,
            forall|j: int| 0 <= j < i ==> is_model_name_char(#[trigger] value@[j]),
        decreases chars.len() - i,
    {
        let c = chars[i];
        let letter = ('a' <= c && c <= 'z') || ('A' <= c && c <= 'Z') || ('0' <= c && c <= '9');
        if !(letter || c == '.' || c == '_' || c == '+' || c == ':' || c == '@' || c == '/' || c
            == '-') {
            proof {
                assert(!is_model_name_char(value@[i as int]));
            }
            return false;
        }
        i = i + 1;
    }
    true
}

/// The directory of the Hugging Face hub: below `HF_HOME` where that is set.
pub open spec fn hub_dir(hf_home: Option<Seq<char>>, home: Seq<char>) -> Seq<char> {
    match hf_home {
        Some(dir) => joined_path(dir, "hub"@),
        None => joined_path(home, ".cache/huggingface/hub"@),
    }
}

pub fn huggingface_hub_dir(hf_home: Option<&str>, home: &str) -> (r: String)
    ensures
        r@ == hub_dir(
            match hf_home {
                Some(dir) => Some(dir@),
                None => None,
            },
            home@,
        ),
{
    match hf_home {
        Some(dir) => join_path(dir, "hub"),
        None => join_path(home, ".cache/huggingface/hub"),
    }
}


// ---------------------------------------------------------------------------------------
// Caches at a fixed place
// ---------------------------------------------------------------------------------------

/// A place below the home directory, and what is kept there.
pub struct CachePlace {
    pub relative: Seq<char>,
    pub label: Seq<char>,
}

/// How the items of a list of places are called and ranked.
pub struct CacheKind {
    pub prefix: Seq<char>,
    pub group: CleanupGroup,
    pub risk: Risk,
}

pub open spec fn places(definitions: Seq<(&str, &str)>) -> Seq<CachePlace> {
    definitions.map_values(
        |definition: (&str, &str)|
            CachePlace { relative: definition.0@, label: definition.1@ },
    )
}

/// The item for a place that holds anything.
pub open spec fn place_item(
    home: Seq<char>,
    sizes: Seq<Measured>,
    kind: CacheKind,
    place: CachePlace,
) -> Option<ItemView> {
    let path = joined_path(home, place.relative);
    let bytes = measured(sizes, path);
    if bytes == 0 {
        None
    } else {
        Some(
            ItemView {
                id: kind.prefix + "."@ + replaced(place.relative, '/', '.'),
                group: kind.group,
                label: place.label,
                estimated_bytes: bytes,
                risk: kind.risk,
                action: ActionView::RemovePath { path, contents_only: false },
            },
        )
    }
}

pub open spec fn place_items(
    home: Seq<char>,
    sizes: Seq<Measured>,
    kind: CacheKind,
    all: Seq<CachePlace>,
) -> Seq<ItemView> {
    kept(all, |place: CachePlace| place_item(home, sizes, kind, place))
}

/// Adds an item for each place that holds anything.
pub fn scan_places(
    home: &str,
    sizes: &Vec<Measured>,
    prefix: &str,
    group: CleanupGroup,
    risk: Risk,
    definitions: &[(&str, &str)],
    items: &mut Vec<CleanupItem>,
)
    ensures
        item_views(final(items)@) == item_views(old(items)@) + place_items(
            home@,
            sizes@,
            (CacheKind { prefix: prefix@, group, risk }),
            places(definitions@),
        ),
{
    let ghost start = item_views(items@);
    let ghost kind = CacheKind { prefix: prefix@, group, risk };
    let ghost all = places(definitions@);
    let ghost keep = |place: CachePlace| place_item(home@, sizes@, kind, place);
    let mut i: usize = 0;
    while i < definitions.len()
        invariant
            i <= definitions@.len(),
            kind == (CacheKind { prefix: prefix@, group, risk }),
            all == places(definitions@),
            keep == (|place: CachePlace| place_item(home@, sizes@, kind, place)),
            item_views(items@) =~= start + kept(all.take(i as int), keep),
        decreases definitions.len() - i,
    {
        let (relative, label) = definitions[i];
        let path = join_path(home, relative);
        let estimated_bytes: u64 = bytes_at(sizes, path.as_str());
        let ghost place = CachePlace { relative: relative@, label: label@ };
        proof {
            assert(all.take(i + 1).drop_last() =~= all.take(i as int));
            assert(all.take(i + 1).last() == place);
            assert(keep(place) == place_item(home@, sizes@, kind, place));
        }
        if estimated_bytes != 0 {
            let id = prefix.to_owned().concat(".").concat(
                replace_char(relative, '/', '.').as_str(),
            );
            let item = CleanupItem {
                id,
                group,
                label: label.to_owned(),
                estimated_bytes,
                risk,
                action: CleanupAction::RemovePath { path, contents_only: false },
            };
            let ghost before = items@;
            items.push(item);
            proof {
                assert(item_views(items@) =~= item_views(before).push(item@));
            }
        }
        i = i + 1;
    }
    proof {
        assert(all.take(definitions@.len() as int) =~= all);
    }
}

/// The weights that tools other than Ollama and Hugging Face download.
pub open spec fn static_caches() -> Seq<CachePlace> {
    seq![
        CachePlace { relative: ".cache/torch/hub"@, label: "PyTorch Hub cached models"@ },
        CachePlace { relative: ".cache/whisper"@, label: "OpenAI Whisper model cache"@ },
        CachePlace { relative: ".lmstudio/models"@, label: "LM Studio downloaded models"@ },
        CachePlace {
            relative: ".cache/gpt4all"@,
            label: "GPT4All (Python bindings) model cache"@,
        },
        CachePlace {
            relative: ".cache/torch/sentence_transformers"@,
            label: "sentence-transformers model cache"@,
        },
        CachePlace {
            relative: ".cache/modelscope/hub"@,
            label: "ModelScope model and dataset cache"@,
        },
    ]
}

pub open spec fn static_kind() -> CacheKind {
    CacheKind { prefix: "models"@, group: CleanupGroup::Models, risk: Risk::Elevated }
}

/// The caches of model runners, each with its place and its label.
pub fn static_definitions() -> (r: [(&'static str, &'static str); 6])
    ensures
        places(r@) == static_caches(),
{
    let definitions = [
        (".cache/torch/hub", "PyTorch Hub cached models"),
        (".cache/whisper", "OpenAI Whisper model cache"),
        (".lmstudio/models", "LM Studio downloaded models"),
        (".cache/gpt4all", "GPT4All (Python bindings) model cache"),
        (".cache/torch/sentence_transformers", "sentence-transformers model cache"),
        (".cache/modelscope/hub", "ModelScope model and dataset cache"),
    ];
    proof {
        assert(places(definitions@) =~= static_caches());
    }
    definitions
}

fn scan_static_caches(home: &str, sizes: &Vec<Measured>, items: &mut Vec<CleanupItem>)
    ensures
        item_views(final(items)@) == item_views(old(items)@) + place_items(
            home@,
            sizes@,
            static_kind(),
            static_caches(),
        ),
{
    let definitions = static_definitions();
    scan_places(
        home,
        sizes,
        "models",
        CleanupGroup::Models,
        Risk::Elevated,
        &definitions,
        items,
    );
}

// ---------------------------------------------------------------------------------------
// Ollama
// ---------------------------------------------------------------------------------------

/// Where Ollama keeps its models: at `OLLAMA_MODELS` where that is set.
pub open spec fn ollama_root(ollama_models: Option<Seq<char>>, home: Seq<char>) -> Seq<char> {
    match ollama_models {
        Some(dir) => dir,
        None => joined_path(home, ".ollama/models"@),
    }
}

pub fn ollama_models_root(ollama_models: &Option<String>, home: &str) -> (r: String)
    ensures
        r@ == ollama_root(optional_text(*ollama_models), home@),
{
    match ollama_models {
        Some(dir) => dir.clone(),
        None => join_path(home, ".ollama/models"),
    }
}

/// The blobs that a manifest names by their digests.
#[derive(Debug, PartialEq, Eq)]
pub struct Manifest {
    pub config: Option<String>,
    pub layers: Vec<String>,
}

/// An entry below the directory of manifests.
#[derive(Debug, PartialEq, Eq)]
pub enum ManifestEntry {
    /// The entry could not be visited.
    Unreadable,
    /// The entry is no plain file.
    NoFile,
    /// A file, with its manifest where it could be read and understood.
    File { path: String, manifest: Option<Manifest> },
}

/// What was found where Ollama keeps its models.
#[derive(Debug, PartialEq, Eq)]
pub struct OllamaFacts {
    /// The value of `OLLAMA_MODELS`.
    pub ollama_models: Option<String>,
    /// Whether there is a directory of manifests.
    pub manifests_found: bool,
    pub entries: Vec<ManifestEntry>,
    /// The blobs with their sizes; symbolic links count nothing.
    pub blobs: Vec<Measured>,
}

/// The name by which Ollama knows a model.
pub open spec fn ollama_name(
    registry: Seq<char>,
    namespace: Seq<char>,
    model: Seq<char>,
    tag: Seq<char>,
) -> Seq<char> {
    if registry == "registry.ollama.ai"@ {
        if namespace == "library"@ {
            model + ":"@ + tag
        } else {
            namespace + "/"@ + model + ":"@ + tag
        }
    } else {
        registry + "/"@ + namespace + "/"@ + model + ":"@ + tag
    }
}

/// The name by which Ollama knows a model, such as `qwen3-coder:latest`. The default registry
/// and its default namespace are left out.
pub fn ollama_display_name(registry: &str, namespace: &str, model: &str, tag: &str) -> (r: String)
    ensures
        r@ == ollama_name(registry@, namespace@, model@, tag@),
{
    if same(registry, "registry.ollama.ai") {
        if same(namespace, "library") {
            model.to_owned().concat(":").concat(tag)
        } else {
            namespace.to_owned().concat("/").concat(model).concat(":").concat(tag)
        }
    } else {
        registry.to_owned().concat("/").concat(namespace).concat("/").concat(model).concat(
            ":",
        ).concat(tag)
    }
}

/// The size of the blob with a digest such as `sha256:...`.
pub open spec fn blob_bytes(blobs_dir: Seq<char>, blobs: Seq<Measured>, digest: Seq<char>) -> u64 {
    if has_prefix(digest, "sha256:"@) {
        measured(blobs, joined_path(blobs_dir, "sha256-"@ + digest.skip("sha256:"@.len() as int)))
    } else {
        0
    }
}

/// The file in which the blob with a digest lies.
pub fn blob_path(blobs_dir: &str, digest: &str) -> (r: Option<String>)
    ensures
        match r {
            Some(path) => has_prefix(digest@, "sha256:"@) && path@ == joined_path(
                blobs_dir@,
                "sha256-"@ + digest@.skip("sha256:"@.len() as int),
            ),
            None => !has_prefix(digest@, "sha256:"@),
        },
{
    match strip_prefix(digest, "sha256:") {
        Some(hash) => Some(
            join_path(blobs_dir, "sha256-".to_owned().concat(hash.as_str()).as_str()),
        ),
        None => None,
    }
}

fn blob_size(blobs_dir: &str, blobs: &Vec<Measured>, digest: &str) -> (r: u64)
    ensures
        r == blob_bytes(blobs_dir@, blobs@, digest@),
{
    match blob_path(blobs_dir, digest) {
        Some(path) => bytes_at(blobs, path.as_str()),
        None => 0,
    }
}

pub open spec fn layer_bytes(
    blobs_dir: Seq<char>,
    blobs: Seq<Measured>,
    layers: Seq<String>,
) -> nat
    decreases layers.len(),
{
    if layers.len() == 0 {
        0
    } else {
        layer_bytes(blobs_dir, blobs, layers.drop_last()) + blob_bytes(
            blobs_dir,
            blobs,
            layers.last()@,
        ) as nat
    }
}

/// The bytes of all blobs of a manifest.
pub open spec fn manifest_bytes(
    blobs_dir: Seq<char>,
    blobs: Seq<Measured>,
    manifest: Manifest,
) -> nat {
    layer_bytes(blobs_dir, blobs, manifest.layers@) + match manifest.config {
        Some(digest) => blob_bytes(blobs_dir, blobs, digest@) as nat,
        None => 0,
    }
}

proof fn lemma_layers_grow(
    blobs_dir: Seq<char>,
    blobs: Seq<Measured>,
    layers: Seq<String>,
    upto: int,
)
    requires
        0 <= upto <= layers.len(),
    ensures
        layer_bytes(blobs_dir, blobs, layers.take(upto)) <= layer_bytes(blobs_dir, blobs, layers),
    decreases layers.len(),
{
    if upto < layers.len() {
        lemma_layers_grow(blobs_dir, blobs, layers.drop_last(), upto);
        assert(layers.drop_last().take(upto) =~= layers.take(upto));
    } else {
        assert(layers.take(upto) =~= layers);
    }
}

/// The bytes of all blobs of a manifest, if they add up in 64 bits.
fn add_manifest(blobs_dir: &str, blobs: &Vec<Measured>, manifest: &Manifest) -> (r: Option<u64>)
    ensures
        match r {
            Some(bytes) => bytes == manifest_bytes(blobs_dir@, blobs@, *manifest),
            None => manifest_bytes(blobs_dir@, blobs@, *manifest) > u64::MAX,
        },
{
    let first: u64 = match &manifest.config {
        Some(digest) => blob_size(blobs_dir, blobs, digest.as_str()),
        None => 0,
    };
    let mut total: u64 = first;
    let mut i: usize = 0;
    while i < manifest.layers.len()
        invariant
            i <= manifest.layers@.len(),
            total == first + layer_bytes(blobs_dir@, blobs@, manifest.layers@.take(i as int)),
            first == (match manifest.config {
                Some(digest) => blob_bytes(blobs_dir@, blobs@, digest@) as nat,
                None => 0,
            }),
        decreases manifest.layers.len() - i,
    {
        let bytes: u64 = blob_size(blobs_dir, blobs, manifest.layers[i].as_str());
        proof {
            assert(manifest.layers@.take(i + 1).drop_last() =~= manifest.layers@.take(i as int));
            lemma_layers_grow(blobs_dir@, blobs@, manifest.layers@, i + 1);
        }
        if bytes > u64::MAX - total {
            return None;
        }
        total = total + bytes;
        i = i + 1;
    }
    proof {
        assert(manifest.layers@.take(manifest.layers@.len() as int) =~= manifest.layers@);
    }
    Some(total)
}

/// The item that removes a model.
pub open spec fn ollama_item(name: Seq<char>, estimated_bytes: u64) -> ItemView {
    ItemView {
        id: "models.ollama."@ + replaced(replaced(name, '/', '.'), ':', '.'),
        group: CleanupGroup::Models,
        label: "Ollama model "@ + name,
        estimated_bytes,
        risk: Risk::Elevated,
        action: ActionView::Command(
            CommandView { program: "ollama"@, args: seq!["rm"@, name], requires_root: false },
        ),
    }
}

/// What an entry below the directory of manifests comes to.
pub enum ManifestOutcome {
    /// The entry does not count.
    Skipped,
    /// The entry cannot be read, or does not lie where a manifest lies.
    Broken,
    Model(ItemView),
}

/// A manifest lies at `registry/namespace/model/tag`.
pub open spec fn manifest_outcome(
    manifests_dir: Seq<char>,
    blobs_dir: Seq<char>,
    blobs: Seq<Measured>,
    entry: ManifestEntry,
) -> ManifestOutcome {
    match entry {
        ManifestEntry::Unreadable => ManifestOutcome::Broken,
        ManifestEntry::NoFile => ManifestOutcome::Skipped,
        ManifestEntry::File { path, manifest } => {
            let below = parts_below(path@, manifests_dir);
            if !lies_in(path@, manifests_dir) {
                ManifestOutcome::Skipped
            } else if below.len() != 4 {
                ManifestOutcome::Broken
            } else {
                match manifest {
                    None => ManifestOutcome::Broken,
                    Some(manifest) => ManifestOutcome::Model(
                        ollama_item(
                            ollama_name(
                                part_text(below[0]),
                                part_text(below[1]),
                                part_text(below[2]),
                                part_text(below[3]),
                            ),
                            manifest_bytes(blobs_dir, blobs, manifest) as u64,
                        ),
                    ),
                }
            }
        },
    }
}

pub open spec fn outcome_item(outcome: ManifestOutcome) -> Option<ItemView> {
    match outcome {
        ManifestOutcome::Model(item) => Some(item),
        _ => None,
    }
}

/// The blobs of every manifest add up in 64 bits.
pub open spec fn manifests_fit(blobs_dir: Seq<char>, facts: OllamaFacts) -> bool {
    forall|i: int|
        0 <= i < facts.entries@.len() ==> match #[trigger] facts.entries@[i] {
            ManifestEntry::File { path, manifest: Some(manifest) } => manifest_bytes(
                blobs_dir,
                facts.blobs@,
                manifest,
            ) <= u64::MAX,
            _ => true,
        }
}

/// The models that Ollama has.
pub open spec fn ollama_items(root: Seq<char>, facts: OllamaFacts) -> Seq<ItemView> {
    kept(
        facts.entries@,
        |entry: ManifestEntry|
            outcome_item(
                manifest_outcome(
                    joined_path(root, "manifests"@),
                    joined_path(root, "blobs"@),
                    facts.blobs@,
                    entry,
                ),
            ),
    )
}

pub open spec fn has_broken_entry(root: Seq<char>, facts: OllamaFacts) -> bool {
    exists|i: int|
        0 <= i < facts.entries@.len() && manifest_outcome(
            joined_path(root, "manifests"@),
            joined_path(root, "blobs"@),
            facts.blobs@,
            #[trigger] facts.entries@[i],
        ) is Broken
}

pub open spec fn no_manifests_text(manifests_dir: Seq<char>) -> Seq<char> {
    "Ollama is installed but the models directory "@ + manifests_dir
        + " was not found; skipping Ollama model discovery"@
}

pub open spec fn broken_entries_text(manifests_dir: Seq<char>) -> Seq<char> {
    "some entries under "@ + manifests_dir
        + " could not be read or did not match the expected Ollama manifest layout"@
}

/// The items and the complaints of a scan for Ollama models.
pub open spec fn ollama_findings(
    home: Seq<char>,
    tools: Seq<Seq<char>>,
    facts: OllamaFacts,
) -> (Seq<ItemView>, Seq<Seq<char>>) {
    let root = ollama_root(optional_text(facts.ollama_models), home);
    let manifests_dir = joined_path(root, "manifests"@);
    if !tools.contains("ollama"@) {
        (seq![], seq![])
    } else if !facts.manifests_found {
        (seq![], seq![no_manifests_text(manifests_dir)])
    } else {
        (
            ollama_items(root, facts),
            if has_broken_entry(root, facts) {
                seq![broken_entries_text(manifests_dir)]
            } else {
                seq![]
            },
        )
    }
}

/// What an entry below the directory of manifests comes to, as a value.
enum Found {
    Skipped,
    Broken,
    Model(CleanupItem),
}

impl Found {
    spec fn outcome(self) -> ManifestOutcome {
        match self {
            Found::Skipped => ManifestOutcome::Skipped,
            Found::Broken => ManifestOutcome::Broken,
            Found::Model(item) => ManifestOutcome::Model(item@),
        }
    }
}

fn component_text(component: &Component) -> (r: &str)
    ensures
        r@ == part_text(component@),
{
    match component {
        Component::Root => "/",
        Component::Current => ".",
        Component::Parent => "..",
        Component::Normal(name) => name.as_str(),
    }
}

fn read_manifest(
    manifests_dir: &str,
    blobs_dir: &str,
    blobs: &Vec<Measured>,
    entry: &ManifestEntry,
) -> (r: Found)
    requires
        match *entry {
            ManifestEntry::File { path, manifest: Some(manifest) } => manifest_bytes(
                blobs_dir@,
                blobs@,
                manifest,
            ) <= u64::MAX,
            _ => true,
        },
    ensures
        r.outcome() == manifest_outcome(manifests_dir@, blobs_dir@, blobs@, *entry),
{
    let (path, manifest) = match entry {
        ManifestEntry::Unreadable => {
            return Found::Broken;
        },
        ManifestEntry::NoFile => {
            return Found::Skipped;
        },
        ManifestEntry::File { path, manifest } => (path, manifest),
    };
    if !is_within(path.as_str(), manifests_dir) {
        return Found::Skipped;
    }
    let below = components_below(path.as_str(), manifests_dir);
    proof {
        assert(parts_below(path@, manifests_dir@).len() == below@.len());
    }
    if below.len() != 4 {
        return Found::Broken;
    }
    let manifest = match manifest {
        None => {
            return Found::Broken;
        },
        Some(manifest) => manifest,
    };
    let estimated_bytes: u64 = match add_manifest(blobs_dir, blobs, manifest) {
        Some(bytes) => bytes,
        None => 0,
    };
    proof {
        let views = parts_below(path@, manifests_dir@);
        assert(views[0] == below@[0]@ && views[1] == below@[1]@);
        assert(views[2] == below@[2]@ && views[3] == below@[3]@);
    }
    let name = ollama_display_name(
        component_text(&below[0]),
        component_text(&below[1]),
        component_text(&below[2]),
        component_text(&below[3]),
    );
    let without_slash = replace_char(name.as_str(), '/', '.');
    let suffix = replace_char(without_slash.as_str(), ':', '.');
    Found::Model(
        CleanupItem {
            id: "models.ollama.".to_owned().concat(suffix.as_str()),
            group: CleanupGroup::Models,
            label: "Ollama model ".to_owned().concat(name.as_str()),
            estimated_bytes,
            risk: Risk::Elevated,
            action: CleanupAction::Command {
                program: "ollama".to_owned(),
                args: list2("rm", name.as_str()),
                requires_root: false,
            },
        },
    )
}

/// Adds the models that Ollama has. They are removed through `ollama rm`, for their blobs may
/// be shared.
fn scan_ollama(
    home: &str,
    tools: &Vec<String>,
    facts: &OllamaFacts,
    items: &mut Vec<CleanupItem>,
    warnings: &mut Vec<String>,
)
    requires
        manifests_fit(
            joined_path(ollama_root(optional_text(facts.ollama_models), home@), "blobs"@),
            *facts,
        ),
    ensures
        item_views(final(items)@) == item_views(old(items)@) + ollama_findings(
            home@,
            texts(tools@),
            *facts,
        ).0,
        texts(final(warnings)@) == texts(old(warnings)@) + ollama_findings(
            home@,
            texts(tools@),
            *facts,
        ).1,
{
    let ghost start = item_views(items@);
    let ghost complaints = texts(warnings@);
    let ghost findings = ollama_findings(home@, texts(tools@), *facts);
    if !is_in(tools, "ollama") {
        proof {
            assert(start + findings.0 =~= start);
            assert(complaints + findings.1 =~= complaints);
        }
        return;
    }
    let root = ollama_models_root(&facts.ollama_models, home);
    let manifests_dir = join_path(root.as_str(), "manifests");
    let blobs_dir = join_path(root.as_str(), "blobs");
    if !facts.manifests_found {
        warnings.push(
            "Ollama is installed but the models directory ".to_owned().concat(
                manifests_dir.as_str(),
            ).concat(" was not found; skipping Ollama model discovery"),
        );
        proof {
            assert(start + findings.0 =~= start);
            assert(texts(warnings@) =~= complaints + findings.1);
        }
        return;
    }
    let ghost keep = |entry: ManifestEntry|
        outcome_item(manifest_outcome(manifests_dir@, blobs_dir@, facts.blobs@, entry));
    let mut had_errors = false;
    let mut i: usize = 0;
    while i < facts.entries.len()
        invariant
            i <= facts.entries@.len(),
            manifests_fit(blobs_dir@, *facts),
            keep == (|entry: ManifestEntry|
                outcome_item(manifest_outcome(manifests_dir@, blobs_dir@, facts.blobs@, entry))),
            item_views(items@) =~= start + kept(facts.entries@.take(i as int), keep),
            had_errors == exists|j: int|
                0 <= j < i && manifest_outcome(
                    manifests_dir@,
                    blobs_dir@,
                    facts.blobs@,
                    #[trigger] facts.entries@[j],
                ) is Broken,
        decreases facts.entries.len() - i,
    {
        let entry = &facts.entries[i];
        let found = read_manifest(
            manifests_dir.as_str(),
            blobs_dir.as_str(),
            &facts.blobs,
            entry,
        );
        proof {
            assert(facts.entries@.take(i + 1).drop_last() =~= facts.entries@.take(i as int));
            assert(facts.entries@.take(i + 1).last() == *entry);
            assert(keep(*entry) == outcome_item(found.outcome()));
        }
        match found {
            Found::Skipped => {},
            Found::Broken => {
                had_errors = true;
            },
            Found::Model(item) => {
                let ghost before = items@;
                items.push(item);
                proof {
                    assert(item_views(items@) =~= item_views(before).push(item@));
                }
            },
        }
        i = i + 1;
    }
    proof {
        assert(facts.entries@.take(facts.entries@.len() as int) =~= facts.entries@);
        assert(item_views(items@) =~= start + findings.0);
    }
    if had_errors {
        warnings.push(
            "some entries under ".to_owned().concat(manifests_dir.as_str()).concat(
                " could not be read or did not match the expected Ollama manifest layout",
            ),
        );
    }
    proof {
        assert(texts(warnings@) =~= complaints + findings.1);
    }
}

// ---------------------------------------------------------------------------------------
// Hugging Face
// ---------------------------------------------------------------------------------------

/// An entry of the Hugging Face hub. A symbolic link is no directory.
#[derive(Debug, PartialEq, Eq)]
pub struct HubEntry {
    pub name: String,
    pub directory: bool,
    pub bytes: u64,
}

/// The item for a repository that holds anything.
pub open spec fn hub_item(hub: Seq<char>, entry: HubEntry) -> Option<ItemView> {
    if !entry.directory || !repository_name(entry.name@) || entry.bytes == 0 {
        None
    } else {
        Some(
            ItemView {
                id: "models.huggingface."@ + entry.name@,
                group: CleanupGroup::Models,
                label: "Hugging Face cache: "@ + entry.name@,
                estimated_bytes: entry.bytes,
                risk: Risk::Elevated,
                action: ActionView::RemovePath {
                    path: joined_path(hub, entry.name@),
                    contents_only: false,
                },
            },
        )
    }
}

pub open spec fn hub_items(hub: Seq<char>, entries: Seq<HubEntry>) -> Seq<ItemView> {
    kept(entries, |entry: HubEntry| hub_item(hub, entry))
}

fn scan_huggingface(hub: &str, entries: &Vec<HubEntry>, items: &mut Vec<CleanupItem>)
    ensures
        item_views(final(items)@) == item_views(old(items)@) + hub_items(hub@, entries@),
{
    let ghost start = item_views(items@);
    let ghost keep = |entry: HubEntry| hub_item(hub@, entry);
    let mut i: usize = 0;
    while i < entries.len()
        invariant
            i <= entries@.len(),
            keep == (|entry: HubEntry| hub_item(hub@, entry)),
            item_views(items@) =~= start + kept(entries@.take(i as int), keep),
        decreases entries.len() - i,
    {
        let entry = &entries[i];
        proof {
            assert(entries@.take(i + 1).drop_last() =~= entries@.take(i as int));
            assert(entries@.take(i + 1).last() == *entry);
            assert(keep(*entry) == hub_item(hub@, *entry));
        }
        if entry.directory && is_repository_name(entry.name.as_str()) && entry.bytes != 0 {
            let item = CleanupItem {
                id: "models.huggingface.".to_owned().concat(entry.name.as_str()),
                group: CleanupGroup::Models,
                label: "Hugging Face cache: ".to_owned().concat(entry.name.as_str()),
                estimated_bytes: entry.bytes,
                risk: Risk::Elevated,
                action: CleanupAction::RemovePath {
                    path: join_path(hub, entry.name.as_str()),
                    contents_only: false,
                },
            };
            let ghost before = items@;
            items.push(item);
            proof {
                assert(item_views(items@) =~= item_views(before).push(item@));
            }
        }
        i = i + 1;
    }
    proof {
        assert(entries@.take(entries@.len() as int) =~= entries@);
    }
}

// ---------------------------------------------------------------------------------------
// Scan
// ---------------------------------------------------------------------------------------

/// What was found where tools keep their models.
#[derive(Debug, PartialEq, Eq)]
pub struct ModelFacts {
    pub ollama: OllamaFacts,
    /// The value of `HF_HOME`.
    pub hf_home: Option<String>,
    /// The entries of the Hugging Face hub; none where it cannot be read.
    pub hub: Vec<HubEntry>,
}

/// The items and the complaints of a scan for models.
pub open spec fn model_findings(
    home: Seq<char>,
    tools: Seq<Seq<char>>,
    sizes: Seq<Measured>,
    facts: ModelFacts,
) -> (Seq<ItemView>, Seq<Seq<char>>) {
    (
        place_items(home, sizes, static_kind(), static_caches()) + ollama_findings(
            home,
            tools,
            facts.ollama,
        ).0 + hub_items(hub_dir(optional_text(facts.hf_home), home), facts.hub@),
        ollama_findings(home, tools, facts.ollama).1,
    )
}

/// The blobs of every Ollama manifest add up in 64 bits.
pub open spec fn models_fit(home: Seq<char>, facts: ModelFacts) -> bool {
    manifests_fit(
        joined_path(ollama_root(optional_text(facts.ollama.ollama_models), home), "blobs"@),
        facts.ollama,
    )
}

/// Whether the blobs of every Ollama manifest add up in 64 bits.
pub fn do_models_fit(home: &str, facts: &ModelFacts) -> (r: bool)
    ensures
        r == models_fit(home@, *facts),
{
    let root = ollama_models_root(&facts.ollama.ollama_models, home);
    let blobs_dir = join_path(root.as_str(), "blobs");
    let mut i: usize = 0;
    while i < facts.ollama.entries.len()
        invariant
            i <= facts.ollama.entries@.len(),
            forall|j: int|
                0 <= j < i ==> match #[trigger] facts.ollama.entries@[j] {
                    ManifestEntry::File { path, manifest: Some(manifest) } => manifest_bytes(
                        blobs_dir@,
                        facts.ollama.blobs@,
                        manifest,
                    ) <= u64::MAX,
                    _ => true,
                },
            blobs_dir@ == joined_path(
                ollama_root(optional_text(facts.ollama.ollama_models), home@),
                "blobs"@,
            ),
        decreases facts.ollama.entries.len() - i,
    {
        match &facts.ollama.entries[i] {
            ManifestEntry::File { path, manifest: Some(manifest) } => {
                if add_manifest(blobs_dir.as_str(), &facts.ollama.blobs, manifest).is_none() {
                    proof {
                        assert(manifest_bytes(blobs_dir@, facts.ollama.blobs@, *manifest)
                            > u64::MAX);
                        assert(facts.ollama.entries@[i as int] is File);
                    }
                    return false;
                }
            },
            _ => {},
        }
        i = i + 1;
    }
    true
}

/// Adds every model cache that was found. What is missing is passed over; what cannot be read
/// is complained about and does not end the scan.
pub fn scan(
    home: &str,
    tools: &Vec<String>,
    sizes: &Vec<Measured>,
    facts: &ModelFacts,
    items: &mut Vec<CleanupItem>,
    warnings: &mut Vec<String>,
)
    requires
        models_fit(home@, *facts),
    ensures
        item_views(final(items)@) == item_views(old(items)@) + model_findings(
            home@,
            texts(tools@),
            sizes@,
            *facts,
        ).0,
        texts(final(warnings)@) == texts(old(warnings)@) + model_findings(
            home@,
            texts(tools@),
            sizes@,
            *facts,
        ).1,
{
    let ghost start = item_views(items@);
    scan_static_caches(home, sizes, items);
    scan_ollama(home, tools, &facts.ollama, items, warnings);
    let hub = match &facts.hf_home {
        Some(dir) => huggingface_hub_dir(Some(dir.as_str()), home),
        None => huggingface_hub_dir(None, home),
    };
    scan_huggingface(hub.as_str(), &facts.hub, items);
    proof {
        let a = place_items(home@, sizes@, static_kind(), static_caches());
        let b = ollama_findings(home@, texts(tools@), facts.ollama).0;
        let c = hub_items(hub@, facts.hub@);
        assert(start + a + b + c =~= start + (a + b + c));
    }
}

// ---------------------------------------------------------------------------------------
// Laws
// ---------------------------------------------------------------------------------------

/// What stands before the first `mark`, and what stands behind it, is told by the whole.
proof fn lemma_split_at(a: Seq<char>, x: Seq<char>, b: Seq<char>, y: Seq<char>, mark: char)
    requires
        !a.contains(mark),
        !b.contains(mark),
        a + seq![mark] + x == b + seq![mark] + y,
    ensures
        a == b,
        x == y,
{
    let whole = a + seq![mark] + x;
    let other = b + seq![mark] + y;
    if a.len() < b.len() {
        assert(whole[a.len() as int] == mark);
        assert(other[a.len() as int] == b[a.len() as int]);
        assert(b.contains(b[a.len() as int]));
    }
    if b.len() < a.len() {
        assert(other[b.len() as int] == mark);
        assert(whole[b.len() as int] == a[b.len() as int]);
        assert(a.contains(a[b.len() as int]));
    }
    assert(whole.take(a.len() as int) =~= a);
    assert(other.take(b.len() as int) =~= b);
    assert(whole.skip(a.len() as int + 1) =~= x);
    assert(other.skip(b.len() as int + 1) =~= y);
}

/// The parts of a name, each as one text: those that Ollama leaves out are missing.
proof fn lemma_name_parts(
    registry: Seq<char>,
    namespace: Seq<char>,
    model: Seq<char>,
    tag: Seq<char>,
)
    ensures
        ({
            let short = model + seq![':'] + tag;
            let name = ollama_name(registry, namespace, model, tag);
            if registry != "registry.ollama.ai"@ {
                name == registry + seq!['/'] + (namespace + seq!['/'] + short)
            } else if namespace != "library"@ {
                name == namespace + seq!['/'] + short
            } else {
                name == short
            }
        }),
{
    reveal_strlit("/");
    reveal_strlit(":");
    assert("/"@ =~= seq!['/']);
    assert(":"@ =~= seq![':']);
    let short = model + seq![':'] + tag;
    assert(namespace + "/"@ + model + ":"@ + tag =~= namespace + seq!['/'] + short);
    assert(registry + "/"@ + namespace + "/"@ + model + ":"@ + tag =~= registry + seq!['/'] + (
    namespace + seq!['/'] + short));
}

/// The name tells a model from every other, where no part holds a `/` and no model a `:`.
pub proof fn ollama_names_differ(
    registry: Seq<char>,
    namespace: Seq<char>,
    model: Seq<char>,
    tag: Seq<char>,
    other_registry: Seq<char>,
    other_namespace: Seq<char>,
    other_model: Seq<char>,
    other_tag: Seq<char>,
)
    requires
        !registry.contains('/') && !other_registry.contains('/'),
        !namespace.contains('/') && !other_namespace.contains('/'),
        !model.contains('/') && !other_model.contains('/'),
        !tag.contains('/') && !other_tag.contains('/'),
        !model.contains(':') && !other_model.contains(':'),
        ollama_name(registry, namespace, model, tag) == ollama_name(
            other_registry,
            other_namespace,
            other_model,
            other_tag,
        ),
    ensures
        registry == other_registry,
        namespace == other_namespace,
        model == other_model,
        tag == other_tag,
{
    let default_registry = "registry.ollama.ai"@;
    let short = model + seq![':'] + tag;
    let other_short = other_model + seq![':'] + other_tag;
    let middle = namespace + seq!['/'] + short;
    let other_middle = other_namespace + seq!['/'] + other_short;
    lemma_name_parts(registry, namespace, model, tag);
    lemma_name_parts(other_registry, other_namespace, other_model, other_tag);
    assert(!short.contains('/') && !other_short.contains('/')) by {
        lemma_bare(model, tag);
        lemma_bare(other_model, other_tag);
    }
    assert(middle[namespace.len() as int] == '/');
    assert(other_middle[other_namespace.len() as int] == '/');
    assert((registry + seq!['/'] + middle)[registry.len() as int] == '/');
    assert((other_registry + seq!['/'] + other_middle)[other_registry.len() as int] == '/');
    if registry != default_registry && other_registry != default_registry {
        lemma_split_at(registry, middle, other_registry, other_middle, '/');
        lemma_split_at(namespace, short, other_namespace, other_short, '/');
    } else if registry != default_registry {
        if other_namespace != "library"@ {
            lemma_split_at(registry, middle, other_namespace, other_short, '/');
        }
    } else if other_registry != default_registry {
        if namespace != "library"@ {
            lemma_split_at(namespace, short, other_registry, other_middle, '/');
        }
    } else if namespace != "library"@ && other_namespace != "library"@ {
        lemma_split_at(namespace, short, other_namespace, other_short, '/');
    }
    lemma_split_at(model, tag, other_model, other_tag, ':');
}

proof fn lemma_bare(model: Seq<char>, tag: Seq<char>)
    requires
        !model.contains('/'),
        !tag.contains('/'),
    ensures
        !(model + seq![':'] + tag).contains('/'),
{
    let short = model + seq![':'] + tag;
    assert forall|i: int| 0 <= i < short.len() implies short[i] != '/' by {
        if i < model.len() {
            assert(model.contains(model[i]));
        } else if i > model.len() {
            assert(tag.contains(tag[i - model.len() - 1]));
        }
    }
}

/// The default namespace is left out only together with the default registry, and nothing else
/// is left out with it.
pub proof fn library_is_left_out_with_its_registry(
    registry: Seq<char>,
    namespace: Seq<char>,
    model: Seq<char>,
    tag: Seq<char>,
)
    ensures
        (ollama_name(registry, namespace, model, tag) == model + ":"@ + tag) == (registry
            == "registry.ollama.ai"@ && namespace == "library"@),
        registry != "registry.ollama.ai"@ ==> has_prefix(
            ollama_name(registry, namespace, model, tag),
            registry + "/"@ + namespace + "/"@,
        ),
{
    reveal_strlit("/");
    let name = ollama_name(registry, namespace, model, tag);
    let front = registry + "/"@ + namespace + "/"@;
    if registry != "registry.ollama.ai"@ {
        assert(name.take(front.len() as int) =~= front);
    }
    assert("/"@.len() == 1);
    assert((namespace + "/"@ + model + ":"@ + tag).len() > (model + ":"@ + tag).len());
    assert((registry + "/"@ + namespace + "/"@ + model + ":"@ + tag).len() > (model + ":"@
        + tag).len());
}

/// Where a manifest lies: `registry/namespace/model/tag` below the directory of manifests.
pub open spec fn manifest_path(
    manifests_dir: Seq<char>,
    registry: Seq<char>,
    namespace: Seq<char>,
    model: Seq<char>,
    tag: Seq<char>,
) -> Seq<char> {
    joined_path(
        joined_path(joined_path(joined_path(manifests_dir, registry), namespace), model),
        tag,
    )
}

proof fn lemma_manifest_path(
    manifests_dir: Seq<char>,
    registry: Seq<char>,
    namespace: Seq<char>,
    model: Seq<char>,
    tag: Seq<char>,
)
    requires
        manifests_dir.len() > 0,
        simple_name(registry) && simple_name(namespace) && simple_name(model) && simple_name(tag),
    ensures
        ({
            let path = manifest_path(manifests_dir, registry, namespace, model, tag);
            &&& lies_in(path, manifests_dir)
            &&& parts_below(path, manifests_dir) == seq![
                Part::Normal(registry),
                Part::Normal(namespace),
                Part::Normal(model),
                Part::Normal(tag),
            ]
        }),
{
    let a = joined_path(manifests_dir, registry);
    let b = joined_path(a, namespace);
    let c = joined_path(b, model);
    let path = joined_path(c, tag);
    one_more_component(manifests_dir, Part::Normal(registry));
    one_more_component(a, Part::Normal(namespace));
    one_more_component(b, Part::Normal(model));
    one_more_component(c, Part::Normal(tag));
    let n = parts(manifests_dir).len() as int;
    assert(parts(path).take(n) =~= parts(manifests_dir));
    assert(parts(path).skip(n) =~= seq![
        Part::Normal(registry),
        Part::Normal(namespace),
        Part::Normal(model),
        Part::Normal(tag),
    ]);
}

/// A manifest that can be read is a model: it is removed through `ollama rm` under the name that
/// its place gives it, with the bytes of all its blobs. One that cannot be read is complained
/// about.
pub proof fn manifest_is_a_model(
    manifests_dir: Seq<char>,
    blobs_dir: Seq<char>,
    blobs: Seq<Measured>,
    entry: ManifestEntry,
    registry: Seq<char>,
    namespace: Seq<char>,
    model: Seq<char>,
    tag: Seq<char>,
)
    requires
        manifests_dir.len() > 0,
        simple_name(registry) && simple_name(namespace) && simple_name(model) && simple_name(tag),
        entry is File,
        entry->path@ == manifest_path(manifests_dir, registry, namespace, model, tag),
    ensures
        match (manifest_outcome(manifests_dir, blobs_dir, blobs, entry), entry->manifest) {
            (ManifestOutcome::Model(item), Some(manifest)) => {
                &&& item.action == ActionView::Command(
                    CommandView {
                        program: "ollama"@,
                        args: seq!["rm"@, ollama_name(registry, namespace, model, tag)],
                        requires_root: false,
                    },
                )
                &&& item.estimated_bytes == manifest_bytes(blobs_dir, blobs, manifest) as u64
                &&& item.group is Models
            },
            (outcome, None) => outcome is Broken,
            _ => false,
        },
{
    lemma_manifest_path(manifests_dir, registry, namespace, model, tag);
}

/// A file that does not lie four steps below the directory of manifests is no model, and neither is
/// anything but a file.
pub proof fn other_entries_are_no_models(
    manifests_dir: Seq<char>,
    blobs_dir: Seq<char>,
    blobs: Seq<Measured>,
    entry: ManifestEntry,
)
    ensures
        manifest_outcome(manifests_dir, blobs_dir, blobs, entry) is Model ==> entry is File && lies_in(
            entry->path@,
            manifests_dir,
        ) && parts(entry->path@).len() == parts(manifests_dir).len() + 4 && entry->manifest is Some,
        entry is Unreadable ==> manifest_outcome(manifests_dir, blobs_dir, blobs, entry) is Broken,
        entry is NoFile ==> manifest_outcome(manifests_dir, blobs_dir, blobs, entry) is Skipped,
{
}

/// The bytes of a manifest are those of all its blobs: one more layer adds the bytes of its blob,
/// and the configuration counts as well.
pub proof fn every_blob_counts(
    blobs_dir: Seq<char>,
    blobs: Seq<Measured>,
    config: Option<String>,
    layers: Vec<String>,
    more: Vec<String>,
    layer: String,
)
    requires
        more@ == layers@.push(layer),
    ensures
        manifest_bytes(blobs_dir, blobs, (Manifest { config, layers: more })) == manifest_bytes(
            blobs_dir,
            blobs,
            (Manifest { config, layers }),
        ) + blob_bytes(blobs_dir, blobs, layer@),
        layers@.len() == 0 ==> manifest_bytes(blobs_dir, blobs, (Manifest { config, layers }))
            == match config {
            Some(digest) => blob_bytes(blobs_dir, blobs, digest@),
            None => 0,
        },
{
    assert(more@.drop_last() =~= layers@);
}

/// The blob with the digest `sha256:…` lies in the file `sha256-…`; other digests have no blob.
pub proof fn blob_lies_under_its_digest(blobs_dir: Seq<char>, blobs: Seq<Measured>, hash: Seq<char>)
    ensures
        blob_bytes(blobs_dir, blobs, "sha256:"@ + hash) == measured(
            blobs,
            joined_path(blobs_dir, "sha256-"@ + hash),
        ),
        forall|digest: Seq<char>|
            !has_prefix(digest, "sha256:"@) ==> #[trigger] blob_bytes(blobs_dir, blobs, digest)
                == 0,
{
    let mark = "sha256:"@;
    let digest = mark + hash;
    assert(digest.take(mark.len() as int) =~= mark);
    assert(digest.skip(mark.len() as int) =~= hash);
}

/// The caches of models lie where the environment says, and otherwise below the home directory.
pub proof fn environment_decides_where_models_lie(dir: Seq<char>, home: Seq<char>)
    ensures
        ollama_root(Some(dir), home) == dir,
        dir.len() > 0 ==> lies_in(hub_dir(Some(dir), home), dir) && last_name(
            hub_dir(Some(dir), home),
        ) == Some("hub"@),
        home.len() > 0 ==> lies_in(ollama_root(None, home), home) && lies_in(
            hub_dir(None, home),
            home,
        ),
{
    reveal_strlit("hub");
    reveal_strlit(".ollama/models");
    reveal_strlit(".cache/huggingface/hub");
    assert(!absolute(".ollama/models"@) && !absolute(".cache/huggingface/hub"@));
    if home.len() > 0 {
        joining_relative(home, ".ollama/models"@);
        joining_relative(home, ".cache/huggingface/hub"@);
    }
    if dir.len() > 0 {
        assert(simple_name("hub"@)) by {
            assert("hub"@.len() == 3);
        }
        name_is_plain("hub"@);
        joining_appends(dir, "hub"@);
        assert(parts(joined_path(dir, "hub"@)).last() == Part::Normal("hub"@));
    }
}

/// A name for `ollama rm` is one argument that stays in its directory: not an option, without
/// white space, without a step up and without an empty component.
pub proof fn ollama_names_are_one_argument(name: Seq<char>)
    requires
        valid_ollama_name(name),
    ensures
        0 < name.len() <= 255,
        name[0] != '-' && name[0] != '/' && name.last() != '/',
        no_white(name),
        forall|i: int|
            0 <= i < name.len() - 1 ==> !(#[trigger] name[i] == '/' && name[i + 1] == '/') && !(
            name[i] == '.' && name[i + 1] == '.'),
{
    reveal_strlit("..");
    reveal_strlit("//");
    assert forall|i: int| 0 <= i < name.len() implies !is_white(#[trigger] name[i]) by {
        assert(is_model_name_char(name[i]));
    }
    assert forall|i: int| 0 <= i < name.len() - 1 implies !(#[trigger] name[i] == '/' && name[i + 1]
        == '/') && !(name[i] == '.' && name[i + 1] == '.') by {
        if name[i] == '/' && name[i + 1] == '/' {
            assert(name.subrange(i, i + 2) =~= "//"@);
            assert(occurs_at(name, "//"@, i));
        }
        if name[i] == '.' && name[i + 1] == '.' {
            assert(name.subrange(i, i + 2) =~= ".."@);
            assert(occurs_at(name, ".."@, i));
        }
    }
}

/// Two models never share a name: the same name is given only to the same registry, namespace,
/// model and tag.
pub proof fn shown_names_differ(
    registry: &str,
    namespace: &str,
    model: &str,
    tag: &str,
    name: String,
    other_registry: &str,
    other_namespace: &str,
    other_model: &str,
    other_tag: &str,
    other_name: String,
)
    requires
        call_ensures(ollama_display_name, (registry, namespace, model, tag), name),
        call_ensures(
            ollama_display_name,
            (other_registry, other_namespace, other_model, other_tag),
            other_name,
        ),
        name@ == other_name@,
        !registry@.contains('/') && !other_registry@.contains('/'),
        !namespace@.contains('/') && !other_namespace@.contains('/'),
        !model@.contains('/') && !other_model@.contains('/'),
        !tag@.contains('/') && !other_tag@.contains('/'),
        !model@.contains(':') && !other_model@.contains(':'),
    ensures
        registry@ == other_registry@ && namespace@ == other_namespace@,
        model@ == other_model@ && tag@ == other_tag@,
{
    ollama_names_differ(
        registry@,
        namespace@,
        model@,
        tag@,
        other_registry@,
        other_namespace@,
        other_model@,
        other_tag@,
    );
}

} // verus!
