//! What takes up the space below a directory.
use vstd::prelude::*;
use vstd::string::*;

use crate::guard::part_text;
use crate::model::{ActionView, CleanupAction, CleanupGroup, CleanupItem, ItemView, Risk};
use crate::order::{is_ordering, sort_stable, sorting_keeps_sums, stably_sorted, sum_of, Ranked};
use crate::path::{
    component_parts, components_are_names, components_below, file_name, is_child_of, is_path_before,
    is_within, join_path, joined_path, last_name, lemma_parts_order, lies_in, one_more_component,
    parts, parts_below, path_before, same_path, Component, Part,
};
use crate::path_map::{lemma_found, lemma_position, position_of, PathMap};
use crate::text::{is_before, kept, kept_in_order, lemma_text_order, same, text_before};

verus! {

/// An entry directly below the directory that was analyzed, with all that lies below it.
#[derive(Debug, PartialEq, Eq)]
pub struct DiskEntry {
    pub name: String,
    pub path: String,
    pub size: u64,
    pub is_dir: bool,
}

/// A file of at least the size that was asked for.
#[derive(Debug, PartialEq, Eq)]
pub struct LargeFile {
    pub path: String,
    pub size: u64,
    pub modified_unix: Option<u64>,
    /// Whether the file lies in a hidden location.
    pub app_data: bool,
}

#[derive(Debug, PartialEq, Eq)]
pub struct AnalysisReport {
    pub root: String,
    pub entries: Vec<DiskEntry>,
    pub large_files: Vec<LargeFile>,
    pub total_size: u64,
    pub total_files: u64,
    pub skipped_entries: u64,
}

/// What a walk through a directory comes across.
#[derive(Debug, PartialEq, Eq)]
pub enum WalkEvent {
    /// An entry that could not be read.
    Skipped,
    /// An entry, with its size where it is a plain file, and whether the entry directly below
    /// the directory that it belongs to is a directory.
    Entry { path: String, file: Option<u64>, modified_unix: Option<u64>, top_is_dir: bool },
}

pub struct DiskEntryView {
    pub name: Seq<char>,
    pub path: Seq<char>,
    pub size: u64,
    pub is_dir: bool,
}

pub struct LargeFileView {
    pub path: Seq<char>,
    pub size: u64,
    pub modified_unix: Option<u64>,
    pub app_data: bool,
}

impl View for DiskEntry {
    type V = DiskEntryView;

    open spec fn view(&self) -> DiskEntryView {
        DiskEntryView {
            name: self.name@,
            path: self.path@,
            size: self.size,
            is_dir: self.is_dir,
        }
    }
}

impl View for LargeFile {
    type V = LargeFileView;

    open spec fn view(&self) -> LargeFileView {
        LargeFileView {
            path: self.path@,
            size: self.size,
            modified_unix: self.modified_unix,
            app_data: self.app_data,
        }
    }
}

impl Clone for DiskEntry {
    fn clone(&self) -> (r: Self)
        ensures
            r == *self,
    {
        DiskEntry {
            name: self.name.clone(),
            path: self.path.clone(),
            size: self.size,
            is_dir: self.is_dir,
        }
    }
}

impl Clone for LargeFile {
    fn clone(&self) -> (r: Self)
        ensures
            r == *self,
    {
        LargeFile {
            path: self.path.clone(),
            size: self.size,
            modified_unix: self.modified_unix,
            app_data: self.app_data,
        }
    }
}

pub open spec fn large_file_views(files: Seq<LargeFile>) -> Seq<LargeFileView> {
    files.map_values(|file: LargeFile| file@)
}

impl Ranked for DiskEntry {
    /// The larger entry first; entries of one size by name.
    open spec fn ranks_before(self, other: Self) -> bool {
        if self.size != other.size {
            self.size > other.size
        } else {
            text_before(self.name@, other.name@)
        }
    }

    fn is_before(&self, other: &Self) -> (r: bool) {
        if self.size != other.size {
            self.size > other.size
        } else {
            is_before(self.name.as_str(), other.name.as_str())
        }
    }

    proof fn rank_is_weak_order(a: Self, b: Self, c: Self) {
        lemma_text_order(a.name@, b.name@, c.name@);
        lemma_text_order(c.name@, a.name@, b.name@);
        lemma_text_order(c.name@, b.name@, a.name@);
    }
}

impl Ranked for LargeFile {
    /// The larger file first; files of one size by path.
    open spec fn ranks_before(self, other: Self) -> bool {
        if self.size != other.size {
            self.size > other.size
        } else {
            path_before(self.path@, other.path@)
        }
    }

    fn is_before(&self, other: &Self) -> (r: bool) {
        if self.size != other.size {
            self.size > other.size
        } else {
            is_path_before(self.path.as_str(), other.path.as_str())
        }
    }

    proof fn rank_is_weak_order(a: Self, b: Self, c: Self) {
        lemma_parts_order(parts(a.path@), parts(b.path@), parts(c.path@));
        lemma_parts_order(parts(c.path@), parts(a.path@), parts(b.path@));
        lemma_parts_order(parts(c.path@), parts(b.path@), parts(a.path@));
    }
}

// ---------------------------------------------------------------------------------------
// Models
// ---------------------------------------------------------------------------------------

/// Two sizes together, as far as 64 bits reach.
pub open spec fn saturating(a: int) -> u64 {
    if a > u64::MAX {
        u64::MAX
    } else {
        a as u64
    }
}

/// Whether a walk enters an entry: at the start always, below it anything but repositories'
/// data and installed packages.
pub open spec fn visited(depth: int, name: Seq<char>) -> bool {
    depth == 0 || (name != ".git"@ && name != "node_modules"@)
}

pub open spec fn hidden_part(part: Part) -> bool {
    part matches Part::Normal(name) && name.len() > 0 && name[0] == '.'
}

/// Whether one of the components is hidden.
pub open spec fn has_hidden_part(below: Seq<Part>) -> bool {
    exists|i: int| 0 <= i < below.len() && hidden_part(#[trigger] below[i])
}

/// The entry directly below `root` that `path` belongs to.
pub open spec fn top_of(root: Seq<char>, path: Seq<char>) -> Option<Seq<char>> {
    let below = parts_below(path, root);
    if parts(path) == parts(root) || !lies_in(path, root) || below.len() == 0 {
        None
    } else {
        Some(joined_path(root, part_text(below[0])))
    }
}

/// The entry directly below `root` that an event belongs to.
pub open spec fn event_top(root: Seq<char>, event: WalkEvent) -> Option<Seq<char>> {
    match event {
        WalkEvent::Skipped => None,
        WalkEvent::Entry { path, file, modified_unix, top_is_dir } => top_of(root, path@),
    }
}

/// The bytes that an event adds: those of a plain file below `root`.
pub open spec fn event_bytes(root: Seq<char>, event: WalkEvent) -> Option<u64> {
    match event {
        WalkEvent::Skipped => None,
        WalkEvent::Entry { path, file, modified_unix, top_is_dir } => if top_of(
            root,
            path@,
        ) is None {
            None
        } else {
            file
        },
    }
}

pub open spec fn event_top_is_dir(event: WalkEvent) -> bool {
    match event {
        WalkEvent::Skipped => false,
        WalkEvent::Entry { path, file, modified_unix, top_is_dir } => top_is_dir,
    }
}

/// What the events say of the entry at `key`: the bytes of all its files together, and whether
/// it is a directory, by the first event that belongs to it.
pub open spec fn bucket(events: Seq<WalkEvent>, root: Seq<char>, key: Seq<Part>) -> Option<
    (u64, bool),
>
    decreases events.len(),
{
    if events.len() == 0 {
        None
    } else {
        let before = bucket(events.drop_last(), root, key);
        let event = events.last();
        match event_top(root, event) {
            Some(top) => if parts(top) == key {
                let (size, is_dir) = match before {
                    Some(pair) => pair,
                    None => (0, event_top_is_dir(event)),
                };
                let bytes = match event_bytes(root, event) {
                    Some(bytes) => bytes,
                    None => 0,
                };
                Some((saturating(size + bytes), is_dir))
            } else {
                before
            },
            None => before,
        }
    }
}

/// The bytes of all files together.
pub open spec fn walked_bytes(events: Seq<WalkEvent>, root: Seq<char>) -> nat
    decreases events.len(),
{
    if events.len() == 0 {
        0
    } else {
        walked_bytes(events.drop_last(), root) + match event_bytes(root, events.last()) {
            Some(bytes) => bytes as nat,
            None => 0,
        }
    }
}

pub open spec fn walked_files(events: Seq<WalkEvent>, root: Seq<char>) -> nat
    decreases events.len(),
{
    if events.len() == 0 {
        0
    } else {
        walked_files(events.drop_last(), root) + if event_bytes(root, events.last()) is Some {
            1nat
        } else {
            0nat
        }
    }
}

pub open spec fn skipped_events(events: Seq<WalkEvent>) -> nat
    decreases events.len(),
{
    if events.len() == 0 {
        0
    } else {
        skipped_events(events.drop_last()) + if events.last() is Skipped {
            1nat
        } else {
            0nat
        }
    }
}

/// The large file that an event stands for.
pub open spec fn large_file_of(root: Seq<char>, minimum: u64, event: WalkEvent) -> Option<
    LargeFileView,
> {
    match event {
        WalkEvent::Skipped => None,
        WalkEvent::Entry { path, file, modified_unix, top_is_dir } => match event_bytes(
            root,
            event,
        ) {
            Some(size) => if size >= minimum {
                Some(
                    LargeFileView {
                        path: path@,
                        size,
                        modified_unix,
                        app_data: has_hidden_part(parts_below(path@, root)),
                    },
                )
            } else {
                None
            },
            None => None,
        },
    }
}

/// `entry` stands for the bucket at its path.
pub open spec fn is_bucket_entry(
    events: Seq<WalkEvent>,
    root: Seq<char>,
    entry: DiskEntryView,
) -> bool {
    &&& bucket(events, root, parts(entry.path)) == Some((entry.size, entry.is_dir))
    &&& entry.name == match last_name(entry.path) {
        Some(name) => name,
        None => Seq::empty(),
    }
}

/// `entries` holds one entry for every bucket, in the order of their paths.
pub open spec fn are_buckets(
    events: Seq<WalkEvent>,
    root: Seq<char>,
    entries: Seq<DiskEntry>,
) -> bool {
    &&& forall|i: int|
        0 <= i < entries.len() ==> is_bucket_entry(events, root, (#[trigger] entries[i])@)
    &&& forall|i: int, j: int|
        0 <= i < j < entries.len() ==> path_before(
            (#[trigger] entries[i]).path@,
            (#[trigger] entries[j]).path@,
        )
    &&& forall|key: Seq<Part>|
        (#[trigger] bucket(events, root, key)) is Some ==> exists|i: int|
            0 <= i < entries.len() && parts((#[trigger] entries[i]).path@) == key
}

/// The report on a walk.
pub open spec fn analyzes(
    events: Seq<WalkEvent>,
    root: Seq<char>,
    minimum: u64,
    report: AnalysisReport,
) -> bool {
    &&& report.root@ == root
    &&& report.total_size == saturating(walked_bytes(events, root) as int)
    &&& report.total_files == walked_files(events, root)
    &&& report.skipped_entries == skipped_events(events)
    &&& exists|entries: Seq<DiskEntry>| #[trigger]
        are_buckets(events, root, entries) && stably_sorted(entries, report.entries@)
    &&& exists|files: Seq<LargeFile>| #[trigger]
        large_file_views(files) == kept(
            events,
            |event: WalkEvent| large_file_of(root, minimum, event),
        ) && stably_sorted(files, report.large_files@)
}

// ---------------------------------------------------------------------------------------
// Functions
// ---------------------------------------------------------------------------------------

/// Whether a walk enters an entry.
pub fn should_visit(depth: usize, name: &str) -> (r: bool)
    ensures
        r == visited(depth as int, name@),
{
    depth == 0 || (!same(name, ".git") && !same(name, "node_modules"))
}

/// One more file of `length` bytes, behind files of `size` bytes together: the bytes and the
/// number of all of them, and whether this one is large.
pub fn count_file(size: u64, files: u64, length: u64, minimum_size: u64) -> (r: (u64, u64, bool))
    ensures
        r.0 == saturating(size + length),
        r.1 == saturating(files + 1),
        r.2 == (length >= minimum_size),
{
    let total: u64 = if length > u64::MAX - size {
        u64::MAX
    } else {
        size + length
    };
    let count: u64 = if files < u64::MAX {
        files + 1
    } else {
        files
    };
    (total, count, length >= minimum_size)
}

fn has_hidden_component(below: &Vec<Component>) -> (r: bool)
    ensures
        r == has_hidden_part(component_parts(below@)),
{
    let ghost views = component_parts(below@);
    let mut i: usize = 0;
    while i < below.len()
        invariant
            i <= below@.len(),
            views == component_parts(below@),
            forall|j: int| 0 <= j < i ==> !hidden_part(#[trigger] views[j]),
        decreases below.len() - i,
    {
        proof {
            assert(views[i as int] == below@[i as int]@);
        }
        match &below[i] {
            Component::Normal(name) => {
                if name.as_str().unicode_len() > 0 && name.as_str().get_char(0) == '.' {
                    proof {
                        assert(hidden_part(views[i as int]));
                    }
                    return true;
                }
            },
            _ => {},
        }
        i = i + 1;
    }
    false
}

/// Whether a path lies in a hidden location below a directory.
pub fn is_hidden_below(root: &str, path: &str) -> (r: bool)
    ensures
        r == (lies_in(path@, root@) && has_hidden_part(parts_below(path@, root@))),
{
    is_within(path, root) && has_hidden_component(&components_below(path, root))
}

/// The entry directly below `root` that `path` belongs to.
pub fn top_entry(root: &str, path: &str) -> (r: Option<String>)
    ensures
        match r {
            Some(top) => top_of(root@, path@) == Some(top@),
            None => top_of(root@, path@) is None,
        },
{
    if same_path(path, root) || !is_within(path, root) {
        return None;
    }
    let below = components_below(path, root);
    proof {
        assert(parts_below(path@, root@).len() == below@.len());
    }
    if below.len() == 0 {
        return None;
    }
    proof {
        assert(parts_below(path@, root@)[0] == below@[0]@);
    }
    let first = match &below[0] {
        Component::Root => "/",
        Component::Current => ".",
        Component::Parent => "..",
        Component::Normal(name) => name.as_str(),
    };
    Some(join_path(root, first))
}

fn saturating_sum(a: u64, b: u64) -> (r: u64)
    ensures
        r == saturating(a + b),
{
    if b > u64::MAX - a {
        u64::MAX
    } else {
        a + b
    }
}

/// The buckets so far are those of the events so far.
spec fn holds_buckets(
    buckets: PathMap<DiskEntry>,
    events: Seq<WalkEvent>,
    root: Seq<char>,
) -> bool {
    &&& buckets.well_formed()
    &&& forall|i: int|
        0 <= i < buckets.entries@.len() ==> parts((#[trigger] buckets.entries@[i]).1.path@)
            == parts(buckets.entries@[i].0@)
    &&& forall|key: Seq<Part>|
        match #[trigger] buckets.value(key) {
            Some(entry) => parts(entry.path@) == key && is_bucket_entry(events, root, entry@),
            None => bucket(events, root, key) is None,
        }
}

fn new_entry(top: &String) -> (r: DiskEntry)
    ensures
        r.path@ == top@,
        r.size == 0,
        !r.is_dir,
        r.name@ == (match last_name(top@) {
            Some(name) => name,
            None => Seq::empty(),
        }),
{
    let name = match file_name(top.as_str()) {
        Some(name) => name,
        None => String::new(),
    };
    DiskEntry { name, path: top.clone(), size: 0, is_dir: false }
}

/// Adds what an entry of the walk says to its bucket.
fn add_to_bucket(
    buckets: &mut PathMap<DiskEntry>,
    top: String,
    bytes: u64,
    top_is_dir: bool,
    events: Ghost<Seq<WalkEvent>>,
    root: Ghost<Seq<char>>,
)
    requires
        events@.len() > 0,
        holds_buckets(*old(buckets), events@.drop_last(), root@),
        event_top(root@, events@.last()) == Some(top@),
        bytes == (match event_bytes(root@, events@.last()) {
            Some(bytes) => bytes,
            None => 0,
        }),
        top_is_dir == event_top_is_dir(events@.last()),
    ensures
        holds_buckets(*final(buckets), events@, root@),
{
    let ghost key = parts(top@);
    let ghost old_buckets = *buckets;
    proof {
        lemma_found(buckets.entries@, key, 0);
    }
    let entry = match buckets.find(top.as_str()) {
        Some(i) => {
            let size: u64 = saturating_sum(buckets.entries[i].1.size, bytes);
            let known = buckets.entries[i].1.clone();
            proof {
                assert(buckets.value(key) == Some(buckets.entries@[i as int].1));
            }
            DiskEntry { name: known.name, path: known.path, size, is_dir: known.is_dir }
        },
        None => {
            proof {
                assert(buckets.value(key) is None);
            }
            let fresh = new_entry(&top);
            let size: u64 = saturating_sum(0, bytes);
            DiskEntry { name: fresh.name, path: fresh.path, size, is_dir: top_is_dir }
        },
    };
    let ghost seen = entry@;
    let ghost whole = entry;
    buckets.insert(top, entry);
    proof {
        assert(is_bucket_entry(events@, root@, seen));
        assert forall|other: Seq<Part>|
            match #[trigger] buckets.value(other) {
                Some(entry) => parts(entry.path@) == other && is_bucket_entry(
                    events@,
                    root@,
                    entry@,
                ),
                None => bucket(events@, root@, other) is None,
            } by {
            if other != key {
                assert(buckets.value(other) == old_buckets.value(other));
            } else {
                assert(buckets.value(other) == Some(whole));
            }
        }
        assert forall|i: int| 0 <= i < buckets.entries@.len() implies parts(
            (#[trigger] buckets.entries@[i]).1.path@,
        ) == parts(buckets.entries@[i].0@) by {
            let own = parts(buckets.entries@[i].0@);
            lemma_position(buckets.entries@, own, 0, i);
            assert(buckets.value(own) == Some(buckets.entries@[i].1));
        }
    }
}

/// The entries of a map in the order of their paths.
fn list_buckets(
    buckets: PathMap<DiskEntry>,
    events: Ghost<Seq<WalkEvent>>,
    root: Ghost<Seq<char>>,
) -> (r: Vec<DiskEntry>)
    requires
        holds_buckets(buckets, events@, root@),
    ensures
        are_buckets(events@, root@, r@),
{
    let ghost all = buckets.entries@;
    let ghost map = buckets;
    let mut rest = buckets.entries;
    let mut out: Vec<DiskEntry> = Vec::new();
    while rest.len() > 0
        invariant
            rest@.len() <= all.len(),
            rest@ == all.take(rest@.len() as int),
            out@.len() == all.len() - rest@.len(),
            forall|i: int| 0 <= i < out@.len() ==> #[trigger] out@[i] == all[i + rest@.len()].1,
        decreases rest.len(),
    {
        let ghost n = rest@.len() as int;
        match rest.pop() {
            Some((_, entry)) => {
                proof {
                    assert(rest@ =~= all.take(n - 1));
                }
                out.insert(0, entry);
            },
            None => {},
        }
    }
    proof {
        assert forall|i: int| 0 <= i < out@.len() implies is_bucket_entry(
            events@,
            root@,
            (#[trigger] out@[i])@,
        ) by {
            let own = parts(all[i].0@);
            lemma_position(all, own, 0, i);
            assert(map.value(own) == Some(all[i].1));
        }
        assert forall|key: Seq<Part>| (#[trigger] bucket(events@, root@, key)) is Some implies
            exists|i: int| 0 <= i < out@.len() && parts((#[trigger] out@[i]).path@) == key by {
            assert(map.value(key) is Some);
            lemma_found(all, key, 0);
            let i = position_of(all, key, 0).unwrap();
            assert(out@[i] == all[i].1);
        }
        assert forall|i: int, j: int| 0 <= i < j < out@.len() implies path_before(
            (#[trigger] out@[i]).path@,
            (#[trigger] out@[j]).path@,
        ) by {
            assert(out@[i] == all[i].1 && out@[j] == all[j].1);
            assert(path_before(all[i].0@, all[j].0@));
        }
    }
    out
}

/// The report on a walk through `root`: the entries directly below it with all that they hold,
/// and the files of at least `minimum_size` bytes; the largest first.
pub fn analyze(root: &str, events: &Vec<WalkEvent>, minimum_size: u64) -> (r: AnalysisReport)
    ensures
        analyzes(events@, root@, minimum_size, r),
{
    let mut buckets: PathMap<DiskEntry> = PathMap::new();
    let mut files: Vec<LargeFile> = Vec::new();
    let mut total_size: u64 = 0;
    let mut total_files: u64 = 0;
    let mut skipped_entries: u64 = 0;
    let ghost keep = |event: WalkEvent| large_file_of(root@, minimum_size, event);
    let mut i: usize = 0;
    while i < events.len()
        invariant
            i <= events@.len(),
            keep == (|event: WalkEvent| large_file_of(root@, minimum_size, event)),
            holds_buckets(buckets, events@.take(i as int), root@),
            large_file_views(files@) =~= kept(events@.take(i as int), keep),
            total_size == saturating(walked_bytes(events@.take(i as int), root@) as int),
            total_files == walked_files(events@.take(i as int), root@),
            total_files <= i,
            skipped_entries == skipped_events(events@.take(i as int)),
            skipped_entries <= i,
        decreases events.len() - i,
    {
        let ghost taken = events@.take(i + 1);
        proof {
            assert(taken.drop_last() =~= events@.take(i as int));
            assert(taken.last() == events@[i as int]);
            assert(keep(events@[i as int]) == large_file_of(
                root@,
                minimum_size,
                events@[i as int],
            ));
        }
        match &events[i] {
            WalkEvent::Skipped => {
                skipped_entries = skipped_entries + 1;
                proof {
                    assert(holds_buckets(buckets, taken, root@)) by {
                        assert forall|key: Seq<Part>|
                            match #[trigger] buckets.value(key) {
                                Some(entry) => parts(entry.path@) == key && is_bucket_entry(
                                    taken,
                                    root@,
                                    entry@,
                                ),
                                None => bucket(taken, root@, key) is None,
                            } by {}
                    }
                }
            },
            WalkEvent::Entry { path, file, modified_unix, top_is_dir } => {
                match top_entry(root, path.as_str()) {
                    None => {
                        proof {
                            assert(holds_buckets(buckets, taken, root@)) by {
                                assert forall|key: Seq<Part>|
                                    match #[trigger] buckets.value(key) {
                                        Some(entry) => parts(entry.path@) == key
                                            && is_bucket_entry(taken, root@, entry@),
                                        None => bucket(taken, root@, key) is None,
                                    } by {}
                            }
                        }
                    },
                    Some(top) => {
                        let bytes: u64 = match file {
                            Some(bytes) => *bytes,
                            None => 0,
                        };
                        add_to_bucket(
                            &mut buckets,
                            top,
                            bytes,
                            *top_is_dir,
                            Ghost(taken),
                            Ghost(root@),
                        );
                        match file {
                            Some(size) => {
                                total_size = saturating_sum(total_size, *size);
                                total_files = total_files + 1;
                                if *size >= minimum_size {
                                    let below = components_below(path.as_str(), root);
                                    let large = LargeFile {
                                        path: path.clone(),
                                        size: *size,
                                        modified_unix: *modified_unix,
                                        app_data: has_hidden_component(&below),
                                    };
                                    let ghost before = files@;
                                    files.push(large);
                                    proof {
                                        assert(large_file_views(files@) =~= large_file_views(
                                            before,
                                        ).push(large@));
                                    }
                                }
                            },
                            None => {},
                        }
                    },
                }
            },
        }
        i = i + 1;
    }
    proof {
        assert(events@.take(events@.len() as int) =~= events@);
    }
    let entries = list_buckets(buckets, Ghost(events@), Ghost(root@));
    let ghost listed = entries@;
    let ghost found = files@;
    let report = AnalysisReport {
        root: root.to_owned(),
        entries: sort_stable(entries),
        large_files: sort_stable(files),
        total_size,
        total_files,
        skipped_entries,
    };
    proof {
        assert(are_buckets(events@, root@, listed));
        assert(large_file_views(found) == kept(
            events@,
            |event: WalkEvent| large_file_of(root@, minimum_size, event),
        ));
    }
    report
}

/// The item that removes a personal file.
pub open spec fn personal_file_item(path: Seq<char>, size: u64, force: bool) -> ItemView {
    ItemView {
        id: "large-file:"@ + path,
        group: CleanupGroup::User,
        label: path,
        estimated_bytes: size,
        risk: Risk::Explicit,
        action: ActionView::RemovePersonalFile { path, force },
    }
}

impl LargeFile {
    /// The item that removes this file.
    pub fn cleanup_item(&self, force: bool) -> (r: CleanupItem)
        ensures
            r@ == personal_file_item(self.path@, self.size, force),
    {
        CleanupItem {
            id: "large-file:".to_owned().concat(self.path.as_str()),
            group: CleanupGroup::User,
            label: self.path.clone(),
            estimated_bytes: self.size,
            risk: Risk::Explicit,
            action: CleanupAction::RemovePersonalFile { path: self.path.clone(), force },
        }
    }
}

// ---------------------------------------------------------------------------------------
// Laws
// ---------------------------------------------------------------------------------------

/// The entries of a report add up to its total, wherever the sizes add up in 64 bits: every
/// file counts in one entry, and in no other.
pub proof fn entries_add_up_to_total(
    events: Seq<WalkEvent>,
    root: Seq<char>,
    minimum: u64,
    report: AnalysisReport,
)
    requires
        analyzes(events, root, minimum, report),
        walked_bytes(events, root) <= u64::MAX,
    ensures
        sum_of(report.entries@, |entry: DiskEntry| entry.size as nat) == report.total_size,
{
    let weight = |entry: DiskEntry| entry.size as nat;
    let entries = choose|entries: Seq<DiskEntry>| #[trigger]
        are_buckets(events, root, entries) && stably_sorted(entries, report.entries@);
    sorting_keeps_sums(entries, report.entries@, weight);
    let keys = entries.map_values(|entry: DiskEntry| parts(entry.path@));
    assert forall|i: int, j: int| 0 <= i < j < keys.len() implies keys[i] != keys[j] by {
        lemma_parts_order(parts(entries[i].path@), parts(entries[j].path@), Seq::empty());
        assert(path_before(entries[i].path@, entries[j].path@));
    }
    assert forall|i: int| 0 <= i < events.len() implies belongs_to(
        #[trigger] events[i],
        root,
        keys,
    ) by {
        match event_top(root, events[i]) {
            Some(top) => {
                lemma_bucket_found(events, root, i);
                let k = choose|k: int|
                    0 <= k < entries.len() && parts((#[trigger] entries[k]).path@) == parts(top);
                assert(keys[k] == parts(top));
            },
            None => {},
        }
    }
    lemma_keys_add_up(events, root, keys);
    lemma_sizes_of_keys(events, root, entries, keys);
}

/// The bytes of the files that belong to the entry at `key`.
spec fn own_bytes(events: Seq<WalkEvent>, root: Seq<char>, key: Seq<Part>) -> nat
    decreases events.len(),
{
    if events.len() == 0 {
        0
    } else {
        own_bytes(events.drop_last(), root, key) + added_bytes(events.last(), root, key)
    }
}

spec fn added_bytes(event: WalkEvent, root: Seq<char>, key: Seq<Part>) -> nat {
    match (event_top(root, event), event_bytes(root, event)) {
        (Some(top), Some(bytes)) => if parts(top) == key {
            bytes as nat
        } else {
            0
        },
        _ => 0,
    }
}

/// The event belongs to one of the entries, or to none at all.
spec fn belongs_to(event: WalkEvent, root: Seq<char>, keys: Seq<Seq<Part>>) -> bool {
    match event_top(root, event) {
        Some(top) => keys.contains(parts(top)),
        None => true,
    }
}

spec fn keys_bytes(events: Seq<WalkEvent>, root: Seq<char>, keys: Seq<Seq<Part>>) -> nat
    decreases keys.len(),
{
    if keys.len() == 0 {
        0
    } else {
        keys_bytes(events, root, keys.drop_last()) + own_bytes(events, root, keys.last())
    }
}

proof fn lemma_bucket_found(events: Seq<WalkEvent>, root: Seq<char>, i: int)
    requires
        0 <= i < events.len(),
        event_top(root, events[i]) is Some,
    ensures
        bucket(events, root, parts(event_top(root, events[i])->Some_0)) is Some,
    decreases events.len(),
{
    if i < events.len() - 1 {
        assert(events.drop_last()[i] == events[i]);
        lemma_bucket_found(events.drop_last(), root, i);
    }
}

proof fn lemma_own_bytes(events: Seq<WalkEvent>, root: Seq<char>, key: Seq<Part>)
    requires
        walked_bytes(events, root) <= u64::MAX,
    ensures
        own_bytes(events, root, key) <= walked_bytes(events, root),
        match bucket(events, root, key) {
            Some((size, is_dir)) => size == own_bytes(events, root, key),
            None => own_bytes(events, root, key) == 0,
        },
    decreases events.len(),
{
    if events.len() > 0 {
        lemma_own_bytes(events.drop_last(), root, key);
    }
}

proof fn lemma_one_more(events: Seq<WalkEvent>, root: Seq<char>, keys: Seq<Seq<Part>>)
    requires
        events.len() > 0,
        forall|i: int, j: int| 0 <= i < j < keys.len() ==> keys[i] != keys[j],
    ensures
        keys_bytes(events, root, keys) == keys_bytes(events.drop_last(), root, keys) + match (
            event_top(root, events.last()),
            event_bytes(root, events.last()),
        ) {
            (Some(top), Some(bytes)) => if keys.contains(parts(top)) {
                bytes as nat
            } else {
                0
            },
            _ => 0,
        },
    decreases keys.len(),
{
    if keys.len() > 0 {
        let before = keys.drop_last();
        let last = keys.len() - 1;
        lemma_one_more(events, root, before);
        match event_top(root, events.last()) {
            Some(top) => {
                let key = parts(top);
                if keys.last() == key {
                    if before.contains(key) {
                        let k = choose|k: int| 0 <= k < before.len() && before[k] == key;
                        assert(keys[k] == keys[last]);
                    }
                    assert(keys.contains(key));
                } else {
                    if keys.contains(key) {
                        let k = choose|k: int| 0 <= k < keys.len() && keys[k] == key;
                        assert(before[k] == key);
                    }
                    if before.contains(key) {
                        let k = choose|k: int| 0 <= k < before.len() && before[k] == key;
                        assert(keys[k] == key);
                    }
                }
            },
            None => {},
        }
    }
}

proof fn lemma_keys_add_up(events: Seq<WalkEvent>, root: Seq<char>, keys: Seq<Seq<Part>>)
    requires
        forall|i: int, j: int| 0 <= i < j < keys.len() ==> keys[i] != keys[j],
        forall|i: int| 0 <= i < events.len() ==> belongs_to(#[trigger] events[i], root, keys),
    ensures
        keys_bytes(events, root, keys) == walked_bytes(events, root),
    decreases events.len(),
{
    if events.len() > 0 {
        let before = events.drop_last();
        assert forall|i: int| 0 <= i < before.len() implies belongs_to(
            #[trigger] before[i],
            root,
            keys,
        ) by {
            assert(before[i] == events[i]);
        }
        lemma_keys_add_up(before, root, keys);
        lemma_one_more(events, root, keys);
        assert(belongs_to(events[events.len() - 1], root, keys));
    } else {
        lemma_no_events(root, keys);
        assert(events =~= Seq::empty());
    }
}

proof fn lemma_no_events(root: Seq<char>, keys: Seq<Seq<Part>>)
    ensures
        keys_bytes(Seq::empty(), root, keys) == 0,
    decreases keys.len(),
{
    if keys.len() > 0 {
        lemma_no_events(root, keys.drop_last());
    }
}

proof fn lemma_sizes_of_keys(
    events: Seq<WalkEvent>,
    root: Seq<char>,
    entries: Seq<DiskEntry>,
    keys: Seq<Seq<Part>>,
)
    requires
        walked_bytes(events, root) <= u64::MAX,
        keys == entries.map_values(|entry: DiskEntry| parts(entry.path@)),
        forall|i: int|
            0 <= i < entries.len() ==> is_bucket_entry(events, root, (#[trigger] entries[i])@),
    ensures
        sum_of(entries, |entry: DiskEntry| entry.size as nat) == keys_bytes(events, root, keys),
    decreases entries.len(),
{
    if entries.len() > 0 {
        let before = entries.drop_last();
        assert(keys.drop_last() =~= before.map_values(|entry: DiskEntry| parts(entry.path@)));
        assert forall|i: int| 0 <= i < before.len() implies is_bucket_entry(
            events,
            root,
            (#[trigger] before[i])@,
        ) by {
            assert(before[i] == entries[i]);
        }
        lemma_sizes_of_keys(events, root, before, keys.drop_last());
        assert(is_bucket_entry(events, root, entries[entries.len() - 1]@));
        lemma_own_bytes(events, root, parts(entries.last().path@));
    }
}

/// The path lies strictly below `root`, at any depth.
pub open spec fn lies_below(path: Seq<char>, root: Seq<char>) -> bool {
    lies_in(path, root) && parts(path) != parts(root)
}

/// The bytes of a plain file that lies strictly below `root`; nothing else has any.
pub open spec fn file_below(root: Seq<char>, event: WalkEvent) -> Option<u64> {
    match event {
        WalkEvent::Entry { path, file: Some(bytes), modified_unix, top_is_dir } => if lies_below(
            path@,
            root,
        ) {
            Some(bytes)
        } else {
            None
        },
        _ => None,
    }
}

pub open spec fn bytes_below(root: Seq<char>) -> spec_fn(WalkEvent) -> nat {
    |event: WalkEvent|
        match file_below(root, event) {
            Some(bytes) => bytes as nat,
            None => 0,
        }
}

/// The bytes of the files strictly below `root` that lie in `dir`, or are it.
pub open spec fn bytes_in(root: Seq<char>, dir: Seq<char>) -> spec_fn(WalkEvent) -> nat {
    |event: WalkEvent|
        match (file_below(root, event), event) {
            (Some(bytes), WalkEvent::Entry { path, file, modified_unix, top_is_dir }) => if lies_in(
                path@,
                dir,
            ) {
                bytes as nat
            } else {
                0
            },
            _ => 0,
        }
}

/// Every path strictly below a directory, at any depth, belongs to the entry that its first
/// component there names, and that entry lies directly in the directory.
pub proof fn path_belongs_to_its_first_component(root: Seq<char>, path: Seq<char>)
    requires
        root.len() > 0,
    ensures
        lies_below(path, root) <==> top_of(root, path) is Some,
        top_of(root, path) matches Some(top) ==> {
            let n = parts(root).len() as int;
            &&& parts(top) == parts(root).push(parts(path)[n])
            &&& lies_in(path, top)
            &&& is_child_of(top, root)
        },
{
    let n = parts(root).len() as int;
    let below = parts_below(path, root);
    if lies_in(path, root) && parts(path).len() == n {
        assert(parts(path).take(n) =~= parts(path));
    }
    if lies_below(path, root) {
        assert(below.len() > 0);
        let first = parts(path)[n];
        assert(below[0] == first);
        components_are_names(root);
        components_are_names(path);
        one_more_component(root, first);
        let top = joined_path(root, part_text(first));
        assert(parts(path).take(n + 1) =~= parts(root).push(first));
        assert(parts(top).drop_last() =~= parts(root));
    }
}

proof fn lemma_file_below(root: Seq<char>, event: WalkEvent)
    requires
        root.len() > 0,
    ensures
        event_bytes(root, event) == file_below(root, event),
{
    match event {
        WalkEvent::Entry { path, file, modified_unix, top_is_dir } => {
            path_belongs_to_its_first_component(root, path@);
        },
        _ => {},
    }
}

/// Every plain file of the walk strictly below the directory counts: its bytes in the total, as
/// far as 64 bits reach, and itself among the files. Nothing else does, and every entry that could
/// not be read is counted as passed over.
pub proof fn every_file_counts(
    events: Seq<WalkEvent>,
    root: Seq<char>,
    minimum: u64,
    report: AnalysisReport,
)
    requires
        root.len() > 0,
        analyzes(events, root, minimum, report),
    ensures
        report.total_size == saturating(sum_of(events, bytes_below(root)) as int),
        report.total_files == events.filter(
            |event: WalkEvent| file_below(root, event) is Some,
        ).len(),
        report.skipped_entries == events.filter(|event: WalkEvent| event is Skipped).len(),
{
    lemma_walked(events, root);
}

proof fn lemma_walked(events: Seq<WalkEvent>, root: Seq<char>)
    requires
        root.len() > 0,
    ensures
        walked_bytes(events, root) == sum_of(events, bytes_below(root)),
        walked_files(events, root) == events.filter(
            |event: WalkEvent| file_below(root, event) is Some,
        ).len(),
        skipped_events(events) == events.filter(|event: WalkEvent| event is Skipped).len(),
    decreases events.len(),
{
    reveal(Seq::filter);
    if events.len() > 0 {
        lemma_walked(events.drop_last(), root);
        lemma_file_below(root, events.last());
    }
}

/// One more plain file strictly below the directory, at whatever depth, adds its bytes and
/// itself to the totals.
pub proof fn one_more_file_counts(
    events: Seq<WalkEvent>,
    root: Seq<char>,
    minimum: u64,
    report: AnalysisReport,
    event: WalkEvent,
    after: AnalysisReport,
)
    requires
        root.len() > 0,
        analyzes(events, root, minimum, report),
        analyzes(events.push(event), root, minimum, after),
    ensures
        file_below(root, event) matches Some(bytes) ==> after.total_size == saturating(
            report.total_size + bytes,
        ) && after.total_files == report.total_files + 1,
        file_below(root, event) is None ==> after.total_size == report.total_size
            && after.total_files == report.total_files,
{
    let more = events.push(event);
    assert(more.drop_last() =~= events);
    lemma_file_below(root, event);
}

/// Every entry of a report lies directly in the directory, is called after its last component,
/// and holds the bytes of all the files that lie in it, at any depth, as far as 64 bits reach. No
/// two entries are the same.
pub proof fn entry_holds_its_files(
    events: Seq<WalkEvent>,
    root: Seq<char>,
    minimum: u64,
    report: AnalysisReport,
    k: int,
)
    requires
        root.len() > 0,
        analyzes(events, root, minimum, report),
        0 <= k < report.entries@.len(),
    ensures
        ({
            let entry = report.entries@[k];
            &&& is_child_of(entry.path@, root)
            &&& entry.size == saturating(sum_of(events, bytes_in(root, entry.path@)) as int)
            &&& last_name(entry.path@) matches Some(name) ==> entry.name@ == name
            &&& exists|i: int|
                0 <= i < events.len() && is_first_within(events, root, entry.path@, i)
                    && event_top_is_dir(events[i]) == entry.is_dir
        }),
        forall|l: int|
            0 <= l < report.entries@.len() && l != k ==> parts(
                (#[trigger] report.entries@[l]).path@,
            ) != parts(report.entries@[k].path@),
{
    let entries = choose|entries: Seq<DiskEntry>| #[trigger]
        are_buckets(events, root, entries) && stably_sorted(entries, report.entries@);
    let order = choose|order: Seq<int>| is_ordering(entries, report.entries@, order);
    let entry = report.entries@[k];
    assert(entry == entries[order[k]]);
    assert(is_bucket_entry(events, root, entries[order[k]]@));
    lemma_bucket_sum(events, root, entry.path@);
    assert forall|l: int| 0 <= l < report.entries@.len() && l != k implies parts(
        (#[trigger] report.entries@[l]).path@,
    ) != parts(entry.path@) by {
        assert(report.entries@[l] == entries[order[l]]);
        let (a, b) = if order[l] < order[k] {
            (order[l], order[k])
        } else {
            (order[k], order[l])
        };
        if order[l] == order[k] {
            DiskEntry::rank_is_weak_order(entry, entry, entry);
            if l < k {
                assert(order[l] < order[k]);
            } else {
                assert(order[k] < order[l]);
            }
        }
        assert(path_before(entries[a].path@, entries[b].path@));
        lemma_parts_order(parts(entries[a].path@), parts(entries[b].path@), Seq::empty());
    }
}

/// The first event of the walk that lies in `dir`.
pub open spec fn is_first_within(
    events: Seq<WalkEvent>,
    root: Seq<char>,
    dir: Seq<char>,
    i: int,
) -> bool {
    &&& is_within_dir(events[i], root, dir)
    &&& forall|j: int| 0 <= j < i ==> !is_within_dir(#[trigger] events[j], root, dir)
}

pub open spec fn is_within_dir(event: WalkEvent, root: Seq<char>, dir: Seq<char>) -> bool {
    match event {
        WalkEvent::Entry { path, file, modified_unix, top_is_dir } => lies_below(path@, root)
            && lies_in(path@, dir),
        _ => false,
    }
}

/// The event belongs to the bucket of `dir` exactly where it lies in it.
proof fn lemma_within(root: Seq<char>, dir: Seq<char>, event: WalkEvent)
    requires
        root.len() > 0,
        parts(dir).len() == parts(root).len() + 1,
    ensures
        is_within_dir(event, root, dir) <==> (event_top(root, event) matches Some(top) && parts(top)
            == parts(dir)),
{
    match event {
        WalkEvent::Entry { path, file, modified_unix, top_is_dir } => {
            let n = parts(root).len() as int;
            path_belongs_to_its_first_component(root, path@);
            if lies_below(path@, root) {
                assert(parts(path@).len() > n) by {
                    if parts(path@).len() == n {
                        assert(parts(path@).take(n) =~= parts(path@));
                    }
                }
                assert(parts(path@).take(n + 1) =~= parts(root).push(parts(path@)[n]));
            }
        },
        _ => {},
    }
}

proof fn lemma_bucket_sum(events: Seq<WalkEvent>, root: Seq<char>, dir: Seq<char>)
    requires
        root.len() > 0,
        bucket(events, root, parts(dir)) is Some,
    ensures
        is_child_of(dir, root),
        bucket(events, root, parts(dir))->Some_0.0 == saturating(
            sum_of(events, bytes_in(root, dir)) as int,
        ),
        exists|i: int|
            0 <= i < events.len() && is_first_within(events, root, dir, i) && event_top_is_dir(
                events[i],
            ) == bucket(events, root, parts(dir))->Some_0.1,
    decreases events.len(),
{
    let before = events.drop_last();
    let last = events.len() - 1;
    let event = events.last();
    let key = parts(dir);
    match event_top(root, event) {
        Some(top) => {
            path_belongs_to_its_first_component(root, event->path@);
            if parts(top) == key {
                assert(parts(top).drop_last() == parts(root));
            }
        },
        None => {},
    }
    lemma_file_below(root, event);
    if bucket(before, root, key) is Some {
        lemma_bucket_sum(before, root, dir);
        lemma_within(root, dir, event);
        let i = choose|i: int|
            0 <= i < before.len() && is_first_within(before, root, dir, i) && event_top_is_dir(
                before[i],
            ) == bucket(before, root, key)->Some_0.1;
        assert(events[i] == before[i]);
        assert forall|j: int| 0 <= j < i implies !is_within_dir(
            #[trigger] events[j],
            root,
            dir,
        ) by {
            assert(events[j] == before[j]);
        }
        assert(is_first_within(events, root, dir, i));
    } else {
        lemma_within(root, dir, event);
        lemma_nothing_in(before, root, dir);
        assert forall|j: int| 0 <= j < last implies !is_within_dir(
            #[trigger] events[j],
            root,
            dir,
        ) by {
            assert(events[j] == before[j]);
        }
        assert(is_first_within(events, root, dir, last));
    }
}

proof fn lemma_nothing_in(events: Seq<WalkEvent>, root: Seq<char>, dir: Seq<char>)
    requires
        root.len() > 0,
        parts(dir).len() == parts(root).len() + 1,
        bucket(events, root, parts(dir)) is None,
    ensures
        sum_of(events, bytes_in(root, dir)) == 0,
        forall|j: int| 0 <= j < events.len() ==> !is_within_dir(#[trigger] events[j], root, dir),
    decreases events.len(),
{
    if events.len() > 0 {
        let before = events.drop_last();
        lemma_within(root, dir, events.last());
        lemma_nothing_in(before, root, dir);
        assert forall|j: int| 0 <= j < events.len() implies !is_within_dir(
            #[trigger] events[j],
            root,
            dir,
        ) by {
            if j < before.len() {
                assert(events[j] == before[j]);
            }
        }
    }
}

/// Whatever the walk comes across strictly below the directory has its entry in the report: the
/// one directly in the directory that it lies in, which is at least as large.
pub proof fn every_file_has_its_entry(
    events: Seq<WalkEvent>,
    root: Seq<char>,
    minimum: u64,
    report: AnalysisReport,
    i: int,
)
    requires
        root.len() > 0,
        analyzes(events, root, minimum, report),
        0 <= i < events.len(),
        events[i] is Entry,
        lies_below(events[i]->path@, root),
    ensures
        exists|k: int|
            {
                &&& 0 <= k < report.entries@.len()
                &&& lies_in(events[i]->path@, (#[trigger] report.entries@[k]).path@)
                &&& is_child_of(report.entries@[k].path@, root)
                &&& events[i]->file matches Some(bytes) ==> report.entries@[k].size >= bytes
            },
{
    let entries = choose|entries: Seq<DiskEntry>| #[trigger]
        are_buckets(events, root, entries) && stably_sorted(entries, report.entries@);
    let order = choose|order: Seq<int>| is_ordering(entries, report.entries@, order);
    let path = events[i]->path@;
    path_belongs_to_its_first_component(root, path);
    lemma_bucket_found(events, root, i);
    let top = top_of(root, path)->Some_0;
    let p = choose|p: int|
        0 <= p < entries.len() && parts((#[trigger] entries[p]).path@) == parts(top);
    assert(order.contains(p));
    let k = choose|k: int| 0 <= k < order.len() && order[k] == p;
    assert(report.entries@[k] == entries[p]);
    entry_holds_its_files(events, root, minimum, report, k);
    let dir = report.entries@[k].path@;
    lemma_part_of_sum(events, bytes_in(root, dir), i);
}

proof fn lemma_part_of_sum(events: Seq<WalkEvent>, weight: spec_fn(WalkEvent) -> nat, i: int)
    requires
        0 <= i < events.len(),
    ensures
        sum_of(events, weight) >= weight(events[i]),
    decreases events.len(),
{
    if i < events.len() - 1 {
        assert(events.drop_last()[i] == events[i]);
        lemma_part_of_sum(events.drop_last(), weight, i);
    }
}

/// The file that an event comes across, strictly below the directory and of the size that was
/// asked for, as a report lists it.
pub open spec fn is_listed_as(
    root: Seq<char>,
    minimum: u64,
    event: WalkEvent,
    file: LargeFileView,
) -> bool {
    &&& file_below(root, event) == Some(file.size)
    &&& file.size >= minimum
    &&& file.path == event->path@
    &&& file.modified_unix == event->modified_unix
    &&& file.app_data <==> exists|n: int|
        parts(root).len() <= n < parts(file.path).len() && hidden_part(
            #[trigger] parts(file.path)[n],
        )
}

/// The large files of a report are those of the walk: every plain file strictly below the
/// directory whose size reaches the minimum is listed, and nothing else is.
pub proof fn large_files_are_listed(
    events: Seq<WalkEvent>,
    root: Seq<char>,
    minimum: u64,
    report: AnalysisReport,
)
    requires
        root.len() > 0,
        analyzes(events, root, minimum, report),
    ensures
        forall|i: int|
            0 <= i < events.len() ==> (file_below(root, #[trigger] events[i]) matches Some(bytes)
                && bytes >= minimum ==> exists|k: int|
                0 <= k < report.large_files@.len() && is_listed_as(
                    root,
                    minimum,
                    events[i],
                    (#[trigger] report.large_files@[k])@,
                )),
        forall|k: int|
            0 <= k < report.large_files@.len() ==> exists|i: int|
                0 <= i < events.len() && is_listed_as(
                    root,
                    minimum,
                    #[trigger] events[i],
                    (#[trigger] report.large_files@[k])@,
                ),
        report.large_files@.len() == events.filter(
            |event: WalkEvent|
                file_below(root, event) matches Some(bytes) && bytes >= minimum,
        ).len(),
{
    let keep = |event: WalkEvent| large_file_of(root, minimum, event);
    let files = choose|files: Seq<LargeFile>| #[trigger]
        large_file_views(files) == kept(
            events,
            |event: WalkEvent| large_file_of(root, minimum, event),
        ) && stably_sorted(files, report.large_files@);
    let order = choose|order: Seq<int>| is_ordering(files, report.large_files@, order);
    let places = kept_in_order(events, keep);
    assert(files.len() == large_file_views(files).len());
    assert forall|i: int| 0 <= i < events.len() implies match large_file_of(
        root,
        minimum,
        #[trigger] events[i],
    ) {
        Some(file) => is_listed_as(root, minimum, events[i], file),
        None => !(file_below(root, events[i]) matches Some(bytes) && bytes >= minimum),
    } by {
        lemma_listed_as(root, minimum, events[i]);
    }
    assert forall|i: int| 0 <= i < events.len() && (file_below(
        root,
        #[trigger] events[i],
    ) matches Some(bytes) && bytes >= minimum) implies exists|k: int|
        0 <= k < report.large_files@.len() && is_listed_as(
            root,
            minimum,
            events[i],
            (#[trigger] report.large_files@[k])@,
        ) by {
        assert(keep(events[i]) is Some);
        let p = choose|p: int| 0 <= p < places.len() && places[p] == i;
        assert(order.contains(p));
        let k = choose|k: int| 0 <= k < order.len() && order[k] == p;
        assert(report.large_files@[k] == files[p]);
        assert(large_file_views(files)[p] == files[p]@);
    }
    assert forall|k: int| 0 <= k < report.large_files@.len() implies exists|i: int|
        0 <= i < events.len() && is_listed_as(
            root,
            minimum,
            #[trigger] events[i],
            (#[trigger] report.large_files@[k])@,
        ) by {
        let p = order[k];
        assert(report.large_files@[k] == files[p]);
        assert(large_file_views(files)[p] == files[p]@);
        assert(keep(events[places[p]]) == Some(files[p]@));
    }
    lemma_large_count(events, root, minimum);
}

proof fn lemma_listed_as(root: Seq<char>, minimum: u64, event: WalkEvent)
    requires
        root.len() > 0,
    ensures
        match large_file_of(root, minimum, event) {
            Some(file) => is_listed_as(root, minimum, event, file),
            None => !(file_below(root, event) matches Some(bytes) && bytes >= minimum),
        },
{
    lemma_file_below(root, event);
    if let Some(file) = large_file_of(root, minimum, event) {
        let n = parts(root).len() as int;
        let below = parts_below(file.path, root);
        if has_hidden_part(below) {
            let i = choose|i: int| 0 <= i < below.len() && hidden_part(#[trigger] below[i]);
            assert(hidden_part(parts(file.path)[n + i]));
        }
        if exists|i: int| n <= i < parts(file.path).len() && hidden_part(
            #[trigger] parts(file.path)[i],
        ) {
            let i = choose|i: int|
                n <= i < parts(file.path).len() && hidden_part(#[trigger] parts(file.path)[i]);
            assert(hidden_part(below[i - n]));
        }
    }
}

proof fn lemma_large_count(events: Seq<WalkEvent>, root: Seq<char>, minimum: u64)
    requires
        root.len() > 0,
    ensures
        kept(events, |event: WalkEvent| large_file_of(root, minimum, event)).len() == events.filter(
            |event: WalkEvent|
                file_below(root, event) matches Some(bytes) && bytes >= minimum,
        ).len(),
    decreases events.len(),
{
    reveal(Seq::filter);
    if events.len() > 0 {
        lemma_large_count(events.drop_last(), root, minimum);
        lemma_listed_as(root, minimum, events.last());
    }
}

/// Entries and large files are listed with the largest first; entries of one size by name, and
/// files of one size by path.
pub proof fn largest_come_first(
    events: Seq<WalkEvent>,
    root: Seq<char>,
    minimum: u64,
    report: AnalysisReport,
    i: int,
    j: int,
)
    requires
        analyzes(events, root, minimum, report),
        0 <= i < j,
    ensures
        j < report.entries@.len() ==> report.entries@[i].size >= report.entries@[j].size && (
        report.entries@[i].size == report.entries@[j].size ==> !text_before(
            report.entries@[j].name@,
            report.entries@[i].name@,
        )),
        j < report.large_files@.len() ==> report.large_files@[i].size
            >= report.large_files@[j].size && (report.large_files@[i].size
            == report.large_files@[j].size ==> !path_before(
            report.large_files@[j].path@,
            report.large_files@[i].path@,
        )),
{
    if j < report.entries@.len() {
        assert(!report.entries@[j].ranks_before(report.entries@[i]));
    }
    if j < report.large_files@.len() {
        assert(!report.large_files@[j].ranks_before(report.large_files@[i]));
    }
}

/// A walk passes over version control and installed packages below its start, whatever they are
/// called above it, and over nothing else.
pub proof fn walks_pass_over_two_names(depth: int, name: Seq<char>)
    requires
        depth >= 0,
    ensures
        visited(0, name),
        visited(depth, name) <==> depth == 0 || !(name == ".git"@ || name == "node_modules"@),
{
}

/// The item that removes a large file names that very file and its size, and is never removed
/// without being asked for.
pub proof fn personal_file_item_is_exact(path: Seq<char>, size: u64, force: bool)
    ensures
        ({
            let item = personal_file_item(path, size, force);
            &&& item.action == ActionView::RemovePersonalFile { path, force }
            &&& item.estimated_bytes == size
            &&& item.label == path
            &&& item.risk is Explicit
        }),
{
}

/// A name is hidden exactly where it starts with a point; a step is not.
pub proof fn hidden_names_start_with_a_point(name: Seq<char>)
    ensures
        hidden_part(Part::Normal(name)) <==> name.len() > 0 && name[0] == '.',
        !hidden_part(Part::Parent) && !hidden_part(Part::Root) && !hidden_part(Part::Current),
{
}

/// Sums stop at the largest number that 64 bits hold, and are exact below it.
pub proof fn sums_stop_at_the_top(a: u64, b: u64)
    ensures
        a + b <= u64::MAX ==> saturating(a + b) == a + b,
        a + b > u64::MAX ==> saturating(a + b) == u64::MAX,
{
}

/// The entry that a path belongs to lies directly in the directory and holds the path, at whatever
/// depth it lies; only what does not lie strictly below the directory belongs to none.
pub proof fn every_path_below_has_its_entry(root: &str, path: &str, top: Option<String>)
    requires
        call_ensures(top_entry, (root, path), top),
        root@.len() > 0,
    ensures
        top is Some <==> lies_below(path@, root@),
        top matches Some(entry) ==> is_child_of(entry@, root@) && lies_in(path@, entry@),
{
    path_belongs_to_its_first_component(root@, path@);
}

/// An analysis counts every plain file that the walk came across strictly below the directory, at
/// any depth: its bytes in the total, itself among the files and, where its size reaches the
/// minimum, among the large files.
pub proof fn analysis_counts_every_file(
    root: &str,
    events: &Vec<WalkEvent>,
    minimum: u64,
    report: AnalysisReport,
    i: int,
)
    requires
        call_ensures(analyze, (root, events, minimum), report),
        root@.len() > 0,
        0 <= i < events@.len(),
        events@[i] matches WalkEvent::Entry { path, file, modified_unix, top_is_dir } && file is Some
            && lies_below(path@, root@),
    ensures
        ({
            let path = events@[i]->path@;
            let size = events@[i]->file->Some_0;
            &&& report.total_files > 0
            &&& report.total_size >= size
            &&& exists|k: int|
                0 <= k < report.entries@.len() && lies_in(
                    path,
                    (#[trigger] report.entries@[k]).path@,
                ) && report.entries@[k].size >= size
            &&& size >= minimum ==> exists|k: int|
                0 <= k < report.large_files@.len() && (#[trigger] report.large_files@[k]).path@
                    == path && report.large_files@[k].size == size
        }),
{
    let path = events@[i]->path@;
    let size = events@[i]->file->Some_0;
    every_file_counts(events@, root@, minimum, report);
    every_file_has_its_entry(events@, root@, minimum, report, i);
    large_files_are_listed(events@, root@, minimum, report);
    assert(file_below(root@, events@[i]) == Some(size));
    lemma_part_of_sum(events@, bytes_below(root@), i);
    let keep = |event: WalkEvent| file_below(root@, event) is Some;
    events@.lemma_filter_contains(keep, i);
    let k = choose|k: int|
        0 <= k < report.entries@.len() && lies_in(path, (#[trigger] report.entries@[k]).path@)
            && is_child_of(report.entries@[k].path@, root@) && (events@[i]->file matches Some(bytes)
            ==> report.entries@[k].size >= bytes);
    assert(report.entries@[k].size >= size);
    if size >= minimum {
        let l = choose|l: int|
            0 <= l < report.large_files@.len() && is_listed_as(
                root@,
                minimum,
                events@[i],
                (#[trigger] report.large_files@[l])@,
            );
        assert(report.large_files@[l].path@ == path);
    }
}

/// Files are counted one by one: the order in which two files come does not matter, and a file is
/// large exactly where its own size reaches the minimum.
pub proof fn files_are_counted_in_any_order(
    size: u64,
    files: u64,
    a: u64,
    b: u64,
    minimum: u64,
    first: (u64, u64, bool),
    then: (u64, u64, bool),
    other: (u64, u64, bool),
    later: (u64, u64, bool),
)
    requires
        call_ensures(count_file, (size, files, a, minimum), first),
        call_ensures(count_file, (first.0, first.1, b, minimum), then),
        call_ensures(count_file, (size, files, b, minimum), other),
        call_ensures(count_file, (other.0, other.1, a, minimum), later),
    ensures
        then.0 == later.0 && then.1 == later.1,
        first.2 == later.2 && then.2 == other.2,
        first.2 <==> a >= minimum,
        size + a <= u64::MAX ==> first.0 == size + a,
        files < u64::MAX ==> first.1 == files + 1,
{
}

} // verus!
