//! One level of the disk explorer: what a scan has found of a directory so far.
use vstd::prelude::*;
use vstd::string::*;

use crate::analyze::{DiskEntry, DiskEntryView, LargeFile, LargeFileView};
use crate::order::{
    arranged, arranged_is_sorted, is_weak_order, lemma_sum_without, sort_stable,
    sorted_is_arranged, sorting_carries_over, stably_sorted_by, sum_of, Ranked,
};
use crate::path::{file_name, last_name, parts, path_before, same_path, Part};
use crate::path_map::{
    lemma_viewed_place, lemma_viewed_with, place_of, placed, places_before, viewed, PathMap,
};
use crate::text::{kept, kept_adds_up, kept_of_one, lemma_text_order, text_before};
use crate::uninstall::optional_text;

verus! {

/// What a running scan reports.
#[derive(Debug, PartialEq, Eq)]
pub enum ScanUpdate {
    /// What is known so far of an entry directly below the directory.
    Progress { top: String, size: u64, files: u64, is_dir: bool },
    Large(LargeFile),
    Skipped(u64),
    Done { total_size: u64, total_files: u64, skipped: u64 },
    Error(String),
}

/// A directory of the explorer.
#[derive(Debug)]
pub struct Location {
    pub path: String,
    /// The entries directly below the directory.
    pub entries: PathMap<DiskEntry>,
    /// The files that were last counted below each entry.
    pub bucket_files: PathMap<u64>,
    /// The entries in the order in which they are shown.
    pub sorted: Vec<DiskEntry>,
    pub large_files: Vec<LargeFile>,
    pub total_size: u64,
    pub total_files: u64,
    pub skipped: u64,
    /// The entry under the cursor, by its path: the cursor stays on it wherever it moves.
    pub selected: Option<String>,
    /// The large file under the cursor, by its path.
    pub selected_large_file: Option<String>,
    pub complete: bool,
    pub error: Option<String>,
    pub needs_reorder: bool,
    /// The running scan, by its number.
    pub scan: Option<u64>,
}

pub struct LocationView {
    pub path: Seq<char>,
    pub entries: Seq<(Seq<char>, DiskEntryView)>,
    pub bucket_files: Seq<(Seq<char>, u64)>,
    pub sorted: Seq<DiskEntryView>,
    pub large_files: Seq<LargeFileView>,
    pub total_size: u64,
    pub total_files: u64,
    pub skipped: u64,
    pub selected: Option<Seq<char>>,
    pub selected_large_file: Option<Seq<char>>,
    pub complete: bool,
    pub error: Option<Seq<char>>,
    pub needs_reorder: bool,
    pub scan: Option<u64>,
}

pub open spec fn entry_view() -> spec_fn(DiskEntry) -> DiskEntryView {
    |entry: DiskEntry| entry@
}

pub open spec fn file_view() -> spec_fn(LargeFile) -> LargeFileView {
    |file: LargeFile| file@
}

pub open spec fn count_view() -> spec_fn(u64) -> u64 {
    |count: u64| count
}

impl View for Location {
    type V = LocationView;

    open spec fn view(&self) -> LocationView {
        LocationView {
            path: self.path@,
            entries: viewed(self.entries.entries@, entry_view()),
            bucket_files: viewed(self.bucket_files.entries@, count_view()),
            sorted: self.sorted@.map_values(entry_view()),
            large_files: self.large_files@.map_values(file_view()),
            total_size: self.total_size,
            total_files: self.total_files,
            skipped: self.skipped,
            selected: optional_text(self.selected),
            selected_large_file: optional_text(self.selected_large_file),
            complete: self.complete,
            error: optional_text(self.error),
            needs_reorder: self.needs_reorder,
            scan: self.scan,
        }
    }
}

// ---------------------------------------------------------------------------------------
// Models
// ---------------------------------------------------------------------------------------

/// A directory of which nothing is known.
pub open spec fn fresh_location(path: Seq<char>) -> LocationView {
    LocationView {
        path,
        entries: seq![],
        bucket_files: seq![],
        sorted: seq![],
        large_files: seq![],
        total_size: 0,
        total_files: 0,
        skipped: 0,
        selected: None,
        selected_large_file: None,
        complete: false,
        error: None,
        needs_reorder: true,
        scan: None,
    }
}

/// A scan starts over: what was known is forgotten.
pub open spec fn scanning_location(path: Seq<char>, scan: u64) -> LocationView {
    LocationView { scan: Some(scan), ..fresh_location(path) }
}

pub open spec fn has_items(location: LocationView) -> bool {
    location.entries.len() > 0 || location.large_files.len() > 0
}

/// The value under a path, or `default`.
pub open spec fn value_or<W>(entries: Seq<(Seq<char>, W)>, path: Seq<char>, default: W) -> W {
    match place_of(entries, parts(path), 0) {
        Some(i) => entries[i].1,
        None => default,
    }
}

/// A total in which one part changes, as far as 64 bits reach.
pub open spec fn exchanged(total: u64, before: u64, now: u64) -> u64 {
    let rest = if total > before {
        total - before
    } else {
        0
    };
    if rest + now > u64::MAX {
        u64::MAX
    } else {
        (rest + now) as u64
    }
}

pub open spec fn progress_entry(top: Seq<char>, size: u64, is_dir: bool) -> DiskEntryView {
    DiskEntryView {
        name: match last_name(top) {
            Some(name) => name,
            None => top,
        },
        path: top,
        size,
        is_dir,
    }
}

/// What is known of an entry is replaced, and the totals with it.
pub open spec fn with_progress(
    location: LocationView,
    top: Seq<char>,
    size: u64,
    files: u64,
    is_dir: bool,
) -> LocationView {
    let previous_size = match place_of(location.entries, parts(top), 0) {
        Some(i) => location.entries[i].1.size,
        None => 0,
    };
    LocationView {
        total_size: exchanged(location.total_size, previous_size, size),
        total_files: exchanged(location.total_files, value_or(location.bucket_files, top, 0), files),
        bucket_files: placed(location.bucket_files, top, files),
        entries: placed(location.entries, top, progress_entry(top, size, is_dir)),
        needs_reorder: true,
        ..location
    }
}

/// The order in which entries are shown: the larger first, entries of one size by name.
pub open spec fn shown_before() -> spec_fn(DiskEntryView, DiskEntryView) -> bool {
    |a: DiskEntryView, b: DiskEntryView|
        if a.size != b.size {
            a.size > b.size
        } else {
            text_before(a.name, b.name)
        }
}

/// The position of the first entry at a path, from the `i`-th on.
pub open spec fn entry_place(list: Seq<DiskEntryView>, path: Seq<char>, i: int) -> Option<int>
    decreases list.len() - i,
{
    if i < 0 || i >= list.len() {
        None
    } else if parts(list[i].path) == parts(path) {
        Some(i)
    } else {
        entry_place(list, path, i + 1)
    }
}

pub open spec fn first_path(list: Seq<DiskEntryView>) -> Option<Seq<char>> {
    if list.len() > 0 {
        Some(list[0].path)
    } else {
        None
    }
}

/// The entry under the cursor after the order changed: the same path if it is still there;
/// otherwise what now stands where it stood, or else the first entry.
pub open spec fn reconciled(
    sorted: Seq<DiskEntryView>,
    previous: Seq<DiskEntryView>,
    selected: Option<Seq<char>>,
) -> Option<Seq<char>> {
    match selected {
        None => first_path(sorted),
        Some(path) => if entry_place(sorted, path, 0) is Some {
            Some(path)
        } else {
            match entry_place(previous, path, 0) {
                Some(i) => if i < sorted.len() {
                    Some(sorted[i].path)
                } else {
                    first_path(sorted)
                },
                None => first_path(sorted),
            }
        },
    }
}

pub open spec fn values_of(entries: Seq<(Seq<char>, DiskEntryView)>) -> Seq<DiskEntryView> {
    entries.map_values(|entry: (Seq<char>, DiskEntryView)| entry.1)
}

/// The entries in the order in which they are shown.
pub open spec fn display_order(entries: Seq<(Seq<char>, DiskEntryView)>) -> Seq<DiskEntryView> {
    arranged(values_of(entries), shown_before())
}

/// The order is built anew, and the cursor stays on its path.
pub open spec fn reordered(location: LocationView) -> LocationView {
    let sorted = display_order(location.entries);
    LocationView {
        sorted,
        selected: reconciled(sorted, location.sorted, location.selected),
        needs_reorder: false,
        ..location
    }
}

/// What the updates from the `i`-th on make of a location. The end of a scan, or an error, ends
/// it; so does the loss of the scan where no update says more.
pub open spec fn drained(
    location: LocationView,
    updates: Seq<ScanUpdate>,
    i: int,
    lost: bool,
) -> LocationView
    decreases updates.len() - i,
{
    if i < 0 || i >= updates.len() {
        if lost {
            LocationView { scan: None, ..location }
        } else {
            location
        }
    } else {
        match updates[i] {
            ScanUpdate::Progress { top, size, files, is_dir } => drained(
                with_progress(location, top@, size, files, is_dir),
                updates,
                i + 1,
                lost,
            ),
            ScanUpdate::Large(file) => drained(
                LocationView {
                    large_files: location.large_files.push(file@),
                    needs_reorder: true,
                    ..location
                },
                updates,
                i + 1,
                lost,
            ),
            ScanUpdate::Skipped(skipped) => drained(
                LocationView { skipped, ..location },
                updates,
                i + 1,
                lost,
            ),
            ScanUpdate::Done { total_size, total_files, skipped } => LocationView {
                total_size,
                total_files,
                skipped,
                complete: true,
                needs_reorder: true,
                scan: None,
                ..location
            },
            ScanUpdate::Error(error) => LocationView {
                error: Some(error@),
                complete: true,
                scan: None,
                ..location
            },
        }
    }
}

// ---------------------------------------------------------------------------------------
// Functions
// ---------------------------------------------------------------------------------------

pub proof fn lemma_shown_weak_order()
    ensures
        is_weak_order(shown_before()),
{
    let before = shown_before();
    assert forall|a: DiskEntryView, b: DiskEntryView|
        !(#[trigger] before(a, b) && before(b, a)) by {
        lemma_text_order(a.name, b.name, a.name);
    }
    assert forall|a: DiskEntryView, b: DiskEntryView, c: DiskEntryView|
        !(#[trigger] before(b, a)) && !(#[trigger] before(c, b)) implies !before(c, a) by {
        lemma_text_order(a.name, b.name, c.name);
        lemma_text_order(b.name, c.name, a.name);
        lemma_text_order(c.name, a.name, b.name);
    }
}

/// The entries that are shown are those that are known, the larger first and entries of one
/// size by name.
pub proof fn shown_entries_are_sorted(entries: Seq<(Seq<char>, DiskEntryView)>)
    ensures
        stably_sorted_by(values_of(entries), display_order(entries), shown_before()),
{
    lemma_shown_weak_order();
    arranged_is_sorted(values_of(entries), shown_before());
}

/// The position of the first entry at a path.
pub fn find_entry(list: &Vec<DiskEntry>, path: &str) -> (r: Option<usize>)
    ensures
        match r {
            Some(i) => entry_place(list@.map_values(entry_view()), path@, 0) == Some(i as int) && i
                < list@.len(),
            None => entry_place(list@.map_values(entry_view()), path@, 0) is None,
        },
{
    let ghost views = list@.map_values(entry_view());
    let mut i: usize = 0;
    while i < list.len()
        invariant
            i <= list@.len(),
            views == list@.map_values(entry_view()),
            entry_place(views, path@, 0) == entry_place(views, path@, i as int),
        decreases list.len() - i,
    {
        proof {
            assert(views[i as int] == list@[i as int]@);
        }
        if same_path(list[i].path.as_str(), path) {
            return Some(i);
        }
        i = i + 1;
    }
    None
}

fn first_entry_path(list: &Vec<DiskEntry>) -> (r: Option<String>)
    ensures
        optional_text(r) == first_path(list@.map_values(entry_view())),
{
    if list.len() > 0 {
        Some(list[0].path.clone())
    } else {
        None
    }
}

/// The entries in the order in which they are shown, and the entry under the cursor.
pub fn reorder_and_reconcile(
    entries: &PathMap<DiskEntry>,
    previous_sorted: &Vec<DiskEntry>,
    selected: &Option<String>,
) -> (r: (Vec<DiskEntry>, Option<String>))
    ensures
        r.0@.map_values(entry_view()) == display_order(viewed(entries.entries@, entry_view())),
        optional_text(r.1) == reconciled(
            display_order(viewed(entries.entries@, entry_view())),
            previous_sorted@.map_values(entry_view()),
            optional_text(*selected),
        ),
{
    let ghost views = viewed(entries.entries@, entry_view());
    let mut list: Vec<DiskEntry> = Vec::new();
    let mut i: usize = 0;
    while i < entries.entries.len()
        invariant
            i <= entries.entries@.len(),
            list@.len() == i,
            forall|j: int| 0 <= j < i ==> #[trigger] list@[j] == entries.entries@[j].1,
        decreases entries.entries.len() - i,
    {
        list.push(entries.entries[i].1.clone());
        i = i + 1;
    }
    let ghost plain = list@;
    let sorted = sort_stable(list);
    proof {
        assert(plain.map_values(entry_view()) =~= values_of(views));
        assert forall|a: DiskEntry, b: DiskEntry| #[trigger]
            a.ranks_before(b) == (shown_before())(
                (entry_view())(a),
                (entry_view())(b),
            ) by {}
        sorting_carries_over(plain, sorted@, entry_view(), shown_before());
        lemma_shown_weak_order();
        sorted_is_arranged(values_of(views), sorted@.map_values(entry_view()), shown_before());
    }
    let resolved = match selected {
        None => first_entry_path(&sorted),
        Some(path) => {
            if find_entry(&sorted, path.as_str()).is_some() {
                Some(path.clone())
            } else {
                match find_entry(previous_sorted, path.as_str()) {
                    Some(at) => {
                        if at < sorted.len() {
                            proof {
                                assert(sorted@.map_values(entry_view())[at as int]
                                    == sorted@[at as int]@);
                            }
                            Some(sorted[at].path.clone())
                        } else {
                            first_entry_path(&sorted)
                        }
                    },
                    None => first_entry_path(&sorted),
                }
            }
        },
    };
    (sorted, resolved)
}

fn exchange(total: u64, before: u64, now: u64) -> (r: u64)
    ensures
        r == exchanged(total, before, now),
{
    let rest: u64 = if total > before {
        total - before
    } else {
        0
    };
    if now > u64::MAX - rest {
        u64::MAX
    } else {
        rest + now
    }
}

impl Location {
    pub open spec fn well_formed(self) -> bool {
        self.entries.well_formed() && self.bucket_files.well_formed()
    }

    pub fn new(path: String) -> (r: Self)
        ensures
            r@ == fresh_location(path@),
            r.well_formed(),
    {
        let r = Location {
            path,
            entries: PathMap::new(),
            bucket_files: PathMap::new(),
            sorted: Vec::new(),
            large_files: Vec::new(),
            total_size: 0,
            total_files: 0,
            skipped: 0,
            selected: None,
            selected_large_file: None,
            complete: false,
            error: None,
            needs_reorder: true,
            scan: None,
        };
        proof {
            assert(viewed(r.entries.entries@, entry_view()) =~= seq![]);
            assert(viewed(r.bucket_files.entries@, count_view()) =~= seq![]);
            assert(r.sorted@.map_values(entry_view()) =~= seq![]);
            assert(r.large_files@.map_values(file_view()) =~= seq![]);
        }
        r
    }

    pub fn has_data(&self) -> (r: bool)
        ensures
            r == has_items(self@),
    {
        proof {
            assert(self@.entries.len() == self.entries.entries@.len());
            assert(self@.large_files.len() == self.large_files@.len());
        }
        !self.entries.is_empty() || self.large_files.len() > 0
    }

    /// Starts over with the scan of that number.
    pub fn start_scan(&mut self, scan: u64)
        ensures
            final(self)@ == scanning_location(old(self)@.path, scan),
            final(self).well_formed(),
    {
        let path = self.path.clone();
        let mut fresh = Location::new(path);
        fresh.scan = Some(scan);
        *self = fresh;
    }

    pub fn cancel_scan(&mut self)
        requires
            old(self).well_formed(),
        ensures
            final(self)@ == (LocationView { scan: None, ..old(self)@ }),
            final(self).well_formed(),
    {
        self.scan = None;
    }

    /// Replaces what is known of an entry.
    pub fn apply_progress(&mut self, top: String, size: u64, files: u64, is_dir: bool)
        requires
            old(self).well_formed(),
        ensures
            final(self)@ == with_progress(old(self)@, top@, size, files, is_dir),
            final(self).well_formed(),
    {
        let name = match file_name(top.as_str()) {
            Some(name) => name,
            None => top.clone(),
        };
        proof {
            lemma_viewed_place(self.entries.entries@, entry_view(), parts(top@), 0);
            lemma_viewed_place(self.bucket_files.entries@, count_view(), parts(top@), 0);
        }
        let previous_size: u64 = match self.entries.find(top.as_str()) {
            Some(i) => self.entries.entries[i].1.size,
            None => 0,
        };
        let previous_files: u64 = match self.bucket_files.find(top.as_str()) {
            Some(i) => self.bucket_files.entries[i].1,
            None => 0,
        };
        self.total_size = exchange(self.total_size, previous_size, size);
        self.total_files = exchange(self.total_files, previous_files, files);
        let entry = DiskEntry { name, path: top.clone(), size, is_dir };
        proof {
            lemma_viewed_with(self.bucket_files.entries@, count_view(), top, files);
            lemma_viewed_with(self.entries.entries@, entry_view(), top, entry);
        }
        self.bucket_files.insert(top.clone(), files);
        self.entries.insert(top, entry);
        self.needs_reorder = true;
    }

    /// Builds the order anew; the cursor stays on its path.
    pub fn reorder(&mut self)
        requires
            old(self).well_formed(),
        ensures
            final(self)@ == reordered(old(self)@),
            final(self).well_formed(),
    {
        let (sorted, selected) = reorder_and_reconcile(
            &self.entries,
            &self.sorted,
            &self.selected,
        );
        self.sorted = sorted;
        self.selected = selected;
        self.needs_reorder = false;
    }

    /// Takes in what the running scan reported; `lost` says that it will report no more. A
    /// location without a scan stays as it is.
    pub fn drain(&mut self, updates: &Vec<ScanUpdate>, lost: bool)
        requires
            old(self).well_formed(),
        ensures
            final(self)@ == (if old(self).scan is Some {
                drained(old(self)@, updates@, 0, lost)
            } else {
                old(self)@
            }),
            final(self).well_formed(),
    {
        if self.scan.is_none() {
            return;
        }
        let ghost whole = drained(self@, updates@, 0, lost);
        let mut i: usize = 0;
        while i < updates.len()
            invariant
                i <= updates@.len(),
                self.well_formed(),
                whole == drained(self@, updates@, i as int, lost),
                old(self).scan is Some,
                whole == drained(old(self)@, updates@, 0, lost),
            decreases updates.len() - i,
        {
            match &updates[i] {
                ScanUpdate::Progress { top, size, files, is_dir } => {
                    self.apply_progress(top.clone(), *size, *files, *is_dir);
                },
                ScanUpdate::Large(file) => {
                    let ghost before = self.large_files@;
                    let copy = file.clone();
                    self.large_files.push(copy);
                    self.needs_reorder = true;
                    proof {
                        assert(self.large_files@.map_values(file_view()) =~= before.map_values(
                            file_view(),
                        ).push(file@));
                    }
                },
                ScanUpdate::Skipped(skipped) => {
                    self.skipped = *skipped;
                },
                ScanUpdate::Done { total_size, total_files, skipped } => {
                    self.total_size = *total_size;
                    self.total_files = *total_files;
                    self.skipped = *skipped;
                    self.complete = true;
                    self.needs_reorder = true;
                    self.scan = None;
                    return;
                },
                ScanUpdate::Error(error) => {
                    self.error = Some(error.clone());
                    self.complete = true;
                    self.scan = None;
                    return;
                },
            }
            i = i + 1;
        }
        if lost {
            self.scan = None;
        }
    }
}

// ---------------------------------------------------------------------------------------
// Laws
// ---------------------------------------------------------------------------------------

/// The cursor stays on its path through every change of the order, as long as the entry is
/// there.
pub proof fn cursor_stays_on_its_path(location: LocationView, path: Seq<char>)
    requires
        location.selected == Some(path),
        entry_place(display_order(location.entries), path, 0) is Some,
    ensures
        reordered(location).selected == Some(path),
{
}

/// The order in which the entries are shown is no matter of how often it is built.
pub proof fn reordering_settles(location: LocationView)
    requires
        location.selected matches Some(path) ==> entry_place(
            display_order(location.entries),
            path,
            0,
        ) is Some,
        location.selected is Some,
    ensures
        reordered(reordered(location)) == reordered(location),
{
}

/// The bytes of some entries.
pub open spec fn entry_bytes(entries: Seq<(Seq<char>, DiskEntryView)>) -> nat {
    sum_of(entries, |entry: (Seq<char>, DiskEntryView)| entry.1.size as nat)
}

/// The files that were counted below some entries.
pub open spec fn counted_files(buckets: Seq<(Seq<char>, u64)>) -> nat {
    sum_of(buckets, |bucket: (Seq<char>, u64)| bucket.1 as nat)
}

/// The totals of a location are the sums over its entries.
pub open spec fn totals_are_sums(location: LocationView) -> bool {
    location.total_size == entry_bytes(location.entries) && location.total_files == counted_files(
        location.bucket_files,
    )
}

/// While a scan reports, the totals stay the sums over the entries, wherever these fit in 64
/// bits: a scan starts with totals that are, and every report keeps them so.
pub proof fn totals_stay_sums(
    location: LocationView,
    scan: u64,
    top: Seq<char>,
    size: u64,
    files: u64,
    is_dir: bool,
)
    requires
        totals_are_sums(location),
        entry_bytes(with_progress(location, top, size, files, is_dir).entries) <= u64::MAX,
        counted_files(with_progress(location, top, size, files, is_dir).bucket_files) <= u64::MAX,
    ensures
        totals_are_sums(fresh_location(location.path)),
        totals_are_sums(scanning_location(location.path, scan)),
        totals_are_sums(with_progress(location, top, size, files, is_dir)),
        totals_are_sums(reordered(location)),
{
    let weigh = |entry: (Seq<char>, DiskEntryView)| entry.1.size as nat;
    let count = |bucket: (Seq<char>, u64)| bucket.1 as nat;
    lemma_sum_placed(location.entries, top, progress_entry(top, size, is_dir), weigh);
    lemma_sum_placed(location.bucket_files, top, files, count);
}

proof fn lemma_sum_placed<W>(
    entries: Seq<(Seq<char>, W)>,
    path: Seq<char>,
    value: W,
    weight: spec_fn((Seq<char>, W)) -> nat,
)
    requires
        forall|a: Seq<char>, b: Seq<char>, w: W| #[trigger] weight((a, w)) == #[trigger] weight((b, w)),
    ensures
        sum_of(placed(entries, path, value), weight) + (match place_of(entries, parts(path), 0) {
            Some(i) => weight(entries[i]),
            None => 0,
        }) == sum_of(entries, weight) + weight((path, value)),
        place_of(entries, parts(path), 0) matches Some(i) ==> weight(entries[i]) <= sum_of(
            entries,
            weight,
        ),
{
    let now = placed(entries, path, value);
    lemma_place_found(entries, parts(path), 0);
    match place_of(entries, parts(path), 0) {
        Some(i) => {
            lemma_sum_without(entries, weight, i);
            lemma_sum_without(now, weight, i);
            assert(now.remove(i) =~= entries.remove(i));
            assert(weight((entries[i].0, value)) == weight((path, value)));
        },
        None => {
            lemma_places_before(entries, path, 0);
            let at = places_before(entries, path, 0);
            lemma_sum_without(now, weight, at);
            assert(now.remove(at) =~= entries);
        },
    }
}

/// A report that was taken in twice counts once: the second leaves both totals as they are.
pub proof fn repeated_progress_counts_once(
    location: LocationView,
    top: Seq<char>,
    size: u64,
    files: u64,
    is_dir: bool,
)
    requires
        place_of(location.entries, parts(top), 0) matches Some(i) ==> location.entries[i].1.size
            <= location.total_size,
        value_or(location.bucket_files, top, 0) <= location.total_files,
        location.total_size as int + size <= u64::MAX,
        location.total_files as int + files <= u64::MAX,
    ensures
        ({
            let once = with_progress(location, top, size, files, is_dir);
            let twice = with_progress(once, top, size, files, is_dir);
            twice.total_size == once.total_size && twice.total_files == once.total_files
        }),
{
    lemma_placed(location.entries, top, progress_entry(top, size, is_dir));
    lemma_placed(location.bucket_files, top, files);
}

proof fn lemma_placed<W>(entries: Seq<(Seq<char>, W)>, path: Seq<char>, value: W)
    ensures
        place_of(placed(entries, path, value), parts(path), 0) matches Some(i) && placed(
            entries,
            path,
            value,
        )[i].1 == value,
{
    lemma_place_found(entries, parts(path), 0);
    let now = placed(entries, path, value);
    match place_of(entries, parts(path), 0) {
        Some(i) => {
            assert forall|j: int| 0 <= j < i implies parts((#[trigger] now[j]).0) != parts(path) by {
                assert(now[j] == entries[j]);
            }
            lemma_first_place(now, parts(path), i, 0);
        },
        None => {
            lemma_places_before(entries, path, 0);
            let at = places_before(entries, path, 0);
            assert forall|j: int| 0 <= j < at implies parts((#[trigger] now[j]).0) != parts(path) by {
                assert(now[j] == entries[j]);
            }
            lemma_first_place(now, parts(path), at, 0);
        },
    }
}

proof fn lemma_places_before<W>(entries: Seq<(Seq<char>, W)>, path: Seq<char>, i: int)
    requires
        0 <= i <= entries.len(),
    ensures
        i <= places_before(entries, path, i) <= entries.len(),
    decreases entries.len() - i,
{
    if i < entries.len() && path_before(entries[i].0, path) {
        lemma_places_before(entries, path, i + 1);
    }
}

proof fn lemma_first_place<W>(
    entries: Seq<(Seq<char>, W)>,
    key: Seq<Part>,
    at: int,
    from: int,
)
    requires
        0 <= from <= at < entries.len(),
        parts(entries[at].0) == key,
        forall|j: int| from <= j < at ==> parts((#[trigger] entries[j]).0) != key,
    ensures
        place_of(entries, key, from) == Some(at),
    decreases at - from,
{
    if from < at {
        lemma_first_place(entries, key, at, from + 1);
    }
}

proof fn lemma_place_found<W>(
    entries: Seq<(Seq<char>, W)>,
    key: Seq<Part>,
    from: int,
)
    requires
        0 <= from,
    ensures
        match place_of(entries, key, from) {
            Some(at) => from <= at < entries.len() && parts(entries[at].0) == key && forall|j: int|
                from <= j < at ==> parts((#[trigger] entries[j]).0) != key,
            None => forall|j: int|
                from <= j < entries.len() ==> parts((#[trigger] entries[j]).0) != key,
        },
    decreases entries.len() - from,
{
    if from < entries.len() {
        lemma_place_found(entries, key, from + 1);
    }
}

/// Progress on an entry is what is known of it afterwards, and says nothing of any other.
pub proof fn progress_is_known(
    location: LocationView,
    top: Seq<char>,
    size: u64,
    files: u64,
    is_dir: bool,
)
    ensures
        ({
            let after = with_progress(location, top, size, files, is_dir);
            &&& exists|i: int|
                {
                    &&& 0 <= i < after.entries.len()
                    &&& parts((#[trigger] after.entries[i]).0) == parts(top)
                    &&& after.entries[i].1.size == size
                    &&& after.entries[i].1.is_dir == is_dir
                    &&& after.entries[i].1.path == top
                }
            &&& after.large_files == location.large_files
            &&& after.skipped == location.skipped
            &&& after.path == location.path
            &&& after.needs_reorder
            &&& after.entries.len() == location.entries.len() + if place_of(
                location.entries,
                parts(top),
                0,
            ) is Some {
                0int
            } else {
                1
            }
            &&& forall|j: int|
                0 <= j < location.entries.len() && parts((#[trigger] location.entries[j]).0)
                    != parts(top) ==> after.entries.contains(location.entries[j])
        }),
{
    let after = with_progress(location, top, size, files, is_dir);
    let entry = progress_entry(top, size, is_dir);
    let before = location.entries;
    lemma_place_found(before, parts(top), 0);
    lemma_place_before(before, top, 0);
    let at = places_before(before, top, 0);
    let place = place_of(before, parts(top), 0);
    if let Some(i) = place {
        assert(after.entries[i].1 == entry);
        assert(parts(after.entries[i].0) == parts(top));
    } else {
        assert(after.entries[at] == (top, entry));
    }
    assert forall|j: int| 0 <= j < before.len() && parts((#[trigger] before[j]).0) != parts(
        top,
    ) implies after.entries.contains(before[j]) by {
        if place is Some {
            assert(after.entries[j] == before[j]);
        } else if j < at {
            assert(after.entries[j] == before[j]);
        } else {
            assert(after.entries[j + 1] == before[j]);
        }
    }
}

proof fn lemma_place_before<W>(entries: Seq<(Seq<char>, W)>, path: Seq<char>, from: int)
    requires
        0 <= from <= entries.len(),
    ensures
        from <= places_before(entries, path, from) <= entries.len(),
    decreases entries.len() - from,
{
    if from < entries.len() {
        lemma_place_before(entries, path, from + 1);
    }
}

/// The large file that an update reports.
pub open spec fn large_update(update: ScanUpdate) -> Option<LargeFileView> {
    match update {
        ScanUpdate::Large(file) => Some(file@),
        _ => None,
    }
}

/// Every large file that a scan reports is kept, in the order in which they are reported, behind
/// those that were known; and while the scan goes on, it stays the scan of the location.
pub proof fn reported_files_are_kept(
    location: LocationView,
    updates: Seq<ScanUpdate>,
    from: int,
)
    requires
        0 <= from <= updates.len(),
        forall|i: int|
            0 <= i < updates.len() ==> !((#[trigger] updates[i]) is Done) && !(updates[i] is Error),
    ensures
        ({
            let after = drained(location, updates, from, false);
            &&& after.large_files == location.large_files + kept(
                updates.skip(from),
                |update: ScanUpdate| large_update(update),
            )
            &&& after.scan == location.scan
            &&& after.complete == location.complete
            &&& after.error == location.error
        }),
        drained(location, updates, from, true).scan is None,
    decreases updates.len() - from,
{
    let keep = |update: ScanUpdate| large_update(update);
    let rest = updates.skip(from);
    if from < updates.len() {
        let one = seq![updates[from]];
        assert(rest =~= one + updates.skip(from + 1));
        kept_adds_up(one, updates.skip(from + 1), keep);
        kept_of_one(updates[from], keep);
        let next = match updates[from] {
            ScanUpdate::Progress { top, size, files, is_dir } => with_progress(
                location,
                top@,
                size,
                files,
                is_dir,
            ),
            ScanUpdate::Large(file) => LocationView {
                large_files: location.large_files.push(file@),
                needs_reorder: true,
                ..location
            },
            ScanUpdate::Skipped(skipped) => LocationView { skipped, ..location },
            _ => location,
        };
        reported_files_are_kept(next, updates, from + 1);
        assert(next.large_files + kept(updates.skip(from + 1), keep) =~= location.large_files
            + kept(rest, keep));
    } else {
        assert(rest =~= Seq::empty());
        assert(location.large_files + kept(rest, keep) =~= location.large_files);
    }
}

/// The end of a scan settles the totals, and an error is kept; either way nothing behind it
/// counts.
pub proof fn end_of_a_scan_settles(location: LocationView, updates: Seq<ScanUpdate>, lost: bool)
    requires
        updates.len() > 0,
    ensures
        updates[0] matches ScanUpdate::Done { total_size, total_files, skipped } ==> {
            let after = drained(location, updates, 0, lost);
            &&& after.total_size == total_size && after.total_files == total_files && after.skipped
                == skipped
            &&& after.complete && after.scan is None && after.error == location.error
            &&& after.entries == location.entries && after.large_files == location.large_files
        },
        updates[0] matches ScanUpdate::Error(error) ==> {
            let after = drained(location, updates, 0, lost);
            after.error == Some(error@) && after.complete && after.scan is None && after.entries
                == location.entries
        },
        updates[0] matches ScanUpdate::Skipped(skipped) ==> drained(
            location,
            updates.take(1),
            0,
            false,
        ).skipped == skipped,
{
    reveal_with_fuel(drained, 3);
}

} // verus!
