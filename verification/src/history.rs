//! The record of what was cleaned: files that rotate when they grow, read newest first.
use vstd::prelude::*;
use vstd::string::*;

use crate::model::ActionResult;
use crate::number::{count_text, decimal, decimal_is_read_back};
use crate::text::{kept, kept_adds_up, texts};

verus! {

/// One cleanup.
#[derive(Debug, PartialEq, Eq)]
pub struct HistoryRecord {
    /// When it ran, in seconds since the start of 1970 UTC.
    pub timestamp: i64,
    pub distribution: String,
    pub command: String,
    pub results: Vec<ActionResult>,
}

/// Where records are kept, how large a file may grow, and how many older files stay.
#[derive(Debug, PartialEq, Eq)]
pub struct HistoryStore {
    pub path: String,
    pub max_file_bytes: u64,
    pub retained_files: usize,
}

/// The file with the records that were rotated out `index` times.
pub open spec fn rotated(path: Seq<char>, index: nat) -> Seq<char> {
    path + ("."@ + decimal(index))
}

/// The files that hold records, the oldest first.
pub open spec fn files_oldest_first(path: Seq<char>, retained: nat) -> Seq<Seq<char>>
    decreases retained,
{
    if retained == 0 {
        seq![path]
    } else {
        seq![rotated(path, retained)] + files_oldest_first(path, (retained - 1) as nat)
    }
}

/// What is to be done before a record is added.
#[derive(Debug, PartialEq, Eq)]
pub enum Rotation {
    /// There is room.
    Keep,
    /// The file starts over; no older file stays.
    Truncate,
    /// The files are renamed one after the other. All but the last may be missing.
    Rename(Vec<(String, String)>),
}

pub enum RotationView {
    Keep,
    Truncate,
    Rename(Seq<(Seq<char>, Seq<char>)>),
}

pub open spec fn rename_views(list: Seq<(String, String)>) -> Seq<(Seq<char>, Seq<char>)> {
    list.map_values(|pair: (String, String)| (pair.0@, pair.1@))
}

impl View for Rotation {
    type V = RotationView;

    open spec fn view(&self) -> RotationView {
        match self {
            Rotation::Keep => RotationView::Keep,
            Rotation::Truncate => RotationView::Truncate,
            Rotation::Rename(list) => RotationView::Rename(rename_views(list@)),
        }
    }
}

/// The renames that make room for `index` and those behind it: the oldest file first.
pub open spec fn renames_down_to(path: Seq<char>, from: nat, index: nat) -> Seq<
    (Seq<char>, Seq<char>),
>
    decreases from,
{
    if from < index || from < 2 {
        Seq::empty()
    } else {
        seq![(rotated(path, (from - 1) as nat), rotated(path, from))] + renames_down_to(
            path,
            (from - 1) as nat,
            index,
        )
    }
}

/// The renames of a rotation: every older file steps back, then the current one.
pub open spec fn rotation_renames(path: Seq<char>, retained: nat) -> Seq<(Seq<char>, Seq<char>)> {
    renames_down_to(path, retained, 2).push((path, rotated(path, 1)))
}

/// What is to be done before `additional` bytes are added to a file of `current` bytes, or to
/// none.
pub open spec fn rotation_for(
    path: Seq<char>,
    max_file_bytes: u64,
    retained: nat,
    current: Option<u64>,
    additional: u64,
) -> RotationView {
    match current {
        None => RotationView::Keep,
        Some(bytes) => if bytes == 0 || bytes + additional <= max_file_bytes || (bytes + additional
            > u64::MAX && max_file_bytes == u64::MAX) {
            RotationView::Keep
        } else if retained == 0 {
            RotationView::Truncate
        } else {
            RotationView::Rename(rotation_renames(path, retained))
        },
    }
}

impl HistoryStore {
    /// A store with files of up to 5 MiB, of which three older ones stay.
    pub fn new(path: String) -> (r: Self)
        ensures
            r.path == path,
            r.max_file_bytes == 5 * 1024 * 1024,
            r.retained_files == 3,
    {
        HistoryStore::with_retention(path, 5 * 1024 * 1024, 3)
    }

    pub fn with_retention(path: String, max_file_bytes: u64, retained_files: usize) -> (r: Self)
        ensures
            r.path == path,
            r.max_file_bytes == max_file_bytes,
            r.retained_files == retained_files,
    {
        HistoryStore { path, max_file_bytes, retained_files }
    }

    pub fn path(&self) -> (r: &str)
        ensures
            r@ == self.path@,
    {
        self.path.as_str()
    }

    pub fn rotated_path(&self, index: usize) -> (r: String)
        ensures
            r@ == rotated(self.path@, index as nat),
    {
        let suffix = ".".to_owned().concat(count_text(index).as_str());
        self.path.clone().concat(suffix.as_str())
    }

    pub fn lock_path(&self) -> (r: String)
        ensures
            r@ == self.path@ + ".lock"@,
    {
        self.path.clone().concat(".lock")
    }

    /// The files that hold records, the oldest first.
    pub fn history_paths_oldest_first(&self) -> (r: Vec<String>)
        ensures
            texts(r@) == files_oldest_first(self.path@, self.retained_files as nat),
    {
        let mut out: Vec<String> = Vec::new();
        let mut index: usize = self.retained_files;
        let ghost whole = files_oldest_first(self.path@, self.retained_files as nat);
        proof {
            assert(texts(out@) + whole =~= whole);
        }
        while index > 0
            invariant
                index <= self.retained_files,
                whole == files_oldest_first(self.path@, self.retained_files as nat),
                texts(out@) + files_oldest_first(self.path@, index as nat) == whole,
            decreases index,
        {
            let next = self.rotated_path(index);
            let ghost before = texts(out@);
            out.push(next);
            proof {
                let rest = files_oldest_first(self.path@, (index - 1) as nat);
                assert(texts(out@) =~= before.push(next@));
                assert(before.push(next@) + rest =~= before + (seq![next@] + rest));
            }
            index = index - 1;
        }
        let ghost before = texts(out@);
        out.push(self.path.clone());
        proof {
            assert(texts(out@) =~= before + seq![self.path@]);
        }
        out
    }

    /// What is to be done before `additional_bytes` are added to a file of `current_bytes`, or
    /// to none.
    pub fn rotation_needed(&self, current_bytes: Option<u64>, additional_bytes: u64) -> (r:
        Rotation)
        ensures
            r@ == rotation_for(
                self.path@,
                self.max_file_bytes,
                self.retained_files as nat,
                current_bytes,
                additional_bytes,
            ),
    {
        let current: u64 = match current_bytes {
            None => {
                return Rotation::Keep;
            },
            Some(bytes) => bytes,
        };
        let together: u64 = if additional_bytes > u64::MAX - current {
            u64::MAX
        } else {
            current + additional_bytes
        };
        if current == 0 || together <= self.max_file_bytes {
            return Rotation::Keep;
        }
        if self.retained_files == 0 {
            return Rotation::Truncate;
        }
        let mut list: Vec<(String, String)> = Vec::new();
        let mut index: usize = self.retained_files;
        let ghost whole = renames_down_to(self.path@, self.retained_files as nat, 2);
        proof {
            assert(rename_views(list@) + whole =~= whole);
        }
        while index >= 2
            invariant
                index <= self.retained_files,
                whole == renames_down_to(self.path@, self.retained_files as nat, 2),
                rename_views(list@) + renames_down_to(self.path@, index as nat, 2) == whole,
            decreases index,
        {
            let pair = (self.rotated_path(index - 1), self.rotated_path(index));
            let ghost view = (pair.0@, pair.1@);
            let ghost before = rename_views(list@);
            list.push(pair);
            proof {
                let rest = renames_down_to(self.path@, (index - 1) as nat, 2);
                assert(rename_views(list@) =~= before.push(view));
                assert(before.push(view) + rest =~= before + (seq![view] + rest));
            }
            index = index - 1;
        }
        let ghost before = rename_views(list@);
        proof {
            assert(before =~= whole);
        }
        list.push((self.path.clone(), self.rotated_path(1)));
        proof {
            assert(rename_views(list@) =~= rotation_renames(
                self.path@,
                self.retained_files as nat,
            ));
        }
        Rotation::Rename(list)
    }
}

/// Whether a line of a file holds nothing but white space.
pub open spec fn blank_line(line: Seq<u8>) -> bool {
    forall|i: int|
        0 <= i < line.len() ==> #[trigger] line[i] == 32 || line[i] == 9 || line[i] == 10 || line[i]
            == 12 || line[i] == 13
}

pub fn is_blank_line(line: &[u8]) -> (r: bool)
    ensures
        r == blank_line(line@),
{
    let mut i: usize = 0;
    while i < line.len()
        invariant
            i <= line@.len(),
            forall|j: int|
                0 <= j < i ==> #[trigger] line@[j] == 32 || line@[j] == 9 || line@[j] == 10
                    || line@[j] == 12 || line@[j] == 13,
        decreases line.len() - i,
    {
        let b: u8 = line[i];
        if !(b == 32 || b == 9 || b == 10 || b == 12 || b == 13) {
            proof {
                assert(line@[i as int] == b);
            }
            return false;
        }
        i = i + 1;
    }
    true
}

/// The last `limit` of some records, the newest first.
pub open spec fn newest_first<T>(records: Seq<T>, limit: nat) -> Seq<T> {
    if records.len() <= limit {
        records.reverse()
    } else {
        records.skip(records.len() - limit).reverse()
    }
}

/// The records among some lines; a line that is no record holds none.
pub open spec fn records_of<T>(lines: Seq<Option<T>>) -> Seq<T> {
    kept(lines, |line: Option<T>| line)
}

/// The last `limit` records among some lines that are given oldest first; the newest comes
/// first. A line that is no record is passed over and counts nothing.
pub fn read_recent<T>(lines: Vec<Option<T>>, limit: usize) -> (r: Vec<T>)
    ensures
        r@ == newest_first(records_of(lines@), limit as nat),
{
    let ghost all = lines@;
    let ghost keep = |line: Option<T>| line;
    let mut rest = lines;
    let mut out: Vec<T> = Vec::new();
    while out.len() < limit && rest.len() > 0
        invariant
            keep == (|line: Option<T>| line),
            rest@.len() <= all.len(),
            rest@ == all.take(rest@.len() as int),
            out@ =~= kept(all.skip(rest@.len() as int), keep).reverse(),
            out@.len() <= limit,
        decreases rest.len(),
    {
        let ghost n = rest@.len() as int;
        let ghost later = kept(all.skip(n), keep);
        proof {
            let one = seq![all[n - 1]];
            kept_adds_up(one, all.skip(n), keep);
            assert(one + all.skip(n) =~= all.skip(n - 1));
            assert(one.drop_last() =~= Seq::empty());
            assert(kept(one.drop_last(), keep) =~= Seq::empty());
            assert(one.last() == all[n - 1]);
        }
        if let Some(line) = rest.pop() {
            proof {
                assert(rest@ =~= all.take(n - 1));
                assert(line == all[n - 1]);
            }
            if let Some(record) = line {
                out.push(record);
                proof {
                    assert(kept(all.skip(n - 1), keep) =~= seq![record] + later);
                    assert((seq![record] + later).reverse() =~= later.reverse().push(record));
                }
            } else {
                proof {
                    assert(kept(all.skip(n - 1), keep) =~= later);
                }
            }
        }
    }
    proof {
        let left = rest@.len() as int;
        let records = kept(all, keep);
        let later = kept(all.skip(left), keep);
        kept_adds_up(all.take(left), all.skip(left), keep);
        assert(all.take(left) + all.skip(left) =~= all);
        if out@.len() < limit {
            assert(all.take(0) =~= Seq::empty());
            assert(records =~= later);
        } else {
            assert(records.skip(records.len() - limit) =~= later);
            if records.len() <= limit {
                assert(records.skip(0) =~= records);
            }
        }
    }
    out
}

// ---------------------------------------------------------------------------------------
// Laws
// ---------------------------------------------------------------------------------------

/// A set of files after one rename; a file that is missing is passed over.
pub open spec fn renamed<T>(files: Map<Seq<char>, T>, pair: (Seq<char>, Seq<char>)) -> Map<
    Seq<char>,
    T,
> {
    if files.dom().contains(pair.0) {
        files.remove(pair.0).insert(pair.1, files[pair.0])
    } else {
        files
    }
}

/// A set of files after some renames, one after the other.
pub open spec fn renamed_all<T>(
    files: Map<Seq<char>, T>,
    list: Seq<(Seq<char>, Seq<char>)>,
) -> Map<Seq<char>, T>
    decreases list.len(),
{
    if list.len() == 0 {
        files
    } else {
        renamed_all(renamed(files, list[0]), list.drop_first())
    }
}

/// Two rotations are different files, and none is the current one.
pub proof fn rotated_files_differ(path: Seq<char>, i: u64, j: u64)
    requires
        i != j,
    ensures
        rotated(path, i as nat) != rotated(path, j as nat),
        rotated(path, i as nat) != path,
{
    decimal_is_read_back(i);
    decimal_is_read_back(j);
    let a = rotated(path, i as nat);
    let b = rotated(path, j as nat);
    let tail_a = "."@ + decimal(i as nat);
    let tail_b = "."@ + decimal(j as nat);
    reveal_strlit(".");
    assert(a.skip(path.len() as int) =~= tail_a);
    assert(b.skip(path.len() as int) =~= tail_b);
    assert(tail_a.skip(1) =~= decimal(i as nat));
    assert(tail_b.skip(1) =~= decimal(j as nat));
    assert(a.len() > path.len());
}

proof fn lemma_renames<T>(path: Seq<char>, files: Map<Seq<char>, T>, from: nat)
    requires
        1 <= from <= u64::MAX,
    ensures
        ({
            let after = renamed_all(files, renames_down_to(path, from, 2));
            &&& forall|name: Seq<char>|
                (forall|k: u64| 1 <= k <= from ==> name != #[trigger] rotated(path, k as nat)) ==> (
                #[trigger] after.dom().contains(name) == files.dom().contains(name) && (
                files.dom().contains(name) ==> after[name] == files[name]))
            &&& forall|k: u64|
                2 <= k <= from && files.dom().contains(rotated(path, (k - 1) as nat)) ==> after.dom().contains(
                    #[trigger] rotated(path, k as nat),
                ) && after[rotated(path, k as nat)] == files[rotated(path, (k - 1) as nat)]
            &&& from >= 2 ==> !after.dom().contains(rotated(path, 1))
        }),
    decreases from,
{
    let list = renames_down_to(path, from, 2);
    if from >= 2 {
        let f = from as u64;
        let older = rotated(path, from);
        let newer = rotated(path, (from - 1) as nat);
        rotated_files_differ(path, f, (f - 1) as u64);
        let step = renamed(files, (newer, older));
        let rest = renames_down_to(path, (from - 1) as nat, 2);
        assert(list.drop_first() =~= rest);
        assert(list[0] == (newer, older));
        let after = renamed_all(files, list);
        assert(after == renamed_all(step, rest));
        lemma_renames(path, step, (from - 1) as nat);
        assert forall|k: u64| 1 <= k <= from - 1 implies older != #[trigger] rotated(
            path,
            k as nat,
        ) by {
            rotated_files_differ(path, f, k);
        }
        assert forall|k: u64| 2 <= k <= from && files.dom().contains(
            rotated(path, (k - 1) as nat),
        ) implies after.dom().contains(#[trigger] rotated(path, k as nat)) && after[rotated(
            path,
            k as nat,
        )] == files[rotated(path, (k - 1) as nat)] by {
            if k < f {
                rotated_files_differ(path, (k - 1) as u64, (f - 1) as u64);
                rotated_files_differ(path, (k - 1) as u64, f);
                assert(step.dom().contains(rotated(path, (k - 1) as nat)));
            } else {
                assert(step.dom().contains(older));
            }
        }
        assert(!after.dom().contains(rotated(path, 1))) by {
            if from == 2 {
                assert(rest =~= Seq::empty());
                assert(!step.dom().contains(newer));
            }
        }
        assert forall|name: Seq<char>|
            (forall|k: u64| 1 <= k <= from ==> name != #[trigger] rotated(path, k as nat)) implies (
        #[trigger] after.dom().contains(name) == files.dom().contains(name) && (
        files.dom().contains(name) ==> after[name] == files[name])) by {
            assert(name != rotated(path, f as nat));
            assert(name != rotated(path, (f - 1) as u64 as nat));
            assert(forall|k: u64|
                1 <= k <= from - 1 ==> name != #[trigger] rotated(path, k as nat));
        }
    } else {
        assert(list =~= Seq::empty());
    }
}

/// A rotation moves every file one step back and loses none but the oldest: the current file
/// becomes the first rotation, each rotation that is there the next one, and the place of the
/// current file is free.
pub proof fn rotation_steps_back<T>(
    path: Seq<char>,
    files: Map<Seq<char>, T>,
    retained: u64,
    k: u64,
)
    requires
        retained >= 1,
        files.dom().contains(path),
        2 <= k <= retained,
        files.dom().contains(rotated(path, (k - 1) as nat)),
    ensures
        ({
            let after = renamed_all(files, rotation_renames(path, retained as nat));
            &&& !after.dom().contains(path)
            &&& after.dom().contains(rotated(path, 1))
            &&& after[rotated(path, 1)] == files[path]
            &&& after.dom().contains(rotated(path, k as nat))
            &&& after[rotated(path, k as nat)] == files[rotated(path, (k - 1) as nat)]
        }),
{
    let front = renames_down_to(path, retained as nat, 2);
    let pair = (path, rotated(path, 1));
    lemma_renames(path, files, retained as nat);
    lemma_renamed_push(files, front, pair);
    let middle = renamed_all(files, front);
    assert forall|j: u64| 1 <= j <= retained implies path != #[trigger] rotated(
        path,
        j as nat,
    ) by {
        rotated_files_differ(path, j, if j == 0 { 1 } else { 0 });
    }
    assert(middle.dom().contains(path));
    rotated_files_differ(path, k, 1);
    assert(rotated(path, 1u64 as nat) != path);
}

proof fn lemma_renamed_push<T>(
    files: Map<Seq<char>, T>,
    list: Seq<(Seq<char>, Seq<char>)>,
    pair: (Seq<char>, Seq<char>),
)
    ensures
        renamed_all(files, list.push(pair)) == renamed(renamed_all(files, list), pair),
    decreases list.len(),
{
    if list.len() == 0 {
        assert(list.push(pair).drop_first() =~= Seq::empty());
        assert(list.push(pair)[0] == pair);
        reveal_with_fuel(renamed_all, 2);
    } else {
        assert(list.push(pair).drop_first() =~= list.drop_first().push(pair));
        assert(list.push(pair)[0] == list[0]);
        lemma_renamed_push(renamed(files, list[0]), list.drop_first(), pair);
    }
}

/// The records of a file; none where it is missing.
pub open spec fn content<T>(files: Map<Seq<char>, Seq<T>>, name: Seq<char>) -> Seq<T> {
    if files.dom().contains(name) {
        files[name]
    } else {
        Seq::empty()
    }
}

/// The records of some files, one file after the other.
pub open spec fn contents<T>(files: Map<Seq<char>, Seq<T>>, names: Seq<Seq<char>>) -> Seq<T>
    decreases names.len(),
{
    if names.len() == 0 {
        Seq::empty()
    } else {
        content(files, names[0]) + contents(files, names.drop_first())
    }
}

/// The files after a record was added to the current one.
pub open spec fn appended<T>(files: Map<Seq<char>, Seq<T>>, path: Seq<char>, record: T) -> Map<
    Seq<char>,
    Seq<T>,
> {
    files.insert(path, content(files, path).push(record))
}

/// The files after room was made for a record.
pub open spec fn prepared<T>(
    files: Map<Seq<char>, Seq<T>>,
    path: Seq<char>,
    rotation: RotationView,
) -> Map<Seq<char>, Seq<T>> {
    match rotation {
        RotationView::Keep => files,
        RotationView::Truncate => files.insert(path, Seq::empty()),
        RotationView::Rename(list) => renamed_all(files, list),
    }
}

/// No rotation is there without the one before it.
pub open spec fn gapless<T>(files: Map<Seq<char>, T>, path: Seq<char>, retained: u64) -> bool {
    forall|k: u64|
        2 <= k <= retained && files.dom().contains(#[trigger] rotated(path, k as nat))
            ==> files.dom().contains(rotated(path, (k - 1) as nat))
}

proof fn lemma_contents_one<T>(files: Map<Seq<char>, Seq<T>>, path: Seq<char>)
    ensures
        contents(files, files_oldest_first(path, 0)) == content(files, path),
{
    let names = files_oldest_first(path, 0);
    assert(names.len() == 1 && names[0] == path);
    assert(names.drop_first().len() == 0);
    assert(contents(files, names.drop_first()) == Seq::<T>::empty());
    assert(contents(files, names) =~= content(files, path));
}

proof fn lemma_contents_end<T>(files: Map<Seq<char>, Seq<T>>, path: Seq<char>, retained: nat)
    ensures
        ({
            let all = contents(files, files_oldest_first(path, retained));
            &&& all.len() >= content(files, path).len()
            &&& all.skip(all.len() - content(files, path).len()) =~= content(files, path)
        }),
    decreases retained,
{
    let names = files_oldest_first(path, retained);
    if retained == 0 {
        lemma_contents_one(files, path);
    } else {
        let rest = files_oldest_first(path, (retained - 1) as nat);
        assert(names.drop_first() =~= rest);
        lemma_contents_end(files, path, (retained - 1) as nat);
        let own = content(files, path);
        let all = contents(files, names);
        let later = contents(files, rest);
        assert(all == content(files, rotated(path, retained)) + later);
        assert(all.skip(all.len() - own.len()) =~= later.skip(later.len() - own.len()));
    }
}

/// A record that was written is the first that is read, whatever room had to be made for it.
pub proof fn written_record_is_read_first<T>(
    path: Seq<char>,
    files: Map<Seq<char>, Seq<Option<T>>>,
    rotation: RotationView,
    retained: nat,
    record: T,
    limit: nat,
)
    requires
        limit > 0,
    ensures
        ({
            let after = appended(prepared(files, path, rotation), path, Some(record));
            let lines = contents(after, files_oldest_first(path, retained));
            let read = newest_first(records_of(lines), limit);
            read.len() > 0 && read[0] == record
        }),
{
    let after = appended(prepared(files, path, rotation), path, Some(record));
    let all = contents(after, files_oldest_first(path, retained));
    let own = content(after, path);
    lemma_contents_end(after, path, retained);
    assert(own.last() == Some(record));
    assert(all.skip(all.len() - own.len())[own.len() - 1] == all[all.len() - 1]);
    assert(all.last() == Some(record));
    assert(records_of(all).last() == record);
}

/// The files after some lines were added to the current one, with room for all of them.
pub open spec fn appended_all<T>(
    files: Map<Seq<char>, Seq<T>>,
    path: Seq<char>,
    lines: Seq<T>,
) -> Map<Seq<char>, Seq<T>>
    decreases lines.len(),
{
    if lines.len() == 0 {
        files
    } else {
        appended(appended_all(files, path, lines.drop_last()), path, lines.last())
    }
}

proof fn lemma_one_behind<T>(
    path: Seq<char>,
    files: Map<Seq<char>, Seq<T>>,
    retained: nat,
    line: T,
)
    requires
        retained <= u64::MAX,
    ensures
        contents(appended(files, path, line), files_oldest_first(path, retained)) == contents(
            files,
            files_oldest_first(path, retained),
        ).push(line),
    decreases retained,
{
    let after = appended(files, path, line);
    let names = files_oldest_first(path, retained);
    if retained == 0 {
        lemma_contents_one(after, path);
        lemma_contents_one(files, path);
    } else {
        let rest = files_oldest_first(path, (retained - 1) as nat);
        assert(names.drop_first() =~= rest);
        lemma_one_behind(path, files, (retained - 1) as nat, line);
        rotated_files_differ(path, retained as u64, 0);
        assert(content(after, names[0]) == content(files, names[0]));
        assert(contents(after, names) =~= contents(files, names).push(line));
    }
}

proof fn lemma_all_behind<T>(
    path: Seq<char>,
    files: Map<Seq<char>, Seq<T>>,
    retained: nat,
    lines: Seq<T>,
)
    requires
        retained <= u64::MAX,
    ensures
        contents(appended_all(files, path, lines), files_oldest_first(path, retained)) == contents(
            files,
            files_oldest_first(path, retained),
        ) + lines,
    decreases lines.len(),
{
    let names = files_oldest_first(path, retained);
    if lines.len() == 0 {
        assert(contents(files, names) + lines =~= contents(files, names));
    } else {
        let before = appended_all(files, path, lines.drop_last());
        lemma_all_behind(path, files, retained, lines.drop_last());
        lemma_one_behind(path, before, retained, lines.last());
        assert((contents(files, names) + lines.drop_last()).push(lines.last()) =~= contents(
            files,
            names,
        ) + lines);
    }
}

/// What was added without a rotation is read back, the last first: the records among the new
/// lines, as many as are asked for, and behind them those that were there before. With no
/// record before, `limit` of `n` records gives the last of them, `limit` or `n`, whichever is
/// less.
pub proof fn appended_records_are_read_back<T>(
    path: Seq<char>,
    files: Map<Seq<char>, Seq<Option<T>>>,
    retained: u64,
    lines: Seq<Option<T>>,
    limit: nat,
)
    ensures
        ({
            let names = files_oldest_first(path, retained as nat);
            let after = appended_all(files, path, lines);
            let read = newest_first(records_of(contents(after, names)), limit);
            let before = records_of(contents(files, names));
            let all = before + records_of(lines);
            &&& read.len() == if limit < all.len() {
                limit
            } else {
                all.len()
            }
            &&& forall|i: int| 0 <= i < read.len() ==> #[trigger] read[i] == all[all.len() - 1 - i]
        }),
{
    let names = files_oldest_first(path, retained as nat);
    lemma_all_behind(path, files, retained as nat, lines);
    kept_adds_up(contents(files, names), lines, |line: Option<T>| line);
}

/// A line that is no record is passed over and counts nothing, wherever it stands.
pub proof fn malformed_line_is_passed_over<T>(
    before: Seq<Option<T>>,
    after: Seq<Option<T>>,
    limit: nat,
)
    ensures
        newest_first(records_of(before.push(None) + after), limit) == newest_first(
            records_of(before + after),
            limit,
        ),
{
    let keep = |line: Option<T>| line;
    kept_adds_up(before.push(None), after, keep);
    kept_adds_up(before, after, keep);
    assert(before.push(None).drop_last() =~= before);
}

/// To read no record gives none.
pub proof fn reading_none_gives_none<T>(lines: Seq<Option<T>>)
    ensures
        newest_first(records_of(lines), 0).len() == 0,
{
}

proof fn lemma_gaps_stay<T>(path: Seq<char>, files: Map<Seq<char>, T>, from: nat)
    requires
        1 <= from <= u64::MAX,
    ensures
        ({
            let after = renamed_all(files, renames_down_to(path, from, 2));
            forall|k: u64|
                2 <= k <= from && !files.dom().contains(rotated(path, (k - 1) as nat))
                    && !files.dom().contains(rotated(path, k as nat)) ==> !after.dom().contains(
                    #[trigger] rotated(path, k as nat),
                )
        }),
    decreases from,
{
    let list = renames_down_to(path, from, 2);
    if from >= 2 {
        let f = from as u64;
        let older = rotated(path, from);
        let newer = rotated(path, (from - 1) as nat);
        let step = renamed(files, (newer, older));
        let rest = renames_down_to(path, (from - 1) as nat, 2);
        assert(list.drop_first() =~= rest);
        assert(list[0] == (newer, older));
        let after = renamed_all(files, list);
        assert(after == renamed_all(step, rest));
        lemma_gaps_stay(path, step, (from - 1) as nat);
        lemma_renames(path, step, (from - 1) as nat);
        assert forall|k: u64| 2 <= k <= from && !files.dom().contains(rotated(path, (k - 1) as nat))
            && !files.dom().contains(rotated(path, k as nat)) implies !after.dom().contains(
            #[trigger] rotated(path, k as nat),
        ) by {
            if k < f {
                rotated_files_differ(path, f, k);
                rotated_files_differ(path, f, (k - 1) as u64);
                assert(!step.dom().contains(rotated(path, (k - 1) as nat)));
                assert(!step.dom().contains(rotated(path, k as nat)));
            } else {
                assert forall|j: u64| 1 <= j <= from - 1 implies older != #[trigger] rotated(
                    path,
                    j as nat,
                ) by {
                    rotated_files_differ(path, f, j);
                }
                assert(step == files);
                assert(!step.dom().contains(older));
            }
        }
    }
}

proof fn lemma_shifted<T>(
    path: Seq<char>,
    files: Map<Seq<char>, Seq<T>>,
    after: Map<Seq<char>, Seq<T>>,
    retained: u64,
    record: T,
    k: nat,
)
    requires
        1 <= k <= retained,
        content(after, path) == seq![record],
        content(after, rotated(path, 1)) == content(files, path),
        forall|j: u64|
            2 <= j <= retained ==> content(after, #[trigger] rotated(path, j as nat)) == content(
                files,
                rotated(path, (j - 1) as nat),
            ),
    ensures
        contents(after, files_oldest_first(path, k)) == contents(
            files,
            files_oldest_first(path, (k - 1) as nat),
        ).push(record),
    decreases k,
{
    let names = files_oldest_first(path, k);
    let rest = files_oldest_first(path, (k - 1) as nat);
    assert(names.drop_first() =~= rest);
    if k == 1 {
        lemma_contents_one(after, path);
        lemma_contents_one(files, path);
        assert(contents(after, names) =~= content(files, path).push(record));
    } else {
        lemma_shifted(path, files, after, retained, record, (k - 1) as nat);
        let earlier = files_oldest_first(path, (k - 2) as nat);
        assert(rest.drop_first() =~= earlier);
        assert(content(after, rotated(path, k as u64 as nat)) == content(
            files,
            rotated(path, (k - 1) as nat),
        ));
        assert(contents(after, names) =~= contents(files, rest).push(record));
    }
}

/// A rotation loses nothing but the oldest file: afterwards all the other records are there as
/// before, with the new one behind them. The files stay without gaps.
pub proof fn rotation_keeps_newer_records<T>(
    path: Seq<char>,
    files: Map<Seq<char>, Seq<T>>,
    retained: u64,
    record: T,
)
    requires
        retained >= 1,
        files.dom().contains(path),
        gapless(files, path, retained),
    ensures
        ({
            let rotation = RotationView::Rename(rotation_renames(path, retained as nat));
            let after = appended(prepared(files, path, rotation), path, record);
            let names = files_oldest_first(path, retained as nat);
            let oldest = content(files, rotated(path, retained as nat));
            &&& contents(after, names) == contents(files, names).skip(oldest.len() as int).push(
                record,
            )
            &&& gapless(after, path, retained)
        }),
{
    let front = renames_down_to(path, retained as nat, 2);
    let pair = (path, rotated(path, 1));
    let middle = renamed_all(files, front);
    let moved = renamed_all(files, rotation_renames(path, retained as nat));
    let after = appended(moved, path, record);
    let names = files_oldest_first(path, retained as nat);
    lemma_renames(path, files, retained as nat);
    lemma_gaps_stay(path, files, retained as nat);
    lemma_renamed_push(files, front, pair);
    assert forall|j: u64| 1 <= j <= retained implies path != #[trigger] rotated(
        path,
        j as nat,
    ) by {
        rotated_files_differ(path, j, if j == 0 { 1 } else { 0 });
    }
    assert(path != rotated(path, 1u64 as nat));
    assert(middle.dom().contains(path) && middle[path] == files[path]);
    assert(content(after, path) =~= seq![record]);
    assert(content(after, rotated(path, 1)) == content(files, path));
    assert forall|j: u64| 2 <= j <= retained implies content(
        after,
        #[trigger] rotated(path, j as nat),
    ) == content(files, rotated(path, (j - 1) as nat)) by {
        rotated_files_differ(path, j, 1);
        assert(path != rotated(path, j as nat));
    }
    assert forall|k: u64| 2 <= k <= retained && after.dom().contains(
        #[trigger] rotated(path, k as nat),
    ) implies after.dom().contains(rotated(path, (k - 1) as nat)) by {
        rotated_files_differ(path, k, 1);
        assert(path != rotated(path, k as nat));
        if k > 2 {
            rotated_files_differ(path, (k - 1) as u64, 1);
            assert(path != rotated(path, (k - 1) as u64 as nat));
            if !files.dom().contains(rotated(path, (k - 1) as u64 as nat)) {
                assert(!files.dom().contains(rotated(path, k as nat)));
                assert(!middle.dom().contains(rotated(path, k as nat)));
            }
            assert(files.dom().contains(rotated(path, (k - 1) as u64 as nat)));
            assert(files.dom().contains(rotated(path, (k - 2) as nat)));
            assert(middle.dom().contains(rotated(path, (k - 1) as u64 as nat)));
        }
    }
    lemma_shifted(path, files, after, retained, record, retained as nat);
    let rest = files_oldest_first(path, (retained - 1) as nat);
    assert(names.drop_first() =~= rest);
    let oldest = content(files, rotated(path, retained as nat));
    assert(contents(files, names) == oldest + contents(files, rest));
    assert(contents(files, names).skip(oldest.len() as int) =~= contents(files, rest));
}

/// A file grows up to its limit: it is kept where the record still fits, where it is empty and
/// where there is none, and room is made exactly where the record does not fit. Older files stay
/// where any are to stay.
pub proof fn files_grow_up_to_their_limit(
    path: Seq<char>,
    max_file_bytes: u64,
    retained: nat,
    bytes: u64,
    additional: u64,
)
    requires
        bytes + additional <= u64::MAX,
    ensures
        rotation_for(path, max_file_bytes, retained, None, additional) is Keep,
        rotation_for(path, max_file_bytes, retained, Some(bytes), additional) is Keep <==> bytes == 0
            || bytes + additional <= max_file_bytes,
        rotation_for(path, max_file_bytes, retained, Some(bytes), additional) is Truncate
            ==> retained == 0,
        rotation_for(path, max_file_bytes, retained, Some(bytes), additional) is Rename
            ==> retained > 0,
{
}

/// All files of a history are read: the current one last, and before it those that were rotated
/// out, the oldest first.
pub proof fn every_file_is_read(path: Seq<char>, retained: nat, k: nat)
    requires
        k <= retained,
    ensures
        files_oldest_first(path, retained).len() == retained + 1,
        files_oldest_first(path, retained).last() == path,
        k > 0 ==> files_oldest_first(path, retained)[retained - k] == rotated(path, k),
    decreases retained,
{
    let all = files_oldest_first(path, retained);
    if retained > 0 {
        let rest = files_oldest_first(path, (retained - 1) as nat);
        every_file_is_read(
            path,
            (retained - 1) as nat,
            if k < retained {
                k
            } else {
                0
            },
        );
        assert(all.last() == rest.last());
        if 0 < k < retained {
            assert(all[retained - k] == rest[retained - k - 1]);
        }
    }
}

/// White space alone makes a blank line, however long, and anything else in it makes it none.
pub proof fn blank_lines_hold_nothing(line: Seq<u8>, byte: u8)
    ensures
        blank_line(Seq::empty()),
        byte == 32 || byte == 9 || byte == 10 || byte == 12 || byte == 13 ==> (blank_line(
            line.push(byte),
        ) <==> blank_line(line)),
        byte > 32 ==> !blank_line(line.push(byte)),
{
    let more = line.push(byte);
    assert(more[line.len() as int] == byte);
    if blank_line(more) {
        assert forall|i: int| 0 <= i < line.len() implies #[trigger] line[i] == 32 || line[i] == 9
            || line[i] == 10 || line[i] == 12 || line[i] == 13 by {
            assert(more[i] == line[i]);
        }
    }
}

/// Reading gives back the newest records, the newest first and as many as there are up to the
/// limit; a line that is no record changes nothing.
pub proof fn newest_records_are_read<T>(lines: Vec<Option<T>>, limit: usize, read: Vec<T>, i: int)
    requires
        call_ensures(read_recent::<T>, (lines, limit), read),
        0 <= i < read@.len(),
    ensures
        read@.len() == if records_of(lines@).len() < limit {
            records_of(lines@).len()
        } else {
            limit as nat
        },
        read@[i] == records_of(lines@)[records_of(lines@).len() - 1 - i],
{
}

} // verus!
