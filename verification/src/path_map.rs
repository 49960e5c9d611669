//! Values kept under paths, in the order of the paths.
use vstd::prelude::*;
use vstd::string::*;

use crate::path::{is_path_before, lemma_parts_order, parts, path_before, same_path, Part};

verus! {

/// A map from paths to values. Two spellings of one path are one key; the first one stays.
#[derive(Debug)]
pub struct PathMap<V> {
    pub entries: Vec<(String, V)>,
}

/// The position of a path in a list of entries, from the `i`-th on.
pub open spec fn position_of<V>(entries: Seq<(String, V)>, key: Seq<Part>, i: int) -> Option<int>
    decreases entries.len() - i,
{
    if i < 0 || i >= entries.len() {
        None
    } else if parts(entries[i].0@) == key {
        Some(i)
    } else {
        position_of(entries, key, i + 1)
    }
}

/// The value under a path in a list of entries.
pub open spec fn value_in<V>(entries: Seq<(String, V)>, key: Seq<Part>) -> Option<V> {
    match position_of(entries, key, 0) {
        Some(i) => Some(entries[i].1),
        None => None,
    }
}

/// How many leading entries come before a path.
pub open spec fn entries_before<V>(entries: Seq<(String, V)>, path: Seq<char>, i: int) -> int
    decreases entries.len() - i,
{
    if i < 0 || i >= entries.len() || !path_before(entries[i].0@, path) {
        i
    } else {
        entries_before(entries, path, i + 1)
    }
}

/// The entries with `value` under `path`.
pub open spec fn with_entry<V>(entries: Seq<(String, V)>, path: String, value: V) -> Seq<
    (String, V),
> {
    match position_of(entries, parts(path@), 0) {
        Some(i) => entries.update(i, (entries[i].0, value)),
        None => entries.insert(entries_before(entries, path@, 0), (path, value)),
    }
}

/// The entries without what stands under a path.
pub open spec fn without_entry<V>(entries: Seq<(String, V)>, key: Seq<Part>) -> Seq<(String, V)> {
    match position_of(entries, key, 0) {
        Some(i) => entries.remove(i),
        None => entries,
    }
}

impl<V> PathMap<V> {
    /// The paths stand in their order, each once.
    pub open spec fn well_formed(self) -> bool {
        in_order(self.entries@)
    }

    pub open spec fn has(self, key: Seq<Part>) -> bool {
        position_of(self.entries@, key, 0) is Some
    }

    /// The value under a path.
    pub open spec fn value(self, key: Seq<Part>) -> Option<V> {
        value_in(self.entries@, key)
    }

    pub fn new() -> (r: Self)
        ensures
            r.well_formed(),
            r.entries@.len() == 0,
    {
        PathMap { entries: Vec::new() }
    }

    pub fn is_empty(&self) -> (r: bool)
        ensures
            r == (self.entries@.len() == 0),
    {
        self.entries.len() == 0
    }

    /// The position of a path among the entries.
    pub fn find(&self, path: &str) -> (r: Option<usize>)
        ensures
            match r {
                Some(i) => position_of(self.entries@, parts(path@), 0) == Some(i as int) && i
                    < self.entries@.len() && parts(self.entries@[i as int].0@) == parts(path@),
                None => position_of(self.entries@, parts(path@), 0) is None,
            },
    {
        let mut i: usize = 0;
        while i < self.entries.len()
            invariant
                i <= self.entries@.len(),
                position_of(self.entries@, parts(path@), 0) == position_of(
                    self.entries@,
                    parts(path@),
                    i as int,
                ),
            decreases self.entries.len() - i,
        {
            if same_path(self.entries[i].0.as_str(), path) {
                return Some(i);
            }
            i = i + 1;
        }
        None
    }

    pub fn contains(&self, path: &str) -> (r: bool)
        ensures
            r == self.has(parts(path@)),
    {
        self.find(path).is_some()
    }

    /// Puts `value` under `path`; what was there before goes.
    pub fn insert(&mut self, path: String, value: V)
        requires
            old(self).well_formed(),
        ensures
            final(self).well_formed(),
            final(self).entries@ == with_entry(old(self).entries@, path, value),
            final(self).value(parts(path@)) == Some(value),
            forall|key: Seq<Part>|
                key != parts(path@) ==> #[trigger] final(self).value(key) == old(self).value(key),
            old(self).has(parts(path@)) ==> final(self).entries@.len() == old(self).entries@.len(),
            !old(self).has(parts(path@)) ==> final(self).entries@.len() == old(self).entries@.len()
                + 1,
    {
        let ghost before = self.entries@;
        match self.find(path.as_str()) {
            Some(i) => {
                let (kept, _) = self.entries.remove(i);
                self.entries.insert(i, (kept, value));
                proof {
                    assert(self.entries@ =~= before.update(i as int, (kept, value)));
                    lemma_updated(before, i as int, value);
                }
            },
            None => {
                let mut at: usize = 0;
                while at < self.entries.len() && is_path_before(
                    self.entries[at].0.as_str(),
                    path.as_str(),
                )
                    invariant
                        at <= self.entries@.len(),
                        self.entries@ == before,
                        entries_before(before, path@, 0) == entries_before(
                            before,
                            path@,
                            at as int,
                        ),
                        forall|j: int|
                            0 <= j < at ==> path_before((#[trigger] before[j]).0@, path@),
                    decreases self.entries.len() - at,
                {
                    at = at + 1;
                }
                self.entries.insert(at, (path, value));
                proof {
                    lemma_inserted(before, at as int, (path, value));
                }
            },
        }
    }

    /// Takes out what stands under `path`.
    pub fn remove(&mut self, path: &str) -> (r: Option<V>)
        requires
            old(self).well_formed(),
        ensures
            final(self).well_formed(),
            final(self).entries@ == without_entry(old(self).entries@, parts(path@)),
            r == old(self).value(parts(path@)),
            final(self).value(parts(path@)) is None,
            forall|key: Seq<Part>|
                key != parts(path@) ==> #[trigger] final(self).value(key) == old(self).value(key),
            r is None ==> final(self).entries@ == old(self).entries@,
            r is Some ==> final(self).entries@.len() + 1 == old(self).entries@.len(),
    {
        let ghost before = self.entries@;
        match self.find(path) {
            Some(i) => {
                let (_, value) = self.entries.remove(i);
                proof {
                    lemma_removed(before, i as int);
                }
                Some(value)
            },
            None => None,
        }
    }

    /// Takes everything out.
    pub fn clear(&mut self)
        ensures
            final(self).well_formed(),
            final(self).entries@.len() == 0,
    {
        self.entries.clear();
    }
}

pub open spec fn in_order<V>(entries: Seq<(String, V)>) -> bool {
    forall|i: int, j: int|
        0 <= i < j < entries.len() ==> path_before(
            (#[trigger] entries[i]).0@,
            (#[trigger] entries[j]).0@,
        )
}

/// The position of a path is the one at which it stands.
pub proof fn lemma_position<V>(entries: Seq<(String, V)>, key: Seq<Part>, from: int, at: int)
    requires
        in_order(entries),
        0 <= from <= at < entries.len(),
        parts(entries[at].0@) == key,
    ensures
        position_of(entries, key, from) == Some(at),
    decreases entries.len() - from,
{
    if from < at {
        assert(path_before(entries[from].0@, entries[at].0@));
        lemma_parts_order(key, key, key);
        lemma_position(entries, key, from + 1, at);
    }
}

/// A path without a position stands nowhere.
pub proof fn lemma_no_position<V>(entries: Seq<(String, V)>, key: Seq<Part>, from: int)
    requires
        0 <= from,
        forall|j: int| from <= j < entries.len() ==> parts((#[trigger] entries[j]).0@) != key,
    ensures
        position_of(entries, key, from) is None,
    decreases entries.len() - from,
{
    if from < entries.len() {
        lemma_no_position(entries, key, from + 1);
    }
}

pub proof fn lemma_found<V>(entries: Seq<(String, V)>, key: Seq<Part>, from: int)
    requires
        0 <= from,
    ensures
        match position_of(entries, key, from) {
            Some(at) => from <= at < entries.len() && parts(entries[at].0@) == key,
            None => forall|j: int|
                from <= j < entries.len() ==> parts((#[trigger] entries[j]).0@) != key,
        },
    decreases entries.len() - from,
{
    if from < entries.len() {
        lemma_found(entries, key, from + 1);
    }
}

proof fn lemma_updated<V>(entries: Seq<(String, V)>, at: int, value: V)
    requires
        in_order(entries),
        0 <= at < entries.len(),
    ensures
        ({
            let now = entries.update(at, (entries[at].0, value));
            let key = parts(entries[at].0@);
            &&& in_order(now)
            &&& position_of(now, key, 0) == Some(at)
            &&& forall|other: Seq<Part>|
                other != key ==> value_in(now, other) == #[trigger] value_in(entries, other)
        }),
{
    let now = entries.update(at, (entries[at].0, value));
    let key = parts(entries[at].0@);
    assert(in_order(now));
    lemma_position(now, key, 0, at);
    assert forall|other: Seq<Part>| other != key implies value_in(now, other)
        == #[trigger] value_in(entries, other) by {
        lemma_found(entries, other, 0);
        match position_of(entries, other, 0) {
            Some(i) => {
                assert(parts(now[i].0@) == other);
                lemma_position(now, other, 0, i);
            },
            None => {
                lemma_no_position(now, other, 0);
            },
        }
    }
}


proof fn lemma_inserted<V>(entries: Seq<(String, V)>, at: int, entry: (String, V))
    requires
        in_order(entries),
        0 <= at <= entries.len(),
        forall|j: int| 0 <= j < at ==> path_before((#[trigger] entries[j]).0@, entry.0@),
        at < entries.len() ==> !path_before(entries[at].0@, entry.0@),
        position_of(entries, parts(entry.0@), 0) is None,
    ensures
        ({
            let now = entries.insert(at, entry);
            let key = parts(entry.0@);
            &&& in_order(now)
            &&& value_in(now, key) == Some(entry.1)
            &&& forall|other: Seq<Part>|
                other != key ==> #[trigger] value_in(now, other) == value_in(entries, other)
        }),
{
    let now = entries.insert(at, entry);
    let key = parts(entry.0@);
    lemma_found(entries, key, 0);
    assert(in_order(now)) by {
        assert forall|i: int, j: int| 0 <= i < j < now.len() implies path_before(
            (#[trigger] now[i]).0@,
            (#[trigger] now[j]).0@,
        ) by {
            if i < at && j > at {
                assert(now[i] == entries[i] && now[j] == entries[j - 1]);
            } else if i < at && j < at {
                assert(now[i] == entries[i] && now[j] == entries[j]);
            } else if i > at {
                assert(now[i] == entries[i - 1] && now[j] == entries[j - 1]);
            } else if i == at {
                assert(now[j] == entries[j - 1]);
                lemma_parts_order(key, parts(entries[at].0@), parts(entries[j - 1].0@));
            } else {
                assert(now[i] == entries[i]);
            }
        }
    }
    lemma_position(now, key, 0, at);
    assert forall|other: Seq<Part>| other != key implies #[trigger] value_in(now, other)
        == value_in(entries, other) by {
        lemma_found(entries, other, 0);
        match position_of(entries, other, 0) {
            Some(i) => {
                let k = if i < at { i } else { i + 1 };
                assert(now[k] == entries[i]);
                lemma_position(now, other, 0, k);
            },
            None => {
                assert forall|j: int| 0 <= j < now.len() implies parts((#[trigger] now[j]).0@)
                    != other by {
                    if j < at {
                        assert(now[j] == entries[j]);
                    } else if j > at {
                        assert(now[j] == entries[j - 1]);
                    }
                }
                lemma_no_position(now, other, 0);
            },
        }
    }
}

proof fn lemma_removed<V>(entries: Seq<(String, V)>, at: int)
    requires
        in_order(entries),
        0 <= at < entries.len(),
    ensures
        ({
            let now = entries.remove(at);
            let key = parts(entries[at].0@);
            &&& in_order(now)
            &&& value_in(now, key) is None
            &&& forall|other: Seq<Part>|
                other != key ==> #[trigger] value_in(now, other) == value_in(entries, other)
        }),
{
    let now = entries.remove(at);
    let key = parts(entries[at].0@);
    assert(in_order(now)) by {
        assert forall|i: int, j: int| 0 <= i < j < now.len() implies path_before(
            (#[trigger] now[i]).0@,
            (#[trigger] now[j]).0@,
        ) by {
            let a = if i < at { i } else { i + 1 };
            let b = if j < at { j } else { j + 1 };
            assert(now[i] == entries[a] && now[j] == entries[b]);
        }
    }
    assert forall|j: int| 0 <= j < now.len() implies parts((#[trigger] now[j]).0@) != key by {
        let b = if j < at { j } else { j + 1 };
        assert(now[j] == entries[b]);
        lemma_parts_order(key, key, key);
        if b < at {
            assert(path_before(entries[b].0@, entries[at].0@));
        } else {
            assert(path_before(entries[at].0@, entries[b].0@));
        }
    }
    lemma_no_position(now, key, 0);
    assert forall|other: Seq<Part>| other != key implies #[trigger] value_in(now, other)
        == value_in(entries, other) by {
        lemma_found(entries, other, 0);
        match position_of(entries, other, 0) {
            Some(i) => {
                let k = if i < at { i } else { i - 1 };
                assert(now[k] == entries[i]);
                lemma_position(now, other, 0, k);
            },
            None => {
                assert forall|j: int| 0 <= j < now.len() implies parts((#[trigger] now[j]).0@)
                    != other by {
                    let b = if j < at { j } else { j + 1 };
                    assert(now[j] == entries[b]);
                }
                lemma_no_position(now, other, 0);
            },
        }
    }
}


// ---------------------------------------------------------------------------------------
// Entries by their views
// ---------------------------------------------------------------------------------------

/// The entries with the texts of their paths, and what `stands_for` makes of their values.
pub open spec fn viewed<V, W>(
    entries: Seq<(String, V)>,
    stands_for: spec_fn(V) -> W,
) -> Seq<(Seq<char>, W)> {
    entries.map_values(|entry: (String, V)| (entry.0@, stands_for(entry.1)))
}

/// The position of a path, from the `i`-th entry on.
pub open spec fn place_of<W>(entries: Seq<(Seq<char>, W)>, key: Seq<Part>, i: int) -> Option<int>
    decreases entries.len() - i,
{
    if i < 0 || i >= entries.len() {
        None
    } else if parts(entries[i].0) == key {
        Some(i)
    } else {
        place_of(entries, key, i + 1)
    }
}

/// How many leading entries come before a path, from the `i`-th on.
pub open spec fn places_before<W>(entries: Seq<(Seq<char>, W)>, path: Seq<char>, i: int) -> int
    decreases entries.len() - i,
{
    if i < 0 || i >= entries.len() || !path_before(entries[i].0, path) {
        i
    } else {
        places_before(entries, path, i + 1)
    }
}

/// The entries with `value` under `path`; a path that is there keeps its spelling.
pub open spec fn placed<W>(entries: Seq<(Seq<char>, W)>, path: Seq<char>, value: W) -> Seq<
    (Seq<char>, W),
> {
    match place_of(entries, parts(path), 0) {
        Some(i) => entries.update(i, (entries[i].0, value)),
        None => entries.insert(places_before(entries, path, 0), (path, value)),
    }
}

/// The entries without what stands under a path.
pub open spec fn taken_out<W>(entries: Seq<(Seq<char>, W)>, path: Seq<char>) -> Seq<
    (Seq<char>, W),
> {
    match place_of(entries, parts(path), 0) {
        Some(i) => entries.remove(i),
        None => entries,
    }
}

pub proof fn lemma_viewed_place<V, W>(
    entries: Seq<(String, V)>,
    stands_for: spec_fn(V) -> W,
    key: Seq<Part>,
    i: int,
)
    ensures
        place_of(viewed(entries, stands_for), key, i) == position_of(entries, key, i),
    decreases entries.len() - i,
{
    let views = viewed(entries, stands_for);
    if 0 <= i < entries.len() {
        assert(views[i].0 == entries[i].0@);
        lemma_viewed_place(entries, stands_for, key, i + 1);
    }
}

proof fn lemma_viewed_before<V, W>(
    entries: Seq<(String, V)>,
    stands_for: spec_fn(V) -> W,
    path: Seq<char>,
    i: int,
)
    requires
        0 <= i <= entries.len(),
    ensures
        places_before(viewed(entries, stands_for), path, i) == entries_before(entries, path, i),
        i <= entries_before(entries, path, i) <= entries.len(),
    decreases entries.len() - i,
{
    let views = viewed(entries, stands_for);
    if i < entries.len() {
        assert(views[i].0 == entries[i].0@);
        if path_before(entries[i].0@, path) {
            lemma_viewed_before(entries, stands_for, path, i + 1);
        }
    }
}

/// Putting a value under a path, seen through the views.
pub proof fn lemma_viewed_with<V, W>(
    entries: Seq<(String, V)>,
    stands_for: spec_fn(V) -> W,
    path: String,
    value: V,
)
    ensures
        viewed(with_entry(entries, path, value), stands_for) == placed(
            viewed(entries, stands_for),
            path@,
            stands_for(value),
        ),
{
    let views = viewed(entries, stands_for);
    lemma_viewed_place(entries, stands_for, parts(path@), 0);
    lemma_viewed_before(entries, stands_for, path@, 0);
    lemma_found(entries, parts(path@), 0);
    assert(viewed(with_entry(entries, path, value), stands_for) =~= placed(
        views,
        path@,
        stands_for(value),
    ));
}

/// Taking out what stands under a path, seen through the views.
pub proof fn lemma_viewed_without<V, W>(
    entries: Seq<(String, V)>,
    stands_for: spec_fn(V) -> W,
    path: Seq<char>,
)
    ensures
        viewed(without_entry(entries, parts(path)), stands_for) == taken_out(
            viewed(entries, stands_for),
            path,
        ),
{
    lemma_viewed_place(entries, stands_for, parts(path), 0);
    lemma_found(entries, parts(path), 0);
    assert(viewed(without_entry(entries, parts(path)), stands_for) =~= taken_out(
        viewed(entries, stands_for),
        path,
    ));
}

} // verus!
