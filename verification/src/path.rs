//! Unix paths as text: their components, their order, and how one path lies below another.
//!
//! Two paths are the same when they have the same components. Repeated separators, trailing
//! separators and `.` components other than a leading one do not count.
use vstd::prelude::*;
use vstd::string::*;

use crate::guard::part_text;
use crate::text::{chars_of, is_before, lemma_text_order, same, text_before, text_of};

verus! {

/// What a component of a path is.
pub enum Part {
    Root,
    Current,
    Parent,
    Normal(Seq<char>),
}

/// A component together with the positions `start..end` that it takes up in the text.
pub struct Located {
    pub part: Part,
    pub start: int,
    pub end: int,
}

/// A component of a path.
#[derive(Debug, PartialEq, Eq)]
pub enum Component {
    Root,
    Current,
    Parent,
    Normal(String),
}

impl View for Component {
    type V = Part;

    open spec fn view(&self) -> Part {
        match self {
            Component::Root => Part::Root,
            Component::Current => Part::Current,
            Component::Parent => Part::Parent,
            Component::Normal(name) => Part::Normal(name@),
        }
    }
}

struct Span {
    component: Component,
    start: usize,
    end: usize,
}

impl Span {
    spec fn model(self) -> Located {
        Located { part: self.component@, start: self.start as int, end: self.end as int }
    }
}

spec fn models(spans: Seq<Span>) -> Seq<Located> {
    spans.map_values(|span: Span| span.model())
}

pub open spec fn component_parts(components: Seq<Component>) -> Seq<Part> {
    components.map_values(|component: Component| component@)
}

/// The position just behind the last separator in `s[..end]`.
pub open spec fn piece_start(s: Seq<char>, end: int) -> int
    decreases end,
{
    if end <= 0 {
        0
    } else if s[end - 1] == '/' {
        end
    } else {
        piece_start(s, end - 1)
    }
}

/// What the piece `s[start..end]` between two separators contributes. An empty piece in front
/// of a leading separator is the root; other empty pieces, and `.` behind the start, are
/// nothing.
pub open spec fn piece_part(s: Seq<char>, start: int, end: int) -> Option<Located> {
    let piece = s.subrange(start, end);
    if piece.len() == 0 {
        if start == 0 && s.len() > 0 {
            Some(Located { part: Part::Root, start: 0, end: 1 })
        } else {
            None
        }
    } else if piece == seq!['.'] {
        if start == 0 {
            Some(Located { part: Part::Current, start, end })
        } else {
            None
        }
    } else if piece == seq!['.', '.'] {
        Some(Located { part: Part::Parent, start, end })
    } else {
        Some(Located { part: Part::Normal(piece), start, end })
    }
}

pub open spec fn with_piece(before: Seq<Located>, s: Seq<char>, start: int, end: int) -> Seq<
    Located,
> {
    match piece_part(s, start, end) {
        Some(located) => before.push(located),
        None => before,
    }
}

/// The components whose pieces a separator in `s[..end]` closes.
pub open spec fn closed_components(s: Seq<char>, end: int) -> Seq<Located>
    decreases end,
{
    if end <= 0 {
        Seq::empty()
    } else if s[end - 1] == '/' {
        with_piece(closed_components(s, end - 1), s, piece_start(s, end - 1), end - 1)
    } else {
        closed_components(s, end - 1)
    }
}

/// The components of the path `s`, each with its place in the text.
pub open spec fn located(s: Seq<char>) -> Seq<Located> {
    let n = s.len() as int;
    with_piece(closed_components(s, n), s, piece_start(s, n), n)
}

/// The components of the path `s`.
pub open spec fn parts(s: Seq<char>) -> Seq<Part> {
    located(s).map_values(|l: Located| l.part)
}

pub open spec fn absolute(s: Seq<char>) -> bool {
    s.len() > 0 && s[0] == '/'
}

/// `path` is `base` or lies below it.
pub open spec fn lies_in(path: Seq<char>, base: Seq<char>) -> bool {
    parts(base).len() <= parts(path).len() && parts(path).take(parts(base).len() as int) == parts(
        base,
    )
}

/// The components of `path` below `base`.
pub open spec fn parts_below(path: Seq<char>, base: Seq<char>) -> Seq<Part> {
    parts(path).skip(parts(base).len() as int)
}

/// The text of `path` below `base`: from its first component there to its last.
pub open spec fn text_below(path: Seq<char>, base: Seq<char>) -> Seq<char> {
    let from = parts(base).len() as int;
    if from < located(path).len() {
        path.subrange(located(path)[from].start, located(path).last().end)
    } else {
        Seq::empty()
    }
}

/// The name of what the path leads to.
pub open spec fn last_name(s: Seq<char>) -> Option<Seq<char>> {
    if parts(s).len() > 0 {
        match parts(s).last() {
            Part::Normal(name) => Some(name),
            _ => None,
        }
    } else {
        None
    }
}

/// `path` lies directly in `dir`.
pub open spec fn is_child_of(path: Seq<char>, dir: Seq<char>) -> bool {
    parts(path).len() > 0 && parts(path).last() != Part::Root && parts(path).drop_last() == parts(
        dir,
    )
}

/// `base` with `rest` behind it; an absolute `rest` stands for itself.
pub open spec fn joined_path(base: Seq<char>, rest: Seq<char>) -> Seq<char> {
    if absolute(rest) {
        rest
    } else if base.len() == 0 || base.last() == '/' {
        base + rest
    } else {
        base.push('/') + rest
    }
}

pub open spec fn part_kind(part: Part) -> int {
    match part {
        Part::Root => 0,
        Part::Current => 1,
        Part::Parent => 2,
        Part::Normal(_) => 3,
    }
}

pub open spec fn part_before(a: Part, b: Part) -> bool {
    match (a, b) {
        (Part::Normal(x), Part::Normal(y)) => text_before(x, y),
        _ => part_kind(a) < part_kind(b),
    }
}

/// The order of paths: by their first component that differs; an ancestor comes first.
pub open spec fn parts_before(a: Seq<Part>, b: Seq<Part>) -> bool
    decreases a.len(),
{
    if b.len() == 0 {
        false
    } else if a.len() == 0 {
        true
    } else if a[0] == b[0] {
        parts_before(a.drop_first(), b.drop_first())
    } else {
        part_before(a[0], b[0])
    }
}

pub open spec fn path_before(a: Seq<char>, b: Seq<char>) -> bool {
    parts_before(parts(a), parts(b))
}

// ---------------------------------------------------------------------------------------
// Functions
// ---------------------------------------------------------------------------------------

fn classify(chars: &Vec<char>, start: usize, end: usize) -> (r: Option<Span>)
    requires
        start <= end <= chars@.len(),
        end == 0 ==> chars@.len() == 0 || chars@[0] == '/',
    ensures
        match r {
            Some(span) => piece_part(chars@, start as int, end as int) == Some(span.model()),
            None => piece_part(chars@, start as int, end as int) is None,
        },
{
    let ghost piece = chars@.subrange(start as int, end as int);
    if start == end {
        if start == 0 && chars.len() > 0 {
            Some(Span { component: Component::Root, start: 0, end: 1 })
        } else {
            None
        }
    } else if end - start == 1 && chars[start] == '.' {
        proof {
            assert(piece =~= seq!['.']);
        }
        if start == 0 {
            Some(Span { component: Component::Current, start, end })
        } else {
            None
        }
    } else if end - start == 2 && chars[start] == '.' && chars[start + 1] == '.' {
        proof {
            assert(piece =~= seq!['.', '.']);
            assert(piece.len() == 2);
        }
        Some(Span { component: Component::Parent, start, end })
    } else {
        proof {
            if piece == seq!['.'] {
                assert(piece[0] == '.');
            }
            if piece == seq!['.', '.'] {
                assert(piece.len() == 2 && piece[0] == '.' && piece[1] == '.');
            }
        }
        let name = text_of(chars, start, end);
        Some(Span { component: Component::Normal(name), start, end })
    }
}

fn locate(path: &str) -> (r: Vec<Span>)
    ensures
        models(r@) == located(path@),
{
    let chars = chars_of(path);
    let mut out: Vec<Span> = Vec::new();
    let mut start: usize = 0;
    let mut i: usize = 0;
    while i < chars.len()
        invariant
            start <= i <= chars@.len(),
            chars@ == path@,
            start == piece_start(path@, i as int),
            models(out@) =~= closed_components(path@, i as int),
        decreases chars.len() - i,
    {
        if chars[i] == '/' {
            let ghost before = out@;
            match classify(&chars, start, i) {
                Some(span) => {
                    let ghost model = span.model();
                    out.push(span);
                    proof {
                        assert(models(out@) =~= models(before).push(model));
                    }
                },
                None => {},
            }
            start = i + 1;
        }
        i = i + 1;
    }
    let ghost before = out@;
    match classify(&chars, start, chars.len()) {
        Some(span) => {
            let ghost model = span.model();
            out.push(span);
            proof {
                assert(models(out@) =~= models(before).push(model));
            }
        },
        None => {},
    }
    out
}

/// The components of `path`.
pub fn components(path: &str) -> (r: Vec<Component>)
    ensures
        component_parts(r@) == parts(path@),
{
    let spans = locate(path);
    let mut out: Vec<Component> = Vec::new();
    let mut rest = spans;
    let ghost all = rest@;
    proof {
        assert(parts(path@).len() == all.len());
    }
    while rest.len() > 0
        invariant
            rest@.len() <= all.len(),
            rest@ == all.take(rest@.len() as int),
            models(all) == located(path@),
            component_parts(out@) =~= parts(path@).skip(rest@.len() as int),
        decreases rest.len(),
    {
        let ghost n = rest@.len() as int;
        match rest.pop() {
            Some(span) => {
                proof {
                    assert(rest@ =~= all.take(n - 1));
                    assert(models(all)[n - 1] == span.model());
                    assert(parts(path@)[n - 1] == span.component@);
                    assert(parts(path@).skip(n - 1) =~= seq![span.component@] + parts(path@).skip(
                        n,
                    ));
                }
                let ghost before = out@;
                let component = span.component;
                out.insert(0, component);
                proof {
                    assert(component_parts(out@) =~= seq![component@] + component_parts(before));
                }
            },
            None => {},
        }
    }
    proof {
        assert(parts(path@).skip(0) =~= parts(path@));
    }
    out
}

pub fn is_absolute(path: &str) -> (r: bool)
    ensures
        r == absolute(path@),
{
    path.unicode_len() > 0 && path.get_char(0) == '/'
}

fn same_component(a: &Component, b: &Component) -> (r: bool)
    ensures
        r == (a@ == b@),
{
    match (a, b) {
        (Component::Root, Component::Root) => true,
        (Component::Current, Component::Current) => true,
        (Component::Parent, Component::Parent) => true,
        (Component::Normal(x), Component::Normal(y)) => same(x.as_str(), y.as_str()),
        _ => false,
    }
}

/// Whether the first components of `a` are those of `b`, all of them.
fn begins_with(a: &Vec<Component>, b: &Vec<Component>) -> (r: bool)
    ensures
        r == (b@.len() <= a@.len() && component_parts(a@).take(b@.len() as int)
            == component_parts(b@)),
{
    if b.len() > a.len() {
        return false;
    }
    let mut i: usize = 0;
    while i < b.len()
        invariant
            i <= b@.len() <= a@.len(),
            forall|j: int| 0 <= j < i ==> component_parts(a@)[j] == component_parts(b@)[j],
        decreases b.len() - i,
    {
        if !same_component(&a[i], &b[i]) {
            proof {
                assert(component_parts(a@).take(b@.len() as int)[i as int] != component_parts(
                    b@,
                )[i as int]);
            }
            return false;
        }
        i = i + 1;
    }
    proof {
        assert(component_parts(a@).take(b@.len() as int) =~= component_parts(b@));
    }
    true
}

/// Whether two paths have the same components.
pub fn same_path(a: &str, b: &str) -> (r: bool)
    ensures
        r == (parts(a@) == parts(b@)),
{
    let left = components(a);
    let right = components(b);
    proof {
        assert(left@.len() == parts(a@).len());
        assert(right@.len() == parts(b@).len());
        if left@.len() == right@.len() {
            assert(parts(a@).take(right@.len() as int) =~= parts(a@));
        }
    }
    left.len() == right.len() && begins_with(&left, &right)
}

/// Whether `path` is `base` or lies below it.
pub fn is_within(path: &str, base: &str) -> (r: bool)
    ensures
        r == lies_in(path@, base@),
{
    let left = components(path);
    let right = components(base);
    proof {
        assert(left@.len() == parts(path@).len());
        assert(right@.len() == parts(base@).len());
    }
    begins_with(&left, &right)
}

/// The components of `path` below `base`.
pub fn components_below(path: &str, base: &str) -> (r: Vec<Component>)
    requires
        lies_in(path@, base@),
    ensures
        component_parts(r@) == parts_below(path@, base@),
{
    let mut all = components(path);
    let skipped: usize = components(base).len();
    proof {
        assert(component_parts(all@).len() == all@.len());
        assert(skipped == parts(base@).len());
    }
    let r = all.split_off(skipped);
    proof {
        assert(component_parts(r@) =~= parts(path@).skip(skipped as int));
    }
    r
}

proof fn lemma_spans_in_order(s: Seq<char>, end: int)
    requires
        0 <= end <= s.len(),
    ensures
        0 <= piece_start(s, end) <= end,
        forall|i: int|
            0 <= i < closed_components(s, end).len() ==> {
                let l = #[trigger] closed_components(s, end)[i];
                0 <= l.start <= l.end <= piece_start(s, end)
            },
        forall|i: int, j: int|
            0 <= i < j < closed_components(s, end).len() ==> (#[trigger] closed_components(
                s,
                end,
            )[i]).end <= (#[trigger] closed_components(s, end)[j]).start,
    decreases end,
{
    if end > 0 {
        lemma_spans_in_order(s, end - 1);
    }
}

/// Each component takes up a stretch of the text, one behind the other.
pub proof fn components_stand_in_order(s: Seq<char>)
    ensures
        forall|i: int|
            0 <= i < located(s).len() ==> 0 <= (#[trigger] located(s)[i]).start <= located(s)[i].end
                <= s.len(),
        forall|i: int, j: int|
            0 <= i < j < located(s).len() ==> (#[trigger] located(s)[i]).end <= (
            #[trigger] located(s)[j]).start,
{
    lemma_spans_in_order(s, s.len() as int);
}

/// The text of `path` below `base`.
pub fn relative_text(path: &str, base: &str) -> (r: Option<String>)
    ensures
        r is Some == lies_in(path@, base@),
        r matches Some(text) ==> text@ == text_below(path@, base@),
{
    if !is_within(path, base) {
        return None;
    }
    let spans = locate(path);
    let from: usize = components(base).len();
    proof {
        assert(from == parts(base@).len());
        assert(spans@.len() == models(spans@).len());
        components_stand_in_order(path@);
    }
    if from < spans.len() {
        let chars = chars_of(path);
        let last: usize = spans.len() - 1;
        proof {
            assert(models(spans@)[from as int] == spans@[from as int].model());
            assert(models(spans@)[last as int] == spans@[last as int].model());
        }
        Some(text_of(&chars, spans[from].start, spans[last].end))
    } else {
        Some(String::new())
    }
}

/// The name of what the path leads to.
pub fn file_name(path: &str) -> (r: Option<String>)
    ensures
        match r {
            Some(name) => last_name(path@) == Some(name@),
            None => last_name(path@) is None,
        },
{
    let all = components(path);
    proof {
        assert(all@.len() == parts(path@).len());
    }
    if all.len() == 0 {
        return None;
    }
    let last: usize = all.len() - 1;
    proof {
        assert(parts(path@).last() == all@[last as int]@);
    }
    match &all[last] {
        Component::Normal(name) => Some(name.clone()),
        _ => None,
    }
}

/// Whether `path` lies directly in `dir`.
pub fn lies_directly_in(path: &str, dir: &str) -> (r: bool)
    ensures
        r == is_child_of(path@, dir@),
{
    let all = components(path);
    let above = components(dir);
    proof {
        assert(all@.len() == parts(path@).len());
        assert(above@.len() == parts(dir@).len());
    }
    if all.len() == 0 || all.len() - 1 != above.len() {
        return false;
    }
    let last: usize = all.len() - 1;
    proof {
        assert(parts(path@).last() == all@[last as int]@);
        assert(parts(path@).drop_last() =~= parts(path@).take(above@.len() as int));
    }
    match &all[last] {
        Component::Root => false,
        _ => begins_with(&all, &above),
    }
}

/// `base` with `rest` behind it.
pub fn join_path(base: &str, rest: &str) -> (r: String)
    ensures
        r@ == joined_path(base@, rest@),
{
    if is_absolute(rest) {
        return rest.to_owned();
    }
    let length: usize = base.unicode_len();
    let mut out = base.to_owned();
    if length > 0 && base.get_char(length - 1) != '/' {
        out.push('/');
    }
    out.append(rest);
    out
}

fn component_before(a: &Component, b: &Component) -> (r: bool)
    ensures
        r == part_before(a@, b@),
{
    match (a, b) {
        (Component::Normal(x), Component::Normal(y)) => is_before(x.as_str(), y.as_str()),
        (Component::Root, Component::Root) => false,
        (Component::Root, _) => true,
        (Component::Current, Component::Root) => false,
        (Component::Current, Component::Current) => false,
        (Component::Current, _) => true,
        (Component::Parent, Component::Normal(_)) => true,
        _ => false,
    }
}

/// Whether `a` comes before `b` in the order of paths.
pub fn is_path_before(a: &str, b: &str) -> (r: bool)
    ensures
        r == path_before(a@, b@),
{
    let left = components(a);
    let right = components(b);
    let ghost x = parts(a@);
    let ghost y = parts(b@);
    let mut i: usize = 0;
    proof {
        assert(left@.len() == x.len());
        assert(right@.len() == y.len());
        assert(x.skip(0) =~= x);
        assert(y.skip(0) =~= y);
    }
    while i < left.len() && i < right.len()
        invariant
            i <= left@.len(),
            i <= right@.len(),
            x == parts(a@),
            y == parts(b@),
            component_parts(left@) == x,
            component_parts(right@) == y,
            left@.len() == x.len(),
            right@.len() == y.len(),
            parts_before(x, y) == parts_before(x.skip(i as int), y.skip(i as int)),
        decreases left.len() - i,
    {
        proof {
            assert(x.skip(i as int).drop_first() =~= x.skip(i + 1));
            assert(y.skip(i as int).drop_first() =~= y.skip(i + 1));
            assert(x[i as int] == left@[i as int]@);
            assert(y[i as int] == right@[i as int]@);
        }
        if !same_component(&left[i], &right[i]) {
            return component_before(&left[i], &right[i]);
        }
        i = i + 1;
    }
    i < right.len()
}

proof fn lemma_part_order(a: Part, b: Part, c: Part)
    ensures
        !part_before(a, a),
        part_before(a, b) && part_before(b, c) ==> part_before(a, c),
        a == b || part_before(a, b) || part_before(b, a),
        !(part_before(a, b) && part_before(b, a)),
{
    match (a, b, c) {
        (Part::Normal(x), Part::Normal(y), Part::Normal(z)) => {
            lemma_text_order(x, y, z);
        },
        (Part::Normal(x), Part::Normal(y), _) => {
            lemma_text_order(x, y, y);
        },
        (Part::Normal(x), _, _) => {
            lemma_text_order(x, x, x);
        },
        _ => {},
    }
}

pub proof fn lemma_parts_order(a: Seq<Part>, b: Seq<Part>, c: Seq<Part>)
    ensures
        !parts_before(a, a),
        parts_before(a, b) && parts_before(b, c) ==> parts_before(a, c),
        a == b || parts_before(a, b) || parts_before(b, a),
        !(parts_before(a, b) && parts_before(b, a)),
    decreases a.len(),
{
    if a.len() > 0 {
        lemma_parts_order(a.drop_first(), a.drop_first(), Seq::empty());
        lemma_part_order(a[0], a[0], a[0]);
    }
    if a.len() > 0 && b.len() > 0 {
        let first_c = if c.len() > 0 { c[0] } else { b[0] };
        let rest_c = if c.len() > 0 { c.drop_first() } else { c };
        lemma_part_order(a[0], b[0], first_c);
        lemma_parts_order(a.drop_first(), b.drop_first(), rest_c);
        if a[0] == b[0] && a.drop_first() == b.drop_first() {
            assert(a =~= seq![a[0]] + a.drop_first());
            assert(b =~= seq![b[0]] + b.drop_first());
        }
    } else if a.len() == 0 && b.len() == 0 {
        assert(a =~= b);
    }
}

// ---------------------------------------------------------------------------------------
// Joining
// ---------------------------------------------------------------------------------------

/// A relative path that starts with a name and stands for itself: nothing in front of its first
/// component or behind its last.
pub open spec fn plain(s: Seq<char>) -> bool {
    &&& s.len() > 0
    &&& s[0] != '/'
    &&& !(s[0] == '.' && (s.len() == 1 || s[1] == '/'))
    &&& located(s).len() > 0
    &&& located(s)[0].start == 0
    &&& located(s).last().end == s.len()
}

pub open spec fn shifted(all: Seq<Located>, by: int) -> Seq<Located> {
    all.map_values(|l: Located| Located { part: l.part, start: l.start + by, end: l.end + by })
}

/// Where `rest` starts in `joined_path(base, rest)`.
pub open spec fn join_offset(base: Seq<char>) -> int {
    if base.len() == 0 || base.last() == '/' {
        base.len() as int
    } else {
        (base.len() + 1) as int
    }
}

proof fn lemma_same_front(s: Seq<char>, a: Seq<char>, end: int)
    requires
        0 < a.len() <= s.len(),
        s.take(a.len() as int) == a,
        0 <= end <= a.len(),
    ensures
        piece_start(s, end) == piece_start(a, end),
        closed_components(s, end) == closed_components(a, end),
        0 <= piece_start(a, end) <= end,
    decreases end,
{
    if end > 0 {
        lemma_same_front(s, a, end - 1);
        assert(a[end - 1] == s[end - 1]);
        let start = piece_start(a, end - 1);
        assert(s.subrange(start, end - 1) =~= a.subrange(start, end - 1));
    }
}

proof fn lemma_shifted_back(s: Seq<char>, base: Seq<Located>, b: Seq<char>, m: int, k: int)
    requires
        0 < m,
        s.len() == m + b.len(),
        s.skip(m) == b,
        b.len() > 0,
        b[0] != '/',
        !(b[0] == '.' && (b.len() == 1 || b[1] == '/')),
        closed_components(s, m) == base,
        piece_start(s, m) == m,
        0 <= k <= b.len(),
    ensures
        piece_start(s, m + k) == m + piece_start(b, k),
        closed_components(s, m + k) == base + shifted(closed_components(b, k), m),
        0 <= piece_start(b, k) <= k,
    decreases k,
{
    if k > 0 {
        lemma_shifted_back(s, base, b, m, k - 1);
        assert(b[k - 1] == s[m + k - 1]);
        if b[k - 1] == '/' {
            let start = piece_start(b, k - 1);
            lemma_piece_shifted(s, b, m, start, k - 1);
            lemma_piece_start_bare(b, k - 1);
            let before = closed_components(b, k - 1);
            match piece_part(b, start, k - 1) {
                Some(l) => {
                    assert(shifted(before.push(l), m) =~= shifted(before, m).push(
                        Located { part: l.part, start: l.start + m, end: l.end + m },
                    ));
                    assert(base + shifted(before.push(l), m) =~= (base + shifted(before, m)).push(
                        Located { part: l.part, start: l.start + m, end: l.end + m },
                    ));
                },
                None => {},
            }
        }
    } else {
        assert(base + shifted(closed_components(b, 0), m) =~= base);
    }
}

/// There is no separator behind the start of a piece.
proof fn lemma_piece_start_bare(s: Seq<char>, end: int)
    requires
        0 <= end <= s.len(),
    ensures
        0 <= piece_start(s, end) <= end,
        forall|i: int| piece_start(s, end) <= i < end ==> s[i] != '/',
    decreases end,
{
    if end > 0 {
        lemma_piece_start_bare(s, end - 1);
    }
}

proof fn lemma_piece_shifted(s: Seq<char>, b: Seq<char>, m: int, start: int, end: int)
    requires
        0 < m,
        s.len() == m + b.len(),
        s.skip(m) == b,
        b.len() > 0,
        b[0] != '/',
        !(b[0] == '.' && (b.len() == 1 || b[1] == '/')),
        0 <= start <= end <= b.len(),
        end < b.len() ==> b[end] == '/',
    ensures
        match piece_part(b, start, end) {
            Some(l) => piece_part(s, m + start, m + end) == Some(
                Located { part: l.part, start: l.start + m, end: l.end + m },
            ),
            None => piece_part(s, m + start, m + end) is None,
        },
{
    let piece = b.subrange(start, end);
    assert(s.subrange(m + start, m + end) =~= piece) by {
        assert forall|i: int| 0 <= i < piece.len() implies s.subrange(m + start, m + end)[i]
            == piece[i] by {
            assert(s.skip(m)[start + i] == s[m + start + i]);
        }
    }
    if start == 0 {
        if piece.len() == 0 {
            assert(end == 0);
        }
        if piece == seq!['.'] {
            assert(piece[0] == b[0]);
            assert(end == 1);
        }
    }
}

/// Joining a plain path to a base puts its components behind those of the base.
pub proof fn joining_appends(base: Seq<char>, rest: Seq<char>)
    requires
        base.len() > 0,
        plain(rest),
    ensures
        located(joined_path(base, rest)) == located(base) + shifted(
            located(rest),
            join_offset(base),
        ),
        parts(joined_path(base, rest)) == parts(base) + parts(rest),
        lies_in(joined_path(base, rest), base),
        parts_below(joined_path(base, rest), base) == parts(rest),
        text_below(joined_path(base, rest), base) == rest,
{
    let s = joined_path(base, rest);
    let m = join_offset(base);
    let n = base.len() as int;
    assert(s.len() == m + rest.len());
    assert(s.take(n) =~= base);
    assert(s.skip(m) =~= rest);
    lemma_same_front(s, base, n);
    if base.last() == '/' {
        assert(piece_start(base, n) == n);
        assert(base.subrange(n, n).len() == 0);
        assert(piece_part(base, n, n) is None);
    } else {
        assert(s[n] == '/');
        let start = piece_start(base, n);
        assert(s.subrange(start, n) =~= base.subrange(start, n));
        assert(piece_start(s, m) == m);
    }
    assert(closed_components(s, m) == located(base));
    let k = rest.len() as int;
    lemma_shifted_back(s, located(base), rest, m, k);
    let start = piece_start(rest, k);
    lemma_piece_shifted(s, rest, m, start, k);
    let before = closed_components(rest, k);
    match piece_part(rest, start, k) {
        Some(l) => {
            let moved = Located { part: l.part, start: l.start + m, end: l.end + m };
            assert(located(base) + shifted(before.push(l), m) =~= (located(base) + shifted(
                before,
                m,
            )).push(moved));
        },
        None => {},
    }
    assert(located(s) == located(base) + shifted(located(rest), m));
    assert(parts(s) =~= parts(base) + parts(rest));
    assert(parts(s).take(parts(base).len() as int) =~= parts(base));
    assert(parts(s).skip(parts(base).len() as int) =~= parts(rest));
    let from = parts(base).len() as int;
    assert(located(s)[from] == shifted(located(rest), m)[0]);
    assert(located(s).last() == shifted(located(rest), m).last());
    assert(s.subrange(m, s.len() as int) =~= rest);
}

/// Components without a `.` in front.
pub open spec fn without_lead(all: Seq<Part>) -> Seq<Part> {
    if all.len() > 0 && all[0] == Part::Current {
        all.skip(1)
    } else {
        all
    }
}

spec fn parts_of(all: Seq<Located>) -> Seq<Part> {
    all.map_values(|l: Located| l.part)
}

/// A piece of a relative path stands for the same component behind a base, but for a `.` at its
/// start, which is nothing there.
proof fn lemma_piece_behind(s: Seq<char>, b: Seq<char>, m: int, end: int)
    requires
        0 < m,
        s.len() == m + b.len(),
        s.skip(m) == b,
        !absolute(b),
        0 <= end <= b.len(),
        end < b.len() ==> b[end] == '/',
    ensures
        ({
            let start = piece_start(b, end);
            let before = closed_components(b, end);
            let there = with_piece(before, b, start, end);
            without_lead(parts_of(there)) == match piece_part(s, m + start, m + end) {
                Some(l) => without_lead(parts_of(before)).push(l.part),
                None => without_lead(parts_of(before)),
            }
        }),
{
    let start = piece_start(b, end);
    lemma_piece_start_bare(b, end);
    let before = closed_components(b, end);
    let piece = b.subrange(start, end);
    assert(s.subrange(m + start, m + end) =~= piece) by {
        assert forall|i: int| 0 <= i < piece.len() implies s.subrange(m + start, m + end)[i]
            == piece[i] by {
            assert(s.skip(m)[start + i] == s[m + start + i]);
        }
    }
    if start == 0 {
        lemma_no_separator(b, end);
        assert(parts_of(before) =~= Seq::empty());
    }
    match piece_part(b, start, end) {
        Some(l) => {
            assert(parts_of(before.push(l)) =~= parts_of(before).push(l.part));
            assert(parts_of(before).push(l.part).skip(1) =~= if before.len() > 0 {
                parts_of(before).skip(1).push(l.part)
            } else {
                Seq::empty()
            });
        },
        None => {},
    }
}

proof fn lemma_behind(s: Seq<char>, base: Seq<Located>, b: Seq<char>, m: int, k: int)
    requires
        0 < m,
        s.len() == m + b.len(),
        s.skip(m) == b,
        !absolute(b),
        closed_components(s, m) == base,
        piece_start(s, m) == m,
        0 <= k <= b.len(),
    ensures
        piece_start(s, m + k) == m + piece_start(b, k),
        parts_of(closed_components(s, m + k)) == parts_of(base) + without_lead(
            parts_of(closed_components(b, k)),
        ),
    decreases k,
{
    if k > 0 {
        lemma_behind(s, base, b, m, k - 1);
        assert(b[k - 1] == s[m + k - 1]);
        if b[k - 1] == '/' {
            let start = piece_start(b, k - 1);
            let ahead = closed_components(s, m + k - 1);
            lemma_piece_behind(s, b, m, k - 1);
            match piece_part(s, m + start, m + k - 1) {
                Some(l) => {
                    assert(parts_of(ahead.push(l)) =~= parts_of(ahead).push(l.part));
                    assert(parts_of(closed_components(s, m + k)) =~= parts_of(base) + without_lead(
                        parts_of(closed_components(b, k)),
                    ));
                },
                None => {},
            }
        }
    } else {
        assert(parts_of(closed_components(b, 0)) =~= Seq::empty());
        assert(parts_of(base) + Seq::<Part>::empty() =~= parts_of(base));
    }
}

/// Joining any relative path to a base puts its components behind those of the base, but for a
/// leading `.`.
pub proof fn joining_relative(base: Seq<char>, rest: Seq<char>)
    requires
        base.len() > 0,
        !absolute(rest),
    ensures
        parts(joined_path(base, rest)) == parts(base) + without_lead(parts(rest)),
        lies_in(joined_path(base, rest), base),
        parts_below(joined_path(base, rest), base) == without_lead(parts(rest)),
{
    let s = joined_path(base, rest);
    let m = join_offset(base);
    let n = base.len() as int;
    assert(s.len() == m + rest.len());
    assert(s.take(n) =~= base);
    assert(s.skip(m) =~= rest);
    lemma_same_front(s, base, n);
    if base.last() == '/' {
        assert(piece_start(base, n) == n);
        assert(base.subrange(n, n).len() == 0);
        assert(piece_part(base, n, n) is None);
    } else {
        assert(s[n] == '/');
        let start = piece_start(base, n);
        assert(s.subrange(start, n) =~= base.subrange(start, n));
        assert(piece_start(s, m) == m);
    }
    assert(closed_components(s, m) == located(base));
    let k = rest.len() as int;
    lemma_behind(s, located(base), rest, m, k);
    lemma_piece_behind(s, rest, m, k);
    let ahead = closed_components(s, m + k);
    match piece_part(s, m + piece_start(rest, k), m + k) {
        Some(l) => {
            assert(parts_of(ahead.push(l)) =~= parts_of(ahead).push(l.part));
        },
        None => {},
    }
    assert(parts(s) =~= parts(base) + without_lead(parts(rest)));
    assert(parts(s).take(parts(base).len() as int) =~= parts(base));
    assert(parts(s).skip(parts(base).len() as int) =~= without_lead(parts(rest)));
}

/// A name that can be a component.
pub open spec fn simple_name(name: Seq<char>) -> bool {
    &&& name.len() > 0
    &&& !name.contains('/')
    &&& name != seq!['.']
    &&& name != seq!['.', '.']
}

/// A name on its own is a plain path of one component.
pub proof fn name_is_plain(name: Seq<char>)
    requires
        simple_name(name),
    ensures
        plain(name),
        parts(name) == seq![Part::Normal(name)],
{
    let n = name.len() as int;
    assert forall|i: int| 0 <= i < n implies name[i] != '/' by {
        assert(name.contains(name[i]));
    }
    lemma_no_separator(name, n);
    assert(name.subrange(0, n) =~= name);
    if name[0] == '.' && name.len() == 1 {
        assert(name =~= seq!['.']);
    }
    assert(located(name) =~= seq![Located { part: Part::Normal(name), start: 0, end: n }]);
    assert(parts(name) =~= seq![Part::Normal(name)]);
}

proof fn lemma_no_separator(s: Seq<char>, end: int)
    requires
        0 <= end <= s.len(),
        forall|i: int| 0 <= i < end ==> s[i] != '/',
    ensures
        piece_start(s, end) == 0,
        closed_components(s, end) == Seq::<Located>::empty(),
    decreases end,
{
    if end > 0 {
        lemma_no_separator(s, end - 1);
    }
}

/// A name joined to a plain path is a plain path again.
pub proof fn name_extends_plain(name: Seq<char>, rest: Seq<char>)
    requires
        simple_name(name),
        plain(rest),
    ensures
        plain(joined_path(name, rest)),
        parts(joined_path(name, rest)) == seq![Part::Normal(name)] + parts(rest),
{
    name_is_plain(name);
    joining_appends(name, rest);
    let s = joined_path(name, rest);
    let all = located(name) + shifted(located(rest), join_offset(name));
    assert(name.contains(name[0]));
    assert(name.contains(name.last()));
    assert(s[0] == name[0]);
    if name.len() > 1 {
        assert(s[1] == name[1]);
        assert(name.contains(name[1]));
    } else {
        if name[0] == '.' {
            assert(name =~= seq!['.']);
        }
    }
    assert(located(name).len() == parts(name).len());
    assert(all[0] == located(name)[0]);
    assert(all.last() == shifted(located(rest), join_offset(name)).last());
}

proof fn lemma_root_first(s: Seq<char>, end: int)
    requires
        absolute(s),
        1 <= end <= s.len(),
    ensures
        closed_components(s, end).len() > 0,
        closed_components(s, end)[0].part == Part::Root,
    decreases end,
{
    if end == 1 {
        reveal_with_fuel(closed_components, 2);
        assert(s.subrange(0, 0).len() == 0);
    } else {
        lemma_root_first(s, end - 1);
    }
}

/// An absolute path starts at the root.
pub proof fn absolute_starts_at_root(s: Seq<char>)
    requires
        absolute(s),
    ensures
        parts(s).len() > 0,
        parts(s)[0] == Part::Root,
{
    lemma_root_first(s, s.len() as int);
}

/// A component that may stand behind another: a name, or a step up.
pub open spec fn later_part(part: Part) -> bool {
    match part {
        Part::Normal(name) => simple_name(name),
        Part::Parent => true,
        _ => false,
    }
}

proof fn lemma_piece_is_part(s: Seq<char>, end: int)
    requires
        0 <= end <= s.len(),
    ensures
        ({
            let start = piece_start(s, end);
            match piece_part(s, start, end) {
                Some(l) => later_part(l.part) || (closed_components(s, end).len() == 0 && (l.part
                    is Root || l.part is Current)),
                None => true,
            }
        }),
{
    let start = piece_start(s, end);
    lemma_piece_start_bare(s, end);
    let piece = s.subrange(start, end);
    if start == 0 {
        lemma_no_separator(s, end);
    }
    assert(!piece.contains('/')) by {
        if piece.contains('/') {
            let i = choose|i: int| 0 <= i < piece.len() && piece[i] == '/';
            assert(s[start + i] != '/');
        }
    }
}

proof fn lemma_closed_are_parts(s: Seq<char>, end: int)
    requires
        0 <= end <= s.len(),
    ensures
        forall|i: int|
            0 < i < closed_components(s, end).len() ==> later_part(
                (#[trigger] closed_components(s, end)[i]).part,
            ),
        closed_components(s, end).len() > 0 ==> later_part(closed_components(s, end)[0].part)
            || closed_components(s, end)[0].part is Root || closed_components(s, end)[0].part
            is Current,
    decreases end,
{
    if end > 0 {
        lemma_closed_are_parts(s, end - 1);
        if s[end - 1] == '/' {
            lemma_piece_is_part(s, end - 1);
        }
    }
}

/// Every component behind the first is a name or a step up; the first may be the root or the
/// directory itself as well. A name is not empty, has no separator and is no step.
pub proof fn components_are_names(s: Seq<char>)
    ensures
        forall|i: int| 0 < i < parts(s).len() ==> later_part(#[trigger] parts(s)[i]),
        parts(s).len() > 0 ==> later_part(parts(s)[0]) || parts(s)[0] is Root || parts(s)[0]
            is Current,
        s.len() > 0 ==> parts(s).len() > 0,
{
    let n = s.len() as int;
    lemma_closed_are_parts(s, n);
    lemma_piece_is_part(s, n);
    assert forall|i: int| 0 < i < parts(s).len() implies later_part(#[trigger] parts(s)[i]) by {
        assert(parts(s)[i] == located(s)[i].part);
    }
    if parts(s).len() > 0 {
        assert(parts(s)[0] == located(s)[0].part);
    }
    if n > 0 {
        lemma_some_part(s, n);
    }
}

proof fn lemma_some_part(s: Seq<char>, end: int)
    requires
        0 < end <= s.len(),
    ensures
        closed_components(s, end).len() > 0 || piece_part(s, piece_start(s, end), end) is Some,
        s[end - 1] == '/' ==> closed_components(s, end).len() > 0,
    decreases end,
{
    lemma_piece_start_bare(s, end);
    if s[end - 1] == '/' {
        lemma_piece_start_bare(s, end - 1);
        if end > 1 {
            lemma_some_part(s, end - 1);
        }
    } else {
        let start = piece_start(s, end);
        lemma_piece_start_bare(s, end - 1);
        assert(s.subrange(start, end).len() > 0);
        if start > 0 {
            lemma_piece_start_mark(s, end);
            lemma_same_closed(s, start, end);
            lemma_some_part(s, start);
        }
    }
}

proof fn lemma_piece_start_mark(s: Seq<char>, end: int)
    requires
        0 <= end <= s.len(),
        piece_start(s, end) > 0,
    ensures
        s[piece_start(s, end) - 1] == '/',
    decreases end,
{
    if end > 0 && s[end - 1] != '/' {
        lemma_piece_start_mark(s, end - 1);
    }
}

proof fn lemma_same_closed(s: Seq<char>, start: int, end: int)
    requires
        0 <= start <= end <= s.len(),
        forall|i: int| start <= i < end ==> s[i] != '/',
    ensures
        closed_components(s, end) == closed_components(s, start),
    decreases end - start,
{
    if start < end {
        lemma_same_closed(s, start, end - 1);
    }
}

/// A step below a path is one more component, whether it is a name or a step up.
pub proof fn one_more_component(base: Seq<char>, part: Part)
    requires
        base.len() > 0,
        later_part(part),
    ensures
        parts(joined_path(base, part_text(part))) == parts(base).push(part),
{
    let text = part_text(part);
    match part {
        Part::Normal(name) => {
            name_is_plain(name);
            joining_appends(base, name);
        },
        _ => {
            reveal_strlit("..");
            assert(text =~= seq!['.', '.']);
            lemma_no_separator(text, 2);
            assert(text.subrange(0, 2) =~= text);
            assert(text.len() != seq!['.'].len());
            assert(located(text) =~= seq![Located { part: Part::Parent, start: 0, end: 2 }]);
            assert(parts(text) =~= seq![Part::Parent]);
            joining_relative(base, text);
        },
    }
    assert(parts(base) + seq![part] =~= parts(base).push(part));
}

} // verus!
