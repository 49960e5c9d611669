//! Text as sequences of characters: the searching, splitting and comparing that the rest of
//! the library does on names, paths and command output.
use vstd::prelude::*;
use vstd::string::*;

verus! {

/// `String::push` appends one character.
pub assume_specification[ String::push ](text: &mut String, c: char)
    ensures
        final(text)@ == old(text)@.push(c),
;

// ---------------------------------------------------------------------------------------
// Models
// ---------------------------------------------------------------------------------------

/// The characters with the Unicode property White_Space.
pub open spec fn is_white(c: char) -> bool {
    ||| '\u{9}' <= c && c <= '\u{d}'
    ||| c == '\u{20}'
    ||| c == '\u{85}'
    ||| c == '\u{a0}'
    ||| c == '\u{1680}'
    ||| '\u{2000}' <= c && c <= '\u{200a}'
    ||| c == '\u{2028}'
    ||| c == '\u{2029}'
    ||| c == '\u{202f}'
    ||| c == '\u{205f}'
    ||| c == '\u{3000}'
}

pub open spec fn is_digit(c: char) -> bool {
    '0' <= c && c <= '9'
}

pub open spec fn is_ascii_letter(c: char) -> bool {
    ('a' <= c && c <= 'z') || ('A' <= c && c <= 'Z')
}

pub open spec fn is_ascii_alphanumeric(c: char) -> bool {
    is_digit(c) || is_ascii_letter(c)
}

/// The views of a list of strings.
pub open spec fn texts(list: Seq<String>) -> Seq<Seq<char>> {
    list.map_values(|s: String| s@)
}

/// The views of a list of string slices.
pub open spec fn str_texts(list: Seq<&str>) -> Seq<Seq<char>> {
    list.map_values(|s: &str| s@)
}

/// What `keep` makes of the members of `list`, without those that it drops.
pub open spec fn kept<A, B>(list: Seq<A>, keep: spec_fn(A) -> Option<B>) -> Seq<B>
    decreases list.len(),
{
    if list.len() == 0 {
        Seq::empty()
    } else {
        match keep(list.last()) {
            Some(value) => kept(list.drop_last(), keep).push(value),
            None => kept(list.drop_last(), keep),
        }
    }
}

pub open spec fn has_prefix(s: Seq<char>, prefix: Seq<char>) -> bool {
    prefix.len() <= s.len() && s.take(prefix.len() as int) == prefix
}

/// `needle` stands in `s` at position `at`.
pub open spec fn occurs_at(s: Seq<char>, needle: Seq<char>, at: int) -> bool {
    0 <= at && at + needle.len() <= s.len() && s.subrange(at, at + needle.len()) == needle
}

pub open spec fn has_infix(s: Seq<char>, needle: Seq<char>) -> bool {
    exists|at: int| occurs_at(s, needle, at)
}

/// `s` without the leading characters that `drop` accepts.
pub open spec fn trim_left(s: Seq<char>, drop: spec_fn(char) -> bool) -> Seq<char>
    decreases s.len(),
{
    if s.len() > 0 && drop(s[0]) {
        trim_left(s.drop_first(), drop)
    } else {
        s
    }
}

/// `s` without the trailing characters that `drop` accepts.
pub open spec fn trim_right(s: Seq<char>, drop: spec_fn(char) -> bool) -> Seq<char>
    decreases s.len(),
{
    if s.len() > 0 && drop(s.last()) {
        trim_right(s.drop_last(), drop)
    } else {
        s
    }
}

/// The kinds of characters at which text is cut.
#[derive(Clone, Copy)]
pub enum Mark {
    White,
    Char(char),
}

impl Mark {
    pub open spec fn accepts(self) -> spec_fn(char) -> bool {
        match self {
            Mark::White => |c: char| is_white(c),
            Mark::Char(mark) => |c: char| c == mark,
        }
    }

    pub fn is(&self, c: char) -> (r: bool)
        ensures
            r == (self.accepts())(c),
    {
        match self {
            Mark::White => is_whitespace(c),
            Mark::Char(mark) => c == *mark,
        }
    }
}

/// `s` without surrounding white space.
pub open spec fn trimmed(s: Seq<char>) -> Seq<char> {
    trim_right(trim_left(s, Mark::White.accepts()), Mark::White.accepts())
}

/// `s` without surrounding occurrences of `mark`.
pub open spec fn stripped_of(s: Seq<char>, mark: char) -> Seq<char> {
    trim_right(trim_left(s, Mark::Char(mark).accepts()), Mark::Char(mark).accepts())
}

/// The pieces of `s` between the characters that `at` accepts: always one piece more than
/// there are such characters.
pub open spec fn pieces(s: Seq<char>, at: spec_fn(char) -> bool) -> Seq<Seq<char>>
    decreases s.len(),
{
    if s.len() == 0 {
        seq![Seq::<char>::empty()]
    } else {
        let before = pieces(s.drop_last(), at);
        if at(s.last()) {
            before.push(Seq::<char>::empty())
        } else {
            before.drop_last().push(before.last().push(s.last()))
        }
    }
}

/// The pieces of `s` between the occurrences of `mark`.
pub open spec fn split(s: Seq<char>, mark: char) -> Seq<Seq<char>> {
    pieces(s, Mark::Char(mark).accepts())
}

/// The maximal runs of characters that are not white space.
pub open spec fn words(s: Seq<char>) -> Seq<Seq<char>> {
    pieces(s, Mark::White.accepts()).filter(|piece: Seq<char>| piece.len() > 0)
}

/// A line without the carriage return in front of its line feed.
pub open spec fn without_return(line: Seq<char>) -> Seq<char> {
    if line.len() > 0 && line.last() == '\r' {
        line.drop_last()
    } else {
        line
    }
}

/// The lines of `s`. A line ends in a line feed, with or without a carriage return in front
/// of it; the ending of the last line is optional.
pub open spec fn lines(s: Seq<char>) -> Seq<Seq<char>> {
    let parts = split(s, '\n');
    let ended = parts.drop_last().map_values(|line: Seq<char>| without_return(line));
    if parts.last().len() == 0 {
        ended
    } else {
        ended.push(parts.last())
    }
}

/// The first position of `mark` in `s` at or after `from`; the length of `s` if there is none.
pub open spec fn position(s: Seq<char>, mark: char, from: int) -> int
    decreases s.len() - from,
{
    if from < 0 || from >= s.len() {
        s.len() as int
    } else if s[from] == mark {
        from
    } else {
        position(s, mark, from + 1)
    }
}

/// What stands before and after the first `mark`.
pub open spec fn split_first(s: Seq<char>, mark: char) -> Option<(Seq<char>, Seq<char>)> {
    let at = position(s, mark, 0);
    if at < s.len() {
        Some((s.take(at), s.skip(at + 1)))
    } else {
        None
    }
}

pub open spec fn ascii_lower(c: char) -> char {
    if 'A' <= c && c <= 'Z' {
        ((c as u32 + 32) as u8) as char
    } else {
        c
    }
}

/// `s` with its ASCII letters in lower case.
pub open spec fn lower(s: Seq<char>) -> Seq<char> {
    s.map_values(|c: char| ascii_lower(c))
}

pub open spec fn ascii_upper(c: char) -> char {
    if 'a' <= c && c <= 'z' {
        ((c as u32 - 32) as u8) as char
    } else {
        c
    }
}

/// `s` with its ASCII letters in upper case.
pub open spec fn upper(s: Seq<char>) -> Seq<char> {
    s.map_values(|c: char| ascii_upper(c))
}

/// `s` with every `from` written as `to`.
pub open spec fn replaced(s: Seq<char>, from: char, to: char) -> Seq<char> {
    s.map_values(|c: char| if c == from { to } else { c })
}

/// The list written out with `separator` between its members.
pub open spec fn joined(list: Seq<Seq<char>>, separator: Seq<char>) -> Seq<char>
    decreases list.len(),
{
    if list.len() == 0 {
        Seq::empty()
    } else if list.len() == 1 {
        list[0]
    } else {
        joined(list.drop_last(), separator) + separator + list.last()
    }
}

/// The order of two texts by their first difference; a proper prefix comes first.
pub open spec fn text_before(a: Seq<char>, b: Seq<char>) -> bool
    decreases a.len(),
{
    if b.len() == 0 {
        false
    } else if a.len() == 0 {
        true
    } else if a[0] == b[0] {
        text_before(a.drop_first(), b.drop_first())
    } else {
        a[0] < b[0]
    }
}

/// `s` followed by spaces up to `width` characters.
pub open spec fn padded_right(s: Seq<char>, width: int) -> Seq<char> {
    if s.len() >= width {
        s
    } else {
        s + Seq::new((width - s.len()) as nat, |i: int| ' ')
    }
}

/// `s` behind spaces up to `width` characters.
pub open spec fn padded_left(s: Seq<char>, width: int) -> Seq<char> {
    if s.len() >= width {
        s
    } else {
        Seq::new((width - s.len()) as nat, |i: int| ' ') + s
    }
}

// ---------------------------------------------------------------------------------------
// Functions
// ---------------------------------------------------------------------------------------

pub fn is_whitespace(c: char) -> (r: bool)
    ensures
        r == is_white(c),
{
    ('\u{9}' <= c && c <= '\u{d}') || c == '\u{20}' || c == '\u{85}' || c == '\u{a0}'
        || c == '\u{1680}' || ('\u{2000}' <= c && c <= '\u{200a}') || c == '\u{2028}'
        || c == '\u{2029}' || c == '\u{202f}' || c == '\u{205f}' || c == '\u{3000}'
}

/// The characters of `s`.
pub fn chars_of(s: &str) -> (r: Vec<char>)
    ensures
        r@ == s@,
{
    let mut out: Vec<char> = Vec::new();
    for c in it: s.chars()
        invariant
            it.seq() == s@,
            out@ == s@.take(it.index()),
    {
        out.push(c);
    }
    proof {
        assert(s@.take(s@.len() as int) =~= s@);
    }
    out
}

/// The text made of `chars[from..to]`.
pub fn text_of(chars: &Vec<char>, from: usize, to: usize) -> (r: String)
    requires
        from <= to <= chars@.len(),
    ensures
        r@ == chars@.subrange(from as int, to as int),
{
    let mut out = String::new();
    let mut i: usize = from;
    while i < to
        invariant
            from <= i <= to <= chars@.len(),
            out@ =~= chars@.subrange(from as int, i as int),
        decreases to - i,
    {
        out.push(chars[i]);
        i = i + 1;
    }
    out
}

/// Whether the two texts are the same.
pub fn same(a: &str, b: &str) -> (r: bool)
    ensures
        r == (a@ == b@),
{
    a.to_owned() == b.to_owned()
}

pub fn is_in(list: &Vec<String>, wanted: &str) -> (r: bool)
    ensures
        r == texts(list@).contains(wanted@),
{
    let mut i: usize = 0;
    while i < list.len()
        invariant
            i <= list@.len(),
            forall|j: int| 0 <= j < i ==> texts(list@)[j] != wanted@,
        decreases list.len() - i,
    {
        if same(list[i].as_str(), wanted) {
            proof {
                assert(texts(list@)[i as int] == wanted@);
            }
            return true;
        }
        i = i + 1;
    }
    false
}

/// Whether `wanted` is one of `list`.
pub fn is_one_of(list: &[&str], wanted: &str) -> (r: bool)
    ensures
        r == str_texts(list@).contains(wanted@),
{
    let mut i: usize = 0;
    while i < list.len()
        invariant
            i <= list@.len(),
            forall|j: int| 0 <= j < i ==> str_texts(list@)[j] != wanted@,
        decreases list.len() - i,
    {
        if same(list[i], wanted) {
            proof {
                assert(str_texts(list@)[i as int] == wanted@);
            }
            return true;
        }
        i = i + 1;
    }
    false
}

/// A copy of a list of strings.
pub fn copy_texts(list: &Vec<String>) -> (r: Vec<String>)
    ensures
        texts(r@) == texts(list@),
{
    let mut out: Vec<String> = Vec::new();
    let mut i: usize = 0;
    while i < list.len()
        invariant
            i <= list@.len(),
            texts(out@) =~= texts(list@).take(i as int),
        decreases list.len() - i,
    {
        proof {
            assert(texts(list@).take(i + 1) =~= texts(list@).take(i as int).push(list@[i as int]@));
        }
        let ghost before = out@;
        out.push(list[i].clone());
        proof {
            assert(texts(out@) =~= texts(before).push(list@[i as int]@));
        }
        i = i + 1;
    }
    proof {
        assert(texts(list@).take(list@.len() as int) =~= texts(list@));
    }
    out
}

/// Adds a text to a list.
pub fn push_text(list: &mut Vec<String>, text: String)
    ensures
        texts(final(list)@) == texts(old(list)@).push(text@),
{
    let ghost before = texts(list@);
    list.push(text);
    proof {
        assert(texts(list@) =~= before.push(text@));
    }
}

/// Whether `needle` stands in `chars` at position `at`.
fn stands_at(chars: &Vec<char>, needle: &Vec<char>, at: usize) -> (r: bool)
    requires
        at <= chars@.len(),
    ensures
        r == occurs_at(chars@, needle@, at as int),
{
    if needle.len() > chars.len() - at {
        return false;
    }
    let mut i: usize = 0;
    while i < needle.len()
        invariant
            i <= needle@.len(),
            at + needle.len() <= chars.len(),
            forall|j: int| 0 <= j < i ==> chars@[at + j] == needle@[j],
        decreases needle.len() - i,
    {
        if chars[at + i] != needle[i] {
            proof {
                assert(chars@.subrange(at as int, at + needle@.len())[i as int] != needle@[i as int]);
            }
            return false;
        }
        i = i + 1;
    }
    proof {
        assert(chars@.subrange(at as int, at + needle@.len()) =~= needle@);
    }
    true
}

pub fn starts_with(s: &str, prefix: &str) -> (r: bool)
    ensures
        r == has_prefix(s@, prefix@),
{
    let chars = chars_of(s);
    let wanted = chars_of(prefix);
    proof {
        if prefix@.len() <= s@.len() {
            assert(s@.take(prefix@.len() as int) =~= s@.subrange(0, prefix@.len() as int));
        }
    }
    stands_at(&chars, &wanted, 0)
}

pub fn contains(s: &str, needle: &str) -> (r: bool)
    ensures
        r == has_infix(s@, needle@),
{
    let chars = chars_of(s);
    let wanted = chars_of(needle);
    let mut at: usize = 0;
    while at < chars.len()
        invariant
            at <= chars@.len(),
            chars@ == s@,
            wanted@ == needle@,
            forall|j: int| 0 <= j < at ==> !occurs_at(s@, needle@, j),
        decreases chars.len() - at,
    {
        if stands_at(&chars, &wanted, at) {
            return true;
        }
        at = at + 1;
    }
    stands_at(&chars, &wanted, at)
}

/// What follows `prefix`, if `s` starts with it.
pub fn strip_prefix(s: &str, prefix: &str) -> (r: Option<String>)
    ensures
        r is Some == has_prefix(s@, prefix@),
        r matches Some(rest) ==> rest@ == s@.skip(prefix@.len() as int),
{
    if starts_with(s, prefix) {
        let chars = chars_of(s);
        let skipped: usize = prefix.unicode_len();
        let rest = text_of(&chars, skipped, chars.len());
        proof {
            assert(rest@ =~= s@.skip(prefix@.len() as int));
        }
        Some(rest)
    } else {
        None
    }
}

/// `s` without the leading characters that `mark` accepts.
pub fn trim_start(s: &str, mark: Mark) -> (r: String)
    ensures
        r@ == trim_left(s@, mark.accepts()),
{
    let chars = chars_of(s);
    let mut i: usize = 0;
    proof {
        assert(s@.skip(0) =~= s@);
    }
    while i < chars.len()
        invariant_except_break
            i <= chars@.len(),
            chars@ == s@,
            trim_left(s@, mark.accepts()) == trim_left(s@.skip(i as int), mark.accepts()),
        invariant
            chars@ == s@,
        ensures
            i <= chars@.len(),
            trim_left(s@, mark.accepts()) == s@.skip(i as int),
        decreases chars.len() - i,
    {
        proof {
            assert(s@.skip(i as int).drop_first() =~= s@.skip(i + 1));
        }
        if !mark.is(chars[i]) {
            break;
        }
        i = i + 1;
    }
    let r = text_of(&chars, i, chars.len());
    proof {
        assert(r@ =~= s@.skip(i as int));
    }
    r
}

/// `s` without the trailing characters that `mark` accepts.
pub fn trim_end(s: &str, mark: Mark) -> (r: String)
    ensures
        r@ == trim_right(s@, mark.accepts()),
{
    let chars = chars_of(s);
    let mut i: usize = chars.len();
    proof {
        assert(s@.take(s@.len() as int) =~= s@);
    }
    while i > 0
        invariant_except_break
            i <= chars@.len(),
            chars@ == s@,
            trim_right(s@, mark.accepts()) == trim_right(s@.take(i as int), mark.accepts()),
        invariant
            chars@ == s@,
        ensures
            i <= chars@.len(),
            trim_right(s@, mark.accepts()) == s@.take(i as int),
        decreases i,
    {
        proof {
            assert(s@.take(i as int).drop_last() =~= s@.take(i - 1));
        }
        if !mark.is(chars[i - 1]) {
            break;
        }
        i = i - 1;
    }
    let r = text_of(&chars, 0, i);
    proof {
        assert(r@ =~= s@.take(i as int));
    }
    r
}

/// `s` without surrounding white space.
pub fn trim(s: &str) -> (r: String)
    ensures
        r@ == trimmed(s@),
{
    let left = trim_start(s, Mark::White);
    trim_end(left.as_str(), Mark::White)
}

/// `s` without surrounding occurrences of `mark`.
pub fn trim_mark(s: &str, mark: char) -> (r: String)
    ensures
        r@ == stripped_of(s@, mark),
{
    let left = trim_start(s, Mark::Char(mark));
    trim_end(left.as_str(), Mark::Char(mark))
}

pub proof fn lemma_pieces_not_empty(s: Seq<char>, at: spec_fn(char) -> bool)
    ensures
        pieces(s, at).len() > 0,
    decreases s.len(),
{
    if s.len() > 0 {
        lemma_pieces_not_empty(s.drop_last(), at);
    }
}

/// The pieces of `s` between the characters that `mark` accepts.
pub fn cut(s: &str, mark: Mark) -> (r: Vec<String>)
    ensures
        texts(r@) == pieces(s@, mark.accepts()),
        r@.len() > 0,
{
    let chars = chars_of(s);
    let mut out: Vec<String> = Vec::new();
    let mut current = String::new();
    let mut i: usize = 0;
    proof {
        assert(texts(out@).push(current@) =~= pieces(s@.take(0), mark.accepts()));
    }
    while i < chars.len()
        invariant
            i <= chars@.len(),
            chars@ == s@,
            texts(out@).push(current@) == pieces(s@.take(i as int), mark.accepts()),
        decreases chars.len() - i,
    {
        let ghost before = texts(out@).push(current@);
        let ghost taken = s@.take(i + 1);
        proof {
            assert(taken.drop_last() =~= s@.take(i as int));
            assert(taken.last() == chars@[i as int]);
            assert(before.drop_last() =~= texts(out@));
        }
        if mark.is(chars[i]) {
            out.push(current);
            current = String::new();
            proof {
                assert(texts(out@) =~= before);
            }
        } else {
            current.push(chars[i]);
        }
        i = i + 1;
    }
    let ghost before = texts(out@).push(current@);
    out.push(current);
    proof {
        assert(texts(out@) =~= before);
        assert(s@.take(s@.len() as int) =~= s@);
    }
    out
}

/// The pieces of `s` between the occurrences of `mark`.
pub fn split_on(s: &str, mark: char) -> (r: Vec<String>)
    ensures
        texts(r@) == split(s@, mark),
        r@.len() > 0,
{
    cut(s, Mark::Char(mark))
}

/// The words of `s`: what stands between white space.
pub fn split_words(s: &str) -> (r: Vec<String>)
    ensures
        texts(r@) == words(s@),
{
    let all = cut(s, Mark::White);
    let mut out: Vec<String> = Vec::new();
    let mut i: usize = 0;
    let ghost filled = |piece: Seq<char>| piece.len() > 0;
    proof {
        assert(texts(all@).take(0).filter(filled) =~= Seq::<Seq<char>>::empty()) by {
            reveal(Seq::filter);
        }
    }
    while i < all.len()
        invariant
            i <= all@.len(),
            filled == (|piece: Seq<char>| piece.len() > 0),
            texts(out@) =~= texts(all@).take(i as int).filter(filled),
        decreases all.len() - i,
    {
        proof {
            reveal(Seq::filter);
            assert(texts(all@).take(i + 1).drop_last() =~= texts(all@).take(i as int));
            assert(texts(all@).take(i + 1).last() == all@[i as int]@);
        }
        if all[i].as_str().unicode_len() > 0 {
            out.push(all[i].clone());
        }
        i = i + 1;
    }
    proof {
        assert(texts(all@).take(all@.len() as int) =~= texts(all@));
    }
    out
}

/// The lines of `s`.
pub fn split_lines(s: &str) -> (r: Vec<String>)
    ensures
        texts(r@) == lines(s@),
{
    let parts = split_on(s, '\n');
    let last: usize = parts.len() - 1;
    let ghost ended = split(s@, '\n').drop_last().map_values(|line: Seq<char>| without_return(line));
    let mut out: Vec<String> = Vec::new();
    let mut i: usize = 0;
    while i < last
        invariant
            i <= last,
            last == parts@.len() - 1,
            texts(parts@) == split(s@, '\n'),
            ended == split(s@, '\n').drop_last().map_values(
                |line: Seq<char>| without_return(line),
            ),
            texts(out@) =~= ended.take(i as int),
        decreases last - i,
    {
        let chars = chars_of(parts[i].as_str());
        proof {
            assert(chars@ == split(s@, '\n')[i as int]);
            assert(ended[i as int] == without_return(chars@));
            assert(ended.take(i + 1) =~= ended.take(i as int).push(without_return(chars@)));
        }
        let ghost before = out@;
        if chars.len() > 0 && chars[chars.len() - 1] == '\r' {
            let line = text_of(&chars, 0, chars.len() - 1);
            proof {
                assert(line@ =~= chars@.drop_last());
            }
            out.push(line);
        } else {
            out.push(parts[i].clone());
        }
        proof {
            assert(texts(out@) =~= texts(before).push(without_return(chars@)));
        }
        i = i + 1;
    }
    proof {
        assert(ended.take(last as int) =~= ended);
        assert(texts(parts@).last() == parts@[last as int]@);
    }
    if parts[last].as_str().unicode_len() > 0 {
        out.push(parts[last].clone());
        proof {
            assert(texts(out@) =~= ended.push(parts@[last as int]@));
        }
    }
    out
}

/// What stands before and after the first `mark`.
pub fn split_once(s: &str, mark: char) -> (r: Option<(String, String)>)
    ensures
        match r {
            Some(pair) => split_first(s@, mark) == Some((pair.0@, pair.1@)),
            None => split_first(s@, mark) is None,
        },
{
    let chars = chars_of(s);
    let mut i: usize = 0;
    while i < chars.len()
        invariant
            i <= chars@.len(),
            chars@ == s@,
            position(s@, mark, 0) == position(s@, mark, i as int),
        decreases chars.len() - i,
    {
        if chars[i] == mark {
            let before = text_of(&chars, 0, i);
            let after = text_of(&chars, i + 1, chars.len());
            proof {
                assert(before@ =~= s@.take(i as int));
                assert(after@ =~= s@.skip(i + 1));
            }
            return Some((before, after));
        }
        i = i + 1;
    }
    None
}

/// `s` with its ASCII letters in lower case.
pub fn to_lower(s: &str) -> (r: String)
    ensures
        r@ == lower(s@),
{
    let chars = chars_of(s);
    let mut out = String::new();
    let mut i: usize = 0;
    while i < chars.len()
        invariant
            i <= chars@.len(),
            chars@ == s@,
            out@ =~= lower(s@.take(i as int)),
        decreases chars.len() - i,
    {
        let c = chars[i];
        if 'A' <= c && c <= 'Z' {
            out.push(((c as u32 + 32) as u8) as char);
        } else {
            out.push(c);
        }
        i = i + 1;
    }
    proof {
        assert(s@.take(s@.len() as int) =~= s@);
    }
    out
}

/// `s` with its ASCII letters in upper case.
pub fn to_upper(s: &str) -> (r: String)
    ensures
        r@ == upper(s@),
{
    let chars = chars_of(s);
    let mut out = String::new();
    let mut i: usize = 0;
    while i < chars.len()
        invariant
            i <= chars@.len(),
            chars@ == s@,
            out@ =~= upper(s@.take(i as int)),
        decreases chars.len() - i,
    {
        let c = chars[i];
        if 'a' <= c && c <= 'z' {
            out.push(((c as u32 - 32) as u8) as char);
        } else {
            out.push(c);
        }
        i = i + 1;
    }
    proof {
        assert(s@.take(s@.len() as int) =~= s@);
    }
    out
}

/// `s` with every `from` written as `to`.
pub fn replace_char(s: &str, from: char, to: char) -> (r: String)
    ensures
        r@ == replaced(s@, from, to),
{
    let chars = chars_of(s);
    let mut out = String::new();
    let mut i: usize = 0;
    while i < chars.len()
        invariant
            i <= chars@.len(),
            chars@ == s@,
            out@ =~= replaced(s@.take(i as int), from, to),
        decreases chars.len() - i,
    {
        if chars[i] == from {
            out.push(to);
        } else {
            out.push(chars[i]);
        }
        i = i + 1;
    }
    proof {
        assert(s@.take(s@.len() as int) =~= s@);
    }
    out
}

/// The list written out with `separator` between its members.
pub fn join(list: &Vec<String>, separator: &str) -> (r: String)
    ensures
        r@ == joined(texts(list@), separator@),
{
    let mut out = String::new();
    let mut i: usize = 0;
    while i < list.len()
        invariant
            i <= list@.len(),
            out@ == joined(texts(list@).take(i as int), separator@),
        decreases list.len() - i,
    {
        proof {
            let taken = texts(list@).take(i + 1);
            assert(taken.drop_last() =~= texts(list@).take(i as int));
            assert(taken.last() == list@[i as int]@);
        }
        if i > 0 {
            out.append(separator);
        }
        out.append(list[i].as_str());
        proof {
            if i == 0 {
                assert(out@ =~= texts(list@).take(1)[0]);
            }
        }
        i = i + 1;
    }
    proof {
        assert(texts(list@).take(list@.len() as int) =~= texts(list@));
    }
    out
}

/// Whether `a` comes before `b` by their first difference.
pub fn is_before(a: &str, b: &str) -> (r: bool)
    ensures
        r == text_before(a@, b@),
{
    let left = chars_of(a);
    let right = chars_of(b);
    let mut i: usize = 0;
    proof {
        assert(a@.skip(0) =~= a@);
        assert(b@.skip(0) =~= b@);
    }
    while i < left.len() && i < right.len()
        invariant
            i <= left@.len(),
            i <= right@.len(),
            left@ == a@,
            right@ == b@,
            text_before(a@, b@) == text_before(a@.skip(i as int), b@.skip(i as int)),
        decreases left.len() - i,
    {
        proof {
            assert(a@.skip(i as int).drop_first() =~= a@.skip(i + 1));
            assert(b@.skip(i as int).drop_first() =~= b@.skip(i + 1));
        }
        if left[i] != right[i] {
            return left[i] < right[i];
        }
        i = i + 1;
    }
    i < right.len()
}

/// A text of `count` spaces.
fn spaces(count: usize) -> (r: String)
    ensures
        r@ == Seq::new(count as nat, |i: int| ' '),
{
    let mut out = String::new();
    let mut i: usize = 0;
    while i < count
        invariant
            i <= count,
            out@ =~= Seq::new(i as nat, |i: int| ' '),
        decreases count - i,
    {
        out.push(' ');
        i = i + 1;
    }
    out
}

pub fn pad_right(s: &str, width: usize) -> (r: String)
    ensures
        r@ == padded_right(s@, width as int),
{
    let length: usize = s.unicode_len();
    let mut out = s.to_owned();
    if length < width {
        let fill = spaces(width - length);
        out.append(fill.as_str());
    }
    out
}

pub fn pad_left(s: &str, width: usize) -> (r: String)
    ensures
        r@ == padded_left(s@, width as int),
{
    let length: usize = s.unicode_len();
    if length < width {
        let mut out = spaces(width - length);
        out.append(s);
        out
    } else {
        s.to_owned()
    }
}

pub fn list1(a: &str) -> (r: Vec<String>)
    ensures
        texts(r@) == seq![a@],
{
    let mut out: Vec<String> = Vec::new();
    out.push(a.to_owned());
    proof {
        assert(texts(out@) =~= seq![a@]);
    }
    out
}

pub fn list2(a: &str, b: &str) -> (r: Vec<String>)
    ensures
        texts(r@) == seq![a@, b@],
{
    let mut out: Vec<String> = Vec::new();
    out.push(a.to_owned());
    out.push(b.to_owned());
    proof {
        assert(texts(out@) =~= seq![a@, b@]);
    }
    out
}

pub fn list3(a: &str, b: &str, c: &str) -> (r: Vec<String>)
    ensures
        texts(r@) == seq![a@, b@, c@],
{
    let mut out: Vec<String> = Vec::new();
    out.push(a.to_owned());
    out.push(b.to_owned());
    out.push(c.to_owned());
    proof {
        assert(texts(out@) =~= seq![a@, b@, c@]);
    }
    out
}

pub fn list4(a: &str, b: &str, c: &str, d: &str) -> (r: Vec<String>)
    ensures
        texts(r@) == seq![a@, b@, c@, d@],
{
    let mut out: Vec<String> = Vec::new();
    out.push(a.to_owned());
    out.push(b.to_owned());
    out.push(c.to_owned());
    out.push(d.to_owned());
    proof {
        assert(texts(out@) =~= seq![a@, b@, c@, d@]);
    }
    out
}

pub fn list5(a: &str, b: &str, c: &str, d: &str, e: &str) -> (r: Vec<String>)
    ensures
        texts(r@) == seq![a@, b@, c@, d@, e@],
{
    let mut out: Vec<String> = Vec::new();
    out.push(a.to_owned());
    out.push(b.to_owned());
    out.push(c.to_owned());
    out.push(d.to_owned());
    out.push(e.to_owned());
    proof {
        assert(texts(out@) =~= seq![a@, b@, c@, d@, e@]);
    }
    out
}

pub fn list6(a: &str, b: &str, c: &str, d: &str, e: &str, f: &str) -> (r: Vec<String>)
    ensures
        texts(r@) == seq![a@, b@, c@, d@, e@, f@],
{
    let mut out: Vec<String> = Vec::new();
    out.push(a.to_owned());
    out.push(b.to_owned());
    out.push(c.to_owned());
    out.push(d.to_owned());
    out.push(e.to_owned());
    out.push(f.to_owned());
    proof {
        assert(texts(out@) =~= seq![a@, b@, c@, d@, e@, f@]);
    }
    out
}

/// Whether the list holds just these texts.
pub fn is_list1(list: &[String], a: &str) -> (r: bool)
    ensures
        r == (texts(list@) == seq![a@]),
{
    let r = list.len() == 1 && same(list[0].as_str(), a);
    proof {
        let wanted = seq![a@];
        assert(texts(list@).len() == list@.len());
        if r {
            assert(texts(list@) =~= wanted);
        } else if list@.len() == 1 {
            assert(texts(list@)[0] == list@[0]@ && wanted[0] == a@);
        }
    }
    r
}

/// Whether the list holds just these texts.
pub fn is_list2(list: &[String], a: &str, b: &str) -> (r: bool)
    ensures
        r == (texts(list@) == seq![a@, b@]),
{
    let r = list.len() == 2 && same(list[0].as_str(), a) && same(list[1].as_str(), b);
    proof {
        let wanted = seq![a@, b@];
        assert(texts(list@).len() == list@.len());
        if r {
            assert(texts(list@) =~= wanted);
        } else if list@.len() == 2 {
            assert(texts(list@)[0] == list@[0]@ && wanted[0] == a@);
            assert(texts(list@)[1] == list@[1]@ && wanted[1] == b@);
        }
    }
    r
}

/// Whether the list holds just these texts.
pub fn is_list3(list: &[String], a: &str, b: &str, c: &str) -> (r: bool)
    ensures
        r == (texts(list@) == seq![a@, b@, c@]),
{
    let r = list.len() == 3 && same(list[0].as_str(), a) && same(list[1].as_str(), b) && same(list[2].as_str(), c);
    proof {
        let wanted = seq![a@, b@, c@];
        assert(texts(list@).len() == list@.len());
        if r {
            assert(texts(list@) =~= wanted);
        } else if list@.len() == 3 {
            assert(texts(list@)[0] == list@[0]@ && wanted[0] == a@);
            assert(texts(list@)[1] == list@[1]@ && wanted[1] == b@);
            assert(texts(list@)[2] == list@[2]@ && wanted[2] == c@);
        }
    }
    r
}

/// The order of texts is a strict total order.
pub proof fn lemma_text_order(a: Seq<char>, b: Seq<char>, c: Seq<char>)
    ensures
        !text_before(a, a),
        text_before(a, b) && text_before(b, c) ==> text_before(a, c),
        a == b || text_before(a, b) || text_before(b, a),
        !(text_before(a, b) && text_before(b, a)),
    decreases a.len(),
{
    if a.len() > 0 {
        lemma_text_order(a.drop_first(), a.drop_first(), Seq::empty());
    }
    if a.len() > 0 && b.len() > 0 {
        let rest_c = if c.len() > 0 { c.drop_first() } else { c };
        lemma_text_order(a.drop_first(), b.drop_first(), rest_c);
        if a[0] == b[0] && a.drop_first() == b.drop_first() {
            assert(a =~= seq![a[0]] + a.drop_first());
            assert(b =~= seq![b[0]] + b.drop_first());
        }
    } else if a.len() == 0 && b.len() == 0 {
        assert(a =~= b);
    }
}

// ---------------------------------------------------------------------------------------
// Laws
// ---------------------------------------------------------------------------------------

/// What is kept of two lists is kept of the one followed by the other.
pub proof fn kept_adds_up<A, B>(a: Seq<A>, b: Seq<A>, keep: spec_fn(A) -> Option<B>)
    ensures
        kept(a + b, keep) == kept(a, keep) + kept(b, keep),
    decreases b.len(),
{
    if b.len() == 0 {
        assert(a + b =~= a);
        assert(kept(a, keep) + kept(b, keep) =~= kept(a, keep));
    } else {
        assert((a + b).last() == b.last());
        assert((a + b).drop_last() =~= a + b.drop_last());
        kept_adds_up(a, b.drop_last(), keep);
        assert(kept(a + b, keep) =~= kept(a, keep) + kept(b, keep));
    }
}

pub open spec fn all_white(s: Seq<char>) -> bool {
    forall|i: int| 0 <= i < s.len() ==> is_white(#[trigger] s[i])
}

proof fn lemma_trim_left_front(front: Seq<char>, s: Seq<char>)
    requires
        all_white(front),
    ensures
        trim_left(front + s, Mark::White.accepts()) == trim_left(s, Mark::White.accepts()),
    decreases front.len(),
{
    if front.len() > 0 {
        assert(is_white((front + s)[0]));
        assert((front + s).drop_first() =~= front.drop_first() + s);
        lemma_trim_left_front(front.drop_first(), s);
    } else {
        assert(front + s =~= s);
    }
}

proof fn lemma_trim_right_back(s: Seq<char>, back: Seq<char>)
    requires
        all_white(back),
    ensures
        trim_right(s + back, Mark::White.accepts()) == trim_right(s, Mark::White.accepts()),
    decreases back.len(),
{
    if back.len() > 0 {
        assert(is_white((s + back).last()));
        assert((s + back).drop_last() =~= s + back.drop_last());
        lemma_trim_right_back(s, back.drop_last());
    } else {
        assert(s + back =~= s);
    }
}

proof fn lemma_trim_left_back(s: Seq<char>, back: Seq<char>)
    requires
        all_white(back),
    ensures
        all_white(s) ==> trim_left(s, Mark::White.accepts()).len() == 0 && trim_left(
            s + back,
            Mark::White.accepts(),
        ).len() == 0,
        !all_white(s) ==> trim_left(s + back, Mark::White.accepts()) == trim_left(
            s,
            Mark::White.accepts(),
        ) + back,
    decreases s.len(),
{
    if s.len() == 0 {
        lemma_trim_left_front(back, Seq::empty());
        assert(back + Seq::<char>::empty() =~= s + back);
    } else {
        let rest = s.drop_first();
        assert((s + back)[0] == s[0]);
        assert((s + back).drop_first() =~= rest + back);
        if is_white(s[0]) {
            lemma_trim_left_back(rest, back);
            if all_white(rest) {
                assert forall|i: int| 0 <= i < s.len() implies is_white(#[trigger] s[i]) by {
                    if i > 0 {
                        assert(rest[i - 1] == s[i]);
                    }
                }
            }
            if all_white(s) {
                assert forall|i: int| 0 <= i < rest.len() implies is_white(#[trigger] rest[i]) by {
                    assert(rest[i] == s[i + 1]);
                }
            }
        }
    }
}

/// White space around a text makes no difference to what is left when it is trimmed.
pub proof fn white_around_is_trimmed(front: Seq<char>, s: Seq<char>, back: Seq<char>)
    requires
        all_white(front),
        all_white(back),
    ensures
        trimmed(front + s + back) == trimmed(s),
{
    assert(front + s + back =~= front + (s + back));
    lemma_trim_left_front(front, s + back);
    lemma_trim_left_back(s, back);
    if all_white(s) {
        assert(trim_left(s + back, Mark::White.accepts()) =~= trim_left(s, Mark::White.accepts()));
    } else {
        lemma_trim_right_back(trim_left(s, Mark::White.accepts()), back);
    }
}

proof fn lemma_pieces_joined(a: Seq<char>, mark: char, b: Seq<char>, at: spec_fn(char) -> bool)
    requires
        at(mark),
    ensures
        pieces(a.push(mark) + b, at) == pieces(a, at) + pieces(b, at),
    decreases b.len(),
{
    let s = a.push(mark) + b;
    lemma_pieces_not_empty(b, at);
    if b.len() == 0 {
        assert(s.drop_last() =~= a);
        assert(s.last() == mark);
        assert(pieces(s, at) =~= pieces(a, at) + pieces(b, at));
    } else {
        lemma_pieces_joined(a, mark, b.drop_last(), at);
        lemma_pieces_not_empty(b.drop_last(), at);
        assert(s.drop_last() =~= a.push(mark) + b.drop_last());
        assert(s.last() == b.last());
        assert(pieces(s, at) =~= pieces(a, at) + pieces(b, at));
    }
}

proof fn lemma_one_piece(s: Seq<char>, at: spec_fn(char) -> bool)
    requires
        forall|i: int| 0 <= i < s.len() ==> !at(#[trigger] s[i]),
    ensures
        pieces(s, at) == seq![s],
    decreases s.len(),
{
    if s.len() > 0 {
        assert forall|i: int| 0 <= i < s.drop_last().len() implies !at(
            #[trigger] s.drop_last()[i],
        ) by {
            assert(s[i] == s.drop_last()[i]);
        }
        lemma_one_piece(s.drop_last(), at);
        assert(s.drop_last().push(s.last()) =~= s);
        assert(pieces(s, at) =~= seq![s]);
    } else {
        assert(s =~= Seq::empty());
    }
}

/// The text is made of whole lines, each with its line feed.
pub open spec fn ends_line(s: Seq<char>) -> bool {
    s.len() == 0 || s.last() == '\n'
}

/// Text behind whole lines adds its own lines to theirs.
pub proof fn lines_add_up(a: Seq<char>, b: Seq<char>)
    requires
        ends_line(a),
    ensures
        lines(a + b) == lines(a) + lines(b),
{
    let at = Mark::Char('\n').accepts();
    lemma_pieces_not_empty(b, at);
    if a.len() == 0 {
        assert(a + b =~= b);
        assert(lines(a) =~= Seq::empty());
        assert(lines(a) + lines(b) =~= lines(b));
    } else {
        let init = a.drop_last();
        let none = Seq::<char>::empty();
        assert(init.push('\n') =~= a);
        lemma_pieces_joined(init, '\n', b, at);
        lemma_pieces_joined(init, '\n', none, at);
        assert(a + none =~= a);
        assert(split(a, '\n').drop_last() =~= split(init, '\n'));
        assert(split(a + b, '\n').last() == split(b, '\n').last());
        assert(lines(a + b) =~= lines(a) + lines(b));
    }
}

/// A line with its line feed is one line.
pub proof fn line_stands_alone(line: Seq<char>)
    requires
        !line.contains('\n'),
    ensures
        ends_line(line.push('\n')),
        lines(line.push('\n')) == seq![without_return(line)],
{
    let at = Mark::Char('\n').accepts();
    let none = Seq::<char>::empty();
    assert forall|i: int| 0 <= i < line.len() implies !at(#[trigger] line[i]) by {
        assert(line.contains(line[i]));
    }
    lemma_one_piece(line, at);
    lemma_pieces_joined(line, '\n', none, at);
    assert(line.push('\n') + none =~= line.push('\n'));
    assert(lines(line.push('\n')) =~= seq![without_return(line)]);
}

/// A line feed behind the last line adds no line; it only takes the carriage return in front of
/// it along.
pub proof fn last_line_is_closed(s: Seq<char>)
    requires
        !ends_line(s),
    ensures
        lines(s).len() > 0,
        lines(s.push('\n')) == lines(s).drop_last().push(without_return(lines(s).last())),
{
    let at = Mark::Char('\n').accepts();
    lemma_pieces_not_empty(s, at);
    lemma_pieces_not_empty(s.drop_last(), at);
    assert(split(s, '\n').last().len() > 0);
    assert(s.push('\n').drop_last() =~= s);
    assert(split(s.push('\n'), '\n').drop_last() =~= split(s, '\n'));
    assert(lines(s.push('\n')) =~= lines(s).drop_last().push(without_return(lines(s).last())));
}

/// The text holds no white space.
pub open spec fn no_white(s: Seq<char>) -> bool {
    forall|i: int| 0 <= i < s.len() ==> !is_white(#[trigger] s[i])
}

/// A text that neither starts nor ends in white space is what is left when white space around
/// it is trimmed.
pub proof fn trimming_leaves_the_core(front: Seq<char>, core: Seq<char>, back: Seq<char>)
    requires
        all_white(front),
        all_white(back),
        core.len() > 0 ==> !is_white(core[0]) && !is_white(core.last()),
    ensures
        trimmed(front + core + back) == core,
        trimmed(core) == core,
{
    white_around_is_trimmed(front, core, back);
    if core.len() == 0 {
        assert(core =~= Seq::empty());
    }
}

proof fn lemma_trim_left_bare(s: Seq<char>)
    ensures
        trim_left(s, Mark::White.accepts()).len() > 0 ==> !is_white(
            trim_left(s, Mark::White.accepts())[0],
        ),
    decreases s.len(),
{
    if s.len() > 0 && is_white(s[0]) {
        lemma_trim_left_bare(s.drop_first());
    }
}

proof fn lemma_trim_right_bare(s: Seq<char>)
    ensures
        ({
            let t = trim_right(s, Mark::White.accepts());
            &&& t.len() > 0 ==> !is_white(t.last()) && t[0] == s[0]
            &&& t.len() <= s.len()
        }),
    decreases s.len(),
{
    if s.len() > 0 && is_white(s.last()) {
        lemma_trim_right_bare(s.drop_last());
    }
}

/// No white space is left at either end of a trimmed text.
pub proof fn trimmed_ends_are_bare(s: Seq<char>)
    ensures
        trimmed(s).len() > 0 ==> !is_white(trimmed(s)[0]) && !is_white(trimmed(s).last()),
{
    lemma_trim_left_bare(s);
    lemma_trim_right_bare(trim_left(s, Mark::White.accepts()));
}

/// The pieces on both sides of a mark are the pieces of the whole.
pub proof fn pieces_add_up(a: Seq<char>, mark: char, b: Seq<char>)
    ensures
        split(a.push(mark) + b, mark) == split(a, mark) + split(b, mark),
{
    lemma_pieces_joined(a, mark, b, Mark::Char(mark).accepts());
}

/// A text without the mark is one piece.
pub proof fn piece_stands_alone(s: Seq<char>, mark: char)
    requires
        !s.contains(mark),
    ensures
        split(s, mark) == seq![s],
{
    let at = Mark::Char(mark).accepts();
    assert forall|i: int| 0 <= i < s.len() implies !at(#[trigger] s[i]) by {
        assert(s.contains(s[i]));
    }
    lemma_one_piece(s, at);
}

/// White space between two texts keeps their words apart, however much there is of it.
pub proof fn words_add_up(a: Seq<char>, gap: Seq<char>, b: Seq<char>)
    requires
        gap.len() > 0,
        all_white(gap),
    ensures
        words(a + gap + b) == words(a) + words(b),
    decreases gap.len(),
{
    let at = Mark::White.accepts();
    let filled = |piece: Seq<char>| piece.len() > 0;
    let mark = gap.last();
    assert(is_white(gap[gap.len() - 1]));
    let front = a + gap.drop_last();
    assert(a + gap + b =~= front.push(mark) + b);
    lemma_pieces_joined(front, mark, b, at);
    Seq::filter_distributes_over_add(pieces(front, at), pieces(b, at), filled);
    if gap.len() > 1 {
        let none = Seq::<char>::empty();
        words_add_up(a, gap.drop_last(), none);
        assert(front + none =~= front);
        lemma_no_words();
        assert(words(a) + Seq::<Seq<char>>::empty() =~= words(a));
    } else {
        assert(front =~= a);
    }
}

proof fn lemma_no_words()
    ensures
        words(Seq::empty()) == Seq::<Seq<char>>::empty(),
{
    let filled = |piece: Seq<char>| piece.len() > 0;
    let one = seq![Seq::<char>::empty()];
    assert(pieces(Seq::empty(), Mark::White.accepts()) == one);
    reveal(Seq::filter);
    assert(one.drop_last() =~= Seq::empty());
    assert(one.drop_last().filter(filled) =~= Seq::empty());
    assert(one.filter(filled) =~= Seq::empty());
}

/// White space alone holds no words.
pub proof fn white_space_holds_no_words(s: Seq<char>)
    requires
        all_white(s),
    ensures
        words(s) == Seq::<Seq<char>>::empty(),
{
    lemma_no_words();
    if s.len() > 0 {
        let none = Seq::<char>::empty();
        words_add_up(none, s, none);
        assert(none + s + none =~= s);
        assert(words(none) + words(none) =~= Seq::empty());
    } else {
        assert(s =~= Seq::empty());
    }
}

/// A text without white space is one word.
pub proof fn word_stands_alone(s: Seq<char>)
    requires
        s.len() > 0,
        no_white(s),
    ensures
        words(s) == seq![s],
{
    let filled = |piece: Seq<char>| piece.len() > 0;
    lemma_one_piece(s, Mark::White.accepts());
    reveal(Seq::filter);
    let one = seq![s];
    assert(one.drop_last() =~= Seq::empty());
    assert(one.drop_last().filter(filled) =~= Seq::empty());
    assert(one.filter(filled) =~= seq![s]);
}

/// The first word of a text is read up to the first white space.
pub proof fn first_word_is_read(front: Seq<char>, word: Seq<char>, rest: Seq<char>)
    requires
        all_white(front),
        word.len() > 0,
        no_white(word),
        rest.len() > 0 ==> is_white(rest[0]),
    ensures
        words(front + word + rest).len() > 0,
        words(front + word + rest)[0] == word,
{
    let none = Seq::<char>::empty();
    word_stands_alone(word);
    assert(words(word + rest).len() > 0 && words(word + rest)[0] == word) by {
        if rest.len() > 0 {
            let gap = seq![rest[0]];
            words_add_up(word, gap, rest.skip(1));
            assert(word + gap + rest.skip(1) =~= word + rest);
        } else {
            assert(word + rest =~= word);
        }
    }
    if front.len() > 0 {
        words_add_up(none, front, word + rest);
        lemma_no_words();
        assert(none + front + (word + rest) =~= front + word + rest);
        assert(words(none) + words(word + rest) =~= words(word + rest));
    } else {
        assert(front + word + rest =~= word + rest);
    }
}

/// The first mark parts a text: what stands in front of it has none, and the two sides with the
/// mark between them are the text again.
pub proof fn first_mark_parts(a: Seq<char>, mark: char, b: Seq<char>)
    requires
        !a.contains(mark),
    ensures
        split_first(a.push(mark) + b, mark) == Some((a, b)),
        split_first(a, mark) is None,
{
    let s = a.push(mark) + b;
    assert(s.take(a.len() as int) =~= a);
    assert(a.take(a.len() as int) =~= a);
    lemma_position_behind(a, mark, s, 0);
    lemma_position_behind(a, mark, a, 0);
    assert(s.skip(a.len() as int + 1) =~= b);
}

proof fn lemma_position_behind(a: Seq<char>, mark: char, s: Seq<char>, from: int)
    requires
        !a.contains(mark),
        a.len() <= s.len(),
        s.take(a.len() as int) == a,
        a.len() < s.len() ==> s[a.len() as int] == mark,
        0 <= from <= a.len(),
    ensures
        position(s, mark, from) == a.len(),
    decreases a.len() - from,
{
    if from < a.len() {
        assert(a.contains(a[from]));
        assert(s[from] == s.take(a.len() as int)[from]);
        lemma_position_behind(a, mark, s, from + 1);
    }
}

/// Only the case of ASCII letters changes, and each has its partner in the other case.
pub proof fn case_changes_letters_only(c: char)
    ensures
        !('A' <= c && c <= 'Z') ==> ascii_lower(c) == c,
        'A' <= c && c <= 'Z' ==> 'a' <= ascii_lower(c) && ascii_lower(c) <= 'z' && ascii_lower(
            c,
        ) as int - 'a' as int == c as int - 'A' as int,
        !('a' <= c && c <= 'z') ==> ascii_upper(c) == c,
        'a' <= c && c <= 'z' ==> ascii_upper(ascii_lower(c)) == ascii_upper(c) && ascii_lower(
            ascii_upper(c),
        ) == c,
        'A' <= c && c <= 'Z' ==> ascii_upper(ascii_lower(c)) == c,
{
}

/// The first difference decides the order of two texts, by the value of the characters; a text
/// comes before what it starts.
pub proof fn first_difference_decides(
    front: Seq<char>,
    a: char,
    b: char,
    rest: Seq<char>,
    other: Seq<char>,
)
    requires
        a < b,
    ensures
        text_before(front.push(a) + rest, front.push(b) + other),
        !text_before(front.push(b) + other, front.push(a) + rest),
        text_before(front, front.push(a) + rest),
    decreases front.len(),
{
    if front.len() > 0 {
        let tail = front.drop_first();
        first_difference_decides(tail, a, b, rest, other);
        assert((front.push(a) + rest).drop_first() =~= tail.push(a) + rest);
        assert((front.push(b) + other).drop_first() =~= tail.push(b) + other);
        assert((front.push(a) + rest)[0] == front[0]);
        assert((front.push(b) + other)[0] == front[0]);
    } else {
        assert((front.push(a) + rest)[0] == a);
        assert((front.push(b) + other)[0] == b);
    }
}

/// A list is written out member by member, with the separator between each two.
pub proof fn joining_puts_separators_between(
    list: Seq<Seq<char>>,
    more: Seq<Seq<char>>,
    separator: Seq<char>,
)
    ensures
        list.len() > 0 && more.len() > 0 ==> joined(list + more, separator) == joined(
            list,
            separator,
        ) + separator + joined(more, separator),
        forall|text: Seq<char>| #[trigger] joined(seq![text], separator) == text,
    decreases more.len(),
{
    if list.len() > 0 && more.len() > 0 {
        let all = list + more;
        assert(all.last() == more.last());
        assert(all.drop_last() =~= list + more.drop_last());
        if more.len() == 1 {
            assert(list + more.drop_last() =~= list);
            assert(more.last() == more[0]);
        } else {
            joining_puts_separators_between(list, more.drop_last(), separator);
            assert(joined(all, separator) =~= joined(list, separator) + separator + joined(
                more,
                separator,
            ));
        }
    }
}

/// What is kept of one value is what is made of it.
pub proof fn kept_of_one<A, B>(value: A, keep: spec_fn(A) -> Option<B>)
    ensures
        kept(seq![value], keep) == match keep(value) {
            Some(found) => seq![found],
            None => Seq::empty(),
        },
{
    let one = seq![value];
    assert(one.drop_last() =~= Seq::empty());
    assert(kept(one.drop_last(), keep) =~= Seq::empty());
    assert(kept(one, keep) =~= match keep(value) {
        Some(found) => seq![found],
        None => Seq::empty(),
    });
}

/// One more value adds what is made of it, behind what was kept before.
pub proof fn kept_one_more<A, B>(list: Seq<A>, value: A, keep: spec_fn(A) -> Option<B>)
    ensures
        kept(list.push(value), keep) == match keep(value) {
            Some(found) => kept(list, keep).push(found),
            None => kept(list, keep),
        },
{
    assert(list.push(value).drop_last() =~= list);
}

/// What a list keeps, it keeps of its members, in their order and each once: there are places
/// in the list, one behind the other, from which the values come, and every place of which
/// anything is kept is among them.
pub proof fn kept_in_order<A, B>(list: Seq<A>, keep: spec_fn(A) -> Option<B>) -> (places: Seq<int>)
    ensures
        places.len() == kept(list, keep).len(),
        forall|k: int|
            0 <= k < places.len() ==> 0 <= (#[trigger] places[k]) < list.len() && keep(
                list[places[k]],
            ) == Some(kept(list, keep)[k]),
        forall|k: int, l: int| 0 <= k < l < places.len() ==> places[k] < places[l],
        forall|i: int|
            0 <= i < list.len() && keep(#[trigger] list[i]) is Some ==> places.contains(i),
    decreases list.len(),
{
    if list.len() == 0 {
        Seq::empty()
    } else {
        let before = list.drop_last();
        let last = list.len() - 1;
        let earlier = kept_in_order(before, keep);
        match keep(list.last()) {
            Some(value) => {
                let places = earlier.push(last);
                assert forall|i: int| 0 <= i < list.len() && keep(
                    #[trigger] list[i],
                ) is Some implies places.contains(i) by {
                    if i < last {
                        assert(before[i] == list[i]);
                        let k = choose|k: int| 0 <= k < earlier.len() && earlier[k] == i;
                        assert(places[k] == i);
                    } else {
                        assert(places[earlier.len() as int] == i);
                    }
                }
                assert forall|k: int| 0 <= k < places.len() implies 0 <= (#[trigger] places[k])
                    < list.len() && keep(list[places[k]]) == Some(kept(list, keep)[k]) by {
                    if k < earlier.len() {
                        assert(earlier[k] == places[k]);
                        assert(before[places[k]] == list[places[k]]);
                    }
                }
                places
            },
            None => {
                assert forall|i: int| 0 <= i < list.len() && keep(
                    #[trigger] list[i],
                ) is Some implies earlier.contains(i) by {
                    assert(before[i] == list[i]);
                }
                assert forall|k: int| 0 <= k < earlier.len() implies 0 <= (#[trigger] earlier[k])
                    < list.len() && keep(list[earlier[k]]) == Some(kept(list, keep)[k]) by {
                    assert(before[earlier[k]] == list[earlier[k]]);
                }
                earlier
            },
        }
    }
}

/// Nothing is left of a text when it is trimmed exactly where it is nothing but white space.
pub proof fn only_white_space_is_trimmed_away(s: Seq<char>)
    ensures
        trimmed(s).len() == 0 <==> all_white(s),
{
    let at = Mark::White.accepts();
    let none = Seq::<char>::empty();
    let left = trim_left(s, at);
    lemma_trim_left_back(s, none);
    lemma_trim_left_bare(s);
    if !all_white(s) {
        lemma_not_trimmed_left(s);
        lemma_not_trimmed_right(left);
    }
}

proof fn lemma_not_trimmed_left(s: Seq<char>)
    requires
        !all_white(s),
    ensures
        trim_left(s, Mark::White.accepts()).len() > 0,
    decreases s.len(),
{
    if is_white(s[0]) {
        let rest = s.drop_first();
        let i = choose|i: int| 0 <= i < s.len() && !is_white(#[trigger] s[i]);
        assert(!is_white(rest[i - 1]));
        lemma_not_trimmed_left(rest);
    }
}

proof fn lemma_not_trimmed_right(s: Seq<char>)
    requires
        s.len() > 0,
        !is_white(s[0]),
    ensures
        trim_right(s, Mark::White.accepts()).len() > 0,
    decreases s.len(),
{
    if is_white(s.last()) {
        lemma_not_trimmed_right(s.drop_last());
    }
}

/// A carriage return at the end of a line is white space.
pub proof fn line_end_is_trimmed(line: Seq<char>)
    ensures
        trimmed(without_return(line)) == trimmed(line),
{
    if line.len() > 0 && line.last() == '\r' {
        let back = seq!['\r'];
        white_around_is_trimmed(Seq::empty(), line.drop_last(), back);
        assert(Seq::<char>::empty() + line.drop_last() + back =~= line);
    }
}

/// One more line, with its line feed, is one more line of the whole.
pub proof fn lines_one_more(text: Seq<char>, line: Seq<char>)
    requires
        ends_line(text),
        !line.contains('\n'),
    ensures
        ends_line(text + line.push('\n')),
        lines(text + line.push('\n')) == lines(text).push(without_return(line)),
{
    line_stands_alone(line);
    lines_add_up(text, line.push('\n'));
    assert(lines(text) + seq![without_return(line)] =~= lines(text).push(without_return(line)));
}

/// Some fields with white space behind each of them but the last.
pub open spec fn spaced(fields: Seq<Seq<char>>, gaps: Seq<Seq<char>>) -> Seq<char>
    decreases fields.len(),
{
    if fields.len() == 0 {
        Seq::empty()
    } else if fields.len() == 1 {
        fields[0]
    } else {
        spaced(fields.drop_last(), gaps) + gaps[fields.len() - 2] + fields.last()
    }
}

/// Each of the texts is a word, and each of the gaps is white space.
pub open spec fn are_spaced(fields: Seq<Seq<char>>, gaps: Seq<Seq<char>>) -> bool {
    &&& gaps.len() + 1 >= fields.len()
    &&& forall|i: int| 0 <= i < fields.len() ==> (#[trigger] fields[i]).len() > 0 && no_white(fields[i])
    &&& forall|i: int| 0 <= i < gaps.len() ==> (#[trigger] gaps[i]).len() > 0 && all_white(gaps[i])
}

/// Fields with white space between them are read back, one word each.
pub proof fn spaced_fields_are_read_back(fields: Seq<Seq<char>>, gaps: Seq<Seq<char>>)
    requires
        are_spaced(fields, gaps),
    ensures
        words(spaced(fields, gaps)) == fields,
    decreases fields.len(),
{
    if fields.len() == 0 {
        white_space_holds_no_words(Seq::empty());
        assert(fields =~= Seq::empty());
    } else {
        word_stands_alone(fields.last());
        if fields.len() == 1 {
            assert(fields =~= seq![fields[0]]);
        } else {
            let before = fields.drop_last();
            assert forall|i: int| 0 <= i < before.len() implies (#[trigger] before[i]).len() > 0
                && no_white(before[i]) by {
                assert(before[i] == fields[i]);
            }
            assert(gaps[fields.len() - 2].len() > 0);
            spaced_fields_are_read_back(before, gaps);
            words_add_up(spaced(before, gaps), gaps[fields.len() - 2], fields.last());
            assert(before + seq![fields.last()] =~= fields);
        }
    }
}

/// Padding keeps the text and adds nothing but spaces, up to the width and no further.
pub proof fn padding_keeps_the_text(s: Seq<char>, width: int)
    ensures
        has_prefix(padded_right(s, width), s),
        padded_left(s, width).skip(padded_left(s, width).len() - s.len()) == s,
        padded_left(s, width).len() == padded_right(s, width).len(),
        padded_right(s, width).len() == if s.len() >= width {
            s.len() as int
        } else {
            width
        },
        forall|i: int|
            s.len() <= i < padded_right(s, width).len() ==> #[trigger] padded_right(s, width)[i]
                == ' ',
        forall|i: int|
            0 <= i < padded_left(s, width).len() - s.len() ==> #[trigger] padded_left(s, width)[i]
                == ' ',
{
    assert(padded_right(s, width).take(s.len() as int) =~= s);
    assert(padded_left(s, width).skip(padded_left(s, width).len() - s.len()) =~= s);
}

/// A replacement leaves no mark behind, and touches nothing else.
pub proof fn replacing_touches_the_mark_alone(s: Seq<char>, from: char, to: char, i: int)
    requires
        0 <= i < s.len(),
    ensures
        replaced(s, from, to).len() == s.len(),
        s[i] == from ==> replaced(s, from, to)[i] == to,
        s[i] != from ==> replaced(s, from, to)[i] == s[i],
{
}

/// Marks around a text are stripped off, however many there are on either side.
pub proof fn marks_around_are_stripped(mark: char, core: Seq<char>)
    requires
        core.len() > 0 ==> core[0] != mark && core.last() != mark,
    ensures
        stripped_of(core, mark) == core,
        stripped_of(seq![mark] + core + seq![mark], mark) == core,
{
    let drop = Mark::Char(mark).accepts();
    let whole = seq![mark] + core + seq![mark];
    let rest = core + seq![mark];
    assert(whole[0] == mark);
    assert(whole.drop_first() =~= rest);
    assert(trim_left(core, drop) == core);
    assert(trim_right(core, drop) == core);
    assert(trim_left(whole, drop) == trim_left(rest, drop));
    if core.len() > 0 {
        assert(rest[0] == core[0]);
        assert(trim_left(rest, drop) == rest);
        assert(rest.last() == mark);
        assert(rest.drop_last() =~= core);
        assert(trim_right(rest, drop) == trim_right(core, drop));
    } else {
        assert(core =~= Seq::empty());
        assert(rest =~= seq![mark]);
        assert(rest.drop_first() =~= Seq::empty());
        assert(trim_left(rest, drop) == trim_left(rest.drop_first(), drop));
        assert(trim_left(rest, drop) =~= Seq::empty());
    }
}

} // verus!
