//! Sizes in bytes as people write and read them.
use vstd::arithmetic::div_mod::lemma_fundamental_div_mod;
use vstd::arithmetic::power::lemma_pow_positive;
use vstd::arithmetic::power2::*;
use vstd::prelude::*;
use vstd::string::*;

use crate::double::{
    are_digits, as_double, decimal_fraction, double_limit, dyadic_fractions_are_exact, is_infinite,
    lemma_whole_fraction, nearest_even, nearest_up, shifted_double, shifted_value,
    small_wholes_are_exact, spacing, ten, value,
};
use crate::number::{
    all_digits, decimal, decimal_text, digit_value, digits_value, lemma_decimal_value,
};
use crate::text::{
    all_white, ascii_upper, chars_of, first_mark_parts, is_digit, is_white, position, same,
    split_first, text_of, to_upper, trim, trim_end, trim_left, trim_right, trimmed, upper,
    white_around_is_trimmed, Mark,
};

verus! {

/// Why a text is no size.
#[derive(Debug, PartialEq, Eq)]
pub enum SizeError {
    Empty,
    InvalidValue(String),
    UnsupportedSuffix(String),
    TooLarge(String),
}

pub enum SizeFault {
    Empty,
    InvalidValue(Seq<char>),
    UnsupportedSuffix(Seq<char>),
    TooLarge(Seq<char>),
}

impl View for SizeError {
    type V = SizeFault;

    open spec fn view(&self) -> SizeFault {
        match self {
            SizeError::Empty => SizeFault::Empty,
            SizeError::InvalidValue(input) => SizeFault::InvalidValue(input@),
            SizeError::UnsupportedSuffix(suffix) => SizeFault::UnsupportedSuffix(suffix@),
            SizeError::TooLarge(input) => SizeFault::TooLarge(input@),
        }
    }
}

pub open spec fn fault_text(fault: SizeFault) -> Seq<char> {
    match fault {
        SizeFault::Empty => "size cannot be empty"@,
        SizeFault::InvalidValue(input) => "invalid size value: "@ + input,
        SizeFault::UnsupportedSuffix(suffix) => "unsupported size suffix: "@ + suffix,
        SizeFault::TooLarge(input) => "size is too large: "@ + input,
    }
}

impl SizeError {
    pub fn message(&self) -> (r: String)
        ensures
            r@ == fault_text(self@),
    {
        match self {
            SizeError::Empty => "size cannot be empty".to_owned(),
            SizeError::InvalidValue(input) => {
                "invalid size value: ".to_owned().concat(input.as_str())
            },
            SizeError::UnsupportedSuffix(suffix) => {
                "unsupported size suffix: ".to_owned().concat(suffix.as_str())
            },
            SizeError::TooLarge(input) => "size is too large: ".to_owned().concat(input.as_str()),
        }
    }
}

/// How many leading characters are digits or dots, from `i` on.
pub open spec fn number_end(s: Seq<char>, i: int) -> int
    decreases s.len() - i,
{
    if i < 0 || i >= s.len() {
        s.len() as int
    } else if is_digit(s[i]) || s[i] == '.' {
        number_end(s, i + 1)
    } else {
        i
    }
}

pub open spec fn digit_values(s: Seq<char>) -> Seq<u8> {
    s.map_values(|c: char| digit_value(c) as u8)
}

/// The digits before and behind the point of a number: at most one point, at least one digit.
pub open spec fn number_digits(number: Seq<char>) -> Option<(Seq<u8>, Seq<u8>)> {
    match split_first(number, '.') {
        None => if number.len() > 0 {
            Some((digit_values(number), Seq::empty()))
        } else {
            None
        },
        Some((whole, frac)) => if !frac.contains('.') && whole.len() + frac.len() > 0 {
            Some((digit_values(whole), digit_values(frac)))
        } else {
            None
        },
    }
}

/// The power of two that a suffix stands for. Any number of `B` may follow the unit.
pub open spec fn suffix_shift(suffix: Seq<char>) -> Option<nat> {
    let unit = trim_right(suffix, Mark::Char('B').accepts());
    if unit == ""@ {
        Some(0)
    } else if unit == "K"@ || unit == "KI"@ {
        Some(10)
    } else if unit == "M"@ || unit == "MI"@ {
        Some(20)
    } else if unit == "G"@ || unit == "GI"@ {
        Some(30)
    } else if unit == "T"@ || unit == "TI"@ {
        Some(40)
    } else {
        None
    }
}

/// The bytes that a size stands for. The number is held in floating point, scaled by its unit
/// and rounded to whole bytes, a half upwards; what exceeds two to the power 64 is too large.
pub open spec fn parsed_size(input: Seq<char>) -> Result<nat, SizeFault> {
    let text = upper(trimmed(input));
    let end = number_end(text, 0);
    let suffix = text.skip(end);
    if text.len() == 0 {
        Err(SizeFault::Empty)
    } else {
        match number_digits(text.take(end)) {
            None => Err(SizeFault::InvalidValue(input)),
            Some((whole, frac)) => {
                let (n, d) = decimal_fraction(whole, frac);
                if n >= double_limit() * d {
                    Err(SizeFault::InvalidValue(input))
                } else {
                    match suffix_shift(suffix) {
                        None => Err(SizeFault::UnsupportedSuffix(suffix)),
                        Some(shift) => {
                            let (p, q) = shifted_double(n, d, shift);
                            if p > pow2(64) * q {
                                Err(SizeFault::TooLarge(input))
                            } else if nearest_up(p, q) > u64::MAX {
                                Ok(u64::MAX as nat)
                            } else {
                                Ok(nearest_up(p, q))
                            }
                        },
                    }
                }
            },
        }
    }
}

/// The number of leading digits and dots.
fn number_length(chars: &Vec<char>) -> (r: usize)
    ensures
        r == number_end(chars@, 0),
        r <= chars@.len(),
        forall|j: int| 0 <= j < r ==> is_digit(#[trigger] chars@[j]) || chars@[j] == '.',
{
    let mut i: usize = 0;
    while i < chars.len()
        invariant
            i <= chars@.len(),
            number_end(chars@, 0) == number_end(chars@, i as int),
            forall|j: int| 0 <= j < i ==> is_digit(#[trigger] chars@[j]) || chars@[j] == '.',
        decreases chars.len() - i,
    {
        let c = chars[i];
        if !(('0' <= c && c <= '9') || c == '.') {
            return i;
        }
        i = i + 1;
    }
    i
}

/// The digits of `chars[from..to]`.
fn read_digits(chars: &Vec<char>, from: usize, to: usize) -> (r: Vec<u8>)
    requires
        from <= to <= chars@.len(),
        forall|j: int| from <= j < to ==> is_digit(#[trigger] chars@[j]),
    ensures
        r@ == digit_values(chars@.subrange(from as int, to as int)),
        are_digits(r@),
{
    let mut out: Vec<u8> = Vec::new();
    let mut i: usize = from;
    while i < to
        invariant
            from <= i <= to <= chars@.len(),
            forall|j: int| from <= j < to ==> is_digit(#[trigger] chars@[j]),
            out@ =~= digit_values(chars@.subrange(from as int, i as int)),
            are_digits(out@),
        decreases to - i,
    {
        out.push((chars[i] as u32 - 48) as u8);
        i = i + 1;
    }
    out
}

/// The digits before and behind the point.
fn read_number(chars: &Vec<char>) -> (r: Option<(Vec<u8>, Vec<u8>)>)
    requires
        forall|j: int| 0 <= j < chars@.len() ==> is_digit(#[trigger] chars@[j]) || chars@[j] == '.',
    ensures
        match r {
            Some(pair) => number_digits(chars@) == Some((pair.0@, pair.1@)) && are_digits(pair.0@)
                && are_digits(pair.1@),
            None => number_digits(chars@) is None,
        },
{
    let mut i: usize = 0;
    while i < chars.len() && chars[i] != '.'
        invariant
            i <= chars@.len(),
            position(chars@, '.', 0) == position(chars@, '.', i as int),
            forall|j: int| 0 <= j < i ==> chars@[j] != '.',
        decreases chars.len() - i,
    {
        i = i + 1;
    }
    if i == chars.len() {
        if i == 0 {
            return None;
        }
        let digits = read_digits(chars, 0, i);
        let none: Vec<u8> = Vec::new();
        proof {
            assert(chars@.subrange(0, i as int) =~= chars@);
        }
        return Some((digits, none));
    }
    let ghost frac = chars@.skip(i + 1);
    let mut j: usize = i + 1;
    while j < chars.len()
        invariant
            i < j <= chars@.len(),
            frac == chars@.skip(i + 1),
            split_first(chars@, '.') == Some((chars@.take(i as int), frac)),
            forall|k: int| i < k < j ==> chars@[k] != '.',
        decreases chars.len() - j,
    {
        if chars[j] == '.' {
            proof {
                assert(frac[j - i - 1] == '.');
            }
            return None;
        }
        j = j + 1;
    }
    proof {
        if frac.contains('.') {
            let k = choose|k: int| 0 <= k < frac.len() && frac[k] == '.';
            assert(chars@[k + i + 1] == '.');
        }
    }
    if i == 0 && chars.len() == 1 {
        return None;
    }
    let whole = read_digits(chars, 0, i);
    let rest = read_digits(chars, i + 1, chars.len());
    proof {
        assert(chars@.subrange(0, i as int) =~= chars@.take(i as int));
        assert(chars@.subrange(i + 1, chars@.len() as int) =~= frac);
    }
    Some((whole, rest))
}

fn read_suffix(suffix: &str) -> (r: Option<u32>)
    ensures
        match r {
            Some(shift) => suffix_shift(suffix@) == Some(shift as nat) && shift <= 40,
            None => suffix_shift(suffix@) is None,
        },
{
    let unit = trim_end(suffix, Mark::Char('B'));
    let unit = unit.as_str();
    if same(unit, "") {
        Some(0)
    } else if same(unit, "K") || same(unit, "KI") {
        Some(10)
    } else if same(unit, "M") || same(unit, "MI") {
        Some(20)
    } else if same(unit, "G") || same(unit, "GI") {
        Some(30)
    } else if same(unit, "T") || same(unit, "TI") {
        Some(40)
    } else {
        None
    }
}

/// The bytes that a size such as `500M` or `1.5GiB` stands for.
pub fn parse_size(input: &str) -> (r: Result<u64, SizeError>)
    ensures
        match r {
            Ok(bytes) => parsed_size(input@) == Ok::<nat, SizeFault>(bytes as nat),
            Err(error) => parsed_size(input@) == Err::<nat, SizeFault>(error@),
        },
{
    let cut = trim(input);
    let text = to_upper(cut.as_str());
    let chars = chars_of(text.as_str());
    if chars.len() == 0 {
        return Err(SizeError::Empty);
    }
    let end: usize = number_length(&chars);
    let number = text_of(&chars, 0, end);
    let suffix = text_of(&chars, end, chars.len());
    proof {
        assert(number@ =~= chars@.take(end as int));
        assert(suffix@ =~= chars@.skip(end as int));
    }
    let number_chars = chars_of(number.as_str());
    match read_number(&number_chars) {
        None => Err(SizeError::InvalidValue(input.to_owned())),
        Some((whole, frac)) => {
            if is_infinite(&whole, &frac) {
                return Err(SizeError::InvalidValue(input.to_owned()));
            }
            match read_suffix(suffix.as_str()) {
                None => Err(SizeError::UnsupportedSuffix(suffix)),
                Some(shift) => match shifted_value(&whole, &frac, shift) {
                    None => Err(SizeError::TooLarge(input.to_owned())),
                    Some(bytes) => Ok(bytes),
                },
            }
        },
    }
}

/// The unit in which a number of bytes is shown: the largest that it reaches.
pub open spec fn unit_bytes(bytes: nat) -> nat {
    if bytes < 1024 {
        1
    } else if bytes < 1048576 {
        1024
    } else if bytes < 1073741824 {
        1048576
    } else if bytes < 1099511627776 {
        1073741824
    } else {
        1099511627776
    }
}

pub open spec fn unit_name(unit: nat) -> Seq<char> {
    if unit == 1024 {
        "KiB"@
    } else if unit == 1048576 {
        "MiB"@
    } else if unit == 1073741824 {
        "GiB"@
    } else {
        "TiB"@
    }
}

/// A number of bytes in its unit, to one decimal place, a tie to the even digit. The number is
/// first held in floating point.
pub open spec fn size_text(bytes: nat) -> Seq<char> {
    let held = as_double(bytes);
    let unit = unit_bytes(held);
    if unit == 1 {
        decimal(bytes) + " B"@
    } else {
        let tenths = nearest_even(held * 10, unit);
        decimal(tenths / 10) + "."@ + decimal(tenths % 10) + " "@ + unit_name(unit)
    }
}

fn spacing_of(n: u64) -> (r: u64)
    ensures
        r == spacing(n as nat),
        r >= 1,
        r <= n || r == 1,
    decreases n,
{
    if n < 0x20_0000_0000_0000 {
        1
    } else {
        2 * spacing_of(n / 2)
    }
}

fn round_even(n: u128, d: u128) -> (r: u128)
    requires
        0 < d < 0x1_0000_0000_0000_0000,
        n < 0x1_0000_0000_0000_0000_0000_0000,
    ensures
        r == nearest_even(n as nat, d as nat),
        r <= n / d + 1,
{
    let whole: u128 = n / d;
    let rest: u128 = n % d;
    proof {
        assert(whole <= n) by (nonlinear_arith)
            requires
                whole == n / d,
                d > 0,
        ;
    }
    if 2 * rest < d || (2 * rest == d && whole % 2 == 0) {
        whole
    } else {
        whole + 1
    }
}

/// A number of bytes as people read it, such as `1.5 GiB`.
pub fn format_bytes(bytes: u64) -> (r: String)
    ensures
        r@ == size_text(bytes as nat),
{
    let step: u128 = spacing_of(bytes) as u128;
    let steps: u128 = round_even(bytes as u128, step);
    proof {
        let b = bytes as int;
        let s = step as int;
        assert((b / s + 1) * s <= b + s) by (nonlinear_arith)
            requires
                s > 0,
                b >= 0,
        ;
        assert(steps * s <= (b / s + 1) * s) by (nonlinear_arith)
            requires
                0 <= steps <= b / s + 1,
                s > 0,
        ;
    }
    let held: u128 = steps * step;
    let (unit, name): (u128, &str) = if held < 1024 {
        (1, "B")
    } else if held < 1048576 {
        (1024, "KiB")
    } else if held < 1073741824 {
        (1048576, "MiB")
    } else if held < 1099511627776 {
        (1073741824, "GiB")
    } else {
        (1099511627776, "TiB")
    };
    if unit == 1 {
        return decimal_text(bytes).concat(" B");
    }
    let tenths: u128 = round_even(held * 10, unit);
    proof {
        assert(held * 10 / (unit as int) <= held * 10 / 1024) by (nonlinear_arith)
            requires
                unit >= 1024,
                held >= 0,
        ;
    }
    let whole: u64 = (tenths / 10) as u64;
    let tenth: u64 = (tenths % 10) as u64;
    decimal_text(whole).concat(".").concat(decimal_text(tenth).as_str()).concat(" ").concat(name)
}

// ---------------------------------------------------------------------------------------
// Laws
// ---------------------------------------------------------------------------------------

/// Two texts give the same size, or both give none.
pub open spec fn same_size(a: Seq<char>, b: Seq<char>) -> bool {
    match (parsed_size(a), parsed_size(b)) {
        (Ok(x), Ok(y)) => x == y,
        (Err(_), Err(_)) => true,
        _ => false,
    }
}

proof fn lemma_upper_white(c: char)
    ensures
        is_white(ascii_upper(c)) == is_white(c),
        (is_digit(ascii_upper(c)) || ascii_upper(c) == '.') == (is_digit(c) || c == '.'),
        is_digit(c) ==> ascii_upper(c) == c,
{
}

proof fn lemma_upper_trim_left(s: Seq<char>)
    ensures
        upper(trim_left(s, Mark::White.accepts())) == trim_left(upper(s), Mark::White.accepts()),
    decreases s.len(),
{
    if s.len() > 0 {
        lemma_upper_white(s[0]);
        assert(upper(s)[0] == ascii_upper(s[0]));
        assert(upper(s).drop_first() =~= upper(s.drop_first()));
        lemma_upper_trim_left(s.drop_first());
    }
}

proof fn lemma_upper_trim_right(s: Seq<char>)
    ensures
        upper(trim_right(s, Mark::White.accepts())) == trim_right(upper(s), Mark::White.accepts()),
    decreases s.len(),
{
    if s.len() > 0 {
        lemma_upper_white(s.last());
        assert(upper(s).last() == ascii_upper(s.last()));
        assert(upper(s).drop_last() =~= upper(s.drop_last()));
        lemma_upper_trim_right(s.drop_last());
    }
}

proof fn lemma_upper_trimmed(s: Seq<char>)
    ensures
        upper(trimmed(s)) == trimmed(upper(s)),
{
    lemma_upper_trim_left(s);
    lemma_upper_trim_right(trim_left(s, Mark::White.accepts()));
}

/// Neither the case of ASCII letters nor white space around a size matters.
pub proof fn case_and_white_space_do_not_matter(
    front: Seq<char>,
    a: Seq<char>,
    back: Seq<char>,
    b: Seq<char>,
)
    requires
        all_white(front),
        all_white(back),
        upper(a) == upper(b),
    ensures
        same_size(front + a + back, b),
{
    white_around_is_trimmed(front, a, back);
    lemma_upper_trimmed(a);
    lemma_upper_trimmed(b);
}

/// A size starts with a digit or a point.
pub proof fn sizes_start_with_a_number(input: Seq<char>)
    requires
        trimmed(input).len() == 0 || !(is_digit(trimmed(input)[0]) || trimmed(input)[0] == '.'),
    ensures
        parsed_size(input) is Err,
{
    let text = upper(trimmed(input));
    if text.len() > 0 {
        lemma_upper_white(trimmed(input)[0]);
        assert(text[0] == ascii_upper(trimmed(input)[0]));
        assert(number_end(text, 0) == 0);
        assert(text.take(0).len() == 0);
        assert(split_first(text.take(0), '.') is None);
    }
}

/// The suffix, in upper case, stands for a unit of that many bytes.
pub open spec fn is_unit(suffix: Seq<char>, bytes: nat) -> bool {
    ||| bytes == 1 && (suffix == ""@ || suffix == "B"@)
    ||| bytes == 1024 && (suffix == "K"@ || suffix == "KB"@ || suffix == "KI"@ || suffix == "KIB"@)
    ||| bytes == 1048576 && (suffix == "M"@ || suffix == "MB"@ || suffix == "MI"@ || suffix
        == "MIB"@)
    ||| bytes == 1073741824 && (suffix == "G"@ || suffix == "GB"@ || suffix == "GI"@ || suffix
        == "GIB"@)
    ||| bytes == 1099511627776 && (suffix == "T"@ || suffix == "TB"@ || suffix == "TI"@ || suffix
        == "TIB"@)
}

/// A unit without the `B` behind it.
proof fn lemma_unit_letter(unit: Seq<char>)
    requires
        unit.len() == 0 || unit.last() != 'B',
    ensures
        trim_right(unit, Mark::Char('B').accepts()) == unit,
        trim_right(unit.push('B'), Mark::Char('B').accepts()) == unit,
{
    assert(unit.push('B').drop_last() =~= unit);
    reveal_with_fuel(trim_right, 2);
}

proof fn lemma_unit_shift(suffix: Seq<char>, bytes: nat)
    requires
        is_unit(suffix, bytes),
    ensures
        suffix_shift(suffix) is Some,
        pow2(suffix_shift(suffix)->Some_0) == bytes,
        forall|i: int| 0 <= i < suffix.len() ==> 'A' <= #[trigger] suffix[i] && suffix[i] <= 'Z',
{
    reveal_strlit("");
    reveal_strlit("B");
    reveal_strlit("K");
    reveal_strlit("KB");
    reveal_strlit("KI");
    reveal_strlit("KIB");
    reveal_strlit("M");
    reveal_strlit("MB");
    reveal_strlit("MI");
    reveal_strlit("MIB");
    reveal_strlit("G");
    reveal_strlit("GB");
    reveal_strlit("GI");
    reveal_strlit("GIB");
    reveal_strlit("T");
    reveal_strlit("TB");
    reveal_strlit("TI");
    reveal_strlit("TIB");
    assert(""@ =~= Seq::empty());
    assert("B"@ =~= ""@.push('B'));
    assert("KB"@ =~= "K"@.push('B') && "KIB"@ =~= "KI"@.push('B'));
    assert("MB"@ =~= "M"@.push('B') && "MIB"@ =~= "MI"@.push('B'));
    assert("GB"@ =~= "G"@.push('B') && "GIB"@ =~= "GI"@.push('B'));
    assert("TB"@ =~= "T"@.push('B') && "TIB"@ =~= "TI"@.push('B'));
    lemma_unit_letter(""@);
    lemma_unit_letter("K"@);
    lemma_unit_letter("KI"@);
    lemma_unit_letter("M"@);
    lemma_unit_letter("MI"@);
    lemma_unit_letter("G"@);
    lemma_unit_letter("GI"@);
    lemma_unit_letter("T"@);
    lemma_unit_letter("TI"@);
    assert("K"@[0] == 'K' && "M"@[0] == 'M' && "G"@[0] == 'G' && "T"@[0] == 'T');
    assert("KI"@[0] == 'K' && "MI"@[0] == 'M' && "GI"@[0] == 'G' && "TI"@[0] == 'T');
    lemma2_to64();
    lemma_pow2_adds(20, 20);
}

proof fn lemma_number_end(digits: Seq<char>, rest: Seq<char>, i: int)
    requires
        all_digits(digits),
        rest.len() > 0 ==> !is_digit(rest[0]) && rest[0] != '.',
        0 <= i <= digits.len(),
    ensures
        number_end(digits + rest, i) == digits.len(),
    decreases digits.len() - i,
{
    let s = digits + rest;
    if i < digits.len() {
        assert(s[i] == digits[i]);
        lemma_number_end(digits, rest, i + 1);
    } else if rest.len() > 0 {
        assert(s[i] == rest[0]);
    }
}

proof fn lemma_digit_values(s: Seq<char>)
    requires
        all_digits(s),
    ensures
        value(digit_values(s)) == digits_value(s),
    decreases s.len(),
{
    if s.len() > 0 {
        assert(all_digits(s.drop_last())) by {
            assert forall|i: int| 0 <= i < s.drop_last().len() implies is_digit(
                #[trigger] s.drop_last()[i],
            ) by {
                assert(is_digit(s[i]));
            }
        }
        lemma_digit_values(s.drop_last());
        assert(digit_values(s).drop_last() =~= digit_values(s.drop_last()));
        assert(is_digit(s[s.len() - 1]));
        assert(digit_values(s).last() == digit_value(s.last()) as u8);
    }
}

proof fn lemma_no_mark(s: Seq<char>, mark: char, from: int)
    requires
        forall|i: int| 0 <= i < s.len() ==> s[i] != mark,
        0 <= from <= s.len(),
    ensures
        position(s, mark, from) == s.len(),
    decreases s.len() - from,
{
    if from < s.len() {
        lemma_no_mark(s, mark, from + 1);
    }
}

/// A whole number with a unit is read exactly, up to `2^53` bytes.
pub proof fn whole_sizes_are_exact(n: nat, suffix: Seq<char>, bytes: nat)
    requires
        is_unit(upper(suffix), bytes),
        n * bytes <= 0x20_0000_0000_0000,
    ensures
        parsed_size(decimal(n) + suffix) == Ok::<nat, SizeFault>(n * bytes),
{
    let digits = decimal(n);
    let unit = upper(suffix);
    let input = digits + suffix;
    let text = digits + unit;
    let shift = suffix_shift(unit)->Some_0;
    lemma_unit_shift(unit, bytes);
    lemma_decimal_value(n);
    assert forall|i: int| 0 <= i < suffix.len() implies !is_white(#[trigger] suffix[i]) by {
        assert(unit[i] == ascii_upper(suffix[i]));
        lemma_upper_white(suffix[i]);
    }
    assert(is_digit(digits[0]) && is_digit(digits[digits.len() - 1]));
    assert(input[0] == digits[0]);
    assert(trim_left(input, Mark::White.accepts()) == input);
    if suffix.len() > 0 {
        assert(input.last() == suffix[suffix.len() - 1]);
    } else {
        assert(input.last() == digits.last());
    }
    assert(trimmed(input) == input);
    assert(upper(input) =~= text) by {
        assert forall|i: int| 0 <= i < digits.len() implies ascii_upper(#[trigger] digits[i])
            == digits[i] by {
            lemma_upper_white(digits[i]);
        }
    }
    if unit.len() > 0 {
        assert('A' <= unit[0] && unit[0] <= 'Z');
    }
    lemma_number_end(digits, unit, 0);
    assert(text.take(digits.len() as int) =~= digits);
    assert(text.skip(digits.len() as int) =~= unit);
    assert forall|i: int| 0 <= i < digits.len() implies digits[i] != '.' by {
        assert(is_digit(digits[i]));
    }
    lemma_no_mark(digits, '.', 0);
    lemma_digit_values(digits);
    lemma_whole_fraction(digit_values(digits));
    assert(pow2(53) == 0x20_0000_0000_0000) by {
        lemma2_to64();
        lemma_pow2_adds(32, 21);
    }
    small_wholes_are_exact(n, shift);
    let (p, q) = shifted_double(n, 1, shift);
    assert(nearest_up(p, q) == n * bytes);
    assert(double_limit() * 1 == double_limit());
}

/// A size is shown as a number of tenths of a unit.
pub open spec fn shown_as(text: Seq<char>, tenths: nat, unit: Seq<char>) -> bool {
    text == decimal(tenths / 10) + "."@ + decimal(tenths % 10) + " "@ + unit
}

/// A size is shown in the largest unit that it fills, to the nearest tenth of it; below 1024 bytes
/// it is shown as it is. This holds of every size that is held exactly, that is up to `2^53`.
pub proof fn sizes_are_shown_to_a_tenth(bytes: nat) -> (tenths: nat)
    requires
        bytes < 0x20_0000_0000_0000,
    ensures
        bytes < 1024 ==> size_text(bytes) == decimal(bytes) + " B"@,
        1024 <= bytes < 1_048_576 ==> shown_as(size_text(bytes), tenths, "KiB"@) && is_nearest(
            10 * bytes,
            tenths,
            1024,
        ),
        1_048_576 <= bytes < 1_073_741_824 ==> shown_as(size_text(bytes), tenths, "MiB"@)
            && is_nearest(10 * bytes, tenths, 1_048_576),
        1_073_741_824 <= bytes < 1_099_511_627_776 ==> shown_as(size_text(bytes), tenths, "GiB"@)
            && is_nearest(10 * bytes, tenths, 1_073_741_824),
        1_099_511_627_776 <= bytes ==> shown_as(size_text(bytes), tenths, "TiB"@) && is_nearest(
            10 * bytes,
            tenths,
            1_099_511_627_776,
        ),
{
    assert(spacing(bytes) == 1);
    assert(nearest_even(bytes, 1) == bytes) by {
        assert(bytes / 1 == bytes && bytes % 1 == 0);
    }
    assert(as_double(bytes) == bytes);
    let unit = unit_bytes(bytes);
    let tenths = nearest_even(bytes * 10, unit);
    lemma_nearest(bytes * 10, unit);
    tenths
}

/// `count` times `unit` is as near to `n` as a multiple of `unit` can be.
pub open spec fn is_nearest(n: nat, count: nat, unit: nat) -> bool {
    2 * (count * unit) <= 2 * n + unit && 2 * n <= 2 * (count * unit) + unit
}

proof fn lemma_nearest(n: nat, unit: nat)
    requires
        unit > 0,
    ensures
        is_nearest(n, nearest_even(n, unit), unit),
{
    let whole = (n / unit) as int;
    let rest = (n % unit) as int;
    let u = unit as int;
    lemma_fundamental_div_mod(n as int, u);
    assert(whole * u == u * whole) by (nonlinear_arith);
    assert((whole + 1) * u == whole * u + u) by (nonlinear_arith);
}

/// A size that is shown without a fraction is read back as it is.
pub proof fn whole_sizes_are_shown_and_read_back(bytes: nat)
    requires
        bytes < 1024,
    ensures
        size_text(bytes) == decimal(bytes) + " B"@,
        parsed_size(decimal(bytes) + "B"@) == Ok::<nat, SizeFault>(bytes),
{
    let tenths = sizes_are_shown_to_a_tenth(bytes);
    reveal_strlit("B");
    assert(upper("B"@) =~= "B"@) by {
        assert("B"@ =~= seq!['B']);
    }
    whole_sizes_are_exact(bytes, "B"@, 1);
}

/// A whole number with a unit is read as that many bytes, and what is read is shown again to a
/// tenth of its unit.
pub proof fn written_sizes_are_read(
    text: &str,
    read: Result<u64, SizeError>,
    n: nat,
    suffix: Seq<char>,
    bytes: nat,
)
    requires
        call_ensures(parse_size, (text,), read),
        text@ == decimal(n) + suffix,
        is_unit(upper(suffix), bytes),
        n * bytes <= 0x20_0000_0000_0000,
    ensures
        read matches Ok(size) && size == n * bytes,
{
    whole_sizes_are_exact(n, suffix, bytes);
}

/// What stands behind the number starts with one of the five units, in either case, or is nothing.
pub proof fn only_known_units_are_read(n: nat, suffix: Seq<char>)
    requires
        parsed_size(decimal(n) + suffix) is Ok,
        suffix.len() > 0,
        !is_digit(suffix[0]) && suffix[0] != '.',
        !is_white(suffix[0]) && !is_white(suffix.last()),
    ensures
        ({
            let unit = ascii_upper(suffix[0]);
            unit == 'B' || unit == 'K' || unit == 'M' || unit == 'G' || unit == 'T'
        }),
{
    let digits = decimal(n);
    let input = digits + suffix;
    let unit = upper(suffix);
    let text = digits + unit;
    lemma_decimal_value(n);
    assert(is_digit(digits[0]));
    assert(input[0] == digits[0] && input.last() == suffix.last());
    assert(trim_left(input, Mark::White.accepts()) == input);
    assert(trimmed(input) == input);
    assert(upper(input) =~= text) by {
        assert forall|i: int| 0 <= i < digits.len() implies ascii_upper(#[trigger] digits[i])
            == digits[i] by {
            lemma_upper_white(digits[i]);
        }
    }
    assert(unit[0] == ascii_upper(suffix[0]));
    lemma_upper_white(suffix[0]);
    lemma_number_end(digits, unit, 0);
    assert(text.skip(digits.len() as int) =~= unit);
    assert(suffix_shift(unit) is Some);
    let bare = trim_right(unit, Mark::Char('B').accepts());
    lemma_trimmed_start(unit);
    reveal_strlit("");
    reveal_strlit("K");
    reveal_strlit("KI");
    reveal_strlit("M");
    reveal_strlit("MI");
    reveal_strlit("G");
    reveal_strlit("GI");
    reveal_strlit("T");
    reveal_strlit("TI");
    assert("K"@[0] == 'K' && "M"@[0] == 'M' && "G"@[0] == 'G' && "T"@[0] == 'T');
    assert("KI"@[0] == 'K' && "MI"@[0] == 'M' && "GI"@[0] == 'G' && "TI"@[0] == 'T');
}

proof fn lemma_trimmed_start(s: Seq<char>)
    ensures
        ({
            let bare = trim_right(s, Mark::Char('B').accepts());
            if bare.len() > 0 {
                bare[0] == s[0]
            } else {
                s.len() == 0 || s[0] == 'B'
            }
        }),
    decreases s.len(),
{
    if s.len() > 0 && s.last() == 'B' {
        lemma_trimmed_start(s.drop_last());
    }
}

/// A number with digits behind the point is read exactly where it stands for a number of halves,
/// quarters or other such parts of the unit, however many digits it takes to write it.
pub proof fn parts_of_a_unit_are_exact(
    whole: Seq<char>,
    frac: Seq<char>,
    suffix: Seq<char>,
    bytes: nat,
    parts: nat,
    j: nat,
)
    requires
        whole.len() > 0 && all_digits(whole),
        all_digits(frac),
        is_unit(upper(suffix), bytes),
        digits_value(whole + frac) * pow2(j) == parts * ten(frac.len()),
        parts * bytes <= 0x20_0000_0000_0000 * pow2(j),
        parts < 0x20_0000_0000_0000,
        pow2(j) <= bytes,
    ensures
        parsed_size(whole.push('.') + frac + suffix) matches Ok(size) && size * pow2(j) == parts
            * bytes,
{
    let number = whole.push('.') + frac;
    let unit = upper(suffix);
    let input = number + suffix;
    let text = number + unit;
    let shift = suffix_shift(unit)->Some_0;
    lemma_unit_shift(unit, bytes);
    assert forall|i: int| 0 <= i < suffix.len() implies !is_white(#[trigger] suffix[i]) by {
        assert(unit[i] == ascii_upper(suffix[i]));
        lemma_upper_white(suffix[i]);
    }
    assert(is_digit(whole[0]));
    assert(input[0] == whole[0]);
    assert(trim_left(input, Mark::White.accepts()) == input);
    assert(!is_white(input.last())) by {
        if suffix.len() > 0 {
            assert(input.last() == suffix[suffix.len() - 1]);
        } else if frac.len() > 0 {
            assert(input.last() == frac[frac.len() - 1]);
            assert(is_digit(frac[frac.len() - 1]));
        } else {
            assert(input.last() == '.');
        }
    }
    assert(trimmed(input) == input);
    assert forall|i: int| 0 <= i < number.len() implies (is_digit(#[trigger] number[i]) || number[i]
        == '.') && ascii_upper(number[i]) == number[i] by {
        if i < whole.len() {
            assert(is_digit(whole[i]));
        } else if i > whole.len() {
            assert(is_digit(frac[i - whole.len() - 1]));
        }
    }
    assert(upper(input) =~= text);
    if unit.len() > 0 {
        assert('A' <= unit[0] && unit[0] <= 'Z');
    }
    lemma_number_stops(number, unit, 0);
    assert(text.take(number.len() as int) =~= number);
    assert(text.skip(number.len() as int) =~= unit);
    assert(!whole.contains('.')) by {
        if whole.contains('.') {
            let i = choose|i: int| 0 <= i < whole.len() && whole[i] == '.';
            assert(is_digit(whole[i]));
        }
    }
    assert(!frac.contains('.')) by {
        if frac.contains('.') {
            let i = choose|i: int| 0 <= i < frac.len() && frac[i] == '.';
            assert(is_digit(frac[i]));
        }
    }
    first_mark_parts(whole, '.', frac);
    let digits = whole + frac;
    assert(all_digits(digits)) by {
        assert forall|i: int| 0 <= i < digits.len() implies is_digit(#[trigger] digits[i]) by {
            if i < whole.len() {
                assert(is_digit(whole[i]));
            } else {
                assert(is_digit(frac[i - whole.len()]));
            }
        }
    }
    lemma_digit_values(digits);
    assert(digit_values(whole) + digit_values(frac) =~= digit_values(digits));
    assert(digit_values(frac).len() == frac.len());
    let n = digits_value(digits);
    let d = ten(frac.len());
    assert(decimal_fraction(digit_values(whole), digit_values(frac)) == (n, d));
    assert(pow2(53) == 0x20_0000_0000_0000) by {
        lemma2_to64();
        lemma_pow2_adds(32, 21);
    }
    if shift < j {
        lemma_pow2_strictly_increases(shift, j);
    }
    lemma_pow2_adds(j, (shift - j) as nat);
    lemma_pow2_pos(j);
    lemma_pow2_pos((shift - j) as nat);
    lemma_pow2_strictly_increases(53, 64);
    let twos = pow2(j) as int;
    let part = pow2((shift - j) as nat) as int;
    let size = parts as int * part;
    let (many, top) = (parts as int, pow2(53) as int);
    assert(bytes == twos * part);
    assert(size * twos == many * bytes) by (nonlinear_arith)
        requires
            size == many * part,
            bytes == twos * part,
    ;
    assert(size <= top) by (nonlinear_arith)
        requires
            size * twos == many * bytes,
            many * bytes <= top * twos,
            twos >= 1,
    ;
    lemma_tens(frac.len());
    dyadic_fractions_are_exact(n, d, parts, j, shift);
}

proof fn lemma_number_stops(number: Seq<char>, rest: Seq<char>, i: int)
    requires
        forall|k: int|
            0 <= k < number.len() ==> is_digit(#[trigger] number[k]) || number[k] == '.',
        rest.len() > 0 ==> !is_digit(rest[0]) && rest[0] != '.',
        0 <= i <= number.len(),
    ensures
        number_end(number + rest, i) == number.len(),
    decreases number.len() - i,
{
    let s = number + rest;
    if i < number.len() {
        assert(s[i] == number[i]);
        lemma_number_stops(number, rest, i + 1);
    } else if rest.len() > 0 {
        assert(s[i] == rest[0]);
    }
}

proof fn lemma_tens(e: nat)
    ensures
        ten(e) > 0,
{
    lemma_pow_positive(10, e);
}

} // verus!
