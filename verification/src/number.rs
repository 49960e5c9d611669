//! Natural numbers written in decimal.
use vstd::prelude::*;
use vstd::string::*;

use crate::text::{chars_of, is_digit, is_white, no_white};

verus! {

pub open spec fn digit_char(digit: nat) -> char {
    ((48 + digit) as u8) as char
}

pub open spec fn digit_value(c: char) -> nat {
    (c as u32 - 48) as nat
}

/// `n` in decimal, without leading zeros.
pub open spec fn decimal(n: nat) -> Seq<char>
    decreases n,
{
    if n < 10 {
        seq![digit_char(n)]
    } else {
        decimal(n / 10).push(digit_char(n % 10))
    }
}

pub open spec fn all_digits(s: Seq<char>) -> bool {
    forall|i: int| 0 <= i < s.len() ==> is_digit(#[trigger] s[i])
}

/// The number that a text of decimal digits stands for.
pub open spec fn digits_value(s: Seq<char>) -> nat
    decreases s.len(),
{
    if s.len() == 0 {
        0
    } else {
        digits_value(s.drop_last()) * 10 + digit_value(s.last())
    }
}

/// A text without the one plus sign that may stand in front of a number.
pub open spec fn unsigned_part(s: Seq<char>) -> Seq<char> {
    if s.len() > 0 && s[0] == '+' {
        s.drop_first()
    } else {
        s
    }
}

/// The number that `s` stands for: decimal digits behind an optional plus sign, up to `max`.
pub open spec fn number_up_to(s: Seq<char>, max: nat) -> Option<nat> {
    let digits = unsigned_part(s);
    if digits.len() > 0 && all_digits(digits) && digits_value(digits) <= max {
        Some(digits_value(digits))
    } else {
        None
    }
}

/// `n` in decimal.
pub fn decimal_text(n: u64) -> (r: String)
    ensures
        r@ == decimal(n as nat),
    decreases n,
{
    let digit = ((48 + n % 10) as u8) as char;
    if n < 10 {
        let mut out = String::new();
        out.push(digit);
        proof {
            assert(out@ =~= decimal(n as nat));
        }
        out
    } else {
        let mut out = decimal_text(n / 10);
        out.push(digit);
        out
    }
}

/// `n` in decimal.
pub fn count_text(n: usize) -> (r: String)
    ensures
        r@ == decimal(n as nat),
{
    decimal_text(n as u64)
}

proof fn lemma_value_grows(s: Seq<char>, i: int)
    requires
        all_digits(s),
        0 <= i <= s.len(),
    ensures
        digits_value(s.take(i)) <= digits_value(s),
    decreases s.len(),
{
    if i < s.len() {
        lemma_value_grows(s.drop_last(), i);
        assert(s.drop_last().take(i) =~= s.take(i));
    } else {
        assert(s.take(i) =~= s);
    }
}

/// The number that `s` stands for, if it fits in 64 bits.
pub fn parse_u64(s: &str) -> (r: Option<u64>)
    ensures
        match r {
            Some(n) => number_up_to(s@, u64::MAX as nat) == Some(n as nat),
            None => number_up_to(s@, u64::MAX as nat) is None,
        },
{
    let chars = chars_of(s);
    let start: usize = if chars.len() > 0 && chars[0] == '+' { 1 } else { 0 };
    let ghost digits = unsigned_part(s@);
    proof {
        assert(digits =~= s@.skip(start as int));
    }
    if start == chars.len() {
        return None;
    }
    let mut value: u64 = 0;
    let mut i: usize = start;
    while i < chars.len()
        invariant
            start <= i <= chars@.len(),
            chars@ == s@,
            digits == s@.skip(start as int),
            forall|j: int| 0 <= j < i - start ==> is_digit(#[trigger] digits[j]),
            value as nat == digits_value(digits.take(i - start)),
            digits == unsigned_part(s@),
        decreases chars.len() - i,
    {
        let c = chars[i];
        proof {
            assert(digits[i - start] == c);
            assert(digits.take(i - start + 1).drop_last() =~= digits.take(i - start));
        }
        if !('0' <= c && c <= '9') {
            return None;
        }
        let digit: u64 = (c as u32 - 48) as u64;
        if value > (u64::MAX - digit) / 10 {
            proof {
                if all_digits(digits) {
                    lemma_value_grows(digits, i - start + 1);
                }
            }
            return None;
        }
        value = value * 10 + digit;
        i = i + 1;
    }
    proof {
        assert(digits.take(digits.len() as int) =~= digits);
    }
    Some(value)
}

pub proof fn lemma_decimal_value(n: nat)
    ensures
        all_digits(decimal(n)),
        decimal(n).len() > 0,
        digits_value(decimal(n)) == n,
    decreases n,
{
    reveal_with_fuel(digits_value, 2);
    if n >= 10 {
        lemma_decimal_value(n / 10);
        assert(decimal(n).drop_last() =~= decimal(n / 10));
    } else {
        assert(decimal(n).drop_last() =~= Seq::<char>::empty());
    }
}

/// A number written in decimal holds no white space.
pub proof fn decimal_holds_no_white(n: nat)
    ensures
        decimal(n).len() > 0,
        no_white(decimal(n)),
        !decimal(n).contains('\n'),
{
    lemma_decimal_value(n);
    assert forall|i: int| 0 <= i < decimal(n).len() implies !is_white(#[trigger] decimal(n)[i])
        && decimal(n)[i] != '\n' by {
        assert(is_digit(decimal(n)[i]));
    }
}

/// One more digit makes a number ten times as large, and adds its own value.
pub proof fn digits_count_by_place(s: Seq<char>, digit: nat)
    requires
        digit < 10,
    ensures
        digits_value(s.push(digit_char(digit))) == 10 * digits_value(s) + digit,
{
    assert(s.push(digit_char(digit)).drop_last() =~= s);
}

/// A text is a number exactly where it holds digits alone, at least one, behind at most one plus
/// sign, and the number is not too large; a larger limit changes no number.
pub proof fn numbers_are_digits(s: Seq<char>, max: nat, larger: nat)
    requires
        max <= larger,
    ensures
        s.len() == 0 ==> number_up_to(s, max) is None,
        number_up_to(s, max) matches Some(n) ==> n <= max && number_up_to(s, larger) == Some(n),
        number_up_to(s, max) is Some ==> forall|i: int|
            0 <= i < s.len() ==> is_digit(#[trigger] s[i]) || (i == 0 && s[0] == '+'),
        s.len() > 0 && all_digits(s) ==> number_up_to(s, larger) == number_up_to(
            seq!['+'] + s,
            larger,
        ),
        s.len() > 0 && all_digits(s) && number_up_to(s, larger) is None ==> digits_value(s)
            > larger,
{
    if s.len() > 0 && all_digits(s) {
        assert(is_digit(s[0]));
        assert((seq!['+'] + s).drop_first() =~= s);
    }
    if number_up_to(s, max) is Some {
        let digits = unsigned_part(s);
        assert forall|i: int| 0 <= i < s.len() implies is_digit(#[trigger] s[i]) || (i == 0 && s[0]
            == '+') by {
            if s[0] == '+' {
                if i > 0 {
                    assert(digits[i - 1] == s[i]);
                }
            } else {
                assert(digits[i] == s[i]);
            }
        }
    }
}

/// A number that was written in decimal is read back unchanged.
pub proof fn decimal_is_read_back(n: u64)
    ensures
        number_up_to(decimal(n as nat), u64::MAX as nat) == Some(n as nat),
{
    lemma_decimal_value(n as nat);
    assert(is_digit(decimal(n as nat)[0]));
    assert(unsigned_part(decimal(n as nat)) == decimal(n as nat));
}

} // verus!
