//! Decimal numbers as binary64 floating point holds them, in integer arithmetic.
//!
//! A decimal number is rounded to the nearest value with 53 significant bits, a tie to the even
//! one. Multiplying such a value by a power of two changes nothing but its exponent.
use vstd::arithmetic::div_mod::*;
use vstd::arithmetic::mul::*;
use vstd::arithmetic::power::*;
use vstd::arithmetic::power2::*;
use vstd::prelude::*;

verus! {

/// `n / d` to the nearest integer, a tie to the even one.
pub open spec fn nearest_even(n: nat, d: nat) -> nat {
    let whole = n / d;
    let rest = n % d;
    if 2 * rest < d || (2 * rest == d && whole % 2 == 0) {
        whole
    } else {
        whole + 1
    }
}

/// `n / d` to the nearest integer, a tie away from zero.
pub open spec fn nearest_up(n: nat, d: nat) -> nat {
    (2 * n + d) / (2 * d)
}

/// The distance between neighbouring values with 53 significant bits around `n`.
pub open spec fn spacing(n: nat) -> nat
    decreases n,
{
    if n < 0x20_0000_0000_0000 {
        1
    } else {
        2 * spacing(n / 2)
    }
}

/// The value with 53 significant bits nearest to `n`.
pub open spec fn as_double(n: nat) -> nat {
    nearest_even(n, spacing(n)) * spacing(n)
}

/// Two to the power `e` where `e` is positive, else one.
pub open spec fn two_up(e: int) -> nat {
    if e > 0 {
        pow2(e as nat)
    } else {
        1
    }
}

/// Two to the power `-e` where `e` is negative, else one.
pub open spec fn two_down(e: int) -> nat {
    if e < 0 {
        pow2((-e) as nat)
    } else {
        1
    }
}

/// Around `n / d`, neighbouring values with 53 significant bits lie two to the power `e` apart.
pub open spec fn is_exponent(n: nat, d: nat, e: int) -> bool {
    &&& pow2(52) * (d * two_up(e)) <= n * two_down(e)
    &&& n * two_down(e) < pow2(53) * (d * two_up(e))
}

pub open spec fn exponent(n: nat, d: nat) -> int {
    choose|e: int| is_exponent(n, d, e)
}

/// The significant bits of the floating point value nearest to `n / d`.
pub open spec fn significand(n: nat, d: nat, e: int) -> nat {
    nearest_even(n * two_down(e), d * two_up(e))
}

/// The floating point value nearest to `n / d`, times two to the power `shift`, as a fraction.
pub open spec fn shifted_double(n: nat, d: nat, shift: nat) -> (nat, nat) {
    if n == 0 {
        (0, 1)
    } else {
        let e = exponent(n, d);
        (significand(n, d, e) * two_up(e) * pow2(shift), two_down(e))
    }
}

/// From here on a number rounds to infinity.
pub open spec fn double_limit() -> nat {
    (pow2(1024) - pow2(970)) as nat
}

/// The number that decimal digits stand for, the most significant first.
pub open spec fn value(digits: Seq<u8>) -> nat
    decreases digits.len(),
{
    if digits.len() == 0 {
        0
    } else {
        value(digits.drop_last()) * 10 + digits.last() as nat
    }
}

pub open spec fn are_digits(digits: Seq<u8>) -> bool {
    forall|i: int| 0 <= i < digits.len() ==> #[trigger] digits[i] <= 9
}

/// Ten to the power `e`.
pub open spec fn ten(e: nat) -> nat {
    pow(10, e) as nat
}

proof fn lemma_ten(e: nat)
    ensures
        ten(0) == 1,
        ten(e) > 0,
        ten(e + 1) == 10 * ten(e),
{
    lemma_pow0(10);
    lemma_pow_positive(10, e);
    lemma_pow_positive(10, e + 1);
    reveal(pow);
    assert(pow(10, (e + 1) as nat) == 10 * pow(10, e));
}

proof fn lemma_value_split(digits: Seq<u8>, i: int)
    requires
        0 <= i <= digits.len(),
    ensures
        value(digits) == value(digits.take(i)) * ten((digits.len() - i) as nat) + value(
            digits.skip(i),
        ),
    decreases digits.len(),
{
    let n = digits.len() as int;
    if i == n {
        assert(digits.take(i) =~= digits);
        assert(digits.skip(i) =~= Seq::<u8>::empty());
        lemma_ten(0);
        assert((digits.len() - i) as nat == 0);
        assert(value(Seq::<u8>::empty()) == 0);
        assert(value(digits) * ten(0) == value(digits)) by (nonlinear_arith)
            requires
                ten(0) == 1,
        ;
    } else {
        let init = digits.drop_last();
        lemma_value_split(init, i);
        assert(init.take(i) =~= digits.take(i));
        assert(digits.skip(i).drop_last() =~= init.skip(i));
        lemma_ten((n - 1 - i) as nat);
        let a = value(digits.take(i)) as int;
        let p = ten((n - 1 - i) as nat) as int;
        let v = value(init.skip(i)) as int;
        assert((n - i) as nat == (n - 1 - i) as nat + 1);
        assert(digits.skip(i).last() == digits.last());
        assert((a * p + v) * 10 == a * (10 * p) + v * 10) by (nonlinear_arith);
        assert(value(digits) == (a * p + v) * 10 + digits.last());
        assert(value(digits.skip(i)) == v * 10 + digits.last());
    }
}

proof fn lemma_value_first(digits: Seq<u8>)
    requires
        digits.len() > 0,
    ensures
        value(digits) == digits[0] * ten((digits.len() - 1) as nat) + value(digits.skip(1)),
{
    lemma_value_split(digits, 1);
    assert(digits.take(1).drop_last() =~= Seq::<u8>::empty());
    assert(value(digits.take(1)) == digits[0]) by {
        reveal_with_fuel(value, 2);
    }
}

proof fn lemma_value_bound(digits: Seq<u8>)
    requires
        are_digits(digits),
    ensures
        value(digits) < ten(digits.len()),
    decreases digits.len(),
{
    lemma_ten(0);
    if digits.len() > 0 {
        lemma_value_bound(digits.drop_last());
        lemma_ten((digits.len() - 1) as nat);
    }
}

/// The digits of `n`.
fn digits_of(n: u64) -> (r: Vec<u8>)
    ensures
        are_digits(r@),
        value(r@) == n,
    decreases n,
{
    let last: u8 = (n % 10) as u8;
    if n < 10 {
        let mut out: Vec<u8> = Vec::new();
        out.push(last);
        proof {
            reveal_with_fuel(value, 2);
            assert(out@.drop_last() =~= Seq::<u8>::empty());
        }
        out
    } else {
        let mut out = digits_of(n / 10);
        let ghost before = out@;
        out.push(last);
        proof {
            assert(out@.drop_last() =~= before);
        }
        out
    }
}

/// Doubles the number in place and returns what runs over.
fn double_digits(digits: &mut Vec<u8>) -> (carry: u8)
    requires
        are_digits(old(digits)@),
    ensures
        final(digits)@.len() == old(digits)@.len(),
        are_digits(final(digits)@),
        carry <= 1,
        value(final(digits)@) + carry * ten(old(digits)@.len()) == 2 * value(old(digits)@),
{
    let ghost before = digits@;
    let ghost n = digits@.len() as int;
    let mut carry: u8 = 0;
    let mut i: usize = digits.len();
    proof {
        assert(before.skip(n) =~= Seq::<u8>::empty());
        assert(digits@.skip(n) =~= Seq::<u8>::empty());
    }
    while i > 0
        invariant
            i <= n,
            digits@.len() == n,
            before.len() == n,
            are_digits(before),
            are_digits(digits@),
            carry <= 1,
            forall|j: int| 0 <= j < i ==> digits@[j] == before[j],
            value(digits@.skip(i as int)) + carry * ten((n - i) as nat) == 2 * value(
                before.skip(i as int),
            ),
        decreases i,
    {
        let ghost rest = digits@.skip(i as int);
        let sum: u8 = digits[i - 1] * 2 + carry;
        let digit: u8 = sum % 10;
        let over: u8 = sum / 10;
        let ghost old_carry = carry as int;
        digits.set(i - 1, digit);
        carry = over;
        proof {
            let now = digits@.skip(i - 1);
            let was = before.skip(i - 1);
            lemma_value_first(now);
            lemma_value_first(was);
            assert(now.skip(1) =~= rest);
            assert(was.skip(1) =~= before.skip(i as int));
            lemma_ten((n - i) as nat);
            let p = ten((n - i) as nat) as int;
            let v = value(rest) as int;
            let w = value(before.skip(i as int)) as int;
            let y = digit as int;
            let c = over as int;
            let o = before[i - 1] as int;
            assert(y * p + v + c * (10 * p) == 2 * (o * p + w)) by (nonlinear_arith)
                requires
                    10 * c + y == 2 * o + old_carry,
                    v + old_carry * p == 2 * w,
            ;
        }
        i = i - 1;
    }
    proof {
        assert(before.skip(0) =~= before);
        assert(digits@.skip(0) =~= digits@);
    }
    carry
}

proof fn lemma_greater(a: Seq<u8>, b: Seq<u8>, i: int)
    requires
        are_digits(a),
        are_digits(b),
        a.len() == b.len(),
        0 <= i < a.len(),
        a.take(i) == b.take(i),
        a[i] > b[i],
    ensures
        value(a) > value(b),
{
    lemma_value_split(a, i);
    lemma_value_split(b, i);
    lemma_value_first(a.skip(i));
    lemma_value_first(b.skip(i));
    lemma_value_bound(b.skip(i).skip(1));
    let p = ten((a.len() - i - 1) as nat) as int;
    lemma_ten((a.len() - i - 1) as nat);
    let x = a[i] as int;
    let y = b[i] as int;
    assert(x * p >= y * p + p) by (nonlinear_arith)
        requires
            x >= y + 1,
            p > 0,
    ;
}

/// Whether the number `a` is at least `b`, both of as many digits.
fn is_at_least(a: &Vec<u8>, b: &Vec<u8>) -> (r: bool)
    requires
        are_digits(a@),
        are_digits(b@),
        a@.len() == b@.len(),
    ensures
        r == (value(a@) >= value(b@)),
{
    let mut i: usize = 0;
    while i < a.len()
        invariant
            i <= a@.len(),
            a@.len() == b@.len(),
            are_digits(a@),
            are_digits(b@),
            a@.take(i as int) == b@.take(i as int),
        decreases a.len() - i,
    {
        if a[i] > b[i] {
            proof {
                lemma_greater(a@, b@, i as int);
            }
            return true;
        }
        if a[i] < b[i] {
            proof {
                lemma_greater(b@, a@, i as int);
            }
            return false;
        }
        proof {
            assert(a@.take(i + 1) =~= a@.take(i as int).push(a@[i as int]));
            assert(b@.take(i + 1) =~= b@.take(i as int).push(b@[i as int]));
        }
        i = i + 1;
    }
    proof {
        assert(a@.take(i as int) =~= a@);
        assert(b@.take(i as int) =~= b@);
    }
    true
}

proof fn lemma_leading_zero(digits: Seq<u8>)
    ensures
        value(seq![0u8] + digits) == value(digits),
        are_digits(digits) ==> are_digits(seq![0u8] + digits),
{
    lemma_value_first(seq![0u8] + digits);
    let p = ten(digits.len()) as int;
    assert(0 * p == 0) by (nonlinear_arith);
    assert((seq![0u8] + digits).skip(1) =~= digits);
}

/// The digits with zeros in front, `width` of them if there were fewer.
fn widen(digits: &Vec<u8>, width: usize) -> (r: Vec<u8>)
    requires
        are_digits(digits@),
    ensures
        are_digits(r@),
        value(r@) == value(digits@),
        r@.len() == if digits@.len() < width { width as nat } else { digits@.len() },
{
    let mut out: Vec<u8> = Vec::new();
    let mut i: usize = 0;
    while i < digits.len()
        invariant
            i <= digits@.len(),
            out@ == digits@.take(i as int),
        decreases digits.len() - i,
    {
        out.push(digits[i]);
        proof {
            assert(digits@.take(i + 1) =~= digits@.take(i as int).push(digits@[i as int]));
        }
        i = i + 1;
    }
    proof {
        assert(digits@.take(digits@.len() as int) =~= digits@);
    }
    while out.len() < width
        invariant
            are_digits(out@),
            value(out@) == value(digits@),
            out@.len() >= digits@.len(),
            out@.len() == digits@.len() || out@.len() <= width,
        decreases width - out.len(),
    {
        let ghost before = out@;
        out.insert(0, 0);
        proof {
            assert(out@ =~= seq![0u8] + before);
            lemma_leading_zero(before);
        }
    }
    out
}

/// The digits of the least number that rounds to infinity.
fn limit_digits() -> (r: Vec<u8>)
    ensures
        are_digits(r@),
        value(r@) == double_limit(),
{
    let mut out = digits_of(0x3f_ffff_ffff_ffff);
    let mut k: u64 = 0;
    proof {
        lemma2_to64();
    }
    while k < 970
        invariant
            k <= 970,
            are_digits(out@),
            value(out@) == 0x3f_ffff_ffff_ffff * pow2(k as nat),
        decreases 970 - k,
    {
        let ghost before = out@;
        let carry: u8 = double_digits(&mut out);
        let ghost doubled = out@;
        if carry > 0 {
            out.insert(0, 1);
            proof {
                assert(out@ =~= seq![1u8] + doubled);
                lemma_value_first(out@);
                assert(out@.skip(1) =~= doubled);
            }
        }
        proof {
            lemma_pow2_unfold((k + 1) as nat);
            assert(value(out@) == 2 * value(before));
        }
        k = k + 1;
    }
    proof {
        lemma2_to64_rest();
        lemma_pow2_adds(54, 970);
        let p = pow2(970) as int;
        assert((0x40_0000_0000_0000 - 1) * p == 0x40_0000_0000_0000 * p - p) by (nonlinear_arith);
    }
    out
}

/// Whether the number is so large that it rounds to infinity.
fn reaches_limit(whole: &Vec<u8>) -> (r: bool)
    requires
        are_digits(whole@),
    ensures
        r == (value(whole@) >= double_limit()),
{
    let limit = limit_digits();
    let a = widen(whole, limit.len());
    let b = widen(&limit, whole.len());
    is_at_least(&a, &b)
}


// ---------------------------------------------------------------------------------------
// The exponent
// ---------------------------------------------------------------------------------------

proof fn lemma_two_grows(low: int, high: int)
    requires
        low < high,
    ensures
        two_up(high) * two_down(low) >= 2 * (two_up(low) * two_down(high)),
{
    let (ul, dl, uh, dh) = (
        two_up(low) as int,
        two_down(low) as int,
        two_up(high) as int,
        two_down(high) as int,
    );
    lemma2_to64();
    let gap = (high - low) as nat;
    lemma_pow2_unfold(gap);
    lemma_pow2_pos((gap - 1) as nat);
    let b = pow2(gap) as int;
    if high <= 0 {
        lemma_pow2_adds((-high) as nat, gap);
        assert((-low) as nat == (-high) as nat + gap);
        assert(dl == dh * b);
        lemma_two_positive(high);
        assert(uh * dl >= 2 * (ul * dh)) by (nonlinear_arith)
            requires
                uh == 1,
                ul == 1,
                dl == dh * b,
                dh > 0,
                b >= 2,
        ;
    } else if low >= 0 {
        lemma_pow2_adds(low as nat, gap);
        assert(high as nat == low as nat + gap);
        assert(uh == ul * b);
        lemma_two_positive(low);
        assert(uh * dl >= 2 * (ul * dh)) by (nonlinear_arith)
            requires
                dl == 1,
                dh == 1,
                uh == ul * b,
                ul > 0,
                b >= 2,
        ;
    } else {
        lemma_pow2_unfold(high as nat);
        lemma_pow2_pos((high - 1) as nat);
        lemma_two_positive(low);
        assert(uh * dl >= 2 * (ul * dh)) by (nonlinear_arith)
            requires
                uh >= 2,
                dl >= 1,
                ul == 1,
                dh == 1,
        ;
    }
}

proof fn lemma_two_positive(e: int)
    ensures
        two_up(e) > 0,
        two_down(e) > 0,
{
    if e > 0 {
        lemma_pow2_pos(e as nat);
    }
    if e < 0 {
        lemma_pow2_pos((-e) as nat);
    }
}

proof fn lemma_exponents_ordered(n: nat, d: nat, low: int, high: int)
    requires
        n > 0,
        d > 0,
        low < high,
        is_exponent(n, d, low),
    ensures
        !is_exponent(n, d, high),
{
    lemma_two_grows(low, high);
    lemma_two_positive(low);
    lemma_two_positive(high);
    lemma_pow2_unfold(53);
    let p = pow2(52) as int;
    lemma_pow2_pos(52);
    let (ul, dl, uh, dh) = (
        two_up(low) as int,
        two_down(low) as int,
        two_up(high) as int,
        two_down(high) as int,
    );
    let ni = n as int;
    let di = d as int;
    assert(ni * dl < (2 * p) * (di * ul));
    if p * (di * uh) <= ni * dh {
        assert(ni * dh * dl >= p * di * (uh * dl)) by (nonlinear_arith)
            requires
                p * (di * uh) <= ni * dh,
                dl > 0,
        ;
    }
    assert(p * di * (uh * dl) >= p * di * (2 * (ul * dh))) by (nonlinear_arith)
        requires
            uh * dl >= 2 * (ul * dh),
            p > 0,
            di > 0,
    ;
    assert(p * di * (2 * (ul * dh)) > ni * dl * dh) by (nonlinear_arith)
        requires
            ni * dl < (2 * p) * (di * ul),
            dh > 0,
    ;
    assert(ni * dh * dl == ni * dl * dh) by (nonlinear_arith);
}

/// A positive fraction has one exponent.
proof fn lemma_exponent(n: nat, d: nat, e: int)
    requires
        n > 0,
        d > 0,
        is_exponent(n, d, e),
    ensures
        exponent(n, d) == e,
{
    let other = exponent(n, d);
    assert(is_exponent(n, d, other));
    if e < other {
        lemma_exponents_ordered(n, d, e, other);
    } else if other < e {
        lemma_exponents_ordered(n, d, other, e);
    }
}

proof fn lemma_small_has_exponent(n: nat, d: nat, k: nat)
    requires
        n > 0,
        d > 0,
        n * pow2(k) < pow2(53) * d,
    ensures
        exists|e: int| is_exponent(n, d, e),
    decreases pow2(53) * d - n * pow2(k),
{
    lemma_pow2_pos(k);
    if n * pow2(k) >= pow2(52) * d {
        let e = -(k as int);
        lemma2_to64();
        assert(two_up(e) == 1);
        assert(two_down(e) == pow2(k));
        assert(d * two_up(e) == d) by (nonlinear_arith)
            requires
                two_up(e) == 1,
        ;
        assert(is_exponent(n, d, e));
    } else {
        lemma_pow2_unfold(k + 1);
        lemma_pow2_unfold(53);
        let p = pow2(k) as int;
        let m = n as int;
        assert(m * (2 * p) == 2 * (m * p)) by (nonlinear_arith);
        assert(m * p > 0) by (nonlinear_arith)
            requires
                m > 0,
                p > 0,
        ;
        let c = pow2(52) as int;
        let di = d as int;
        assert((2 * c) * di == 2 * (c * di)) by (nonlinear_arith);
        lemma_small_has_exponent(n, d, k + 1);
    }
}

proof fn lemma_large_has_exponent(n: nat, d: nat, k: nat)
    requires
        d > 0,
        k > 0,
        n >= pow2(52) * (d * pow2(k)),
    ensures
        exists|e: int| is_exponent(n, d, e) && e > 0,
    decreases n - d * pow2(k),
{
    lemma_pow2_pos(k);
    lemma_pow2_pos(52);
    lemma_pow2_unfold(53);
    lemma_pow2_unfold(k + 1);
    let p = pow2(k) as int;
    let di = d as int;
    let c = pow2(52) as int;
    assert(di * p > 0) by (nonlinear_arith)
        requires
            di > 0,
            p > 0,
    ;
    if n < pow2(53) * (d * pow2(k)) {
        assert(n * two_down(k as int) == n) by (nonlinear_arith)
            requires
                two_down(k as int) == 1,
        ;
        assert(is_exponent(n, d, k as int));
    } else {
        assert(c * (di * (2 * p)) == (2 * c) * (di * p)) by (nonlinear_arith);
        assert(di * (2 * p) > di * p) by (nonlinear_arith)
            requires
                di > 0,
                p > 0,
        ;
        assert(c * (di * p) >= di * p) by (nonlinear_arith)
            requires
                c >= 1,
                di * p > 0,
        ;
        assert((2 * c) * (di * p) >= 2 * (di * p)) by (nonlinear_arith)
            requires
                c >= 1,
                di * p > 0,
        ;
        assert(d * pow2(k + 1) == di * (2 * p));
        assert(di * (2 * p) == 2 * (di * p)) by (nonlinear_arith);
        lemma_large_has_exponent(n, d, k + 1);
    }
}

/// A number below `2^-43` vanishes even when it is multiplied by `2^40`.
proof fn lemma_vanishes(n: nat, d: nat, shift: nat)
    requires
        d > 0,
        shift <= 40,
        n * pow2(95) < pow2(52) * d,
    ensures
        ({
            let (p, q) = shifted_double(n, d, shift);
            p <= pow2(64) * q && nearest_up(p, q) == 0
        }),
{
    lemma_pow2_pos(64);
    if n > 0 {
        lemma_pow2_unfold(53);
        lemma_pow2_pos(52);
        let c = pow2(52) as int;
        let di = d as int;
        let ni = n as int;
        assert((2 * c) * di >= c * di) by (nonlinear_arith)
            requires
                c > 0,
                di > 0,
        ;
        lemma_small_has_exponent(n, d, 95);
        let e = exponent(n, d);
        assert(is_exponent(n, d, e));
        lemma_two_positive(e);
        let up = two_up(e) as int;
        let down = two_down(e) as int;
        let t = pow2(95) as int;
        lemma_pow2_pos(95);
        // The exponent lies below -95.
        if e >= -95 {
            if e == -95 {
                assert(c * (di * 1) == c * di) by (nonlinear_arith);
                assert(false);
            }
            lemma_two_grows(-95, e);
            assert(two_down(-95) == pow2(95));
            assert(two_up(-95) == 1);
            assert(up * t >= 2 * (1 * down));
            assert(c * (di * up) <= ni * down);
            assert(ni * down * t < c * di * down) by (nonlinear_arith)
                requires
                    ni * t < c * di,
                    down > 0,
            ;
            assert(c * (di * up) * t >= c * di * (2 * down)) by (nonlinear_arith)
                requires
                    up * t >= 2 * (1 * down),
                    c > 0,
                    di > 0,
            ;
            assert(c * (di * up) * t <= ni * down * t) by (nonlinear_arith)
                requires
                    c * (di * up) <= ni * down,
                    t > 0,
            ;
            assert(c * di * (2 * down) > c * di * down) by (nonlinear_arith)
                requires
                    c > 0,
                    di > 0,
                    down > 0,
            ;
            assert(false);
        }
        lemma_pow2_strictly_increases(95, (-e) as nat);
        let m = significand(n, d, e);
        let scaled = n * two_down(e);
        assert(d * two_up(e) == d) by (nonlinear_arith)
            requires
                two_up(e) == 1,
        ;
        assert(scaled < pow2(53) * d);
        assert(scaled / d <= pow2(53)) by {
            lemma_div_is_ordered(scaled as int, (pow2(53) * d) as int, di);
            lemma_div_multiples_vanish(pow2(53) as int, di);
            assert(pow2(53) * d == di * (pow2(53) as int)) by (nonlinear_arith)
                requires
                    di == d,
            ;
        }
        assert(m <= pow2(53) + 1);
        let s = pow2(shift);
        lemma_pow2_pos(shift);
        if shift < 40 {
            lemma_pow2_strictly_increases(shift, 40);
        }
        lemma2_to64();
        lemma2_to64_rest();
        lemma_pow2_adds(53, 40);
        lemma_pow2_adds(93, 2);
        let p = m * two_up(e) * s;
        let mi = m as int;
        let si = s as int;
        assert(mi * up == mi) by (nonlinear_arith)
            requires
                up == 1,
        ;
        assert(mi * si <= (0x20_0000_0000_0000 + 1) * 0x100_0000_0000) by (nonlinear_arith)
            requires
                0 <= mi <= 0x20_0000_0000_0000 + 1,
                0 < si <= 0x100_0000_0000,
        ;
        assert(pow2(95) == 0x20_0000_0000_0000 * 0x100_0000_0000 * 4);
        assert(2 * p < two_down(e));
        let q = two_down(e);
        assert((2 * p + q) / (2 * q) == 0) by {
            lemma_basic_div((2 * p + q) as int, (2 * q) as int);
        }
        assert(pow2(64) * q >= q) by (nonlinear_arith)
            requires
                pow2(64) >= 1,
                q >= 0,
        ;
    } else {
        assert(nearest_up(0, 1) == 1nat / 2nat);
    }
}

/// A number from `2^66` on exceeds `2^64` after rounding, however it is scaled up.
proof fn lemma_overflows(n: nat, d: nat, shift: nat)
    requires
        d > 0,
        n >= pow2(66) * d,
    ensures
        ({
            let (p, q) = shifted_double(n, d, shift);
            p > pow2(64) * q
        }),
{
    let di = d as int;
    let ni = n as int;
    lemma2_to64();
    lemma2_to64_rest();
    lemma_pow2_adds(64, 2);
    assert(0x4_0000_0000_0000_0000 * di >= 0x10_0000_0000_0000 * (di * 2)) by (nonlinear_arith)
        requires
            di > 0,
    ;
    assert(n > 0) by (nonlinear_arith)
        requires
            ni >= 0x4_0000_0000_0000_0000 * di,
            di > 0,
            ni == n,
    ;
    lemma_large_has_exponent(n, d, 1);
    let known = choose|e: int| is_exponent(n, d, e) && e > 0;
    lemma_exponent(n, d, known);
    let e = exponent(n, d);
    let up = two_up(e) as int;
    lemma_two_positive(e);
    assert(two_down(e) == 1);
    assert(ni * 1 == ni);
    assert(ni < 0x20_0000_0000_0000 * (di * up));
    assert(up > 0x2000) by (nonlinear_arith)
        requires
            ni >= 0x4_0000_0000_0000_0000 * di,
            ni < 0x20_0000_0000_0000 * (di * up),
            di > 0,
    ;
    let m = significand(n, d, e);
    let unit = (d * two_up(e)) as int;
    assert(unit > 0) by (nonlinear_arith)
        requires
            unit == di * up,
            di > 0,
            up > 0,
    ;
    assert(ni / unit >= 0x10_0000_0000_0000) by {
        lemma_div_is_ordered(unit * 0x10_0000_0000_0000, ni, unit);
        lemma_div_multiples_vanish(0x10_0000_0000_0000, unit);
    }
    assert(m >= 0x10_0000_0000_0000);
    let mi = m as int;
    assert(mi * up > 0x1_0000_0000_0000_0000) by (nonlinear_arith)
        requires
            mi >= 0x10_0000_0000_0000,
            up > 0x2000,
    ;
    lemma_pow2_pos(shift);
    let s = pow2(shift) as int;
    let mu = mi * up;
    assert(mu * s >= mu) by (nonlinear_arith)
        requires
            mu > 0,
            s >= 1,
    ;
}

// ---------------------------------------------------------------------------------------
// Scaling
// ---------------------------------------------------------------------------------------

/// Two to the power `e`.
fn power_of_two(e: u32) -> (r: u128)
    requires
        e <= 96,
    ensures
        r == pow2(e as nat),
        0 < r <= 0x1_0000_0000_0000_0000_0000_0000,
{
    let mut r: u128 = 1;
    let mut k: u32 = 0;
    proof {
        lemma2_to64();
        lemma_pow2_adds(64, 32);
    }
    while k < e
        invariant
            k <= e <= 96,
            r == pow2(k as nat),
            r > 0,
            pow2(96) == 0x1_0000_0000_0000_0000_0000_0000,
        decreases e - k,
    {
        proof {
            lemma_pow2_unfold((k + 1) as nat);
            if k + 1 < 96 {
                lemma_pow2_strictly_increases((k + 1) as nat, 96);
            }
        }
        r = r * 2;
        k = k + 1;
    }
    proof {
        if e < 96 {
            lemma_pow2_strictly_increases(e as nat, 96);
        }
    }
    r
}

/// The number, if it lies below `2^66`.
fn small_value(digits: &Vec<u8>) -> (r: Option<u128>)
    requires
        are_digits(digits@),
    ensures
        match r {
            Some(n) => n == value(digits@) && n < 0x4_0000_0000_0000_0000,
            None => value(digits@) >= 0x4_0000_0000_0000_0000,
        },
{
    let mut n: u128 = 0;
    let mut i: usize = 0;
    while i < digits.len()
        invariant
            i <= digits@.len(),
            are_digits(digits@),
            n == value(digits@.take(i as int)),
            n < 0x4_0000_0000_0000_0000,
        decreases digits.len() - i,
    {
        proof {
            assert(digits@.take(i + 1).drop_last() =~= digits@.take(i as int));
        }
        n = n * 10 + digits[i] as u128;
        i = i + 1;
        if n >= 0x4_0000_0000_0000_0000 {
            proof {
                lemma_value_split(digits@, i as int);
                let p = ten((digits@.len() - i) as nat) as int;
                lemma_ten((digits@.len() - i) as nat);
                let v = n as int;
                assert(v * p >= v) by (nonlinear_arith)
                    requires
                        v > 0,
                        p >= 1,
                ;
            }
            return None;
        }
    }
    proof {
        assert(digits@.take(digits@.len() as int) =~= digits@);
    }
    Some(n)
}

/// Whether the digits stand for zero.
fn is_zero(digits: &Vec<u8>) -> (r: bool)
    ensures
        r == (value(digits@) == 0),
{
    let mut i: usize = 0;
    while i < digits.len()
        invariant
            i <= digits@.len(),
            value(digits@.take(i as int)) == 0,
        decreases digits.len() - i,
    {
        proof {
            assert(digits@.take(i + 1).drop_last() =~= digits@.take(i as int));
        }
        if digits[i] != 0 {
            proof {
                lemma_value_split(digits@, i + 1);
                let p = ten((digits@.len() - i - 1) as nat) as int;
                lemma_ten((digits@.len() - i - 1) as nat);
                let v = value(digits@.take(i + 1)) as int;
                assert(v * p > 0) by (nonlinear_arith)
                    requires
                        v > 0,
                        p >= 1,
                ;
            }
            return false;
        }
        i = i + 1;
    }
    proof {
        assert(digits@.take(digits@.len() as int) =~= digits@);
    }
    true
}

/// The fraction that `whole` and `frac` stand for, as numerator and denominator.
pub open spec fn decimal_fraction(whole: Seq<u8>, frac: Seq<u8>) -> (nat, nat) {
    (value(whole + frac), ten(frac.len()))
}

proof fn lemma_fraction(whole: Seq<u8>, frac: Seq<u8>)
    ensures
        decimal_fraction(whole, frac).0 == value(whole) * ten(frac.len()) + value(frac),
        decimal_fraction(whole, frac).1 > 0,
{
    lemma_value_split(whole + frac, whole.len() as int);
    assert((whole + frac).take(whole.len() as int) =~= whole);
    assert((whole + frac).skip(whole.len() as int) =~= frac);
    lemma_ten(frac.len());
}

/// Whether the decimal number `whole.frac` is so large that it rounds to infinity.
pub fn is_infinite(whole: &Vec<u8>, frac: &Vec<u8>) -> (r: bool)
    requires
        are_digits(whole@),
        are_digits(frac@),
    ensures
        ({
            let (n, d) = decimal_fraction(whole@, frac@);
            r == (n >= double_limit() * d)
        }),
{
    let r = reaches_limit(whole);
    proof {
        lemma_fraction(whole@, frac@);
        lemma_value_bound(frac@);
        let d = ten(frac@.len()) as int;
        let w = value(whole@) as int;
        let l = double_limit() as int;
        let v = value(frac@) as int;
        if w >= l {
            assert(w * d + v >= l * d) by (nonlinear_arith)
                requires
                    w >= l,
                    d > 0,
                    v >= 0,
            ;
        } else {
            assert(w * d + v < l * d) by (nonlinear_arith)
                requires
                    w + 1 <= l,
                    d > 0,
                    v < d,
            ;
        }
    }
    r
}


/// What the significand is where the fraction bits were shifted out one by one: `whole` bits
/// in front, and a rest that doubles to `over` and `more`.
proof fn lemma_round(n: nat, d: nat, whole: nat, rest: nat, over: nat, more: nat)
    requires
        d > 0,
        n == whole * d + rest,
        rest < d,
        2 * rest == more + over * d,
        over <= 1,
        more < d,
    ensures
        nearest_even(n, d) == whole + if over == 1 && (more != 0 || whole % 2 == 1) {
            1nat
        } else {
            0nat
        },
{
    lemma_fundamental_div_mod_converse(n as int, d as int, whole as int, rest as int);
    let o = over as int;
    let di = d as int;
    if over == 0 {
        assert(o * di == 0) by (nonlinear_arith)
            requires
                o == 0,
        ;
    } else {
        assert(o * di == di) by (nonlinear_arith)
            requires
                o == 1,
        ;
    }
}

/// Scales `m / 2^k` by `2^shift` and rounds it to an integer.
fn scale_down(m: u128, k: u32, shift: u32) -> (r: Option<u64>)
    requires
        m <= 0x20_0000_0000_0000,
        k <= 95,
        shift <= 40,
    ensures
        ({
            let p = m as nat * 1 * pow2(shift as nat);
            let q = pow2(k as nat);
            match r {
                Some(b) => p <= pow2(64) * q && b == if nearest_up(p, q) > u64::MAX {
                    u64::MAX as nat
                } else {
                    nearest_up(p, q)
                },
                None => p > pow2(64) * q,
            }
        }),
{
    let ghost mi = m as int;
    let ghost s = pow2(shift as nat) as int;
    let ghost q = pow2(k as nat) as int;
    proof {
        lemma2_to64();
        lemma_pow2_pos(shift as nat);
        lemma_pow2_pos(k as nat);
    }
    if shift >= k {
        let up: u128 = power_of_two(shift - k);
        proof {
            lemma_pow2_adds((shift - k) as nat, k as nat);
            lemma2_to64_rest();
            if shift - k < 40 {
                lemma_pow2_strictly_increases((shift - k) as nat, 40);
            }
            let u = up as int;
            assert(mi * u <= 0x20_0000_0000_0000 * 0x100_0000_0000) by (nonlinear_arith)
                requires
                    0 <= mi <= 0x20_0000_0000_0000,
                    0 < u <= 0x100_0000_0000,
            ;
        }
        let b: u128 = m * up;
        proof {
            let u = up as int;
            let bi = b as int;
            let p = (m as nat * 1 * pow2(shift as nat)) as int;
            assert(p == bi * q) by (nonlinear_arith)
                requires
                    p == mi * 1 * s,
                    s == u * q,
                    bi == mi * u,
            ;
            assert((2 * p + q) / (2 * q) == bi) by {
                assert(2 * p + q == bi * (2 * q) + q) by (nonlinear_arith)
                    requires
                        p == bi * q,
                ;
                lemma_fundamental_div_mod_converse(2 * p + q, 2 * q, bi, q);
            }
            if bi > 0x1_0000_0000_0000_0000 {
                assert(bi * q > 0x1_0000_0000_0000_0000 * q) by (nonlinear_arith)
                    requires
                        bi > 0x1_0000_0000_0000_0000,
                        q > 0,
                ;
            } else {
                assert(bi * q <= 0x1_0000_0000_0000_0000 * q) by (nonlinear_arith)
                    requires
                        bi <= 0x1_0000_0000_0000_0000,
                        q > 0,
                ;
            }
        }
        if b > 0x1_0000_0000_0000_0000 {
            None
        } else if b > 0xffff_ffff_ffff_ffff {
            Some(u64::MAX)
        } else {
            Some(b as u64)
        }
    } else {
        let down: u128 = power_of_two(k - shift);
        let b: u128 = (2 * m + down) / (2 * down);
        proof {
            lemma_pow2_adds((k - shift) as nat, shift as nat);
            let t = down as int;
            let p = (m as nat * 1 * pow2(shift as nat)) as int;
            let top = 2 * mi + t;
            assert(2 * p + q == top * s) by (nonlinear_arith)
                requires
                    p == mi * 1 * s,
                    q == t * s,
                    top == 2 * mi + t,
            ;
            assert(2 * q == s * (2 * t)) by (nonlinear_arith)
                requires
                    q == t * s,
            ;
            lemma_div_denominator(top * s, s, 2 * t);
            lemma_div_by_multiple(top, s);
            assert((2 * p + q) / (2 * q) == top / (2 * t));
            assert(top / (2 * t) <= top) by {
                lemma_div_nonincreasing(top, 2 * t);
            }
            lemma_pow2_unfold((k - shift) as nat);
            lemma_pow2_pos((k - shift - 1) as nat);
            assert(top / (2 * t) <= 0x20_0000_0000_0000) by {
                lemma_div_is_ordered(top, 0x20_0000_0000_0000 * (2 * t), 2 * t);
                lemma_div_by_multiple(0x20_0000_0000_0000, 2 * t);
            }
            assert(p <= 0x1_0000_0000_0000_0000 * q) by (nonlinear_arith)
                requires
                    p == mi * 1 * s,
                    q == t * s,
                    t >= 1,
                    s >= 1,
                    0 <= mi <= 0x20_0000_0000_0000,
            ;
        }
        Some(b as u64)
    }
}

/// The decimal number `whole.frac` as a floating point value, times two to the power `shift`,
/// rounded to an integer. `None` if that exceeds two to the power 64; a value of exactly
/// that becomes the largest integer.
#[verifier::rlimit(40)]
pub fn shifted_value(whole: &Vec<u8>, frac: &Vec<u8>, shift: u32) -> (r: Option<u64>)
    requires
        are_digits(whole@),
        are_digits(frac@),
        shift <= 40,
    ensures
        ({
            let (n, d) = decimal_fraction(whole@, frac@);
            let (p, q) = shifted_double(n, d, shift as nat);
            match r {
                Some(b) => p <= pow2(64) * q && b == if nearest_up(p, q) > u64::MAX {
                    u64::MAX as nat
                } else {
                    nearest_up(p, q)
                },
                None => p > pow2(64) * q,
            }
        }),
{
    let ghost n = decimal_fraction(whole@, frac@).0;
    let ghost d = decimal_fraction(whole@, frac@).1;
    let ghost di = d as int;
    proof {
        lemma_fraction(whole@, frac@);
        lemma_value_bound(frac@);
        lemma2_to64();
        lemma2_to64_rest();
        lemma_pow2_adds(64, 2);
    }
    let start: u128 = match small_value(whole) {
        Some(start) => start,
        None => {
            proof {
                let w = value(whole@) as int;
                let v = value(frac@) as int;
                assert(w * di + v >= 0x4_0000_0000_0000_0000 * di) by (nonlinear_arith)
                    requires
                        w >= 0x4_0000_0000_0000_0000,
                        di > 0,
                        v >= 0,
                ;
                lemma_overflows(n, d, shift as nat);
            }
            return None;
        },
    };
    if start < 0x20_0000_0000_0000 {
        let mut bits: u128 = start;
        let mut rest = widen(frac, 0);
        let mut k: u32 = 0;
        while bits < 0x10_0000_0000_0000 && k < 95
            invariant
                k <= 95,
                bits < 0x20_0000_0000_0000,
                are_digits(rest@),
                rest@.len() == frac@.len(),
                d == ten(frac@.len()),
                d > 0,
                n * pow2(k as nat) == bits * d + value(rest@),
            decreases 95 - k,
        {
            let ghost before = value(rest@) as int;
            let ghost old_bits = bits as int;
            let carry: u8 = double_digits(&mut rest);
            bits = bits * 2 + carry as u128;
            proof {
                lemma_pow2_unfold((k + 1) as nat);
                let ni = n as int;
                let p = pow2(k as nat) as int;
                let now = value(rest@) as int;
                let c = carry as int;
                let b = bits as int;
                let dd = d as int;
                assert(ni * (2 * p) == b * dd + now) by (nonlinear_arith)
                    requires
                        ni * p == old_bits * dd + before,
                        b == old_bits * 2 + c,
                        now + c * dd == 2 * before,
                ;
            }
            k = k + 1;
        }
        proof {
            lemma_value_bound(rest@);
        }
        if bits < 0x10_0000_0000_0000 {
            proof {
                let b = bits as int;
                let v = value(rest@) as int;
                assert(b * di + v < 0x10_0000_0000_0000 * di) by (nonlinear_arith)
                    requires
                        b + 1 <= 0x10_0000_0000_0000,
                        v < di,
                        di > 0,
                ;
                lemma_vanishes(n, d, shift as nat);
            }
            return Some(0);
        }
        let ghost before = value(rest@);
        let over: u8 = double_digits(&mut rest);
        proof {
            lemma_value_bound(rest@);
        }
        let more = !is_zero(&rest);
        let m: u128 = if over == 1 && (more || bits % 2 == 1) { bits + 1 } else { bits };
        proof {
            let e = -(k as int);
            let scaled = n * pow2(k as nat);
            lemma_round(scaled, d, bits as nat, before, over as nat, value(rest@));
            assert(two_up(e) == 1);
            assert(two_down(e) == pow2(k as nat));
            assert(d * two_up(e) == d) by (nonlinear_arith)
                requires
                    two_up(e) == 1,
            ;
            let b = bits as int;
            let v = before as int;
            assert(b * di + v >= 0x10_0000_0000_0000 * di) by (nonlinear_arith)
                requires
                    b >= 0x10_0000_0000_0000,
                    v >= 0,
                    di > 0,
            ;
            assert(b * di + v < 0x20_0000_0000_0000 * di) by (nonlinear_arith)
                requires
                    b + 1 <= 0x20_0000_0000_0000,
                    v < di,
                    di > 0,
            ;
            assert(is_exponent(n, d, e));
            assert(n > 0) by {
                if n == 0 {
                    assert(n * pow2(k as nat) == 0) by (nonlinear_arith)
                        requires
                            n == 0,
                    ;
                }
            }
            lemma_exponent(n, d, e);
        }
        return scale_down(m, k, shift);
    }
    let mut unit: u128 = 1;
    let mut e: u32 = 0;
    while unit * 0x20_0000_0000_0000 <= start
        invariant
            e <= 13,
            unit == pow2(e as nat),
            0 < unit <= 0x4000,
            unit * 0x10_0000_0000_0000 <= start,
            e == 0 ==> unit * 0x20_0000_0000_0000 <= start,
            start < 0x4_0000_0000_0000_0000,
            pow2(13) == 0x2000,
        decreases 14 - e,
    {
        proof {
            lemma_pow2_unfold((e + 1) as nat);
            if e == 13 {
                assert(false);
            }
        }
        unit = unit * 2;
        e = e + 1;
    }
    let front: u128 = start / unit;
    let back: u128 = start % unit;
    let more = !is_zero(frac);
    let up = 2 * back > unit || (2 * back == unit && (more || front % 2 == 1));
    let m: u128 = if up { front + 1 } else { front };
    proof {
        let u = unit as int;
        let f = front as int;
        let b = back as int;
        let v = value(frac@) as int;
        let st = start as int;
        let ni = n as int;
        lemma_fundamental_div_mod(st, u);
        lemma_pow2_unfold(e as nat);
        let half = pow2((e - 1) as nat) as int;
        assert(u == 2 * half);
        assert(ni == st * di + v);
        let rest = b * di + v;
        let d_unit = di * u;
        assert(ni == f * d_unit + rest) by (nonlinear_arith)
            requires
                ni == st * di + v,
                st == u * f + b,
                rest == b * di + v,
                d_unit == di * u,
        ;
        assert(0 <= rest < d_unit) by (nonlinear_arith)
            requires
                rest == b * di + v,
                d_unit == di * u,
                0 <= b,
                b + 1 <= u,
                0 <= v < di,
        ;
        lemma_fundamental_div_mod_converse(ni, d_unit, f, rest);
        if 2 * b > u {
            assert(2 * rest > d_unit) by (nonlinear_arith)
                requires
                    2 * b >= u + 1,
                    rest == b * di + v,
                    d_unit == di * u,
                    di > 0,
                    v >= 0,
            ;
        } else if 2 * b == u {
            assert(2 * rest == d_unit + 2 * v) by (nonlinear_arith)
                requires
                    2 * b == u,
                    rest == b * di + v,
                    d_unit == di * u,
            ;
        } else {
            assert((b + 1) * di <= half * di) by (nonlinear_arith)
                requires
                    b + 1 <= half,
                    di > 0,
            ;
            assert(rest < (b + 1) * di) by (nonlinear_arith)
                requires
                    rest == b * di + v,
                    v < di,
            ;
            assert(d_unit == 2 * (half * di)) by (nonlinear_arith)
                requires
                    u == 2 * half,
                    d_unit == di * u,
            ;
        }
        let ei = e as int;
        assert(two_up(ei) == unit);
        assert(two_down(ei) == 1);
        assert(n * two_down(ei) == n) by (nonlinear_arith)
            requires
                two_down(ei) == 1,
        ;
        assert(d * two_up(ei) == d_unit);
        assert(significand(n, d, ei) == m);
        assert(0x10_0000_0000_0000 * d_unit <= ni) by (nonlinear_arith)
            requires
                u * 0x10_0000_0000_0000 <= st,
                ni == st * di + v,
                d_unit == di * u,
                di > 0,
                v >= 0,
        ;
        assert(ni < 0x20_0000_0000_0000 * d_unit) by (nonlinear_arith)
            requires
                st + 1 <= u * 0x20_0000_0000_0000,
                ni == st * di + v,
                d_unit == di * u,
                di > 0,
                v < di,
        ;
        assert(is_exponent(n, d, ei));
        assert(ni > 0) by (nonlinear_arith)
            requires
                0x10_0000_0000_0000 * d_unit <= ni,
                d_unit == di * u,
                di > 0,
                u > 0,
        ;
        lemma_exponent(n, d, ei);
        assert(f <= 0x20_0000_0000_0000) by (nonlinear_arith)
            requires
                st == u * f + b,
                b >= 0,
                st < u * 0x20_0000_0000_0000,
                u > 0,
        ;
        let mi = m as int;
        assert(mi * u <= (0x20_0000_0000_0000 + 1) * 0x4000) by (nonlinear_arith)
            requires
                0 <= mi <= 0x20_0000_0000_0000 + 1,
                0 < u <= 0x4000,
        ;
        if shift < 40 {
            lemma_pow2_strictly_increases(shift as nat, 40);
        }
        let s = pow2(shift as nat) as int;
        let mu = mi * u;
        assert(mu * s <= (0x20_0000_0000_0000 + 1) * 0x4000 * 0x100_0000_0000)
            by (nonlinear_arith)
            requires
                0 <= mu <= (0x20_0000_0000_0000 + 1) * 0x4000,
                0 <= s <= 0x100_0000_0000,
        ;
    }
    let b: u128 = m * unit * power_of_two(shift);
    proof {
        let p = b as int;
        assert((2 * p + 1) / 2 == p);
        assert(pow2(64) * 1 == pow2(64));
    }
    if b > 0x1_0000_0000_0000_0000 {
        None
    } else if b > 0xffff_ffff_ffff_ffff {
        Some(u64::MAX)
    } else {
        Some(b as u64)
    }
}

/// A number without digits behind the point stands for itself.
pub proof fn lemma_whole_fraction(whole: Seq<u8>)
    ensures
        decimal_fraction(whole, Seq::empty()) == (value(whole), 1nat),
{
    lemma_ten(0);
    assert(whole + Seq::<u8>::empty() =~= whole);
}

/// A whole number of bytes up to `2^53` is held as it is, in whatever unit it was given.
pub proof fn small_wholes_are_exact(n: nat, shift: nat)
    requires
        n * pow2(shift) <= pow2(53),
    ensures
        n < double_limit(),
        ({
            let (p, q) = shifted_double(n, 1, shift);
            p <= pow2(64) * q && nearest_up(p, q) == n * pow2(shift)
        }),
{
    lemma2_to64();
    lemma_pow2_pos(shift);
    lemma_pow2_pos(53);
    lemma_pow2_pos(52);
    lemma_pow2_unfold(53);
    lemma_pow2_unfold(54);
    lemma_pow2_strictly_increases(53, 64);
    lemma_pow2_strictly_increases(53, 970);
    lemma_pow2_adds(970, 54);
    let t = pow2(shift) as int;
    let ni = n as int;
    assert(ni <= ni * t) by (nonlinear_arith)
        requires
            ni >= 0,
            t >= 1,
    ;
    let large = pow2(970) as int;
    let factor = pow2(54) as int;
    assert(large * factor >= 2 * large) by (nonlinear_arith)
        requires
            factor >= 2,
            large >= 0,
    ;
    if n > 0 {
        if n == pow2(53) {
            assert(t == 1) by (nonlinear_arith)
                requires
                    ni > 0,
                    ni * t <= ni,
                    t >= 1,
            ;
            assert(two_up(1) == 2 && two_down(1) == 1);
            let (c, up, down) = (pow2(52) as int, two_up(1) as int, two_down(1) as int);
            assert(c * (1 * up) == 2 * c && ni * down == ni && (2 * c) * (1 * up) == 4 * c)
                by (nonlinear_arith)
                requires
                    up == 2,
                    down == 1,
            ;
            assert(is_exponent(n, 1, 1));
            lemma_exponent(n, 1, 1);
            assert(n % 2 == 0 && n / 2 == pow2(52));
            assert(significand(n, 1, 1) == pow2(52));
            assert((c * 2) * t == ni) by (nonlinear_arith)
                requires
                    t == 1,
                    ni == 2 * c,
            ;
            assert(ni * t == ni) by (nonlinear_arith)
                requires
                    t == 1,
            ;
            assert(shifted_double(n, 1, shift) == (n, 1nat));
            assert(nearest_up(n, 1) == n);
            assert(n * pow2(shift) == n);
            assert(pow2(64) * 1 == pow2(64));
        } else {
            assert(n * pow2(0) == n) by (nonlinear_arith)
                requires
                    pow2(0) == 1,
            ;
            lemma_small_has_exponent(n, 1, 0);
            let e = exponent(n, 1);
            assert(is_exponent(n, 1, e));
            lemma_two_positive(e);
            if e > 0 {
                lemma_pow2_unfold(e as nat);
                lemma_pow2_pos((e - 1) as nat);
                let c = pow2(52) as int;
                let up = two_up(e) as int;
                assert(c * (1 * up) >= 2 * c) by (nonlinear_arith)
                    requires
                        up >= 2,
                        c > 0,
                ;
            }
            let q = two_down(e) as int;
            let held = ni * q;
            let v = ni * t;
            assert(significand(n, 1, e) == n * two_down(e)) by {
                assert((1 * two_up(e)) == 1);
                lemma_div_basics(held);
                lemma_mod_self_0(1);
                assert(held % 1 == 0);
            }
            let p = shifted_double(n, 1, shift).0 as int;
            assert(p == held * 1 * t);
            assert(p == v * q) by (nonlinear_arith)
                requires
                    p == ni * q * 1 * t,
                    v == ni * t,
            ;
            let limit = pow2(64) as int;
            assert(v * q <= limit * q) by (nonlinear_arith)
                requires
                    v <= limit,
                    q > 0,
            ;
            assert(2 * p + q == v * (2 * q) + q) by (nonlinear_arith)
                requires
                    p == v * q,
            ;
            lemma_fundamental_div_mod_converse(2 * p + q, 2 * q, v, q);
            assert(shifted_double(n, 1, shift) == (p as nat, q as nat));
            assert(nearest_up(p as nat, q as nat) == v);
        }
    } else {
        assert(nearest_up(0, 1) == 0) by {
            lemma_fundamental_div_mod_converse(1, 2, 0, 1);
        }
        assert(ni * t == 0) by (nonlinear_arith)
            requires
                ni == 0,
        ;
        lemma_pow2_pos(64);
    }
}

/// A number that is a fraction with a power of two below the line, and with fewer than 53 bits
/// above it, is held as it is.
pub proof fn dyadic_fractions_are_exact(n: nat, d: nat, m: nat, j: nat, shift: nat)
    requires
        d > 0,
        n * pow2(j) == m * d,
        m < pow2(53),
        j <= shift,
        m * pow2((shift - j) as nat) <= pow2(64),
    ensures
        n < double_limit() * d,
        ({
            let (p, q) = shifted_double(n, d, shift);
            p <= pow2(64) * q && nearest_up(p, q) == m * pow2((shift - j) as nat)
        }),
{
    lemma2_to64();
    lemma_pow2_pos(j);
    lemma_pow2_pos(52);
    lemma_pow2_unfold(53);
    lemma_pow2_unfold(54);
    lemma_pow2_strictly_increases(53, 970);
    lemma_pow2_adds(970, 54);
    let (ni, di, mi) = (n as int, d as int, m as int);
    let twos = pow2(j) as int;
    let c = pow2(52) as int;
    let large = pow2(970) as int;
    let factor = pow2(54) as int;
    let limit = double_limit() as int;
    assert(large * factor >= 2 * large) by (nonlinear_arith)
        requires
            factor >= 2,
            large >= 0,
    ;
    assert(ni < (2 * c) * di) by (nonlinear_arith)
        requires
            ni * twos == mi * di,
            mi < 2 * c,
            di > 0,
            twos >= 1,
            ni >= 0,
    ;
    assert((2 * c) * di <= limit * di) by (nonlinear_arith)
        requires
            2 * c <= limit,
            di > 0,
    ;
    if n == 0 {
        assert(mi == 0) by (nonlinear_arith)
            requires
                ni * twos == mi * di,
                ni == 0,
                di > 0,
        ;
        assert(nearest_up(0, 1) == 0) by {
            lemma_fundamental_div_mod_converse(1, 2, 0, 1);
        }
        let v = pow2((shift - j) as nat) as int;
        assert(mi * v == 0) by (nonlinear_arith)
            requires
                mi == 0,
        ;
        lemma_pow2_pos(64);
    } else {
        lemma_dyadic_held(n, d, m, j, shift);
    }
}

proof fn lemma_dyadic_held(n: nat, d: nat, m: nat, j: nat, shift: nat)
    requires
        d > 0,
        n > 0,
        n * pow2(j) == m * d,
        n < pow2(53) * d,
        m < pow2(53),
        j <= shift,
        m * pow2((shift - j) as nat) <= pow2(64),
    ensures
        ({
            let (p, q) = shifted_double(n, d, shift);
            p <= pow2(64) * q && nearest_up(p, q) == m * pow2((shift - j) as nat)
        }),
{
    lemma2_to64();
    lemma_pow2_pos(j);
    lemma_pow2_pos(52);
    lemma_pow2_unfold(53);
    let (ni, di, mi) = (n as int, d as int, m as int);
    let twos = pow2(j) as int;
    let c = pow2(52) as int;
    assert(n * pow2(0) == n) by (nonlinear_arith)
        requires
            pow2(0) == 1,
    ;
    lemma_small_has_exponent(n, d, 0);
    let e = exponent(n, d);
    assert(is_exponent(n, d, e));
    lemma_two_positive(e);
    if e > 0 {
        lemma_pow2_unfold(e as nat);
        lemma_pow2_pos((e - 1) as nat);
        let up = two_up(e) as int;
        assert(c * (di * up) >= (2 * c) * di) by (nonlinear_arith)
            requires
                up >= 2,
                c > 0,
                di > 0,
        ;
    }
    let k = (-e) as nat;
    let q = two_down(e) as int;
    assert(q == pow2(k));
    assert(di * 1 == di);
    assert(ni * q >= c * di);
    // The value needs no more bits than are held.
    if k < j {
        lemma_pow2_adds(k, (j - k) as nat);
        lemma_pow2_unfold((j - k) as nat);
        lemma_pow2_pos((j - k - 1) as nat);
        let gap = pow2((j - k) as nat) as int;
        assert(twos == q * gap);
        assert(false) by (nonlinear_arith)
            requires
                ni * q >= c * di,
                ni * twos == mi * di,
                twos == q * gap,
                gap >= 2,
                mi < 2 * c,
                di > 0,
                q > 0,
                ni > 0,
        ;
    }
    let rest = (k - j) as nat;
    lemma_pow2_adds(j, rest);
    lemma_pow2_pos(rest);
    let more = pow2(rest) as int;
    assert(q == twos * more);
    let held = mi * more;
    assert(ni * q == held * di) by (nonlinear_arith)
        requires
            ni * twos == mi * di,
            q == twos * more,
            held == mi * more,
    ;
    assert(significand(n, d, e) == held) by {
        lemma_fundamental_div_mod_converse(ni * q, di, held, 0);
        assert(d * two_up(e) == d);
    }
    lemma_pow2_adds(j, (shift - j) as nat);
    let unit = pow2(shift) as int;
    let part = pow2((shift - j) as nat) as int;
    assert(unit == twos * part);
    let v = mi * part;
    let p = shifted_double(n, d, shift).0 as int;
    assert(two_up(e) == 1);
    assert(p == held * 1 * unit);
    assert(p == v * q) by (nonlinear_arith)
        requires
            p == held * 1 * unit,
            held == mi * more,
            unit == twos * part,
            q == twos * more,
            v == mi * part,
    ;
    let top = pow2(64) as int;
    assert(v * q <= top * q) by (nonlinear_arith)
        requires
            v <= top,
            q > 0,
    ;
    assert(2 * p + q == v * (2 * q) + q) by (nonlinear_arith)
        requires
            p == v * q,
    ;
    lemma_fundamental_div_mod_converse(2 * p + q, 2 * q, v, q);
    assert(shifted_double(n, d, shift) == (p as nat, q as nat));
    assert(nearest_up(p as nat, q as nat) == v);
}

} // verus!
