//! Binary floating-point numbers by their bit patterns, and what the operations on them mean.
//!
//! A finite number is a whole number of units, the unit being the least positive number of its
//! format. The patterns of the numbers that are not negative are consecutive: the pattern after
//! a number's own is that of the next greater number, and the last one is that of infinity. So a
//! result is rounded by choosing a pattern.
use vstd::arithmetic::div_mod::{
    lemma_fundamental_div_mod, lemma_fundamental_div_mod_converse,
};
use vstd::arithmetic::power2::{lemma_pow2_pos, lemma_pow2_unfold, pow2};
use vstd::prelude::*;

use crate::bignat::power;
use crate::decimal;
use crate::text_spec as spec;

verus! {

/// The two formats of IEEE 754 that are in use here.
#[derive(Clone, Copy, Debug, PartialEq, Eq, Structural)]
pub enum Format {
    Single,
    Double,
}

/// How many bits the fraction has.
pub open spec fn fraction_bits(f: Format) -> nat {
    match f {
        Format::Single => 23,
        Format::Double => 52,
    }
}

/// The unit is two to the power of minus this.
pub open spec fn scale(f: Format) -> nat {
    match f {
        Format::Single => 149,
        Format::Double => 1074,
    }
}

/// The pattern of infinity; the patterns above it are no numbers.
pub open spec fn infinity(f: Format) -> nat {
    match f {
        Format::Single => 0x7f80_0000,
        Format::Double => 0x7ff0_0000_0000_0000,
    }
}

/// The bit that makes a number negative.
pub open spec fn sign_bit(f: Format) -> nat {
    match f {
        Format::Single => 0x8000_0000,
        Format::Double => 0x8000_0000_0000_0000,
    }
}

/// How many units the number with this pattern has; for infinity, the next power of two.
pub open spec fn units(f: Format, b: nat) -> nat {
    let h = pow2(fraction_bits(f));
    if b / h == 0 {
        b % h
    } else {
        (b % h + h) * pow2((b / h - 1) as nat)
    }
}

/// Whether `num / den` units round to the number with pattern `b` or a greater one: they lie above
/// the middle between that number and the one before it, or on it where `b` is even.
pub open spec fn reaches(f: Format, num: nat, den: nat, b: nat) -> bool {
    b == 0 || {
        let edge = (units(f, (b - 1) as nat) + units(f, b)) * den;
        edge < 2 * num || (edge == 2 * num && b % 2 == 0)
    }
}

/// Whether `b` is the pattern of the number nearest to `num / den` units, ties to the even one.
pub open spec fn is_nearest(f: Format, num: nat, den: nat, b: nat) -> bool {
    b <= infinity(f) && reaches(f, num, den, b) && (b == infinity(f) || !reaches(f, num, den, b + 1))
}

/// The pattern of the number nearest to `num / den` units.
pub open spec fn nearest(f: Format, num: nat, den: nat) -> nat {
    choose|b: nat| is_nearest(f, num, den, b)
}

/// Whether the pattern has the sign bit.
pub open spec fn negative(f: Format, bits: nat) -> bool {
    bits >= sign_bit(f)
}

/// The pattern without the sign bit.
pub open spec fn magnitude(f: Format, bits: nat) -> nat {
    if negative(f, bits) {
        (bits - sign_bit(f)) as nat
    } else {
        bits
    }
}

pub open spec fn is_nan(f: Format, bits: nat) -> bool {
    magnitude(f, bits) > infinity(f)
}

pub open spec fn is_finite(f: Format, bits: nat) -> bool {
    magnitude(f, bits) < infinity(f)
}

/// The pattern with a sign.
pub open spec fn with_sign(f: Format, neg: bool, mag: nat) -> nat {
    if neg {
        sign_bit(f) + mag
    } else {
        mag
    }
}

/// A number's place in the order: zero for both zeros.
pub open spec fn rank(f: Format, bits: nat) -> int {
    if negative(f, bits) {
        -magnitude(f, bits)
    } else {
        magnitude(f, bits) as int
    }
}

/// `a < b`; false where one of them is no number.
pub open spec fn less(f: Format, a: nat, b: nat) -> bool {
    !is_nan(f, a) && !is_nan(f, b) && rank(f, a) < rank(f, b)
}

/// `a == b`; false where one of them is no number, true of the two zeros.
pub open spec fn equal(f: Format, a: nat, b: nat) -> bool {
    !is_nan(f, a) && !is_nan(f, b) && rank(f, a) == rank(f, b)
}

/// A finite number in units.
pub open spec fn signed_units(f: Format, bits: nat) -> int {
    if negative(f, bits) {
        -units(f, magnitude(f, bits))
    } else {
        units(f, magnitude(f, bits)) as int
    }
}

pub open spec fn abs(x: int) -> nat {
    if x < 0 {
        (-x) as nat
    } else {
        x as nat
    }
}

/// Whether the rounded distance of two numbers is less than the number with pattern `limit`.
pub open spec fn closer(f: Format, a: nat, b: nat, limit: nat) -> bool {
    &&& is_finite(f, a)
    &&& is_finite(f, b)
    &&& nearest(f, abs(signed_units(f, a) - signed_units(f, b)), 1) < limit
}

/// Whether the rounded distance of two numbers is greater than the number with pattern `limit`;
/// not so where there is no distance.
pub open spec fn farther(f: Format, a: nat, b: nat, limit: nat) -> bool {
    if is_finite(f, a) && is_finite(f, b) {
        nearest(f, abs(signed_units(f, a) - signed_units(f, b)), 1) > limit
    } else {
        !is_nan(f, a) && !is_nan(f, b) && a != b
    }
}

/// The number nearest to a whole number.
pub open spec fn of_whole(f: Format, n: nat) -> nat {
    nearest(f, n * pow2(scale(f)), 1)
}

/// The rounded sum.
pub open spec fn added(f: Format, a: nat, b: nat) -> nat {
    if is_nan(f, a) || is_nan(f, b) {
        nan_pattern(f)
    } else if magnitude(f, a) == infinity(f) {
        if magnitude(f, b) == infinity(f) && negative(f, a) != negative(f, b) {
            nan_pattern(f)
        } else {
            a
        }
    } else if magnitude(f, b) == infinity(f) {
        b
    } else {
        let s = signed_units(f, a) + signed_units(f, b);
        if s == 0 {
            with_sign(f, negative(f, a) && negative(f, b), 0)
        } else {
            with_sign(f, s < 0, nearest(f, abs(s), 1))
        }
    }
}

/// The rounded product of two finite numbers that are not negative.
pub open spec fn multiplied(f: Format, a: nat, b: nat) -> nat {
    nearest(f, units(f, a) * units(f, b), pow2(scale(f)))
}

/// The rounded product of two numbers.
pub open spec fn times(f: Format, a: nat, b: nat) -> nat {
    let x = magnitude(f, a);
    let y = magnitude(f, b);
    let neg = negative(f, a) != negative(f, b);
    if is_nan(f, a) || is_nan(f, b) || (x == infinity(f) && y == 0) || (x == 0 && y == infinity(f)) {
        nan_pattern(f)
    } else if x == infinity(f) || y == infinity(f) {
        with_sign(f, neg, infinity(f))
    } else {
        with_sign(f, neg, multiplied(f, x, y))
    }
}

/// The rounded quotient of two finite numbers that are not negative, the second not zero.
pub open spec fn divided(f: Format, a: nat, b: nat) -> nat {
    nearest(f, units(f, a) * pow2(scale(f)), units(f, b))
}

/// The rounded quotient of two numbers.
pub open spec fn quotient(f: Format, a: nat, b: nat) -> nat {
    let x = magnitude(f, a);
    let y = magnitude(f, b);
    let neg = negative(f, a) != negative(f, b);
    if is_nan(f, a) || is_nan(f, b) || (x == infinity(f) && y == infinity(f)) || (x == 0 && y == 0) {
        nan_pattern(f)
    } else if x == infinity(f) || y == 0 {
        with_sign(f, neg, infinity(f))
    } else if y == infinity(f) {
        with_sign(f, neg, 0)
    } else {
        with_sign(f, neg, divided(f, x, y))
    }
}

/// The whole number nearest to a number, ties away from zero, brought into the range of `u32`;
/// zero where it is no number.
pub open spec fn rounded(f: Format, bits: nat) -> nat {
    if is_nan(f, bits) || negative(f, bits) {
        0
    } else if bits == infinity(f) {
        u32::MAX as nat
    } else {
        let n = (2 * units(f, bits) + pow2(scale(f))) / (2 * pow2(scale(f)));
        if n > u32::MAX {
            u32::MAX as nat
        } else {
            n
        }
    }
}

/// A number as it is written.
pub enum Literal {
    Infinite(bool),
    NotANumber(bool),
    /// Negative or not; the digits as a whole number; the power of ten that it is multiplied by.
    Finite(bool, nat, int),
}

/// The text after at most one sign.
pub open spec fn unsigned_part(s: Seq<char>) -> Seq<char> {
    if s.len() > 0 && (s[0] == '+' || s[0] == '-') {
        s.skip(1)
    } else {
        s
    }
}

pub open spec fn has_minus(s: Seq<char>) -> bool {
    s.len() > 0 && s[0] == '-'
}

/// An exponent: digits after at most one sign.
pub open spec fn exponent(s: Seq<char>) -> Option<int> {
    let t = unsigned_part(s);
    if t.len() > 0 && decimal::all_digits(t) {
        if has_minus(s) {
            Some(-decimal::digits_value(t))
        } else {
            Some(decimal::digits_value(t) as int)
        }
    } else {
        None
    }
}

/// The text before an exponent, and the exponent: zero where there is none.
pub open spec fn mantissa_and_exponent(t: Seq<char>) -> Option<(Seq<char>, int)> {
    match spec::split_once(t, "e"@) {
        Some(p) => match exponent(p.1) {
            Some(e) => Some((p.0, e)),
            None => None,
        },
        None => Some((t, 0)),
    }
}

/// The digits before and after the point, where there is one.
pub open spec fn around_point(m: Seq<char>) -> (Seq<char>, Seq<char>) {
    match spec::split_once(m, "."@) {
        Some(p) => p,
        None => (m, seq![]),
    }
}

/// What a text means as a number: an optional sign; then `inf`, `infinity`, `nan`, or digits with
/// an optional point, at least one of them, and an optional exponent. Capital letters count as
/// small ones.
pub open spec fn literal(s: Seq<char>) -> Option<Literal> {
    let neg = has_minus(s);
    let t = spec::lower(unsigned_part(s));
    if t == "inf"@ || t == "infinity"@ {
        Some(Literal::Infinite(neg))
    } else if t == "nan"@ {
        Some(Literal::NotANumber(neg))
    } else {
        match mantissa_and_exponent(t) {
            Some(p) => {
                let d = around_point(p.0).0 + around_point(p.0).1;
                if d.len() > 0 && decimal::all_digits(d) {
                    Some(
                        Literal::Finite(
                            neg,
                            decimal::digits_value(d),
                            p.1 - around_point(p.0).1.len(),
                        ),
                    )
                } else {
                    None
                }
            },
            None => None,
        }
    }
}

/// The pattern nearest to `digits * 10^e`.
pub open spec fn finite_pattern(f: Format, digits: nat, e: int) -> nat {
    if e >= 0 {
        nearest(f, digits * power(10, e as nat) * pow2(scale(f)), 1)
    } else {
        nearest(f, digits * pow2(scale(f)), power(10, (-e) as nat))
    }
}

/// The pattern of the number that stands for no number.
pub open spec fn nan_pattern(f: Format) -> nat {
    match f {
        Format::Single => 0x7fc0_0000,
        Format::Double => 0x7ff8_0000_0000_0000,
    }
}

/// The pattern of the number that the text stands for: the nearest one.
pub open spec fn parsed(f: Format, s: Seq<char>) -> Option<nat> {
    match literal(s) {
        Some(Literal::Infinite(neg)) => Some(with_sign(f, neg, infinity(f))),
        Some(Literal::NotANumber(neg)) => Some(with_sign(f, neg, nan_pattern(f))),
        Some(Literal::Finite(neg, d, e)) => Some(with_sign(f, neg, finite_pattern(f, d, e))),
        None => None,
    }
}

/// `num / den`, rounded to a whole number, ties to the even one.
pub open spec fn half_even(num: nat, den: nat) -> nat {
    let q = num / den;
    let r = num % den;
    if 2 * r > den || (2 * r == den && q % 2 == 1) {
        q + 1
    } else {
        q
    }
}

/// The lowest `k` decimal digits.
pub open spec fn low_digits(n: nat, k: nat) -> Seq<char>
    decreases k,
{
    if k == 0 {
        seq![]
    } else {
        low_digits(n / 10, (k - 1) as nat).push(decimal::digit_char(n % 10))
    }
}

/// `n / 10^k` in decimal notation with `k` places.
pub open spec fn with_point(n: nat, k: nat) -> Seq<char> {
    if k == 0 {
        decimal::decimal(n)
    } else {
        decimal::decimal(n / power(10, k)) + "."@ + low_digits(n, k)
    }
}

/// The number in decimal notation with `k` places after the point.
pub open spec fn fixed(f: Format, bits: nat, k: nat) -> Seq<char> {
    let m = magnitude(f, bits);
    if is_nan(f, bits) {
        "NaN"@
    } else {
        (if negative(f, bits) {
            "-"@
        } else {
            ""@
        }) + (if m == infinity(f) {
            "inf"@
        } else {
            with_point(half_even(units(f, m) * power(10, k), pow2(scale(f))), k)
        })
    }
}

// ---- order and uniqueness ----

/// A greater pattern stands for a greater number.
pub proof fn lemma_units_step(f: Format, b: nat)
    ensures
        units(f, b) < units(f, b + 1),
{
    vstd::arithmetic::power2::lemma2_to64();
    let h = pow2(fraction_bits(f));
    let e = b / h;
    let m = b % h;
    lemma_pow2_pos(fraction_bits(f));
    lemma_fundamental_div_mod(b as int, h as int);
    assert(b + 1 == h * e + (m + 1));
    if m + 1 < h {
        lemma_fundamental_div_mod_converse((b + 1) as int, h as int, e as int, (m + 1) as int);
        if e > 0 {
            let p = pow2((e - 1) as nat);
            lemma_pow2_pos((e - 1) as nat);
            assert((m + h) * p < (m + 1 + h) * p) by (nonlinear_arith)
                requires
                    p > 0,
            ;
        }
    } else {
        assert(h * e + h == h * (e + 1)) by (nonlinear_arith);
        lemma_fundamental_div_mod_converse((b + 1) as int, h as int, (e + 1) as int, 0);
        let p = pow2(e);
        lemma_pow2_pos(e);
        if e == 0 {
            assert(pow2(0) == 1);
        } else {
            lemma_pow2_unfold(e);
            let q = pow2((e - 1) as nat);
            lemma_pow2_pos((e - 1) as nat);
            assert((m + h) * q < h * (2 * q)) by (nonlinear_arith)
                requires
                    m + 1 == h,
                    q > 0,
            ;
            assert((0 + h) * pow2(e) == h * (2 * q));
        }
    }
}

pub proof fn lemma_units_monotone(f: Format, a: nat, b: nat)
    requires
        a <= b,
    ensures
        units(f, a) <= units(f, b),
    decreases b - a,
{
    if a < b {
        lemma_units_monotone(f, a, (b - 1) as nat);
        lemma_units_step(f, (b - 1) as nat);
    }
}

/// What reaches a pattern reaches every lower one.
pub proof fn lemma_reaches_lower(f: Format, num: nat, den: nat, a: nat, b: nat)
    requires
        den > 0,
        a <= b,
        reaches(f, num, den, b),
    ensures
        reaches(f, num, den, a),
{
    if 0 < a && a < b {
        lemma_units_monotone(f, a, (b - 1) as nat);
        lemma_units_step(f, (a - 1) as nat);
        lemma_units_step(f, (b - 1) as nat);
        let x = units(f, (a - 1) as nat) + units(f, a);
        let y = units(f, (b - 1) as nat) + units(f, b);
        assert(x < y);
        assert(x * den < y * den) by (nonlinear_arith)
            requires
                x < y,
                den > 0,
        ;
    }
}

/// There is one nearest pattern.
pub proof fn lemma_nearest(f: Format, num: nat, den: nat, b: nat)
    requires
        den > 0,
        is_nearest(f, num, den, b),
    ensures
        nearest(f, num, den) == b,
{
    let c = nearest(f, num, den);
    assert(is_nearest(f, num, den, c));
    if b < c {
        lemma_reaches_lower(f, num, den, b + 1, c);
    } else if c < b {
        lemma_reaches_lower(f, num, den, c + 1, b);
    }
}

/// A pattern is reached just where the nearest one is not below it.
pub proof fn lemma_reaches_nearest(f: Format, num: nat, den: nat, b: nat)
    requires
        den > 0,
        b <= infinity(f),
        exists|c: nat| is_nearest(f, num, den, c),
    ensures
        reaches(f, num, den, b) == (b <= nearest(f, num, den)),
{
    let c = nearest(f, num, den);
    assert(is_nearest(f, num, den, c));
    if b <= c {
        lemma_reaches_lower(f, num, den, b, c);
    } else if reaches(f, num, den, b) {
        lemma_reaches_lower(f, num, den, c + 1, b);
    }
}

/// What is not above a number does not round to a greater one.
pub proof fn lemma_nearest_at_most(f: Format, num: nat, den: nat, b: nat)
    requires
        den > 0,
        b < infinity(f),
        num <= units(f, b) * den,
    ensures
        nearest(f, num, den) <= b,
{
    lemma_nearest_exists(f, num, den);
    lemma_reaches_nearest(f, num, den, b + 1);
    lemma_units_step(f, b);
    let x = units(f, b);
    let y = units(f, b + 1);
    assert((x + y) * den > 2 * num) by (nonlinear_arith)
        requires
            x < y,
            den > 0,
            num <= x * den,
    ;
}

/// What is not below a number does not round to a less one.
pub proof fn lemma_nearest_at_least(f: Format, num: nat, den: nat, b: nat)
    requires
        den > 0,
        b <= infinity(f),
        num >= units(f, b) * den,
    ensures
        nearest(f, num, den) >= b,
{
    lemma_nearest_exists(f, num, den);
    lemma_reaches_nearest(f, num, den, b);
    if b > 0 {
        lemma_units_step(f, (b - 1) as nat);
        let x = units(f, (b - 1) as nat);
        let y = units(f, b);
        assert((x + y) * den < 2 * num) by (nonlinear_arith)
            requires
                x < y,
                den > 0,
                num >= y * den,
        ;
    }
}

/// There is a nearest pattern.
pub proof fn lemma_nearest_exists(f: Format, num: nat, den: nat)
    ensures
        exists|b: nat| is_nearest(f, num, den, b),
{
    lemma_search(f, num, den, 0);
}

proof fn lemma_search(f: Format, num: nat, den: nat, b: nat)
    requires
        b <= infinity(f),
        reaches(f, num, den, b),
    ensures
        exists|c: nat| is_nearest(f, num, den, c),
    decreases infinity(f) - b,
{
    if b == infinity(f) || !reaches(f, num, den, b + 1) {
        assert(is_nearest(f, num, den, b));
    } else {
        lemma_search(f, num, den, b + 1);
    }
}

} // verus!
