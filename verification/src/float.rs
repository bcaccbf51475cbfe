//! Binary floating-point numbers as values of their own: reading, writing, order and arithmetic.
//!
//! All of it is exact arithmetic on whole numbers, followed by one rounding.
use vstd::arithmetic::power2::{lemma_pow2_adds, lemma_pow2_pos, lemma_pow2_unfold, pow2};
use vstd::prelude::*;

use crate::bignat;
use crate::bignat::{power, value};
use crate::decimal;
use crate::float_spec as fs;
use crate::float_spec::Format;
use crate::text;
use crate::text_spec as spec;

pub mod laws;

verus! {

pub(crate) fn infinity_of(f: Format) -> (r: u64)
    ensures
        r as nat == fs::infinity(f),
{
    match f {
        Format::Single => 0x7f80_0000,
        Format::Double => 0x7ff0_0000_0000_0000,
    }
}

pub(crate) fn sign_of(f: Format) -> (r: u64)
    ensures
        r as nat == fs::sign_bit(f),
{
    match f {
        Format::Single => 0x8000_0000,
        Format::Double => 0x8000_0000_0000_0000,
    }
}

pub(crate) fn scale_of(f: Format) -> (r: u32)
    ensures
        r as nat == fs::scale(f),
{
    match f {
        Format::Single => 149,
        Format::Double => 1074,
    }
}

fn fraction_of(f: Format) -> (r: u64)
    ensures
        r as nat == pow2(fs::fraction_bits(f)),
        r > 0,
{
    proof {
        vstd::arithmetic::power2::lemma2_to64();
        vstd::arithmetic::power2::lemma2_to64_rest();
    }
    match f {
        Format::Single => 0x80_0000,
        Format::Double => 0x10_0000_0000_0000,
    }
}

/// How many units the number with this pattern has.
pub(crate) fn units_of(f: Format, b: u64) -> (r: Vec<u32>)
    requires
        b <= fs::infinity(f),
    ensures
        value(r@) == fs::units(f, b as nat),
{
    let h = fraction_of(f);
    let e: u64 = b / h;
    let m: u64 = b % h;
    if e == 0 {
        bignat::of_u64(m)
    } else {
        proof {
            vstd::arithmetic::power2::lemma2_to64();
            vstd::arithmetic::power2::lemma2_to64_rest();
        }
        let whole = bignat::of_u64(m + h);
        bignat::shifted(&whole, (e - 1) as u32)
    }
}

/// Whether `twice / 2 / den` units round to the number with pattern `b` or a greater one.
pub(crate) fn reaches_of(f: Format, twice: &Vec<u32>, den: &Vec<u32>, b: u64) -> (r: bool)
    requires
        b <= fs::infinity(f),
        value(twice@) % 2 == 0,
    ensures
        r == fs::reaches(f, value(twice@) / 2, value(den@), b as nat),
{
    if b == 0 {
        return true;
    }
    let low = units_of(f, b - 1);
    let high = units_of(f, b);
    let both = bignat::sum(&low, &high);
    let edge = bignat::product(&both, den);
    if b % 2 == 0 {
        !bignat::below(twice, &edge)
    } else {
        bignat::below(&edge, twice)
    }
}

/// The pattern of the number nearest to `num / den` units.
fn nearest_of(f: Format, num: &Vec<u32>, den: &Vec<u32>) -> (r: u64)
    requires
        value(den@) > 0,
    ensures
        r as nat == fs::nearest(f, value(num@), value(den@)),
        r <= fs::infinity(f),
{
    let twice = bignat::mul_add(num, 2, 0);
    let top = infinity_of(f);
    let mut low: u64 = 0;
    let mut high: u64 = top + 1;
    while high - low > 1
        invariant
            top as nat == fs::infinity(f),
            low < high <= top + 1,
            value(twice@) == 2 * value(num@),
            fs::reaches(f, value(num@), value(den@), low as nat),
            high == top + 1 || !fs::reaches(f, value(num@), value(den@), high as nat),
        decreases high - low,
    {
        let mid: u64 = low + (high - low) / 2;
        if reaches_of(f, &twice, den, mid) {
            low = mid;
        } else {
            high = mid;
        }
    }
    proof {
        fs::lemma_nearest(f, value(num@), value(den@), low as nat);
    }
    low
}

pub(crate) fn one() -> (r: Vec<u32>)
    ensures
        value(r@) == 1,
{
    bignat::of_u64(1)
}

/// The pattern nearest to a whole number.
fn whole_pattern(f: Format, n: u64) -> (r: u64)
    ensures
        r as nat == fs::of_whole(f, n as nat),
        r <= fs::infinity(f),
{
    let v = bignat::of_u64(n);
    let num = bignat::shifted(&v, scale_of(f));
    nearest_of(f, &num, &one())
}

pub(crate) fn magnitude_of(f: Format, bits: u64) -> (r: u64)
    ensures
        r as nat == fs::magnitude(f, bits as nat),
{
    let s = sign_of(f);
    if bits >= s {
        bits - s
    } else {
        bits
    }
}

fn less_of(f: Format, a: u64, b: u64) -> (r: bool)
    ensures
        r == fs::less(f, a as nat, b as nat),
{
    let s = sign_of(f);
    let top = infinity_of(f);
    let x = magnitude_of(f, a);
    let y = magnitude_of(f, b);
    if x > top || y > top {
        false
    } else if a >= s {
        if b >= s {
            y < x
        } else {
            x > 0 || y > 0
        }
    } else {
        b < s && x < y
    }
}

fn equal_of(f: Format, a: u64, b: u64) -> (r: bool)
    ensures
        r == fs::equal(f, a as nat, b as nat),
{
    let s = sign_of(f);
    let top = infinity_of(f);
    let x = magnitude_of(f, a);
    let y = magnitude_of(f, b);
    if x > top || y > top {
        false
    } else if (a >= s) == (b >= s) {
        x == y
    } else {
        x == 0 && y == 0
    }
}

/// Whether the rounded distance of two numbers is less than the number with pattern `limit`.
fn closer_of(f: Format, a: u64, b: u64, limit: u64) -> (r: bool)
    requires
        0 < limit <= fs::infinity(f),
    ensures
        r == fs::closer(f, a as nat, b as nat, limit as nat),
{
    let top = infinity_of(f);
    let s = sign_of(f);
    let x = magnitude_of(f, a);
    let y = magnitude_of(f, b);
    if x >= top || y >= top {
        return false;
    }
    let u = units_of(f, x);
    let v = units_of(f, y);
    let low = units_of(f, limit - 1);
    let high = units_of(f, limit);
    let edge = bignat::sum(&low, &high);
    // The distance is the sum where the signs differ, else the greater minus the smaller.
    let (greater, smaller) = if (a >= s) != (b >= s) {
        (bignat::sum(&u, &v), bignat::of_u64(0))
    } else if bignat::below(&u, &v) {
        (v, u)
    } else {
        (u, v)
    };
    let left = bignat::mul_add(&greater, 2, 0);
    let twice = bignat::mul_add(&smaller, 2, 0);
    let right = bignat::sum(&edge, &twice);
    let ghost gap = fs::abs(
        fs::signed_units(f, a as nat) - fs::signed_units(f, b as nat),
    );
    assert(gap == value(greater@) - value(smaller@));
    proof {
        fs::lemma_nearest_exists(f, gap, 1);
        fs::lemma_reaches_nearest(f, gap, 1, limit as nat);
        let e = fs::units(f, (limit - 1) as nat) + fs::units(f, limit as nat);
        assert(e * 1 == e);
    }
    if limit % 2 == 0 {
        bignat::below(&left, &right)
    } else {
        !bignat::below(&right, &left)
    }
}

/// Whether the rounded distance of two numbers is greater than the number with pattern `limit`.
fn farther_of(f: Format, a: u64, b: u64, limit: u64) -> (r: bool)
    requires
        limit < fs::infinity(f),
    ensures
        r == fs::farther(f, a as nat, b as nat, limit as nat),
{
    let top = infinity_of(f);
    let x = magnitude_of(f, a);
    let y = magnitude_of(f, b);
    if x < top && y < top {
        !closer_of(f, a, b, limit + 1)
    } else {
        x <= top && y <= top && a != b
    }
}

/// The rounded sum of two numbers.
fn added_of(f: Format, a: u64, b: u64) -> (r: u64)
    requires
        a < 2 * fs::sign_bit(f),
        b < 2 * fs::sign_bit(f),
    ensures
        r as nat == fs::added(f, a as nat, b as nat),
        r < 2 * fs::sign_bit(f),
{
    let top = infinity_of(f);
    let s = sign_of(f);
    let x = magnitude_of(f, a);
    let y = magnitude_of(f, b);
    if x > top || y > top {
        return nan_of(f);
    }
    if x == top {
        if y == top && (a >= s) != (b >= s) {
            return nan_of(f);
        }
        return a;
    }
    if y == top {
        return b;
    }
    let u = units_of(f, x);
    let v = units_of(f, y);
    if (a >= s) == (b >= s) {
        let total = bignat::sum(&u, &v);
        let m = nearest_of(f, &total, &one());
        let neg = a >= s;
        if bignat::is_zero(&total) {
            if neg {
                s
            } else {
                0
            }
        } else if neg {
            s + m
        } else {
            m
        }
    } else if !bignat::below(&u, &v) && !bignat::below(&v, &u) {
        0
    } else if bignat::below(&u, &v) {
        let gap = bignat::difference(&v, &u);
        let m = nearest_of(f, &gap, &one());
        if b >= s {
            s + m
        } else {
            m
        }
    } else {
        let gap = bignat::difference(&u, &v);
        let m = nearest_of(f, &gap, &one());
        if a >= s {
            s + m
        } else {
            m
        }
    }
}

fn nan_of(f: Format) -> (r: u64)
    ensures
        r as nat == fs::nan_pattern(f),
{
    match f {
        Format::Single => 0x7fc0_0000,
        Format::Double => 0x7ff8_0000_0000_0000,
    }
}

/// The rounded product of two finite numbers that are not negative.
fn product_of(f: Format, a: u64, b: u64) -> (r: u64)
    requires
        a < fs::infinity(f),
        b < fs::infinity(f),
    ensures
        r as nat == fs::multiplied(f, a as nat, b as nat),
        r <= fs::infinity(f),
{
    let u = units_of(f, a);
    let v = units_of(f, b);
    let num = bignat::product(&u, &v);
    let den = bignat::shifted(&one(), scale_of(f));
    proof {
        lemma_pow2_pos(fs::scale(f));
        assert(1 * pow2(fs::scale(f)) == pow2(fs::scale(f)));
    }
    nearest_of(f, &num, &den)
}

/// The rounded product of two numbers.
fn times_of(f: Format, a: u64, b: u64) -> (r: u64)
    requires
        a < 2 * fs::sign_bit(f),
        b < 2 * fs::sign_bit(f),
    ensures
        r as nat == fs::times(f, a as nat, b as nat),
{
    let top = infinity_of(f);
    let x = magnitude_of(f, a);
    let y = magnitude_of(f, b);
    let neg = (a >= sign_of(f)) != (b >= sign_of(f));
    if x > top || y > top || (x == top && y == 0) || (x == 0 && y == top) {
        return nan_of(f);
    }
    if x == top || y == top {
        return signed_pattern(f, neg, top);
    }
    let m = product_of(f, x, y);
    signed_pattern(f, neg, m)
}

/// The rounded quotient of two finite numbers that are not negative.
fn quotient_of(f: Format, a: u64, b: u64) -> (r: u64)
    requires
        a < fs::infinity(f),
        0 < b < fs::infinity(f),
    ensures
        r as nat == fs::divided(f, a as nat, b as nat),
        r <= fs::infinity(f),
{
    let u = units_of(f, a);
    let v = units_of(f, b);
    let num = bignat::shifted(&u, scale_of(f));
    proof {
        fs::lemma_units_monotone(f, 1, b as nat);
        fs::lemma_units_step(f, 0);
    }
    nearest_of(f, &num, &v)
}

/// The rounded quotient of two numbers.
fn over_of(f: Format, a: u64, b: u64) -> (r: u64)
    requires
        a < 2 * fs::sign_bit(f),
        b < 2 * fs::sign_bit(f),
    ensures
        r as nat == fs::quotient(f, a as nat, b as nat),
{
    let top = infinity_of(f);
    let x = magnitude_of(f, a);
    let y = magnitude_of(f, b);
    let neg = (a >= sign_of(f)) != (b >= sign_of(f));
    if x > top || y > top || (x == top && y == top) || (x == 0 && y == 0) {
        return nan_of(f);
    }
    if x == top || y == 0 {
        return signed_pattern(f, neg, top);
    }
    if y == top {
        return signed_pattern(f, neg, 0);
    }
    let m = quotient_of(f, x, y);
    signed_pattern(f, neg, m)
}

// ---- reading ----

pub proof fn lemma_ten_powers(k: nat)
    ensures
        power(10, k) >= pow2(3 * k),
        power(10, k) > 0,
    decreases k,
{
    vstd::arithmetic::power2::lemma2_to64();
    if k > 0 {
        lemma_ten_powers((k - 1) as nat);
        lemma_pow2_adds(3, (3 * (k - 1)) as nat);
    }
}

pub proof fn lemma_power_adds(m: nat, a: nat, b: nat)
    ensures
        power(m, a + b) == power(m, a) * power(m, b),
    decreases a,
{
    if a > 0 {
        lemma_power_adds(m, (a - 1) as nat, b);
        let x = power(m, (a - 1) as nat);
        let y = power(m, b);
        assert((m * x) * y == m * (x * y)) by (nonlinear_arith);
    } else {
        assert(1 * power(m, b) == power(m, b));
    }
}

proof fn lemma_pow2_monotone(a: nat, b: nat)
    requires
        a <= b,
    ensures
        pow2(a) <= pow2(b),
{
    lemma_pow2_adds(a, (b - a) as nat);
    lemma_pow2_pos(a);
    lemma_pow2_pos((b - a) as nat);
    let x = pow2(a);
    let y = pow2((b - a) as nat);
    assert(x <= x * y) by (nonlinear_arith)
        requires
            y >= 1,
    ;
}

proof fn lemma_digits_bound(s: Seq<char>)
    requires
        decimal::all_digits(s),
    ensures
        decimal::digits_value(s) < power(10, s.len()),
    decreases s.len(),
{
    if s.len() > 0 {
        assert(decimal::all_digits(s.drop_last()));
        lemma_digits_bound(s.drop_last());
        assert(spec::is_digit(s.last()));
    }
}

proof fn lemma_leading_zero(s: Seq<char>)
    requires
        s.len() > 0,
        s[0] == '0',
    ensures
        decimal::digits_value(s.skip(1)) == decimal::digits_value(s),
    decreases s.len(),
{
    reveal_with_fuel(decimal::digits_value, 2);
    if s.len() == 1 {
        assert(s.drop_last() == Seq::<char>::empty());
    } else {
        lemma_leading_zero(s.drop_last());
        assert(s.drop_last().skip(1) == s.skip(1).drop_last());
        assert(s.skip(1).last() == s.last());
    }
}

proof fn lemma_leading_digit(s: Seq<char>)
    requires
        s.len() > 0,
        decimal::all_digits(s),
        s[0] != '0',
    ensures
        decimal::digits_value(s) >= 1,
    decreases s.len(),
{
    assert(spec::is_digit(s[0]));
    if s.len() > 1 {
        assert(decimal::all_digits(s.drop_last()));
        lemma_leading_digit(s.drop_last());
    }
}

/// Numbers from `2^1024` on round to infinity.
proof fn lemma_too_great(f: Format, x: nat)
    requires
        x >= pow2(1024),
    ensures
        fs::nearest(f, x * pow2(fs::scale(f)), 1) == fs::infinity(f),
{
    vstd::arithmetic::power2::lemma2_to64();
    vstd::arithmetic::power2::lemma2_to64_rest();
    let top = fs::infinity(f);
    let s = fs::scale(f);
    let p = fs::fraction_bits(f);
    let num = x * pow2(s);
    let exp: nat = match f {
        Format::Single => 254,
        Format::Double => 2046,
    };
    let h = pow2(p);
    assert(top / h == exp + 1 && top % h == 0) by {
        match f {
            Format::Single => {
                assert(h == 0x80_0000);
            },
            Format::Double => {
                assert(h == 0x10_0000_0000_0000);
            },
        }
    }
    assert(fs::units(f, top) == (0 + h) * pow2(exp));
    lemma_pow2_adds(p, exp);
    lemma_pow2_adds(1024, s);
    lemma_pow2_monotone(p + exp, 1024 + s);
    let a = pow2(1024);
    let b = pow2(s);
    lemma_pow2_pos(s);
    assert(a * b <= x * b) by (nonlinear_arith)
        requires
            a <= x,
    ;
    fs::lemma_units_step(f, (top - 1) as nat);
    assert(fs::reaches(f, num, 1, top));
    fs::lemma_nearest(f, num, 1, top);
}

/// Numbers far below the unit round to zero.
proof fn lemma_too_small(f: Format, d: nat, den: nat)
    requires
        den > 2 * (d * pow2(fs::scale(f))),
    ensures
        fs::nearest(f, d * pow2(fs::scale(f)), den) == 0,
{
    vstd::arithmetic::power2::lemma2_to64();
    vstd::arithmetic::power2::lemma2_to64_rest();
    let num = d * pow2(fs::scale(f));
    assert(fs::units(f, 0) == 0 && fs::units(f, 1) == 1);
    let edge = fs::units(f, 0) + fs::units(f, 1);
    assert(edge * den == den) by (nonlinear_arith)
        requires
            edge == 1,
    ;
    assert(!fs::reaches(f, num, den, 1));
    fs::lemma_nearest(f, num, den, 0);
}

/// The number without its leading zeros.
fn significant(s: &[char]) -> (r: &[char])
    requires
        decimal::all_digits(s@),
    ensures
        decimal::all_digits(r@),
        decimal::digits_value(r@) == decimal::digits_value(s@),
        r@.len() > 0 ==> r@[0] != '0',
{
    let mut i: usize = 0;
    assert(s@.skip(0) == s@);
    while i < s.len() && s[i] == '0'
        invariant
            i <= s@.len(),
            decimal::all_digits(s@),
            decimal::digits_value(s@.skip(i as int)) == decimal::digits_value(s@),
        decreases s.len() - i,
    {
        proof {
            lemma_leading_zero(s@.skip(i as int));
            assert(s@.skip(i as int).skip(1) == s@.skip(i + 1));
        }
        i = i + 1;
    }
    let r = text::skip(s, i);
    assert forall|j: int| 0 <= j < r@.len() implies spec::is_digit(#[trigger] r@[j]) by {
        assert(r@[j] == s@[i + j]);
    }
    r
}

/// The number that a run of digits stands for.
fn digits_of(s: &[char]) -> (r: Vec<u32>)
    requires
        decimal::all_digits(s@),
    ensures
        value(r@) == decimal::digits_value(s@),
{
    let mut r: Vec<u32> = Vec::new();
    let mut i: usize = 0;
    while i < s.len()
        invariant
            i <= s@.len(),
            decimal::all_digits(s@),
            value(r@) == decimal::digits_value(s@.take(i as int)),
        decreases s.len() - i,
    {
        let c = s[i];
        assert(spec::is_digit(s@[i as int]));
        r = bignat::mul_add(&r, 10, (c as u32) - 48);
        assert(s@.take(i + 1).drop_last() == s@.take(i as int));
        i = i + 1;
    }
    assert(s@.take(s@.len() as int) == s@);
    r
}

/// Exponents are read up to this size; no text has so many digits.
pub const EXPONENT_CAP: u128 = 1_000_000_000_000_000_000_000_000_000_000;

/// The number that a run of digits stands for, or the cap where that is smaller.
fn capped(s: &[char]) -> (r: u128)
    requires
        decimal::all_digits(s@),
    ensures
        decimal::digits_value(s@) < EXPONENT_CAP ==> r as nat == decimal::digits_value(s@),
        decimal::digits_value(s@) >= EXPONENT_CAP ==> r == EXPONENT_CAP,
{
    let mut n: u128 = 0;
    let mut i: usize = 0;
    while i < s.len()
        invariant
            i <= s@.len(),
            decimal::all_digits(s@),
            n <= EXPONENT_CAP,
            decimal::digits_value(s@.take(i as int)) < EXPONENT_CAP ==> n as nat
                == decimal::digits_value(s@.take(i as int)),
            decimal::digits_value(s@.take(i as int)) >= EXPONENT_CAP ==> n == EXPONENT_CAP,
        decreases s.len() - i,
    {
        let c = s[i];
        assert(spec::is_digit(s@[i as int]));
        assert(s@.take(i + 1).drop_last() == s@.take(i as int));
        let next: u128 = n * 10 + ((c as u32) - 48) as u128;
        n = if next > EXPONENT_CAP {
            EXPONENT_CAP
        } else {
            next
        };
        i = i + 1;
    }
    assert(s@.take(s@.len() as int) == s@);
    n
}

fn all_digits_of(s: &[char]) -> (r: bool)
    ensures
        r == decimal::all_digits(s@),
{
    let mut i: usize = 0;
    while i < s.len()
        invariant
            i <= s@.len(),
            forall|j: int| 0 <= j < i ==> spec::is_digit(#[trigger] s@[j]),
        decreases s.len() - i,
    {
        if !text::is_digit(s[i]) {
            assert(!spec::is_digit(s@[i as int]));
            return false;
        }
        i = i + 1;
    }
    true
}

fn unsigned_of(s: &[char]) -> (r: &[char])
    ensures
        r@ == fs::unsigned_part(s@),
{
    if s.len() > 0 && (s[0] == '+' || s[0] == '-') {
        text::skip(s, 1)
    } else {
        s
    }
}

/// Whether a capped exponent stands for the true one.
pub open spec fn stands_for(e: int, t: int) -> bool {
    ||| e == t
    ||| e >= EXPONENT_CAP && t >= e
    ||| e <= -EXPONENT_CAP && t <= e
}

fn exponent_of(s: &[char]) -> (r: Option<i128>)
    ensures
        r is Some == fs::exponent(s@) is Some,
        r matches Some(e) ==> stands_for(e as int, fs::exponent(s@)->0) && -EXPONENT_CAP <= e
            <= EXPONENT_CAP,
{
    let t = unsigned_of(s);
    if t.len() > 0 && all_digits_of(t) {
        let n = capped(t);
        if s[0] == '-' {
            Some(-(n as i128))
        } else {
            Some(n as i128)
        }
    } else {
        None
    }
}

/// The pattern nearest to `digits * 10^e`.
fn finite_of(f: Format, digits: &[char], e: i128, Ghost(t): Ghost<int>) -> (r: u64)
    requires
        decimal::all_digits(digits@),
        -EXPONENT_CAP - 0xffff_ffff_ffff_ffff <= e <= EXPONENT_CAP,
        e == t || (e >= EXPONENT_CAP - 0xffff_ffff_ffff_ffff && t >= e) || (e <= -EXPONENT_CAP && t
            <= e),
    ensures
        r as nat == fs::finite_pattern(f, decimal::digits_value(digits@), t),
        r <= fs::infinity(f),
{
    let sig = significant(digits);
    let ghost d = decimal::digits_value(digits@);
    if sig.len() == 0 {
        proof {
            let s = pow2(fs::scale(f));
            assert(sig@ == Seq::<char>::empty());
            assert(d == 0);
            if t >= 0 {
                let p = power(10, t as nat);
                assert(0 * p * s == 0) by (nonlinear_arith);
                assert(0 * s == 0) by (nonlinear_arith);
                lemma_too_small(f, 0, 1);
            } else {
                lemma_ten_powers((-t) as nat);
                assert(0 * s == 0) by (nonlinear_arith);
                lemma_too_small(f, 0, power(10, (-t) as nat));
            }
        }
        return 0;
    }
    proof {
        lemma_leading_digit(sig@);
        lemma_digits_bound(sig@);
        lemma_pow2_pos(fs::scale(f));
    }
    let n: i128 = sig.len() as i128;
    if e >= 342 {
        proof {
            let p = power(10, t as nat);
            lemma_ten_powers(t as nat);
            lemma_pow2_monotone(1024, (3 * t) as nat);
            assert(p <= d * p) by (nonlinear_arith)
                requires
                    d >= 1,
            ;
            lemma_too_great(f, d * p);
        }
        return infinity_of(f);
    }
    if e < 0 && e + n <= -360 {
        proof {
            let k = sig@.len();
            let m = (-t) as nat;
            let rest = (m - k) as nat;
            lemma_power_adds(10, k, rest);
            lemma_ten_powers(rest);
            lemma_pow2_monotone((fs::scale(f) + 1) as nat, 3 * rest);
            lemma_pow2_unfold((fs::scale(f) + 1) as nat);
            let a = power(10, k);
            let b = power(10, rest);
            let s = pow2(fs::scale(f));
            assert(a * b > 2 * (d * s)) by (nonlinear_arith)
                requires
                    d < a,
                    2 * s <= b,
                    s > 0,
            ;
            lemma_too_small(f, d, power(10, m));
        }
        return 0;
    }
    assert(e == t);
    let whole = digits_of(sig);
    if e >= 0 {
        let scaled = bignat::scaled(&whole, 10, e as u128);
        let num = bignat::shifted(&scaled, scale_of(f));
        nearest_of(f, &num, &one())
    } else {
        let num = bignat::shifted(&whole, scale_of(f));
        let den = bignat::scaled(&one(), 10, (-e) as u128);
        proof {
            lemma_ten_powers((-e) as nat);
            assert(1 * power(10, (-e) as nat) == power(10, (-e) as nat));
        }
        nearest_of(f, &num, &den)
    }
}

fn signed_pattern(f: Format, neg: bool, mag: u64) -> (r: u64)
    requires
        mag < fs::sign_bit(f),
    ensures
        r as nat == fs::with_sign(f, neg, mag as nat),
        r < 2 * fs::sign_bit(f),
{
    if neg {
        sign_of(f) + mag
    } else {
        mag
    }
}

/// The pattern of the number that the text stands for.
fn parsed_of(f: Format, s: &[char]) -> (r: Option<u64>)
    ensures
        r is Some == fs::parsed(f, s@) is Some,
        r matches Some(b) ==> fs::parsed(f, s@) == Some(b as nat) && b < 2 * fs::sign_bit(f),
{
    let neg: bool = s.len() > 0 && s[0] == '-';
    let lowered = text::lower(unsigned_of(s));
    let t = lowered.as_slice();
    if text::is(t, "inf") || text::is(t, "infinity") {
        return Some(signed_pattern(f, neg, infinity_of(f)));
    }
    if text::is(t, "nan") {
        return Some(signed_pattern(f, neg, nan_of(f)));
    }
    let ghost mut true_exp: int = 0;
    let (m, e): (&[char], i128) = match text::split_once(t, "e") {
        Some((m, x)) => match exponent_of(x) {
            Some(e) => {
                proof {
                    true_exp = fs::exponent(x@)->0;
                }
                (m, e)
            },
            None => {
                return None;
            },
        },
        None => (t, 0),
    };
    assert(fs::mantissa_and_exponent(t@) == Some((m@, true_exp)));
    let (left, right): (&[char], &[char]) = match text::split_once(m, ".") {
        Some((left, right)) => (left, right),
        None => (m, text::skip(m, m.len())),
    };
    assert(right@ =~= fs::around_point(m@).1);
    let mut digits = text::copied(left);
    let mut i: usize = 0;
    while i < right.len()
        invariant
            i <= right@.len(),
            digits@ == left@ + right@.take(i as int),
        decreases right.len() - i,
    {
        digits.push(right[i]);
        i = i + 1;
        assert(digits@ =~= left@ + right@.take(i as int));
    }
    assert(right@.take(right@.len() as int) == right@);
    if digits.len() > 0 && all_digits_of(digits.as_slice()) {
        let places: usize = right.len();
        let shifted: i128 = e - places as i128;
        let mag = finite_of(f, digits.as_slice(), shifted, Ghost(true_exp - places as int));
        Some(signed_pattern(f, neg, mag))
    } else {
        None
    }
}

// ---- writing ----

/// `v / 2^s`, rounded to a whole number, ties to the even one.
fn half_even_of(v: &Vec<u32>, s: u32) -> (r: Vec<u32>)
    requires
        s > 0,
    ensures
        value(r@) == fs::half_even(value(v@), pow2(s as nat)),
{
    let (a, sticky) = bignat::shifted_down(v, s - 1);
    let (q, half) = bignat::div_rem(&a, 2);
    proof {
        let num = value(v@);
        let h = pow2((s - 1) as nat);
        let p = pow2(s as nat);
        lemma_pow2_pos((s - 1) as nat);
        lemma_pow2_unfold(s as nat);
        let r1 = num % h;
        let n = value(q@);
        vstd::arithmetic::div_mod::lemma_fundamental_div_mod(num as int, h as int);
        assert(h * (n * 2 + half as nat) + r1 == n * (2 * h) + (half as nat * h + r1))
            by (nonlinear_arith);
        assert(half as nat * h + r1 < 2 * h) by (nonlinear_arith)
            requires
                half <= 1,
                r1 < h,
        ;
        assert(n * p == p * n) by (nonlinear_arith);
        vstd::arithmetic::div_mod::lemma_fundamental_div_mod_converse(
            num as int,
            p as int,
            n as int,
            (half as nat * h + r1) as int,
        );
        assert(half == 0 ==> half as nat * h == 0) by (nonlinear_arith);
        assert(half == 1 ==> half as nat * h == h) by (nonlinear_arith);
    }
    if half == 1 && (sticky || bignat::is_odd(&q)) {
        bignat::mul_add(&q, 1, 1)
    } else {
        q
    }
}

/// `n / 10^k` in decimal notation with `k` places.
pub(crate) fn with_point_of(n: &Vec<u32>, k: u32) -> (r: Vec<char>)
    ensures
        r@ == fs::with_point(value(n@), k as nat),
{
    if k == 0 {
        return bignat::written(n);
    }
    let mut back: Vec<char> = Vec::new();
    let mut rest: Vec<u32> = bignat::mul_add(n, 1, 0);
    let mut j: u32 = 0;
    let ghost low = fs::low_digits(value(n@), k as nat);
    assert(low =~= fs::low_digits(value(rest@), k as nat) + back@.reverse());
    while j < k
        invariant
            j <= k,
            low == fs::low_digits(value(rest@), (k - j) as nat) + back@.reverse(),
            value(rest@) / power(10, (k - j) as nat) == value(n@) / power(10, k as nat),
        decreases k - j,
    {
        let ghost x = value(rest@);
        let ghost before = back@;
        let (q, d) = bignat::div_rem(&rest, 10);
        back.push((d as u8 + 48) as char);
        proof {
            let m = (k - j) as nat;
            let p = power(10, (m - 1) as nat);
            lemma_ten_powers((m - 1) as nat);
            assert(value(q@) == x / 10 && d == x % 10);
            vstd::arithmetic::div_mod::lemma_div_denominator(x as int, 10, p as int);
            assert(fs::low_digits(x, m) + before.reverse() =~= fs::low_digits(
                x / 10,
                (m - 1) as nat,
            ) + back@.reverse());
        }
        rest = q;
        j = j + 1;
    }
    assert(power(10, 0) == 1);
    assert(value(rest@) / 1 == value(rest@));
    assert(value(rest@) == value(n@) / power(10, k as nat));
    let mut r = bignat::written(&rest);
    let ghost whole = r@;
    proof {
        reveal_strlit(".");
    }
    r.push('.');
    assert(low =~= back@.reverse());
    let mut i: usize = back.len();
    assert(r@ =~= whole + "."@ + low.take(0));
    while i > 0
        invariant
            i <= back@.len(),
            low == back@.reverse(),
            r@ == whole + "."@ + low.take(back@.len() - i),
        decreases i,
    {
        i = i - 1;
        r.push(back[i]);
        assert(r@ =~= whole + "."@ + low.take(back@.len() - i));
    }
    assert(low.take(back@.len() as int) == low);
    r
}

/// The number in decimal notation with `k` places after the point.
fn fixed_of(f: Format, bits: u64, k: u32) -> (r: Vec<char>)
    requires
        bits < 2 * fs::sign_bit(f),
    ensures
        r@ == fs::fixed(f, bits as nat, k as nat),
{
    let m = magnitude_of(f, bits);
    let top = infinity_of(f);
    if m > top {
        return text::chars_of("NaN");
    }
    let body = if m == top {
        text::chars_of("inf")
    } else {
        let u = units_of(f, m);
        let num = bignat::scaled(&u, 10, k as u128);
        let n = half_even_of(&num, scale_of(f));
        with_point_of(&n, k)
    };
    let mut r = if bits >= sign_of(f) {
        text::chars_of("-")
    } else {
        text::chars_of("")
    };
    let ghost sign = r@;
    let mut i: usize = 0;
    assert(r@ =~= sign + body@.take(0));
    while i < body.len()
        invariant
            i <= body@.len(),
            r@ == sign + body@.take(i as int),
        decreases body.len() - i,
    {
        r.push(body[i]);
        i = i + 1;
        assert(r@ =~= sign + body@.take(i as int));
    }
    assert(body@.take(body@.len() as int) == body@);
    r
}

/// The whole number nearest to a number, ties away from zero, in the range of `u32`.
fn rounded_of(f: Format, bits: u64) -> (r: u32)
    ensures
        r as nat == fs::rounded(f, bits as nat),
{
    let top = infinity_of(f);
    if magnitude_of(f, bits) > top || bits >= sign_of(f) {
        return 0;
    }
    if bits == top {
        return u32::MAX;
    }
    let u = units_of(f, bits);
    let twice = bignat::mul_add(&u, 2, 0);
    let s = scale_of(f);
    let half = bignat::shifted(&one(), s);
    let sum = bignat::sum(&twice, &half);
    let (q, sticky) = bignat::shifted_down(&sum, s + 1);
    proof {
        lemma_pow2_unfold((s + 1) as nat);
        assert(1 * pow2(s as nat) == pow2(s as nat));
    }
    let limit = bignat::of_u64(0xffff_ffff);
    if bignat::below(&limit, &q) {
        u32::MAX
    } else {
        bignat::to_u32(&q)
    }
}

// ---- the two formats ----

/// A number of single precision.
#[derive(Clone, Copy, Debug, Default)]
pub struct Single {
    pub bits: u32,
}

/// A number of double precision.
#[derive(Clone, Copy, Debug, Default)]
pub struct Double {
    pub bits: u64,
}

/// Two numbers are equal as numbers: the two zeros are, and what is no number never is.
impl PartialEq for Single {
    fn eq(&self, other: &Single) -> (r: bool) {
        equal_of(Format::Single, self.bits as u64, other.bits as u64)
    }
}

impl vstd::std_specs::cmp::PartialEqSpecImpl for Single {
    open spec fn obeys_eq_spec() -> bool {
        true
    }

    open spec fn eq_spec(&self, other: &Single) -> bool {
        same(*self, *other)
    }
}

/// Two numbers are equal as numbers: the two zeros are, and what is no number never is.
impl PartialEq for Double {
    fn eq(&self, other: &Double) -> (r: bool) {
        equal_of(Format::Double, self.bits, other.bits)
    }
}

impl vstd::std_specs::cmp::PartialEqSpecImpl for Double {
    open spec fn obeys_eq_spec() -> bool {
        true
    }

    open spec fn eq_spec(&self, other: &Double) -> bool {
        fs::equal(Format::Double, self.bits as nat, other.bits as nat)
    }
}

/// `a == b` as numbers.
pub open spec fn same(a: Single, b: Single) -> bool {
    fs::equal(Format::Single, a.bits as nat, b.bits as nat)
}

/// `a < b` as numbers.
pub open spec fn less(a: Single, b: Single) -> bool {
    fs::less(Format::Single, a.bits as nat, b.bits as nat)
}

/// `a < b` as numbers.
pub open spec fn less_double(a: Double, b: Double) -> bool {
    fs::less(Format::Double, a.bits as nat, b.bits as nat)
}

/// The single-precision number that the text stands for.
pub open spec fn single_value(s: Seq<char>) -> Option<Single> {
    match fs::parsed(Format::Single, s) {
        Some(b) => Some(Single { bits: b as u32 }),
        None => None,
    }
}

/// The double-precision number that the text stands for.
pub open spec fn double_value(s: Seq<char>) -> Option<Double> {
    match fs::parsed(Format::Double, s) {
        Some(b) => Some(Double { bits: b as u64 }),
        None => None,
    }
}

/// The number with this bit pattern.
pub open spec fn single(bits: u32) -> Single {
    Single { bits }
}

/// The number with this bit pattern.
pub open spec fn double(bits: u64) -> Double {
    Double { bits }
}

/// The bit pattern of zero.
pub const ZERO: u32 = 0;

/// The bit pattern of one tenth, rounded.
pub const TENTH: u32 = 0x3dcc_cccd;

/// The bit pattern of one half.
pub const HALF: u32 = 0x3f00_0000;

/// The bit pattern of one.
pub const ONE: u32 = 0x3f80_0000;

/// The bit pattern of one hundred.
pub const HUNDRED: u32 = 0x42c8_0000;

/// The bit pattern of zero.
pub const ZERO_DOUBLE: u64 = 0;

/// The bit pattern of one.
pub const ONE_DOUBLE: u64 = 0x3ff0_0000_0000_0000;

/// The bit pattern of one tenth, rounded.
pub const TENTH_DOUBLE: u64 = 0x3fb9_9999_9999_999a;

/// The bit pattern of one hundredth, rounded.
pub const HUNDREDTH_DOUBLE: u64 = 0x3f84_7ae1_47ae_147b;

/// The number brought into the range from zero to one; what is no number stays.
pub open spec fn clamped(x: Single) -> Single {
    if less(x, single(ZERO)) {
        single(ZERO)
    } else if less(single(ONE), x) {
        single(ONE)
    } else {
        x
    }
}

/// The greater of a number and a bound; the bound where it is no number.
pub open spec fn at_least(x: Single, bound: Single) -> Single {
    if less(bound, x) {
        x
    } else {
        bound
    }
}

/// Whether the rounded distance of the numbers is less than the limit.
pub open spec fn closer(a: Single, b: Single, limit: Single) -> bool {
    fs::closer(Format::Single, a.bits as nat, b.bits as nat, limit.bits as nat)
}

/// Whether the rounded distance of the numbers is greater than the limit.
pub open spec fn farther(a: Single, b: Single, limit: Single) -> bool {
    fs::farther(Format::Single, a.bits as nat, b.bits as nat, limit.bits as nat)
}

/// Whether the rounded distance of the numbers is less than the limit.
pub open spec fn closer_double(a: Double, b: Double, limit: Double) -> bool {
    fs::closer(Format::Double, a.bits as nat, b.bits as nat, limit.bits as nat)
}

/// The sum, rounded.
pub open spec fn sum(a: Single, b: Single) -> Single {
    Single { bits: fs::added(Format::Single, a.bits as nat, b.bits as nat) as u32 }
}

/// The number nearest to a whole number.
pub open spec fn of_whole(n: nat) -> Single {
    Single { bits: fs::of_whole(Format::Single, n) as u32 }
}

/// The product of two finite numbers that are not negative, rounded.
pub open spec fn product(a: Single, b: Single) -> Single {
    Single { bits: fs::multiplied(Format::Single, a.bits as nat, b.bits as nat) as u32 }
}

/// How far `part` is on the way from zero to `whole`: the quotient of the two, each rounded to a
/// number first, in the range from zero to one.
pub open spec fn ratio(part: nat, whole: nat) -> Single {
    clamped(
        Single {
            bits: fs::divided(
                Format::Single,
                of_whole(part).bits as nat,
                of_whole(whole).bits as nat,
            ) as u32,
        },
    )
}

/// A number between zero and one, times a number that is not negative; what is no number stays.
pub open spec fn share(x: Single, of: Single) -> Single {
    if fs::is_nan(Format::Single, x.bits as nat) {
        x
    } else {
        Single {
            bits: fs::with_sign(
                Format::Single,
                fs::negative(Format::Single, x.bits as nat),
                fs::multiplied(
                    Format::Single,
                    fs::magnitude(Format::Single, x.bits as nat),
                    of.bits as nat,
                ),
            ) as u32,
        }
    }
}

/// The whole number nearest to a number, ties away from zero, in the range of `u32`.
pub open spec fn rounded(x: Single) -> nat {
    fs::rounded(Format::Single, x.bits as nat)
}

/// The number of single precision nearest to one of double precision.
pub open spec fn narrowed(x: Double) -> Single {
    let d = x.bits as nat;
    let neg = fs::negative(Format::Double, d);
    let mag = if fs::is_nan(Format::Double, d) {
        fs::nan_pattern(Format::Single)
    } else if fs::is_finite(Format::Double, d) {
        fs::nearest(
            Format::Single,
            fs::units(Format::Double, fs::magnitude(Format::Double, d)),
            pow2(925),
        )
    } else {
        fs::infinity(Format::Single)
    };
    Single { bits: fs::with_sign(Format::Single, neg, mag) as u32 }
}

/// The number of double precision that equals one of single precision.
pub open spec fn widened(x: Single) -> Double {
    let d = x.bits as nat;
    let neg = fs::negative(Format::Single, d);
    let mag = if fs::is_nan(Format::Single, d) {
        fs::nan_pattern(Format::Double)
    } else if fs::is_finite(Format::Single, d) {
        fs::nearest(
            Format::Double,
            fs::units(Format::Single, fs::magnitude(Format::Single, d)) * pow2(925),
            1,
        )
    } else {
        fs::infinity(Format::Double)
    };
    Double { bits: fs::with_sign(Format::Double, neg, mag) as u64 }
}

/// The number nearest to a whole number.
pub open spec fn whole_double(n: nat) -> Double {
    Double { bits: fs::of_whole(Format::Double, n) as u64 }
}

/// The number nearest to a hundredth of a whole number.
pub open spec fn hundredths(n: nat) -> Double {
    Double {
        bits: fs::nearest(Format::Double, n * pow2(fs::scale(Format::Double)), 100) as u64,
    }
}

/// The rounded product of two numbers.
pub open spec fn times(a: Double, b: Double) -> Double {
    Double { bits: fs::times(Format::Double, a.bits as nat, b.bits as nat) as u64 }
}

/// The rounded sum of two numbers.
pub open spec fn sum_double(a: Double, b: Double) -> Double {
    Double { bits: fs::added(Format::Double, a.bits as nat, b.bits as nat) as u64 }
}

/// The rounded quotient of two numbers.
pub open spec fn quotient(a: Double, b: Double) -> Double {
    Double { bits: fs::quotient(Format::Double, a.bits as nat, b.bits as nat) as u64 }
}

/// The number brought into a range; what is no number stays.
pub open spec fn between(x: Double, low: Double, high: Double) -> Double {
    if less_double(x, low) {
        low
    } else if less_double(high, x) {
        high
    } else {
        x
    }
}

/// The greater of the number and the bound; the bound where it is no number.
pub open spec fn at_least_double(x: Double, bound: Double) -> Double {
    if less_double(bound, x) {
        x
    } else {
        bound
    }
}

/// The number in decimal notation with `k` places after the point.
pub open spec fn fixed(x: Single, k: nat) -> Seq<char> {
    fs::fixed(Format::Single, x.bits as nat, k)
}

/// The number in decimal notation with `k` places after the point.
pub open spec fn fixed_double(x: Double, k: nat) -> Seq<char> {
    fs::fixed(Format::Double, x.bits as nat, k)
}

impl Single {
    pub fn widened(self) -> (r: Double)
        ensures
            r == widened(self),
    {
        let m = magnitude_of(Format::Single, self.bits as u64);
        let neg: bool = self.bits >= 0x8000_0000;
        let mag: u64 = if m > 0x7f80_0000 {
            nan_of(Format::Double)
        } else if m < 0x7f80_0000 {
            let units = units_of(Format::Single, m);
            let num = bignat::shifted(&units, 925);
            nearest_of(Format::Double, &num, &one())
        } else {
            infinity_of(Format::Double)
        };
        Double { bits: signed_pattern(Format::Double, neg, mag) }
    }

    pub fn parse(s: &[char]) -> (r: Option<Single>)
        ensures
            r == single_value(s@),
    {
        match parsed_of(Format::Single, s) {
            Some(b) => Some(Single { bits: b as u32 }),
            None => None,
        }
    }

    pub fn less(self, other: Single) -> (r: bool)
        ensures
            r == less(self, other),
    {
        less_of(Format::Single, self.bits as u64, other.bits as u64)
    }

    pub fn is_positive(self) -> (r: bool)
        ensures
            r == less(single(ZERO), self),
    {
        Single { bits: ZERO }.less(self)
    }

    pub fn farther(self, other: Single, limit: Single) -> (r: bool)
        requires
            limit.bits < 0x7f80_0000,
        ensures
            r == farther(self, other, limit),
    {
        farther_of(Format::Single, self.bits as u64, other.bits as u64, limit.bits as u64)
    }

    pub fn closer(self, other: Single, limit: Single) -> (r: bool)
        requires
            0 < limit.bits <= 0x7f80_0000,
        ensures
            r == closer(self, other, limit),
    {
        closer_of(Format::Single, self.bits as u64, other.bits as u64, limit.bits as u64)
    }

    pub fn clamped(self) -> (r: Single)
        ensures
            r == clamped(self),
    {
        let zero = Single { bits: ZERO };
        let one = Single { bits: ONE };
        if self.less(zero) {
            zero
        } else if one.less(self) {
            one
        } else {
            self
        }
    }

    pub fn at_least(self, bound: Single) -> (r: Single)
        ensures
            r == at_least(self, bound),
    {
        if bound.less(self) {
            self
        } else {
            bound
        }
    }

    pub fn plus(self, other: Single) -> (r: Single)
        ensures
            r == sum(self, other),
    {
        Single { bits: added_of(Format::Single, self.bits as u64, other.bits as u64) as u32 }
    }

    pub fn of_whole(n: u32) -> (r: Single)
        ensures
            r == of_whole(n as nat),
            r.bits < 0x7f80_0000,
            n > 0 ==> r.bits > 0,
    {
        let b = whole_pattern(Format::Single, n as u64);
        proof {
            lemma_whole_bound(n as nat);
        }
        Single { bits: b as u32 }
    }

    /// How far `part` is on the way from zero to `whole`.
    pub fn ratio(part: u32, whole: u32) -> (r: Single)
        requires
            whole > 0,
        ensures
            r == ratio(part as nat, whole as nat),
    {
        let a = Single::of_whole(part);
        let b = Single::of_whole(whole);
        let q = quotient_of(Format::Single, a.bits as u64, b.bits as u64);
        let x = Single { bits: q as u32 };
        x.clamped()
    }

    /// This number, between zero and one, times a number that is not negative.
    pub fn share(self, of: Single) -> (r: Single)
        requires
            of.bits < 0x7f80_0000,
            self == clamped(self),
        ensures
            r == share(self, of),
    {
        let m = magnitude_of(Format::Single, self.bits as u64);
        if m > 0x7f80_0000 {
            return self;
        }
        assert(m < 0x7f80_0000);
        let p = product_of(Format::Single, m, of.bits as u64);
        let b = signed_pattern(Format::Single, self.bits >= 0x8000_0000, p);
        Single { bits: b as u32 }
    }

    pub fn rounded(self) -> (r: u32)
        ensures
            r as nat == rounded(self),
    {
        rounded_of(Format::Single, self.bits as u64)
    }

    /// The number in decimal notation with `k` places after the point.
    pub fn fixed(self, k: u32) -> (r: Vec<char>)
        ensures
            r@ == fixed(self, k as nat),
    {
        fixed_of(Format::Single, self.bits as u64, k)
    }
}

impl Double {
    pub fn parse(s: &[char]) -> (r: Option<Double>)
        ensures
            r == double_value(s@),
    {
        match parsed_of(Format::Double, s) {
            Some(b) => Some(Double { bits: b }),
            None => None,
        }
    }

    pub fn less(self, other: Double) -> (r: bool)
        ensures
            r == less_double(self, other),
    {
        less_of(Format::Double, self.bits, other.bits)
    }

    pub fn is_positive(self) -> (r: bool)
        ensures
            r == less_double(double(ZERO_DOUBLE), self),
    {
        Double { bits: ZERO_DOUBLE }.less(self)
    }

    pub fn closer(self, other: Double, limit: Double) -> (r: bool)
        requires
            0 < limit.bits <= 0x7ff0_0000_0000_0000,
        ensures
            r == closer_double(self, other, limit),
    {
        closer_of(Format::Double, self.bits, other.bits, limit.bits)
    }

    /// The number of single precision nearest to this one.
    pub fn narrowed(self) -> (r: Single)
        ensures
            r == narrowed(self),
    {
        let m = magnitude_of(Format::Double, self.bits);
        let neg: bool = self.bits >= 0x8000_0000_0000_0000;
        let mag: u64 = if m > 0x7ff0_0000_0000_0000 {
            nan_of(Format::Single)
        } else if m < 0x7ff0_0000_0000_0000 {
            let num = units_of(Format::Double, m);
            let den = bignat::shifted(&one(), 925);
            proof {
                lemma_pow2_pos(925);
                assert(1 * pow2(925) == pow2(925));
            }
            nearest_of(Format::Single, &num, &den)
        } else {
            infinity_of(Format::Single)
        };
        Single { bits: signed_pattern(Format::Single, neg, mag) as u32 }
    }

    pub fn of_whole(n: u32) -> (r: Double)
        ensures
            r == whole_double(n as nat),
    {
        Double { bits: whole_pattern(Format::Double, n as u64) }
    }

    pub fn hundredths(n: u32) -> (r: Double)
        ensures
            r == hundredths(n as nat),
    {
        let whole = bignat::of_u64(n as u64);
        let num = bignat::shifted(&whole, scale_of(Format::Double));
        let den = bignat::of_u64(100);
        Double { bits: nearest_of(Format::Double, &num, &den) }
    }

    pub fn times(self, other: Double) -> (r: Double)
        ensures
            r == times(self, other),
    {
        Double { bits: times_of(Format::Double, self.bits, other.bits) }
    }

    pub fn plus(self, other: Double) -> (r: Double)
        ensures
            r == sum_double(self, other),
    {
        Double { bits: added_of(Format::Double, self.bits, other.bits) }
    }

    pub fn over(self, other: Double) -> (r: Double)
        ensures
            r == quotient(self, other),
    {
        Double { bits: over_of(Format::Double, self.bits, other.bits) }
    }

    pub fn between(self, low: Double, high: Double) -> (r: Double)
        ensures
            r == between(self, low, high),
    {
        if self.less(low) {
            low
        } else if high.less(self) {
            high
        } else {
            self
        }
    }

    pub fn at_least(self, bound: Double) -> (r: Double)
        ensures
            r == at_least_double(self, bound),
    {
        if bound.less(self) {
            self
        } else {
            bound
        }
    }

    /// The number in decimal notation with `k` places after the point.
    pub fn fixed(self, k: u32) -> (r: Vec<char>)
        ensures
            r@ == fixed_double(self, k as nat),
    {
        fixed_of(Format::Double, self.bits, k)
    }
}

/// Whole numbers of 32 bits are far from infinity, and only zero rounds to zero.
pub(crate) proof fn lemma_whole_bound(n: nat)
    requires
        n <= u32::MAX,
    ensures
        fs::of_whole(Format::Single, n) < 0x7f80_0000,
        n > 0 ==> fs::of_whole(Format::Single, n) > 0,
{
    vstd::arithmetic::power2::lemma2_to64();
    let f = Format::Single;
    let s = pow2(149);
    let num = n * s;
    let top = fs::infinity(f);
    fs::lemma_nearest_exists(f, num, 1);
    fs::lemma_reaches_nearest(f, num, 1, top);
    fs::lemma_reaches_nearest(f, num, 1, 1);
    lemma_pow2_pos(149);
    // Above: 2^32 * 2^149 is less than half of 2^277.
    assert(num <= 0xffff_ffff * s) by (nonlinear_arith)
        requires
            num == n * s,
            n <= 0xffff_ffff,
    ;
    lemma_pow2_adds(32, 149);
    lemma_pow2_monotone(181, 276);
    lemma_pow2_unfold(277);
    lemma_pow2_adds(23, 254);
    let h = pow2(23);
    assert(h == 0x80_0000);
    vstd::arithmetic::div_mod::lemma_fundamental_div_mod_converse(top as int, h as int, 255, 0);
    assert(fs::units(f, top) == (0 + h) * pow2(254));
    assert(!fs::reaches(f, num, 1, top));
    // Below: at least one whole is 2^149 units.
    if n > 0 {
        assert(s <= num) by (nonlinear_arith)
            requires
                num == n * s,
                n >= 1,
        ;
        vstd::arithmetic::div_mod::lemma_fundamental_div_mod_converse(0, h as int, 0, 0);
        vstd::arithmetic::div_mod::lemma_fundamental_div_mod_converse(1, h as int, 0, 1);
        assert(fs::units(f, 0) == 0 && fs::units(f, 1) == 1);
        assert(fs::reaches(f, num, 1, 1));
    }
}

/// A number that was brought into the range from zero to one stays as it is there.
pub proof fn clamping_is_stable(x: Single)
    ensures
        clamped(clamped(x)) == clamped(x),
{
    vstd::arithmetic::power2::lemma2_to64();
}

} // verus!
