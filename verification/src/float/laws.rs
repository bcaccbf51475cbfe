//! What holds of all numbers.
use vstd::arithmetic::power2::{lemma2_to64, lemma_pow2_pos, pow2};
use vstd::prelude::*;

use crate::float::{
    at_least, at_least_double, between, clamped, closer, closer_double, farther, lemma_whole_bound,
    less, less_double, product, ratio, rounded, same, share, single, sum, sum_double, times, Double,
    Single, HUNDRED, ONE, ZERO,
};
use crate::float_spec as fs;
use crate::float_spec::Format;

verus! {

/// No finite number lies closer to a fraction than the one that it is rounded to.
pub proof fn rounding_finds_the_closest(f: Format, num: nat, den: nat, b: nat)
    requires
        den > 0,
        fs::nearest(f, num, den) < fs::infinity(f),
    ensures
        fs::abs(num - fs::units(f, fs::nearest(f, num, den)) * den) <= fs::abs(
            num - fs::units(f, b) * den,
        ),
{
    let c = fs::nearest(f, num, den);
    fs::lemma_nearest_exists(f, num, den);
    assert(fs::is_nearest(f, num, den, c));
    let ub = fs::units(f, b);
    let uc = fs::units(f, c);
    if b < c {
        let up = fs::units(f, (c - 1) as nat);
        fs::lemma_units_monotone(f, b, (c - 1) as nat);
        fs::lemma_units_step(f, (c - 1) as nat);
        assert(up * den <= uc * den) by (nonlinear_arith)
            requires
                up <= uc,
        ;
        assert(ub * den <= up * den) by (nonlinear_arith)
            requires
                ub <= up,
        ;
        assert((up + uc) * den == up * den + uc * den) by (nonlinear_arith);
    } else if b > c {
        let un = fs::units(f, c + 1);
        fs::lemma_units_monotone(f, c + 1, b);
        fs::lemma_units_step(f, c);
        assert(uc * den <= un * den) by (nonlinear_arith)
            requires
                uc <= un,
        ;
        assert(un * den <= ub * den) by (nonlinear_arith)
            requires
                un <= ub,
        ;
        assert((uc + un) * den == uc * den + un * den) by (nonlinear_arith);
    }
}

/// A fraction that is a number is rounded to that number.
pub proof fn numbers_are_not_rounded(f: Format, den: nat, b: nat)
    requires
        den > 0,
        b < fs::infinity(f),
    ensures
        fs::nearest(f, fs::units(f, b) * den, den) == b,
{
    fs::lemma_nearest_at_most(f, fs::units(f, b) * den, den, b);
    fs::lemma_nearest_at_least(f, fs::units(f, b) * den, den, b);
}

/// A greater fraction is never rounded to a smaller number.
pub proof fn rounding_keeps_the_order(f: Format, a: nat, b: nat, den: nat)
    requires
        den > 0,
        a <= b,
    ensures
        fs::nearest(f, a, den) <= fs::nearest(f, b, den),
{
    fs::lemma_nearest_exists(f, a, den);
    fs::lemma_nearest_exists(f, b, den);
    let c = fs::nearest(f, a, den);
    assert(fs::is_nearest(f, a, den, c));
    assert(fs::reaches(f, b, den, c));
    fs::lemma_reaches_nearest(f, b, den, c);
}

/// Numbers are in a strict order, in which what is no number has no place.
pub proof fn numbers_are_in_order(a: Single, b: Single, c: Single)
    ensures
        !less(a, a),
        less(a, b) ==> !less(b, a) && !same(a, b),
        less(a, b) && less(b, c) ==> less(a, c),
        same(a, b) ==> same(b, a),
        !fs::is_nan(Format::Single, a.bits as nat) && !fs::is_nan(Format::Single, b.bits as nat)
            ==> less(a, b) || same(a, b) || less(b, a),
        fs::is_nan(Format::Single, a.bits as nat) ==> !less(a, b) && !less(b, a) && !same(a, b),
{
}

/// A number is brought into the range from zero to one: the result lies in it, and a number that
/// lies in it stays.
pub proof fn clamped_numbers_are_in_range(x: Single)
    ensures
        !less(clamped(x), single(ZERO)) && !less(single(ONE), clamped(x)),
        !less(x, single(ZERO)) && !less(single(ONE), x) ==> clamped(x) == x,
        less(x, single(ZERO)) ==> clamped(x).bits == 0,
        less(single(ONE), x) ==> clamped(x).bits == 0x3f80_0000,
{
    lemma2_to64();
}

/// The greater of a number and a bound is at least the bound, and the number where that is at
/// least the bound already.
pub proof fn bounded_numbers_reach_the_bound(x: Single, bound: Single)
    ensures
        !less(at_least(x, bound), bound),
        !less(at_least(x, bound), x),
        less(bound, x) ==> at_least(x, bound) == x,
        !less(bound, x) ==> at_least(x, bound) == bound,
{
}

/// A number is brought into a range, and the greater of a number and a bound reaches the bound.
pub proof fn ranges_hold_their_numbers(x: Double, low: Double, high: Double)
    requires
        !less_double(high, low),
    ensures
        !less_double(between(x, low, high), low) && !less_double(high, between(x, low, high)),
        !less_double(x, low) && !less_double(high, x) ==> between(x, low, high) == x,
        less_double(x, low) ==> between(x, low, high) == low,
        less_double(high, x) && !less_double(x, low) ==> between(x, low, high) == high,
        !less_double(at_least_double(x, low), low),
        less_double(low, x) ==> at_least_double(x, low) == x,
{
}

/// Which of two numbers comes first does not matter for their distance.
pub proof fn distances_are_symmetric(a: Single, b: Single, limit: Single)
    ensures
        closer(a, b, limit) == closer(b, a, limit),
        farther(a, b, limit) == farther(b, a, limit),
        !(closer(a, b, limit) && farther(a, b, limit)),
{
}

/// A number has no distance from itself.
pub proof fn numbers_are_close_to_themselves(x: Single, y: Double, limit: Single, wide: Double)
    ensures
        !farther(x, x, limit),
        limit.bits > 0 && fs::is_finite(Format::Single, x.bits as nat) ==> closer(x, x, limit),
        wide.bits > 0 && fs::is_finite(Format::Double, y.bits as nat) ==> closer_double(y, y, wide),
{
    lemma2_to64();
    lemma_zero(Format::Single, 1);
    lemma_zero(Format::Double, 1);
}

proof fn lemma_zero(f: Format, den: nat)
    requires
        den > 0,
    ensures
        fs::units(f, 0) == 0,
        fs::nearest(f, 0, den) == 0,
{
    lemma2_to64();
    lemma_pow2_pos(fs::fraction_bits(f));
    let h = pow2(fs::fraction_bits(f));
    vstd::arithmetic::div_mod::lemma_fundamental_div_mod_converse(0, h as int, 0, 0);
    assert(fs::units(f, 0) == 0);
    fs::lemma_nearest_at_most(f, 0, den, 0);
}

/// The distance of two finite numbers grows with what lies between them.
pub proof fn distances_grow(a: Single, b: Single, c: Single, limit: Single)
    requires
        fs::is_finite(Format::Single, a.bits as nat),
        fs::is_finite(Format::Single, b.bits as nat),
        fs::is_finite(Format::Single, c.bits as nat),
        fs::signed_units(Format::Single, a.bits as nat) <= fs::signed_units(
            Format::Single,
            b.bits as nat,
        ) <= fs::signed_units(Format::Single, c.bits as nat),
    ensures
        closer(a, c, limit) ==> closer(a, b, limit),
        farther(a, b, limit) ==> farther(a, c, limit),
{
    let f = Format::Single;
    let x = fs::abs(fs::signed_units(f, a.bits as nat) - fs::signed_units(f, b.bits as nat));
    let y = fs::abs(fs::signed_units(f, a.bits as nat) - fs::signed_units(f, c.bits as nat));
    rounding_keeps_the_order(f, x, y, 1);
}

/// Which of two numbers comes first does not matter for their sum or product, as far as they are
/// numbers.
pub proof fn sums_and_products_are_symmetric(a: Single, b: Single, x: Double, y: Double)
    ensures
        sum(a, b) == sum(b, a),
        product(a, b) == product(b, a),
        sum_double(x, y) == sum_double(y, x),
        times(x, y) == times(y, x),
{
    assert(fs::units(Format::Single, a.bits as nat) * fs::units(Format::Single, b.bits as nat)
        == fs::units(Format::Single, b.bits as nat) * fs::units(Format::Single, a.bits as nat))
        by (nonlinear_arith);
    let p = fs::units(Format::Double, fs::magnitude(Format::Double, x.bits as nat));
    let q = fs::units(Format::Double, fs::magnitude(Format::Double, y.bits as nat));
    assert(p * q == q * p) by (nonlinear_arith);
    lemma2_to64();
    let f = Format::Single;
    if fs::magnitude(f, a.bits as nat) == fs::infinity(f) && fs::magnitude(f, b.bits as nat)
        == fs::infinity(f) && fs::negative(f, a.bits as nat) == fs::negative(f, b.bits as nat) {
        assert(a.bits == b.bits);
    }
    let d = Format::Double;
    if fs::magnitude(d, x.bits as nat) == fs::infinity(d) && fs::magnitude(d, y.bits as nat)
        == fs::infinity(d) && fs::negative(d, x.bits as nat) == fs::negative(d, y.bits as nat) {
        assert(x.bits == y.bits);
    }
}

/// Zero added to a number leaves it as it is.
pub proof fn zero_adds_nothing(x: Single)
    requires
        0 < x.bits < 0x7f80_0000,
    ensures
        sum(x, single(ZERO)) == x,
{
    let f = Format::Single;
    lemma2_to64();
    lemma_zero(f, 1);
    numbers_are_not_rounded(f, 1, x.bits as nat);
    fs::lemma_units_monotone(f, 1, x.bits as nat);
    fs::lemma_units_step(f, 0);
    assert(fs::units(f, x.bits as nat) * 1 == fs::units(f, x.bits as nat));
}

/// The whole number nearest to a number is at most a half away from it.
pub proof fn whole_numbers_are_close(x: Single)
    requires
        x.bits < 0x7f80_0000,
        rounded(x) < u32::MAX,
    ensures
        fs::abs(
            fs::units(Format::Single, x.bits as nat) - rounded(x) * pow2(fs::scale(Format::Single)),
        ) * 2 <= pow2(fs::scale(Format::Single)),
{
    let f = Format::Single;
    let u = fs::units(f, x.bits as nat);
    let s = pow2(fs::scale(f));
    lemma2_to64();
    lemma_pow2_pos(fs::scale(f));
    let n = (2 * u + s) / (2 * s);
    vstd::arithmetic::div_mod::lemma_fundamental_div_mod((2 * u + s) as int, (2 * s) as int);
    let r = (2 * u + s) % (2 * s);
    assert(n * s * 2 == (2 * s) * n) by (nonlinear_arith);
    assert(2 * u + s == n * s * 2 + r);
    assert(0 <= r < 2 * s);
}

/// The share of a part is from zero to one; of nothing it is zero, of the whole one, and of a
/// greater part it is not smaller.
pub proof fn ratios_go_from_zero_to_one(part: nat, more: nat, whole: nat)
    requires
        0 < whole <= u32::MAX,
        part <= more <= u32::MAX,
    ensures
        ratio(0, whole).bits == 0,
        ratio(whole, whole).bits == ONE,
        !less(ratio(part, whole), single(ZERO)) && !less(single(ONE), ratio(part, whole)),
        !less(ratio(more, whole), ratio(part, whole)),
{
    let f = Format::Single;
    lemma2_to64();
    lemma_whole_bound(whole);
    lemma_whole_bound(part);
    lemma_whole_bound(more);
    let w = fs::of_whole(f, whole);
    let u = fs::units(f, w);
    lemma_zero(f, 1);
    fs::lemma_units_monotone(f, 1, w);
    fs::lemma_units_step(f, 0);
    assert(u > 0);
    let s = pow2(fs::scale(f));
    assert(0 * s == 0) by (nonlinear_arith);
    assert(fs::of_whole(f, 0) == 0);
    lemma_zero(f, u);
    vstd::arithmetic::power2::lemma_pow2_adds(23, 126);
    vstd::arithmetic::div_mod::lemma_fundamental_div_mod_converse(
        ONE as int,
        pow2(23) as int,
        127,
        0,
    );
    assert(fs::units(f, ONE as nat) == s);
    numbers_are_not_rounded(f, u, ONE as nat);
    assert(s * u == u * s) by (nonlinear_arith);
    let a = fs::of_whole(f, part);
    let b = fs::of_whole(f, more);
    assert(part * s <= more * s) by (nonlinear_arith)
        requires
            part <= more,
    ;
    rounding_keeps_the_order(f, part * s, more * s, 1);
    fs::lemma_units_monotone(f, a, b);
    let x = fs::units(f, a);
    let y = fs::units(f, b);
    assert(x * s <= y * s) by (nonlinear_arith)
        requires
            x <= y,
    ;
    rounding_keeps_the_order(f, x * s, y * s, u);
    fs::lemma_nearest_exists(f, x * s, u);
    fs::lemma_nearest_exists(f, y * s, u);
    assert(fs::is_nearest(f, x * s, u, fs::nearest(f, x * s, u)));
    assert(fs::is_nearest(f, y * s, u, fs::nearest(f, y * s, u)));
}

/// A share of nothing is nothing, the whole is itself, and a greater share is not smaller.
pub proof fn shares_grow(x: Single, y: Single, of: Single)
    requires
        of.bits < 0x7f80_0000,
        x.bits <= y.bits <= ONE,
    ensures
        share(single(ZERO), of).bits == 0,
        share(single(ONE), of) == of,
        share(x, of).bits <= share(y, of).bits <= of.bits,
        rounded(share(x, of)) <= rounded(share(y, of)),
        rounded(single(ZERO)) == 0,
{
    let f = Format::Single;
    lemma2_to64();
    let s = pow2(fs::scale(f));
    lemma_pow2_pos(fs::scale(f));
    lemma_zero(f, s);
    let w = fs::units(f, of.bits as nat);
    assert(0 * w == 0) by (nonlinear_arith);
    lemma_one();
    numbers_are_not_rounded(f, s, of.bits as nat);
    assert(w * s == s * w) by (nonlinear_arith);
    fs::lemma_units_monotone(f, x.bits as nat, y.bits as nat);
    fs::lemma_units_monotone(f, y.bits as nat, ONE as nat);
    let a = fs::units(f, x.bits as nat);
    let b = fs::units(f, y.bits as nat);
    assert(a * w <= b * w <= s * w) by (nonlinear_arith)
        requires
            a <= b <= s,
    ;
    rounding_keeps_the_order(f, a * w, b * w, s);
    rounding_keeps_the_order(f, b * w, s * w, s);
    lemma_rounded_grows(share(x, of), share(y, of));
    vstd::arithmetic::div_mod::lemma_fundamental_div_mod_converse(s as int, (2 * s) as int, 0, s as int);
}

pub(crate) proof fn lemma_one()
    ensures
        fs::units(Format::Single, ONE as nat) == pow2(149),
{
    lemma2_to64();
    vstd::arithmetic::power2::lemma_pow2_adds(23, 126);
    vstd::arithmetic::div_mod::lemma_fundamental_div_mod_converse(
        ONE as int,
        pow2(23) as int,
        127,
        0,
    );
}

proof fn lemma_rounded_grows(x: Single, y: Single)
    requires
        x.bits <= y.bits < 0x7f80_0000,
    ensures
        rounded(x) <= rounded(y),
{
    let f = Format::Single;
    lemma2_to64();
    let s = pow2(fs::scale(f));
    lemma_pow2_pos(fs::scale(f));
    fs::lemma_units_monotone(f, x.bits as nat, y.bits as nat);
    let a = 2 * fs::units(f, x.bits as nat) + s;
    let b = 2 * fs::units(f, y.bits as nat) + s;
    vstd::arithmetic::div_mod::lemma_div_is_ordered(a as int, b as int, (2 * s) as int);
}

/// A hundred is rounded to itself.
pub proof fn hundred_is_whole()
    ensures
        rounded(single(HUNDRED)) == 100,
{
    let f = Format::Single;
    lemma2_to64();
    let s = pow2(149);
    lemma_pow2_pos(149);
    vstd::arithmetic::power2::lemma_pow2_adds(17, 132);
    vstd::arithmetic::div_mod::lemma_fundamental_div_mod_converse(
        HUNDRED as int,
        pow2(23) as int,
        133,
        0x48_0000,
    );
    assert(fs::units(f, HUNDRED as nat) == 0xc8_0000 * pow2(132));
    assert(0xc8_0000 * pow2(132) == 100 * s) by (nonlinear_arith)
        requires
            s == pow2(17) * pow2(132),
            pow2(17) == 0x2_0000,
    ;
    vstd::arithmetic::div_mod::lemma_fundamental_div_mod_converse(
        (200 * s + s) as int,
        (2 * s) as int,
        100,
        s as int,
    );
}

} // verus!
