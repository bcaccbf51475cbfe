//! What holds of the colors at every temperature.
use vstd::arithmetic::power2::{
    lemma2_to64, lemma2_to64_rest, lemma_pow2_adds, lemma_pow2_pos, pow2,
};
use vstd::prelude::*;

use crate::float;
use crate::float::Double;
use crate::float_spec as fs;
use crate::float_spec::Format;
use crate::kelvin::{
    balanced, blue, green, hundreds, level, multiplier, red, Curve, FULL, NINETEEN, SIXTY_SIX,
    TWICE,
};

verus! {

/// A whole number of hundreds, by the way its pattern is made up: `m * 2^e` units of the format,
/// where a unit is `2^-1074`.
proof fn lemma_whole(w: nat, bits: nat, e: nat, part: nat, m: nat)
    requires
        0 < e < 2046,
        part < 0x10_0000_0000_0000,
        bits == e * 0x10_0000_0000_0000 + part,
        m == 0x10_0000_0000_0000 + part,
        m * pow2((e - 1) as nat) == w * pow2(1074),
    ensures
        fs::units(Format::Double, bits) == w * pow2(1074),
{
    lemma2_to64();
    lemma2_to64_rest();
    vstd::arithmetic::div_mod::lemma_fundamental_div_mod_converse(
        bits as int,
        pow2(52) as int,
        e as int,
        part as int,
    );
}

proof fn lemma_sixty_six()
    ensures
        fs::units(Format::Double, SIXTY_SIX as nat) == 66 * pow2(1074),
{
    lemma2_to64();
    lemma2_to64_rest();
    lemma_pow2_adds(46, 1028);
    let a = pow2(1028);
    assert((0x10_8000_0000_0000nat) * a == 66 * (pow2(46) * a)) by (nonlinear_arith)
        requires
            pow2(46) == 0x4000_0000_0000,
    ;
    lemma_whole(66, SIXTY_SIX as nat, 0x405, 0x8000_0000_0000, 0x10_8000_0000_0000);
}

proof fn lemma_nineteen()
    ensures
        fs::units(Format::Double, NINETEEN as nat) == 19 * pow2(1074),
{
    lemma2_to64();
    lemma2_to64_rest();
    lemma_pow2_adds(48, 1026);
    let a = pow2(1026);
    assert((0x13_0000_0000_0000nat) * a == 19 * (pow2(48) * a)) by (nonlinear_arith)
        requires
            pow2(48) == 0x1_0000_0000_0000,
    ;
    lemma_whole(19, NINETEEN as nat, 0x403, 0x3_0000_0000_0000, 0x13_0000_0000_0000);
}

proof fn lemma_hundreds_compare(k: u16, w: nat, bits: nat)
    requires
        0 < w < 100,
        bits < 0x7fe0_0000_0000_0000,
        fs::units(Format::Double, bits) == w * pow2(1074),
        fs::units(Format::Double, bits + 1) <= w * pow2(1074) + pow2(1060),
        bits > 0,
        w * pow2(1074) <= fs::units(Format::Double, (bits - 1) as nat) + pow2(1060),
    ensures
        k < 100 * w ==> float::hundredths(k as nat).bits < bits,
        k <= 100 * w ==> float::hundredths(k as nat).bits <= bits,
        k > 100 * w ==> float::hundredths(k as nat).bits > bits,
        k == 100 * w ==> float::hundredths(k as nat).bits == bits,
        float::hundredths(k as nat).bits < 0x7ff0_0000_0000_0000,
{
    let f = Format::Double;
    lemma2_to64();
    let s = pow2(1074);
    lemma_pow2_pos(1074);
    let num = k as nat * s;
    let u = fs::units(f, bits);
    fs::lemma_nearest_exists(f, num, 100);
    assert(fs::is_nearest(f, num, 100, fs::nearest(f, num, 100)));
    if k <= 100 * w {
        assert(num <= u * 100) by (nonlinear_arith)
            requires
                num == k * s,
                u == w * s,
                k <= 100 * w,
        ;
        fs::lemma_nearest_at_most(f, num, 100, bits);
    }
    if k >= 100 * w {
        assert(num >= u * 100) by (nonlinear_arith)
            requires
                num == k * s,
                u == w * s,
                k >= 100 * w,
        ;
        fs::lemma_nearest_at_least(f, num, 100, bits);
    }
    if k > 100 * w {
        lemma_pow2_adds(14, 1060);
        let t = pow2(1060);
        let n = fs::units(f, bits + 1);
        assert(num >= n * 100) by (nonlinear_arith)
            requires
                num == k * s,
                n <= w * s + t,
                k >= 100 * w + 1,
                s == pow2(14) * t,
                pow2(14) == 16384,
        ;
        fs::lemma_nearest_at_least(f, num, 100, bits + 1);
    }
    if k < 100 * w {
        lemma_pow2_adds(14, 1060);
        let t = pow2(1060);
        let n = fs::units(f, (bits - 1) as nat);
        assert(num <= n * 100) by (nonlinear_arith)
            requires
                num == k * s,
                w * s <= n + t,
                k + 1 <= 100 * w,
                s == pow2(14) * t,
                pow2(14) == 16384,
        ;
        fs::lemma_nearest_at_most(f, num, 100, (bits - 1) as nat);
    }
    lemma_far(k);
}

/// No temperature is near infinity.
proof fn lemma_far(k: u16)
    ensures
        fs::nearest(Format::Double, k as nat * pow2(1074), 100) < 0x7ff0_0000_0000_0000,
{
    let f = Format::Double;
    lemma2_to64();
    lemma2_to64_rest();
    let top: nat = 0x7fe0_0000_0000_0000;
    vstd::arithmetic::div_mod::lemma_fundamental_div_mod_converse(
        top as int,
        pow2(52) as int,
        2046,
        0,
    );
    lemma_pow2_adds(971, 1074);
    lemma_pow2_adds(64, 907);
    lemma_pow2_pos(907);
    let a = pow2(1074);
    let b = pow2(971);
    let u = fs::units(f, top);
    assert(u == pow2(52) * pow2(2045));
    assert(b >= 65536) by (nonlinear_arith)
        requires
            b == pow2(64) * pow2(907),
            pow2(64) >= 65536,
            pow2(907) >= 1,
    ;
    assert(k * a <= u * 100) by (nonlinear_arith)
        requires
            u == pow2(52) * pow2(2045),
            pow2(2045) == b * a,
            pow2(52) >= 1,
            b >= 65536,
            k <= 65535,
    ;
    fs::lemma_nearest_at_most(f, k as nat * a, 100, top);
}

proof fn lemma_next(bits: nat, e: nat, part: nat, w: nat)
    requires
        0 < e <= 0x405,
        0 < part,
        part + 1 < 0x10_0000_0000_0000,
        bits == e * 0x10_0000_0000_0000 + part,
        fs::units(Format::Double, bits) == w,
    ensures
        fs::units(Format::Double, bits + 1) <= w + pow2(1060),
        w <= fs::units(Format::Double, (bits - 1) as nat) + pow2(1060),
{
    lemma2_to64();
    lemma2_to64_rest();
    let h = pow2(52);
    vstd::arithmetic::div_mod::lemma_fundamental_div_mod_converse(
        bits as int,
        h as int,
        e as int,
        part as int,
    );
    vstd::arithmetic::div_mod::lemma_fundamental_div_mod_converse(
        (bits + 1) as int,
        h as int,
        e as int,
        (part + 1) as int,
    );
    let p = pow2((e - 1) as nat);
    vstd::arithmetic::div_mod::lemma_fundamental_div_mod_converse(
        (bits - 1) as int,
        h as int,
        e as int,
        (part - 1) as int,
    );
    assert((part - 1 + h) * p + p == (part + h) * p) by (nonlinear_arith);
    assert((part + 1 + h) * p == (part + h) * p + p) by (nonlinear_arith);
    if e - 1 < 1060 {
        vstd::arithmetic::power2::lemma_pow2_strictly_increases((e - 1) as nat, 1060);
    }
}

/// Up to 6600 kelvin red is full and green rises; above, both fall. There is no blue up to 1900
/// kelvin; it rises from there on, and is full above 6600, and at 6600 exactly where that is asked
/// for.
pub proof fn colors_change_at_their_temperatures(k: u16, full_at_edge: bool)
    requires
        1000 <= k <= 10000,
    ensures
        red(hundreds(k)) is Level <==> k <= 6600,
        red(hundreds(k)) is Power <==> k > 6600,
        green(hundreds(k)) is Logarithm <==> k <= 6600,
        green(hundreds(k)) is Power <==> k > 6600,
        k > 6600 || (k == 6600 && full_at_edge) ==> blue(hundreds(k), full_at_edge) == Curve::Level(
            float::double(FULL),
        ),
        k <= 1900 ==> blue(hundreds(k), full_at_edge) == Curve::Level(
            float::double(float::ZERO_DOUBLE),
        ),
        1900 < k < 6600 || (k == 6600 && !full_at_edge) ==> blue(hundreds(k), full_at_edge) is Logarithm,
        k <= 6600 ==> red(hundreds(k)) == Curve::Level(float::double(0x406f_e000_0000_0000)),
{
    lemma2_to64();
    lemma_sixty_six();
    lemma_nineteen();
    lemma_next(SIXTY_SIX as nat, 0x405, 0x8000_0000_0000, 66 * pow2(1074));
    lemma_next(NINETEEN as nat, 0x403, 0x3_0000_0000_0000, 19 * pow2(1074));
    lemma_hundreds_compare(k, 66, SIXTY_SIX as nat);
    lemma_hundreds_compare(k, 19, NINETEEN as nat);
}

/// Temperatures outside of the range count as its ends.
pub proof fn temperatures_are_brought_into_range(k: u16)
    ensures
        k <= 1000 ==> hundreds(k) == hundreds(1000),
        k >= 10000 ==> hundreds(k) == hundreds(10000),
        1000 <= k <= 10000 ==> hundreds(k) == float::hundredths(k as nat),
{
}

/// A color that is as strong as at the neutral temperature is not changed; no color is made more
/// than twice as strong.
pub proof fn neutral_colors_stay(x: Double, neutral: Double)
    ensures
        0 < x.bits < 0x7ff0_0000_0000_0000 ==> multiplier(x, x).bits == float::ONE_DOUBLE,
        !float::less_double(float::double(TWICE), multiplier(x, neutral)),
        !float::less_double(multiplier(x, neutral), float::double(float::ZERO_DOUBLE)),
{
    let f = Format::Double;
    lemma2_to64();
    lemma2_to64_rest();
    if 0 < x.bits < 0x7ff0_0000_0000_0000 {
        let u = fs::units(f, x.bits as nat);
        fs::lemma_units_monotone(f, 1, x.bits as nat);
        fs::lemma_units_step(f, 0);
        lemma_pow2_adds(52, 1022);
        lemma_whole(1, float::ONE_DOUBLE as nat, 0x3ff, 0, 0x10_0000_0000_0000);
        float::laws::numbers_are_not_rounded(f, u, float::ONE_DOUBLE as nat);
        let s = pow2(1074);
        assert(1 * s * u == u * s) by (nonlinear_arith);
    }
}

/// The level of a curve is its factor times what was found, plus its offset; a flat one is what it
/// is, whatever was found.
pub proof fn levels_follow_the_curves(
    x: Double,
    of: Double,
    factor: Double,
    offset: Double,
    found: Double,
)
    ensures
        level(Curve::Level(x), found) == x,
        level(Curve::Logarithm { of, factor, offset }, found) == float::sum_double(
            float::times(found, factor),
            offset,
        ),
        level(Curve::Power { of, exponent: offset, factor }, found) == float::times(found, factor),
{
    float::laws::sums_and_products_are_symmetric(
        float::single(0),
        float::single(0),
        factor,
        found,
    );
}

/// An amount is divided by how bright all amounts appear together, where that is positive.
pub proof fn amounts_are_balanced(x: Double, luma: Double)
    ensures
        float::less_double(float::double(0), luma) ==> balanced(x, luma) == float::quotient(x, luma),
        !float::less_double(float::double(0), luma) ==> balanced(x, luma) == x,
{
}

/// A number of quarters, by the way its pattern is made up.
pub(crate) proof fn lemma_quarters(bits: u64, q: nat, e: nat, part: nat)
    requires
        0x3fe <= e <= 0x400,
        part < 0x10_0000_0000_0000,
        bits == e * 0x10_0000_0000_0000 + part,
        (0x10_0000_0000_0000 + part) * (if e == 0x3fe {
            2nat
        } else if e == 0x3ff {
            4
        } else {
            8
        }) == q * 0x10_0000_0000_0000,
    ensures
        fs::units(Format::Double, bits as nat) * 4 == q * pow2(1074),
{
    lemma2_to64();
    lemma2_to64_rest();
    vstd::arithmetic::div_mod::lemma_fundamental_div_mod_converse(
        bits as int,
        pow2(52) as int,
        e as int,
        part as int,
    );
    lemma_pow2_adds(52, 1022);
    lemma_pow2_adds(1, 1021);
    lemma_pow2_adds(1, 1022);
    let a = pow2(1021);
    let m = 0x10_0000_0000_0000 + part;
    let k: nat = if e == 0x3fe {
        1
    } else if e == 0x3ff {
        2
    } else {
        4
    };
    assert(pow2((e - 1) as nat) == k * a);
    assert(m * (k * a) * 4 == q * (0x10_0000_0000_0000 * (2 * a))) by (nonlinear_arith)
        requires
            m * (2 * k) == q * 0x10_0000_0000_0000,
    ;
}


} // verus!
