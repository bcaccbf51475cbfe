//! How much of each color there is at a temperature. The levels of the colors follow from
//! logarithms and powers, which are computed elsewhere: here stands of what numbers they are
//! taken, and what is made of them.
use vstd::arithmetic::power2::{lemma_pow2_adds, lemma_pow2_pos, lemma_pow2_unfold, pow2};
use vstd::prelude::*;

use crate::float;
use crate::float::Double;
use crate::float_spec as fs;
use crate::float_spec::Format;

pub mod laws;

verus! {

/// The temperature of neutral white, in kelvin.
pub const NEUTRAL_KELVIN: u16 = 6500;

pub const MIN_KELVIN: u16 = 1000;

pub const MAX_KELVIN: u16 = 10000;

// The bit patterns of numbers of double precision.

/// 19 and 66: the temperatures, in hundreds of kelvin, at which the levels change their course.
pub const NINETEEN: u64 = 0x4033_0000_0000_0000;

pub const SIXTY_SIX: u64 = 0x4050_8000_0000_0000;

/// -10 and -60: what is taken from the temperature.
pub const MINUS_TEN: u64 = 0xc024_0000_0000_0000;

pub const MINUS_SIXTY: u64 = 0xc04e_0000_0000_0000;

/// 255: the greatest level.
pub const FULL: u64 = 0x406f_e000_0000_0000;

/// 329.698727446 and -0.1332047592: how red falls.
pub const RED_FACTOR: u64 = 0x4074_9b2d_fcd4_9634;

pub const RED_EXPONENT: u64 = 0xbfc1_0cda_8237_c045;

/// 99.4708025861 and -161.1195681661: how green rises.
pub const GREEN_RISE: u64 = 0x4058_de21_a12b_8afe;

pub const GREEN_OFFSET: u64 = 0xc064_23d3_809e_615a;

/// 288.1221695283 and -0.0755148492: how green falls.
pub const GREEN_FACTOR: u64 = 0x4072_01f4_6809_09dc;

pub const GREEN_EXPONENT: u64 = 0xbfb3_54f0_efad_26b3;

/// 138.5177312231 and -305.0447927307: how blue rises.
pub const BLUE_RISE: u64 = 0x4061_5091_4111_eaa4;

pub const BLUE_OFFSET: u64 = 0xc073_10b7_7895_1748;

/// 0.2126, 0.7152 and 0.0722: how bright the colors appear.
pub const RED_LUMA: u64 = 0x3fcb_367a_0f90_96bc;

pub const GREEN_LUMA: u64 = 0x3fe6_e2eb_1c43_2ca5;

pub const BLUE_LUMA: u64 = 0x3fb2_7bb2_fec5_6d5d;

/// 2: how much more of a color there may be than at the neutral temperature.
pub const TWICE: u64 = 0x4000_0000_0000_0000;

/// How the level of a color is computed.
#[derive(Clone, Copy, Debug)]
pub enum Curve {
    /// It is the number.
    Level(Double),
    /// It is the natural logarithm of a number, times the factor, plus the offset.
    Logarithm { of: Double, factor: Double, offset: Double },
    /// It is the power of a number, times the factor.
    Power { of: Double, exponent: Double, factor: Double },
}

/// The temperature in hundreds of kelvin, in its range.
pub open spec fn hundreds(kelvin: u16) -> Double {
    float::hundredths(
        if kelvin < MIN_KELVIN {
            MIN_KELVIN as nat
        } else if kelvin > MAX_KELVIN {
            MAX_KELVIN as nat
        } else {
            kelvin as nat
        },
    )
}

/// Red is full up to 66 hundreds of kelvin, and falls from there on.
pub open spec fn red(t: Double) -> Curve {
    if !float::less_double(float::double(SIXTY_SIX), t) {
        Curve::Level(float::double(FULL))
    } else {
        Curve::Power {
            of: float::sum_double(t, float::double(MINUS_SIXTY)),
            exponent: float::double(RED_EXPONENT),
            factor: float::double(RED_FACTOR),
        }
    }
}

/// Green rises up to 66 hundreds of kelvin, and falls from there on.
pub open spec fn green(t: Double) -> Curve {
    if !float::less_double(float::double(SIXTY_SIX), t) {
        Curve::Logarithm {
            of: t,
            factor: float::double(GREEN_RISE),
            offset: float::double(GREEN_OFFSET),
        }
    } else {
        Curve::Power {
            of: float::sum_double(t, float::double(MINUS_SIXTY)),
            exponent: float::double(GREEN_EXPONENT),
            factor: float::double(GREEN_FACTOR),
        }
    }
}

/// There is no blue up to 19 hundreds of kelvin; it rises from there on, and is full above 66,
/// and at 66 where that is asked for.
pub open spec fn blue(t: Double, full_at_edge: bool) -> Curve {
    if float::less_double(float::double(SIXTY_SIX), t) || (full_at_edge && !float::less_double(
        t,
        float::double(SIXTY_SIX),
    )) {
        Curve::Level(float::double(FULL))
    } else if !float::less_double(float::double(NINETEEN), t) {
        Curve::Level(float::double(float::ZERO_DOUBLE))
    } else {
        Curve::Logarithm {
            of: float::sum_double(t, float::double(MINUS_TEN)),
            factor: float::double(BLUE_RISE),
            offset: float::double(BLUE_OFFSET),
        }
    }
}

/// How the levels of red, green and blue are computed at a temperature.
pub fn curves(kelvin: u16, full_at_edge: bool) -> (r: (Curve, Curve, Curve))
    ensures
        r == (red(hundreds(kelvin)), green(hundreds(kelvin)), blue(hundreds(kelvin), full_at_edge)),
{
    let k: u16 = if kelvin < MIN_KELVIN {
        MIN_KELVIN
    } else if kelvin > MAX_KELVIN {
        MAX_KELVIN
    } else {
        kelvin
    };
    let t = Double::hundredths(k as u32);
    let edge = Double { bits: SIXTY_SIX };
    let full = Curve::Level(Double { bits: FULL });
    let above = edge.less(t);
    let r = if !above {
        full
    } else {
        Curve::Power {
            of: t.plus(Double { bits: MINUS_SIXTY }),
            exponent: Double { bits: RED_EXPONENT },
            factor: Double { bits: RED_FACTOR },
        }
    };
    let g = if !above {
        Curve::Logarithm {
            of: t,
            factor: Double { bits: GREEN_RISE },
            offset: Double { bits: GREEN_OFFSET },
        }
    } else {
        Curve::Power {
            of: t.plus(Double { bits: MINUS_SIXTY }),
            exponent: Double { bits: GREEN_EXPONENT },
            factor: Double { bits: GREEN_FACTOR },
        }
    };
    let b = if above || (full_at_edge && !t.less(edge)) {
        full
    } else if !(Double { bits: NINETEEN }).less(t) {
        Curve::Level(Double { bits: float::ZERO_DOUBLE })
    } else {
        Curve::Logarithm {
            of: t.plus(Double { bits: MINUS_TEN }),
            factor: Double { bits: BLUE_RISE },
            offset: Double { bits: BLUE_OFFSET },
        }
    };
    (r, g, b)
}

/// The level, given the logarithm or the power.
pub open spec fn level(c: Curve, found: Double) -> Double {
    match c {
        Curve::Level(x) => x,
        Curve::Logarithm { factor, offset, .. } => float::sum_double(
            float::times(factor, found),
            offset,
        ),
        Curve::Power { factor, .. } => float::times(factor, found),
    }
}

impl Curve {
    /// The level, given the logarithm or the power.
    pub fn level(self, found: Double) -> (r: Double)
        ensures
            r == level(self, found),
    {
        match self {
            Curve::Level(x) => x,
            Curve::Logarithm { factor, offset, .. } => factor.times(found).plus(offset),
            Curve::Power { factor, .. } => factor.times(found),
        }
    }
}

/// How much of a color there is: its level, as a share of the greatest one.
pub open spec fn amount(level: Double) -> Double {
    float::quotient(
        float::between(level, float::double(float::ZERO_DOUBLE), float::double(FULL)),
        float::double(FULL),
    )
}

fn amount_of(level: Double) -> (r: Double)
    ensures
        r == amount(level),
{
    let full = Double { bits: FULL };
    level.between(Double { bits: float::ZERO_DOUBLE }, full).over(full)
}

/// How much of each color there is, given the levels.
pub fn kelvin_to_rgb(red: Double, green: Double, blue: Double) -> (r: (Double, Double, Double))
    ensures
        r == (amount(red), amount(green), amount(blue)),
{
    (amount_of(red), amount_of(green), amount_of(blue))
}

/// How bright a color with the amounts appears.
pub open spec fn luma(r: Double, g: Double, b: Double) -> Double {
    float::sum_double(
        float::sum_double(
            float::times(float::double(RED_LUMA), r),
            float::times(float::double(GREEN_LUMA), g),
        ),
        float::times(float::double(BLUE_LUMA), b),
    )
}

/// An amount in relation to how bright all of them appear together.
pub open spec fn balanced(x: Double, luma: Double) -> Double {
    if float::less_double(float::double(float::ZERO_DOUBLE), luma) {
        float::quotient(x, luma)
    } else {
        x
    }
}

/// How much of each color there is to be, given the levels: the amounts, made to appear about as
/// bright as the neutral color, so that temperature and brightness are independent of each other.
pub fn kelvin_to_rgb_scales(red: Double, green: Double, blue: Double) -> (r: (Double, Double, Double))
    ensures
        ({
            let all = luma(amount(red), amount(green), amount(blue));
            r == (
                balanced(amount(red), all),
                balanced(amount(green), all),
                balanced(amount(blue), all),
            )
        }),
{
    let r = amount_of(red);
    let g = amount_of(green);
    let b = amount_of(blue);
    let all = Double { bits: RED_LUMA }.times(r).plus(Double { bits: GREEN_LUMA }.times(g)).plus(
        Double { bits: BLUE_LUMA }.times(b),
    );
    if all.is_positive() {
        (r.over(all), g.over(all), b.over(all))
    } else {
        (r, g, b)
    }
}

/// How much more of a color there is than at the neutral temperature, up to twice as much.
pub open spec fn multiplier(amount: Double, neutral: Double) -> Double {
    float::between(
        float::quotient(amount, neutral),
        float::double(float::ZERO_DOUBLE),
        float::double(TWICE),
    )
}

/// How much more of a color there is than at the neutral temperature.
pub fn multiplier_of(amount: Double, neutral: Double) -> (r: Double)
    ensures
        r == multiplier(amount, neutral),
{
    amount.over(neutral).between(Double { bits: float::ZERO_DOUBLE }, Double { bits: TWICE })
}

// ---- laws ----

/// 1/16, 4 and 16: bounds of what can come out.
pub const SIXTEENTH: u64 = 0x3fb0_0000_0000_0000;

pub const FOUR: u64 = 0x4010_0000_0000_0000;

pub const SIXTEEN: u64 = 0x4030_0000_0000_0000;

/// At every temperature there is as much as there can be of red or of blue.
pub proof fn a_color_is_full(kelvin: u16, full_at_edge: bool)
    ensures
        red(hundreds(kelvin)) == Curve::Level(float::double(FULL)) || blue(
            hundreds(kelvin),
            full_at_edge,
        ) == Curve::Level(float::double(FULL)),
{
}

/// Whether the number is not negative, and not above another one.
pub open spec fn is_from_zero_to(x: Double, top: u64) -> bool {
    &&& !fs::is_nan(Format::Double, x.bits as nat)
    &&& !float::less_double(x, float::double(float::ZERO_DOUBLE))
    &&& !float::less_double(float::double(top), x)
}

/// The amount of a color is a share: a number from zero to one.
pub proof fn amounts_are_shares(level: Double)
    requires
        !fs::is_nan(Format::Double, level.bits as nat),
    ensures
        is_from_zero_to(amount(level), float::ONE_DOUBLE),
        level.bits == FULL ==> amount(level).bits == float::ONE_DOUBLE,
{
    let f = Format::Double;
    lemma_patterns();
    let x = float::between(level, float::double(float::ZERO_DOUBLE), float::double(FULL));
    let m = fs::magnitude(f, x.bits as nat);
    assert(m <= FULL);
    assert(fs::negative(f, x.bits as nat) ==> m == 0);
    let den = fs::units(f, FULL as nat);
    fs::lemma_units_monotone(f, 1, FULL as nat);
    fs::lemma_units_step(f, 0);
    fs::lemma_units_monotone(f, m, FULL as nat);
    let one = fs::units(f, float::ONE_DOUBLE as nat);
    let num = fs::units(f, m) * pow2(1074);
    assert(num <= one * den) by (nonlinear_arith)
        requires
            num == fs::units(f, m) * one,
            fs::units(f, m) <= den,
    ;
    fs::lemma_nearest_at_most(f, num, den, float::ONE_DOUBLE as nat);
    if m == 0 {
        fs::lemma_nearest_at_most(f, 0, den, 0);
        assert(fs::units(f, 0) * pow2(1074) == 0);
    }
    if level.bits == FULL {
        assert(num == one * den) by (nonlinear_arith)
            requires
                num == den * one,
        ;
        fs::lemma_nearest_at_least(f, num, den, float::ONE_DOUBLE as nat);
    }
}

/// The product of a factor and a share is at most the factor; that of a factor and one is the
/// factor.
proof fn lemma_part(factor: u64, x: Double)
    requires
        0 < factor < float::ONE_DOUBLE,
        is_from_zero_to(x, float::ONE_DOUBLE),
    ensures
        is_from_zero_to(float::times(float::double(factor), x), factor),
        x.bits == float::ONE_DOUBLE ==> float::times(float::double(factor), x).bits == factor,
{
    let f = Format::Double;
    lemma_patterns();
    let m = fs::magnitude(f, x.bits as nat);
    let den = pow2(1074);
    lemma_pow2_pos(1074);
    fs::lemma_units_monotone(f, m, float::ONE_DOUBLE as nat);
    let c = fs::units(f, factor as nat);
    let num = c * fs::units(f, m);
    assert(num <= c * den) by (nonlinear_arith)
        requires
            num == c * fs::units(f, m),
            fs::units(f, m) <= den,
    ;
    fs::lemma_nearest_at_most(f, num, den, factor as nat);
    if m == 0 {
        fs::lemma_nearest_at_most(f, 0, den, 0);
    }
    if x.bits == float::ONE_DOUBLE {
        fs::lemma_nearest_at_least(f, num, den, factor as nat);
    }
}

/// The sum of numbers that are not negative is not below either of them, and at most as great as
/// the sum of their bounds.
proof fn lemma_sum(a: Double, b: Double, p: u64, q: u64, top: u64)
    requires
        is_from_zero_to(a, p),
        is_from_zero_to(b, q),
        p < fs::infinity(Format::Double),
        q < fs::infinity(Format::Double),
        top < fs::infinity(Format::Double),
        fs::units(Format::Double, p as nat) + fs::units(Format::Double, q as nat) <= fs::units(
            Format::Double,
            top as nat,
        ),
    ensures
        is_from_zero_to(float::sum_double(a, b), top),
        !float::less_double(float::sum_double(a, b), a),
        !float::less_double(float::sum_double(a, b), b),
{
    let f = Format::Double;
    lemma_patterns();
    let x = fs::magnitude(f, a.bits as nat);
    let y = fs::magnitude(f, b.bits as nat);
    let u = fs::units(f, x);
    let v = fs::units(f, y);
    fs::lemma_units_monotone(f, x, p as nat);
    fs::lemma_units_monotone(f, y, q as nat);
    assert(fs::signed_units(f, a.bits as nat) == u);
    assert(fs::signed_units(f, b.bits as nat) == v);
    fs::lemma_nearest_at_most(f, u + v, 1, top as nat);
    fs::lemma_nearest_at_least(f, u + v, 1, x);
    fs::lemma_nearest_at_least(f, u + v, 1, y);
    if x > 0 {
        fs::lemma_units_monotone(f, 1, x);
        fs::lemma_units_step(f, 0);
    }
    if y > 0 {
        fs::lemma_units_monotone(f, 1, y);
        fs::lemma_units_step(f, 0);
    }
}

/// A share, divided by something that is at least a sixteenth, is at most 16.
proof fn lemma_balanced(x: Double, all: Double)
    requires
        is_from_zero_to(x, float::ONE_DOUBLE),
        is_from_zero_to(all, FOUR),
        !float::less_double(all, float::double(SIXTEENTH)),
    ensures
        is_from_zero_to(balanced(x, all), SIXTEEN),
{
    let f = Format::Double;
    lemma_patterns();
    let m = fs::magnitude(f, x.bits as nat);
    let l = fs::magnitude(f, all.bits as nat);
    let den = fs::units(f, l);
    fs::lemma_units_monotone(f, m, float::ONE_DOUBLE as nat);
    fs::lemma_units_monotone(f, SIXTEENTH as nat, l);
    lemma_pow2_pos(1070);
    lemma_pow2_pos(1074);
    lemma_pow2_adds(1074, 1074);
    lemma_pow2_adds(1078, 1070);
    let s = pow2(1074);
    let num = fs::units(f, m) * s;
    assert(num <= s * s) by (nonlinear_arith)
        requires
            num == fs::units(f, m) * s,
            fs::units(f, m) <= s,
    ;
    assert(pow2(1078) * den >= pow2(1078) * pow2(1070)) by (nonlinear_arith)
        requires
            den >= pow2(1070),
    ;
    fs::lemma_nearest_at_most(f, num, den, SIXTEEN as nat);
    if m == 0 {
        fs::lemma_nearest_at_most(f, 0, den, 0);
        assert(fs::units(f, 0) * s == 0);
    }
}

/// How much there is to be of each color is a finite number that is not negative: at most 16, at
/// every temperature, since red or blue is full there.
pub proof fn scales_are_finite(red: Double, green: Double, blue: Double)
    requires
        !fs::is_nan(Format::Double, red.bits as nat),
        !fs::is_nan(Format::Double, green.bits as nat),
        !fs::is_nan(Format::Double, blue.bits as nat),
        red.bits == FULL || blue.bits == FULL,
    ensures
        ({
            let all = luma(amount(red), amount(green), amount(blue));
            &&& is_from_zero_to(balanced(amount(red), all), SIXTEEN)
            &&& is_from_zero_to(balanced(amount(green), all), SIXTEEN)
            &&& is_from_zero_to(balanced(amount(blue), all), SIXTEEN)
        }),
{
    lemma_patterns();
    amounts_are_shares(red);
    amounts_are_shares(green);
    amounts_are_shares(blue);
    let r = float::times(float::double(RED_LUMA), amount(red));
    let g = float::times(float::double(GREEN_LUMA), amount(green));
    let b = float::times(float::double(BLUE_LUMA), amount(blue));
    lemma_part(RED_LUMA, amount(red));
    lemma_part(GREEN_LUMA, amount(green));
    lemma_part(BLUE_LUMA, amount(blue));
    let rg = float::sum_double(r, g);
    let all = float::sum_double(rg, b);
    let one = float::ONE_DOUBLE;
    assert(is_from_zero_to(r, one) && is_from_zero_to(g, one) && is_from_zero_to(b, one));
    lemma_pow2_unfold(1075);
    lemma_pow2_unfold(1076);
    lemma_sum(r, g, one, one, TWICE);
    lemma_sum(rg, b, TWICE, one, FOUR);
    assert(!float::less_double(all, float::double(SIXTEENTH)));
    lemma_balanced(amount(red), all);
    lemma_balanced(amount(green), all);
    lemma_balanced(amount(blue), all);
}

/// The numbers of units of the numbers that bounds are stated with.
proof fn lemma_patterns()
    ensures
        fs::units(Format::Double, 0) == 0,
        fs::units(Format::Double, SIXTEENTH as nat) == pow2(1070),
        fs::units(Format::Double, float::ONE_DOUBLE as nat) == pow2(1074),
        fs::units(Format::Double, TWICE as nat) == pow2(1075),
        fs::units(Format::Double, FOUR as nat) == pow2(1076),
        fs::units(Format::Double, SIXTEEN as nat) == pow2(1078),
{
    vstd::arithmetic::power2::lemma2_to64();
    vstd::arithmetic::power2::lemma2_to64_rest();
    lemma_pow2_adds(52, 1018);
    lemma_pow2_adds(52, 1022);
    lemma_pow2_adds(52, 1023);
    lemma_pow2_adds(52, 1024);
    lemma_pow2_adds(52, 1026);
}

} // verus!
