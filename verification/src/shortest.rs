//! The shortest decimal notation of a number from which the number is read back.
use vstd::arithmetic::div_mod::{
    lemma_div_denominator, lemma_fundamental_div_mod, lemma_fundamental_div_mod_converse,
};
use vstd::arithmetic::power2::{lemma_pow2_pos, pow2};
use vstd::prelude::*;

use crate::bignat;
use crate::bignat::{power, value};
use crate::decimal;
use crate::float;
use crate::float::{Double, Single};
use crate::float_spec as fs;
use crate::float_spec::Format;
use crate::text;
use crate::text_spec as spec;

verus! {

/// A number with pattern `m` is `over / under` times `10^e`.
pub open spec fn over(f: Format, m: nat, e: int) -> nat {
    if e < 0 {
        fs::units(f, m) * power(10, (-e) as nat)
    } else {
        fs::units(f, m)
    }
}

pub open spec fn under(f: Format, e: int) -> nat {
    if e < 0 {
        pow2(fs::scale(f))
    } else {
        pow2(fs::scale(f)) * power(10, e as nat)
    }
}

/// Whether `n * 10^e` is read as the number with pattern `m`.
pub open spec fn reads_as(f: Format, m: nat, n: nat, e: int) -> bool {
    fs::finite_pattern(f, n, e) == m
}

/// How many times `10^e` is nearest to the number, of those that are read as it. There are at
/// most two to choose from, one on either side of the number; the greater one is taken where both
/// are as near.
pub open spec fn multiple(f: Format, m: nat, e: int) -> Option<nat> {
    let low = over(f, m, e) / under(f, e);
    if reads_as(f, m, low, e) && (!reads_as(f, m, low + 1, e) || 2 * over(f, m, e) < (2 * low + 1)
        * under(f, e)) {
        Some(low)
    } else if reads_as(f, m, low + 1, e) {
        Some(low + 1)
    } else {
        None
    }
}

/// The digits and the power of ten that they are multiplied by: the greatest power, from `10^e`
/// down, of which some multiple is read as the number. That of the unit is the last to be tried.
pub open spec fn digits_from(f: Format, m: nat, e: int) -> (nat, int)
    decreases e + fs::scale(f),
{
    match multiple(f, m, e) {
        Some(n) => (n, e),
        None => if e <= -fs::scale(f) {
            (0, e)
        } else {
            digits_from(f, m, e - 1)
        },
    }
}

/// The first power of ten above the number.
pub open spec fn top(f: Format, m: nat) -> int {
    decimal::decimal(fs::units(f, m) / pow2(fs::scale(f))).len() as int
}

/// `n * 10^e` without an exponent.
pub open spec fn plain(n: nat, e: int) -> Seq<char> {
    if e < 0 {
        fs::with_point(n, (-e) as nat)
    } else {
        decimal::decimal(n * power(10, e as nat))
    }
}

/// The shortest notation of a number that is read back as it.
pub open spec fn notation(f: Format, bits: nat) -> Seq<char> {
    let m = fs::magnitude(f, bits);
    if fs::is_nan(f, bits) {
        "NaN"@
    } else {
        (if fs::negative(f, bits) {
            "-"@
        } else {
            ""@
        }) + (if m == fs::infinity(f) {
            "inf"@
        } else if m == 0 {
            "0"@
        } else {
            plain(digits_from(f, m, top(f, m)).0, digits_from(f, m, top(f, m)).1)
        })
    }
}

fn reads_of(f: Format, m: u64, n: &Vec<u32>, e: i128) -> (r: bool)
    requires
        m < fs::infinity(f),
        -2000 <= e,
    ensures
        r == reads_as(f, m as nat, value(n@), e as int),
{
    let s = float::scale_of(f);
    let one = float::one();
    let num: Vec<u32>;
    let den: Vec<u32>;
    if e >= 0 {
        let v = bignat::scaled(n, 10, e as u128);
        num = bignat::shifted(&v, s);
        den = float::one();
    } else {
        num = bignat::shifted(n, s);
        den = bignat::scaled(&one, 10, (-e) as u128);
        assert(1 * power(10, (-e) as nat) == power(10, (-e) as nat)) by (nonlinear_arith);
    }
    let twice = bignat::mul_add(&num, 2, 0);
    proof {
        float::lemma_ten_powers(fs::abs(e as int));
        fs::lemma_nearest_exists(f, value(num@), value(den@));
        let c = fs::nearest(f, value(num@), value(den@));
        assert(fs::is_nearest(f, value(num@), value(den@), c));
        if fs::is_nearest(f, value(num@), value(den@), m as nat) {
            fs::lemma_nearest(f, value(num@), value(den@), m as nat);
        }
        assert(value(twice@) / 2 == value(num@));
    }
    float::reaches_of(f, &twice, &den, m) && !float::reaches_of(f, &twice, &den, m + 1)
}

fn over_of(f: Format, m: u64, e: i128) -> (r: Vec<u32>)
    requires
        m < fs::infinity(f),
        -2000 <= e,
    ensures
        value(r@) == over(f, m as nat, e as int),
{
    let u = float::units_of(f, m);
    if e < 0 {
        bignat::scaled(&u, 10, (-e) as u128)
    } else {
        u
    }
}

fn under_of(f: Format, e: i128) -> (r: Vec<u32>)
    ensures
        value(r@) == under(f, e as int),
{
    let one = float::one();
    let p = bignat::shifted(&one, float::scale_of(f));
    assert(1 * pow2(fs::scale(f)) == pow2(fs::scale(f))) by (nonlinear_arith);
    if e < 0 {
        p
    } else {
        bignat::scaled(&p, 10, e as u128)
    }
}

/// `v / 10^e`, rounded down.
fn tenths_of(v: &Vec<u32>, e: i128) -> (r: Vec<u32>)
    requires
        e >= 0,
    ensures
        value(r@) == value(v@) / power(10, e as nat),
{
    let mut r = bignat::mul_add(v, 1, 0);
    let mut i: i128 = 0;
    assert(value(v@) / 1 == value(v@));
    while i < e
        invariant
            0 <= i <= e,
            value(r@) == value(v@) / power(10, i as nat),
        decreases e - i,
    {
        let (q, d) = bignat::div_rem(&r, 10);
        proof {
            float::lemma_ten_powers(i as nat);
            let p = power(10, i as nat);
            lemma_div_denominator(value(v@) as int, p as int, 10);
            assert(p * 10 == 10 * p);
        }
        r = q;
        i = i + 1;
    }
    r
}

fn low_of(f: Format, m: u64, e: i128) -> (r: Vec<u32>)
    requires
        m < fs::infinity(f),
        -2000 <= e,
    ensures
        value(r@) == over(f, m as nat, e as int) / under(f, e as int),
{
    let a = over_of(f, m, e);
    let (q, _) = bignat::shifted_down(&a, float::scale_of(f));
    if e < 0 {
        q
    } else {
        proof {
            float::lemma_ten_powers(e as nat);
            lemma_pow2_pos(fs::scale(f));
            lemma_div_denominator(
                value(a@) as int,
                pow2(fs::scale(f)) as int,
                power(10, e as nat) as int,
            );
        }
        tenths_of(&q, e)
    }
}

fn multiple_of(f: Format, m: u64, e: i128) -> (r: Option<Vec<u32>>)
    requires
        m < fs::infinity(f),
        -2000 <= e,
    ensures
        match multiple(f, m as nat, e as int) {
            Some(n) => r matches Some(v) && value(v@) == n,
            None => r is None,
        },
{
    let low = low_of(f, m, e);
    let high = bignat::mul_add(&low, 1, 1);
    let is_low = reads_of(f, m, &low, e);
    let is_high = reads_of(f, m, &high, e);
    if is_low {
        if !is_high {
            return Some(low);
        }
        let over = over_of(f, m, e);
        let twice = bignat::mul_add(&over, 2, 0);
        let middle = bignat::mul_add(&low, 2, 1);
        let under = under_of(f, e);
        let edge = bignat::product(&middle, &under);
        if bignat::below(&twice, &edge) {
            return Some(low);
        }
    }
    if is_high {
        Some(high)
    } else {
        None
    }
}

/// The number times the power of ten of the unit is whole, so that it is read as itself.
proof fn lemma_exact(f: Format, m: nat)
    requires
        0 < m < fs::infinity(f),
    ensures
        multiple(f, m, -fs::scale(f)) is Some,
{
    let s = fs::scale(f);
    let p = pow2(s);
    let u = fs::units(f, m);
    let t = power(10, s);
    let five = power(5, s);
    lemma_pow2_pos(s);
    lemma_fives(s);
    float::lemma_ten_powers(s);
    assert(t == p * five);
    let n = u * five;
    assert(u * (p * five) == (u * five) * p) by (nonlinear_arith);
    lemma_fundamental_div_mod_converse((u * t) as int, p as int, n as int, 0);
    assert(over(f, m, -s) / under(f, -s) == n);
    // Read back: n * 2^s / 10^s is u.
    let num = n * p;
    assert(num == u * t) by (nonlinear_arith)
        requires
            num == (u * five) * p,
            t == p * five,
    ;
    fs::lemma_units_step(f, (m - 1) as nat);
    fs::lemma_units_step(f, m);
    let a = fs::units(f, (m - 1) as nat) + u;
    let b = u + fs::units(f, m + 1);
    assert(a * t < 2 * (u * t)) by (nonlinear_arith)
        requires
            a < 2 * u,
            t > 0,
    ;
    assert(2 * (u * t) < b * t) by (nonlinear_arith)
        requires
            2 * u < b,
            t > 0,
    ;
    assert(fs::is_nearest(f, num, t, m));
    fs::lemma_nearest(f, num, t, m);
    assert(reads_as(f, m, n, -s));
}

proof fn lemma_fives(k: nat)
    ensures
        power(10, k) == pow2(k) * power(5, k),
    decreases k,
{
    vstd::arithmetic::power2::lemma2_to64();
    if k > 0 {
        lemma_fives((k - 1) as nat);
        vstd::arithmetic::power2::lemma_pow2_unfold(k);
        let a = pow2((k - 1) as nat);
        let b = power(5, (k - 1) as nat);
        assert(10 * (a * b) == (2 * a) * (5 * b)) by (nonlinear_arith);
    } else {
        assert(pow2(0) * power(5, 0) == 1) by {
            assert(power(5, 0) == 1);
        }
    }
}

fn digits_of(f: Format, m: u64, start: i128) -> (r: (Vec<u32>, i128))
    requires
        0 < m < fs::infinity(f),
        0 <= start <= u64::MAX,
    ensures
        (value(r.0@), r.1 as int) == digits_from(f, m as nat, start as int),
        -fs::scale(f) <= r.1,
{
    let last: i128 = -(float::scale_of(f) as i128);
    let mut e: i128 = start;
    loop
        invariant
            0 < m < fs::infinity(f),
            last == -fs::scale(f),
            last <= e <= u64::MAX,
            digits_from(f, m as nat, start as int) == digits_from(f, m as nat, e as int),
        decreases e - last,
    {
        match multiple_of(f, m, e) {
            Some(n) => return (n, e),
            None => {
                proof {
                    lemma_exact(f, m as nat);
                }
                e = e - 1;
            },
        }
    }
}

/// The shortest notation of a number that is read back as it.
fn notation_of(f: Format, bits: u64) -> (r: Vec<char>)
    requires
        bits < 2 * fs::sign_bit(f),
    ensures
        r@ == notation(f, bits as nat),
{
    let m = float::magnitude_of(f, bits);
    let infinite = float::infinity_of(f);
    if m > infinite {
        return text::chars_of("NaN");
    }
    let mut r = if bits >= float::sign_of(f) {
        String::from_str("-")
    } else {
        String::from_str("")
    };
    if m == infinite {
        r.append("inf");
    } else if m == 0 {
        r.append("0");
    } else {
        let u = float::units_of(f, m);
        let (whole, _) = bignat::shifted_down(&u, float::scale_of(f));
        let start = bignat::written(&whole).len() as i128;
        let (n, e) = digits_of(f, m, start);
        let body = if e < 0 {
            float::with_point_of(&n, (-e) as u32)
        } else {
            let all = bignat::scaled(&n, 10, e as u128);
            bignat::written(&all)
        };
        text::push_chars(&mut r, body.as_slice());
    }
    text::chars_of(r.as_str())
}

/// The shortest notation of a number that is read back as it.
pub open spec fn single_notation(x: Single) -> Seq<char> {
    notation(Format::Single, x.bits as nat)
}

/// The shortest notation of a number that is read back as it.
pub open spec fn double_notation(x: Double) -> Seq<char> {
    notation(Format::Double, x.bits as nat)
}

impl Single {
    /// The shortest notation of the number that is read back as it.
    pub fn to_text(&self) -> (r: String)
        ensures
            r@ == single_notation(*self),
    {
        let s = notation_of(Format::Single, self.bits as u64);
        text::string_of(s.as_slice())
    }
}

impl Double {
    /// The shortest notation of the number that is read back as it.
    pub fn to_text(&self) -> (r: String)
        ensures
            r@ == double_notation(*self),
    {
        let s = notation_of(Format::Double, self.bits);
        text::string_of(s.as_slice())
    }
}

proof fn lemma_digits_read(f: Format, m: nat, e: int)
    requires
        0 < m < fs::infinity(f),
        e >= -fs::scale(f),
    ensures
        ({
            let (n, k) = digits_from(f, m, e);
            reads_as(f, m, n, k) && -fs::scale(f) <= k <= e
        }),
    decreases e + fs::scale(f),
{
    if multiple(f, m, e) is None {
        lemma_exact(f, m);
        lemma_digits_read(f, m, e - 1);
    }
}

proof fn lemma_low_digits(n: nat, k: nat)
    ensures
        fs::low_digits(n, k).len() == k,
        decimal::all_digits(fs::low_digits(n, k)),
    decreases k,
{
    if k > 0 {
        lemma_low_digits(n / 10, (k - 1) as nat);
    }
}

/// Digits before and after a point are together those of the whole number.
proof fn lemma_joined_digits(n: nat, k: nat)
    ensures
        decimal::digits_value(decimal::decimal(n / power(10, k)) + fs::low_digits(n, k)) == n,
    decreases k,
{
    let whole = decimal::decimal(n / power(10, k));
    if k == 0 {
        assert(n / 1 == n);
        assert(whole + fs::low_digits(n, 0) =~= whole);
        decimal::lemma_decimal(n);
    } else {
        let q = n / 10;
        lemma_joined_digits(q, (k - 1) as nat);
        float::lemma_ten_powers((k - 1) as nat);
        lemma_div_denominator(n as int, 10, power(10, (k - 1) as nat) as int);
        let s = whole + fs::low_digits(n, k);
        assert(s.drop_last() =~= decimal::decimal(q / power(10, (k - 1) as nat)) + fs::low_digits(
            q,
            (k - 1) as nat,
        ));
        assert(s.last() == decimal::digit_char(n % 10));
    }
}

/// A text of digits, and perhaps a point with digits after it.
proof fn lemma_literal(neg: bool, a: Seq<char>, b: Option<Seq<char>>)
    requires
        a.len() > 0,
        decimal::all_digits(a),
        b matches Some(d) ==> decimal::all_digits(d),
    ensures
        ({
            let body = match b {
                Some(d) => a + "."@ + d,
                None => a,
            };
            let digits = match b {
                Some(d) => a + d,
                None => a,
            };
            let e = match b {
                Some(d) => -d.len(),
                None => 0,
            };
            fs::literal((if neg {
                "-"@
            } else {
                ""@
            }) + body) == Some(fs::Literal::Finite(neg, decimal::digits_value(digits), e))
        }),
{
    reveal_strlit("-");
    reveal_strlit("");
    reveal_strlit(".");
    reveal_strlit("e");
    reveal_strlit("inf");
    reveal_strlit("infinity");
    reveal_strlit("nan");
    let body = match b {
        Some(d) => a + "."@ + d,
        None => a,
    };
    let s = (if neg {
        "-"@
    } else {
        ""@
    }) + body;
    assert(spec::is_digit(a[0]));
    assert(body[0] == a[0]);
    if neg {
        assert(s[0] == '-');
        assert(s.skip(1) =~= body);
    } else {
        assert(s =~= body);
    }
    assert(fs::unsigned_part(s) == body);
    assert forall|i: int| 0 <= i < body.len() implies spec::is_digit(#[trigger] body[i]) || body[i]
        == '.' by {
        if i < a.len() {
            assert(body[i] == a[i]);
        } else if i > a.len() {
            assert(body[i] == b->Some_0[i - a.len() - 1]);
        }
    }
    assert(spec::lower(body) =~= body);
    assert("inf"@[0] == 'i' && "infinity"@[0] == 'i' && "nan"@[0] == 'n');
    assert("e"@ =~= seq!['e']);
    assert(!body.contains('e'));
    spec::lemma_no_split(body, 'e');
    assert("."@ =~= seq!['.']);
    assert(!a.contains('.'));
    match b {
        Some(d) => {
            spec::lemma_split_at(a, '.', d);
            assert forall|i: int| 0 <= i < (a + d).len() implies spec::is_digit(
                #[trigger] (a + d)[i],
            ) by {
                if i < a.len() {
                    assert((a + d)[i] == a[i]);
                } else {
                    assert((a + d)[i] == d[i - a.len()]);
                }
            }
        },
        None => {
            spec::lemma_no_split(a, '.');
            assert(a + Seq::<char>::empty() =~= a);
        },
    }
}

proof fn lemma_zero_read(f: Format)
    ensures
        fs::finite_pattern(f, 0, 0) == 0,
{
    let p = pow2(fs::scale(f));
    vstd::arithmetic::power2::lemma2_to64();
    lemma_pow2_pos(fs::fraction_bits(f));
    let h = pow2(fs::fraction_bits(f));
    assert(0 * power(10, 0) * p == 0) by (nonlinear_arith);
    lemma_fundamental_div_mod_converse(0, h as int, 0, 0);
    fs::lemma_units_step(f, 0);
    assert(fs::is_nearest(f, 0, 1, 0));
    fs::lemma_nearest(f, 0, 1, 0);
}

proof fn lemma_infinity_read(neg: bool)
    ensures
        fs::literal((if neg {
            "-"@
        } else {
            ""@
        }) + "inf"@) == Some(fs::Literal::Infinite(neg)),
{
    reveal_strlit("-");
    reveal_strlit("");
    reveal_strlit("inf");
    let s = (if neg {
        "-"@
    } else {
        ""@
    }) + "inf"@;
    if neg {
        assert(s[0] == '-');
        assert(s.skip(1) =~= "inf"@);
    } else {
        assert(s =~= "inf"@);
    }
    assert("inf"@[0] == 'i');
    assert(spec::lower("inf"@) =~= "inf"@);
}

/// Digits in plain notation are read as the number that they were made for.
proof fn lemma_plain_read(f: Format, neg: bool, n: nat, e: int)
    ensures
        fs::parsed(f, (if neg {
            "-"@
        } else {
            ""@
        }) + plain(n, e)) == Some(fs::with_sign(f, neg, fs::finite_pattern(f, n, e))),
{
    if e < 0 {
        let k = (-e) as nat;
        decimal::lemma_decimal(n / power(10, k));
        lemma_low_digits(n, k);
        lemma_joined_digits(n, k);
        lemma_literal(neg, decimal::decimal(n / power(10, k)), Some(fs::low_digits(n, k)));
    } else {
        let all = n * power(10, e as nat);
        decimal::lemma_decimal(all);
        lemma_literal(neg, decimal::decimal(all), None);
        assert(power(10, 0) == 1);
        assert(all * power(10, 0) == all);
    }
}

proof fn lemma_notation_read(f: Format, bits: nat)
    requires
        bits < 2 * fs::sign_bit(f),
        !fs::is_nan(f, bits),
    ensures
        fs::parsed(f, notation(f, bits)) == Some(bits),
{
    let m = fs::magnitude(f, bits);
    let neg = fs::negative(f, bits);
    assert(fs::with_sign(f, neg, m) == bits);
    if m == fs::infinity(f) {
        lemma_infinity_read(neg);
    } else if m == 0 {
        reveal_strlit("0");
        assert("0"@ =~= decimal::decimal(0));
        assert(0 * power(10, 0) == 0);
        lemma_plain_read(f, neg, 0, 0);
        lemma_zero_read(f);
    } else {
        lemma_digits_read(f, m, top(f, m));
        let (n, e) = digits_from(f, m, top(f, m));
        lemma_plain_read(f, neg, n, e);
    }
}

/// A number that is written and read again is the number, whatever it is: large or small, zero of
/// either sign, or infinite.
pub proof fn written_numbers_are_read_back(x: Double)
    requires
        !fs::is_nan(Format::Double, x.bits as nat),
    ensures
        float::double_value(double_notation(x)) == Some(x),
{
    lemma_notation_read(Format::Double, x.bits as nat);
}

/// The same of a number of single precision.
pub proof fn written_single_numbers_are_read_back(x: Single)
    requires
        !fs::is_nan(Format::Single, x.bits as nat),
    ensures
        float::single_value(single_notation(x)) == Some(x),
{
    lemma_notation_read(Format::Single, x.bits as nat);
}

// ---- that it is the shortest ----

/// `n * 10^e` in units is `whole / parts`.
pub open spec fn whole(f: Format, n: nat, e: int) -> nat {
    if e >= 0 {
        n * power(10, e as nat) * pow2(fs::scale(f))
    } else {
        n * pow2(fs::scale(f))
    }
}

pub open spec fn parts(e: int) -> nat {
    if e >= 0 {
        1
    } else {
        power(10, (-e) as nat)
    }
}

proof fn lemma_reaches_more(f: Format, a: nat, b: nat, den: nat, m: nat)
    requires
        a <= b,
        fs::reaches(f, a, den, m),
    ensures
        fs::reaches(f, b, den, m),
{
}

proof fn lemma_reads(f: Format, m: nat, n: nat, e: int)
    requires
        m < fs::infinity(f),
    ensures
        reads_as(f, m, n, e) == fs::is_nearest(f, whole(f, n, e), parts(e), m),
{
    float::lemma_ten_powers(fs::abs(e));
    let num = whole(f, n, e);
    let den = parts(e);
    fs::lemma_nearest_exists(f, num, den);
    let c = fs::nearest(f, num, den);
    assert(fs::is_nearest(f, num, den, c));
    if fs::is_nearest(f, num, den, m) {
        fs::lemma_nearest(f, num, den, m);
    }
}

proof fn lemma_whole_grows(f: Format, a: nat, b: nat, e: int)
    requires
        a <= b,
    ensures
        whole(f, a, e) <= whole(f, b, e),
{
    let p = pow2(fs::scale(f));
    let t = power(10, e as nat);
    assert(a * p <= b * p) by (nonlinear_arith)
        requires
            a <= b,
    ;
    assert(a * t * p <= b * t * p) by (nonlinear_arith)
        requires
            a <= b,
    ;
}

/// The number lies from its multiple of `10^e` rounded down to the next one.
proof fn lemma_around(f: Format, m: nat, e: int)
    ensures
        ({
            let low = over(f, m, e) / under(f, e);
            &&& whole(f, low, e) <= fs::units(f, m) * parts(e)
            &&& fs::units(f, m) * parts(e) <= whole(f, low + 1, e)
        }),
{
    let p = pow2(fs::scale(f));
    let x = over(f, m, e);
    let y = under(f, e);
    let low = x / y;
    float::lemma_ten_powers(fs::abs(e));
    lemma_pow2_pos(fs::scale(f));
    let t = power(10, e as nat);
    assert(e >= 0 ==> p * t > 0) by (nonlinear_arith)
        requires
            p > 0,
            e >= 0 ==> t > 0,
    ;
    lemma_fundamental_div_mod(x as int, y as int);
    assert(low * y <= x && x <= (low + 1) * y) by (nonlinear_arith)
        requires
            x == y * low + x % y,
            0 <= x % y < y,
    ;
    assert(low * (p * t) == low * t * p) by (nonlinear_arith);
    assert((low + 1) * (p * t) == (low + 1) * t * p) by (nonlinear_arith);
    assert(fs::units(f, m) * 1 == fs::units(f, m));
}

/// The number itself is read as itself, in whatever parts it is given.
proof fn lemma_itself(f: Format, m: nat, den: nat)
    requires
        0 < m < fs::infinity(f),
        den > 0,
    ensures
        fs::reaches(f, fs::units(f, m) * den, den, m),
        !fs::reaches(f, fs::units(f, m) * den, den, m + 1),
{
    let u = fs::units(f, m);
    fs::lemma_units_step(f, (m - 1) as nat);
    fs::lemma_units_step(f, m);
    let a = fs::units(f, (m - 1) as nat) + u;
    let b = u + fs::units(f, m + 1);
    assert(a * den < 2 * (u * den)) by (nonlinear_arith)
        requires
            a < 2 * u,
            den > 0,
    ;
    assert(2 * (u * den) < b * den) by (nonlinear_arith)
        requires
            2 * u < b,
            den > 0,
    ;
}

proof fn lemma_neighbours(f: Format, m: nat, n: nat, low: nat, e: int)
    requires
        0 < m < fs::infinity(f),
        whole(f, low, e) <= fs::units(f, m) * parts(e),
        fs::units(f, m) * parts(e) <= whole(f, low + 1, e),
        reads_as(f, m, n, e),
    ensures
        reads_as(f, m, low, e) || reads_as(f, m, low + 1, e),
{
    let den = parts(e);
    let v = fs::units(f, m) * den;
    float::lemma_ten_powers(fs::abs(e));
    lemma_reads(f, m, n, e);
    lemma_reads(f, m, low, e);
    lemma_reads(f, m, low + 1, e);
    lemma_itself(f, m, den);
    if n <= low {
        lemma_whole_grows(f, n, low, e);
        lemma_reaches_more(f, whole(f, n, e), whole(f, low, e), den, m);
        if fs::reaches(f, whole(f, low, e), den, m + 1) {
            lemma_reaches_more(f, whole(f, low, e), v, den, m + 1);
        }
    } else {
        lemma_whole_grows(f, low + 1, n, e);
        lemma_reaches_more(f, v, whole(f, low + 1, e), den, m);
        if fs::reaches(f, whole(f, low + 1, e), den, m + 1) {
            lemma_reaches_more(f, whole(f, low + 1, e), whole(f, n, e), den, m + 1);
        }
    }
}

proof fn lemma_multiples(f: Format, m: nat, n: nat, e: int)
    requires
        0 < m < fs::infinity(f),
        reads_as(f, m, n, e),
    ensures
        multiple(f, m, e) is Some,
{
    lemma_around(f, m, e);
    lemma_neighbours(f, m, n, over(f, m, e) / under(f, e), e);
}

/// Of the powers of ten that are tried, no multiple of one greater than that of the notation is
/// read as the number.
pub proof fn notation_is_the_shortest(f: Format, m: nat, start: int, n: nat, e: int)
    requires
        0 < m < fs::infinity(f),
        -fs::scale(f) <= start,
        digits_from(f, m, start).1 < e <= start,
    ensures
        !reads_as(f, m, n, e),
    decreases start - e,
{
    if multiple(f, m, start) is None && start > -fs::scale(f) {
        if e == start {
            if reads_as(f, m, n, e) {
                lemma_multiples(f, m, n, e);
            }
        } else {
            notation_is_the_shortest(f, m, start - 1, n, e);
        }
    }
}

} // verus!
