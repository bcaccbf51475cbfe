//! Natural numbers of any size, as limbs of 32 bits, the lowest first.
use vstd::arithmetic::power2::{lemma_pow2_adds, lemma_pow2_pos, pow2};
use vstd::prelude::*;

use crate::decimal;

verus! {

/// The weight of the limb at place `i`.
pub open spec fn weight(i: nat) -> nat
    decreases i,
{
    if i == 0 {
        1
    } else {
        0x1_0000_0000 * weight((i - 1) as nat)
    }
}

/// The limb at place `i`; zero beyond the end.
pub open spec fn limb(s: Seq<u32>, i: int) -> nat {
    if 0 <= i < s.len() {
        s[i] as nat
    } else {
        0
    }
}

/// The number that the lowest `i` limbs stand for.
pub open spec fn upto(s: Seq<u32>, i: nat) -> nat
    decreases i,
{
    if i == 0 {
        0
    } else {
        upto(s, (i - 1) as nat) + limb(s, i - 1) * weight((i - 1) as nat)
    }
}

/// The number that the limbs stand for.
pub open spec fn value(s: Seq<u32>) -> nat {
    upto(s, s.len())
}

proof fn lemma_lowest(x: nat)
    ensures
        x * weight(0) == x,
{
    let w = weight(0);
    assert(x * w == x) by (nonlinear_arith)
        requires
            w == 1,
    ;
}

proof fn lemma_same_limbs(s: Seq<u32>, t: Seq<u32>, i: nat)
    requires
        forall|j: int| 0 <= j < i ==> limb(s, j) == limb(t, j),
    ensures
        upto(s, i) == upto(t, i),
    decreases i,
{
    if i > 0 {
        lemma_same_limbs(s, t, (i - 1) as nat);
    }
}

proof fn lemma_beyond(s: Seq<u32>, i: nat)
    requires
        i >= s.len(),
    ensures
        upto(s, i) == value(s),
    decreases i,
{
    if i > s.len() {
        lemma_beyond(s, (i - 1) as nat);
        assert(0 * weight((i - 1) as nat) == 0) by (nonlinear_arith);
    }
}

proof fn lemma_push(s: Seq<u32>, x: u32)
    ensures
        value(s.push(x)) == value(s) + x as nat * weight(s.len()),
{
    lemma_same_limbs(s, s.push(x), s.len());
}

proof fn lemma_bound(s: Seq<u32>, i: nat)
    ensures
        upto(s, i) < weight(i),
    decreases i,
{
    if i > 0 {
        lemma_bound(s, (i - 1) as nat);
        let w = weight((i - 1) as nat);
        let l = limb(s, i - 1);
        assert(l * w <= 0xffff_ffff * w) by (nonlinear_arith)
            requires
                l <= 0xffff_ffff,
        ;
    }
}

/// `v * m + a`.
pub fn mul_add(v: &Vec<u32>, m: u32, a: u32) -> (r: Vec<u32>)
    ensures
        value(r@) == value(v@) * m + a,
{
    let mut r: Vec<u32> = Vec::new();
    let mut carry: u32 = a;
    let mut i: usize = 0;
    assert(0 * m as nat == 0) by (nonlinear_arith);
    proof {
        lemma_lowest(carry as nat);
    }
    while i < v.len()
        invariant
            i <= v@.len(),
            r@.len() == i,
            value(r@) + carry as nat * weight(i as nat) == upto(v@, i as nat) * m + a,
        decreases v.len() - i,
    {
        let limb: u32 = v[i];
        assert(limb as int * m as int + carry as int <= 0xffff_ffff * 0xffff_ffff + 0xffff_ffff)
            by (nonlinear_arith)
            requires
                limb <= 0xffff_ffffu32,
                m <= 0xffff_ffffu32,
                carry <= 0xffff_ffffu32,
        ;
        assert(0 <= limb as int * m as int) by (nonlinear_arith);
        let t: u64 = (limb as u64) * (m as u64) + (carry as u64);
        let low: u32 = (t % 0x1_0000_0000) as u32;
        let high: u32 = (t / 0x1_0000_0000) as u32;
        proof {
            let w = weight(i as nat);
            let b = 0x1_0000_0000nat;
            lemma_push(r@, low);
            assert(weight((i + 1) as nat) == b * w);
            assert(t as nat == high as nat * b + low as nat);
            assert(upto(v@, (i + 1) as nat) == upto(v@, i as nat) + limb as nat * w);
            let u = upto(v@, i as nat);
            let x = value(r@);
            assert(x + low as nat * w + high as nat * (b * w) == (u + limb as nat * w) * m + a)
                by (nonlinear_arith)
                requires
                    x + carry as nat * w == u * m + a,
                    limb as nat * m + carry as nat == high as nat * b + low as nat,
            ;
        }
        r.push(low);
        carry = high;
        i = i + 1;
    }
    if carry > 0 {
        proof {
            lemma_push(r@, carry);
        }
        r.push(carry);
    } else {
        assert(0 * weight(i as nat) == 0) by (nonlinear_arith);
    }
    r
}

/// The limb at place `i`; zero beyond the end.
fn limb_at(v: &Vec<u32>, i: usize) -> (r: u32)
    ensures
        r as nat == limb(v@, i as int),
{
    if i < v.len() {
        v[i]
    } else {
        0
    }
}

/// `a + b`.
pub fn sum(a: &Vec<u32>, b: &Vec<u32>) -> (r: Vec<u32>)
    ensures
        value(r@) == value(a@) + value(b@),
{
    let n: usize = if a.len() < b.len() {
        b.len()
    } else {
        a.len()
    };
    let mut r: Vec<u32> = Vec::new();
    let mut carry: u32 = 0;
    let mut i: usize = 0;
    while i < n
        invariant
            i <= n,
            r@.len() == i,
            carry <= 1,
            value(r@) + carry as nat * weight(i as nat) == upto(a@, i as nat) + upto(b@, i as nat),
        decreases n - i,
    {
        let x = limb_at(a, i);
        let y = limb_at(b, i);
        let t: u64 = (x as u64) + (y as u64) + (carry as u64);
        let low: u32 = (t % 0x1_0000_0000) as u32;
        let high: u32 = (t / 0x1_0000_0000) as u32;
        proof {
            let w = weight(i as nat);
            let base = 0x1_0000_0000nat;
            lemma_push(r@, low);
            assert(weight((i + 1) as nat) == base * w);
            assert(t as nat == high as nat * base + low as nat);
            let u = upto(a@, i as nat);
            let v = upto(b@, i as nat);
            let z = value(r@);
            assert(z + low as nat * w + high as nat * (base * w) == (u + x as nat * w) + (v
                + y as nat * w)) by (nonlinear_arith)
                requires
                    z + carry as nat * w == u + v,
                    x as nat + y as nat + carry as nat == high as nat * base + low as nat,
            ;
        }
        r.push(low);
        carry = high;
        i = i + 1;
    }
    proof {
        lemma_beyond(a@, n as nat);
        lemma_beyond(b@, n as nat);
    }
    if carry > 0 {
        proof {
            lemma_push(r@, carry);
        }
        r.push(carry);
    } else {
        assert(0 * weight(i as nat) == 0) by (nonlinear_arith);
    }
    r
}

/// `a - b`, where `b` is not greater.
pub fn difference(a: &Vec<u32>, b: &Vec<u32>) -> (r: Vec<u32>)
    requires
        value(b@) <= value(a@),
    ensures
        value(r@) == value(a@) - value(b@),
{
    let n: usize = if a.len() < b.len() {
        b.len()
    } else {
        a.len()
    };
    let mut r: Vec<u32> = Vec::new();
    let mut borrow: u32 = 0;
    let mut i: usize = 0;
    while i < n
        invariant
            i <= n,
            r@.len() == i,
            borrow <= 1,
            value(r@) + upto(b@, i as nat) == upto(a@, i as nat) + borrow as nat * weight(i as nat),
        decreases n - i,
    {
        let x = limb_at(a, i);
        let y = limb_at(b, i);
        let t: u64 = (x as u64) + 0x1_0000_0000 - (y as u64) - (borrow as u64);
        let low: u32 = (t % 0x1_0000_0000) as u32;
        let next: u32 = if t < 0x1_0000_0000 {
            1
        } else {
            0
        };
        proof {
            let w = weight(i as nat);
            let base = 0x1_0000_0000nat;
            lemma_push(r@, low);
            assert(weight((i + 1) as nat) == base * w);
            let u = upto(a@, i as nat);
            let v = upto(b@, i as nat);
            let z = value(r@);
            assert((z + low as nat * w) + (v + y as nat * w) == (u + x as nat * w) + next as nat * (
            base * w)) by (nonlinear_arith)
                requires
                    z + v == u + borrow as nat * w,
                    low as nat + y as nat + borrow as nat == x as nat + next as nat * base,
            ;
        }
        r.push(low);
        borrow = next;
        i = i + 1;
    }
    proof {
        lemma_beyond(a@, n as nat);
        lemma_beyond(b@, n as nat);
        lemma_bound(r@, n as nat);
        let w = weight(n as nat);
        assert(borrow as nat * w >= w || borrow == 0) by (nonlinear_arith);
        assert(0 * w == 0) by (nonlinear_arith);
    }
    r
}

/// Whether `a < b`.
pub fn below(a: &Vec<u32>, b: &Vec<u32>) -> (r: bool)
    ensures
        r == (value(a@) < value(b@)),
{
    let n: usize = if a.len() < b.len() {
        b.len()
    } else {
        a.len()
    };
    let mut r: bool = false;
    let mut i: usize = 0;
    while i < n
        invariant
            i <= n,
            r == (upto(a@, i as nat) < upto(b@, i as nat)),
        decreases n - i,
    {
        let x = limb_at(a, i);
        let y = limb_at(b, i);
        proof {
            let w = weight(i as nat);
            let u = upto(a@, i as nat);
            let v = upto(b@, i as nat);
            lemma_bound(a@, i as nat);
            lemma_bound(b@, i as nat);
            assert(x < y ==> u + x as nat * w < v + y as nat * w) by (nonlinear_arith)
                requires
                    u < w,
                    v < w,
            ;
            assert(y < x ==> v + y as nat * w < u + x as nat * w) by (nonlinear_arith)
                requires
                    u < w,
                    v < w,
            ;
        }
        if x < y {
            r = true;
        } else if y < x {
            r = false;
        }
        i = i + 1;
    }
    proof {
        lemma_beyond(a@, n as nat);
        lemma_beyond(b@, n as nat);
    }
    r
}

proof fn lemma_update(s: Seq<u32>, k: int, x: u32, i: nat)
    requires
        0 <= k < s.len(),
        k < i <= s.len(),
        s[k] == 0,
    ensures
        upto(s.update(k, x), i) == upto(s, i) + x as nat * weight(k as nat),
    decreases i,
{
    if i == k + 1 {
        lemma_same_limbs(s, s.update(k, x), k as nat);
        assert(0 * weight(k as nat) == 0) by (nonlinear_arith);
    } else {
        lemma_update(s, k, x, (i - 1) as nat);
    }
}

proof fn lemma_zeros(s: Seq<u32>, i: nat)
    requires
        forall|j: int| 0 <= j < s.len() ==> s[j] == 0,
    ensures
        upto(s, i) == 0,
    decreases i,
{
    if i > 0 {
        lemma_zeros(s, (i - 1) as nat);
        assert(0 * weight((i - 1) as nat) == 0) by (nonlinear_arith);
    }
}

/// The quotient and the remainder of the division by `m`.
pub fn div_rem(v: &Vec<u32>, m: u32) -> (r: (Vec<u32>, u32))
    requires
        m > 0,
    ensures
        value(v@) == value(r.0@) * m + r.1,
        r.1 < m,
        r.0@.len() == v@.len(),
{
    let n: usize = v.len();
    let mut q: Vec<u32> = Vec::new();
    while q.len() < n
        invariant
            q@.len() <= n,
            forall|j: int| 0 <= j < q@.len() ==> q@[j] == 0,
        decreases n - q.len(),
    {
        q.push(0);
    }
    proof {
        lemma_zeros(q@, q@.len());
        assert(0 * m as nat == 0) by (nonlinear_arith);
        assert(0 * weight(n as nat) == 0) by (nonlinear_arith);
    }
    let mut rem: u32 = 0;
    let mut i: usize = n;
    while i > 0
        invariant
            i <= n,
            n == v@.len(),
            q@.len() == n,
            rem < m,
            forall|j: int| 0 <= j < i ==> q@[j] == 0,
            value(q@) * m + rem as nat * weight(i as nat) + upto(v@, i as nat) == value(v@),
        decreases i,
    {
        i = i - 1;
        let limb: u32 = v[i];
        let cur: u64 = (rem as u64) * 0x1_0000_0000 + (limb as u64);
        assert(cur / m as u64 <= 0xffff_ffff) by (nonlinear_arith)
            requires
                cur == rem as u64 * 0x1_0000_0000 + limb as u64,
                rem < m,
                m > 0,
                limb <= 0xffff_ffffu32,
        ;
        let d: u32 = (cur / (m as u64)) as u32;
        let next: u32 = (cur % (m as u64)) as u32;
        proof {
            let w = weight(i as nat);
            let base = 0x1_0000_0000nat;
            lemma_update(q@, i as int, d, n as nat);
            assert(weight((i + 1) as nat) == base * w);
            assert(cur as nat == d as nat * m as nat + next as nat) by (nonlinear_arith)
                requires
                    d as nat == cur as nat / m as nat,
                    next as nat == cur as nat % m as nat,
                    m > 0,
            ;
            let x = value(q@);
            let u = upto(v@, i as nat);
            let total = value(v@);
            assert((x + d as nat * w) * m as nat + next as nat * w + u == total)
                by (nonlinear_arith)
                requires
                    x * m as nat + rem as nat * (base * w) + (u + limb as nat * w) == total,
                    rem as nat * base + limb as nat == d as nat * m as nat + next as nat,
            ;
        }
        q.set(i, d);
        rem = next;
    }
    proof {
        lemma_lowest(rem as nat);
    }
    (q, rem)
}

/// The number as limbs.
pub fn of_u64(n: u64) -> (r: Vec<u32>)
    ensures
        value(r@) == n,
{
    let mut r: Vec<u32> = Vec::new();
    let low: u32 = (n % 0x1_0000_0000) as u32;
    let high: u32 = (n / 0x1_0000_0000) as u32;
    proof {
        lemma_push(r@, low);
        lemma_push(r@.push(low), high);
        assert(weight(1) == 0x1_0000_0000) by {
            reveal_with_fuel(weight, 2);
        }
        lemma_lowest(low as nat);
        assert(high as nat * weight(1) == high as nat * 0x1_0000_0000);
    }
    r.push(low);
    r.push(high);
    r
}

proof fn lemma_weights(n: nat, i: nat)
    ensures
        weight(n + i) == weight(n) * weight(i),
    decreases i,
{
    if i > 0 {
        lemma_weights(n, (i - 1) as nat);
        let a = weight(n);
        let b = weight((i - 1) as nat);
        assert(0x1_0000_0000 * (a * b) == a * (0x1_0000_0000 * b)) by (nonlinear_arith);
    } else {
        lemma_lowest(weight(n));
    }
}

proof fn lemma_weight_is_power(n: nat)
    ensures
        weight(n) == pow2(32 * n),
    decreases n,
{
    vstd::arithmetic::power2::lemma2_to64();
    if n > 0 {
        lemma_weight_is_power((n - 1) as nat);
        lemma_pow2_adds(32, 32 * (n - 1) as nat);
    }
}

/// The number with `n` limbs that are zero put below its limbs.
fn raised(v: &Vec<u32>, n: usize) -> (r: Vec<u32>)
    ensures
        value(r@) == value(v@) * weight(n as nat),
{
    let mut r: Vec<u32> = Vec::new();
    while r.len() < n
        invariant
            r@.len() <= n,
            forall|j: int| 0 <= j < r@.len() ==> r@[j] == 0,
        decreases n - r.len(),
    {
        r.push(0);
    }
    let mut i: usize = 0;
    proof {
        lemma_zeros(r@, n as nat);
        assert(0 * weight(n as nat) == 0) by (nonlinear_arith);
    }
    while i < v.len()
        invariant
            i <= v@.len(),
            r@.len() == n + i,
            value(r@) == upto(v@, i as nat) * weight(n as nat),
        decreases v.len() - i,
    {
        proof {
            lemma_push(r@, v@[i as int]);
            lemma_weights(n as nat, i as nat);
            let w = weight(n as nat);
            let x = weight(i as nat);
            let u = upto(v@, i as nat);
            let l = v@[i as int] as nat;
            assert(u * w + l * (w * x) == (u + l * x) * w) by (nonlinear_arith);
        }
        r.push(v[i]);
        i = i + 1;
    }
    r
}

/// `v * 2^k`.
pub fn shifted(v: &Vec<u32>, k: u32) -> (r: Vec<u32>)
    ensures
        value(r@) == value(v@) * pow2(k as nat),
{
    let whole: u32 = k / 32;
    let rest: u32 = k % 32;
    let mut factor: u32 = 1;
    let mut i: u32 = 0;
    proof {
        vstd::arithmetic::power2::lemma2_to64();
    }
    while i < rest
        invariant
            i <= rest < 32,
            factor == pow2(i as nat),
        decreases rest - i,
    {
        proof {
            vstd::arithmetic::power2::lemma2_to64();
            vstd::arithmetic::power2::lemma_pow2_unfold((i + 1) as nat);
            if i + 1 < 31 {
                vstd::arithmetic::power2::lemma_pow2_strictly_increases((i + 1) as nat, 31);
            }
        }
        factor = factor * 2;
        i = i + 1;
    }
    let up = raised(v, whole as usize);
    proof {
        lemma_weight_is_power(whole as nat);
        lemma_pow2_adds(32 * whole as nat, rest as nat);
        let x = value(v@);
        let w = weight(whole as nat);
        let f = factor as nat;
        assert((x * w) * f == x * (w * f)) by (nonlinear_arith);
    }
    mul_add(&up, factor, 0)
}

/// The quotient of the division by `2^k`, and whether something remains.
pub fn shifted_down(v: &Vec<u32>, k: u32) -> (r: (Vec<u32>, bool))
    ensures
        value(r.0@) == value(v@) / pow2(k as nat),
        r.1 == (value(v@) % pow2(k as nat) != 0),
{
    let mut q: Vec<u32> = mul_add(v, 1, 0);
    let mut sticky: bool = false;
    let mut i: u32 = 0;
    let ghost x = value(v@);
    let ghost mut rest: nat = 0;
    proof {
        vstd::arithmetic::power2::lemma2_to64();
    }
    while i < k
        invariant
            i <= k,
            x == value(q@) * pow2(i as nat) + rest,
            rest < pow2(i as nat),
            sticky == (rest != 0),
        decreases k - i,
    {
        let big: bool = k - i >= 16;
        let step: u32 = if big {
            16
        } else {
            1
        };
        let factor: u32 = if big {
            0x1_0000
        } else {
            2
        };
        let (next, rem) = div_rem(&q, factor);
        proof {
            vstd::arithmetic::power2::lemma2_to64();
            lemma_pow2_adds(i as nat, step as nat);
            lemma_pow2_pos(i as nat);
            let p = pow2(i as nat);
            let f = factor as nat;
            let a = value(next@);
            let d = rem as nat;
            assert((a * f + d) * p + rest == a * (p * f) + (d * p + rest)) by (nonlinear_arith);
            assert(d * p + rest < p * f) by (nonlinear_arith)
                requires
                    rest < p,
                    d + 1 <= f,
            ;
            assert(d > 0 ==> d * p + rest > 0) by (nonlinear_arith)
                requires
                    p > 0,
            ;
            assert(d == 0 ==> d * p + rest == rest) by (nonlinear_arith);
            rest = d * p + rest;
        }
        if rem != 0 {
            sticky = true;
        }
        q = next;
        i = i + step;
    }
    proof {
        let p = pow2(k as nat);
        let a = value(q@);
        lemma_pow2_pos(k as nat);
        assert(a * p == p * a) by (nonlinear_arith);
        vstd::arithmetic::div_mod::lemma_fundamental_div_mod_converse(
            x as int,
            p as int,
            a as int,
            rest as int,
        );
    }
    (q, sticky)
}

/// `v * m^k`.
pub fn scaled(v: &Vec<u32>, m: u32, k: u128) -> (r: Vec<u32>)
    ensures
        value(r@) == value(v@) * power(m as nat, k as nat),
{
    let mut r: Vec<u32> = mul_add(v, 1, 0);
    let mut i: u128 = 0;
    assert(value(v@) * 1 == value(v@)) by (nonlinear_arith);
    while i < k
        invariant
            i <= k,
            value(r@) == value(v@) * power(m as nat, i as nat),
        decreases k - i,
    {
        r = mul_add(&r, m, 0);
        proof {
            let x = value(v@);
            let p = power(m as nat, i as nat);
            let f = m as nat;
            assert((x * p) * f == x * (f * p)) by (nonlinear_arith);
        }
        i = i + 1;
    }
    r
}

/// `m^k`.
pub open spec fn power(m: nat, k: nat) -> nat
    decreases k,
{
    if k == 0 {
        1
    } else {
        m * power(m, (k - 1) as nat)
    }
}

/// `a * b`.
pub fn product(a: &Vec<u32>, b: &Vec<u32>) -> (r: Vec<u32>)
    ensures
        value(r@) == value(a@) * value(b@),
{
    let mut r: Vec<u32> = Vec::new();
    let mut i: usize = b.len();
    let ghost x = value(a@);
    proof {
        lemma_high(b@, b@.len());
        assert(x * 0 == 0) by (nonlinear_arith);
    }
    while i > 0
        invariant
            i <= b@.len(),
            x == value(a@),
            value(r@) == x * high(b@, i as nat),
        decreases i,
    {
        i = i - 1;
        let l: u32 = b[i];
        let up = raised(&r, 1);
        let ghost h = high(b@, (i + 1) as nat);
        proof {
            lemma_high_step(b@, i as nat);
            reveal_with_fuel(weight, 2);
            assert(x * h * 0x1_0000_0000 + x * l as nat == x * (h * 0x1_0000_0000 + l as nat))
                by (nonlinear_arith);
        }
        if l == 0 {
            assert(x * 0nat == 0) by (nonlinear_arith);
            r = up;
        } else {
            let part = mul_add(a, l, 0);
            r = sum(&up, &part);
        }
    }
    proof {
        lemma_high(b@, 0);
        lemma_lowest(high(b@, 0));
    }
    r
}

/// The number that the limbs from place `i` on stand for.
spec fn high(s: Seq<u32>, i: nat) -> nat
    decreases s.len() - i,
{
    if i >= s.len() {
        0
    } else {
        high(s, i + 1) * 0x1_0000_0000 + limb(s, i as int)
    }
}

proof fn lemma_high_step(s: Seq<u32>, i: nat)
    requires
        i < s.len(),
    ensures
        high(s, i) == high(s, i + 1) * 0x1_0000_0000 + limb(s, i as int),
{
}

proof fn lemma_high(s: Seq<u32>, i: nat)
    requires
        i <= s.len(),
    ensures
        value(s) == upto(s, i) + high(s, i) * weight(i),
    decreases s.len() - i,
{
    if i < s.len() {
        lemma_high(s, i + 1);
        let w = weight(i);
        let h = high(s, i + 1);
        let l = limb(s, i as int);
        assert(weight(i + 1) == 0x1_0000_0000 * w);
        assert(h * (0x1_0000_0000 * w) + l * w == (h * 0x1_0000_0000 + l) * w) by (nonlinear_arith);
    } else {
        assert(0 * weight(i) == 0) by (nonlinear_arith);
    }
}

/// Whether the number is zero.
pub fn is_zero(v: &Vec<u32>) -> (r: bool)
    ensures
        r == (value(v@) == 0),
{
    let zero: Vec<u32> = Vec::new();
    !below(&zero, v)
}

/// The decimal notation of the number.
pub fn written(v: &Vec<u32>) -> (r: Vec<char>)
    ensures
        r@ == decimal::decimal(value(v@)),
{
    let mut back: Vec<char> = Vec::new();
    let mut rest: Vec<u32> = mul_add(v, 1, 0);
    let ghost goal = decimal::decimal(value(v@));
    let ten = of_u64(10);
    assert(goal =~= decimal::decimal(value(rest@)) + back@.reverse());
    while !below(&rest, &ten)
        invariant
            value(ten@) == 10,
            goal == decimal::decimal(value(rest@)) + back@.reverse(),
        decreases value(rest@),
    {
        let ghost n = value(rest@);
        let (q, d) = div_rem(&rest, 10);
        let ghost before = back@;
        back.push((d as u8 + 48) as char);
        assert(value(q@) == n / 10 && d == n % 10);
        assert(decimal::decimal(n) + before.reverse() =~= decimal::decimal(value(q@))
            + back@.reverse());
        rest = q;
    }
    let (q, d) = div_rem(&rest, 10);
    back.push((d as u8 + 48) as char);
    assert(goal =~= back@.reverse());
    let mut r: Vec<char> = Vec::new();
    let mut i: usize = back.len();
    while i > 0
        invariant
            i <= back@.len(),
            r@ == back@.reverse().take(back@.len() - i),
        decreases i,
    {
        i = i - 1;
        r.push(back[i]);
        assert(r@ =~= back@.reverse().take(back@.len() - i));
    }
    assert(back@.reverse().take(back@.len() as int) == back@.reverse());
    r
}

/// The number modulo two.
pub fn is_odd(v: &Vec<u32>) -> (r: bool)
    ensures
        r == (value(v@) % 2 == 1),
{
    let (q, rem) = div_rem(v, 2);
    rem == 1
}

/// The number as a `u32`.
pub fn to_u32(v: &Vec<u32>) -> (r: u32)
    requires
        value(v@) <= u32::MAX,
    ensures
        r as nat == value(v@),
{
    let r = limb_at(v, 0);
    proof {
        lemma_high(v@, if v@.len() > 0 {
            1
        } else {
            0
        });
        reveal_with_fuel(upto, 2);
        reveal_with_fuel(weight, 2);
        lemma_lowest(limb(v@, 0));
        if v@.len() > 0 {
            let h = high(v@, 1);
            assert(h > 0 ==> h * 0x1_0000_0000 >= 0x1_0000_0000) by (nonlinear_arith);
        }
    }
    r
}

} // verus!
