//! Whole numbers in decimal notation: reading and writing.
use vstd::prelude::*;

use crate::text;
use crate::text_spec as spec;

verus! {

/// The value of a digit.
pub open spec fn digit_value(c: char) -> nat {
    (c as u32 - '0' as u32) as nat
}

/// The digit of a value below ten.
pub open spec fn digit_char(d: nat) -> char {
    (d + '0' as u32) as u8 as char
}

pub open spec fn all_digits(s: Seq<char>) -> bool {
    forall|i: int| 0 <= i < s.len() ==> spec::is_digit(#[trigger] s[i])
}

/// The number that a run of digits stands for.
pub open spec fn digits_value(s: Seq<char>) -> nat
    decreases s.len(),
{
    if s.len() == 0 {
        0
    } else {
        digits_value(s.drop_last()) * 10 + digit_value(s.last())
    }
}

/// The number that the text stands for: digits after at most one plus sign, up to `max`.
pub open spec fn unsigned(s: Seq<char>, max: nat) -> Option<nat> {
    let t = if s.len() > 0 && s[0] == '+' {
        s.skip(1)
    } else {
        s
    };
    if t.len() > 0 && all_digits(t) && digits_value(t) <= max {
        Some(digits_value(t))
    } else {
        None
    }
}

/// The `u32` that the text stands for.
pub open spec fn u32_value(s: Seq<char>) -> Option<u32> {
    match unsigned(s, u32::MAX as nat) {
        Some(n) => Some(n as u32),
        None => None,
    }
}

/// The `i32` that the text stands for: digits after at most one sign.
pub open spec fn i32_value(s: Seq<char>) -> Option<i32> {
    if s.len() > 0 && s[0] == '-' {
        let t = s.skip(1);
        if t.len() > 0 && all_digits(t) && digits_value(t) <= 0x8000_0000 {
            Some((-digits_value(t)) as i32)
        } else {
            None
        }
    } else {
        match unsigned(s, i32::MAX as nat) {
            Some(n) => Some(n as i32),
            None => None,
        }
    }
}

/// The decimal notation of a number, without leading zeros.
pub open spec fn decimal(n: nat) -> Seq<char>
    decreases n,
{
    if n < 10 {
        seq![digit_char(n)]
    } else {
        decimal(n / 10).push(digit_char(n % 10))
    }
}

/// The decimal notation of a signed number.
pub open spec fn signed(n: int) -> Seq<char> {
    if n < 0 {
        seq!['-'] + decimal((-n) as nat)
    } else {
        decimal(n as nat)
    }
}

/// More digits make no smaller number.
pub proof fn lemma_prefix_value(s: Seq<char>, i: int)
    requires
        0 <= i <= s.len(),
        all_digits(s),
    ensures
        digits_value(s.take(i)) <= digits_value(s),
    decreases s.len(),
{
    if i < s.len() {
        assert(s.drop_last().take(i) == s.take(i));
        assert(all_digits(s.drop_last()));
        lemma_prefix_value(s.drop_last(), i);
    } else {
        assert(s.take(i) == s);
    }
}

/// The decimal notation of a number is digits that stand for it.
pub proof fn lemma_decimal(n: nat)
    ensures
        decimal(n).len() > 0,
        all_digits(decimal(n)),
        digits_value(decimal(n)) == n,
        decimal(n)[0] != '+',
        decimal(n)[0] != '-',
    decreases n,
{
    reveal_with_fuel(digits_value, 2);
    if n < 10 {
        assert(decimal(n) == seq![digit_char(n)]);
        assert(decimal(n).drop_last() == Seq::<char>::empty());
    } else {
        lemma_decimal(n / 10);
        let d = decimal(n);
        assert(d.drop_last() == decimal(n / 10));
        assert forall|i: int| 0 <= i < d.len() implies spec::is_digit(#[trigger] d[i]) by {
            if i < d.len() - 1 {
                assert(d[i] == decimal(n / 10)[i]);
            }
        }
    }
    assert(spec::is_digit(decimal(n)[0]));
}

/// Writing a `u32` and reading it back gives the number.
pub proof fn u32_read_after_write(n: u32)
    ensures
        u32_value(decimal(n as nat)) == Some(n),
{
    lemma_decimal(n as nat);
}

/// Writing an `i32` and reading it back gives the number.
pub proof fn i32_read_after_write(n: i32)
    ensures
        i32_value(signed(n as int)) == Some(n),
{
    if n < 0 {
        lemma_decimal((-n) as nat);
        assert(signed(n as int).skip(1) == decimal((-n) as nat));
    } else {
        lemma_decimal(n as nat);
    }
}

/// Reads a run of digits whose value is at most `max`.
fn read_digits(s: &[char], max: u64) -> (r: Option<u64>)
    requires
        max <= 0xffff_ffff_ffff,
    ensures
        r is Some == (s@.len() > 0 && all_digits(s@) && digits_value(s@) <= max),
        r matches Some(n) ==> n as nat == digits_value(s@),
{
    if s.len() == 0 {
        return None;
    }
    let mut n: u64 = 0;
    let mut i: usize = 0;
    while i < s.len()
        invariant
            i <= s@.len(),
            n <= max,
            max <= 0xffff_ffff_ffff,
            all_digits(s@.take(i as int)),
            n as nat == digits_value(s@.take(i as int)),
        decreases s.len() - i,
    {
        let c = s[i];
        if !text::is_digit(c) {
            assert(!spec::is_digit(s@[i as int]));
            return None;
        }
        let ghost shorter = s@.take(i as int);
        let ghost longer = s@.take(i + 1);
        assert(longer.drop_last() == shorter);
        assert(longer.last() == c);
        n = n * 10 + ((c as u32) - 48) as u64;
        assert(n as nat == digits_value(longer));
        assert(all_digits(longer)) by {
            assert forall|j: int| 0 <= j < longer.len() implies spec::is_digit(
                #[trigger] longer[j],
            ) by {
                if j < i {
                    assert(longer[j] == shorter[j]);
                }
            }
        }
        if n > max {
            proof {
                if all_digits(s@) {
                    lemma_prefix_value(s@, i + 1);
                }
            }
            return None;
        }
        i = i + 1;
    }
    assert(s@.take(s@.len() as int) == s@);
    Some(n)
}

/// Reads digits after at most one plus sign.
fn read_unsigned(s: &[char], max: u64) -> (r: Option<u64>)
    requires
        max <= 0xffff_ffff_ffff,
    ensures
        r is Some == unsigned(s@, max as nat) is Some,
        r matches Some(n) ==> unsigned(s@, max as nat) == Some(n as nat) && n <= max,
{
    if s.len() > 0 && s[0] == '+' {
        read_digits(text::skip(s, 1), max)
    } else {
        read_digits(s, max)
    }
}

/// Reads a `u32`.
pub fn read_u32(s: &[char]) -> (r: Option<u32>)
    ensures
        r == u32_value(s@),
{
    match read_unsigned(s, 0xffff_ffff) {
        Some(n) => Some(n as u32),
        None => None,
    }
}

/// Reads an `i32`.
pub fn read_i32(s: &[char]) -> (r: Option<i32>)
    ensures
        r == i32_value(s@),
{
    if s.len() > 0 && s[0] == '-' {
        match read_digits(text::skip(s, 1), 0x8000_0000) {
            Some(n) => Some((-(n as i64)) as i32),
            None => None,
        }
    } else {
        match read_unsigned(s, 0x7fff_ffff) {
            Some(n) => Some(n as i32),
            None => None,
        }
    }
}

/// The decimal notation of a number.
pub fn write(n: u64) -> (r: Vec<char>)
    ensures
        r@ == decimal(n as nat),
    decreases n,
{
    if n < 10 {
        let mut r: Vec<char> = Vec::new();
        r.push((n as u8 + 48) as char);
        assert(r@ =~= seq![digit_char(n as nat)]);
        r
    } else {
        let mut r = write(n / 10);
        r.push(((n % 10) as u8 + 48) as char);
        r
    }
}

/// The decimal notation of a signed number.
pub fn write_signed(n: i64) -> (r: Vec<char>)
    requires
        n > i64::MIN,
    ensures
        r@ == signed(n as int),
{
    if n < 0 {
        let digits = write((-n) as u64);
        let mut r: Vec<char> = Vec::new();
        r.push('-');
        let mut i: usize = 0;
        while i < digits.len()
            invariant
                i <= digits@.len(),
                r@ == seq!['-'] + digits@.take(i as int),
            decreases digits.len() - i,
        {
            r.push(digits[i]);
            i = i + 1;
            assert(r@ =~= seq!['-'] + digits@.take(i as int));
        }
        assert(digits@.take(digits@.len() as int) == digits@);
        r
    } else {
        write(n as u64)
    }
}

/// Appends the decimal notation of a number.
pub fn push(r: &mut String, n: u64)
    ensures
        final(r)@ == old(r)@ + decimal(n as nat),
{
    let digits = write(n);
    text::push_chars(r, digits.as_slice());
}

/// Appends the decimal notation of a signed number.
pub fn push_signed(r: &mut String, n: i64)
    requires
        n > i64::MIN,
    ensures
        final(r)@ == old(r)@ + signed(n as int),
{
    let digits = write_signed(n);
    text::push_chars(r, digits.as_slice());
}

} // verus!
