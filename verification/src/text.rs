//! Text as sequences of characters: trimming, searching, splitting and case folding.
//!
//! The functions work on slices of characters, so that a part of a text is a subslice of it.
//! What each of them computes is the specification function of the same name in [`spec`].
use vstd::prelude::*;
use vstd::slice::slice_subrange;

use crate::text_spec as spec;

verus! {

/// `String::push` of std appends the character to the end of the string.
pub assume_specification[ std::string::String::push ](s: &mut std::string::String, ch: char)
    ensures
        final(s)@ == old(s)@.push(ch),
;

/// The characters of a string, in order.
pub fn chars_of(s: &str) -> (r: Vec<char>)
    ensures
        r@ == s@,
{
    let mut r: Vec<char> = Vec::new();
    for c in it: s.chars()
        invariant
            r@ == it.seq().take(it.index() as int),
            it.seq() == s@,
    {
        r.push(c);
        assert(it.seq().take(it.index() + 1) == it.seq().take(it.index() as int).push(c));
    }
    assert(s@.take(s@.len() as int) == s@);
    r
}

/// Whether the string holds no character.
pub fn is_empty(s: &str) -> (r: bool)
    ensures
        r == (s@.len() == 0),
{
    chars_of(s).len() == 0
}

/// Appends the characters to the string.
pub fn push_chars(r: &mut String, v: &[char])
    ensures
        final(r)@ == old(r)@ + v@,
{
    let ghost start = r@;
    let mut i: usize = 0;
    while i < v.len()
        invariant
            i <= v.len(),
            r@ == start + v@.take(i as int),
        decreases v.len() - i,
    {
        r.push(v[i]);
        i = i + 1;
        assert(v@.take(i as int) == v@.take(i - 1).push(v@[i - 1]));
        assert(start + v@.take(i as int) == (start + v@.take(i - 1)).push(v@[i - 1]));
    }
    assert(v@.take(v@.len() as int) == v@);
}

/// The string made of the characters.
pub fn string_of(v: &[char]) -> (r: String)
    ensures
        r@ == v@,
{
    let mut r = String::new();
    push_chars(&mut r, v);
    assert(Seq::<char>::empty() + v@ == v@);
    r
}

/// Whether two slices hold the same characters.
pub fn same(a: &[char], b: &[char]) -> (r: bool)
    ensures
        r == (a@ == b@),
{
    if a.len() != b.len() {
        return false;
    }
    let mut i: usize = 0;
    while i < a.len()
        invariant
            i <= a.len(),
            a@.len() == b@.len(),
            forall|j: int| 0 <= j < i ==> a@[j] == b@[j],
        decreases a.len() - i,
    {
        if a[i] != b[i] {
            return false;
        }
        i = i + 1;
    }
    assert(a@ =~= b@);
    true
}

/// Whether the slice holds exactly the characters of the string.
pub fn is(a: &[char], s: &str) -> (r: bool)
    ensures
        r == (a@ == s@),
{
    let b = chars_of(s);
    same(a, b.as_slice())
}

/// Whether the two strings hold the same characters.
pub fn same_str(a: &str, b: &str) -> (r: bool)
    ensures
        r == (a@ == b@),
{
    let x = chars_of(a);
    is(x.as_slice(), b)
}

/// The slice from `i` on.
pub fn skip(s: &[char], i: usize) -> (r: &[char])
    requires
        i <= s@.len(),
    ensures
        r@ == s@.skip(i as int),
{
    let r = slice_subrange(s, i, s.len());
    assert(r@ =~= s@.skip(i as int));
    r
}

/// The slice up to `i`.
pub fn take(s: &[char], i: usize) -> (r: &[char])
    requires
        i <= s@.len(),
    ensures
        r@ == s@.take(i as int),
{
    let r = slice_subrange(s, 0, i);
    assert(r@ =~= s@.take(i as int));
    r
}

pub fn is_space(c: char) -> (r: bool)
    ensures
        r == spec::is_space(c),
{
    let u: u32 = c as u32;
    (0x9 <= u && u <= 0xd) || u == 0x20 || u == 0x85 || u == 0xa0 || u == 0x1680 || (0x2000 <= u && u
        <= 0x200a) || u == 0x2028 || u == 0x2029 || u == 0x202f || u == 0x205f || u == 0x3000
}

pub fn is_digit(c: char) -> (r: bool)
    ensures
        r == spec::is_digit(c),
{
    '0' <= c && c <= '9'
}

pub fn trim_start(s: &[char]) -> (r: &[char])
    ensures
        r@ == spec::trim_start(s@),
{
    let mut i: usize = 0;
    assert(s@.skip(0) == s@);
    while i < s.len() && is_space(s[i])
        invariant
            i <= s@.len(),
            spec::trim_start(s@.skip(i as int)) == spec::trim_start(s@),
        decreases s.len() - i,
    {
        assert(s@.skip(i as int).skip(1) == s@.skip(i + 1));
        i = i + 1;
    }
    skip(s, i)
}

pub fn trim_end(s: &[char]) -> (r: &[char])
    ensures
        r@ == spec::trim_end(s@),
{
    let mut i: usize = s.len();
    assert(s@.take(i as int) == s@);
    while i > 0 && is_space(s[i - 1])
        invariant
            i <= s@.len(),
            spec::trim_end(s@.take(i as int)) == spec::trim_end(s@),
        decreases i,
    {
        assert(s@.take(i as int).drop_last() == s@.take(i - 1));
        i = i - 1;
    }
    take(s, i)
}

pub fn trim(s: &[char]) -> (r: &[char])
    ensures
        r@ == spec::trim(s@),
{
    trim_end(trim_start(s))
}

/// Whether the pattern stands in the text at `i`.
pub fn occurs_at(s: &[char], p: &[char], i: usize) -> (r: bool)
    ensures
        r == spec::occurs_at(s@, p@, i as int),
{
    if i > s.len() || p.len() > s.len() - i {
        return false;
    }
    let part = slice_subrange(s, i, i + p.len());
    same(part, p)
}

pub fn starts_with(s: &[char], p: &str) -> (r: bool)
    ensures
        r == spec::starts_with(s@, p@),
{
    let p = chars_of(p);
    let r = occurs_at(s, p.as_slice(), 0);
    assert(p@.len() <= s@.len() ==> s@.subrange(0, p@.len() as int) == s@.take(p@.len() as int));
    r
}

pub fn ends_with(s: &[char], p: &str) -> (r: bool)
    ensures
        r == spec::ends_with(s@, p@),
{
    let p = chars_of(p);
    if p.len() > s.len() {
        return false;
    }
    let part = skip(s, s.len() - p.len());
    same(part, p.as_slice())
}

pub fn strip_prefix<'a>(s: &'a [char], p: &str) -> (r: Option<&'a [char]>)
    ensures
        r is Some == spec::strip_prefix(s@, p@) is Some,
        r matches Some(t) ==> spec::strip_prefix(s@, p@) == Some(t@),
{
    if starts_with(s, p) {
        let n = chars_of(p).len();
        Some(skip(s, n))
    } else {
        None
    }
}

pub fn strip_suffix<'a>(s: &'a [char], p: &str) -> (r: Option<&'a [char]>)
    ensures
        r is Some == spec::strip_suffix(s@, p@) is Some,
        r matches Some(t) ==> spec::strip_suffix(s@, p@) == Some(t@),
{
    if ends_with(s, p) {
        let n = chars_of(p).len();
        Some(take(s, s.len() - n))
    } else {
        None
    }
}

/// Where the pattern first stands in the text at or after `from`.
pub fn find_from(s: &[char], p: &[char], from: usize) -> (r: Option<usize>)
    ensures
        r is Some == spec::find_from(s@, p@, from as int) is Some,
        r matches Some(i) ==> spec::find_from(s@, p@, from as int) == Some(i as int) && i + p@.len()
            <= s@.len(),
{
    let mut i: usize = from;
    while i <= s.len() && p.len() <= s.len() - i
        invariant
            from <= i,
            spec::find_from(s@, p@, i as int) == spec::find_from(s@, p@, from as int),
            i <= s@.len() + 1 || i == from,
        decreases s.len() + 1 - i,
    {
        if occurs_at(s, p, i) {
            return Some(i);
        }
        if i == s.len() {
            assert(spec::find_from(s@, p@, i + 1) is None);
            return None;
        }
        i = i + 1;
    }
    None
}

pub fn find(s: &[char], p: &str) -> (r: Option<usize>)
    ensures
        r is Some == spec::find(s@, p@) is Some,
        r matches Some(i) ==> spec::find(s@, p@) == Some(i as int) && i + p@.len() <= s@.len(),
{
    let p = chars_of(p);
    find_from(s, p.as_slice(), 0)
}

pub fn contains(s: &[char], p: &str) -> (r: bool)
    ensures
        r == spec::contains(s@, p@),
{
    find(s, p).is_some()
}

pub fn split_once<'a>(s: &'a [char], p: &str) -> (r: Option<(&'a [char], &'a [char])>)
    ensures
        r is Some == spec::split_once(s@, p@) is Some,
        r matches Some(t) ==> spec::split_once(s@, p@) == Some((t.0@, t.1@)),
{
    match find(s, p) {
        Some(i) => {
            let n = chars_of(p).len();
            let total = s.len();
            Some((take(s, i), skip(s, i + n)))
        },
        None => None,
    }
}

pub fn rsplit_once<'a>(s: &'a [char], p: &str) -> (r: Option<(&'a [char], &'a [char])>)
    ensures
        r is Some == spec::rsplit_once(s@, p@) is Some,
        r matches Some(t) ==> spec::rsplit_once(s@, p@) == Some((t.0@, t.1@)),
{
    let pat = chars_of(p);
    if pat.len() > s.len() {
        return None;
    }
    let mut i: usize = s.len() - pat.len();
    loop
        invariant
            pat@ == p@,
            i + p@.len() <= s@.len(),
            spec::rfind_from(s@, p@, i as int) == spec::rfind_from(s@, p@, s@.len() - p@.len()),
        decreases i,
    {
        let total = s.len();
        if occurs_at(s, pat.as_slice(), i) {
            return Some((take(s, i), skip(s, i + pat.len())));
        }
        if i == 0 {
            assert(spec::rfind_from(s@, p@, -1) is None);
            return None;
        }
        i = i - 1;
    }
}

/// The text before the first occurrence of the pattern; all of it where there is none.
pub fn until<'a>(s: &'a [char], p: &str) -> (r: &'a [char])
    ensures
        r@ == spec::until(s@, p@),
{
    match find(s, p) {
        Some(i) => take(s, i),
        None => s,
    }
}

/// The text between the first two occurrences of the pattern, or after the only one.
pub fn second_piece<'a>(s: &'a [char], p: &str) -> (r: Option<&'a [char]>)
    ensures
        r is Some == spec::second_piece(s@, p@) is Some,
        r matches Some(t) ==> spec::second_piece(s@, p@) == Some(t@),
{
    match split_once(s, p) {
        Some((_, rest)) => Some(until(rest, p)),
        None => None,
    }
}

pub fn split<'a>(s: &'a [char], p: &str) -> (r: Vec<&'a [char]>)
    requires
        p@.len() > 0,
    ensures
        spec::pieces(r@) == spec::split(s@, p@),
{
    let mut r: Vec<&'a [char]> = Vec::new();
    let mut rest: &'a [char] = s;
    assert(spec::pieces(r@) + spec::split(rest@, p@) =~= spec::split(s@, p@));
    loop
        invariant
            p@.len() > 0,
            spec::pieces(r@) + spec::split(rest@, p@) == spec::split(s@, p@),
        decreases rest@.len(),
    {
        let ghost before = r@;
        proof {
            spec::lemma_find_from(rest@, p@, 0);
        }
        match split_once(rest, p) {
            Some((head, tail)) => {
                r.push(head);
                assert(spec::pieces(r@) =~= spec::pieces(before).push(head@));
                assert(spec::pieces(before) + spec::split(rest@, p@) =~= spec::pieces(r@)
                    + spec::split(tail@, p@));
                rest = tail;
            },
            None => {
                r.push(rest);
                assert(spec::pieces(r@) =~= spec::pieces(before) + spec::split(rest@, p@));
                return r;
            },
        }
    }
}

/// The lines of a text: they end with a line feed, or a carriage return and a line feed.
pub fn lines<'a>(s: &'a [char]) -> (r: Vec<&'a [char]>)
    ensures
        spec::pieces(r@) == spec::lines(s@),
{
    let mut r: Vec<&'a [char]> = Vec::new();
    let mut rest: &'a [char] = s;
    assert(spec::pieces(r@) + spec::lines(rest@) =~= spec::lines(s@));
    while rest.len() > 0
        invariant
            spec::pieces(r@) + spec::lines(rest@) == spec::lines(s@),
        decreases rest@.len(),
    {
        let ghost before = r@;
        proof {
            reveal_strlit("\n");
            spec::lemma_find_from(rest@, "\n"@, 0);
        }
        match split_once(rest, "\n") {
            Some((head, tail)) => {
                let line = match strip_suffix(head, "\r") {
                    Some(t) => t,
                    None => head,
                };
                r.push(line);
                assert(spec::pieces(r@) =~= spec::pieces(before).push(line@));
                assert(spec::pieces(before) + spec::lines(rest@) =~= spec::pieces(r@)
                    + spec::lines(tail@));
                rest = tail;
            },
            None => {
                r.push(rest);
                assert(spec::pieces(r@) =~= spec::pieces(before) + spec::lines(rest@));
                return r;
            },
        }
    }
    assert(spec::pieces(r@) =~= spec::pieces(r@) + spec::lines(rest@));
    r
}

/// How many characters stand before the first white space.
pub fn word_len(s: &[char]) -> (r: usize)
    ensures
        r as int == spec::word_len(s@),
        r <= s@.len(),
{
    let mut i: usize = 0;
    assert(s@.skip(0) == s@);
    while i < s.len() && !is_space(s[i])
        invariant
            i <= s@.len(),
            i + spec::word_len(s@.skip(i as int)) == spec::word_len(s@),
        decreases s.len() - i,
    {
        assert(s@.skip(i as int).skip(1) == s@.skip(i + 1));
        i = i + 1;
    }
    i
}

/// The maximal runs of characters that are not white space.
pub fn words<'a>(s: &'a [char]) -> (r: Vec<&'a [char]>)
    ensures
        spec::pieces(r@) == spec::words(s@),
{
    let mut r: Vec<&'a [char]> = Vec::new();
    let mut rest: &'a [char] = s;
    assert(spec::pieces(r@) + spec::words(rest@) =~= spec::words(s@));
    loop
        invariant
            spec::pieces(r@) + spec::words(rest@) == spec::words(s@),
        decreases rest@.len(),
    {
        let ghost before = r@;
        let t = trim_start(rest);
        proof {
            spec::lemma_trim_start_len(rest@);
        }
        if t.len() == 0 {
            assert(spec::pieces(r@) =~= spec::pieces(r@) + spec::words(rest@));
            return r;
        }
        let n = word_len(t);
        proof {
            spec::lemma_word_len(rest@);
        }
        let w = take(t, n);
        r.push(w);
        assert(spec::pieces(r@) =~= spec::pieces(before).push(w@));
        let tail = skip(t, n);
        assert(spec::pieces(before) + spec::words(rest@) =~= spec::pieces(r@) + spec::words(tail@));
        rest = tail;
    }
}

pub fn lower_char(c: char) -> (r: char)
    ensures
        r == spec::lower_char(c),
{
    if 'A' <= c && c <= 'Z' {
        ((c as u8) + 32) as char
    } else {
        c
    }
}

/// The text with the letters `A` to `Z` made small.
pub fn lower(s: &[char]) -> (r: Vec<char>)
    ensures
        r@ == spec::lower(s@),
{
    let mut r: Vec<char> = Vec::new();
    let mut i: usize = 0;
    while i < s.len()
        invariant
            i <= s@.len(),
            r@ == spec::lower(s@.take(i as int)),
        decreases s.len() - i,
    {
        r.push(lower_char(s[i]));
        i = i + 1;
        assert(spec::lower(s@.take(i as int)) =~= spec::lower(s@.take(i - 1)).push(
            spec::lower_char(s@[i - 1]),
        ));
    }
    assert(s@.take(s@.len() as int) == s@);
    r
}

/// Whether the texts are equal once the letters `A` to `Z` are made small.
pub fn is_ignoring_case(s: &[char], p: &str) -> (r: bool)
    ensures
        r == (spec::lower(s@) == spec::lower(p@)),
{
    let a = lower(s);
    let q = chars_of(p);
    let b = lower(q.as_slice());
    same(a.as_slice(), b.as_slice())
}

/// The text without any occurrence of the character.
pub fn without(s: &[char], c: char) -> (r: Vec<char>)
    ensures
        r@ == spec::without(s@, c),
{
    let mut r: Vec<char> = Vec::new();
    let mut i: usize = 0;
    assert(s@.skip(0) == s@);
    assert(r@ + spec::without(s@.skip(0), c) =~= spec::without(s@, c));
    while i < s.len()
        invariant
            i <= s@.len(),
            r@ + spec::without(s@.skip(i as int), c) == spec::without(s@, c),
        decreases s.len() - i,
    {
        let ghost before = r@;
        if s[i] != c {
            r.push(s[i]);
        }
        assert(s@.skip(i as int).skip(1) == s@.skip(i + 1));
        assert(before + spec::without(s@.skip(i as int), c) =~= r@ + spec::without(
            s@.skip(i + 1),
            c,
        ));
        i = i + 1;
    }
    assert(r@ =~= r@ + spec::without(s@.skip(i as int), c));
    r
}

/// The slice, copied.
pub fn copied(s: &[char]) -> (r: Vec<char>)
    ensures
        r@ == s@,
{
    let mut r: Vec<char> = Vec::new();
    let mut i: usize = 0;
    while i < s.len()
        invariant
            i <= s@.len(),
            r@ == s@.take(i as int),
        decreases s.len() - i,
    {
        r.push(s[i]);
        i = i + 1;
        assert(s@.take(i as int) == s@.take(i - 1).push(s@[i - 1]));
    }
    assert(s@.take(s@.len() as int) == s@);
    r
}

/// Whether the first text comes before the second or equals it, character by character.
pub fn le(a: &[char], b: &[char]) -> (r: bool)
    ensures
        r == spec::le(a@, b@),
{
    let mut i: usize = 0;
    assert(a@.skip(0) == a@ && b@.skip(0) == b@);
    loop
        invariant
            i <= a@.len(),
            i <= b@.len(),
            spec::le(a@.skip(i as int), b@.skip(i as int)) == spec::le(a@, b@),
        decreases a.len() - i,
    {
        if i == a.len() {
            return true;
        }
        if i == b.len() {
            return false;
        }
        if a[i] != b[i] {
            return a[i] < b[i];
        }
        assert(a@.skip(i as int).skip(1) == a@.skip(i + 1));
        assert(b@.skip(i as int).skip(1) == b@.skip(i + 1));
        i = i + 1;
    }
}

/// How many bytes the text takes in UTF-8.
pub fn byte_len(s: &[char]) -> (r: u128)
    ensures
        r as nat == spec::byte_len(s@),
{
    let mut n: u128 = 0;
    let mut i: usize = 0;
    let total = s.len();
    while i < total
        invariant
            i <= total,
            total == s@.len(),
            n as nat == spec::byte_len(s@.take(i as int)),
            n <= 4 * i,
        decreases total - i,
    {
        let u: u32 = s[i] as u32;
        let w: u128 = if u < 0x80 {
            1
        } else if u < 0x800 {
            2
        } else if u < 0x1_0000 {
            3
        } else {
            4
        };
        n = n + w;
        i = i + 1;
        assert(s@.take(i as int).drop_last() == s@.take(i - 1));
    }
    assert(s@.take(s@.len() as int) == s@);
    n
}

} // verus!
