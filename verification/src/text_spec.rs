//! What the functions on text mean, over sequences of characters.
use vstd::prelude::*;

verus! {

/// The texts that a list of slices holds.
pub open spec fn pieces(v: Seq<&[char]>) -> Seq<Seq<char>> {
    Seq::new(v.len(), |i: int| v[i]@)
}

/// The texts that a list of strings holds.
pub open spec fn strings(v: Seq<String>) -> Seq<Seq<char>> {
    Seq::new(v.len(), |i: int| v[i]@)
}

/// The text of an optional string.
pub open spec fn opt(s: Option<String>) -> Option<Seq<char>> {
    match s {
        Some(t) => Some(t@),
        None => None,
    }
}

/// The characters with the Unicode property `White_Space`.
pub open spec fn is_space(c: char) -> bool {
    let u = c as u32;
    ||| 0x9 <= u <= 0xd
    ||| u == 0x20
    ||| u == 0x85
    ||| u == 0xa0
    ||| u == 0x1680
    ||| 0x2000 <= u <= 0x200a
    ||| u == 0x2028
    ||| u == 0x2029
    ||| u == 0x202f
    ||| u == 0x205f
    ||| u == 0x3000
}

pub open spec fn is_digit(c: char) -> bool {
    '0' <= c && c <= '9'
}

/// The text without its leading white space.
pub open spec fn trim_start(s: Seq<char>) -> Seq<char>
    decreases s.len(),
{
    if s.len() > 0 && is_space(s[0]) {
        trim_start(s.skip(1))
    } else {
        s
    }
}

/// The text without its trailing white space.
pub open spec fn trim_end(s: Seq<char>) -> Seq<char>
    decreases s.len(),
{
    if s.len() > 0 && is_space(s.last()) {
        trim_end(s.drop_last())
    } else {
        s
    }
}

/// The text without white space at either end.
pub open spec fn trim(s: Seq<char>) -> Seq<char> {
    trim_end(trim_start(s))
}

/// Whether the text is white space alone.
pub open spec fn is_blank(s: Seq<char>) -> bool {
    trim(s).len() == 0
}

pub open spec fn starts_with(s: Seq<char>, p: Seq<char>) -> bool {
    p.len() <= s.len() && s.take(p.len() as int) == p
}

pub open spec fn ends_with(s: Seq<char>, p: Seq<char>) -> bool {
    p.len() <= s.len() && s.skip(s.len() - p.len()) == p
}

pub open spec fn strip_prefix(s: Seq<char>, p: Seq<char>) -> Option<Seq<char>> {
    if starts_with(s, p) {
        Some(s.skip(p.len() as int))
    } else {
        None
    }
}

pub open spec fn strip_suffix(s: Seq<char>, p: Seq<char>) -> Option<Seq<char>> {
    if ends_with(s, p) {
        Some(s.take(s.len() - p.len()))
    } else {
        None
    }
}

/// Whether the pattern stands in the text at `i`.
pub open spec fn occurs_at(s: Seq<char>, p: Seq<char>, i: int) -> bool {
    0 <= i && i + p.len() <= s.len() && s.subrange(i, i + p.len()) == p
}

/// The least place at or after `i` where the pattern stands.
pub open spec fn find_from(s: Seq<char>, p: Seq<char>, i: int) -> Option<int>
    decreases s.len() + 1 - i,
{
    if i + p.len() > s.len() {
        None
    } else if occurs_at(s, p, i) {
        Some(i)
    } else {
        find_from(s, p, i + 1)
    }
}

/// The greatest place at or before `i` where the pattern stands.
pub open spec fn rfind_from(s: Seq<char>, p: Seq<char>, i: int) -> Option<int>
    decreases i + 1,
{
    if i < 0 {
        None
    } else if occurs_at(s, p, i) {
        Some(i)
    } else {
        rfind_from(s, p, i - 1)
    }
}

/// The first place where the pattern stands.
pub open spec fn find(s: Seq<char>, p: Seq<char>) -> Option<int> {
    find_from(s, p, 0)
}

pub open spec fn contains(s: Seq<char>, p: Seq<char>) -> bool {
    find(s, p) is Some
}

/// What stands before and after the first occurrence of the pattern.
pub open spec fn split_once(s: Seq<char>, p: Seq<char>) -> Option<(Seq<char>, Seq<char>)> {
    match find(s, p) {
        Some(i) => Some((s.take(i), s.skip(i + p.len()))),
        None => None,
    }
}

/// What stands before and after the last occurrence of the pattern.
pub open spec fn rsplit_once(s: Seq<char>, p: Seq<char>) -> Option<(Seq<char>, Seq<char>)> {
    match rfind_from(s, p, s.len() - p.len()) {
        Some(i) => Some((s.take(i), s.skip(i + p.len()))),
        None => None,
    }
}

/// The text before the first occurrence of the pattern; all of it where there is none.
pub open spec fn until(s: Seq<char>, p: Seq<char>) -> Seq<char> {
    match find(s, p) {
        Some(i) => s.take(i),
        None => s,
    }
}

/// The text between the first two occurrences of the pattern, or after the only one.
pub open spec fn second_piece(s: Seq<char>, p: Seq<char>) -> Option<Seq<char>> {
    match split_once(s, p) {
        Some(t) => Some(until(t.1, p)),
        None => None,
    }
}

/// The pieces between the occurrences of the pattern, which is not empty.
pub open spec fn split(s: Seq<char>, p: Seq<char>) -> Seq<Seq<char>>
    decreases s.len(),
    when p.len() > 0
    via split_decreases
{
    match split_once(s, p) {
        Some(t) => seq![t.0] + split(t.1, p),
        None => seq![s],
    }
}

#[via_fn]
proof fn split_decreases(s: Seq<char>, p: Seq<char>) {
    lemma_find_from(s, p, 0);
}

/// Where `find_from` finds the pattern, it stands there, and nowhere before.
pub proof fn lemma_find_from(s: Seq<char>, p: Seq<char>, i: int)
    requires
        0 <= i,
    ensures
        find_from(s, p, i) matches Some(k) ==> i <= k && occurs_at(s, p, k),
        find_from(s, p, i) matches Some(k) ==> forall|j: int|
            i <= j < k ==> !#[trigger] occurs_at(s, p, j),
        find_from(s, p, i) is None ==> forall|j: int| i <= j ==> !#[trigger] occurs_at(s, p, j),
    decreases s.len() + 1 - i,
{
    if i + p.len() <= s.len() && !occurs_at(s, p, i) {
        lemma_find_from(s, p, i + 1);
        let r = find_from(s, p, i + 1);
        assert(find_from(s, p, i) == r);
        assert forall|j: int| i <= j && (r matches Some(k) ==> j < k) implies !#[trigger] occurs_at(
            s,
            p,
            j,
        ) by {
            if j > i {
                assert(i + 1 <= j);
            }
        }
    }
}

/// The lines of a text: they end with a line feed, or a carriage return and a line feed.
pub open spec fn lines(s: Seq<char>) -> Seq<Seq<char>>
    decreases s.len(),
    via lines_decreases
{
    if s.len() == 0 {
        seq![]
    } else {
        match split_once(s, "\n"@) {
            Some(t) => seq![
                match strip_suffix(t.0, "\r"@) {
                    Some(u) => u,
                    None => t.0,
                },
            ] + lines(t.1),
            None => seq![s],
        }
    }
}

#[via_fn]
proof fn lines_decreases(s: Seq<char>) {
    reveal_strlit("\n");
    lemma_find_from(s, "\n"@, 0);
}

/// How many characters stand before the first white space.
pub open spec fn word_len(s: Seq<char>) -> int
    decreases s.len(),
{
    if s.len() > 0 && !is_space(s[0]) {
        1 + word_len(s.skip(1))
    } else {
        0
    }
}

/// The maximal runs of characters that are not white space.
pub open spec fn words(s: Seq<char>) -> Seq<Seq<char>>
    decreases s.len(),
    via words_decreases
{
    let t = trim_start(s);
    if t.len() == 0 {
        seq![]
    } else {
        seq![t.take(word_len(t))] + words(t.skip(word_len(t)))
    }
}

#[via_fn]
proof fn words_decreases(s: Seq<char>) {
    lemma_trim_start_len(s);
    lemma_word_len(s);
}

/// Trimming makes no text longer, and leaves no white space in front.
pub proof fn lemma_trim_start_len(s: Seq<char>)
    ensures
        trim_start(s).len() <= s.len(),
        trim_start(s).len() > 0 ==> !is_space(trim_start(s)[0]),
    decreases s.len(),
{
    if s.len() > 0 && is_space(s[0]) {
        lemma_trim_start_len(s.skip(1));
    }
}

/// A word of a text is no longer than the text.
pub proof fn lemma_word_len_bound(s: Seq<char>)
    ensures
        0 <= word_len(s) <= s.len(),
    decreases s.len(),
{
    if s.len() > 0 && !is_space(s[0]) {
        lemma_word_len_bound(s.skip(1));
    }
}

/// A text that is not blank starts with a word, once trimmed.
pub proof fn lemma_word_len(s: Seq<char>)
    ensures
        ({
            let t = trim_start(s);
            t.len() > 0 ==> 0 < word_len(t) <= t.len()
        }),
{
    let t = trim_start(s);
    lemma_trim_start_len(s);
    if t.len() > 0 {
        lemma_word_len_bound(t.skip(1));
    }
}

pub open spec fn lower_char(c: char) -> char {
    if 'A' <= c && c <= 'Z' {
        ((c as u8) + 32) as char
    } else {
        c
    }
}

/// The text with the letters `A` to `Z` made small.
pub open spec fn lower(s: Seq<char>) -> Seq<char> {
    Seq::new(s.len(), |i: int| lower_char(s[i]))
}

/// The text without any occurrence of the character.
pub open spec fn without(s: Seq<char>, c: char) -> Seq<char>
    decreases s.len(),
{
    if s.len() == 0 {
        seq![]
    } else if s[0] == c {
        without(s.skip(1), c)
    } else {
        seq![s[0]] + without(s.skip(1), c)
    }
}

/// Whether the first text comes before the second or equals it, character by character.
pub open spec fn le(a: Seq<char>, b: Seq<char>) -> bool
    decreases a.len(),
{
    if a.len() == 0 {
        true
    } else if b.len() == 0 {
        false
    } else if a[0] != b[0] {
        a[0] < b[0]
    } else {
        le(a.skip(1), b.skip(1))
    }
}

/// How many bytes a character takes in UTF-8.
pub open spec fn width(c: char) -> nat {
    let u = c as u32;
    if u < 0x80 {
        1
    } else if u < 0x800 {
        2
    } else if u < 0x1_0000 {
        3
    } else {
        4
    }
}

/// How many bytes a text takes in UTF-8.
pub open spec fn byte_len(s: Seq<char>) -> nat
    decreases s.len(),
{
    if s.len() == 0 {
        0
    } else {
        byte_len(s.drop_last()) + width(s.last())
    }
}

/// A text splits at the first place where the character stands.
pub proof fn lemma_split_at(a: Seq<char>, c: char, b: Seq<char>)
    requires
        !a.contains(c),
    ensures
        split_once(a + seq![c] + b, seq![c]) == Some((a, b)),
{
    let s = a + seq![c] + b;
    let p = seq![c];
    let n = a.len() as int;
    assert(s.subrange(n, n + 1) =~= p);
    assert(occurs_at(s, p, n));
    lemma_find_from(s, p, 0);
    let k = find_from(s, p, 0);
    assert(k is Some);
    let k = k->Some_0;
    if k < n {
        assert(s.subrange(k, k + 1)[0] == s[k]);
        assert(a[k] == c);
    }
    if k > n {
        assert(!occurs_at(s, p, n));
    }
    assert(s.take(n) =~= a);
    assert(s.skip(n + 1) =~= b);
}

/// A text that does not hold the character is not split by it.
pub proof fn lemma_no_split(s: Seq<char>, c: char)
    requires
        !s.contains(c),
    ensures
        find(s, seq![c]) is None,
{
    lemma_find_from(s, seq![c], 0);
    if let Some(k) = find(s, seq![c]) {
        assert(s.subrange(k, k + 1)[0] == s[k]);
        assert(s.contains(s[k]));
    }
}

/// A text with no white space at its ends is not changed by trimming.
pub proof fn lemma_trim_solid(s: Seq<char>)
    requires
        s.len() > 0 ==> !is_space(s[0]) && !is_space(s.last()),
    ensures
        trim(s) == s,
{
}

/// Whether every character is white space.
pub open spec fn all_space(s: Seq<char>) -> bool {
    forall|i: int| 0 <= i < s.len() ==> is_space(#[trigger] s[i])
}

/// Whether the text is a word: not empty, and without white space.
pub open spec fn is_word(s: Seq<char>) -> bool {
    s.len() > 0 && forall|i: int| 0 <= i < s.len() ==> !is_space(#[trigger] s[i])
}

/// Whether there is no white space at either end of the text.
pub open spec fn is_solid(s: Seq<char>) -> bool {
    s.len() > 0 ==> !is_space(s[0]) && !is_space(s.last())
}

proof fn lemma_trim_start(a: Seq<char>, s: Seq<char>)
    requires
        all_space(a),
    ensures
        trim_start(a + s) == trim_start(s),
    decreases a.len(),
{
    if a.len() > 0 {
        assert((a + s)[0] == a[0]);
        assert((a + s).skip(1) =~= a.skip(1) + s);
        assert forall|i: int| 0 <= i < a.skip(1).len() implies is_space(#[trigger] a.skip(1)[i]) by {
            assert(a.skip(1)[i] == a[i + 1]);
        }
        lemma_trim_start(a.skip(1), s);
    } else {
        assert(a + s =~= s);
    }
}

proof fn lemma_trim_end(s: Seq<char>, b: Seq<char>)
    requires
        all_space(b),
    ensures
        trim_end(s + b) == trim_end(s),
    decreases b.len(),
{
    if b.len() > 0 {
        assert((s + b).last() == b.last());
        assert((s + b).drop_last() =~= s + b.drop_last());
        assert forall|i: int| 0 <= i < b.drop_last().len() implies is_space(
            #[trigger] b.drop_last()[i],
        ) by {
            assert(b.drop_last()[i] == b[i]);
        }
        lemma_trim_end(s, b.drop_last());
    } else {
        assert(s + b =~= s);
    }
}

/// Trimming takes the white space off both ends, and nothing else.
pub proof fn trimming_takes_off_white_space(a: Seq<char>, s: Seq<char>, b: Seq<char>)
    requires
        all_space(a),
        all_space(b),
        is_solid(s),
    ensures
        trim(a + s + b) == s,
        is_blank(a + s + b) == (s.len() == 0),
{
    assert(a + s + b =~= a + (s + b));
    lemma_trim_start(a, s + b);
    if s.len() > 0 {
        assert((s + b)[0] == s[0]);
        lemma_trim_end(s, b);
    } else {
        assert(s + b =~= b);
        assert(b + s =~= b);
        lemma_trim_start(b, s);
    }
}

proof fn lemma_trim_start_is_tail(s: Seq<char>)
    ensures
        ({
            let t = trim_start(s);
            &&& t.len() <= s.len()
            &&& t == s.skip(s.len() - t.len())
            &&& all_space(s.take(s.len() - t.len()))
            &&& t.len() > 0 ==> !is_space(t[0])
        }),
    decreases s.len(),
{
    if s.len() > 0 && is_space(s[0]) {
        let u = s.skip(1);
        lemma_trim_start_is_tail(u);
        let t = trim_start(s);
        assert(t =~= s.skip(s.len() - t.len()));
        let front = s.take(s.len() - t.len());
        assert forall|i: int| 0 <= i < front.len() implies is_space(#[trigger] front[i]) by {
            if i > 0 {
                assert(front[i] == u.take(u.len() - t.len())[i - 1]);
            }
        }
    } else {
        assert(s.skip(0) =~= s);
    }
}

proof fn lemma_trim_end_is_front(s: Seq<char>)
    ensures
        ({
            let t = trim_end(s);
            &&& t.len() <= s.len()
            &&& t == s.take(t.len() as int)
            &&& all_space(s.skip(t.len() as int))
            &&& t.len() > 0 ==> !is_space(t.last())
        }),
    decreases s.len(),
{
    if s.len() > 0 && is_space(s.last()) {
        let u = s.drop_last();
        lemma_trim_end_is_front(u);
        let t = trim_end(s);
        assert(t =~= s.take(t.len() as int));
        let back = s.skip(t.len() as int);
        assert forall|i: int| 0 <= i < back.len() implies is_space(#[trigger] back[i]) by {
            if i < back.len() - 1 {
                assert(back[i] == u.skip(t.len() as int)[i]);
            }
        }
    } else {
        assert(s.take(s.len() as int) =~= s);
    }
}

/// Every text is white space, what trimming leaves of it, and white space again; and what is left
/// has no white space at its ends.
pub proof fn trimmed_texts_are_solid(s: Seq<char>) -> (r: (Seq<char>, Seq<char>))
    ensures
        all_space(r.0),
        all_space(r.1),
        s == r.0 + trim(s) + r.1,
        is_solid(trim(s)),
        trim(trim(s)) == trim(s),
{
    lemma_trim_start_is_tail(s);
    let t = trim_start(s);
    lemma_trim_end_is_front(t);
    let u = trim(s);
    let a = s.take(s.len() - t.len());
    let b = t.skip(u.len() as int);
    assert(s =~= a + t);
    assert(t =~= u + b);
    assert(s =~= a + u + b);
    if u.len() > 0 {
        assert(u[0] == t[0]);
    }
    lemma_trim_solid(u);
    (a, b)
}

proof fn lemma_whole_word(w: Seq<char>, rest: Seq<char>)
    requires
        forall|i: int| 0 <= i < w.len() ==> !is_space(#[trigger] w[i]),
        rest.len() == 0 || is_space(rest[0]),
    ensures
        word_len(w + rest) == w.len(),
    decreases w.len(),
{
    if w.len() > 0 {
        assert((w + rest)[0] == w[0]);
        assert((w + rest).skip(1) =~= w.skip(1) + rest);
        assert forall|i: int| 0 <= i < w.skip(1).len() implies !is_space(#[trigger] w.skip(1)[i]) by {
            assert(w.skip(1)[i] == w[i + 1]);
        }
        lemma_whole_word(w.skip(1), rest);
    } else {
        assert(w + rest =~= rest);
    }
}

/// The words of a text stand between its white space, in their order.
pub proof fn words_stand_between_white_space(a: Seq<char>, w: Seq<char>, rest: Seq<char>)
    requires
        all_space(a),
        is_word(w),
        rest.len() == 0 || is_space(rest[0]),
    ensures
        words(a + w + rest) == seq![w] + words(rest),
        words(a) == Seq::<Seq<char>>::empty(),
{
    assert(a + w + rest =~= a + (w + rest));
    lemma_trim_start(a, w + rest);
    assert((w + rest)[0] == w[0]);
    lemma_whole_word(w, rest);
    assert((w + rest).take(w.len() as int) =~= w);
    assert((w + rest).skip(w.len() as int) =~= rest);
    lemma_trim_start(a, seq![]);
    assert(a + Seq::<char>::empty() =~= a);
}

/// The words of a text are those of what trimming leaves of it.
pub proof fn words_of_trimmed(s: Seq<char>)
    ensures
        words(trim(s)) == words(s),
{
    let (a, b) = trimmed_texts_are_solid(s);
    let t = trim(s);
    assert(s =~= a + (t + b));
    lemma_trim_start(a, t + b);
    assert(words(s) == words(t + b));
    lemma_words_before_space(t, b);
}

proof fn lemma_words_before_space(t: Seq<char>, b: Seq<char>)
    requires
        all_space(b),
    ensures
        words(t + b) == words(t),
    decreases t.len(),
{
    lemma_trim_start_is_tail(t);
    let u = trim_start(t);
    let a = t.take(t.len() - u.len());
    assert(t =~= a + u);
    assert(t + b =~= a + (u + b));
    lemma_trim_start(a, u + b);
    if u.len() == 0 {
        assert(u + b =~= b);
        lemma_trim_start(b, seq![]);
        assert(b + Seq::<char>::empty() =~= b);
        assert(trim_start(u + b).len() == 0);
    } else {
        lemma_word_len(t);
        let n = word_len(u);
        lemma_word_prefix(u);
        let w = u.take(n);
        let rest = u.skip(n);
        assert(u =~= w + rest);
        assert(u + b =~= w + (rest + b));
        lemma_whole_word(w, rest + b);
        assert((u + b)[0] == u[0]);
        assert((u + b).take(n) =~= w);
        assert((u + b).skip(n) =~= rest + b);
        lemma_words_before_space(rest, b);
    }
}

proof fn lemma_word_prefix(s: Seq<char>)
    ensures
        ({
            let n = word_len(s);
            &&& 0 <= n <= s.len()
            &&& forall|i: int| 0 <= i < n ==> !is_space(#[trigger] s[i])
            &&& n < s.len() ==> is_space(s[n])
        }),
    decreases s.len(),
{
    if s.len() > 0 && !is_space(s[0]) {
        lemma_word_prefix(s.skip(1));
        let n = word_len(s);
        assert forall|i: int| 0 <= i < n implies !is_space(#[trigger] s[i]) by {
            if i > 0 {
                assert(s[i] == s.skip(1)[i - 1]);
            }
        }
        if n < s.len() {
            assert(s[n] == s.skip(1)[n - 1]);
        }
    }
}

/// A line ends at the first line feed, with or without a carriage return before it.
pub proof fn lines_end_at_line_feeds(a: Seq<char>, rest: Seq<char>)
    requires
        !a.contains('\n'),
        a.len() > 0 ==> a.last() != '\r',
    ensures
        lines(a + "\n"@ + rest) == seq![a] + lines(rest),
        lines(a + "\r\n"@ + rest) == seq![a] + lines(rest),
        a.len() > 0 ==> lines(a) == seq![a],
        lines(Seq::<char>::empty()) == Seq::<Seq<char>>::empty(),
{
    reveal_strlit("\n");
    reveal_strlit("\r");
    reveal_strlit("\r\n");
    assert("\n"@ =~= seq!['\n']);
    assert("\r"@ =~= seq!['\r']);
    lemma_split_at(a, '\n', rest);
    let b = a.push('\r');
    assert forall|i: int| 0 <= i < b.len() implies b[i] != '\n' by {
        if i < a.len() {
            assert(a[i] == b[i]);
            assert(a.contains(a[i]));
        }
    }
    assert(!b.contains('\n'));
    lemma_split_at(b, '\n', rest);
    assert(b + seq!['\n'] + rest =~= a + "\r\n"@ + rest);
    assert(b.skip(b.len() - 1) =~= "\r"@);
    assert(b.take(b.len() - 1) =~= a);
    if a.len() > 0 {
        assert(a.skip(a.len() - 1)[0] == a.last());
        assert(!ends_with(a, "\r"@));
    }
    lemma_no_split(a, '\n');
}

/// A text splits where the pattern stands last.
pub proof fn last_occurrence_splits(a: Seq<char>, p: Seq<char>, b: Seq<char>)
    requires
        forall|i: int| a.len() < i ==> !#[trigger] occurs_at(a + p + b, p, i),
    ensures
        rsplit_once(a + p + b, p) == Some((a, b)),
{
    let s = a + p + b;
    assert(s.subrange(a.len() as int, (a.len() + p.len()) as int) =~= p);
    lemma_rfind(s, p, s.len() - p.len(), a.len() as int);
    assert(s.take(a.len() as int) =~= a);
    assert(s.skip((a.len() + p.len()) as int) =~= b);
}

proof fn lemma_rfind(s: Seq<char>, p: Seq<char>, i: int, k: int)
    requires
        0 <= k <= i,
        occurs_at(s, p, k),
        forall|j: int| k < j ==> !#[trigger] occurs_at(s, p, j),
    ensures
        rfind_from(s, p, i) == Some(k),
    decreases i - k,
{
    if i > k {
        assert(!occurs_at(s, p, i));
        lemma_rfind(s, p, i - 1, k);
    }
}

/// A text splits where the pattern stands first; and a text is its beginning and what is left
/// without it.
pub proof fn first_occurrence_splits(a: Seq<char>, p: Seq<char>, b: Seq<char>)
    requires
        forall|i: int| 0 <= i < a.len() ==> !#[trigger] occurs_at(a + p + b, p, i),
    ensures
        find(a + p + b, p) == Some(a.len() as int),
        split_once(a + p + b, p) == Some((a, b)),
        until(a + p + b, p) == a,
        contains(a + p + b, p),
        strip_prefix(p + b, p) == Some(b),
        strip_suffix(a + p, p) == Some(a),
{
    let s = a + p + b;
    let n = a.len() as int;
    assert(s.subrange(n, n + p.len()) =~= p);
    lemma_find_from(s, p, 0);
    assert(occurs_at(s, p, n));
    assert(find(s, p) == Some(n)) by {
        let k = find(s, p)->Some_0;
        if k < n {
            assert(!occurs_at(s, p, k));
        }
        if k > n {
            assert(!occurs_at(s, p, n));
        }
    }
    assert(s.take(n) =~= a);
    assert(s.skip(n + p.len()) =~= b);
    assert((p + b).take(p.len() as int) =~= p);
    assert((p + b).skip(p.len() as int) =~= b);
    assert((a + p).skip(n) =~= p);
    assert((a + p).take(n) =~= a);
}

/// Making letters small leaves no capital one from `A` to `Z`, changes nothing else, and does not
/// tell texts apart that differ in such letters alone.
pub proof fn small_letters_stay(s: Seq<char>, i: int)
    requires
        0 <= i < s.len(),
    ensures
        lower(s).len() == s.len(),
        !('A' <= lower(s)[i] && lower(s)[i] <= 'Z'),
        !('A' <= s[i] && s[i] <= 'Z') ==> lower(s)[i] == s[i],
        'A' <= s[i] && s[i] <= 'Z' ==> lower(s)[i] as u32 - 'a' as u32 == s[i] as u32 - 'A' as u32,
        lower(lower(s)) == lower(s),
{
    assert(lower(lower(s)) =~= lower(s));
}

/// Leaving a character out keeps the others, in their order.
pub proof fn leaving_out_keeps_the_others(a: Seq<char>, b: Seq<char>, c: char)
    ensures
        without(a + b, c) == without(a, c) + without(b, c),
        without(seq![c], c) == Seq::<char>::empty(),
        forall|d: char| d != c ==> #[trigger] without(seq![d], c) == seq![d],
    decreases a.len(),
{
    reveal_with_fuel(without, 2);
    if a.len() > 0 {
        assert((a + b)[0] == a[0]);
        assert((a + b).skip(1) =~= a.skip(1) + b);
        leaving_out_keeps_the_others(a.skip(1), b, c);
        assert(without(a + b, c) =~= without(a, c) + without(b, c));
    } else {
        assert(a + b =~= b);
        assert(without(a, c) + without(b, c) =~= without(b, c));
    }
}

} // verus!
