//! Stable sorting, and dropping of repeated neighbours.
use vstd::prelude::*;

use crate::float;
use crate::float::Double;
use crate::text;
use crate::text_spec as spec;

verus! {

/// Things with an order.
pub trait Ordered: Sized {
    /// What a thing is, as far as it is to be told from others.
    type K;

    spec fn key(&self) -> Self::K;

    /// Whether the first may stand before the second.
    spec fn le(a: Self::K, b: Self::K) -> bool;

    fn at_most(&self, other: &Self) -> (r: bool)
        ensures
            r == Self::le(self.key(), other.key()),
    ;
}

pub open spec fn keys<T: Ordered>(s: Seq<T>) -> Seq<T::K> {
    Seq::new(s.len(), |i: int| s[i].key())
}

/// The list with one more thing in it: after all those that may stand before it.
pub open spec fn inserted<K>(s: Seq<K>, x: K, le: spec_fn(K, K) -> bool) -> Seq<K>
    decreases s.len(),
{
    if s.len() == 0 || le(s.last(), x) {
        s.push(x)
    } else {
        inserted(s.drop_last(), x, le).push(s.last())
    }
}

/// The list in order; things that may stand either way keep their order.
pub open spec fn sorted<K>(s: Seq<K>, le: spec_fn(K, K) -> bool) -> Seq<K>
    decreases s.len(),
{
    if s.len() == 0 {
        s
    } else {
        inserted(sorted(s.drop_last(), le), s.last(), le)
    }
}

/// The list without the things that are the same as the one kept before them.
pub open spec fn deduped<K>(s: Seq<K>, same: spec_fn(K, K) -> bool) -> Seq<K>
    decreases s.len(),
{
    if s.len() == 0 {
        s
    } else {
        let kept = deduped(s.drop_last(), same);
        if kept.len() > 0 && same(s.last(), kept.last()) {
            kept
        } else {
            kept.push(s.last())
        }
    }
}

/// The order of a type as a function.
pub open spec fn order<T: Ordered>() -> spec_fn(T::K, T::K) -> bool {
    |a: T::K, b: T::K| T::le(a, b)
}

proof fn lemma_inserted<K>(s: Seq<K>, x: K, le: spec_fn(K, K) -> bool, i: int)
    requires
        0 <= i <= s.len(),
        forall|j: int| i <= j < s.len() ==> !le(#[trigger] s[j], x),
        i > 0 ==> le(s[i - 1], x),
    ensures
        inserted(s, x, le) == s.insert(i, x),
    decreases s.len(),
{
    if i == s.len() {
        assert(s.push(x) =~= s.insert(i, x));
    } else {
        assert(!le(s[s.len() - 1], x));
        lemma_inserted(s.drop_last(), x, le, i);
        assert(s.drop_last().insert(i, x).push(s.last()) =~= s.insert(i, x));
    }
}

fn insert<T: Ordered>(v: &mut Vec<T>, x: T)
    ensures
        keys(final(v)@) == inserted(keys(old(v)@), x.key(), order::<T>()),
{
    let ghost before = keys(v@);
    let ghost k = x.key();
    let mut i: usize = v.len();
    while i > 0 && !v[i - 1].at_most(&x)
        invariant
            i <= v@.len(),
            before == keys(v@),
            forall|j: int| i <= j < before.len() ==> !T::le(#[trigger] before[j], x.key()),
        decreases i,
    {
        i = i - 1;
    }
    proof {
        lemma_inserted(before, x.key(), order::<T>(), i as int);
    }
    v.insert(i, x);
    assert(keys(v@) =~= before.insert(i as int, k));
}

/// The list in order.
pub fn sort<T: Ordered>(v: Vec<T>) -> (r: Vec<T>)
    ensures
        keys(r@) == sorted(keys(v@), order::<T>()),
{
    let mut r: Vec<T> = Vec::new();
    let mut v = v;
    let ghost all = keys(v@);
    let n = v.len();
    // The items are taken from the end, so they are turned round first.
    let mut rest: Vec<T> = Vec::new();
    while v.len() > 0
        invariant
            n == all.len(),
            v@.len() + rest@.len() == n,
            keys(v@) == all.take(v@.len() as int),
            forall|j: int|
                0 <= j < rest@.len() ==> (#[trigger] rest@[j]).key() == all[n - 1 - j],
        decreases v@.len(),
    {
        let ghost before = v@;
        assert(keys(before)[before.len() - 1] == before.last().key());
        let x = v.pop().unwrap();
        rest.push(x);
        assert(keys(v@) =~= all.take(v@.len() as int));
    }
    assert(keys(r@) =~= sorted(all.take(0), order::<T>()));
    while rest.len() > 0
        invariant
            n == all.len(),
            rest@.len() <= n,
            keys(r@) == sorted(all.take(n - rest@.len()), order::<T>()),
            forall|j: int|
                0 <= j < rest@.len() ==> (#[trigger] rest@[j]).key() == all[n - 1 - j],
        decreases rest@.len(),
    {
        let ghost done = n - rest@.len();
        assert(rest@[rest@.len() - 1].key() == all[done]);
        let x = rest.pop().unwrap();
        insert(&mut r, x);
        assert(all.take(done + 1).drop_last() == all.take(done));
    }
    assert(all.take(n as int) == all);
    r
}

/// Whether each thing may stand before all those after it.
pub open spec fn in_order<K>(s: Seq<K>, le: spec_fn(K, K) -> bool) -> bool {
    forall|i: int, j: int| 0 <= i < j < s.len() ==> le(#[trigger] s[i], #[trigger] s[j])
}

/// Of any two things one may stand before the other, and what may stand before something may
/// stand before all that comes after it.
pub open spec fn is_order<K>(le: spec_fn(K, K) -> bool) -> bool {
    &&& forall|a: K, b: K| #[trigger] le(a, b) || le(b, a)
    &&& forall|a: K, b: K, c: K| #[trigger] le(a, b) && #[trigger] le(b, c) ==> le(a, c)
}

proof fn lemma_inserted_in_order<K>(s: Seq<K>, x: K, le: spec_fn(K, K) -> bool)
    requires
        is_order(le),
        in_order(s, le),
    ensures
        in_order(inserted(s, x, le), le),
        inserted(s, x, le).to_multiset() == s.to_multiset().insert(x),
        inserted(s, x, le).len() == s.len() + 1,
        forall|y: K| #[trigger] inserted(s, x, le).contains(y) ==> s.contains(y) || y == x,
    decreases s.len(),
{
    broadcast use vstd::seq_lib::group_to_multiset_ensures;

    if s.len() == 0 || le(s.last(), x) {
        let t = s.push(x);
        assert forall|i: int, j: int| 0 <= i < j < t.len() implies le(
            #[trigger] t[i],
            #[trigger] t[j],
        ) by {
            if j == s.len() && i < s.len() - 1 {
                assert(le(s[i], s[s.len() - 1]));
            }
        }
        assert forall|y: K| #[trigger] t.contains(y) implies s.contains(y) || y == x by {
            let i = choose|i: int| 0 <= i < t.len() && t[i] == y;
            if i < s.len() {
                assert(s[i] == y);
            }
        }
    } else {
        let d = s.drop_last();
        let last = s.last();
        lemma_inserted_in_order(d, x, le);
        let u = inserted(d, x, le);
        let t = u.push(last);
        assert(le(x, last));
        assert forall|i: int, j: int| 0 <= i < j < t.len() implies le(
            #[trigger] t[i],
            #[trigger] t[j],
        ) by {
            if j == u.len() {
                assert(u.contains(u[i]));
                if u[i] != x {
                    let k = choose|k: int| 0 <= k < d.len() && d[k] == u[i];
                    assert(le(s[k], s[s.len() - 1]));
                }
            }
        }
        assert forall|y: K| #[trigger] t.contains(y) implies s.contains(y) || y == x by {
            let i = choose|i: int| 0 <= i < t.len() && t[i] == y;
            if i < u.len() {
                assert(u.contains(y));
                if y != x {
                    let k = choose|k: int| 0 <= k < d.len() && d[k] == y;
                    assert(s[k] == y);
                }
            } else {
                assert(s[s.len() - 1] == y);
            }
        }
        assert(s =~= d.push(last));
        assert(t.to_multiset() =~= s.to_multiset().insert(x));
    }
}

/// Sorting puts a list into order and keeps all that is in it.
pub proof fn sorting_orders<K>(s: Seq<K>, le: spec_fn(K, K) -> bool)
    requires
        is_order(le),
    ensures
        in_order(sorted(s, le), le),
        sorted(s, le).to_multiset() == s.to_multiset(),
        sorted(s, le).len() == s.len(),
    decreases s.len(),
{
    broadcast use vstd::seq_lib::group_to_multiset_ensures;

    if s.len() > 0 {
        sorting_orders(s.drop_last(), le);
        lemma_inserted_in_order(sorted(s.drop_last(), le), s.last(), le);
        assert(s =~= s.drop_last().push(s.last()));
    }
}

impl Ordered for String {
    type K = Seq<char>;

    open spec fn key(&self) -> Seq<char> {
        self@
    }

    open spec fn le(a: Seq<char>, b: Seq<char>) -> bool {
        spec::le(a, b)
    }

    fn at_most(&self, other: &Self) -> (r: bool) {
        let a = text::chars_of(self.as_str());
        let b = text::chars_of(other.as_str());
        let r = text::le(a.as_slice(), b.as_slice());
        assert(self.key() == self@);
        assert(other.key() == other@);
        assert(<String as Ordered>::le(self@, other@) == spec::le(self@, other@));
        r
    }
}

/// Whether the first pair comes before the second or equals it, by the first texts and then by
/// the second ones.
pub open spec fn pair_le(a: (Seq<char>, Seq<char>), b: (Seq<char>, Seq<char>)) -> bool {
    if a.0 == b.0 {
        spec::le(a.1, b.1)
    } else {
        spec::le(a.0, b.0)
    }
}

impl Ordered for (String, String) {
    type K = (Seq<char>, Seq<char>);

    open spec fn key(&self) -> (Seq<char>, Seq<char>) {
        (self.0@, self.1@)
    }

    open spec fn le(a: (Seq<char>, Seq<char>), b: (Seq<char>, Seq<char>)) -> bool {
        pair_le(a, b)
    }

    fn at_most(&self, other: &Self) -> (r: bool) {
        if text::same_str(self.0.as_str(), other.0.as_str()) {
            self.1.at_most(&other.1)
        } else {
            self.0.at_most(&other.0)
        }
    }
}

impl Ordered for Double {
    type K = Double;

    open spec fn key(&self) -> Double {
        *self
    }

    open spec fn le(a: Double, b: Double) -> bool {
        !float::less_double(b, a)
    }

    fn at_most(&self, other: &Self) -> (r: bool) {
        !other.less(*self)
    }
}

/// The texts of a list, in order, each once.
pub open spec fn set_of_texts(s: Seq<Seq<char>>) -> Seq<Seq<char>> {
    deduped(sorted(s, |a: Seq<char>, b: Seq<char>| spec::le(a, b)), |a: Seq<char>, b: Seq<char>| a == b)
}

/// The pairs of a list, in order, each once.
pub open spec fn set_of_pairs(s: Seq<(Seq<char>, Seq<char>)>) -> Seq<(Seq<char>, Seq<char>)> {
    deduped(
        sorted(s, |a: (Seq<char>, Seq<char>), b: (Seq<char>, Seq<char>)| pair_le(a, b)),
        |a: (Seq<char>, Seq<char>), b: (Seq<char>, Seq<char>)| a == b,
    )
}

/// The pairs of texts that a list holds.
pub open spec fn pairs(v: Seq<(String, String)>) -> Seq<(Seq<char>, Seq<char>)> {
    Seq::new(v.len(), |i: int| (v[i].0@, v[i].1@))
}

/// The texts in order, each once.
pub fn sort_texts(v: Vec<String>) -> (r: Vec<String>)
    ensures
        spec::strings(r@) == set_of_texts(spec::strings(v@)),
{
    let ghost given = spec::strings(v@);
    let ghost same = |a: Seq<char>, b: Seq<char>| a == b;
    assert(keys(v@) =~= given);
    assert(order::<String>() =~= |a: Seq<char>, b: Seq<char>| spec::le(a, b));
    let s = sort(v);
    let ghost all = spec::strings(s@);
    assert(keys(s@) =~= all);
    let mut r: Vec<String> = Vec::new();
    let mut i: usize = 0;
    assert(spec::strings(r@) =~= deduped(all.take(0), same));
    while i < s.len()
        invariant
            i <= s@.len(),
            all == spec::strings(s@),
            same == (|a: Seq<char>, b: Seq<char>| a == b),
            spec::strings(r@) == deduped(all.take(i as int), same),
        decreases s.len() - i,
    {
        let ghost before = r@;
        assert(all.take(i + 1).drop_last() == all.take(i as int));
        let n = r.len();
        if n == 0 || !text::same_str(s[i].as_str(), r[n - 1].as_str()) {
            r.push(s[i].clone());
            assert(spec::strings(r@) =~= spec::strings(before).push(all[i as int]));
        }
        i = i + 1;
    }
    assert(all.take(all.len() as int) == all);
    r
}

/// The pairs in order, each once.
pub fn sort_pairs(v: Vec<(String, String)>) -> (r: Vec<(String, String)>)
    ensures
        pairs(r@) == set_of_pairs(pairs(v@)),
{
    let ghost given = pairs(v@);
    let ghost same = |a: (Seq<char>, Seq<char>), b: (Seq<char>, Seq<char>)| a == b;
    assert(keys(v@) =~= given);
    assert(order::<(String, String)>() =~= |a: (Seq<char>, Seq<char>), b: (Seq<char>, Seq<char>)|
        pair_le(a, b));
    let s = sort(v);
    let ghost all = pairs(s@);
    assert(keys(s@) =~= all);
    let mut r: Vec<(String, String)> = Vec::new();
    let mut i: usize = 0;
    assert(pairs(r@) =~= deduped(all.take(0), same));
    while i < s.len()
        invariant
            i <= s@.len(),
            all == pairs(s@),
            same == (|a: (Seq<char>, Seq<char>), b: (Seq<char>, Seq<char>)| a == b),
            pairs(r@) == deduped(all.take(i as int), same),
        decreases s.len() - i,
    {
        let ghost before = r@;
        assert(all.take(i + 1).drop_last() == all.take(i as int));
        let n = r.len();
        if n == 0 || !text::same_str(s[i].0.as_str(), r[n - 1].0.as_str()) || !text::same_str(
            s[i].1.as_str(),
            r[n - 1].1.as_str(),
        ) {
            r.push((s[i].0.clone(), s[i].1.clone()));
            assert(pairs(r@) =~= pairs(before).push(all[i as int]));
        }
        i = i + 1;
    }
    assert(all.take(all.len() as int) == all);
    r
}

pub(crate) proof fn lemma_text_order(a: Seq<char>, b: Seq<char>)
    ensures
        spec::le(a, b) || spec::le(b, a),
        spec::le(a, b) && spec::le(b, a) ==> a == b,
    decreases a.len(),
{
    if a.len() > 0 && b.len() > 0 && a[0] == b[0] {
        lemma_text_order(a.skip(1), b.skip(1));
        if spec::le(a, b) && spec::le(b, a) {
            assert(a =~= seq![a[0]] + a.skip(1));
            assert(b =~= seq![b[0]] + b.skip(1));
        }
    } else if a.len() == 0 && b.len() == 0 {
        assert(a =~= b);
    }
}

pub(crate) proof fn lemma_text_order_chains(a: Seq<char>, b: Seq<char>, c: Seq<char>)
    requires
        spec::le(a, b),
        spec::le(b, c),
    ensures
        spec::le(a, c),
    decreases a.len(),
{
    if a.len() > 0 && a[0] == b[0] && b[0] == c[0] {
        lemma_text_order_chains(a.skip(1), b.skip(1), c.skip(1));
    }
}

/// The order of texts: of two texts one may stand before the other.
pub open spec fn text_order() -> spec_fn(Seq<char>, Seq<char>) -> bool {
    |a: Seq<char>, b: Seq<char>| spec::le(a, b)
}

/// The order of texts is an order.
pub proof fn texts_are_ordered()
    ensures
        is_order(text_order()),
{
    let le = text_order();
    assert forall|a: Seq<char>, b: Seq<char>| #[trigger] le(a, b) || le(b, a) by {
        lemma_text_order(a, b);
    }
    assert forall|a: Seq<char>, b: Seq<char>, c: Seq<char>| #[trigger]
        le(a, b) && #[trigger] le(b, c) implies le(a, c) by {
        lemma_text_order_chains(a, b, c);
    }
}

proof fn lemma_deduped_texts(s: Seq<Seq<char>>)
    requires
        in_order(s, text_order()),
    ensures
        ({
            let d = deduped(s, |a: Seq<char>, b: Seq<char>| a == b);
            &&& forall|i: int, j: int|
                0 <= i < j < d.len() ==> spec::le(#[trigger] d[i], #[trigger] d[j]) && d[i] != d[j]
            &&& forall|x: Seq<char>| #[trigger] d.contains(x) == s.contains(x)
            &&& s.len() > 0 ==> d.len() > 0 && d.last() == s.last()
        }),
    decreases s.len(),
{
    let same = |a: Seq<char>, b: Seq<char>| a == b;
    let d = deduped(s, same);
    if s.len() > 0 {
        let t = s.drop_last();
        let kept = deduped(t, same);
        lemma_deduped_texts(t);
        assert forall|i: int, j: int| 0 <= i < j < d.len() implies spec::le(
            #[trigger] d[i],
            #[trigger] d[j],
        ) && d[i] != d[j] by {
            if j >= kept.len() {
                let k = kept.len() - 1;
                assert(kept.last() == t.last());
                assert(text_order()(s[t.len() - 1], s[s.len() - 1]));
                assert(spec::le(kept[k], s.last()));
                if i < k {
                    assert(spec::le(kept[i], kept[k]));
                    lemma_text_order_chains(kept[i], kept[k], s.last());
                    lemma_text_order(kept[i], kept[k]);
                }
            }
        }
        assert forall|x: Seq<char>| #[trigger] d.contains(x) == s.contains(x) by {
            if d.contains(x) {
                let i = choose|i: int| 0 <= i < d.len() && d[i] == x;
                if i < kept.len() {
                    assert(kept.contains(x));
                    let k = choose|k: int| 0 <= k < t.len() && t[k] == x;
                    assert(s[k] == x);
                } else {
                    assert(s[s.len() - 1] == x);
                }
            }
            if s.contains(x) {
                let k = choose|k: int| 0 <= k < s.len() && s[k] == x;
                if k < t.len() {
                    assert(t[k] == x);
                    assert(t.contains(x));
                    assert(kept.contains(x));
                    let i = choose|i: int| 0 <= i < kept.len() && kept[i] == x;
                    assert(d[i] == x);
                } else {
                    assert(d[d.len() - 1] == x);
                }
            }
        }
    }
}

/// A list of texts that is put into order holds what it held before, each text once, and each
/// before all greater ones.
pub proof fn sorted_texts_are_distinct(s: Seq<Seq<char>>)
    ensures
        ({
            let d = set_of_texts(s);
            &&& forall|i: int, j: int|
                0 <= i < j < d.len() ==> spec::le(#[trigger] d[i], #[trigger] d[j]) && d[i] != d[j]
            &&& forall|x: Seq<char>| #[trigger] d.contains(x) == s.contains(x)
        }),
{
    texts_are_ordered();
    let le = text_order();
    assert(le =~= |a: Seq<char>, b: Seq<char>| spec::le(a, b));
    let t = sorted(s, le);
    sorting_orders(s, le);
    lemma_deduped_texts(t);
    assert forall|x: Seq<char>| #[trigger] set_of_texts(s).contains(x) == s.contains(x) by {
        broadcast use vstd::seq_lib::group_to_multiset_ensures;

        assert(t.contains(x) == (t.to_multiset().count(x) > 0));
        assert(s.contains(x) == (s.to_multiset().count(x) > 0));
    }
}

} // verus!
