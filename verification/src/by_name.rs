//! Values kept under the names of outputs.
use vstd::prelude::*;

use crate::text;

verus! {

/// A map from names to values.
#[derive(Debug)]
pub struct ByName<T> {
    entries: Vec<(String, T)>,
}

/// The map that a list of entries stands for; a later entry replaces an earlier one.
pub open spec fn map_of<T>(s: Seq<(String, T)>) -> Map<Seq<char>, T>
    decreases s.len(),
{
    if s.len() == 0 {
        Map::empty()
    } else {
        map_of(s.drop_last()).insert(s.last().0@, s.last().1)
    }
}

spec fn distinct_names<T>(s: Seq<(String, T)>) -> bool {
    forall|i: int, j: int| 0 <= i < j < s.len() ==> (#[trigger] s[i]).0@ != (#[trigger] s[j]).0@
}

proof fn lemma_dom<T>(s: Seq<(String, T)>, name: Seq<char>)
    ensures
        map_of(s).dom().contains(name) == exists|i: int|
            0 <= i < s.len() && (#[trigger] s[i]).0@ == name,
    decreases s.len(),
{
    if s.len() > 0 {
        let t = s.drop_last();
        lemma_dom(t, name);
        if map_of(t).dom().contains(name) {
            let i = choose|i: int| 0 <= i < t.len() && (#[trigger] t[i]).0@ == name;
            assert(s[i].0@ == name);
        }
        if exists|i: int| 0 <= i < s.len() && (#[trigger] s[i]).0@ == name {
            let i = choose|i: int| 0 <= i < s.len() && (#[trigger] s[i]).0@ == name;
            if i < t.len() {
                assert(t[i].0@ == name);
            }
        }
        assert(s[s.len() - 1] == s.last());
    }
}

proof fn lemma_entry<T>(s: Seq<(String, T)>, i: int)
    requires
        distinct_names(s),
        0 <= i < s.len(),
    ensures
        map_of(s).dom().contains(s[i].0@),
        map_of(s)[s[i].0@] == s[i].1,
    decreases s.len(),
{
    let t = s.drop_last();
    if i < t.len() {
        lemma_entry(t, i);
        assert(s[i].0@ != s[s.len() - 1].0@);
    }
}

proof fn lemma_replace<T>(s: Seq<(String, T)>, i: int, e: (String, T))
    requires
        distinct_names(s),
        0 <= i < s.len(),
        e.0@ == s[i].0@,
    ensures
        map_of(s.update(i, e)) == map_of(s).insert(e.0@, e.1),
    decreases s.len(),
{
    let t = s.drop_last();
    let u = s.update(i, e);
    if i < t.len() {
        lemma_replace(t, i, e);
        assert(u.drop_last() =~= t.update(i, e));
        assert(s[i].0@ != s[s.len() - 1].0@);
        assert(map_of(u) =~= map_of(s).insert(e.0@, e.1));
    } else {
        assert(u.drop_last() =~= t);
        assert(map_of(u) =~= map_of(s).insert(e.0@, e.1));
    }
}

proof fn lemma_remove<T>(s: Seq<(String, T)>, i: int)
    requires
        distinct_names(s),
        0 <= i < s.len(),
    ensures
        map_of(s.remove(i)) == map_of(s).remove(s[i].0@),
        distinct_names(s.remove(i)),
    decreases s.len(),
{
    let t = s.drop_last();
    let u = s.remove(i);
    let name = s[i].0@;
    if i < t.len() {
        lemma_remove(t, i);
        assert(u.drop_last() =~= t.remove(i));
        assert(s[i].0@ != s[s.len() - 1].0@);
        assert(map_of(u) =~= map_of(s).remove(name));
    } else {
        assert(u =~= t);
        lemma_dom(t, name);
        assert(map_of(u) =~= map_of(s).remove(name));
    }
}

impl<T> View for ByName<T> {
    type V = Map<Seq<char>, T>;

    closed spec fn view(&self) -> Map<Seq<char>, T> {
        map_of(self.entries@)
    }
}

impl<T> ByName<T> {
    #[verifier::type_invariant]
    spec fn wf(self) -> bool {
        distinct_names(self.entries@)
    }
}

impl<T: Copy> ByName<T> {
    pub fn new() -> (r: Self)
        ensures
            r@ == Map::<Seq<char>, T>::empty(),
    {
        ByName { entries: Vec::new() }
    }

    fn place(&self, name: &str) -> (r: Option<usize>)
        ensures
            r is Some == self@.dom().contains(name@),
            r matches Some(i) ==> i < self.entries@.len() && self.entries@[i as int].0@ == name@
                && self@[name@] == self.entries@[i as int].1,
    {
        proof {
            use_type_invariant(self);
            lemma_dom(self.entries@, name@);
        }
        let mut i: usize = 0;
        while i < self.entries.len()
            invariant
                i <= self.entries@.len(),
                forall|j: int| 0 <= j < i ==> (#[trigger] self.entries@[j]).0@ != name@,
                distinct_names(self.entries@),
            decreases self.entries.len() - i,
        {
            if text::same_str(self.entries[i].0.as_str(), name) {
                proof {
                    lemma_entry(self.entries@, i as int);
                }
                return Some(i);
            }
            i = i + 1;
        }
        None
    }

    /// The value under the name.
    pub fn get(&self, name: &str) -> (r: Option<T>)
        ensures
            r == if self@.dom().contains(name@) {
                Some(self@[name@])
            } else {
                None
            },
    {
        match self.place(name) {
            Some(i) => Some(self.entries[i].1),
            None => None,
        }
    }

    /// Puts the value under the name, in place of what was there.
    pub fn set(&mut self, name: &str, value: T)
        ensures
            final(self)@ == old(self)@.insert(name@, value),
    {
        proof {
            use_type_invariant(&*self);
            lemma_dom(self.entries@, name@);
        }
        let ghost before = self.entries@;
        let e = (String::from_str(name), value);
        let mut entries: Vec<(String, T)> = Vec::new();
        let place = self.place(name);
        std::mem::swap(&mut entries, &mut self.entries);
        match place {
            Some(i) => {
                proof {
                    lemma_replace(before, i as int, e);
                }
                entries.set(i, e);
            },
            None => {
                entries.push(e);
                proof {
                    assert(entries@.drop_last() =~= before);
                    assert forall|i: int, j: int| 0 <= i < j < entries@.len() implies (
                    #[trigger] entries@[i]).0@ != (#[trigger] entries@[j]).0@ by {
                        assert(entries@[i] == before[i]);
                        if j < before.len() {
                            assert(entries@[j] == before[j]);
                        }
                    }
                }
            },
        }
        self.entries = entries;
    }

    /// Takes the name out of the map, and returns whether it was there.
    pub fn remove(&mut self, name: &str) -> (r: bool)
        ensures
            r == old(self)@.dom().contains(name@),
            final(self)@ == old(self)@.remove(name@),
    {
        proof {
            use_type_invariant(&*self);
        }
        match self.place(name) {
            Some(i) => {
                proof {
                    lemma_remove(self.entries@, i as int);
                }
                let mut entries: Vec<(String, T)> = Vec::new();
                std::mem::swap(&mut entries, &mut self.entries);
                entries.remove(i);
                self.entries = entries;
                true
            },
            None => {
                assert(self@.remove(name@) =~= self@);
                false
            },
        }
    }

    /// The same map once more.
    pub fn copied(&self) -> (r: Self)
        ensures
            r@ == self@,
    {
        let mut r = Self::new();
        let mut i: usize = 0;
        while i < self.entries.len()
            invariant
                i <= self.entries@.len(),
                r@ == map_of(self.entries@.take(i as int)),
            decreases self.entries.len() - i,
        {
            r.set(self.entries[i].0.as_str(), self.entries[i].1);
            i = i + 1;
            assert(self.entries@.take(i as int).drop_last() == self.entries@.take(i - 1));
        }
        assert(self.entries@.take(self.entries@.len() as int) == self.entries@);
        r
    }

    /// The map that a list of entries stands for.
    pub fn from_entries(entries: Vec<(String, T)>) -> (r: Self)
        ensures
            r@ == map_of(entries@),
    {
        let mut r = Self::new();
        let mut i: usize = 0;
        while i < entries.len()
            invariant
                i <= entries@.len(),
                r@ == map_of(entries@.take(i as int)),
            decreases entries.len() - i,
        {
            r.set(entries[i].0.as_str(), entries[i].1);
            i = i + 1;
            assert(entries@.take(i as int).drop_last() == entries@.take(i - 1));
        }
        assert(entries@.take(entries@.len() as int) == entries@);
        r
    }

    /// The names with their values, each name once.
    pub fn entries(&self) -> (r: &Vec<(String, T)>)
        ensures
            map_of(r@) == self@,
            forall|i: int, j: int|
                0 <= i < j < r@.len() ==> (#[trigger] r@[i]).0@ != (#[trigger] r@[j]).0@,
    {
        proof {
            use_type_invariant(self);
        }
        &self.entries
    }
}

} // verus!
