//! The first item of a list with some property.
use vstd::prelude::*;

verus! {

/// The place of the first item from `i` on that has the property.
pub open spec fn first_from<K>(s: Seq<K>, p: spec_fn(K) -> bool, i: int) -> Option<int>
    decreases s.len() - i,
{
    if i >= s.len() {
        None
    } else if p(s[i]) {
        Some(i)
    } else {
        first_from(s, p, i + 1)
    }
}

/// The place of the first item that has the property.
pub open spec fn first<K>(s: Seq<K>, p: spec_fn(K) -> bool) -> Option<int> {
    first_from(s, p, 0)
}

/// The first item that has the property.
pub open spec fn first_item<K>(s: Seq<K>, p: spec_fn(K) -> bool) -> Option<K> {
    match first(s, p) {
        Some(i) => Some(s[i]),
        None => None,
    }
}

/// The first item with a property has it, and none before it does.
pub proof fn lemma_first_from<K>(s: Seq<K>, p: spec_fn(K) -> bool, i: int)
    requires
        0 <= i,
    ensures
        first_from(s, p, i) matches Some(k) ==> i <= k < s.len() && p(s[k]),
        first_from(s, p, i) matches Some(k) ==> forall|j: int| i <= j < k ==> !p(#[trigger] s[j]),
        first_from(s, p, i) is None ==> forall|j: int| i <= j < s.len() ==> !p(#[trigger] s[j]),
    decreases s.len() - i,
{
    if i < s.len() && !p(s[i]) {
        lemma_first_from(s, p, i + 1);
    }
}

/// The views of the items of a list.
pub open spec fn seen<T: View>(s: Seq<T>) -> Seq<T::V> {
    Seq::new(s.len(), |i: int| s[i]@)
}

} // verus!
