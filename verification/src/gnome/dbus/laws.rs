//! What holds of every dictionary.
use vstd::prelude::*;

use crate::gnome::dbus::{carried, entry_value, DbusEntry};

verus! {

/// An entry gives its name a value, and leaves the values of all other names.
pub proof fn last_entry_counts(s: Seq<DbusEntry>, e: DbusEntry, name: Seq<char>)
    ensures
        entry_value(s.push(e), e.name@) == Some(e.value),
        name != e.name@ ==> entry_value(s.push(e), name) == entry_value(s, name),
        entry_value(Seq::empty(), name) is None,
{
    assert(s.push(e).drop_last() =~= s);
}

/// Every name of a dictionary is carried, with the number of its last entry, and no other name.
pub proof fn all_entries_are_carried(s: Seq<DbusEntry>, e: DbusEntry, name: Seq<char>)
    ensures
        carried(s.push(e)).dom().contains(e.name@) && carried(s.push(e))[e.name@] == e.number,
        name != e.name@ ==> (carried(s.push(e)).dom().contains(name) <==> carried(s).dom().contains(name)),
        name != e.name@ && carried(s).dom().contains(name) ==> carried(s.push(e))[name]
            == carried(s)[name],
        !carried(Seq::empty()).dom().contains(name),
{
    assert(s.push(e).drop_last() =~= s);
}

} // verus!
