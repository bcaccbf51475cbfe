//! What holds of every choice of a backend.
use vstd::prelude::*;

use crate::backend::{desktop_is, detected, kind_of, names, BackendSelector, Desktop};
use crate::text_spec as spec;

verus! {

/// The backend that is asked for is the one that is used.
pub proof fn backends_are_used_as_asked()
    ensures
        kind_of(BackendSelector::X11) is X11,
        kind_of(BackendSelector::Wlroots) is Wlroots,
        kind_of(BackendSelector::Gnome) is Gnome,
        kind_of(BackendSelector::Kde) is Kde,
{
}

/// A desktop is named by any part of a variable between colons, in capital or small letters.
pub proof fn parts_name_desktops(a: Seq<char>, b: Seq<char>, word: Seq<char>)
    requires
        !a.contains(':'),
    ensures
        spec::lower(a) == spec::lower(word) ==> names(a, word) && names(a + seq![':'] + b, word),
        spec::lower(a) != spec::lower(word) ==> !names(a, word),
        names(b, word) ==> names(a + seq![':'] + b, word),
        names(a + seq![':'] + b, word) ==> names(a, word) || names(b, word),
        names(b, spec::lower(word)) == names(b, word),
{
    reveal_strlit(":");
    assert(":"@ =~= seq![':']);
    let c = ":"@;
    let s = a + seq![':'] + b;
    spec::lemma_split_at(a, ':', b);
    spec::lemma_no_split(a, ':');
    assert(spec::split(a, c) == seq![a]);
    assert(spec::split(s, c) == seq![a] + spec::split(b, c));
    assert(spec::split(a, c)[0] == a);
    assert(spec::split(s, c)[0] == a);
    assert(spec::lower(spec::lower(word)) =~= spec::lower(word));
    if names(b, word) {
        let i = choose|i: int|
            0 <= i < spec::split(b, c).len() && spec::lower(#[trigger] spec::split(b, c)[i]) == spec::lower(
                word,
            );
        assert(spec::split(s, c)[i + 1] == spec::split(b, c)[i]);
    }
    if names(s, word) {
        let i = choose|i: int|
            0 <= i < spec::split(s, c).len() && spec::lower(#[trigger] spec::split(s, c)[i]) == spec::lower(
                word,
            );
        if i > 0 {
            assert(spec::split(s, c)[i] == spec::split(b, c)[i - 1]);
        }
    }
}

/// Any of the three variables tells the desktop: one that is named GNOME or Ubuntu is one of GNOME,
/// one that is named KDE is one of KDE where nothing points to GNOME, and any other is one of
/// wlroots.
pub proof fn desktops_are_known_by_name(mutter: bool, d: Desktop)
    ensures
        names(d.current@, "GNOME"@) || names(d.session@, "GNOME"@) || names(d.desktop_session@, "GNOME"@)
            ==> detected(true, mutter, d) is Gnome,
        names(d.current@, "ubuntu"@) || names(d.session@, "ubuntu"@) || names(
            d.desktop_session@,
            "ubuntu"@,
        ) ==> detected(true, mutter, d) is Gnome,
        (names(d.current@, "KDE"@) || names(d.session@, "KDE"@) || names(d.desktop_session@, "KDE"@))
            && !(detected(true, mutter, d) is Gnome) ==> detected(true, mutter, d) is Kde,
        detected(true, false, d) is Gnome ==> desktop_is(d, "GNOME"@) || desktop_is(d, "ubuntu"@)
            || spec::contains(d.current@, "GNOME"@) || spec::contains(d.session@, "GNOME"@)
            || spec::contains(d.desktop_session@, "GNOME"@),
        detected(true, mutter, d) is Kde ==> desktop_is(d, "KDE"@) || spec::contains(d.current@, "KDE"@)
            || spec::contains(d.session@, "KDE"@) || spec::contains(d.desktop_session@, "KDE"@),
{
}

/// A desktop is also known by a longer text in any of the three variables that contains its
/// name; GNOME comes before KDE.
pub proof fn desktops_are_known_by_longer_names(d: Desktop)
    ensures
        spec::contains(d.current@, "GNOME"@) || spec::contains(d.session@, "GNOME"@) || spec::contains(
            d.desktop_session@,
            "GNOME"@,
        ) ==> detected(true, false, d) is Gnome,
        (spec::contains(d.current@, "KDE"@) || spec::contains(d.session@, "KDE"@) || spec::contains(
            d.desktop_session@,
            "KDE"@,
        )) && !(detected(true, false, d) is Gnome) ==> detected(true, false, d) is Kde,
{
}


} // verus!
