//! Which backend serves a session.
use vstd::prelude::*;

use crate::text;
use crate::text_spec as spec;

pub mod laws;

verus! {

#[derive(Clone, Copy, Debug, PartialEq, Eq, Structural)]
pub enum BackendKind {
    X11,
    Wlroots,
    Gnome,
    Kde,
}

/// A backend as a user names it.
#[derive(Clone, Copy, Debug, PartialEq, Eq, Structural)]
pub enum BackendSelector {
    X11,
    Wlroots,
    Gnome,
    Kde,
}

pub open spec fn kind_of(s: BackendSelector) -> BackendKind {
    match s {
        BackendSelector::X11 => BackendKind::X11,
        BackendSelector::Wlroots => BackendKind::Wlroots,
        BackendSelector::Gnome => BackendKind::Gnome,
        BackendSelector::Kde => BackendKind::Kde,
    }
}

impl From<BackendSelector> for BackendKind {
    fn from(value: BackendSelector) -> (r: Self) {
        match value {
            BackendSelector::X11 => BackendKind::X11,
            BackendSelector::Wlroots => BackendKind::Wlroots,
            BackendSelector::Gnome => BackendKind::Gnome,
            BackendSelector::Kde => BackendKind::Kde,
        }
    }
}

impl vstd::std_specs::convert::FromSpecImpl<BackendSelector> for BackendKind {
    open spec fn obeys_from_spec() -> bool {
        true
    }

    open spec fn from_spec(value: BackendSelector) -> BackendKind {
        kind_of(value)
    }
}

/// Whether one of the parts of the text, between colons, is the word in any case.
pub open spec fn names(value: Seq<char>, word: Seq<char>) -> bool {
    exists|i: int|
        0 <= i < spec::split(value, ":"@).len() && spec::lower(
            #[trigger] spec::split(value, ":"@)[i],
        ) == spec::lower(word)
}

/// What the environment says of the desktop.
pub struct Desktop {
    /// `XDG_CURRENT_DESKTOP`
    pub current: String,
    /// `XDG_SESSION_DESKTOP`
    pub session: String,
    /// `DESKTOP_SESSION`
    pub desktop_session: String,
}

/// Whether any of the variables names the desktop.
pub open spec fn desktop_is(d: Desktop, word: Seq<char>) -> bool {
    names(d.current@, word) || names(d.session@, word) || names(d.desktop_session@, word)
}

/// Whether any of the variables contains the word as it stands.
pub open spec fn desktop_has(d: Desktop, word: Seq<char>) -> bool {
    spec::contains(d.current@, word) || spec::contains(d.session@, word) || spec::contains(
        d.desktop_session@,
        word,
    )
}

/// The backend for a session: on Wayland the one of the desktop, where it is known; `mutter` is
/// whether Mutter answers on the bus. A desktop is known by its name in any case, or by a longer
/// text that contains the name.
pub open spec fn detected(wayland: bool, mutter: bool, d: Desktop) -> BackendKind {
    if !wayland {
        BackendKind::X11
    } else if mutter || desktop_is(d, "GNOME"@) || desktop_is(d, "ubuntu"@) || desktop_has(
        d,
        "GNOME"@,
    ) {
        BackendKind::Gnome
    } else if desktop_is(d, "KDE"@) || desktop_has(d, "KDE"@) {
        BackendKind::Kde
    } else {
        BackendKind::Wlroots
    }
}

fn has_name(value: &str, word: &str) -> (r: bool)
    ensures
        r == names(value@, word@),
{
    let all = text::chars_of(value);
    proof {
        reveal_strlit(":");
    }
    let parts = text::split(all.as_slice(), ":");
    let ghost ps = spec::split(value@, ":"@);
    let mut i: usize = 0;
    while i < parts.len()
        invariant
            i <= parts@.len(),
            ps == spec::pieces(parts@),
            ps == spec::split(value@, ":"@),
            forall|j: int| 0 <= j < i ==> spec::lower(#[trigger] ps[j]) != spec::lower(word@),
        decreases parts.len() - i,
    {
        if text::is_ignoring_case(parts[i], word) {
            assert(spec::lower(ps[i as int]) == spec::lower(word@));
            return true;
        }
        i = i + 1;
    }
    false
}

impl Desktop {
    fn is(&self, word: &str) -> (r: bool)
        ensures
            r == desktop_is(*self, word@),
    {
        has_name(self.current.as_str(), word) || has_name(self.session.as_str(), word) || has_name(
            self.desktop_session.as_str(),
            word,
        )
    }

    fn has(&self, word: &str) -> (r: bool)
        ensures
            r == desktop_has(*self, word@),
    {
        let current = text::chars_of(self.current.as_str());
        let session = text::chars_of(self.session.as_str());
        let desktop_session = text::chars_of(self.desktop_session.as_str());
        text::contains(current.as_slice(), word) || text::contains(session.as_slice(), word)
            || text::contains(desktop_session.as_slice(), word)
    }
}

impl BackendKind {
    /// The backend for a session.
    pub fn auto_detect(wayland: bool, mutter: bool, desktop: &Desktop) -> (r: Self)
        ensures
            r == detected(wayland, mutter, *desktop),
    {
        if !wayland {
            return BackendKind::X11;
        }
        if mutter || desktop.is("GNOME") || desktop.is("ubuntu") || desktop.has("GNOME") {
            return BackendKind::Gnome;
        }
        if desktop.is("KDE") || desktop.has("KDE") {
            return BackendKind::Kde;
        }
        BackendKind::Wlroots
    }

    /// Whether a failure to list outputs says that the compositor is of another kind, so that
    /// Mutter is to be asked if it is there.
    pub fn may_be_gnome(self, message: &str) -> (r: bool)
        ensures
            r == (self == BackendKind::Wlroots && spec::contains(
                message@,
                "wlr-output-management-unstable-v1"@,
            )),
    {
        match self {
            BackendKind::Wlroots => {
                let s = text::chars_of(message);
                text::contains(s.as_slice(), "wlr-output-management-unstable-v1")
            },
            _ => false,
        }
    }
}

/// Without Wayland the backend is that of X11; with Mutter on the bus it is that of GNOME,
/// whatever the environment says; and on a Wayland desktop it is never that of X11. A desktop
/// that contains `GNOME` is one of GNOME, and one that contains `KDE`, where nothing points to
/// GNOME, is one of KDE.
pub proof fn detection_goes_by_the_session(mutter: bool, d: Desktop)
    ensures
        detected(false, mutter, d) == BackendKind::X11,
        detected(true, true, d) == BackendKind::Gnome,
        detected(true, mutter, d) != BackendKind::X11,
        desktop_has(d, "GNOME"@) ==> detected(true, mutter, d) == BackendKind::Gnome,
        desktop_has(d, "KDE"@) ==> detected(true, mutter, d) == BackendKind::Kde || detected(
            true,
            mutter,
            d,
        ) == BackendKind::Gnome,
        desktop_has(d, "KDE"@) && !mutter && !desktop_is(d, "GNOME"@) && !desktop_is(d, "ubuntu"@)
            && !desktop_has(d, "GNOME"@) ==> detected(true, mutter, d) == BackendKind::Kde,
{
}

} // verus!
