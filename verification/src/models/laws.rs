//! What holds of the data that the backends share.
use vstd::prelude::*;

use crate::decimal;
use crate::float;
use crate::models::{
    joined, mode_text, output_facts, output_text, percent_text, same_mode, side_named, simple_view,
    size_text, DisplayMode, OutputView, Side,
};
use crate::tui::menu::side_word;

verus! {

/// The word for a side names that side, and no other word does.
pub proof fn side_words_are_read_back(side: Side)
    ensures
        side_named(side_word(side)) == Some(side),
        forall|word: Seq<char>| #[trigger] side_named(word) == Some(side) ==> word == side_word(side),
{
    reveal_strlit("left");
    reveal_strlit("right");
    reveal_strlit("above");
    reveal_strlit("below");
    assert("left"@[0] == 'l' && "right"@[0] == 'r' && "above"@[0] == 'a' && "below"@[0] == 'b');
}

/// A size is shown as its width and its height, from which both can be read again.
pub proof fn sizes_are_read_back(width: u32, height: u32)
    ensures
        crate::xrandr::size(size_text(width, height)) == Some((width, height)),
{
    crate::xrandr::laws::lemma_size(width, height);
}

/// A mode is shown by its size, and its rate with one place where it has one.
pub proof fn modes_are_shown_by_size_and_rate(m: DisplayMode)
    ensures
        m.refresh_hz is None ==> mode_text(m) == size_text(m.width, m.height),
        m.refresh_hz matches Some(hz) ==> mode_text(m) == size_text(m.width, m.height) + " @ "@
            + float::fixed(hz, 1) + "Hz"@,
{
}

/// Two modes are equal exactly if their sizes are, and their rates are equal numbers or both
/// missing; which of them comes first does not matter.
pub proof fn equal_modes_have_equal_parts(a: DisplayMode, b: DisplayMode)
    ensures
        same_mode(a, b) ==> a.width == b.width && a.height == b.height && (a.refresh_hz is Some
            <==> b.refresh_hz is Some),
        a.refresh_hz is None && b.refresh_hz is None ==> (same_mode(a, b) <==> a == b),
        a.refresh_hz is Some && b.refresh_hz is Some && a.width == b.width && a.height == b.height
            ==> same_mode(a, b) == float::same(a.refresh_hz->Some_0, b.refresh_hz->Some_0),
        same_mode(a, b) == same_mode(b, a),
{
}

/// How many of the facts of an output are known.
pub open spec fn known(o: OutputView) -> int {
    (if o.current_mode is Some {
        1int
    } else {
        0
    }) + (if o.color.brightness is Some {
        1int
    } else {
        0
    }) + (if o.color.gamma is Some {
        1int
    } else {
        0
    }) + (if o.color.temperature is Some {
        1int
    } else {
        0
    })
}

/// An output is listed with each fact that is known of it, under its own label, and with no other.
pub proof fn known_facts_are_listed(o: OutputView)
    ensures
        output_facts(o).len() == known(o),
        o.current_mode matches Some(m) ==> output_facts(o)[0] == "current mode: "@ + mode_text(m),
        o.color.brightness matches Some(b) ==> output_facts(o).contains(
            "brightness="@ + float::fixed(b, 2),
        ),
        o.color.gamma matches Some(g) ==> output_facts(o).contains("gamma="@ + float::fixed(g, 2)),
        o.color.temperature matches Some(t) ==> output_facts(o).last() == "temp="@
            + decimal::decimal(t as nat) + "K"@,
{
    let f = output_facts(o);
    let m: int = if o.current_mode is Some {
        1
    } else {
        0
    };
    let b: int = if o.color.brightness is Some {
        1
    } else {
        0
    };
    if let Some(x) = o.color.brightness {
        assert(f[m] == "brightness="@ + float::fixed(x, 2));
    }
    if let Some(x) = o.color.gamma {
        assert(f[m + b] == "gamma="@ + float::fixed(x, 2));
    }
}

/// An output is listed by its name, whether it is enabled, and what is known of it.
pub proof fn outputs_are_listed_by_name_and_state(o: OutputView)
    ensures
        ({
            let head = o.name + if o.enabled {
                " (enabled)"@
            } else {
                " (disabled)"@
            };
            &&& known(o) == 0 ==> output_text(o) == head
            &&& known(o) > 0 ==> output_text(o) == head + " - "@ + joined(output_facts(o), ", "@)
        }),
{
    reveal_strlit(" (enabled)");
    reveal_strlit(" (disabled)");
    reveal_strlit(" (");
    reveal_strlit(")");
    reveal_strlit("enabled");
    reveal_strlit("disabled");
    assert(o.name + " ("@ + "enabled"@ + ")"@ =~= o.name + " (enabled)"@);
    assert(o.name + " ("@ + "disabled"@ + ")"@ =~= o.name + " (disabled)"@);
    known_facts_are_listed(o);
}

/// A list is its texts with the separator between each two of them.
pub proof fn lists_have_separators_between(
    a: Seq<Seq<char>>,
    b: Seq<Seq<char>>,
    x: Seq<char>,
    sep: Seq<char>,
)
    ensures
        joined(seq![x], sep) == x,
        joined(Seq::<Seq<char>>::empty(), sep) == Seq::<char>::empty(),
        a.len() > 0 && b.len() > 0 ==> joined(a + b, sep) == joined(a, sep) + sep + joined(b, sep),
    decreases b.len(),
{
    if a.len() > 0 && b.len() > 0 {
        let s = a + b;
        let t = b.drop_last();
        assert(s.drop_last() =~= a + t);
        if t.len() == 0 {
            assert(a + t =~= a);
            assert(b[0] == b.last());
        } else {
            lists_have_separators_between(a, t, x, sep);
            assert(joined(s, sep) =~= joined(a, sep) + sep + joined(b, sep));
        }
    }
}

/// A brightness is shown in percent, without places.
pub proof fn brightness_is_shown_in_percent(x: float::Single)
    ensures
        percent_text(x).len() > 0 && percent_text(x).last() == '%',
        percent_text(x).drop_last() == float::fixed(
            float::share(float::clamped(x), float::single(float::HUNDRED)),
            0,
        ),
        percent_text(float::clamped(x)) == percent_text(x),
{
    reveal_strlit("%");
    float::clamping_is_stable(x);
    let d = float::fixed(float::share(float::clamped(x), float::single(float::HUNDRED)), 0);
    assert(percent_text(x).drop_last() =~= d);
}

/// A plain output is enabled, and nothing is known of it but its name and description.
pub proof fn plain_outputs_are_enabled(id: int, name: Seq<char>, description: Option<Seq<char>>)
    ensures
        ({
            let o = simple_view(id, name, description);
            &&& o.id == id && o.name == name && o.description == description && o.enabled && !o.primary
            &&& o.current_mode is None && o.available_modes.len() == 0 && known(o) == 0
            &&& o.scale is None && o.position is None && o.transform is None
            &&& o.available_scales is None
            &&& !o.color_caps.brightness && !o.color_caps.gamma && !o.color_caps.temperature
        }),
{
}

} // verus!
