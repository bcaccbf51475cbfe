//! What holds of every change of a layout.
use vstd::prelude::*;

use crate::float;
use crate::float::Double;
use crate::gnome::layout::{
    area, common_pairs, enabled_set, entry_scales, entry_size, largest_pair, listed_scales,
    logical_size, mirror_set, mirrors, mode_set, mode_to_enable, others, pairs_with, position_set,
    relative_set, removed, right_end, saturated, scale_set, transform_set, LayoutFault,
};
use crate::gnome::monitors::{
    at_connector, entry_mode, has_scale, is_current, is_preferred, mode_fits, mutter_transform,
    positive, shared, shows, shows_on, EntryView, LogicalView, ModeView, MonitorView,
};
use crate::models::{DisplayMode, Side};
use crate::search;
use crate::search::first;
use crate::transforms;

verus! {

/// A rectangle of the desktop.
pub struct Rectangle {
    pub x: int,
    pub y: int,
    pub width: int,
    pub height: int,
}

/// The rectangle of a logical monitor, by its position and the mode of its first monitor.
pub open spec fn rectangle(monitors: Seq<MonitorView>, l: LogicalView) -> Rectangle {
    let (width, height) = logical_size(monitors, l);
    Rectangle { x: l.x as int, y: l.y as int, width: width as int, height: height as int }
}

/// Whether two rectangles have a point in common that is not on an edge.
pub open spec fn overlap(a: Rectangle, b: Rectangle) -> bool {
    &&& a.x < b.x + b.width && b.x < a.x + a.width
    &&& a.y < b.y + b.height && b.y < a.y + a.height
}

/// Whether the first rectangle is on the side of the second: their edges there meet, and they
/// start at the same height or width.
pub open spec fn is_beside(side: Side, a: Rectangle, b: Rectangle) -> bool {
    match side {
        Side::Left => a.x + a.width == b.x && a.y == b.y,
        Side::Right => b.x + b.width == a.x && a.y == b.y,
        Side::Above => a.y + a.height == b.y && a.x == b.x,
        Side::Below => b.y + b.height == a.y && a.x == b.x,
    }
}

/// Whether the place on the side of a rectangle is within the range of positions.
pub open spec fn has_room(side: Side, a: Rectangle, b: Rectangle) -> bool {
    match side {
        Side::Left => i32::MIN <= b.x - a.width <= i32::MAX,
        Side::Right => i32::MIN <= b.x + b.width <= i32::MAX,
        Side::Above => i32::MIN <= b.y - a.height <= i32::MAX,
        Side::Below => i32::MIN <= b.y + b.height <= i32::MAX,
    }
}

/// A logical monitor is as wide and high as the mode of its first monitor.
pub proof fn sizes_are_those_of_the_modes(
    monitors: Seq<MonitorView>,
    l: LogicalView,
    m: ModeView,
)
    requires
        l.monitors.len() > 0,
        entry_mode(monitors, l.monitors[0]) == Some(m),
        m.mode.width <= i32::MAX,
        m.mode.height <= i32::MAX,
    ensures
        logical_size(monitors, l) == (m.mode.width as i32, m.mode.height as i32),
{
}

/// An output that is placed on a side of another one touches it along that side and does not
/// overlap it, as long as there is room; the other output stays where it is.
pub proof fn placed_outputs_touch(
    monitors: Seq<MonitorView>,
    logicals: Seq<LogicalView>,
    output: Seq<char>,
    side: Side,
    relative_to: Seq<char>,
    i: int,
    k: int,
)
    requires
        first(logicals, shows_on(output)) == Some(i),
        first(logicals, shows_on(relative_to)) == Some(k),
        i != k,
        has_room(
            side,
            rectangle(monitors, logicals[i]),
            rectangle(monitors, logicals[k]),
        ),
    ensures
        relative_set(monitors, logicals, output, side, relative_to) matches Ok(ls) && {
            let a = rectangle(monitors, ls[i]);
            let b = rectangle(monitors, ls[k]);
            &&& is_beside(side, a, b)
            &&& !overlap(a, b)
            &&& ls[k] == logicals[k]
            &&& a.width == rectangle(monitors, logicals[i]).width
            &&& a.height == rectangle(monitors, logicals[i]).height
            &&& ls[i].scale == logicals[i].scale && ls[i].transform == logicals[i].transform
            &&& ls[i].primary == logicals[i].primary && ls[i].monitors == logicals[i].monitors
        },
{
    search::lemma_first_from(logicals, shows_on(output), 0);
    search::lemma_first_from(logicals, shows_on(relative_to), 0);
    let ls = relative_set(monitors, logicals, output, side, relative_to)->Ok_0;
    assert(logical_size(monitors, ls[i]) == logical_size(monitors, logicals[i]));
}

/// Where there is no room beside an output, the position is the last one that there is.
pub proof fn positions_stay_in_range(
    monitors: Seq<MonitorView>,
    logicals: Seq<LogicalView>,
    output: Seq<char>,
    side: Side,
    relative_to: Seq<char>,
    i: int,
    k: int,
)
    requires
        first(logicals, shows_on(output)) == Some(i),
        first(logicals, shows_on(relative_to)) == Some(k),
        !has_room(
            side,
            rectangle(monitors, logicals[i]),
            rectangle(monitors, logicals[k]),
        ),
    ensures
        relative_set(monitors, logicals, output, side, relative_to) matches Ok(ls) && match side {
            Side::Left | Side::Right => (ls[i].x == i32::MIN || ls[i].x == i32::MAX) && ls[i].y
                == logicals[k].y,
            Side::Above | Side::Below => (ls[i].y == i32::MIN || ls[i].y == i32::MAX) && ls[i].x
                == logicals[k].x,
        },
{
    search::lemma_first_from(logicals, shows_on(output), 0);
}

/// An output can be moved exactly while it is shown, and placed beside another one exactly while
/// both are.
pub proof fn shown_outputs_can_be_moved(
    monitors: Seq<MonitorView>,
    logicals: Seq<LogicalView>,
    output: Seq<char>,
    x: i32,
    y: i32,
    side: Side,
    relative_to: Seq<char>,
)
    ensures
        ({
            let here = first(logicals, shows_on(output)) is Some;
            let there = first(logicals, shows_on(relative_to)) is Some;
            &&& position_set(logicals, output, x, y) is Ok <==> here
            &&& !here ==> position_set(logicals, output, x, y) == Err::<Seq<LogicalView>, LayoutFault>(
                LayoutFault::Disabled,
            )
            &&& relative_set(monitors, logicals, output, side, relative_to) is Ok <==> here && there
            &&& !here ==> relative_set(monitors, logicals, output, side, relative_to) == Err::<
                Seq<LogicalView>,
                LayoutFault,
            >(LayoutFault::Disabled)
            &&& here && !there ==> relative_set(monitors, logicals, output, side, relative_to) == Err::<
                Seq<LogicalView>,
                LayoutFault,
            >(LayoutFault::TargetDisabled)
        }),
{
}

/// An output that is moved is where it was to be, and otherwise as it was.
pub proof fn moved_outputs_are_there(
    logicals: Seq<LogicalView>,
    output: Seq<char>,
    x: i32,
    y: i32,
    i: int,
)
    requires
        first(logicals, shows_on(output)) == Some(i),
    ensures
        position_set(logicals, output, x, y) matches Ok(ls) && {
            &&& ls.len() == logicals.len()
            &&& ls[i].x == x && ls[i].y == y
            &&& ls[i].scale == logicals[i].scale && ls[i].transform == logicals[i].transform
            &&& ls[i].primary == logicals[i].primary && ls[i].monitors == logicals[i].monitors
            &&& ls[i].props == logicals[i].props
            &&& forall|k: int| 0 <= k < ls.len() && k != i ==> #[trigger] ls[k] == logicals[k]
        },
{
    search::lemma_first_from(logicals, shows_on(output), 0);
}

/// A turned output has the number of the transform, whose name was given, and is otherwise as it
/// was; only the names of the eight transforms, and `0`, are known.
pub proof fn turned_outputs_have_the_transform(
    logicals: Seq<LogicalView>,
    output: Seq<char>,
    n: u32,
    name: Seq<char>,
    i: int,
)
    requires
        n < 8,
        first(logicals, shows_on(output)) == Some(i),
    ensures
        transform_set(logicals, output, transforms::numbered(n)) matches Ok(ls) && {
            &&& ls.len() == logicals.len()
            &&& ls[i].transform == n
            &&& ls[i].x == logicals[i].x && ls[i].y == logicals[i].y
            &&& ls[i].scale == logicals[i].scale && ls[i].primary == logicals[i].primary
            &&& ls[i].monitors == logicals[i].monitors
        },
        !transforms::is_name(name) && name != "0"@ ==> transform_set(logicals, output, name) == Err::<
            Seq<LogicalView>,
            LayoutFault,
        >(LayoutFault::UnsupportedTransform),
{
    search::lemma_first_from(logicals, shows_on(output), 0);
    crate::gnome::monitors::transform_numbers_are_read_back(n, name);
    if let Some(k) = mutter_transform(name) {
        crate::gnome::monitors::transform_numbers_are_read_back(k, name);
    }
}

/// The mode of an output is changed to the first of its modes that is the one asked for; its
/// other settings and the modes of the outputs beside it stay.
pub proof fn changed_modes_are_the_ones_asked_for(
    monitors: Seq<MonitorView>,
    logicals: Seq<LogicalView>,
    output: Seq<char>,
    mode: DisplayMode,
    m: int,
    c: int,
    i: int,
)
    requires
        0 <= m < monitors.len(),
        monitors[m].spec.connector == output,
        forall|l: int| 0 <= l < m ==> (#[trigger] monitors[l]).spec.connector != output,
        0 <= c < monitors[m].modes.len(),
        mode_fits(mode, monitors[m].modes[c].mode),
        forall|l: int| 0 <= l < c ==> !mode_fits(mode, (#[trigger] monitors[m].modes[l]).mode),
        first(logicals, shows_on(output)) == Some(i),
    ensures
        mode_set(monitors, logicals, output, mode) matches Ok(ls) && {
            &&& ls.len() == logicals.len()
            &&& ls[i].monitors.len() == logicals[i].monitors.len()
            &&& forall|l: int|
                0 <= l < ls[i].monitors.len() ==> {
                    let e = #[trigger] ls[i].monitors[l];
                    let was = logicals[i].monitors[l];
                    &&& e.spec == was.spec && e.props == was.props
                    &&& e.spec.connector == output ==> e.mode_id == monitors[m].modes[c].id
                    &&& e.spec.connector != output ==> e.mode_id == was.mode_id
                }
            &&& ls[i].x == logicals[i].x && ls[i].y == logicals[i].y
            &&& ls[i].scale == logicals[i].scale && ls[i].transform == logicals[i].transform
            &&& ls[i].primary == logicals[i].primary
        },
{
    search::lemma_first_from(logicals, shows_on(output), 0);
    let p = at_connector(output);
    search::lemma_first_from(monitors, p, 0);
    assert(p(monitors[m]));
    if first(monitors, p)->Some_0 < m {
        assert(p(monitors[first(monitors, p)->Some_0]));
    }
    assert(first(monitors, p) == Some(m));
    let q = crate::gnome::layout::fitting(mode);
    let modes = monitors[m].modes;
    search::lemma_first_from(modes, q, 0);
    assert(q(modes[c]));
    if first(modes, q)->Some_0 < c {
        assert(q(modes[first(modes, q)->Some_0]));
    }
    assert(first(modes, q) == Some(c));
}

/// A mode that an output does not offer is not set, and neither is one on an output that is not
/// shown or that there is not.
pub proof fn other_modes_are_not_set(
    monitors: Seq<MonitorView>,
    logicals: Seq<LogicalView>,
    output: Seq<char>,
    mode: DisplayMode,
)
    ensures
        first(monitors, at_connector(output)) is None ==> mode_set(monitors, logicals, output, mode)
            == Err::<Seq<LogicalView>, LayoutFault>(LayoutFault::OutputNotFound),
        first(monitors, at_connector(output)) matches Some(m) && (forall|l: int|
            0 <= l < monitors[m].modes.len() ==> !mode_fits(
                mode,
                (#[trigger] monitors[m].modes[l]).mode,
            )) ==> mode_set(monitors, logicals, output, mode) == Err::<Seq<LogicalView>, LayoutFault>(
            LayoutFault::ModeUnavailable,
        ),
        first(logicals, shows_on(output)) is None ==> mode_set(monitors, logicals, output, mode) is Err,
{
    if let Some(m) = first(monitors, at_connector(output)) {
        search::lemma_first_from(
            monitors[m].modes,
            crate::gnome::layout::fitting(mode),
            0,
        );
    }
}

/// A scale is set exactly if the output is shown, and no scales are listed for it or one of them
/// counts as the same; then the scale is the one asked for and all else is as it was.
pub proof fn listed_scales_are_set(
    monitors: Seq<MonitorView>,
    logicals: Seq<LogicalView>,
    output: Seq<char>,
    scale: Double,
)
    ensures
        first(logicals, shows_on(output)) is None ==> scale_set(monitors, logicals, output, scale)
            == Err::<Seq<LogicalView>, LayoutFault>(LayoutFault::Disabled),
        first(logicals, shows_on(output)) matches Some(i) ==> {
            let listed = entry_scales(monitors, logicals[i].monitors);
            let fine = listed matches Some(s) ==> s.len() == 0 || exists|k: int|
                0 <= k < s.len() && crate::gnome::monitors::same_scale(#[trigger] s[k], scale);
            &&& fine <==> scale_set(monitors, logicals, output, scale) is Ok
            &&& scale_set(monitors, logicals, output, scale) matches Ok(ls) ==> {
                &&& ls.len() == logicals.len()
                &&& ls[i].scale == scale
                &&& ls[i].x == logicals[i].x && ls[i].y == logicals[i].y
                &&& ls[i].transform == logicals[i].transform && ls[i].primary == logicals[i].primary
                &&& ls[i].monitors == logicals[i].monitors
            }
            &&& scale_set(monitors, logicals, output, scale) matches Err(e) ==> e
                == (LayoutFault::UnsupportedScale {
                width: entry_size(monitors, logicals[i].monitors).0,
                height: entry_size(monitors, logicals[i].monitors).1,
                scales: listed->Some_0,
            })
        },
{
    search::lemma_first_from(logicals, shows_on(output), 0);
}

/// The scales that are listed for a single monitor are those of its mode, or the preferred one
/// where the mode lists none and it is positive.
pub proof fn scales_are_listed_by_the_mode(
    monitors: Seq<MonitorView>,
    e: EntryView,
    m: ModeView,
)
    requires
        entry_mode(monitors, e) == Some(m),
    ensures
        m.supported_scales.len() > 0 ==> entry_scales(monitors, seq![e]) == Some(m.supported_scales),
        m.supported_scales.len() == 0 && float::less_double(
            float::double(float::ZERO_DOUBLE),
            m.preferred_scale,
        ) ==> entry_scales(monitors, seq![e]) == Some(seq![m.preferred_scale]),
        entry_size(monitors, seq![e]) == (m.mode.width, m.mode.height),
{
    let one = seq![e];
    assert(one.drop_last() =~= seq![]);
    assert(entry_scales(monitors, one.drop_last()) is None);
    let p = seq![m.preferred_scale];
    assert(p.drop_last() =~= seq![]);
    assert(positive(p.drop_last()) =~= seq![]);
    if float::less_double(float::double(float::ZERO_DOUBLE), m.preferred_scale) {
        assert(positive(p) =~= p);
    }
}

/// A scale for several monitors is one that each of them lists.
pub proof fn scales_are_shared(
    monitors: Seq<MonitorView>,
    entries: Seq<EntryView>,
    e: EntryView,
    m: ModeView,
    s: Seq<Double>,
    x: Double,
)
    requires
        entry_scales(monitors, entries) == Some(s),
        entry_mode(monitors, e) == Some(m),
    ensures
        entry_scales(monitors, entries.push(e)) matches Some(t) && (t.contains(x) <==> s.contains(x)
            && has_scale(listed_scales(m), x)),
{
    assert(entries.push(e).drop_last() == entries);
    lemma_shared(s, listed_scales(m), x);
}

/// The scales that two lists share are those of the first that the second has too.
pub proof fn lemma_shared(a: Seq<Double>, b: Seq<Double>, x: Double)
    ensures
        shared(a, b).contains(x) <==> a.contains(x) && has_scale(b, x),
    decreases a.len(),
{
    if a.len() > 0 {
        let t = a.drop_last();
        lemma_shared(t, b, x);
        assert(a =~= t.push(a.last()));
        assert(a.contains(x) <==> t.contains(x) || x == a.last()) by {
            if t.contains(x) {
                let i = choose|i: int| 0 <= i < t.len() && t[i] == x;
                assert(a[i] == x);
            }
            if x == a.last() {
                assert(a[a.len() - 1] == x);
            }
            if a.contains(x) && x != a.last() {
                let i = choose|i: int| 0 <= i < a.len() && a[i] == x;
                assert(t[i] == x);
            }
        }
        let r = shared(t, b);
        let p = r.push(a.last());
        assert(p.contains(x) <==> r.contains(x) || x == a.last()) by {
            if r.contains(x) {
                let i = choose|i: int| 0 <= i < r.len() && r[i] == x;
                assert(p[i] == x);
            }
            if x == a.last() {
                assert(p[p.len() - 1] == x);
            }
            if p.contains(x) && x != a.last() {
                let i = choose|i: int| 0 <= i < p.len() && p[i] == x;
                assert(r[i] == x);
            }
        }
    }
}

/// The scales that are positive are those of the list that are greater than zero, in their order.
pub proof fn lemma_positive(s: Seq<Double>, k: int)
    ensures
        0 <= k < positive(s).len() ==> s.contains(positive(s)[k]) && float::less_double(
            float::double(float::ZERO_DOUBLE),
            positive(s)[k],
        ),
        0 <= k < s.len() && float::less_double(float::double(float::ZERO_DOUBLE), s[k])
            ==> positive(s).contains(s[k]),
    decreases s.len(),
{
    if s.len() > 0 {
        let t = s.drop_last();
        let r = positive(t);
        lemma_positive(t, k);
        if 0 <= k < positive(s).len() {
            if k < r.len() {
                let i = choose|i: int| 0 <= i < t.len() && t[i] == r[k];
                assert(s[i] == positive(s)[k]);
            } else {
                assert(s[s.len() - 1] == positive(s)[k]);
            }
        }
        if 0 <= k < s.len() && float::less_double(float::double(float::ZERO_DOUBLE), s[k]) {
            if k < t.len() {
                assert(t[k] == s[k]);
                let i = choose|i: int| 0 <= i < r.len() && r[i] == t[k];
                assert(positive(s)[i] == s[k]);
            } else {
                assert(positive(s)[r.len() as int] == s[k]);
            }
        }
    }
}

/// An output is enabled in its preferred mode, where there is one, else in its current one, else
/// in its first; and not at all where it has no modes.
pub proof fn outputs_are_enabled_in_their_preferred_mode(modes: Seq<ModeView>, c: int)
    requires
        0 <= c < modes.len(),
    ensures
        modes[c].preferred && (forall|l: int| 0 <= l < c ==> !(#[trigger] modes[l]).preferred)
            ==> mode_to_enable(modes) == Some(modes[c]),
        modes[c].current && (forall|l: int| 0 <= l < c ==> !(#[trigger] modes[l]).current) && (forall|
            l: int,
        |
            0 <= l < modes.len() ==> !(#[trigger] modes[l]).preferred) ==> mode_to_enable(modes)
            == Some(modes[c]),
        (forall|l: int|
            0 <= l < modes.len() ==> !(#[trigger] modes[l]).preferred && !modes[l].current)
            ==> mode_to_enable(modes) == Some(modes[0]),
        mode_to_enable(Seq::<ModeView>::empty()) is None,
{
    let p = is_preferred();
    let q = is_current();
    search::lemma_first_from(modes, p, 0);
    search::lemma_first_from(modes, q, 0);
    if modes[c].preferred && (forall|l: int| 0 <= l < c ==> !(#[trigger] modes[l]).preferred) {
        assert(p(modes[c]));
        let k = first(modes, p)->Some_0;
        if k < c {
            assert(p(modes[k]));
        }
    }
    if forall|l: int| 0 <= l < modes.len() ==> !(#[trigger] modes[l]).preferred {
        if let Some(k) = first(modes, p) {
            assert(p(modes[k]));
        }
    }
    if modes[c].current && (forall|l: int| 0 <= l < c ==> !(#[trigger] modes[l]).current) {
        assert(q(modes[c]));
        let k = first(modes, q)->Some_0;
        if k < c {
            assert(q(modes[k]));
        }
    }
    if forall|l: int| 0 <= l < modes.len() ==> !(#[trigger] modes[l]).current {
        if let Some(k) = first(modes, q) {
            assert(q(modes[k]));
        }
    }
}

/// The desktop ends on the right where the last of its logical monitors ends, and not left of the
/// origin.
pub proof fn desktop_ends_with_a_monitor(monitors: Seq<MonitorView>, logicals: Seq<LogicalView>)
    ensures
        right_end(monitors, logicals) >= 0,
        right_end(monitors, logicals) == 0 || exists|k: int|
            0 <= k < logicals.len() && right_end(monitors, logicals) == saturated(
                (#[trigger] logicals[k]).x + logical_size(monitors, logicals[k]).0,
            ),
    decreases logicals.len(),
{
    if logicals.len() > 0 {
        let t = logicals.drop_last();
        desktop_ends_with_a_monitor(monitors, t);
        if right_end(monitors, logicals) == right_end(monitors, t) {
            if right_end(monitors, t) != 0 {
                let k = choose|k: int|
                    0 <= k < t.len() && right_end(monitors, t) == saturated(
                        (#[trigger] t[k]).x + logical_size(monitors, t[k]).0,
                    );
                assert(logicals[k] == t[k]);
            }
        } else {
            assert(logicals[logicals.len() - 1] == logicals.last());
        }
    }
}

/// An output that is enabled gets a plain place: at the top, unscaled and not turned, in the mode
/// that it is enabled in, primary exactly if it is alone.
pub proof fn enabled_outputs_get_a_plain_place(
    monitors: Seq<MonitorView>,
    logicals: Seq<LogicalView>,
    output: Seq<char>,
    m: int,
)
    requires
        first(monitors, at_connector(output)) == Some(m),
    ensures
        ({
            let shown = first(logicals, shows_on(output)) is Some;
            &&& shown ==> enabled_set(monitors, logicals, output, true) == Ok::<
                Option<Seq<LogicalView>>,
                LayoutFault,
            >(None)
            &&& !shown ==> enabled_set(monitors, logicals, output, false) == Ok::<
                Option<Seq<LogicalView>>,
                LayoutFault,
            >(None)
            &&& !shown && monitors[m].modes.len() == 0 ==> enabled_set(
                monitors,
                logicals,
                output,
                true,
            ) == Err::<Option<Seq<LogicalView>>, LayoutFault>(LayoutFault::NoModes)
            &&& !shown && monitors[m].modes.len() > 0 ==> (enabled_set(
                monitors,
                logicals,
                output,
                true,
            ) matches Ok(Some(ls)) && {
                let l = ls.last();
                &&& ls.len() == logicals.len() + 1
                &&& forall|k: int| 0 <= k < logicals.len() ==> #[trigger] ls[k] == logicals[k]
                &&& l.y == 0 && l.x == right_end(monitors, logicals)
                &&& l.scale.bits == float::ONE_DOUBLE && l.transform == 0
                &&& l.primary == (logicals.len() == 0)
                &&& l.monitors.len() == 1
                &&& l.monitors[0].spec == monitors[m].spec
                &&& Some(l.monitors[0].mode_id) == match mode_to_enable(monitors[m].modes) {
                    Some(mode) => Some(mode.id),
                    None => None,
                }
            })
            &&& shown ==> enabled_set(monitors, logicals, output, false) is Ok
        }),
        first(monitors, at_connector(output)) is None ==> enabled_set(monitors, logicals, output, true) is Err,
{
}

/// What is left of a list of entries without two connectors: the entries at other connectors, all
/// of them, as they were.
pub proof fn others_are_left(entries: Seq<EntryView>, a: Seq<char>, b: Seq<char>, e: EntryView)
    ensures
        others(entries, a, b).contains(e) <==> entries.contains(e) && e.spec.connector != a
            && e.spec.connector != b,
    decreases entries.len(),
{
    if entries.len() > 0 {
        let t = entries.drop_last();
        let r = others(t, a, b);
        others_are_left(t, a, b, e);
        assert(entries.contains(e) <==> t.contains(e) || e == entries.last()) by {
            if t.contains(e) {
                let i = choose|i: int| 0 <= i < t.len() && t[i] == e;
                assert(entries[i] == e);
            }
            if e == entries.last() {
                assert(entries[entries.len() - 1] == e);
            }
            if entries.contains(e) && e != entries.last() {
                let i = choose|i: int| 0 <= i < entries.len() && entries[i] == e;
                assert(t[i] == e);
            }
        }
        let p = r.push(entries.last());
        assert(p.contains(e) <==> r.contains(e) || e == entries.last()) by {
            if r.contains(e) {
                let i = choose|i: int| 0 <= i < r.len() && r[i] == e;
                assert(p[i] == e);
            }
            if e == entries.last() {
                assert(p[p.len() - 1] == e);
            }
            if p.contains(e) && e != entries.last() {
                let i = choose|i: int| 0 <= i < p.len() && p[i] == e;
                assert(r[i] == e);
            }
        }
    }
}

/// Disabling or mirroring outputs leaves the logical monitors that show neither of them, all of
/// them and as they were.
pub proof fn other_logical_monitors_stay(
    monitors: Seq<MonitorView>,
    logicals: Seq<LogicalView>,
    a: Seq<char>,
    b: Seq<char>,
    k: int,
)
    requires
        0 <= k < logicals.len(),
        logicals[k].monitors.len() > 0,
        !shows(logicals[k], a),
        !shows(logicals[k], b),
    ensures
        removed(logicals, a, b).contains(logicals[k]),
        mirror_set(monitors, logicals, a, b) matches Ok(ls) ==> ls.contains(logicals[k]),
        enabled_set(monitors, logicals, a, false) matches Ok(Some(ls)) ==> ls.contains(logicals[k]),
{
    lemma_left(logicals, a, b, k);
    lemma_left(logicals, a, a, k);
    if let Ok(ls) = mirror_set(monitors, logicals, a, b) {
        let r = removed(logicals, a, b);
        let i = choose|i: int| 0 <= i < r.len() && r[i] == logicals[k];
        assert(ls[i] == logicals[k]);
    }
}

proof fn lemma_left(logicals: Seq<LogicalView>, a: Seq<char>, b: Seq<char>, k: int)
    requires
        0 <= k < logicals.len(),
        logicals[k].monitors.len() > 0,
        !shows(logicals[k], a),
        !shows(logicals[k], b),
    ensures
        removed(logicals, a, b).contains(logicals[k]),
    decreases logicals.len(),
{
    let t = logicals.drop_last();
    if k < t.len() {
        assert(t[k] == logicals[k]);
        lemma_left(t, a, b, k);
        let r = removed(t, a, b);
        let i = choose|i: int| 0 <= i < r.len() && r[i] == t[k];
        assert(removed(logicals, a, b)[i] == logicals[k]);
    } else {
        let l = logicals.last();
        crate::gnome::layout::lemma_all_others(l.monitors, a, b);
        let r = removed(logicals, a, b);
        assert(r[r.len() - 1] == l);
    }
}

proof fn lemma_pair(m: ModeView, modes: Seq<ModeView>, k: int)
    ensures
        0 <= k < modes.len() && mirrors(m.mode, modes[k].mode) ==> pairs_with(m, modes).contains(
            (m, modes[k]),
        ),
        0 <= k < pairs_with(m, modes).len() ==> {
            let p = pairs_with(m, modes)[k];
            &&& p.0 == m && modes.contains(p.1) && mirrors(m.mode, p.1.mode)
        },
    decreases modes.len(),
{
    if modes.len() > 0 {
        let t = modes.drop_last();
        let r = pairs_with(m, t);
        lemma_pair(m, t, k);
        let all = pairs_with(m, modes);
        if 0 <= k < modes.len() && mirrors(m.mode, modes[k].mode) {
            if k < t.len() {
                assert(t[k] == modes[k]);
                let i = choose|i: int| 0 <= i < r.len() && r[i] == (m, t[k]);
                assert(all[i] == (m, modes[k]));
            } else {
                assert(all[all.len() - 1] == (m, modes[k]));
            }
        }
        if 0 <= k < all.len() {
            if k < r.len() {
                let i = choose|i: int| 0 <= i < t.len() && t[i] == r[k].1;
                assert(modes[i] == all[k].1);
            } else {
                assert(modes[modes.len() - 1] == all[k].1);
            }
        }
    }
}

/// The pairs of modes that two monitors have in common are those of the same size and, give or
/// take a half, the same rate: all of them, and no others.
pub proof fn common_modes_show_the_same(a: Seq<ModeView>, b: Seq<ModeView>, i: int, j: int, k: int)
    ensures
        0 <= i < a.len() && 0 <= j < b.len() && a[i].mode.width == b[j].mode.width
            && a[i].mode.height == b[j].mode.height && (match (
            a[i].mode.refresh_hz,
            b[j].mode.refresh_hz,
        ) {
            (Some(x), Some(y)) => float::closer(x, y, float::single(float::HALF)),
            (None, None) => true,
            _ => false,
        }) ==> common_pairs(a, b).contains((a[i], b[j])),
        0 <= k < common_pairs(a, b).len() ==> {
            let p = common_pairs(a, b)[k];
            &&& a.contains(p.0) && b.contains(p.1)
            &&& p.0.mode.width == p.1.mode.width && p.0.mode.height == p.1.mode.height
            &&& p.0.mode.refresh_hz is Some == p.1.mode.refresh_hz is Some
            &&& p.0.mode.refresh_hz is Some ==> float::closer(
                p.0.mode.refresh_hz->Some_0,
                p.1.mode.refresh_hz->Some_0,
                float::single(float::HALF),
            )
        },
    decreases a.len(),
{
    if a.len() > 0 {
        let t = a.drop_last();
        let r = common_pairs(t, b);
        let q = pairs_with(a.last(), b);
        let all = common_pairs(a, b);
        common_modes_show_the_same(t, b, i, j, k);
        lemma_pair(a.last(), b, j);
        lemma_pair(a.last(), b, k - r.len());
        if 0 <= i < a.len() && 0 <= j < b.len() && mirrors(a[i].mode, b[j].mode) {
            if i < t.len() {
                assert(t[i] == a[i]);
                let n = choose|n: int| 0 <= n < r.len() && r[n] == (t[i], b[j]);
                assert(all[n] == (a[i], b[j]));
            } else {
                let n = choose|n: int| 0 <= n < q.len() && q[n] == (a.last(), b[j]);
                assert(all[r.len() + n] == (a[i], b[j]));
            }
        }
        if 0 <= k < all.len() {
            if k < r.len() {
                assert(all[k] == r[k]);
                let n = choose|n: int| 0 <= n < t.len() && t[n] == r[k].0;
                assert(a[n] == all[k].0);
            } else {
                assert(all[k] == q[k - r.len()]);
                assert(a[a.len() - 1] == all[k].0);
            }
        }
    }
}

proof fn lemma_largest(s: Seq<(ModeView, ModeView)>, k: int)
    requires
        0 <= k < s.len(),
    ensures
        largest_pair(s) matches Some(p) && s.contains(p) && area(s[k].0) <= area(p.0),
    decreases s.len(),
{
    let t = s.drop_last();
    assert(s[s.len() - 1] == s.last());
    if k < t.len() {
        lemma_largest(t, k);
        let p = largest_pair(t)->Some_0;
        let i = choose|i: int| 0 <= i < t.len() && t[i] == p;
        assert(s[i] == p);
    } else if t.len() > 0 {
        lemma_largest(t, 0);
        let p = largest_pair(t)->Some_0;
        let i = choose|i: int| 0 <= i < t.len() && t[i] == p;
        assert(s[i] == p);
    }
}

/// Two outputs are mirrored in modes of theirs that show the same, of which no other such pair is
/// larger; unscaled and not turned.
pub proof fn mirrored_outputs_share_their_largest_mode(
    monitors: Seq<MonitorView>,
    logicals: Seq<LogicalView>,
    output: Seq<char>,
    target: Seq<char>,
    a: int,
    b: int,
    i: int,
    j: int,
)
    requires
        first(monitors, at_connector(output)) == Some(a),
        first(monitors, at_connector(target)) == Some(b),
        0 <= i < monitors[a].modes.len(),
        0 <= j < monitors[b].modes.len(),
        mirrors(monitors[a].modes[i].mode, monitors[b].modes[j].mode),
    ensures
        mirror_set(monitors, logicals, output, target) matches Ok(ls) && {
            let l = ls.last();
            &&& l.monitors.len() == 2
            &&& l.monitors[0].spec == monitors[a].spec
            &&& l.monitors[1].spec == monitors[b].spec
            &&& l.scale.bits == float::ONE_DOUBLE && l.transform == 0 && l.x == 0 && l.y == 0
            &&& exists|p: ModeView, q: ModeView|
                monitors[a].modes.contains(p) && monitors[b].modes.contains(q) && l.monitors[0].mode_id
                    == p.id && l.monitors[1].mode_id == q.id && #[trigger] mirrors(p.mode, q.mode)
                    && monitors[a].modes[i].mode.width * monitors[a].modes[i].mode.height
                    <= p.mode.width * p.mode.height
        },
{
    let am = monitors[a].modes;
    let bm = monitors[b].modes;
    let s = common_pairs(am, bm);
    common_modes_show_the_same(am, bm, i, j, 0);
    let k = choose|k: int| 0 <= k < s.len() && s[k] == (am[i], bm[j]);
    lemma_largest(s, k);
    let p = largest_pair(s)->Some_0;
    let n = choose|n: int| 0 <= n < s.len() && s[n] == p;
    common_modes_show_the_same(am, bm, i, j, n);
    assert(mirrors(p.0.mode, p.1.mode));
}

/// Two outputs that share no mode are not mirrored, and neither is an output that there is not.
pub proof fn outputs_without_a_common_mode_are_not_mirrored(
    monitors: Seq<MonitorView>,
    logicals: Seq<LogicalView>,
    output: Seq<char>,
    target: Seq<char>,
)
    ensures
        first(monitors, at_connector(output)) is None ==> mirror_set(
            monitors,
            logicals,
            output,
            target,
        ) == Err::<Seq<LogicalView>, LayoutFault>(LayoutFault::OutputNotFound),
        first(monitors, at_connector(output)) is Some && first(monitors, at_connector(target)) is None
            ==> mirror_set(monitors, logicals, output, target) == Err::<Seq<LogicalView>, LayoutFault>(
            LayoutFault::TargetNotFound,
        ),
        first(monitors, at_connector(output)) is Some && first(monitors, at_connector(target)) is Some
            && (forall|i: int, j: int|
            #![trigger monitors[first(monitors, at_connector(output))->Some_0].modes[i], monitors[first(
                monitors,
                at_connector(target),
            )->Some_0].modes[j]]
            0 <= i < monitors[first(monitors, at_connector(output))->Some_0].modes.len() && 0 <= j
                < monitors[first(monitors, at_connector(target))->Some_0].modes.len() ==> !mirrors(
                monitors[first(monitors, at_connector(output))->Some_0].modes[i].mode,
                monitors[first(monitors, at_connector(target))->Some_0].modes[j].mode,
            )) ==> mirror_set(monitors, logicals, output, target) == Err::<
            Seq<LogicalView>,
            LayoutFault,
        >(LayoutFault::NoCommonMode),
{
    if let (Some(a), Some(b)) = (
        first(monitors, at_connector(output)),
        first(monitors, at_connector(target)),
    ) {
        let am = monitors[a].modes;
        let bm = monitors[b].modes;
        let s = common_pairs(am, bm);
        if s.len() > 0 {
            common_modes_show_the_same(am, bm, 0, 0, 0);
            let i = choose|i: int| 0 <= i < am.len() && am[i] == s[0].0;
            let j = choose|j: int| 0 <= j < bm.len() && bm[j] == s[0].1;
            assert(mirrors(am[i].mode, bm[j].mode));
        }
    }
}

} // verus!
