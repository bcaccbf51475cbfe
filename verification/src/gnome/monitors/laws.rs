//! What holds of every monitor that Mutter describes.
use vstd::prelude::*;

use crate::float;
use crate::float::Double;
use crate::gnome::monitors::{
    at_connector, common_scales, entry_mode, has_scale, mode_fits, mode_scales, shared, shows,
    supported_scales, tidy, with_id, with_spec, EntryView, LogicalView, ModeView, MonitorView,
};
use crate::models::DisplayMode;
use crate::search::{first, first_item, lemma_first_from};

verus! {

/// A mode fits if its size is the one that is asked for and, where a rate is asked for, its rate
/// differs from that by less than a half.
pub proof fn fitting_modes_have_the_size(requested: DisplayMode, candidate: DisplayMode)
    ensures
        mode_fits(requested, candidate) ==> requested.width == candidate.width && requested.height
            == candidate.height,
        requested.width == candidate.width && requested.height == candidate.height
            && requested.refresh_hz is None ==> mode_fits(requested, candidate),
        requested.refresh_hz is Some && candidate.refresh_hz is None ==> !mode_fits(requested, candidate),
        requested.width == candidate.width && requested.height == candidate.height
            && requested.refresh_hz is Some && candidate.refresh_hz is Some ==> mode_fits(
            requested,
            candidate,
        ) == float::closer(
            requested.refresh_hz->Some_0,
            candidate.refresh_hz->Some_0,
            float::single(0x3f00_0000),
        ),
        mode_fits(requested, candidate) && candidate.refresh_hz is Some && requested.refresh_hz is Some
            ==> mode_fits(candidate, requested),
{
    if requested.refresh_hz is Some && candidate.refresh_hz is Some {
        float::laws::distances_are_symmetric(
            requested.refresh_hz->Some_0,
            candidate.refresh_hz->Some_0,
            float::single(float::HALF),
        );
    }
}

/// The mode of an entry is the one with its identifier, of the monitor with its identity.
pub proof fn entries_name_modes(monitors: Seq<MonitorView>, e: EntryView, i: int, k: int)
    requires
        0 <= i < monitors.len(),
        monitors[i].spec == e.spec,
        forall|j: int| 0 <= j < i ==> (#[trigger] monitors[j]).spec != e.spec,
        0 <= k < monitors[i].modes.len(),
        monitors[i].modes[k].id == e.mode_id,
        forall|j: int| 0 <= j < k ==> (#[trigger] monitors[i].modes[j]).id != e.mode_id,
    ensures
        entry_mode(monitors, e) == Some(monitors[i].modes[k]),
{
    lemma_first_from(monitors, with_spec(e.spec), 0);
    lemma_first_from(monitors[i].modes, with_id(e.mode_id), 0);
    assert(with_spec(e.spec)(monitors[i]));
    assert(with_id(e.mode_id)(monitors[i].modes[k]));
    let a = first(monitors, with_spec(e.spec));
    assert(a == Some(i)) by {
        if a is Some && a->Some_0 < i {
            assert(with_spec(e.spec)(monitors[a->Some_0]));
        }
    }
    let b = first(monitors[i].modes, with_id(e.mode_id));
    assert(b == Some(k)) by {
        if b is Some && b->Some_0 < k {
            assert(with_id(e.mode_id)(monitors[i].modes[b->Some_0]));
        }
    }
}

/// A logical monitor shows on a connector exactly if one of its entries is for it.
pub proof fn logical_monitors_show_on_their_connectors(l: LogicalView, connector: Seq<char>)
    ensures
        shows(l, connector) <==> exists|k: int|
            0 <= k < l.monitors.len() && (#[trigger] l.monitors[k]).spec.connector == connector,
{
    let p = crate::gnome::monitors::entry_at(connector);
    lemma_first_from(l.monitors, p, 0);
    if shows(l, connector) {
        let k = first(l.monitors, p)->Some_0;
        assert(p(l.monitors[k]));
        assert(l.monitors[k].spec.connector == connector);
    }
    if exists|k: int| 0 <= k < l.monitors.len() && (#[trigger] l.monitors[k]).spec.connector == connector {
        let k = choose|k: int|
            0 <= k < l.monitors.len() && (#[trigger] l.monitors[k]).spec.connector == connector;
        assert(p(l.monitors[k]));
    }
}

/// A mode offers the positive ones of its scales, the preferred one where it lists none, and one
/// where none of them is positive; every scale that it offers is positive.
pub proof fn offered_scales_are_positive(m: ModeView)
    ensures
        mode_scales(m).len() > 0,
        forall|x: Double|
            m.supported_scales.contains(x) && float::less_double(float::double(float::ZERO_DOUBLE), x)
                ==> #[trigger] mode_scales(m).contains(x),
        m.supported_scales.len() == 0 && float::less_double(
            float::double(float::ZERO_DOUBLE),
            m.preferred_scale,
        ) ==> mode_scales(m) == seq![m.preferred_scale],
        forall|x: Double| #[trigger]
            mode_scales(m).contains(x) ==> x.bits == float::ONE_DOUBLE || (float::less_double(
                float::double(float::ZERO_DOUBLE),
                x,
            ) && (m.supported_scales.contains(x) || (m.supported_scales.len() == 0 && x
                == m.preferred_scale))),
{
    let all = if m.supported_scales.len() == 0 {
        seq![m.preferred_scale]
    } else {
        m.supported_scales
    };
    assert forall|x: Double| #![trigger all.contains(x)]
        crate::gnome::monitors::positive(all).contains(x) <==> all.contains(x) && float::less_double(
            float::double(float::ZERO_DOUBLE),
            x,
        ) by {
        lemma_positive_members(all, x);
    }
    assert forall|x: Double| #[trigger] mode_scales(m).contains(x) implies x.bits == float::ONE_DOUBLE || (
    float::less_double(float::double(float::ZERO_DOUBLE), x) && (m.supported_scales.contains(x) || (
    m.supported_scales.len() == 0 && x == m.preferred_scale))) by {
        lemma_positive_members(all, x);
        if crate::gnome::monitors::positive(all).len() == 0 {
            assert(x == float::double(float::ONE_DOUBLE));
        }
    }
    assert forall|x: Double|
        m.supported_scales.contains(x) && float::less_double(
            float::double(float::ZERO_DOUBLE),
            x,
        ) implies #[trigger] mode_scales(m).contains(x) by {
        lemma_positive_members(all, x);
    }
    if m.supported_scales.len() == 0 && float::less_double(
        float::double(float::ZERO_DOUBLE),
        m.preferred_scale,
    ) {
        reveal_with_fuel(crate::gnome::monitors::positive, 2);
        assert(all.drop_last() =~= Seq::<Double>::empty());
        assert(crate::gnome::monitors::positive(all) =~= seq![m.preferred_scale]);
    }
}

proof fn lemma_positive_members(s: Seq<Double>, x: Double)
    ensures
        crate::gnome::monitors::positive(s).contains(x) <==> s.contains(x) && float::less_double(
            float::double(float::ZERO_DOUBLE),
            x,
        ),
    decreases s.len(),
{
    if s.len() > 0 {
        let t = s.drop_last();
        lemma_positive_members(t, x);
        let p = crate::gnome::monitors::positive(t);
        assert(s =~= t.push(s.last()));
        lemma_pushed(t, s.last(), x);
        lemma_pushed(p, s.last(), x);
    }
}

proof fn lemma_pushed(t: Seq<Double>, last: Double, x: Double)
    ensures
        t.push(last).contains(x) <==> t.contains(x) || x == last,
{
    let s = t.push(last);
    if t.contains(x) {
        let k = choose|k: int| 0 <= k < t.len() && t[k] == x;
        assert(s[k] == x);
    }
    assert(s[t.len() as int] == last);
    if s.contains(x) && x != last {
        let k = choose|k: int| 0 <= k < s.len() && s[k] == x;
        assert(t[k] == x);
    }
}

/// The scales of a logical monitor with one entry are those of its mode, put in order.
pub proof fn single_monitors_offer_the_scales_of_their_mode(
    monitors: Seq<MonitorView>,
    l: LogicalView,
    m: ModeView,
)
    requires
        l.monitors.len() == 1,
        entry_mode(monitors, l.monitors[0]) == Some(m),
    ensures
        common_scales(monitors, l.monitors) == Some(Some(mode_scales(m))),
        supported_scales(monitors, l) matches Some(s) ==> s == tidy(mode_scales(m)),
        tidy(mode_scales(m)).len() > 0 ==> supported_scales(monitors, l) is Some,
{
    reveal_with_fuel(common_scales, 2);
    assert(l.monitors.drop_last() =~= Seq::<EntryView>::empty());
    assert(l.monitors.last() == l.monitors[0]);
}

/// With every further entry only the scales that its mode offers too are left, and an entry
/// without a mode leaves none.
pub proof fn further_monitors_narrow_the_scales(
    monitors: Seq<MonitorView>,
    entries: Seq<EntryView>,
    e: EntryView,
    s: Seq<Double>,
)
    requires
        common_scales(monitors, entries) == Some(Some(s)),
    ensures
        entry_mode(monitors, e) is None ==> common_scales(monitors, entries.push(e)) is None,
        entry_mode(monitors, e) matches Some(m) ==> (common_scales(monitors, entries.push(e))
            matches Some(Some(t)) && forall|x: Double| #[trigger]
            t.contains(x) <==> s.contains(x) && has_scale(mode_scales(m), x)),
{
    assert(entries.push(e).drop_last() =~= entries);
    if let Some(m) = entry_mode(monitors, e) {
        assert forall|x: Double| #[trigger]
            shared(s, mode_scales(m)).contains(x) <==> s.contains(x) && has_scale(mode_scales(m), x) by {
            lemma_shared_members(s, mode_scales(m), x);
        }
    }
}

proof fn lemma_shared_members(a: Seq<Double>, b: Seq<Double>, x: Double)
    ensures
        shared(a, b).contains(x) <==> a.contains(x) && has_scale(b, x),
    decreases a.len(),
{
    if a.len() > 0 {
        let t = a.drop_last();
        lemma_shared_members(t, b, x);
        assert(a =~= t.push(a.last()));
        lemma_pushed(t, a.last(), x);
        lemma_pushed(shared(t, b), a.last(), x);
    }
}

/// The monitor at a connector is the first one that has it.
pub proof fn monitors_are_found_by_their_connectors(
    monitors: Seq<MonitorView>,
    connector: Seq<char>,
    i: int,
)
    requires
        0 <= i < monitors.len(),
        monitors[i].spec.connector == connector,
        forall|j: int| 0 <= j < i ==> (#[trigger] monitors[j]).spec.connector != connector,
    ensures
        first_item(monitors, at_connector(connector)) == Some(monitors[i]),
{
    let p = at_connector(connector);
    lemma_first_from(monitors, p, 0);
    assert(p(monitors[i]));
    let a = first(monitors, p);
    assert(a == Some(i)) by {
        if a is Some && a->Some_0 < i {
            assert(p(monitors[a->Some_0]));
        }
    }
}

} // verus!
