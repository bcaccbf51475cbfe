//! What holds of every output of a session.
use vstd::prelude::*;

use crate::float::Single;
use crate::gnome::brightness;
use crate::gnome::connectors;
use crate::gnome::monitors;
use crate::gnome::monitors::{EntryView, LogicalView, MonitorView};
use crate::gnome::outputs::{
    brightness_of, description, gnome_output, mode_in_use, ColorSources, DdcState,
};
use crate::models::DisplayColorSettings;
use crate::search;
use crate::transforms;

verus! {

/// A monitor is described by its vendor and its product, as far as they are known.
pub proof fn monitors_are_described(vendor: Seq<char>, product: Seq<char>)
    ensures
        vendor.len() > 0 && product.len() > 0 ==> description(vendor, product) == Some(
            vendor + " "@ + product,
        ),
        vendor.len() > 0 ==> description(vendor, Seq::empty()) == Some(vendor),
        product.len() > 0 ==> description(Seq::empty(), product) == Some(product),
        description(Seq::empty(), Seq::empty()) is None,
        description(vendor, product) matches Some(d) ==> d.len() > 0,
{
}

/// A monitor is in the mode that its entry names, and in its current one where the entry names
/// none of its modes.
pub proof fn entries_tell_the_mode(m: MonitorView, l: LogicalView, e: EntryView)
    requires
        search::first_item(l.monitors, monitors::entry_at(m.spec.connector)) == Some(e),
    ensures
        search::first_item(m.modes, monitors::with_id(e.mode_id)) matches Some(mode) ==> mode_in_use(
            m,
            l,
        ) == Some(mode.mode) && mode.id == e.mode_id,
        search::first_item(m.modes, monitors::with_id(e.mode_id)) is None ==> (search::first_item(
            m.modes,
            monitors::is_current(),
        ) matches Some(mode) ==> mode_in_use(m, l) == Some(mode.mode) && mode.current),
        search::first_item(m.modes, monitors::with_id(e.mode_id)) is None && search::first_item(
            m.modes,
            monitors::is_current(),
        ) is None ==> mode_in_use(m, l) is None,
        e.spec.connector == m.spec.connector,
{
    search::lemma_first_from(l.monitors, monitors::entry_at(m.spec.connector), 0);
    search::lemma_first_from(m.modes, monitors::with_id(e.mode_id), 0);
    search::lemma_first_from(m.modes, monitors::is_current(), 0);
}

/// The brightness of a built-in panel is the one of the power settings, or else of the backlight,
/// and never one that a monitor reports.
pub proof fn panels_have_the_brightness_of_the_session(
    src: ColorSources,
    ddc: DdcState,
    kept: DisplayColorSettings,
)
    ensures
        src.power matches Some(x) ==> brightness_of(true, src, ddc, kept) == Some(x),
        src.power is None ==> brightness_of(true, src, ddc, kept) == src.backlight,
{
}

/// The brightness of another monitor is the one that it reports, or else the one that was set
/// last, and never one of the session; without a way to talk to it, none.
pub proof fn monitors_have_the_brightness_that_they_report(
    src: ColorSources,
    reported: Single,
    kept: DisplayColorSettings,
)
    ensures
        src.ddc_available ==> {
            &&& brightness_of(false, src, DdcState::Bus(Some(reported)), kept) == Some(reported)
            &&& brightness_of(false, src, DdcState::Bus(None), kept) == kept.brightness
            &&& brightness_of(false, src, DdcState::NoBus, kept) is None
        },
        !src.ddc_available ==> brightness_of(false, src, DdcState::Bus(Some(reported)), kept) is None,
{
}

/// An output has the modes of its monitor, in their order, and the settings that were kept for it,
/// as far as they can be changed.
pub proof fn outputs_have_the_modes_of_their_monitors(
    id: int,
    m: MonitorView,
    ms: Seq<MonitorView>,
    ls: Seq<LogicalView>,
    src: ColorSources,
    ddc: DdcState,
    states: Map<Seq<char>, DisplayColorSettings>,
)
    ensures
        ({
            let o = gnome_output(id, m, ms, ls, src, ddc, states);
            let kept = brightness::kept(states, m.spec.connector);
            let internal = connectors::is_internal(m.spec.connector);
            &&& o.available_modes.len() == m.modes.len()
            &&& forall|k: int|
                0 <= k < m.modes.len() ==> #[trigger] o.available_modes[k] == m.modes[k].mode
            &&& src.gamma_supported ==> o.color.gamma == kept.gamma && o.color.temperature
                == kept.temperature
            &&& o.color_caps.gamma == src.gamma_supported && o.color_caps.temperature
                == src.gamma_supported
            &&& internal ==> (o.color_caps.brightness <==> src.power is Some || src.backlight is Some)
            &&& !internal ==> (o.color_caps.brightness <==> src.ddc_available && !(ddc is NoBus))
        }),
{
}

/// An output that is shown has the place, the scale and the transform of its logical monitor.
pub proof fn shown_outputs_have_the_place_of_their_logical_monitors(
    id: int,
    m: MonitorView,
    ms: Seq<MonitorView>,
    ls: Seq<LogicalView>,
    src: ColorSources,
    ddc: DdcState,
    states: Map<Seq<char>, DisplayColorSettings>,
    k: int,
)
    requires
        0 <= k < ls.len(),
        monitors::shows(ls[k], m.spec.connector),
        forall|j: int| 0 <= j < k ==> !monitors::shows(#[trigger] ls[j], m.spec.connector),
    ensures
        ({
            let o = gnome_output(id, m, ms, ls, src, ddc, states);
            &&& o.enabled
            &&& o.position == Some((ls[k].x, ls[k].y))
            &&& o.scale == Some(ls[k].scale)
            &&& o.primary == ls[k].primary
            &&& o.transform == Some(transforms::numbered(ls[k].transform))
            &&& o.current_mode == mode_in_use(m, ls[k])
            &&& o.available_scales == monitors::supported_scales(ms, ls[k])
        }),
{
    let p = monitors::shows_on(m.spec.connector);
    search::lemma_first_from(ls, p, 0);
    assert(p(ls[k]));
    let a = search::first(ls, p);
    assert(a == Some(k)) by {
        if a is Some && a->Some_0 < k {
            assert(p(ls[a->Some_0]));
        }
    }
}

} // verus!
