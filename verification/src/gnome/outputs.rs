//! The outputs of a GNOME session, put together from what Mutter and the others know of them.
use vstd::prelude::*;

use crate::by_name::ByName;
use crate::float::Single;
use crate::gnome::brightness;
use crate::gnome::connectors;
use crate::gnome::monitors;
use crate::gnome::monitors::{LogicalMonitorInfo, LogicalView, ModeView, MonitorInfo, MonitorMode, MonitorView};
use crate::models;
use crate::models::{
    DisplayColorCapabilities, DisplayColorSettings, DisplayMode, DisplayOutput, OutputView,
};
use crate::search;
use crate::search::seen;
use crate::text;
use crate::text_spec as spec;
use crate::transforms;

pub mod laws;

verus! {

/// What is known of a monitor over DDC.
#[derive(Clone, Copy, Debug)]
pub enum DdcState {
    /// The monitor cannot be talked to.
    NoBus,
    /// It can, and this is its brightness where it could be read.
    Bus(Option<Single>),
}

/// What is known of brightness and color, besides the monitors themselves.
#[derive(Clone, Copy, Debug)]
pub struct ColorSources {
    /// Whether Mutter lets gamma ramps be set.
    pub gamma_supported: bool,
    /// Whether monitors can be talked to at all.
    pub ddc_available: bool,
    /// The brightness of the backlight.
    pub backlight: Option<Single>,
    /// The brightness that the power settings report.
    pub power: Option<Single>,
}

/// Vendor and product, as far as they are known.
pub open spec fn description(vendor: Seq<char>, product: Seq<char>) -> Option<Seq<char>> {
    if vendor.len() > 0 && product.len() > 0 {
        Some(vendor + " "@ + product)
    } else if vendor.len() > 0 {
        Some(vendor)
    } else if product.len() > 0 {
        Some(product)
    } else {
        None
    }
}

/// The mode that a monitor is in by the entry of a logical monitor; where the entry names none
/// of its modes, the current one.
pub open spec fn mode_in_use(m: MonitorView, l: LogicalView) -> Option<DisplayMode> {
    match search::first_item(l.monitors, monitors::entry_at(m.spec.connector)) {
        Some(e) => match search::first_item(m.modes, monitors::with_id(e.mode_id)) {
            Some(mode) => Some(mode.mode),
            None => match search::first_item(m.modes, monitors::is_current()) {
                Some(mode) => Some(mode.mode),
                None => None,
            },
        },
        None => None,
    }
}

/// The brightness of an output: of a built-in panel the one of the power settings, else of the
/// backlight; of a monitor the one that it reports, else the one that was kept.
pub open spec fn brightness_of(
    internal: bool,
    src: ColorSources,
    ddc: DdcState,
    kept: DisplayColorSettings,
) -> Option<Single> {
    if internal {
        if src.power is Some {
            src.power
        } else {
            src.backlight
        }
    } else if !src.ddc_available {
        None
    } else {
        match ddc {
            DdcState::Bus(Some(v)) => Some(v),
            DdcState::Bus(None) => kept.brightness,
            DdcState::NoBus => None,
        }
    }
}

/// The modes without what Mutter adds to them.
pub open spec fn plain_modes(s: Seq<ModeView>) -> Seq<DisplayMode> {
    Seq::new(s.len(), |i: int| s[i].mode)
}

/// The output that a monitor is.
pub open spec fn gnome_output(
    id: int,
    m: MonitorView,
    ms: Seq<MonitorView>,
    ls: Seq<LogicalView>,
    src: ColorSources,
    ddc: DdcState,
    states: Map<Seq<char>, DisplayColorSettings>,
) -> OutputView {
    let name = m.spec.connector;
    let kept = brightness::kept(states, name);
    let internal = connectors::is_internal(name);
    let level = brightness_of(internal, src, ddc, kept);
    let plain = OutputView {
        available_modes: plain_modes(m.modes),
        color: DisplayColorSettings {
            brightness: level,
            gamma: if src.gamma_supported {
                kept.gamma
            } else {
                None
            },
            temperature: if src.gamma_supported {
                kept.temperature
            } else {
                None
            },
        },
        color_caps: DisplayColorCapabilities {
            brightness: if internal {
                level is Some
            } else {
                src.ddc_available && ddc is Bus
            },
            gamma: src.gamma_supported,
            temperature: src.gamma_supported,
        },
        ..models::simple_view(id, name, description(m.spec.vendor, m.spec.product))
    };
    match search::first_item(ls, monitors::shows_on(name)) {
        Some(l) => OutputView {
            enabled: true,
            primary: l.primary,
            scale: Some(l.scale),
            available_scales: monitors::supported_scales(ms, l),
            position: Some((l.x, l.y)),
            transform: Some(transforms::numbered(l.transform)),
            current_mode: mode_in_use(m, l),
            ..plain
        },
        None => OutputView { enabled: false, ..plain },
    }
}

/// The outputs of a session.
pub open spec fn gnome_outputs(
    ms: Seq<MonitorView>,
    ls: Seq<LogicalView>,
    src: ColorSources,
    ddc: Seq<DdcState>,
    states: Map<Seq<char>, DisplayColorSettings>,
) -> Seq<OutputView> {
    Seq::new(ms.len(), |i: int| gnome_output(i, ms[i], ms, ls, src, ddc[i], states))
}

fn description_of(vendor: &String, product: &String) -> (r: Option<String>)
    ensures
        spec::opt(r) == description(vendor@, product@),
{
    let has_vendor = !text::is_empty(vendor.as_str());
    let has_product = !text::is_empty(product.as_str());
    if has_vendor && has_product {
        let mut s = vendor.clone();
        s.append(" ");
        s.append(product.as_str());
        Some(s)
    } else if has_vendor {
        Some(vendor.clone())
    } else if has_product {
        Some(product.clone())
    } else {
        None
    }
}

fn find_mode_in_use(m: &MonitorInfo, l: &LogicalMonitorInfo) -> (r: Option<DisplayMode>)
    ensures
        r == mode_in_use(m@, l@),
{
    match monitors::find_entry(&l.monitors, m.spec.connector.as_str()) {
        Some(e) => {
            assert(seen(l.monitors@)[e as int] == l.monitors@[e as int]@);
            match monitors::find_mode(&m.modes, l.monitors[e].mode_id.as_str()) {
                Some(k) => Some(m.modes[k].mode),
                None => match monitors::find_current(&m.modes) {
                    Some(k) => Some(m.modes[k].mode),
                    None => None,
                },
            }
        },
        None => None,
    }
}

fn plain_modes_of(modes: &Vec<MonitorMode>) -> (r: Vec<DisplayMode>)
    ensures
        r@ == plain_modes(seen(modes@)),
{
    let mut r: Vec<DisplayMode> = Vec::new();
    let mut i: usize = 0;
    while i < modes.len()
        invariant
            i <= modes@.len(),
            r@.len() == i,
            forall|k: int| 0 <= k < i ==> #[trigger] r@[k] == modes@[k].mode,
        decreases modes.len() - i,
    {
        r.push(modes[i].mode);
        i = i + 1;
    }
    assert(r@ =~= plain_modes(seen(modes@)));
    r
}

fn output_of(
    id: usize,
    m: &MonitorInfo,
    ms: &Vec<MonitorInfo>,
    ls: &Vec<LogicalMonitorInfo>,
    src: ColorSources,
    ddc: DdcState,
    states: &ByName<DisplayColorSettings>,
) -> (r: DisplayOutput)
    ensures
        r@ == gnome_output(id as int, m@, seen(ms@), seen(ls@), src, ddc, states@),
{
    let name = m.spec.connector.as_str();
    let mut out = DisplayOutput::simple(
        id,
        m.spec.connector.clone(),
        description_of(&m.spec.vendor, &m.spec.product),
    );
    match monitors::find_output_logical(ls, name) {
        Some(i) => {
            let l = &ls[i];
            assert(seen(ls@)[i as int] == l@);
            out.primary = l.primary;
            out.scale = Some(l.scale);
            out.available_scales = monitors::supported_scales_for_logical_monitor(ms, l);
            out.position = Some((l.x, l.y));
            out.transform = Some(String::from_str(transforms::name_of(l.transform)));
            out.current_mode = find_mode_in_use(m, l);
        },
        None => {
            out.enabled = false;
        },
    }
    out.available_modes = plain_modes_of(&m.modes);
    let kept = match states.get(name) {
        Some(s) => s,
        None => DisplayColorSettings { brightness: None, gamma: None, temperature: None },
    };
    let internal = connectors::connector_looks_internal(name);
    let level = if internal {
        if src.power.is_some() {
            src.power
        } else {
            src.backlight
        }
    } else if !src.ddc_available {
        None
    } else {
        match ddc {
            DdcState::Bus(Some(v)) => Some(v),
            DdcState::Bus(None) => kept.brightness,
            DdcState::NoBus => None,
        }
    };
    let has_bus = match ddc {
        DdcState::Bus(_) => true,
        DdcState::NoBus => false,
    };
    out.color = DisplayColorSettings {
        brightness: level,
        gamma: if src.gamma_supported {
            kept.gamma
        } else {
            None
        },
        temperature: if src.gamma_supported {
            kept.temperature
        } else {
            None
        },
    };
    out.color_caps = DisplayColorCapabilities {
        brightness: if internal {
            level.is_some()
        } else {
            src.ddc_available && has_bus
        },
        gamma: src.gamma_supported,
        temperature: src.gamma_supported,
    };
    assert(out@ =~= gnome_output(id as int, m@, seen(ms@), seen(ls@), src, ddc, states@));
    out
}

/// The outputs of a session. `ddc` says of each monitor what is known of it over DDC.
pub fn list_outputs(
    ms: &Vec<MonitorInfo>,
    ls: &Vec<LogicalMonitorInfo>,
    src: ColorSources,
    ddc: &Vec<DdcState>,
    states: &ByName<DisplayColorSettings>,
) -> (r: Vec<DisplayOutput>)
    requires
        ddc@.len() == ms@.len(),
    ensures
        models::views(r@) == gnome_outputs(seen(ms@), seen(ls@), src, ddc@, states@),
{
    let mut r: Vec<DisplayOutput> = Vec::new();
    let mut i: usize = 0;
    while i < ms.len()
        invariant
            i <= ms@.len(),
            ddc@.len() == ms@.len(),
            r@.len() == i,
            forall|k: int|
                0 <= k < i ==> (#[trigger] r@[k])@ == gnome_output(
                    k,
                    ms@[k]@,
                    seen(ms@),
                    seen(ls@),
                    src,
                    ddc@[k],
                    states@,
                ),
        decreases ms.len() - i,
    {
        let o = output_of(i, &ms[i], ms, ls, src, ddc[i], states);
        r.push(o);
        i = i + 1;
    }
    assert(models::views(r@) =~= gnome_outputs(seen(ms@), seen(ls@), src, ddc@, states@));
    r
}

/// An output of a session is enabled exactly where a logical monitor shows on its connector; a
/// disabled one is in no mode and has no scale, position or transform; and settings that cannot
/// be changed are not shown.
pub proof fn outputs_follow_the_layout(
    ms: Seq<MonitorView>,
    ls: Seq<LogicalView>,
    src: ColorSources,
    ddc: Seq<DdcState>,
    states: Map<Seq<char>, DisplayColorSettings>,
    i: int,
)
    requires
        0 <= i < ms.len(),
    ensures
        ({
            let o = gnome_outputs(ms, ls, src, ddc, states)[i];
            &&& o.id == i
            &&& o.name == ms[i].spec.connector
            &&& o.enabled == (search::first(ls, monitors::shows_on(o.name)) is Some)
            &&& !o.enabled ==> o.current_mode is None && o.scale is None && o.position is None
                && o.transform is None && o.available_scales is None && !o.primary
            &&& !o.color_caps.gamma ==> o.color.gamma is None && o.color.temperature is None
            &&& !o.color_caps.brightness ==> o.color.brightness is None
        }),
{
}

} // verus!
