//! Changes to the layout of the desktop: from the state that Mutter reports to the logical
//! monitors that it is asked to apply.
use vstd::prelude::*;

use crate::by_name::ByName;
use crate::float;
use crate::float::Double;
use crate::gnome::monitors::{
    approx_contains, approx_intersection, at_connector, copied_scales, entry_at, entry_mode, find_connector,
    find_current, find_entry, find_entry_mode, find_output_logical, find_preferred, has_scale, is_current,
    is_preferred, mode_fits, mode_matches, mutter_transform, positive, positive_scales, shared,
    shows, shows_on, transform_to_mutter, EntryView, LogicalMonitorInfo, LogicalView, ModeView,
    MonitorEntry, MonitorInfo, MonitorMode, MonitorView,
};
use crate::gnome::GnomeBackend;
use crate::models::{DisplayMode, RelativePosition, Side};
use crate::search;
use crate::search::{first, first_item, seen};
use crate::text;

pub mod laws;

verus! {

/// Why a layout cannot be changed as it is asked.
#[derive(Debug)]
pub enum LayoutError {
    /// There is no such output.
    OutputNotFound,
    /// There is no such target.
    TargetNotFound,
    /// The output is disabled.
    Disabled,
    /// The output that the other one is to be placed next to is disabled.
    TargetDisabled,
    /// The output does not offer the mode.
    ModeUnavailable,
    /// The output offers no mode at all.
    NoModes,
    UnsupportedTransform,
    /// The two outputs have no mode in common.
    NoCommonMode,
    /// The scale is none of those that the size allows.
    UnsupportedScale { width: u32, height: u32, scales: Vec<Double> },
}

/// What a [`LayoutError`] holds.
pub enum LayoutFault {
    OutputNotFound,
    TargetNotFound,
    Disabled,
    TargetDisabled,
    ModeUnavailable,
    NoModes,
    UnsupportedTransform,
    NoCommonMode,
    UnsupportedScale { width: u32, height: u32, scales: Seq<Double> },
}

impl View for LayoutError {
    type V = LayoutFault;

    open spec fn view(&self) -> LayoutFault {
        match self {
            LayoutError::OutputNotFound => LayoutFault::OutputNotFound,
            LayoutError::TargetNotFound => LayoutFault::TargetNotFound,
            LayoutError::Disabled => LayoutFault::Disabled,
            LayoutError::TargetDisabled => LayoutFault::TargetDisabled,
            LayoutError::ModeUnavailable => LayoutFault::ModeUnavailable,
            LayoutError::NoModes => LayoutFault::NoModes,
            LayoutError::UnsupportedTransform => LayoutFault::UnsupportedTransform,
            LayoutError::NoCommonMode => LayoutFault::NoCommonMode,
            LayoutError::UnsupportedScale { width, height, scales } => {
                LayoutFault::UnsupportedScale { width: *width, height: *height, scales: scales@ }
            },
        }
    }
}

/// The result of a change, as a contract states it.
pub open spec fn is_result(
    r: Result<Vec<LogicalMonitorInfo>, LayoutError>,
    s: Result<Seq<LogicalView>, LayoutFault>,
) -> bool {
    match s {
        Ok(ls) => r matches Ok(v) && seen(v@) == ls,
        Err(e) => r matches Err(f) && f@ == e,
    }
}

/// The entries, with the mode of those at the connector changed.
pub open spec fn with_mode(entries: Seq<EntryView>, connector: Seq<char>, id: Seq<char>) -> Seq<
    EntryView,
> {
    Seq::new(
        entries.len(),
        |i: int|
            if entries[i].spec.connector == connector {
                EntryView { mode_id: id, ..entries[i] }
            } else {
                entries[i]
            },
    )
}

/// The mode that is asked for.
pub open spec fn fitting(mode: DisplayMode) -> spec_fn(ModeView) -> bool {
    |m: ModeView| mode_fits(mode, m.mode)
}

/// The layout with another mode on an output.
pub open spec fn mode_set(
    monitors: Seq<MonitorView>,
    logicals: Seq<LogicalView>,
    output: Seq<char>,
    mode: DisplayMode,
) -> Result<Seq<LogicalView>, LayoutFault> {
    match first_item(monitors, at_connector(output)) {
        None => Err(LayoutFault::OutputNotFound),
        Some(m) => match first_item(m.modes, fitting(mode)) {
            None => Err(LayoutFault::ModeUnavailable),
            Some(chosen) => match first(logicals, shows_on(output)) {
                None => Err(LayoutFault::Disabled),
                Some(i) => Ok(
                    logicals.update(
                        i,
                        LogicalView {
                            monitors: with_mode(logicals[i].monitors, output, chosen.id),
                            ..logicals[i]
                        },
                    ),
                ),
            },
        },
    }
}

/// The scales that a mode lists: its own, else the preferred one where it is positive.
pub open spec fn listed_scales(m: ModeView) -> Seq<Double> {
    if m.supported_scales.len() == 0 {
        positive(seq![m.preferred_scale])
    } else {
        m.supported_scales
    }
}

/// The scales that the modes of all entries list, as far as the modes are known.
pub open spec fn entry_scales(monitors: Seq<MonitorView>, entries: Seq<EntryView>) -> Option<
    Seq<Double>,
>
    decreases entries.len(),
{
    if entries.len() == 0 {
        None
    } else {
        let before = entry_scales(monitors, entries.drop_last());
        match (entry_mode(monitors, entries.last()), before) {
            (None, _) => before,
            (Some(m), None) => Some(listed_scales(m)),
            (Some(m), Some(s)) => Some(shared(s, listed_scales(m))),
        }
    }
}

/// The size of the last of the modes that are known.
pub open spec fn entry_size(monitors: Seq<MonitorView>, entries: Seq<EntryView>) -> (u32, u32)
    decreases entries.len(),
{
    if entries.len() == 0 {
        (0, 0)
    } else {
        match entry_mode(monitors, entries.last()) {
            Some(m) => (m.mode.width, m.mode.height),
            None => entry_size(monitors, entries.drop_last()),
        }
    }
}

/// The layout with another scale on an output. Where scales are listed, it must be one of them.
pub open spec fn scale_set(
    monitors: Seq<MonitorView>,
    logicals: Seq<LogicalView>,
    output: Seq<char>,
    scale: Double,
) -> Result<Seq<LogicalView>, LayoutFault> {
    match first(logicals, shows_on(output)) {
        None => Err(LayoutFault::Disabled),
        Some(i) => {
            let entries = logicals[i].monitors;
            match entry_scales(monitors, entries) {
                Some(s) => if s.len() > 0 && !has_scale(s, scale) {
                    Err(
                        LayoutFault::UnsupportedScale {
                            width: entry_size(monitors, entries).0,
                            height: entry_size(monitors, entries).1,
                            scales: s,
                        },
                    )
                } else {
                    Ok(logicals.update(i, LogicalView { scale, ..logicals[i] }))
                },
                None => Ok(logicals.update(i, LogicalView { scale, ..logicals[i] })),
            }
        },
    }
}

/// Whether a connector is one of two.
pub open spec fn either(connector: Seq<char>, a: Seq<char>, b: Seq<char>) -> bool {
    connector == a || connector == b
}

/// The entries at other connectors than the two.
pub open spec fn others(entries: Seq<EntryView>, a: Seq<char>, b: Seq<char>) -> Seq<EntryView>
    decreases entries.len(),
{
    if entries.len() == 0 {
        seq![]
    } else if either(entries.last().spec.connector, a, b) {
        others(entries.drop_last(), a, b)
    } else {
        others(entries.drop_last(), a, b).push(entries.last())
    }
}

/// The logical monitors without the two connectors; those that show on none are dropped.
pub open spec fn removed(logicals: Seq<LogicalView>, a: Seq<char>, b: Seq<char>) -> Seq<LogicalView>
    decreases logicals.len(),
{
    if logicals.len() == 0 {
        seq![]
    } else {
        let l = logicals.last();
        let rest = others(l.monitors, a, b);
        if rest.len() == 0 {
            removed(logicals.drop_last(), a, b)
        } else {
            removed(logicals.drop_last(), a, b).push(LogicalView { monitors: rest, ..l })
        }
    }
}

/// A number brought into the range of `i32`.
pub open spec fn saturated(n: int) -> i32 {
    if n > i32::MAX {
        i32::MAX
    } else if n < i32::MIN {
        i32::MIN
    } else {
        n as i32
    }
}

/// The size of a logical monitor, by the mode of its first entry.
pub open spec fn logical_size(monitors: Seq<MonitorView>, l: LogicalView) -> (i32, i32) {
    if l.monitors.len() == 0 {
        (0, 0)
    } else {
        match entry_mode(monitors, l.monitors[0]) {
            Some(m) => (m.mode.width as i32, m.mode.height as i32),
            None => (0, 0),
        }
    }
}

/// Where the desktop ends on the right.
pub open spec fn right_end(monitors: Seq<MonitorView>, logicals: Seq<LogicalView>) -> i32
    decreases logicals.len(),
{
    if logicals.len() == 0 {
        0
    } else {
        let before = right_end(monitors, logicals.drop_last());
        let l = logicals.last();
        let end = saturated(l.x + logical_size(monitors, l).0);
        if end > before {
            end
        } else {
            before
        }
    }
}

/// The mode in which an output is enabled: the preferred one, else the current one, else the
/// first.
pub open spec fn mode_to_enable(modes: Seq<ModeView>) -> Option<ModeView> {
    if first(modes, is_preferred()) is Some {
        first_item(modes, is_preferred())
    } else if first(modes, is_current()) is Some {
        first_item(modes, is_current())
    } else if modes.len() > 0 {
        Some(modes[0])
    } else {
        None
    }
}

/// An entry for a monitor in a mode.
pub open spec fn plain_entry(m: MonitorView, mode_id: Seq<char>) -> EntryView {
    EntryView { spec: m.spec, mode_id, props: Map::empty() }
}

/// The layout with an output enabled or disabled; `None` where it is so already. An output that
/// is enabled comes to the right of all others; it is the primary one where it is the only one.
pub open spec fn enabled_set(
    monitors: Seq<MonitorView>,
    logicals: Seq<LogicalView>,
    output: Seq<char>,
    enabled: bool,
) -> Result<Option<Seq<LogicalView>>, LayoutFault> {
    match first_item(monitors, at_connector(output)) {
        None => Err(LayoutFault::OutputNotFound),
        Some(m) => if enabled == (first(logicals, shows_on(output)) is Some) {
            Ok(None)
        } else if !enabled {
            Ok(Some(removed(logicals, output, output)))
        } else {
            match mode_to_enable(m.modes) {
                None => Err(LayoutFault::NoModes),
                Some(mode) => Ok(
                    Some(
                        logicals.push(
                            LogicalView {
                                x: right_end(monitors, logicals),
                                y: 0,
                                scale: float::double(float::ONE_DOUBLE),
                                transform: 0,
                                primary: logicals.len() == 0,
                                props: Map::empty(),
                                monitors: seq![plain_entry(m, mode.id)],
                            },
                        ),
                    ),
                ),
            }
        },
    }
}

/// The layout with an output at another position.
pub open spec fn position_set(logicals: Seq<LogicalView>, output: Seq<char>, x: i32, y: i32) -> Result<
    Seq<LogicalView>,
    LayoutFault,
> {
    match first(logicals, shows_on(output)) {
        None => Err(LayoutFault::Disabled),
        Some(i) => Ok(logicals.update(i, LogicalView { x, y, ..logicals[i] })),
    }
}

/// The position on a side of a logical monitor, for one of a size.
pub open spec fn beside(
    side: Side,
    rel: LogicalView,
    rel_size: (i32, i32),
    size: (i32, i32),
) -> (i32, i32) {
    match side {
        Side::Left => (saturated(rel.x - size.0), rel.y),
        Side::Right => (saturated(rel.x + rel_size.0), rel.y),
        Side::Above => (rel.x, saturated(rel.y - size.1)),
        Side::Below => (rel.x, saturated(rel.y + rel_size.1)),
    }
}

/// The layout with an output next to another one.
pub open spec fn relative_set(
    monitors: Seq<MonitorView>,
    logicals: Seq<LogicalView>,
    output: Seq<char>,
    side: Side,
    relative_to: Seq<char>,
) -> Result<Seq<LogicalView>, LayoutFault> {
    match (first(logicals, shows_on(output)), first(logicals, shows_on(relative_to))) {
        (None, _) => Err(LayoutFault::Disabled),
        (Some(_), None) => Err(LayoutFault::TargetDisabled),
        (Some(i), Some(k)) => {
            let p = beside(
                side,
                logicals[k],
                logical_size(monitors, logicals[k]),
                logical_size(monitors, logicals[i]),
            );
            Ok(logicals.update(i, LogicalView { x: p.0, y: p.1, ..logicals[i] }))
        },
    }
}

/// The layout with an output turned.
pub open spec fn transform_set(
    logicals: Seq<LogicalView>,
    output: Seq<char>,
    transform: Seq<char>,
) -> Result<Seq<LogicalView>, LayoutFault> {
    match first(logicals, shows_on(output)) {
        None => Err(LayoutFault::Disabled),
        Some(i) => match mutter_transform(transform) {
            None => Err(LayoutFault::UnsupportedTransform),
            Some(t) => Ok(logicals.update(i, LogicalView { transform: t, ..logicals[i] })),
        },
    }
}

/// Whether two modes show the same: the sizes are equal, and the rates differ by less than a
/// half or are both unknown.
pub open spec fn mirrors(a: DisplayMode, b: DisplayMode) -> bool {
    &&& a.width == b.width
    &&& a.height == b.height
    &&& match (a.refresh_hz, b.refresh_hz) {
        (Some(x), Some(y)) => float::closer(x, y, float::single(float::HALF)),
        (None, None) => true,
        _ => false,
    }
}

/// The modes of a list that show the same as a mode, each with that mode.
pub open spec fn pairs_with(m: ModeView, modes: Seq<ModeView>) -> Seq<(ModeView, ModeView)>
    decreases modes.len(),
{
    if modes.len() == 0 {
        seq![]
    } else if mirrors(m.mode, modes.last().mode) {
        pairs_with(m, modes.drop_last()).push((m, modes.last()))
    } else {
        pairs_with(m, modes.drop_last())
    }
}

/// The pairs of modes that show the same.
pub open spec fn common_pairs(a: Seq<ModeView>, b: Seq<ModeView>) -> Seq<(ModeView, ModeView)>
    decreases a.len(),
{
    if a.len() == 0 {
        seq![]
    } else {
        common_pairs(a.drop_last(), b) + pairs_with(a.last(), b)
    }
}

pub open spec fn area(m: ModeView) -> int {
    m.mode.width * m.mode.height
}

/// The pair with the greatest area, the last of them where there are more.
pub open spec fn largest_pair(s: Seq<(ModeView, ModeView)>) -> Option<(ModeView, ModeView)>
    decreases s.len(),
{
    if s.len() == 0 {
        None
    } else {
        match largest_pair(s.drop_last()) {
            Some(p) => if area(s.last().0) < area(p.0) {
                Some(p)
            } else {
                Some(s.last())
            },
            None => Some(s.last()),
        }
    }
}

/// Whether the areas of the first modes of the pairs fit into 32 bits.
pub open spec fn small_areas(pairs: Seq<(ModeView, ModeView)>) -> bool {
    forall|i: int| 0 <= i < pairs.len() ==> area((#[trigger] pairs[i]).0) <= u32::MAX
}

/// Whether the areas of the modes that could be mirrored fit into 32 bits, where there are several
/// to choose from.
pub open spec fn mirror_areas_fit(
    monitors: Seq<MonitorView>,
    output: Seq<char>,
    target: Seq<char>,
) -> bool {
    match (
        first_item(monitors, at_connector(output)),
        first_item(monitors, at_connector(target)),
    ) {
        (Some(a), Some(b)) => common_pairs(a.modes, b.modes).len() > 1 ==> small_areas(
            common_pairs(a.modes, b.modes),
        ),
        _ => true,
    }
}

/// Whether a primary logical monitor shows one of the two outputs.
pub open spec fn is_primary(logicals: Seq<LogicalView>, a: Seq<char>, b: Seq<char>) -> bool {
    exists|i: int|
        0 <= i < logicals.len() && (#[trigger] logicals[i]).primary && (shows(logicals[i], a)
            || shows(logicals[i], b))
}

/// The layout with two outputs that show the same, at the origin, in the largest of their common
/// modes. They are primary together if either of them was.
pub open spec fn mirror_set(
    monitors: Seq<MonitorView>,
    logicals: Seq<LogicalView>,
    output: Seq<char>,
    target: Seq<char>,
) -> Result<Seq<LogicalView>, LayoutFault> {
    match (
        first_item(monitors, at_connector(output)),
        first_item(monitors, at_connector(target)),
    ) {
        (None, _) => Err(LayoutFault::OutputNotFound),
        (Some(_), None) => Err(LayoutFault::TargetNotFound),
        (Some(a), Some(b)) => match largest_pair(common_pairs(a.modes, b.modes)) {
            None => Err(LayoutFault::NoCommonMode),
            Some(p) => Ok(
                removed(logicals, output, target).push(
                    LogicalView {
                        x: 0,
                        y: 0,
                        scale: float::double(float::ONE_DOUBLE),
                        transform: 0,
                        primary: is_primary(logicals, output, target),
                        props: Map::empty(),
                        monitors: seq![plain_entry(a, p.0.id), plain_entry(b, p.1.id)],
                    },
                ),
            ),
        },
    }
}

fn find_fitting(modes: &Vec<MonitorMode>, mode: DisplayMode) -> (r: Option<usize>)
    ensures
        r is Some == first(seen(modes@), fitting(mode)) is Some,
        r matches Some(i) ==> i < modes@.len() && first(seen(modes@), fitting(mode)) == Some(
            i as int,
        ),
{
    let ghost p = fitting(mode);
    let ghost s = seen(modes@);
    let mut i: usize = 0;
    while i < modes.len()
        invariant
            i <= modes@.len(),
            s == seen(modes@),
            p == fitting(mode),
            search::first_from(s, p, 0) == search::first_from(s, p, i as int),
        decreases modes.len() - i,
    {
        assert(s[i as int] == modes@[i as int]@);
        if mode_matches(mode, modes[i].mode) {
            return Some(i);
        }
        i = i + 1;
    }
    None
}

fn change_mode(entries: &mut Vec<MonitorEntry>, connector: &str, id: &str)
    ensures
        seen(final(entries)@) == with_mode(seen(old(entries)@), connector@, id@),
{
    let ghost given = seen(entries@);
    let ghost wanted = with_mode(given, connector@, id@);
    let mut k: usize = 0;
    while k < entries.len()
        invariant
            k <= entries@.len(),
            entries@.len() == given.len(),
            wanted == with_mode(given, connector@, id@),
            forall|j: int| 0 <= j < k ==> (#[trigger] entries@[j])@ == wanted[j],
            forall|j: int| k <= j < given.len() ==> (#[trigger] entries@[j])@ == given[j],
        decreases entries.len() - k,
    {
        assert(entries@[k as int]@ == given[k as int]);
        if text::same_str(entries[k].spec.connector.as_str(), connector) {
            entries[k].mode_id = String::from_str(id);
        }
        assert(entries@[k as int]@ =~= wanted[k as int]);
        k = k + 1;
    }
    assert(seen(entries@) =~= wanted);
}

impl GnomeBackend {
    /// The layout with another mode on an output.
    pub fn set_mode(
        monitors: &Vec<MonitorInfo>,
        logicals: Vec<LogicalMonitorInfo>,
        output: &str,
        mode: DisplayMode,
    ) -> (r: Result<Vec<LogicalMonitorInfo>, LayoutError>)
        ensures
            is_result(r, mode_set(seen(monitors@), seen(logicals@), output@, mode)),
    {
        let mut logicals = logicals;
        let ghost given = seen(logicals@);
        let m = match find_connector(monitors, output) {
            Some(m) => m,
            None => return Err(LayoutError::OutputNotFound),
        };
        assert(seen(monitors@)[m as int] == monitors@[m as int]@);
        let k = match find_fitting(&monitors[m].modes, mode) {
            Some(k) => k,
            None => return Err(LayoutError::ModeUnavailable),
        };
        let i = match find_output_logical(&logicals, output) {
            Some(i) => i,
            None => return Err(LayoutError::Disabled),
        };
        assert(given[i as int] == logicals@[i as int]@);
        change_mode(&mut logicals[i].monitors, output, monitors[m].modes[k].id.as_str());
        assert(seen(logicals@) =~= given.update(
            i as int,
            LogicalView {
                monitors: with_mode(
                    given[i as int].monitors,
                    output@,
                    seen(monitors@[m as int].modes@)[k as int].id,
                ),
                ..given[i as int]
            },
        ));
        Ok(logicals)
    }
}

fn listed_scales_of(m: &MonitorMode) -> (r: Vec<Double>)
    ensures
        r@ == listed_scales(m@),
{
    if m.supported_scales.len() == 0 {
        let one = vec![m.preferred_scale];
        assert(one@ =~= seq![m.preferred_scale]);
        positive_scales(&one)
    } else {
        copied_scales(&m.supported_scales)
    }
}

impl GnomeBackend {
    /// The layout with another scale on an output.
    pub fn set_scale(
        monitors: &Vec<MonitorInfo>,
        logicals: Vec<LogicalMonitorInfo>,
        output: &str,
        scale: Double,
    ) -> (r: Result<Vec<LogicalMonitorInfo>, LayoutError>)
        ensures
            is_result(r, scale_set(seen(monitors@), seen(logicals@), output@, scale)),
    {
        let mut logicals = logicals;
        let ghost given = seen(logicals@);
        let ghost ms = seen(monitors@);
        let i = match find_output_logical(&logicals, output) {
            Some(i) => i,
            None => return Err(LayoutError::Disabled),
        };
        assert(given[i as int] == logicals@[i as int]@);
        let ghost es = given[i as int].monitors;
        let mut found: Option<Vec<Double>> = None;
        let mut width: u32 = 0;
        let mut height: u32 = 0;
        let mut k: usize = 0;
        while k < logicals[i].monitors.len()
            invariant
                i < logicals@.len(),
                k <= es.len(),
                given == seen(logicals@),
                es == seen(logicals@[i as int].monitors@),
                ms == seen(monitors@),
                entry_scales(ms, es.take(k as int)) == match found {
                    Some(v) => Some(v@),
                    None => None,
                },
                entry_size(ms, es.take(k as int)) == (width, height),
            decreases es.len() - k,
        {
            proof {
                assert(es.take(k + 1).drop_last() == es.take(k as int));
                assert(es.take(k + 1).last() == logicals@[i as int].monitors@[k as int]@);
            }
            if let Some(m) = find_entry_mode(monitors, &logicals[i].monitors[k]) {
                width = m.mode.width;
                height = m.mode.height;
                let scales = listed_scales_of(m);
                found =
                match found {
                    None => Some(scales),
                    Some(prev) => Some(approx_intersection(&prev, &scales)),
                };
            }
            k = k + 1;
        }
        assert(es.take(es.len() as int) == es);
        if let Some(scales) = found {
            if scales.len() > 0 && !approx_contains(&scales, scale) {
                return Err(LayoutError::UnsupportedScale { width, height, scales });
            }
        }
        logicals[i].scale = scale;
        assert(seen(logicals@) =~= given.update(i as int, LogicalView { scale, ..given[i as int] }));
        Ok(logicals)
    }
}

fn keep_others(entries: &mut Vec<MonitorEntry>, a: &str, b: &str)
    ensures
        seen(final(entries)@) == others(seen(old(entries)@), a@, b@),
{
    let ghost given = seen(entries@);
    let ghost mut done: int = 0;
    let mut k: usize = 0;
    while k < entries.len()
        invariant
            k <= entries@.len(),
            0 <= done <= given.len(),
            entries@.len() - k == given.len() - done,
            k == others(given.take(done), a@, b@).len(),
            seen(entries@) == others(given.take(done), a@, b@) + given.skip(done),
        decreases entries.len() - k,
    {
        let ghost before = seen(entries@);
        let ghost kept = others(given.take(done), a@, b@);
        proof {
            assert(before[k as int] == given[done]);
            assert(before[k as int] == entries@[k as int]@);
            assert(given.take(done + 1).drop_last() == given.take(done));
            assert(given.take(done + 1).last() == given[done]);
        }
        if text::same_str(entries[k].spec.connector.as_str(), a) || text::same_str(
            entries[k].spec.connector.as_str(),
            b,
        ) {
            entries.remove(k);
            assert(seen(entries@) =~= before.remove(k as int));
            assert(before.remove(k as int) =~= kept + given.skip(done + 1));
        } else {
            k = k + 1;
            assert(before =~= kept.push(given[done]) + given.skip(done + 1));
        }
        proof {
            done = done + 1;
        }
    }
    assert(given.take(given.len() as int) == given);
    assert(seen(entries@) =~= others(given, a@, b@));
}

fn remove_outputs(logicals: &mut Vec<LogicalMonitorInfo>, a: &str, b: &str)
    ensures
        seen(final(logicals)@) == removed(seen(old(logicals)@), a@, b@),
{
    let ghost given = seen(logicals@);
    let ghost mut done: int = 0;
    let mut k: usize = 0;
    while k < logicals.len()
        invariant
            k <= logicals@.len(),
            0 <= done <= given.len(),
            logicals@.len() - k == given.len() - done,
            k == removed(given.take(done), a@, b@).len(),
            seen(logicals@) == removed(given.take(done), a@, b@) + given.skip(done),
        decreases logicals.len() - k,
    {
        let ghost before = seen(logicals@);
        let ghost kept = removed(given.take(done), a@, b@);
        proof {
            assert(before[k as int] == given[done]);
            assert(before[k as int] == logicals@[k as int]@);
            assert(given.take(done + 1).drop_last() == given.take(done));
            assert(given.take(done + 1).last() == given[done]);
        }
        keep_others(&mut logicals[k].monitors, a, b);
        let ghost rest = others(given[done].monitors, a@, b@);
        let ghost now = LogicalView { monitors: rest, ..given[done] };
        assert(logicals@[k as int]@ =~= now);
        assert(seen(logicals@) =~= before.update(k as int, now));
        if logicals[k].monitors.len() == 0 {
            logicals.remove(k);
            assert(seen(logicals@) =~= before.remove(k as int));
            assert(before.remove(k as int) =~= kept + given.skip(done + 1));
        } else {
            k = k + 1;
            assert(seen(logicals@) =~= kept.push(now) + given.skip(done + 1));
        }
        proof {
            done = done + 1;
        }
    }
    assert(given.take(given.len() as int) == given);
    assert(seen(logicals@) =~= removed(given, a@, b@));
}

fn saturate(n: i64) -> (r: i32)
    ensures
        r == saturated(n as int),
{
    if n > i32::MAX as i64 {
        i32::MAX
    } else if n < i32::MIN as i64 {
        i32::MIN
    } else {
        n as i32
    }
}

fn size_of(monitors: &Vec<MonitorInfo>, l: &LogicalMonitorInfo) -> (r: (i32, i32))
    ensures
        r == logical_size(seen(monitors@), l@),
{
    if l.monitors.len() == 0 {
        return (0, 0);
    }
    match find_entry_mode(monitors, &l.monitors[0]) {
        Some(m) => (
            #[verifier::truncate]
            (m.mode.width as i32),
            #[verifier::truncate]
            (m.mode.height as i32),
        ),
        None => (0, 0),
    }
}

fn right_end_of(monitors: &Vec<MonitorInfo>, logicals: &Vec<LogicalMonitorInfo>) -> (r: i32)
    ensures
        r == right_end(seen(monitors@), seen(logicals@)),
{
    let ghost ms = seen(monitors@);
    let ghost ls = seen(logicals@);
    let mut x: i32 = 0;
    let mut i: usize = 0;
    while i < logicals.len()
        invariant
            i <= logicals@.len(),
            ms == seen(monitors@),
            ls == seen(logicals@),
            x == right_end(ms, ls.take(i as int)),
        decreases logicals.len() - i,
    {
        let (width, _) = size_of(monitors, &logicals[i]);
        let end = saturate(logicals[i].x as i64 + width as i64);
        if end > x {
            x = end;
        }
        i = i + 1;
        assert(ls.take(i as int).drop_last() == ls.take(i - 1));
        assert(ls.take(i as int).last() == logicals@[i - 1]@);
    }
    assert(ls.take(ls.len() as int) == ls);
    x
}

fn find_mode_to_enable(modes: &Vec<MonitorMode>) -> (r: Option<usize>)
    ensures
        r is Some == mode_to_enable(seen(modes@)) is Some,
        r matches Some(i) ==> i < modes@.len() && mode_to_enable(seen(modes@)) == Some(
            modes@[i as int]@,
        ),
{
    if let Some(i) = find_preferred(modes) {
        return Some(i);
    }
    if let Some(i) = find_current(modes) {
        return Some(i);
    }
    if modes.len() > 0 {
        Some(0)
    } else {
        None
    }
}

fn entry_of(m: &MonitorInfo, mode_id: &str) -> (r: MonitorEntry)
    ensures
        r@ == plain_entry(m@, mode_id@),
{
    MonitorEntry { spec: m.spec.copied(), mode_id: String::from_str(mode_id), props: ByName::new() }
}

impl GnomeBackend {
    /// The layout with an output enabled or disabled; `None` where it is so already.
    pub fn set_enabled(
        monitors: &Vec<MonitorInfo>,
        logicals: Vec<LogicalMonitorInfo>,
        output: &str,
        enabled: bool,
    ) -> (r: Result<Option<Vec<LogicalMonitorInfo>>, LayoutError>)
        ensures
            match enabled_set(seen(monitors@), seen(logicals@), output@, enabled) {
                Ok(Some(ls)) => r matches Ok(Some(v)) && seen(v@) == ls,
                Ok(None) => r matches Ok(None),
                Err(e) => r matches Err(f) && f@ == e,
            },
    {
        let mut logicals = logicals;
        let ghost given = seen(logicals@);
        let m = match find_connector(monitors, output) {
            Some(m) => m,
            None => return Err(LayoutError::OutputNotFound),
        };
        assert(seen(monitors@)[m as int] == monitors@[m as int]@);
        let shown = find_output_logical(&logicals, output).is_some();
        if enabled == shown {
            return Ok(None);
        }
        if !enabled {
            remove_outputs(&mut logicals, output, output);
            return Ok(Some(logicals));
        }
        let k = match find_mode_to_enable(&monitors[m].modes) {
            Some(k) => k,
            None => return Err(LayoutError::NoModes),
        };
        let x = right_end_of(monitors, &logicals);
        let primary = logicals.len() == 0;
        let entry = entry_of(&monitors[m], monitors[m].modes[k].id.as_str());
        let entries = vec![entry];
        assert(seen(entries@) =~= seq![entry@]);
        let l = LogicalMonitorInfo {
            x,
            y: 0,
            scale: Double { bits: float::ONE_DOUBLE },
            transform: 0,
            primary,
            props: ByName::new(),
            monitors: entries,
        };
        logicals.push(l);
        assert(seen(logicals@) =~= given.push(l@));
        Ok(Some(logicals))
    }
}

impl GnomeBackend {
    /// The layout with an output at another position.
    pub fn set_position(logicals: Vec<LogicalMonitorInfo>, output: &str, x: i32, y: i32) -> (r: Result<
        Vec<LogicalMonitorInfo>,
        LayoutError,
    >)
        ensures
            is_result(r, position_set(seen(logicals@), output@, x, y)),
    {
        let mut logicals = logicals;
        let ghost given = seen(logicals@);
        let i = match find_output_logical(&logicals, output) {
            Some(i) => i,
            None => return Err(LayoutError::Disabled),
        };
        logicals[i].x = x;
        logicals[i].y = y;
        assert(seen(logicals@) =~= given.update(i as int, LogicalView { x, y, ..given[i as int] }));
        Ok(logicals)
    }
}

impl GnomeBackend {
    /// The layout with an output next to another one.
    pub fn set_position_relative(
        monitors: &Vec<MonitorInfo>,
        logicals: Vec<LogicalMonitorInfo>,
        output: &str,
        direction: &RelativePosition,
    ) -> (r: Result<Vec<LogicalMonitorInfo>, LayoutError>)
        ensures
            is_result(
                r,
                relative_set(
                    seen(monitors@),
                    seen(logicals@),
                    output@,
                    direction.side(),
                    direction.target(),
                ),
            ),
    {
        let mut logicals = logicals;
        let ghost given = seen(logicals@);
        let i = match find_output_logical(&logicals, output) {
            Some(i) => i,
            None => return Err(LayoutError::Disabled),
        };
        let relative_to = match direction {
            RelativePosition::LeftOf(s) => s,
            RelativePosition::RightOf(s) => s,
            RelativePosition::Above(s) => s,
            RelativePosition::Below(s) => s,
        };
        let k = match find_output_logical(&logicals, relative_to.as_str()) {
            Some(k) => k,
            None => return Err(LayoutError::TargetDisabled),
        };
        assert(given[i as int] == logicals@[i as int]@);
        assert(given[k as int] == logicals@[k as int]@);
        let size = size_of(monitors, &logicals[i]);
        let rel_size = size_of(monitors, &logicals[k]);
        let rel_x = logicals[k].x;
        let rel_y = logicals[k].y;
        let (x, y) = match direction {
            RelativePosition::LeftOf(_) => (saturate(rel_x as i64 - size.0 as i64), rel_y),
            RelativePosition::RightOf(_) => (saturate(rel_x as i64 + rel_size.0 as i64), rel_y),
            RelativePosition::Above(_) => (rel_x, saturate(rel_y as i64 - size.1 as i64)),
            RelativePosition::Below(_) => (rel_x, saturate(rel_y as i64 + rel_size.1 as i64)),
        };
        logicals[i].x = x;
        logicals[i].y = y;
        assert(seen(logicals@) =~= given.update(i as int, LogicalView { x, y, ..given[i as int] }));
        Ok(logicals)
    }
}

impl GnomeBackend {
    /// The layout with an output turned.
    pub fn set_transform(logicals: Vec<LogicalMonitorInfo>, output: &str, transform: &str) -> (r: Result<
        Vec<LogicalMonitorInfo>,
        LayoutError,
    >)
        ensures
            is_result(r, transform_set(seen(logicals@), output@, transform@)),
    {
        let mut logicals = logicals;
        let ghost given = seen(logicals@);
        let i = match find_output_logical(&logicals, output) {
            Some(i) => i,
            None => return Err(LayoutError::Disabled),
        };
        match transform_to_mutter(transform) {
            Some(t) => {
                logicals[i].transform = t;
                assert(seen(logicals@) =~= given.update(
                    i as int,
                    LogicalView { transform: t, ..given[i as int] },
                ));
                Ok(logicals)
            },
            None => Err(LayoutError::UnsupportedTransform),
        }
    }
}

fn mirrors_mode(a: DisplayMode, b: DisplayMode) -> (r: bool)
    ensures
        r == mirrors(a, b),
{
    a.width == b.width && a.height == b.height && match (a.refresh_hz, b.refresh_hz) {
        (Some(x), Some(y)) => x.closer(y, crate::float::Single { bits: float::HALF }),
        (None, None) => true,
        _ => false,
    }
}

fn area_of(m: DisplayMode) -> (r: u64)
    ensures
        r == m.width * m.height,
{
    assert(0 <= m.width * m.height <= 0xffff_ffff * 0xffff_ffff) by (nonlinear_arith)
        requires
            0 <= m.width <= 0xffff_ffff,
            0 <= m.height <= 0xffff_ffff,
    ;
    m.width as u64 * m.height as u64
}

/// Whether the areas of the modes that two monitors have in common fit into 32 bits, where there
/// are several.
fn areas_fit(a: &Vec<MonitorMode>, b: &Vec<MonitorMode>) -> (r: bool)
    ensures
        r == (common_pairs(seen(a@), seen(b@)).len() > 1 ==> small_areas(
            common_pairs(seen(a@), seen(b@)),
        )),
{
    let ghost x = seen(a@);
    let ghost y = seen(b@);
    let mut any = false;
    let mut several = false;
    let mut small = true;
    let mut i: usize = 0;
    while i < a.len()
        invariant
            i <= a@.len(),
            x == seen(a@),
            y == seen(b@),
            any == (common_pairs(x.take(i as int), y).len() > 0),
            several == (common_pairs(x.take(i as int), y).len() > 1),
            small == small_areas(common_pairs(x.take(i as int), y)),
        decreases a.len() - i,
    {
        let ghost before = common_pairs(x.take(i as int), y);
        let ghost m = x[i as int];
        let mut j: usize = 0;
        assert(before + pairs_with(m, y.take(0)) =~= before);
        while j < b.len()
            invariant
                i < a@.len(),
                j <= b@.len(),
                x == seen(a@),
                y == seen(b@),
                m == x[i as int],
                any == ((before + pairs_with(m, y.take(j as int))).len() > 0),
                several == ((before + pairs_with(m, y.take(j as int))).len() > 1),
                small == small_areas(before + pairs_with(m, y.take(j as int))),
            decreases b.len() - j,
        {
            let ghost now = before + pairs_with(m, y.take(j as int));
            let ghost next = before + pairs_with(m, y.take(j + 1));
            proof {
                assert(y.take(j + 1).drop_last() == y.take(j as int));
                assert(y.take(j + 1).last() == b@[j as int]@);
            }
            if mirrors_mode(a[i].mode, b[j].mode) {
                proof {
                    assert(next =~= now.push((m, y[j as int])));
                    assert(m == a@[i as int]@);
                    assert(area(m) == a@[i as int].mode.width * a@[i as int].mode.height);
                    lemma_small_areas(now, (m, y[j as int]));
                }
                several = any;
                any = true;
                small = small && area_of(a[i].mode) <= u32::MAX as u64;
            }
            j = j + 1;
        }
        proof {
            assert(y.take(y.len() as int) == y);
            assert(x.take(i + 1).drop_last() == x.take(i as int));
            assert(x.take(i + 1).last() == m);
        }
        i = i + 1;
    }
    assert(x.take(x.len() as int) == x);
    !several || small
}

proof fn lemma_small_areas(s: Seq<(ModeView, ModeView)>, p: (ModeView, ModeView))
    ensures
        small_areas(s.push(p)) == (small_areas(s) && area(p.0) <= u32::MAX),
{
    if small_areas(s.push(p)) {
        assert forall|i: int| 0 <= i < s.len() implies area((#[trigger] s[i]).0) <= u32::MAX by {
            assert(s.push(p)[i] == s[i]);
        }
        assert(s.push(p)[s.len() as int] == p);
    }
}

/// Whether the areas of the modes in which an output could be mirrored fit.
pub fn can_mirror(monitors: &Vec<MonitorInfo>, output: &str, target: &str) -> (r: bool)
    ensures
        r == mirror_areas_fit(seen(monitors@), output@, target@),
{
    match (find_connector(monitors, output), find_connector(monitors, target)) {
        (Some(a), Some(b)) => {
            assert(seen(monitors@)[a as int] == monitors@[a as int]@);
            assert(seen(monitors@)[b as int] == monitors@[b as int]@);
            areas_fit(&monitors[a].modes, &monitors[b].modes)
        },
        _ => true,
    }
}

/// The places of the two modes in which two monitors are mirrored.
fn find_largest_pair(a: &Vec<MonitorMode>, b: &Vec<MonitorMode>) -> (r: Option<(usize, usize)>)
    ensures
        r is Some == largest_pair(common_pairs(seen(a@), seen(b@))) is Some,
        r matches Some(p) ==> p.0 < a@.len() && p.1 < b@.len() && largest_pair(
            common_pairs(seen(a@), seen(b@)),
        ) == Some((a@[p.0 as int]@, b@[p.1 as int]@)),
{
    let ghost x = seen(a@);
    let ghost y = seen(b@);
    let mut best: Option<(usize, usize)> = None;
    let mut i: usize = 0;
    while i < a.len()
        invariant
            i <= a@.len(),
            x == seen(a@),
            y == seen(b@),
            best is Some == largest_pair(common_pairs(x.take(i as int), y)) is Some,
            best matches Some(p) ==> p.0 < a@.len() && p.1 < b@.len() && largest_pair(
                common_pairs(x.take(i as int), y),
            ) == Some((a@[p.0 as int]@, b@[p.1 as int]@)),
        decreases a.len() - i,
    {
        let ghost before = common_pairs(x.take(i as int), y);
        let ghost m = x[i as int];
        let mut j: usize = 0;
        assert(before + pairs_with(m, y.take(0)) =~= before);
        while j < b.len()
            invariant
                i < a@.len(),
                j <= b@.len(),
                x == seen(a@),
                y == seen(b@),
                m == x[i as int],
                before == common_pairs(x.take(i as int), y),
                best is Some == largest_pair(before + pairs_with(m, y.take(j as int))) is Some,
                best matches Some(p) ==> p.0 < a@.len() && p.1 < b@.len() && largest_pair(
                    before + pairs_with(m, y.take(j as int)),
                ) == Some((a@[p.0 as int]@, b@[p.1 as int]@)),
            decreases b.len() - j,
        {
            let ghost now = before + pairs_with(m, y.take(j as int));
            let ghost next = before + pairs_with(m, y.take(j + 1));
            proof {
                assert(y.take(j + 1).drop_last() == y.take(j as int));
                assert(y.take(j + 1).last() == b@[j as int]@);
            }
            if mirrors_mode(a[i].mode, b[j].mode) {
                proof {
                    assert(next =~= now.push((m, y[j as int])));
                    assert(next.drop_last() =~= now);
                    assert(m == a@[i as int]@);
                }
                match best {
                    Some((p, _)) => {
                        let mine = area_of(a[i].mode);
                        let other = area_of(a[p].mode);
                        if mine >= other {
                            best = Some((i, j));
                        }
                    },
                    None => {
                        best = Some((i, j));
                    },
                }
            } else {
                assert(next =~= now);
            }
            j = j + 1;
        }
        proof {
            assert(y.take(y.len() as int) == y);
            assert(x.take(i + 1).drop_last() == x.take(i as int));
            assert(x.take(i + 1).last() == m);
        }
        i = i + 1;
    }
    assert(x.take(x.len() as int) == x);
    best
}

/// Whether a primary logical monitor shows one of the two outputs.
fn has_primary(logicals: &Vec<LogicalMonitorInfo>, a: &str, b: &str) -> (r: bool)
    ensures
        r == is_primary(seen(logicals@), a@, b@),
{
    let ghost ls = seen(logicals@);
    let mut i: usize = 0;
    while i < logicals.len()
        invariant
            i <= logicals@.len(),
            ls == seen(logicals@),
            forall|k: int|
                0 <= k < i ==> !((#[trigger] ls[k]).primary && (shows(ls[k], a@) || shows(
                    ls[k],
                    b@,
                ))),
        decreases logicals.len() - i,
    {
        let l = &logicals[i];
        assert(ls[i as int] == l@);
        if l.primary && (find_entry(&l.monitors, a).is_some() || find_entry(
            &l.monitors,
            b,
        ).is_some()) {
            return true;
        }
        i = i + 1;
    }
    false
}

impl GnomeBackend {
    /// The layout with two outputs that show the same.
    pub fn set_mirror(
        monitors: &Vec<MonitorInfo>,
        logicals: Vec<LogicalMonitorInfo>,
        output: &str,
        target: &str,
    ) -> (r: Result<Vec<LogicalMonitorInfo>, LayoutError>)
        requires
            mirror_areas_fit(seen(monitors@), output@, target@),
        ensures
            is_result(r, mirror_set(seen(monitors@), seen(logicals@), output@, target@)),
    {
        let mut logicals = logicals;
        let a = match find_connector(monitors, output) {
            Some(a) => a,
            None => return Err(LayoutError::OutputNotFound),
        };
        let b = match find_connector(monitors, target) {
            Some(b) => b,
            None => return Err(LayoutError::TargetNotFound),
        };
        assert(seen(monitors@)[a as int] == monitors@[a as int]@);
        assert(seen(monitors@)[b as int] == monitors@[b as int]@);
        let (i, j) = match find_largest_pair(&monitors[a].modes, &monitors[b].modes) {
            Some(p) => p,
            None => return Err(LayoutError::NoCommonMode),
        };
        let primary = has_primary(&logicals, output, target);
        remove_outputs(&mut logicals, output, target);
        let ghost rest = seen(logicals@);
        let first_entry = entry_of(&monitors[a], monitors[a].modes[i].id.as_str());
        let second_entry = entry_of(&monitors[b], monitors[b].modes[j].id.as_str());
        let entries = vec![first_entry, second_entry];
        assert(seen(entries@) =~= seq![first_entry@, second_entry@]);
        let l = LogicalMonitorInfo {
            x: 0,
            y: 0,
            scale: Double { bits: float::ONE_DOUBLE },
            transform: 0,
            primary,
            props: ByName::new(),
            monitors: entries,
        };
        logicals.push(l);
        assert(seen(logicals@) =~= rest.push(l@));
        Ok(logicals)
    }
}

proof fn lemma_others(entries: Seq<EntryView>, a: Seq<char>, b: Seq<char>, k: int)
    requires
        0 <= k < others(entries, a, b).len(),
    ensures
        !either(others(entries, a, b)[k].spec.connector, a, b),
    decreases entries.len(),
{
    if k < others(entries.drop_last(), a, b).len() {
        lemma_others(entries.drop_last(), a, b, k);
    }
}

proof fn lemma_not_among_others(entries: Seq<EntryView>, a: Seq<char>, b: Seq<char>, c: Seq<char>)
    requires
        either(c, a, b),
    ensures
        first(others(entries, a, b), entry_at(c)) is None,
{
    let rest = others(entries, a, b);
    search::lemma_first_from(rest, entry_at(c), 0);
    if let Some(k) = first(rest, entry_at(c)) {
        lemma_others(entries, a, b, k);
    }
}

/// Whether no logical monitor is without a monitor.
pub open spec fn none_empty(logicals: Seq<LogicalView>) -> bool {
    forall|i: int| 0 <= i < logicals.len() ==> (#[trigger] logicals[i]).monitors.len() > 0
}

proof fn lemma_removed(logicals: Seq<LogicalView>, a: Seq<char>, b: Seq<char>, c: Seq<char>)
    requires
        either(c, a, b),
    ensures
        none_empty(removed(logicals, a, b)),
        first(removed(logicals, a, b), shows_on(c)) is None,
    decreases logicals.len(),
{
    let r = removed(logicals, a, b);
    if logicals.len() > 0 {
        lemma_removed(logicals.drop_last(), a, b, c);
        lemma_not_among_others(logicals.last().monitors, a, b, c);
        let before = removed(logicals.drop_last(), a, b);
        search::lemma_first_from(before, shows_on(c), 0);
        search::lemma_first_from(r, shows_on(c), 0);
        if let Some(k) = first(r, shows_on(c)) {
            if k < before.len() {
                assert(r[k] == before[k]);
            }
        }
    }
}

/// An output that is disabled is shown nowhere any more, and no logical monitor is left without
/// a monitor.
pub proof fn disabled_output_is_shown_nowhere(
    monitors: Seq<MonitorView>,
    logicals: Seq<LogicalView>,
    output: Seq<char>,
)
    ensures
        enabled_set(monitors, logicals, output, false) matches Ok(Some(ls)) ==> none_empty(ls)
            && first(ls, shows_on(output)) is None,
        enabled_set(monitors, logicals, output, false) matches Ok(None) ==> first(
            logicals,
            shows_on(output),
        ) is None,
{
    lemma_removed(logicals, output, output, output);
}

/// An output that is enabled is shown by a logical monitor of its own, which comes after all
/// others and starts no further left than any of them ends; the others stay as they are.
pub proof fn enabled_output_is_shown(
    monitors: Seq<MonitorView>,
    logicals: Seq<LogicalView>,
    output: Seq<char>,
    k: int,
)
    requires
        0 <= k < logicals.len(),
    ensures
        enabled_set(monitors, logicals, output, true) matches Ok(Some(ls)) ==> {
            &&& ls.drop_last() == logicals
            &&& shows(ls.last(), output)
            &&& ls.last().monitors.len() == 1
            &&& first(ls, shows_on(output)) == Some(ls.len() - 1)
            &&& saturated(logicals[k].x + logical_size(monitors, logicals[k]).0) <= ls.last().x
        },
{
    if let Ok(Some(ls)) = enabled_set(monitors, logicals, output, true) {
        search::lemma_first_from(monitors, at_connector(output), 0);
        assert(ls.drop_last() =~= logicals);
        let e = ls.last().monitors;
        assert(e[0].spec.connector == output);
        assert(entry_at(output)(e[0]));
        assert(search::first_from(e, entry_at(output), 0) == Some(0int));
        search::lemma_first_from(logicals, shows_on(output), 0);
        search::lemma_first_from(ls, shows_on(output), 0);
        assert(shows_on(output)(ls[ls.len() - 1]));
        if let Some(j) = first(ls, shows_on(output)) {
            if j < logicals.len() {
                assert(ls[j] == logicals[j]);
            }
        }
        lemma_right_end(monitors, logicals, k);
    }
}

proof fn lemma_right_end(monitors: Seq<MonitorView>, logicals: Seq<LogicalView>, k: int)
    requires
        0 <= k < logicals.len(),
    ensures
        saturated(logicals[k].x + logical_size(monitors, logicals[k]).0) <= right_end(
            monitors,
            logicals,
        ),
    decreases logicals.len(),
{
    if k < logicals.len() - 1 {
        lemma_right_end(monitors, logicals.drop_last(), k);
    }
}

proof fn lemma_others_of_none(entries: Seq<EntryView>, c: Seq<char>)
    requires
        forall|i: int| 0 <= i < entries.len() ==> (#[trigger] entries[i]).spec.connector != c,
    ensures
        others(entries, c, c) == entries,
    decreases entries.len(),
{
    if entries.len() > 0 {
        let d = entries.drop_last();
        assert forall|i: int| 0 <= i < d.len() implies (#[trigger] d[i]).spec.connector != c by {
            assert(d[i] == entries[i]);
        }
        lemma_others_of_none(d, c);
        assert(entries[entries.len() - 1].spec.connector != c);
        assert(d.push(entries.last()) =~= entries);
    } else {
        assert(entries =~= seq![]);
    }
}

proof fn lemma_removed_of_none(logicals: Seq<LogicalView>, c: Seq<char>)
    requires
        none_empty(logicals),
        first(logicals, shows_on(c)) is None,
    ensures
        removed(logicals, c, c) == logicals,
    decreases logicals.len(),
{
    if logicals.len() > 0 {
        let d = logicals.drop_last();
        let l = logicals.last();
        search::lemma_first_from(logicals, shows_on(c), 0);
        search::lemma_first_from(d, shows_on(c), 0);
        if let Some(k) = first(d, shows_on(c)) {
            assert(d[k] == logicals[k]);
            assert(!shows_on(c)(logicals[k]));
        }
        assert(none_empty(d)) by {
            assert forall|i: int| 0 <= i < d.len() implies (#[trigger] d[i]).monitors.len()
                > 0 by {
                assert(d[i] == logicals[i]);
            }
        }
        lemma_removed_of_none(d, c);
        assert(!shows_on(c)(logicals[logicals.len() - 1]));
        assert(!shows(l, c));
        search::lemma_first_from(l.monitors, entry_at(c), 0);
        assert forall|i: int| 0 <= i < l.monitors.len() implies (
        #[trigger] l.monitors[i]).spec.connector != c by {
            assert(!entry_at(c)(l.monitors[i]));
        }
        lemma_others_of_none(l.monitors, c);
        assert(logicals[logicals.len() - 1].monitors.len() > 0);
        assert(LogicalView { monitors: l.monitors, ..l } == l);
        assert(d.push(l) =~= logicals);
    } else {
        assert(logicals =~= seq![]);
    }
}

/// Disabling an output that was just enabled gives back the layout from before.
pub proof fn disabling_undoes_enabling(
    monitors: Seq<MonitorView>,
    logicals: Seq<LogicalView>,
    output: Seq<char>,
)
    requires
        none_empty(logicals),
    ensures
        enabled_set(monitors, logicals, output, true) matches Ok(Some(ls)) ==> enabled_set(
            monitors,
            ls,
            output,
            false,
        ) == Ok::<Option<Seq<LogicalView>>, LayoutFault>(Some(logicals)),
{
    if let Ok(Some(ls)) = enabled_set(monitors, logicals, output, true) {
        search::lemma_first_from(monitors, at_connector(output), 0);
        let e = ls.last().monitors;
        assert(e[0].spec.connector == output);
        assert(entry_at(output)(e[0]));
        assert(search::first_from(e, entry_at(output), 0) == Some(0int));
        search::lemma_first_from(ls, shows_on(output), 0);
        assert(shows_on(output)(ls[ls.len() - 1]));
        assert(first(ls, shows_on(output)) is Some);
        lemma_removed_of_none(logicals, output);
        assert(ls.drop_last() =~= logicals);
        assert(e.drop_last() =~= seq![]);
        assert(others(e.drop_last(), output, output).len() == 0);
        assert(others(e, output, output) =~= seq![]);
    }
}

/// Whether two layouts differ in one logical monitor alone, the first one that shows on the
/// output, and that one still shows on the same connectors.
pub open spec fn differ_at(
    logicals: Seq<LogicalView>,
    after: Seq<LogicalView>,
    output: Seq<char>,
) -> bool {
    first(logicals, shows_on(output)) matches Some(i) && {
        &&& after.len() == logicals.len()
        &&& forall|k: int|
            0 <= k < logicals.len() && k != i ==> #[trigger] after[k] == logicals[k]
        &&& after[i].monitors.len() == logicals[i].monitors.len()
        &&& forall|k: int|
            0 <= k < logicals[i].monitors.len() ==> (#[trigger] after[i].monitors[k]).spec
                == logicals[i].monitors[k].spec
    }
}

/// A change of mode, scale, position or transform concerns the logical monitor of the output
/// alone.
pub proof fn changes_concern_the_output_alone(
    monitors: Seq<MonitorView>,
    logicals: Seq<LogicalView>,
    output: Seq<char>,
    mode: DisplayMode,
    scale: Double,
    x: i32,
    y: i32,
    side: Side,
    relative_to: Seq<char>,
    transform: Seq<char>,
)
    ensures
        mode_set(monitors, logicals, output, mode) matches Ok(ls) ==> differ_at(
            logicals,
            ls,
            output,
        ),
        scale_set(monitors, logicals, output, scale) matches Ok(ls) ==> differ_at(
            logicals,
            ls,
            output,
        ),
        position_set(logicals, output, x, y) matches Ok(ls) ==> differ_at(logicals, ls, output),
        relative_set(monitors, logicals, output, side, relative_to) matches Ok(ls) ==> differ_at(
            logicals,
            ls,
            output,
        ),
        transform_set(logicals, output, transform) matches Ok(ls) ==> differ_at(
            logicals,
            ls,
            output,
        ),
{
    search::lemma_first_from(logicals, shows_on(output), 0);
}

/// Two outputs that are mirrored are shown together by the last logical monitor, at the origin,
/// and by no other; no logical monitor is left without a monitor.
pub proof fn mirrored_outputs_are_shown_together(
    monitors: Seq<MonitorView>,
    logicals: Seq<LogicalView>,
    output: Seq<char>,
    target: Seq<char>,
)
    ensures
        mirror_set(monitors, logicals, output, target) matches Ok(ls) ==> {
            &&& none_empty(ls)
            &&& first(ls, shows_on(output)) == Some(ls.len() - 1)
            &&& first(ls, shows_on(target)) == Some(ls.len() - 1)
            &&& ls.last().x == 0
            &&& ls.last().y == 0
            &&& ls.last().primary == is_primary(logicals, output, target)
        },
{
    if let Ok(ls) = mirror_set(monitors, logicals, output, target) {
        search::lemma_first_from(monitors, at_connector(output), 0);
        search::lemma_first_from(monitors, at_connector(target), 0);
        let e = ls.last().monitors;
        let rest = removed(logicals, output, target);
        assert(ls.drop_last() =~= rest);
        assert(e[0].spec.connector == output);
        assert(e[1].spec.connector == target);
        search::lemma_first_from(e, entry_at(output), 0);
        search::lemma_first_from(e, entry_at(target), 0);
        assert(entry_at(output)(e[0]));
        assert(entry_at(target)(e[1]));
        lemma_removed(logicals, output, target, output);
        lemma_removed(logicals, output, target, target);
        lemma_shown_last(ls, output);
        lemma_shown_last(ls, target);
        assert(none_empty(ls)) by {
            assert forall|i: int| 0 <= i < ls.len() implies (#[trigger] ls[i]).monitors.len()
                > 0 by {
                if i < rest.len() {
                    assert(ls[i] == rest[i]);
                }
            }
        }
    }
}

proof fn lemma_shown_last(ls: Seq<LogicalView>, c: Seq<char>)
    requires
        ls.len() > 0,
        first(ls.drop_last(), shows_on(c)) is None,
        shows(ls.last(), c),
    ensures
        first(ls, shows_on(c)) == Some(ls.len() - 1),
{
    let d = ls.drop_last();
    search::lemma_first_from(d, shows_on(c), 0);
    search::lemma_first_from(ls, shows_on(c), 0);
    assert(shows_on(c)(ls[ls.len() - 1]));
    if let Some(k) = first(ls, shows_on(c)) {
        if k < d.len() {
            assert(d[k] == ls[k]);
            assert(!shows_on(c)(d[k]));
        }
    }
}

/// How many logical monitors are primary.
pub open spec fn primaries(logicals: Seq<LogicalView>) -> nat
    decreases logicals.len(),
{
    if logicals.len() == 0 {
        0
    } else {
        primaries(logicals.drop_last()) + if logicals.last().primary {
            1nat
        } else {
            0
        }
    }
}

/// Whether a logical monitor shows on no other connectors than the two.
pub open spec fn shows_only(l: LogicalView, a: Seq<char>, b: Seq<char>) -> bool {
    forall|k: int|
        0 <= k < l.monitors.len() ==> either((#[trigger] l.monitors[k]).spec.connector, a, b)
}

pub(crate) proof fn lemma_all_others(entries: Seq<EntryView>, a: Seq<char>, b: Seq<char>)
    requires
        first(entries, entry_at(a)) is None,
        first(entries, entry_at(b)) is None,
    ensures
        others(entries, a, b) == entries,
    decreases entries.len(),
{
    if entries.len() > 0 {
        search::lemma_first_from(entries, entry_at(a), 0);
        search::lemma_first_from(entries, entry_at(b), 0);
        let rest = entries.drop_last();
        search::lemma_first_from(rest, entry_at(a), 0);
        search::lemma_first_from(rest, entry_at(b), 0);
        assert(forall|k: int| 0 <= k < entries.len() ==> !entry_at(a)(#[trigger] entries[k]));
        assert(forall|k: int| 0 <= k < entries.len() ==> !entry_at(b)(#[trigger] entries[k]));
        if let Some(k) = first(rest, entry_at(a)) {
            assert(rest[k] == entries[k]);
        }
        if let Some(k) = first(rest, entry_at(b)) {
            assert(rest[k] == entries[k]);
        }
        lemma_all_others(rest, a, b);
        assert(!entry_at(a)(entries[entries.len() - 1]));
        assert(!entry_at(b)(entries[entries.len() - 1]));
        assert(rest.push(entries.last()) =~= entries);
    }
}

proof fn lemma_no_others(entries: Seq<EntryView>, a: Seq<char>, b: Seq<char>)
    requires
        forall|k: int|
            0 <= k < entries.len() ==> either((#[trigger] entries[k]).spec.connector, a, b),
    ensures
        others(entries, a, b).len() == 0,
    decreases entries.len(),
{
    if entries.len() > 0 {
        assert forall|k: int| 0 <= k < entries.drop_last().len() implies either(
            (#[trigger] entries.drop_last()[k]).spec.connector,
            a,
            b,
        ) by {
            assert(entries.drop_last()[k] == entries[k]);
        }
        lemma_no_others(entries.drop_last(), a, b);
        assert(entries.last() == entries[entries.len() - 1]);
    }
}

/// Removing two outputs leaves the primary logical monitors that show neither, and drops those
/// that show nothing else.
proof fn lemma_primaries(logicals: Seq<LogicalView>, a: Seq<char>, b: Seq<char>)
    requires
        none_empty(logicals),
        forall|i: int|
            0 <= i < logicals.len() && (#[trigger] logicals[i]).primary && (shows(logicals[i], a)
                || shows(logicals[i], b)) ==> shows_only(logicals[i], a, b),
        primaries(logicals) <= 1,
    ensures
        primaries(removed(logicals, a, b)) == if is_primary(logicals, a, b) {
            0
        } else {
            primaries(logicals)
        },
        is_primary(logicals, a, b) ==> primaries(logicals) == 1,
    decreases logicals.len(),
{
    if logicals.len() > 0 {
        let rest = logicals.drop_last();
        let l = logicals.last();
        assert(l == logicals[logicals.len() - 1]);
        assert forall|i: int| 0 <= i < rest.len() implies (#[trigger] rest[i]) == logicals[i] by {}
        lemma_primaries(rest, a, b);
        if is_primary(rest, a, b) {
            let i = choose|i: int|
                0 <= i < rest.len() && (#[trigger] rest[i]).primary && (shows(rest[i], a) || shows(
                    rest[i],
                    b,
                ));
            assert(logicals[i] == rest[i]);
            assert(is_primary(logicals, a, b));
        }
        if l.primary && (shows(l, a) || shows(l, b)) {
            lemma_no_others(l.monitors, a, b);
            assert(is_primary(logicals, a, b));
        } else if is_primary(logicals, a, b) {
            let i = choose|i: int|
                0 <= i < logicals.len() && (#[trigger] logicals[i]).primary && (shows(
                    logicals[i],
                    a,
                ) || shows(logicals[i], b));
            assert(rest[i] == logicals[i]);
            assert(is_primary(rest, a, b));
        }
        if l.primary && !shows(l, a) && !shows(l, b) {
            lemma_all_others(l.monitors, a, b);
        }
        let before = removed(rest, a, b);
        let kept = LogicalView { monitors: others(l.monitors, a, b), ..l };
        assert(before.push(kept).drop_last() =~= before);
    }
}

/// A layout with one primary logical monitor has one after mirroring too: the mirrored pair if
/// one of its outputs was primary, else the same as before. This is so where the primary logical
/// monitor does not show one of the two beside a third.
pub proof fn mirroring_keeps_one_primary(
    monitors: Seq<MonitorView>,
    logicals: Seq<LogicalView>,
    output: Seq<char>,
    target: Seq<char>,
)
    requires
        none_empty(logicals),
        primaries(logicals) == 1,
        forall|i: int|
            0 <= i < logicals.len() && (#[trigger] logicals[i]).primary && (shows(
                logicals[i],
                output,
            ) || shows(logicals[i], target)) ==> shows_only(logicals[i], output, target),
    ensures
        mirror_set(monitors, logicals, output, target) matches Ok(ls) ==> primaries(ls) == 1,
{
    lemma_primaries(logicals, output, target);
    if let Ok(ls) = mirror_set(monitors, logicals, output, target) {
        assert(ls.drop_last() =~= removed(logicals, output, target));
    }
}

} // verus!
