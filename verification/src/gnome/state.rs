//! The state that Mutter reports, and what is kept of it.
use vstd::prelude::*;

use crate::by_name::ByName;
use crate::float;
use crate::float::{Double, Single};
use crate::gnome::dbus;
use crate::gnome::dbus::{DbusEntry, DbusValue, DecodeError};
use crate::gnome::monitors;
use crate::gnome::monitors::{
    EntryView, LogicalMonitorInfo, LogicalView, ModeView, MonitorEntry, MonitorInfo, MonitorMode,
    MonitorSpec, MonitorView, Props, SpecView,
};
use crate::models::DisplayMode;
use crate::search;
use crate::search::seen;

pub mod laws;

verus! {

/// A mode in the reported state.
#[derive(Debug)]
pub struct MutterMonitorModeState {
    pub id: String,
    pub width: i32,
    pub height: i32,
    pub refresh: Double,
    pub preferred_scale: Double,
    pub supported_scales: Vec<Double>,
    pub props: Vec<DbusEntry>,
}

/// A monitor in the reported state.
#[derive(Debug)]
pub struct MutterMonitorState {
    pub spec: MonitorSpec,
    pub modes: Vec<MutterMonitorModeState>,
}

/// A logical monitor in the reported state.
#[derive(Debug)]
pub struct MutterLogicalMonitorState {
    pub x: i32,
    pub y: i32,
    pub scale: Double,
    pub transform: u32,
    pub primary: bool,
    pub monitors: Vec<MonitorSpec>,
    pub props: Props,
}

/// A length on the screen, which is reported with a sign.
pub open spec fn length(n: i32) -> u32 {
    if n < 0 {
        0
    } else {
        n as u32
    }
}

/// A refresh rate, which counts where it is positive.
pub open spec fn rate(hz: Double) -> Option<Single> {
    if float::less_double(float::double(float::ZERO_DOUBLE), hz) {
        Some(float::narrowed(hz))
    } else {
        None
    }
}

/// Whether a property is there and true.
pub open spec fn flag(props: Seq<DbusEntry>, name: Seq<char>) -> bool {
    dbus::entry_value(props, name) == Some(DbusValue::Bool(true))
}

pub open spec fn mode_state(m: MutterMonitorModeState) -> ModeView {
    ModeView {
        id: m.id@,
        mode: DisplayMode {
            width: length(m.width),
            height: length(m.height),
            refresh_hz: rate(m.refresh),
        },
        preferred: flag(m.props@, "is-preferred"@),
        current: flag(m.props@, "is-current"@),
        preferred_scale: m.preferred_scale,
        supported_scales: m.supported_scales@,
    }
}

pub open spec fn monitor_state(m: MutterMonitorState) -> MonitorView {
    MonitorView {
        spec: m.spec@,
        modes: Seq::new(m.modes@.len(), |i: int| mode_state(m.modes@[i])),
    }
}

pub open spec fn monitor_states(s: Seq<MutterMonitorState>) -> Seq<MonitorView> {
    Seq::new(s.len(), |i: int| monitor_state(s[i]))
}

/// The mode that a monitor is taken to be in: the current one, else the preferred one, else the
/// first.
pub open spec fn picked_mode(modes: Seq<ModeView>) -> Option<Seq<char>> {
    if search::first(modes, monitors::is_current()) is Some {
        Some(search::first_item(modes, monitors::is_current())->Some_0.id)
    } else if search::first(modes, monitors::is_preferred()) is Some {
        Some(search::first_item(modes, monitors::is_preferred())->Some_0.id)
    } else if modes.len() > 0 {
        Some(modes[0].id)
    } else {
        None
    }
}

/// The entry for a monitor, in the mode that the monitor is taken to be in.
pub open spec fn entry_state(ms: Seq<MonitorView>, s: SpecView) -> EntryView {
    EntryView {
        spec: s,
        mode_id: match search::first_item(ms, monitors::with_spec(s)) {
            Some(m) => match picked_mode(m.modes) {
                Some(id) => id,
                None => seq![],
            },
            None => seq![],
        },
        props: Map::empty(),
    }
}

pub open spec fn logical_state(ms: Seq<MonitorView>, l: MutterLogicalMonitorState) -> LogicalView {
    LogicalView {
        x: l.x,
        y: l.y,
        scale: l.scale,
        transform: l.transform,
        primary: l.primary,
        props: l.props@,
        monitors: Seq::new(l.monitors@.len(), |i: int| entry_state(ms, l.monitors@[i]@)),
    }
}

pub open spec fn logical_states(
    ms: Seq<MonitorView>,
    s: Seq<MutterLogicalMonitorState>,
) -> Seq<LogicalView> {
    Seq::new(s.len(), |i: int| logical_state(ms, s[i]))
}

fn length_of(n: i32) -> (r: u32)
    ensures
        r == length(n),
{
    if n < 0 {
        0
    } else {
        n as u32
    }
}

fn rate_of(hz: Double) -> (r: Option<Single>)
    ensures
        r == rate(hz),
{
    if hz.is_positive() {
        Some(hz.narrowed())
    } else {
        None
    }
}

fn has_flag(props: &Vec<DbusEntry>, name: &str) -> (r: bool)
    ensures
        r == flag(props@, name@),
{
    match dbus::lookup(props, name) {
        Some(DbusValue::Bool(b)) => *b,
        _ => false,
    }
}

fn mode_of(m: &MutterMonitorModeState) -> (r: MonitorMode)
    ensures
        r@ == mode_state(*m),
{
    MonitorMode {
        id: m.id.clone(),
        mode: DisplayMode {
            width: length_of(m.width),
            height: length_of(m.height),
            refresh_hz: rate_of(m.refresh),
        },
        preferred: has_flag(&m.props, "is-preferred"),
        current: has_flag(&m.props, "is-current"),
        preferred_scale: m.preferred_scale,
        supported_scales: monitors::copied_scales(&m.supported_scales),
    }
}

fn monitor_of(m: &MutterMonitorState) -> (r: MonitorInfo)
    ensures
        r@ == monitor_state(*m),
{
    let mut modes: Vec<MonitorMode> = Vec::new();
    let mut i: usize = 0;
    while i < m.modes.len()
        invariant
            i <= m.modes@.len(),
            modes@.len() == i,
            forall|k: int| 0 <= k < i ==> (#[trigger] modes@[k])@ == mode_state(m.modes@[k]),
        decreases m.modes.len() - i,
    {
        let mode = mode_of(&m.modes[i]);
        modes.push(mode);
        i = i + 1;
    }
    let r = MonitorInfo { spec: m.spec.copied(), modes };
    assert(r@ =~= monitor_state(*m));
    r
}

/// The identifier of the mode that a monitor is taken to be in.
pub fn pick_mode_id(modes: &Vec<MonitorMode>) -> (r: Option<String>)
    ensures
        match picked_mode(seen(modes@)) {
            Some(id) => r matches Some(s) && s@ == id,
            None => r is None,
        },
{
    if let Some(i) = monitors::find_current(modes) {
        return Some(modes[i].id.clone());
    }
    if let Some(i) = monitors::find_preferred(modes) {
        return Some(modes[i].id.clone());
    }
    if modes.len() > 0 {
        Some(modes[0].id.clone())
    } else {
        None
    }
}

fn entry_of(ms: &Vec<MonitorInfo>, s: &MonitorSpec) -> (r: MonitorEntry)
    ensures
        r@ == entry_state(seen(ms@), s@),
{
    let picked = match monitors::find_spec(ms, s) {
        Some(i) => {
            assert(seen(ms@)[i as int] == ms@[i as int]@);
            pick_mode_id(&ms[i].modes)
        },
        None => None,
    };
    let mode_id = match picked {
        Some(id) => id,
        None => String::new(),
    };
    let r = MonitorEntry { spec: s.copied(), mode_id, props: ByName::new() };
    assert(r@ =~= entry_state(seen(ms@), s@));
    r
}

fn logical_of(ms: &Vec<MonitorInfo>, l: &MutterLogicalMonitorState) -> (r: LogicalMonitorInfo)
    ensures
        r@ == logical_state(seen(ms@), *l),
{
    let mut entries: Vec<MonitorEntry> = Vec::new();
    let mut i: usize = 0;
    while i < l.monitors.len()
        invariant
            i <= l.monitors@.len(),
            entries@.len() == i,
            forall|k: int|
                0 <= k < i ==> (#[trigger] entries@[k])@ == entry_state(
                    seen(ms@),
                    l.monitors@[k]@,
                ),
        decreases l.monitors.len() - i,
    {
        let e = entry_of(ms, &l.monitors[i]);
        entries.push(e);
        i = i + 1;
    }
    let r = LogicalMonitorInfo {
        x: l.x,
        y: l.y,
        scale: l.scale,
        transform: l.transform,
        primary: l.primary,
        props: l.props.copied(),
        monitors: entries,
    };
    assert(r@ =~= logical_state(seen(ms@), *l));
    r
}

/// The monitors and the logical monitors of a reported state.
pub fn load_state(
    monitors_raw: &Vec<MutterMonitorState>,
    logicals_raw: &Vec<MutterLogicalMonitorState>,
) -> (r: (Vec<MonitorInfo>, Vec<LogicalMonitorInfo>))
    ensures
        seen(r.0@) == monitor_states(monitors_raw@),
        seen(r.1@) == logical_states(monitor_states(monitors_raw@), logicals_raw@),
{
    let mut ms: Vec<MonitorInfo> = Vec::new();
    let mut i: usize = 0;
    while i < monitors_raw.len()
        invariant
            i <= monitors_raw@.len(),
            ms@.len() == i,
            forall|k: int| 0 <= k < i ==> (#[trigger] ms@[k])@ == monitor_state(monitors_raw@[k]),
        decreases monitors_raw.len() - i,
    {
        let m = monitor_of(&monitors_raw[i]);
        ms.push(m);
        i = i + 1;
    }
    assert(seen(ms@) =~= monitor_states(monitors_raw@));
    let mut ls: Vec<LogicalMonitorInfo> = Vec::new();
    let mut j: usize = 0;
    while j < logicals_raw.len()
        invariant
            j <= logicals_raw@.len(),
            ls@.len() == j,
            forall|k: int|
                0 <= k < j ==> (#[trigger] ls@[k])@ == logical_state(seen(ms@), logicals_raw@[k]),
        decreases logicals_raw.len() - j,
    {
        let l = logical_of(&ms, &logicals_raw[j]);
        ls.push(l);
        j = j + 1;
    }
    assert(seen(ls@) =~= logical_states(seen(ms@), logicals_raw@));
    (ms, ls)
}

/// The fields of a structure.
pub open spec fn fields(v: DbusValue) -> Result<Seq<DbusValue>, DecodeError> {
    match v {
        DbusValue::Struct(s) => Ok(s@),
        _ => Err(DecodeError::ExpectedStruct),
    }
}

/// The items of an array.
pub open spec fn items(v: DbusValue) -> Result<Seq<DbusValue>, DecodeError> {
    match v {
        DbusValue::Array(s) => Ok(s@),
        _ => Err(DecodeError::ExpectedArray),
    }
}

pub open spec fn text_of(v: DbusValue) -> Result<Seq<char>, DecodeError> {
    match v {
        DbusValue::Text(s) => Ok(s@),
        _ => Err(DecodeError::ExpectedText),
    }
}

/// The identity of a monitor as a structure of four texts, which are read in turn.
pub open spec fn decoded_spec(v: DbusValue) -> Result<SpecView, DecodeError> {
    match fields(v) {
        Err(e) => Err(e),
        Ok(f) => if f.len() < 4 {
            Err(DecodeError::SpecFormat)
        } else {
            match (text_of(f[0]), text_of(f[1]), text_of(f[2]), text_of(f[3])) {
                (Ok(connector), Ok(vendor), Ok(product), Ok(serial)) => Ok(
                    SpecView { connector, vendor, product, serial },
                ),
                _ => Err(DecodeError::ExpectedText),
            }
        },
    }
}

/// A mode as a structure: identifier, width, height, rate, and whether it is preferred and
/// current. Nothing is said of its scales.
pub open spec fn decoded_mode(v: DbusValue) -> Result<ModeView, DecodeError> {
    match fields(v) {
        Err(e) => Err(e),
        Ok(f) => if f.len() < 6 {
            Err(DecodeError::ModeFormat)
        } else {
            match (f[0], f[1], f[2], f[3], f[4], f[5]) {
                (
                    DbusValue::Text(id),
                    DbusValue::I32(width),
                    DbusValue::I32(height),
                    DbusValue::F64(refresh),
                    DbusValue::Bool(preferred),
                    DbusValue::Bool(current),
                ) => Ok(
                    ModeView {
                        id: id@,
                        mode: DisplayMode {
                            width: length(width),
                            height: length(height),
                            refresh_hz: rate(refresh),
                        },
                        preferred,
                        current,
                        preferred_scale: float::double(float::ONE_DOUBLE),
                        supported_scales: seq![],
                    },
                ),
                _ => if !(f[0] is Text) {
                    Err(DecodeError::ExpectedText)
                } else if !(f[1] is I32) || !(f[2] is I32) {
                    Err(DecodeError::ExpectedI32)
                } else if !(f[3] is F64) {
                    Err(DecodeError::ExpectedF64)
                } else {
                    Err(DecodeError::ExpectedBool)
                },
            }
        },
    }
}

/// The modes of a list, as far as they can be read.
pub open spec fn decoded_modes(s: Seq<DbusValue>) -> Seq<ModeView>
    decreases s.len(),
{
    if s.len() == 0 {
        seq![]
    } else {
        match decoded_mode(s.last()) {
            Ok(m) => decoded_modes(s.drop_last()).push(m),
            Err(_) => decoded_modes(s.drop_last()),
        }
    }
}

/// A monitor as a structure: identity, modes, and properties.
pub open spec fn decoded_monitor(v: DbusValue) -> Result<MonitorView, DecodeError> {
    match fields(v) {
        Err(e) => Err(e),
        Ok(f) => if f.len() < 3 {
            Err(DecodeError::MonitorFormat)
        } else {
            match (decoded_spec(f[0]), items(f[1])) {
                (Err(e), _) => Err(e),
                (Ok(_), Err(e)) => Err(e),
                (Ok(spec), Ok(modes)) => Ok(MonitorView { spec, modes: decoded_modes(modes) }),
            }
        },
    }
}

/// The properties in a dictionary; none where it is no dictionary.
pub open spec fn decoded_props(v: DbusValue) -> Map<Seq<char>, u64> {
    match v {
        DbusValue::Dict(s) => dbus::carried(s@),
        _ => Map::empty(),
    }
}

/// The monitors of a logical monitor: identity, mode and properties of each. What has fewer
/// than three fields is passed over; the first one that cannot be read otherwise is an error.
pub open spec fn decoded_entries(s: Seq<DbusValue>) -> Result<Seq<EntryView>, DecodeError>
    decreases s.len(),
{
    if s.len() == 0 {
        Ok(seq![])
    } else {
        match decoded_entries(s.drop_last()) {
            Err(e) => Err(e),
            Ok(before) => match fields(s.last()) {
                Err(e) => Err(e),
                Ok(f) => if f.len() < 3 {
                    Ok(before)
                } else {
                    match (decoded_spec(f[0]), text_of(f[1])) {
                        (Err(e), _) => Err(e),
                        (Ok(_), Err(e)) => Err(e),
                        (Ok(spec), Ok(mode_id)) => Ok(
                            before.push(EntryView { spec, mode_id, props: decoded_props(f[2]) }),
                        ),
                    }
                },
            },
        }
    }
}

/// A logical monitor as a structure: position, scale, transform, whether it is the primary one,
/// and its monitors.
pub open spec fn decoded_logical(v: DbusValue) -> Result<LogicalView, DecodeError> {
    match fields(v) {
        Err(e) => Err(e),
        Ok(f) => if f.len() < 6 {
            Err(DecodeError::LogicalFormat)
        } else {
            match (f[0], f[1], f[2], f[3], f[4]) {
                (
                    DbusValue::I32(x),
                    DbusValue::I32(y),
                    DbusValue::F64(scale),
                    DbusValue::U32(transform),
                    DbusValue::Bool(primary),
                ) => match items(f[5]) {
                    Err(e) => Err(e),
                    Ok(list) => match decoded_entries(list) {
                        Err(e) => Err(e),
                        Ok(monitors) => Ok(
                            LogicalView {
                                x,
                                y,
                                scale,
                                transform,
                                primary,
                                props: Map::empty(),
                                monitors,
                            },
                        ),
                    },
                },
                _ => if !(f[0] is I32) || !(f[1] is I32) {
                    Err(DecodeError::ExpectedI32)
                } else if !(f[2] is F64) {
                    Err(DecodeError::ExpectedF64)
                } else if !(f[3] is U32) {
                    Err(DecodeError::ExpectedU32)
                } else {
                    Err(DecodeError::ExpectedBool)
                },
            }
        },
    }
}

/// The identity of a monitor.
pub fn parse_monitor_spec(v: &DbusValue) -> (r: Result<MonitorSpec, DecodeError>)
    ensures
        match decoded_spec(*v) {
            Ok(s) => r matches Ok(m) && m@ == s,
            Err(e) => r matches Err(f) && f == e,
        },
{
    let f = match v.fields() {
        Ok(f) => f,
        Err(e) => return Err(e),
    };
    if f.len() < 4 {
        return Err(DecodeError::SpecFormat);
    }
    match (f[0].to_text(), f[1].to_text(), f[2].to_text(), f[3].to_text()) {
        (Ok(connector), Ok(vendor), Ok(product), Ok(serial)) => Ok(
            MonitorSpec { connector, vendor, product, serial },
        ),
        _ => Err(DecodeError::ExpectedText),
    }
}

/// A mode of a monitor.
pub fn parse_monitor_mode(v: &DbusValue) -> (r: Result<MonitorMode, DecodeError>)
    ensures
        match decoded_mode(*v) {
            Ok(s) => r matches Ok(m) && m@ == s,
            Err(e) => r matches Err(f) && f == e,
        },
{
    let f = match v.fields() {
        Ok(f) => f,
        Err(e) => return Err(e),
    };
    if f.len() < 6 {
        return Err(DecodeError::ModeFormat);
    }
    let id = match f[0].to_text() {
        Ok(s) => s,
        Err(e) => return Err(e),
    };
    let width = match f[1].to_i32() {
        Ok(n) => length_of(n),
        Err(e) => return Err(e),
    };
    let height = match f[2].to_i32() {
        Ok(n) => length_of(n),
        Err(e) => return Err(e),
    };
    let refresh_hz = match f[3].to_double() {
        Ok(x) => rate_of(x),
        Err(e) => return Err(e),
    };
    let preferred = match f[4].to_bool() {
        Ok(b) => b,
        Err(e) => return Err(e),
    };
    let current = match f[5].to_bool() {
        Ok(b) => b,
        Err(e) => return Err(e),
    };
    let r = MonitorMode {
        id,
        mode: DisplayMode { width, height, refresh_hz },
        preferred,
        current,
        preferred_scale: Double { bits: float::ONE_DOUBLE },
        supported_scales: Vec::new(),
    };
    assert(r@.supported_scales =~= seq![]);
    Ok(r)
}

/// A monitor with its modes.
pub fn parse_monitor(v: &DbusValue) -> (r: Result<MonitorInfo, DecodeError>)
    ensures
        match decoded_monitor(*v) {
            Ok(s) => r matches Ok(m) && m@ == s,
            Err(e) => r matches Err(f) && f == e,
        },
{
    let f = match v.fields() {
        Ok(f) => f,
        Err(e) => return Err(e),
    };
    if f.len() < 3 {
        return Err(DecodeError::MonitorFormat);
    }
    let spec = match parse_monitor_spec(&f[0]) {
        Ok(s) => s,
        Err(e) => return Err(e),
    };
    let list = match f[1].items() {
        Ok(l) => l,
        Err(e) => return Err(e),
    };
    let mut modes: Vec<MonitorMode> = Vec::new();
    let mut i: usize = 0;
    assert(seen(modes@) =~= decoded_modes(list@.take(0)));
    while i < list.len()
        invariant
            i <= list@.len(),
            seen(modes@) == decoded_modes(list@.take(i as int)),
        decreases list.len() - i,
    {
        let ghost before = modes@;
        assert(list@.take(i + 1).drop_last() == list@.take(i as int));
        if let Ok(m) = parse_monitor_mode(&list[i]) {
            modes.push(m);
            assert(seen(modes@) =~= seen(before).push(m@));
        }
        i = i + 1;
    }
    assert(list@.take(list@.len() as int) == list@);
    Ok(MonitorInfo { spec, modes })
}

fn parse_entries(list: &Vec<DbusValue>) -> (r: Result<Vec<MonitorEntry>, DecodeError>)
    ensures
        match decoded_entries(list@) {
            Ok(s) => r matches Ok(v) && seen(v@) == s,
            Err(e) => r matches Err(f) && f == e,
        },
{
    let mut out: Vec<MonitorEntry> = Vec::new();
    let mut i: usize = 0;
    assert(seen(out@) =~= seq![]);
    while i < list.len()
        invariant
            i <= list@.len(),
            decoded_entries(list@.take(i as int)) == Ok::<Seq<EntryView>, DecodeError>(seen(out@)),
        decreases list.len() - i,
    {
        let ghost before = out@;
        proof {
            assert(list@.take(i + 1).drop_last() == list@.take(i as int));
            lemma_entries_error(list@, i + 1);
        }
        let f = match list[i].fields() {
            Ok(f) => f,
            Err(e) => return Err(e),
        };
        if f.len() >= 3 {
            let spec = match parse_monitor_spec(&f[0]) {
                Ok(s) => s,
                Err(e) => return Err(e),
            };
            let mode_id = match f[1].to_text() {
                Ok(s) => s,
                Err(e) => return Err(e),
            };
            let props = match f[2].entries() {
                Ok(d) => dbus::props_of(d),
                Err(_) => ByName::new(),
            };
            let e = MonitorEntry { spec, mode_id, props };
            out.push(e);
            assert(seen(out@) =~= seen(before).push(e@));
        }
        i = i + 1;
    }
    assert(list@.take(list@.len() as int) == list@);
    Ok(out)
}

proof fn lemma_entries_error(s: Seq<DbusValue>, k: int)
    requires
        0 <= k <= s.len(),
    ensures
        decoded_entries(s.take(k)) matches Err(e) ==> decoded_entries(s) == Err::<
            Seq<EntryView>,
            DecodeError,
        >(e),
    decreases s.len(),
{
    if k < s.len() {
        assert(s.drop_last().take(k) == s.take(k));
        lemma_entries_error(s.drop_last(), k);
    } else {
        assert(s.take(k) == s);
    }
}

/// A logical monitor with its monitors.
pub fn parse_logical_monitor(v: &DbusValue) -> (r: Result<LogicalMonitorInfo, DecodeError>)
    ensures
        match decoded_logical(*v) {
            Ok(s) => r matches Ok(m) && m@ == s,
            Err(e) => r matches Err(f) && f == e,
        },
{
    let f = match v.fields() {
        Ok(f) => f,
        Err(e) => return Err(e),
    };
    if f.len() < 6 {
        return Err(DecodeError::LogicalFormat);
    }
    let x = match f[0].to_i32() {
        Ok(n) => n,
        Err(e) => return Err(e),
    };
    let y = match f[1].to_i32() {
        Ok(n) => n,
        Err(e) => return Err(e),
    };
    let scale = match f[2].to_double() {
        Ok(d) => d,
        Err(e) => return Err(e),
    };
    let transform = match f[3].to_u32() {
        Ok(n) => n,
        Err(e) => return Err(e),
    };
    let primary = match f[4].to_bool() {
        Ok(b) => b,
        Err(e) => return Err(e),
    };
    let list = match f[5].items() {
        Ok(l) => l,
        Err(e) => return Err(e),
    };
    match parse_entries(list) {
        Ok(entries) => Ok(
            LogicalMonitorInfo {
                x,
                y,
                scale,
                transform,
                primary,
                props: ByName::new(),
                monitors: entries,
            },
        ),
        Err(e) => Err(e),
    }
}

/// The mode that an entry of the loaded state names is one that its monitor offers, where the
/// monitor is known and offers any.
pub proof fn loaded_entries_name_known_modes(
    raw: Seq<MutterMonitorState>,
    logicals: Seq<MutterLogicalMonitorState>,
    i: int,
    k: int,
)
    requires
        0 <= i < logicals.len(),
        0 <= k < logicals[i].monitors@.len(),
    ensures
        ({
            let ms = monitor_states(raw);
            let e = logical_states(ms, logicals)[i].monitors[k];
            search::first_item(ms, monitors::with_spec(e.spec)) matches Some(m) && m.modes.len() > 0
                ==> monitors::entry_mode(ms, e) is Some
        }),
{
    let ms = monitor_states(raw);
    let e = logical_states(ms, logicals)[i].monitors[k];
    if let Some(m) = search::first_item(ms, monitors::with_spec(e.spec)) {
        if m.modes.len() > 0 {
            let p = monitors::with_id(e.mode_id);
            search::lemma_first_from(m.modes, monitors::is_current(), 0);
            search::lemma_first_from(m.modes, monitors::is_preferred(), 0);
            search::lemma_first_from(m.modes, p, 0);
            let n = if search::first(m.modes, monitors::is_current()) is Some {
                search::first(m.modes, monitors::is_current())->Some_0
            } else if search::first(m.modes, monitors::is_preferred()) is Some {
                search::first(m.modes, monitors::is_preferred())->Some_0
            } else {
                0
            };
            assert(p(m.modes[n]));
        }
    }
}

} // verus!
