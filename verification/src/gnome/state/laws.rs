//! What holds of every state that Mutter reports.
use vstd::prelude::*;

use crate::float;
use crate::float::Double;
use crate::gnome::dbus;
use crate::gnome::dbus::{DbusValue, DecodeError};
use crate::gnome::monitors;
use crate::gnome::monitors::{EntryView, ModeView, MonitorView, SpecView};
use crate::gnome::state::{
    decoded_entries, decoded_logical, decoded_mode, decoded_modes, decoded_monitor, decoded_props,
    decoded_spec, flag, length, logical_state, mode_state, monitor_state, picked_mode, rate,
    MutterLogicalMonitorState, MutterMonitorModeState, MutterMonitorState,
};
use crate::search;

verus! {

/// A length that is not negative stays, and a rate counts exactly where it is positive.
pub proof fn sizes_and_rates_are_taken_over(n: i32, hz: Double)
    ensures
        n >= 0 ==> length(n) == n,
        n < 0 ==> length(n) == 0,
        float::less_double(float::double(0), hz) ==> rate(hz) == Some(float::narrowed(hz)),
        !float::less_double(float::double(0), hz) ==> rate(hz) is None,
{
}

/// A mode is loaded with its size, rate and scales; it is the preferred or the current one exactly
/// where the property for that is true.
pub proof fn modes_are_loaded(m: MutterMonitorModeState)
    ensures
        ({
            let v = mode_state(m);
            &&& v.id == m.id@
            &&& m.width >= 0 ==> v.mode.width == m.width
            &&& m.height >= 0 ==> v.mode.height == m.height
            &&& v.mode.refresh_hz == rate(m.refresh)
            &&& v.preferred <==> dbus::entry_value(m.props@, "is-preferred"@) == Some(
                DbusValue::Bool(true),
            )
            &&& v.current <==> dbus::entry_value(m.props@, "is-current"@) == Some(DbusValue::Bool(true))
            &&& v.preferred_scale == m.preferred_scale
            &&& v.supported_scales == m.supported_scales@
        }),
        flag(Seq::empty(), m.id@) == false,
{
}

/// A monitor is loaded with its identity and all its modes, in their order.
pub proof fn monitors_are_loaded(m: MutterMonitorState, k: int)
    requires
        0 <= k < m.modes@.len(),
    ensures
        monitor_state(m).spec == m.spec@,
        monitor_state(m).modes.len() == m.modes@.len(),
        monitor_state(m).modes[k] == mode_state(m.modes@[k]),
{
}

/// A monitor is taken to be in its first current mode, or else in its first preferred one, or else
/// in its first.
pub proof fn current_mode_is_picked(modes: Seq<ModeView>, k: int)
    requires
        0 <= k < modes.len(),
    ensures
        modes[k].current && (forall|i: int| 0 <= i < k ==> !(#[trigger] modes[i]).current)
            ==> picked_mode(modes) == Some(modes[k].id),
        modes[k].preferred && (forall|i: int| 0 <= i < modes.len() ==> !(#[trigger] modes[i]).current) && (
        forall|i: int| 0 <= i < k ==> !(#[trigger] modes[i]).preferred) ==> picked_mode(modes) == Some(
            modes[k].id,
        ),
        (forall|i: int|
            0 <= i < modes.len() ==> !(#[trigger] modes[i]).current && !modes[i].preferred)
            ==> picked_mode(modes) == Some(modes[0].id),
        picked_mode(Seq::empty()) is None,
{
    let c = monitors::is_current();
    let p = monitors::is_preferred();
    search::lemma_first_from(modes, c, 0);
    search::lemma_first_from(modes, p, 0);
    search::lemma_first_from(Seq::<ModeView>::empty(), c, 0);
    search::lemma_first_from(Seq::<ModeView>::empty(), p, 0);
    assert(modes[k].current == c(modes[k]));
    assert(modes[k].preferred == p(modes[k]));
    if let Some(i) = search::first(modes, c) {
        assert(c(modes[i]) && modes[i].current);
    }
    if let Some(i) = search::first(modes, p) {
        assert(p(modes[i]) && modes[i].preferred);
    }
}

/// A logical monitor is loaded where it is, as it is scaled and turned, with an entry for each of
/// its monitors, in the mode that the monitor is taken to be in.
pub proof fn logical_monitors_are_loaded(ms: Seq<MonitorView>, l: MutterLogicalMonitorState, k: int)
    requires
        0 <= k < l.monitors@.len(),
    ensures
        ({
            let v = logical_state(ms, l);
            &&& v.x == l.x && v.y == l.y && v.scale == l.scale && v.transform == l.transform
            &&& v.primary == l.primary && v.props == l.props@
            &&& v.monitors.len() == l.monitors@.len()
            &&& v.monitors[k].spec == l.monitors@[k]@
            &&& v.monitors[k].props == Map::<Seq<char>, u64>::empty()
            &&& search::first_item(ms, monitors::with_spec(l.monitors@[k]@)) matches Some(m) ==> (
            picked_mode(m.modes) matches Some(id) ==> v.monitors[k].mode_id == id)
            &&& search::first_item(ms, monitors::with_spec(l.monitors@[k]@)) is None
                ==> v.monitors[k].mode_id.len() == 0
        }),
{
}

/// An identity is read from its four texts: connector, vendor, product and serial number.
pub proof fn identities_are_read(
    v: DbusValue,
    connector: String,
    vendor: String,
    product: String,
    serial: String,
)
    requires
        v matches DbusValue::Struct(f) && f@.len() >= 4 && f@[0] == DbusValue::Text(connector) && f@[1]
            == DbusValue::Text(vendor) && f@[2] == DbusValue::Text(product) && f@[3] == DbusValue::Text(
            serial,
        ),
    ensures
        decoded_spec(v) == Ok::<SpecView, DecodeError>(
            SpecView {
                connector: connector@,
                vendor: vendor@,
                product: product@,
                serial: serial@,
            },
        ),
{
}

/// What is no identity is refused, with the reason.
pub proof fn other_identities_are_refused(v: DbusValue)
    ensures
        !(v is Struct) ==> decoded_spec(v) == Err::<SpecView, DecodeError>(DecodeError::ExpectedStruct),
        v matches DbusValue::Struct(f) ==> f@.len() < 4 ==> decoded_spec(v) == Err::<SpecView, DecodeError>(
            DecodeError::SpecFormat,
        ),
        v matches DbusValue::Struct(f) ==> f@.len() >= 4 && !(f@[0] is Text && f@[1] is Text
            && f@[2] is Text && f@[3] is Text) ==> decoded_spec(v) == Err::<SpecView, DecodeError>(
            DecodeError::ExpectedText,
        ),
{
}

/// A mode is read from its fields.
pub proof fn modes_are_read(
    v: DbusValue,
    id: String,
    width: i32,
    height: i32,
    refresh: Double,
    preferred: bool,
    current: bool,
)
    requires
        v matches DbusValue::Struct(f) && f@.len() >= 6 && f@[0] == DbusValue::Text(id) && f@[1]
            == DbusValue::I32(width) && f@[2] == DbusValue::I32(height) && f@[3] == DbusValue::F64(refresh)
            && f@[4] == DbusValue::Bool(preferred) && f@[5] == DbusValue::Bool(current),
    ensures
        decoded_mode(v) matches Ok(m) && {
            &&& m.id == id@
            &&& m.mode.width == length(width) && m.mode.height == length(height)
            &&& m.mode.refresh_hz == rate(refresh)
            &&& m.preferred == preferred && m.current == current
            &&& m.preferred_scale == float::double(float::ONE_DOUBLE) && m.supported_scales.len() == 0
        },
{
}

/// What is no mode is refused, for the first field that is not as it should be.
pub proof fn other_modes_are_refused(v: DbusValue)
    ensures
        !(v is Struct) ==> decoded_mode(v) == Err::<ModeView, DecodeError>(DecodeError::ExpectedStruct),
        v matches DbusValue::Struct(f) ==> {
            &&& f@.len() < 6 ==> decoded_mode(v) == Err::<ModeView, DecodeError>(DecodeError::ModeFormat)
            &&& f@.len() >= 6 ==> {
                &&& !(f@[0] is Text) ==> decoded_mode(v) == Err::<ModeView, DecodeError>(
                    DecodeError::ExpectedText,
                )
                &&& f@[0] is Text && !(f@[1] is I32 && f@[2] is I32) ==> decoded_mode(v) == Err::<
                    ModeView,
                    DecodeError,
                >(DecodeError::ExpectedI32)
                &&& f@[0] is Text && f@[1] is I32 && f@[2] is I32 && !(f@[3] is F64) ==> decoded_mode(v)
                    == Err::<ModeView, DecodeError>(DecodeError::ExpectedF64)
                &&& f@[0] is Text && f@[1] is I32 && f@[2] is I32 && f@[3] is F64 && !(f@[4] is Bool
                    && f@[5] is Bool) ==> decoded_mode(v) == Err::<ModeView, DecodeError>(
                    DecodeError::ExpectedBool,
                )
            }
        },
{
}

/// The modes that can be read are kept in their order, and the others passed over.
pub proof fn readable_modes_keep_their_order(s: Seq<DbusValue>, v: DbusValue)
    ensures
        decoded_modes(Seq::empty()).len() == 0,
        decoded_mode(v) matches Ok(m) ==> decoded_modes(s.push(v)) == decoded_modes(s).push(m),
        decoded_mode(v) is Err ==> decoded_modes(s.push(v)) == decoded_modes(s),
{
    assert(s.push(v).drop_last() =~= s);
}

/// A monitor is read from its identity and its modes.
pub proof fn monitors_are_read(v: DbusValue)
    ensures
        !(v is Struct) ==> decoded_monitor(v) == Err::<MonitorView, DecodeError>(
            DecodeError::ExpectedStruct,
        ),
        v matches DbusValue::Struct(f) ==> {
            &&& f@.len() < 3 ==> decoded_monitor(v) == Err::<MonitorView, DecodeError>(
                DecodeError::MonitorFormat,
            )
            &&& f@.len() >= 3 ==> {
                &&& decoded_spec(f@[0]) matches Err(e) ==> decoded_monitor(v) == Err::<
                    MonitorView,
                    DecodeError,
                >(e)
                &&& decoded_spec(f@[0]) is Ok && !(f@[1] is Array) ==> decoded_monitor(v) == Err::<
                    MonitorView,
                    DecodeError,
                >(DecodeError::ExpectedArray)
                &&& decoded_spec(f@[0]) matches Ok(spec) ==> (f@[1] matches DbusValue::Array(list) ==> (
                decoded_monitor(v) matches Ok(m) && m.spec == spec && m.modes == decoded_modes(list@)))
            }
        },
{
}

/// The entries of a logical monitor are read in their order: each by its identity, its mode and
/// its properties. What is too short is passed over, and the first error ends the reading.
pub proof fn entries_are_read_in_order(
    s: Seq<DbusValue>,
    v: DbusValue,
    before: Seq<EntryView>,
)
    requires
        decoded_entries(s) == Ok::<Seq<EntryView>, DecodeError>(before),
    ensures
        decoded_entries(Seq::empty()) == Ok::<Seq<EntryView>, DecodeError>(Seq::empty()),
        !(v is Struct) ==> decoded_entries(s.push(v)) == Err::<Seq<EntryView>, DecodeError>(
            DecodeError::ExpectedStruct,
        ),
        v matches DbusValue::Struct(f) ==> {
            &&& f@.len() < 3 ==> decoded_entries(s.push(v)) == decoded_entries(s)
            &&& f@.len() >= 3 ==> (decoded_spec(f@[0]) matches Err(e) ==> decoded_entries(s.push(v))
                == Err::<Seq<EntryView>, DecodeError>(e))
            &&& f@.len() >= 3 && decoded_spec(f@[0]) is Ok && !(f@[1] is Text) ==> decoded_entries(
                s.push(v),
            ) == Err::<Seq<EntryView>, DecodeError>(DecodeError::ExpectedText)
            &&& f@.len() >= 3 ==> (decoded_spec(f@[0]) matches Ok(spec) ==> (
            f@[1] matches DbusValue::Text(id) ==> decoded_entries(s.push(v)) == Ok::<
                Seq<EntryView>,
                DecodeError,
            >(before.push(EntryView { spec, mode_id: id@, props: decoded_props(f@[2]) }))))
        },
{
    assert(s.push(v).drop_last() =~= s);
}

/// An error in the entries stays, whatever comes after it.
pub proof fn errors_in_entries_stay(s: Seq<DbusValue>, v: DbusValue)
    requires
        decoded_entries(s) is Err,
    ensures
        decoded_entries(s.push(v)) == decoded_entries(s),
{
    assert(s.push(v).drop_last() =~= s);
}

/// A logical monitor is read from its fields: its place, scale and transform, whether it is the
/// primary one, and its monitors.
pub proof fn logical_monitors_are_read(
    v: DbusValue,
    x: i32,
    y: i32,
    scale: Double,
    transform: u32,
    primary: bool,
)
    requires
        v matches DbusValue::Struct(f) && f@.len() >= 6 && f@[0] == DbusValue::I32(x) && f@[1]
            == DbusValue::I32(y) && f@[2] == DbusValue::F64(scale) && f@[3] == DbusValue::U32(transform)
            && f@[4] == DbusValue::Bool(primary) && f@[5] is Array,
    ensures
        v matches DbusValue::Struct(f) && (f@[5] matches DbusValue::Array(list) && {
            &&& decoded_entries(list@) matches Ok(entries) ==> (decoded_logical(v) matches Ok(l) && l.x == x
                && l.y == y && l.scale == scale && l.transform == transform && l.primary == primary
                && l.monitors == entries && l.props == Map::<Seq<char>, u64>::empty())
            &&& decoded_entries(list@) matches Err(e) ==> (decoded_logical(v) matches Err(g) && g == e)
        }),
{
}

/// What is no logical monitor is refused, for the first field that is not as it should be.
pub proof fn other_logical_monitors_are_refused(v: DbusValue)
    ensures
        !(v is Struct) ==> (decoded_logical(v) matches Err(e) && e is ExpectedStruct),
        v matches DbusValue::Struct(f) ==> {
            &&& f@.len() < 6 ==> (decoded_logical(v) matches Err(e) && e is LogicalFormat)
            &&& f@.len() >= 6 && !(f@[0] is I32 && f@[1] is I32) ==> (decoded_logical(v) matches Err(e)
                && e is ExpectedI32)
            &&& f@.len() >= 6 && f@[0] is I32 && f@[1] is I32 && !(f@[2] is F64) ==> (decoded_logical(
                v,
            ) matches Err(e) && e is ExpectedF64)
            &&& f@.len() >= 6 && f@[0] is I32 && f@[1] is I32 && f@[2] is F64 && !(f@[3] is U32) ==> (
            decoded_logical(v) matches Err(e) && e is ExpectedU32)
            &&& f@.len() >= 6 && f@[0] is I32 && f@[1] is I32 && f@[2] is F64 && f@[3] is U32 && !(
            f@[4] is Bool) ==> (decoded_logical(v) matches Err(e) && e is ExpectedBool)
            &&& f@.len() >= 6 && f@[0] is I32 && f@[1] is I32 && f@[2] is F64 && f@[3] is U32
                && f@[4] is Bool && !(f@[5] is Array) ==> (decoded_logical(v) matches Err(e)
                && e is ExpectedArray)
        },
{
}

} // verus!
