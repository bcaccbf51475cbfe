//! What holds of every session of a wlroots compositor.
use vstd::prelude::*;

use crate::decimal;
use crate::errors::BackendError;
use crate::float;
use crate::float::Double;
use crate::models;
use crate::models::{DisplayColorSettings, DisplayMode, OutputView};
use crate::text_spec as spec;
use crate::wlroots::{
    common_modes, enabled_args, mirror_args, mirror_mode_text, mode_arg, mode_args, modes_to_mirror,
    output_path, place_of, position_args, property_target, query_step, scale_args, search_run,
    search_step, sync_args, transform_args, with_settings, ProxyOutcome, QueryAction, QueryEvent,
    QueryView, Search, SearchEvent, GAMMARELAY_MAX_ATTEMPTS,
};
use crate::xrandr::listed;

verus! {

// ---- the service ----

/// A service that is there is taken at once; one that is not there is started, once, and then
/// waited for; and a bus that cannot be asked is asked again. Only after all attempts the search
/// gives up, and says why.
pub proof fn services_are_started_and_waited_for(s: Search)
    requires
        s.attempts <= GAMMARELAY_MAX_ATTEMPTS,
    ensures
        search_step(s, SearchEvent::Present).1 is Done,
        search_step(s, SearchEvent::Absent).1 is Start <==> s.attempts < GAMMARELAY_MAX_ATTEMPTS
            && !s.spawned,
        search_step(s, SearchEvent::Absent).1 is Wait <==> s.attempts < GAMMARELAY_MAX_ATTEMPTS
            && s.spawned,
        search_step(s, SearchEvent::Absent).1 is Unavailable <==> s.attempts
            >= GAMMARELAY_MAX_ATTEMPTS,
        search_step(s, SearchEvent::Failed).1 is GiveUp <==> s.attempts + 1
            >= GAMMARELAY_MAX_ATTEMPTS,
        search_step(s, SearchEvent::Failed).1 is Wait <==> s.attempts + 1
            < GAMMARELAY_MAX_ATTEMPTS,
        search_step(s, SearchEvent::Absent).1 is Start ==> search_step(s, SearchEvent::Absent).0 == (
        Search { attempts: 0, spawned: true }),
        search_step(s, SearchEvent::Absent).1 is Wait || search_step(s, SearchEvent::Failed).1 is Wait
            ==> s.attempts < GAMMARELAY_MAX_ATTEMPTS,
        search_step(s, SearchEvent::Failed).0.attempts == (s.attempts + 1) as u8,
        search_step(s, SearchEvent::Failed).0.spawned == s.spawned,
        search_step(s, SearchEvent::Absent).1 is Wait ==> search_step(s, SearchEvent::Absent).0 == (
        Search { attempts: (s.attempts + 1) as u8, spawned: true }),
{
}

/// A service that appears ends the search, however often it was not there before.
pub proof fn services_that_appear_are_found(s: Search, events: Seq<SearchEvent>, k: int)
    requires
        0 <= k < search_run(s, events).len(),
        k < events.len(),
        events[k] is Present,
    ensures
        search_run(s, events).len() == k + 1,
        search_run(s, events)[k] is Done,
    decreases events.len(),
{
    let (next, action) = search_step(s, events[0]);
    if k > 0 {
        assert(events.skip(1)[k - 1] == events[k]);
        services_that_appear_are_found(next, events.skip(1), k - 1);
    }
}

/// The object of an output is named after it: letters and digits stay, and every other character
/// becomes an underscore.
pub proof fn objects_are_named_after_outputs(name: Seq<char>, i: int)
    requires
        0 <= i < name.len(),
    ensures
        output_path(name).len() == 9 + name.len(),
        output_path(name).take(9) == "/outputs/"@,
        ({
            let c = name[i];
            let plain = ('a' <= c && c <= 'z') || ('A' <= c && c <= 'Z') || ('0' <= c && c <= '9');
            &&& plain ==> output_path(name)[9 + i] == c
            &&& !plain ==> output_path(name)[9 + i] == '_'
        }),
{
    reveal_strlit("/outputs/");
    assert(output_path(name).take(9) =~= "/outputs/"@);
}

/// A property is set at the object of the output, where that is there, and for all outputs where
/// the service does not know the output; nowhere else.
pub proof fn properties_are_set_at_the_output(outcome: ProxyOutcome)
    ensures
        property_target(outcome) is Output <==> outcome is Built,
        property_target(outcome) is Global <==> outcome is UnknownObject,
        property_target(outcome) is NotRunning <==> outcome is NoOwner,
        property_target(outcome) is Failed <==> outcome is Failed,
{
}

/// An output that can be read gets the brightness, the gamma and the temperature that are read of
/// it, in this order, and no other output does; then the next one is asked.
pub proof fn settings_are_read_in_turn(
    q: QueryView,
    names: Seq<Seq<char>>,
    brightness: Double,
    gamma: Double,
    kelvin: u16,
    other: Seq<char>,
)
    requires
        0 <= q.at < names.len() <= usize::MAX,
        q.stage is Open,
        other != names[q.at],
    ensures
        ({
            let (q1, a1) = query_step(q, names, QueryEvent::Opened(ProxyOutcome::Built));
            let (q2, a2) = query_step(q1, names, QueryEvent::Number(brightness));
            let (q3, a3) = query_step(q2, names, QueryEvent::Number(gamma));
            let (q4, a4) = query_step(q3, names, QueryEvent::Kelvin(kelvin));
            let s = q4.states[names[q.at]];
            &&& a1 is ReadBrightness && a2 is ReadGamma && a3 is ReadTemperature
            &&& q4.states.dom().contains(names[q.at])
            &&& s.brightness == Some(float::narrowed(brightness))
            &&& s.gamma == Some(float::narrowed(gamma))
            &&& s.temperature == Some(kelvin)
            &&& q4.states.dom().contains(other) == q.states.dom().contains(other)
            &&& q.states.dom().contains(other) ==> q4.states[other] == q.states[other]
            &&& q4.at == q.at + 1 && q4.stage is Open
            &&& q.at + 1 < names.len() ==> a4 == QueryAction::Open((q.at + 1) as usize)
            &&& q.at + 1 == names.len() ==> a4 is Finished
        }),
{
}

/// An output that the service does not know, or of which a property cannot be read, is passed over
/// with nothing known of it; a service that is gone ends the query.
pub proof fn unknown_outputs_are_passed_over(q: QueryView, names: Seq<Seq<char>>)
    requires
        0 <= q.at < names.len() <= usize::MAX,
    ensures
        q.stage is Open ==> {
            let (r, a) = query_step(q, names, QueryEvent::Opened(ProxyOutcome::UnknownObject));
            let (f, b) = query_step(q, names, QueryEvent::Opened(ProxyOutcome::Failed));
            &&& r.states == q.states && r.at == q.at + 1 && r.stage is Open
            &&& a is Open <==> q.at + 1 < names.len()
            &&& a is Finished <==> q.at + 1 == names.len()
            &&& f == r && b == a
            &&& query_step(q, names, QueryEvent::Opened(ProxyOutcome::NoOwner)).1 is Gone
        },
        !(q.stage is Open) ==> {
            let (r, a) = query_step(q, names, QueryEvent::ReadFailed);
            &&& r.states == q.states && r.at == q.at + 1 && r.stage is Open
            &&& a is Open <==> q.at + 1 < names.len()
            &&& a is Finished <==> q.at + 1 == names.len()
            &&& query_step(q, names, QueryEvent::OtherType).1 is WrongType
        },
{
}

/// An output for which settings were found has them, and all three can be changed; nothing else of
/// it changes, and an output without them stays as it is.
pub proof fn found_settings_are_shown(
    states: Map<Seq<char>, DisplayColorSettings>,
    o: OutputView,
)
    ensures
        ({
            let p = with_settings(states, o);
            &&& states.dom().contains(o.name) ==> p.color == states[o.name]
                && p.color_caps.brightness && p.color_caps.gamma && p.color_caps.temperature
            &&& !states.dom().contains(o.name) ==> p == o
            &&& p.name == o.name && p.id == o.id && p.enabled == o.enabled && p.scale == o.scale
            &&& p.current_mode == o.current_mode && p.available_modes == o.available_modes
            &&& p.description == o.description && p.position == o.position
        }),
{
}

// ---- mirroring ----

/// Every mode that two outputs offer is common to them.
pub proof fn shared_modes_are_common(a: Seq<DisplayMode>, b: Seq<DisplayMode>, i: int, j: int)
    requires
        0 <= i < a.len(),
        0 <= j < b.len(),
        models::same_mode(b[j], a[i]),
    ensures
        common_modes(a, b).contains(a[i]),
    decreases a.len(),
{
    let t = a.drop_last();
    let r = common_modes(t, b);
    let all = common_modes(a, b);
    if i < t.len() {
        assert(t[i] == a[i]);
        shared_modes_are_common(t, b, i, j);
        let k = choose|k: int| 0 <= k < r.len() && r[k] == t[i];
        assert(all[k] == a[i]);
    } else {
        assert(listed(b, a[i]));
        assert(all[all.len() - 1] == a[i]);
    }
}

proof fn lemma_place(names: Seq<Seq<char>>, name: Seq<char>, k: int)
    requires
        0 <= k <= names.len(),
        forall|l: int| 0 <= l < k ==> #[trigger] names[l] != name,
        k < names.len() ==> names[k] == name,
    ensures
        place_of(names, name) == if k < names.len() {
            Some(k)
        } else {
            None
        },
    decreases names.len(),
{
    if names.len() > 0 {
        let t = names.drop_last();
        assert(names.last() == names[names.len() - 1]);
        if k < t.len() {
            assert(t[k] == names[k]);
            lemma_place(t, name, k);
        } else {
            assert forall|l: int| 0 <= l < t.len() implies #[trigger] t[l] != name by {
                assert(t[l] == names[l]);
            }
            lemma_place(t, name, t.len() as int);
        }
    }
}

/// An output can be mirrored to a target exactly if both are there, at `s` and `t`, and have a
/// mode in common; and then in the modes that they have in common.
pub proof fn mirroring_needs_a_common_mode(
    outputs: Seq<OutputView>,
    names: Seq<Seq<char>>,
    output: Seq<char>,
    target: Seq<char>,
    s: int,
    t: int,
)
    requires
        0 <= s <= names.len(),
        forall|l: int| 0 <= l < s ==> #[trigger] names[l] != output,
        s < names.len() ==> names[s] == output,
        0 <= t <= names.len(),
        forall|l: int| 0 <= l < t ==> #[trigger] names[l] != target,
        t < names.len() ==> names[t] == target,
    ensures
        t == names.len() ==> modes_to_mirror(outputs, names, output, target) == Err::<
            Seq<DisplayMode>,
            BackendError,
        >(BackendError::TargetNotFound),
        t < names.len() && s == names.len() ==> modes_to_mirror(outputs, names, output, target)
            == Err::<Seq<DisplayMode>, BackendError>(BackendError::OutputNotFound),
        s < names.len() && t < names.len() ==> {
            let common = common_modes(outputs[s].available_modes, outputs[t].available_modes);
            &&& common.len() == 0 ==> modes_to_mirror(outputs, names, output, target) == Err::<
                Seq<DisplayMode>,
                BackendError,
            >(BackendError::NoCommonMode)
            &&& common.len() > 0 ==> modes_to_mirror(outputs, names, output, target) == Ok::<
                Seq<DisplayMode>,
                BackendError,
            >(common)
        },
{
    lemma_place(names, output, s);
    lemma_place(names, target, t);
}

/// A mode is set by its size, and by its rate with three places where that is positive; an output
/// is mirrored in the size of the mode, and its rate without places.
pub proof fn modes_are_set_by_size_and_rate(m: DisplayMode)
    ensures
        ({
            let size = models::size_text(m.width, m.height);
            let positive = m.refresh_hz matches Some(hz) && float::less(
                float::single(float::ZERO),
                hz,
            );
            &&& !positive ==> mode_arg(m) == size
            &&& positive ==> mode_arg(m) == size + "@"@ + float::fixed(m.refresh_hz->Some_0, 3)
                + "Hz"@
            &&& m.refresh_hz is None ==> mirror_mode_text(m) == size
            &&& m.refresh_hz is Some ==> mirror_mode_text(m) == size + "@"@ + float::fixed(
                m.refresh_hz->Some_0,
                0,
            ) + "Hz"@
        }),
{
    let size = models::size_text(m.width, m.height);
    assert(size + Seq::<char>::empty() =~= size);
    if let Some(hz) = m.refresh_hz {
        assert(mirror_mode_text(m) =~= size + "@"@ + float::fixed(hz, 0) + "Hz"@);
        if float::less(float::single(float::ZERO), hz) {
            assert(mode_arg(m) =~= size + "@"@ + float::fixed(hz, 3) + "Hz"@);
        }
    }
}

/// Mirroring puts the named output into the mode, at the origin.
pub proof fn mirrored_outputs_go_to_the_origin(output: Seq<char>, mode: Seq<char>)
    ensures
        ({
            let a = mirror_args(output, mode);
            &&& a.len() == 6
            &&& a[1] == output && a[3] == mode
            &&& crate::apply::position(a[5]) == Ok::<(i32, i32), crate::apply::Fault>((0i32, 0i32))
        }),
{
    reveal_strlit("0,0");
    reveal_strlit(",");
    crate::apply::position_is_read_back(0, 0);
    assert(decimal::signed(0) =~= seq!['0']);
    assert("0,0"@ =~= decimal::signed(0) + ","@ + decimal::signed(0));
}

/// Every change is made to the output that it is asked for, and is the one that is asked for.
pub proof fn changes_are_as_asked(
    output: Seq<char>,
    mode: DisplayMode,
    scale: Double,
    transform: Seq<char>,
)
    ensures
        mode_args(output, mode) == seq!["--output"@, output, "--mode"@, mode_arg(mode)],
        scale_args(output, scale) == seq![
            "--output"@,
            output,
            "--scale"@,
            crate::shortest::double_notation(scale),
        ],
        enabled_args(output, true) == seq!["--output"@, output, "--on"@],
        enabled_args(output, false) == seq!["--output"@, output, "--off"@],
        transform_args(output, transform) == seq!["--output"@, output, "--transform"@, transform],
        sync_args(output, true) == seq!["--output"@, output, "--adaptive-sync"@, "enabled"@],
        sync_args(output, false) == seq!["--output"@, output, "--adaptive-sync"@, "disabled"@],
{
}

/// The place of an output can be read from the argument for it, first the column and then the row.
pub proof fn positions_can_be_read(output: Seq<char>, x: i32, y: i32)
    ensures
        ({
            let a = position_args(output, x, y);
            &&& a.len() == 4 && a[0] == "--output"@ && a[1] == output && a[2] == "--pos"@
            &&& spec::split_once(a[3], ","@) matches Some(t) && decimal::i32_value(t.0) == Some(x)
                && decimal::i32_value(t.1) == Some(y)
        }),
{
    reveal_strlit(",");
    assert(","@ =~= seq![',']);
    crate::x11::laws::lemma_signed(x, ',');
    crate::x11::laws::lemma_signed(y, ',');
    spec::lemma_split_at(decimal::signed(x as int), ',', decimal::signed(y as int));
}


} // verus!
