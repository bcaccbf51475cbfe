//! What holds of every menu: its items do what they say.
use vstd::prelude::*;

use crate::apply::StepView;
use crate::float;
use crate::float::Single;
use crate::float_spec as fs;
use crate::float_spec::Format;
use crate::kelvin;
use crate::models;
use crate::models::{OutputView, Side};
use crate::text_spec as spec;
use crate::transforms;
use crate::tui::laws::{lemma_places_read, lemma_prefix_stripped};
use crate::tui::menu::{
    choice, items, mirror_items, mirror_targets, mode_item, new_brightness, new_gamma, new_temperature,
    position_items, pressed, side_word, CommandView, Key, KeyActionView, BRIGHTER, DARKER, LESS_GAMMA,
};
use crate::tui::{
    after_start, after_stop, finished, refreshed, without_name, Field, MirrorScaling, TuiView,
};

verus! {

/// The menu of an output with its state offers the opposite one, and the item asks for what it
/// says.
pub proof fn switching_does_what_it_says(v: TuiView)
    requires
        0 <= v.selected_output < v.outputs.len(),
        v.selected_field is Enabled,
    ensures
        items(v).len() == 1,
        items(v)[0] == "Enable"@ <==> !v.outputs[v.selected_output].enabled,
        items(v)[0] == "Disable"@ <==> v.outputs[v.selected_output].enabled,
        choice(v).1 matches Some((command, message)) && command == CommandView::Apply(
            StepView::Enabled(!v.outputs[v.selected_output].enabled),
        ) && message == v.outputs[v.selected_output].name + if v.outputs[v.selected_output].enabled {
            ": disabled"@
        } else {
            ": enabled"@
        },
        choice(v).0 == v,
{
    reveal_strlit("Enable");
    reveal_strlit("Disable");
    reveal_strlit(": ");
    reveal_strlit("disabled");
    reveal_strlit("enabled");
    reveal_strlit(": disabled");
    reveal_strlit(": enabled");
    assert("Enable"@.len() == 6 && "Disable"@.len() == 7);
    let name = v.outputs[v.selected_output].name;
    assert(name + ": "@ + "disabled"@ =~= name + ": disabled"@);
    assert(name + ": "@ + "enabled"@ =~= name + ": enabled"@);
}

/// The menu of an output lists its modes, and the item asks for the mode that it shows.
pub proof fn modes_are_offered_in_order(v: TuiView, k: int)
    requires
        0 <= v.selected_output < v.outputs.len(),
        v.selected_field is Mode,
        0 <= k < v.outputs[v.selected_output].available_modes.len(),
    ensures
        items(v).len() == v.outputs[v.selected_output].available_modes.len(),
        items(v)[k] == mode_item(v.outputs[v.selected_output].available_modes[k]),
        ({
            let w = TuiView { dropdown_selection: k, ..v };
            &&& choice(w).1 matches Some((command, message)) && command == CommandView::Apply(
                StepView::Mode(v.outputs[v.selected_output].available_modes[k]),
            ) && message == v.outputs[v.selected_output].name + ": mode "@ + items(w)[k]
            &&& choice(w).0 == w
        }),
{
}

/// A mode is offered by its size, and its rate without places where it has one.
pub proof fn modes_are_shown_by_size_and_rate(m: models::DisplayMode)
    ensures
        m.refresh_hz is None ==> mode_item(m) == models::size_text(m.width, m.height),
        m.refresh_hz matches Some(hz) ==> mode_item(m) == models::size_text(m.width, m.height)
            + " @ "@ + float::fixed(hz, 0) + "Hz"@,
{
    let size = models::size_text(m.width, m.height);
    assert(size + Seq::<char>::empty() =~= size);
    if let Some(hz) = m.refresh_hz {
        assert(mode_item(m) =~= size + " @ "@ + float::fixed(hz, 0) + "Hz"@);
    }
}

/// For every other output the menu offers the four places beside it.
pub proof fn all_places_are_offered(outputs: Seq<OutputView>, name: Seq<char>, i: int)
    requires
        0 <= i < outputs.len(),
        outputs[i].name != name,
    ensures
        position_items(outputs, name).contains("Left of "@ + outputs[i].name),
        position_items(outputs, name).contains("Right of "@ + outputs[i].name),
        position_items(outputs, name).contains("Above "@ + outputs[i].name),
        position_items(outputs, name).contains("Below "@ + outputs[i].name),
    decreases outputs.len(),
{
    let t = outputs.drop_last();
    let rest = position_items(t, name);
    let all = position_items(outputs, name);
    if i < t.len() {
        assert(t[i] == outputs[i]);
        all_places_are_offered(t, name, i);
        let n = outputs[i].name;
        let a = choose|k: int| 0 <= k < rest.len() && rest[k] == "Left of "@ + n;
        let b = choose|k: int| 0 <= k < rest.len() && rest[k] == "Right of "@ + n;
        let c = choose|k: int| 0 <= k < rest.len() && rest[k] == "Above "@ + n;
        let d = choose|k: int| 0 <= k < rest.len() && rest[k] == "Below "@ + n;
        assert(all[a] == rest[a] && all[b] == rest[b] && all[c] == rest[c] && all[d] == rest[d]);
    } else {
        let n = rest.len() as int;
        assert(all[n] == "Left of "@ + outputs[i].name);
        assert(all[n + 1] == "Right of "@ + outputs[i].name);
        assert(all[n + 2] == "Above "@ + outputs[i].name);
        assert(all[n + 3] == "Below "@ + outputs[i].name);
    }
}

/// The words before the name of the other output in an item.
pub open spec fn place_words(side: Side) -> Seq<char> {
    match side {
        Side::Left => "Left of "@,
        Side::Right => "Right of "@,
        Side::Above => "Above "@,
        Side::Below => "Below "@,
    }
}

/// An item with a place asks for that place.
pub proof fn placing_does_what_it_says(v: TuiView, side: Side, target: Seq<char>)
    requires
        0 <= v.selected_output < v.outputs.len(),
        v.selected_field is Position,
        0 <= v.dropdown_selection < items(v).len(),
        items(v)[v.dropdown_selection] == place_words(side) + target,
    ensures
        choice(v).0 == v,
        choice(v).1 matches Some((command, message)) && command == CommandView::PlaceBeside(
            side,
            target,
        ) && message == v.outputs[v.selected_output].name + ": positioned "@ + side_word(side) + " "@
            + target,
        models::side_named(side_word(side)) == Some(side),
{
    lemma_places_read(target);
    reveal_strlit("Custom X,Y");
    reveal_strlit("Left of ");
    reveal_strlit("Right of ");
    reveal_strlit("Above ");
    reveal_strlit("Below ");
    let item = place_words(side) + target;
    assert(item[0] == place_words(side)[0]);
    assert("Custom X,Y"@[0] == 'C');
    models::laws::side_words_are_read_back(side);
}

/// The menu of transforms names each of the eight, in their order, and the item asks for the one
/// that it names.
pub proof fn turning_does_what_it_says(v: TuiView, k: int)
    requires
        0 <= v.selected_output < v.outputs.len(),
        v.selected_field is Transform,
        0 <= k < 8,
    ensures
        items(v).len() == 8,
        items(v)[k] == transforms::numbered(k as u32) || items(v)[k] == transforms::numbered(
            k as u32,
        ).push('\u{b0}'),
        ({
            let w = TuiView { dropdown_selection: k, ..v };
            choice(w).1 matches Some((command, message)) && command == CommandView::Transform(
                transforms::numbered(k as u32),
            ) && choice(w).0 == w && message == v.outputs[v.selected_output].name + ": transform "@
                + transforms::numbered(k as u32)
        }),
{
    reveal_strlit("90");
    reveal_strlit("180");
    reveal_strlit("270");
    reveal_strlit("flipped-90");
    reveal_strlit("flipped-180");
    reveal_strlit("flipped-270");
    reveal_strlit("90°");
    reveal_strlit("180°");
    reveal_strlit("270°");
    reveal_strlit("flipped-90°");
    reveal_strlit("flipped-180°");
    reveal_strlit("flipped-270°");
    assert("90°"@ =~= "90"@.push('\u{b0}'));
    assert("180°"@ =~= "180"@.push('\u{b0}'));
    assert("270°"@ =~= "270"@.push('\u{b0}'));
    assert("flipped-90°"@ =~= "flipped-90"@.push('\u{b0}'));
    assert("flipped-180°"@ =~= "flipped-180"@.push('\u{b0}'));
    assert("flipped-270°"@ =~= "flipped-270"@.push('\u{b0}'));
}

/// The menu of adaptive sync offers both states, and the item asks for the one that it says.
pub proof fn syncing_does_what_it_says(v: TuiView, k: int)
    requires
        0 <= v.selected_output < v.outputs.len(),
        v.selected_field is AdaptiveSync,
        0 <= k < 2,
    ensures
        items(v).len() == 2,
        ({
            let w = TuiView { dropdown_selection: k, ..v };
            choice(w).1 matches Some((command, message)) && command == CommandView::AdaptiveSync(
                items(v)[k] == "Enable"@,
            ) && choice(w).0 == w
        }),
        items(v).contains("Enable"@) && items(v).contains("Disable"@),
{
    reveal_strlit("Enable");
    reveal_strlit("Disable");
    assert("Enable"@.len() == 6 && "Disable"@.len() == 7);
    assert(items(v)[0] == "Enable"@);
    assert(items(v)[1] == "Disable"@);
}

/// The first item of a color setting raises it and the second one lowers it; each asks for that
/// setting alone.
pub proof fn coloring_does_what_it_says(v: TuiView, k: int)
    requires
        0 <= v.selected_output < v.outputs.len(),
        0 <= k < 2,
        v.selected_field is Brightness || v.selected_field is Gamma || v.selected_field is Temperature,
    ensures
        items(v).len() == 2,
        items(v)[0][0] == '+' && items(v)[1][0] == '-',
        ({
            let w = TuiView { dropdown_selection: k, ..v };
            choice(w).0 == w && (choice(w).1 matches Some((CommandView::Apply(step), message)) && (
            v.selected_field is Brightness <==> step is Brightness) && (v.selected_field is Gamma <==>
                step is Gamma) && (v.selected_field is Temperature <==> step is Temperature))
        }),
{
    reveal_strlit("+5%");
    reveal_strlit("-5%");
    reveal_strlit("+0.1");
    reveal_strlit("-0.1");
    reveal_strlit("+100K");
    reveal_strlit("-100K");
}

/// A temperature goes up or down by a hundred, from the neutral one where it is not known, and
/// stays in its range.
pub proof fn temperatures_go_by_hundreds(current: Option<u16>, choice: int)
    requires
        current matches Some(t) ==> kelvin::MIN_KELVIN <= t <= kelvin::MAX_KELVIN,
    ensures
        ({
            let t = match current {
                Some(t) => t,
                None => kelvin::NEUTRAL_KELVIN,
            };
            &&& t + 100 <= kelvin::MAX_KELVIN ==> new_temperature(current, 0) == t + 100
            &&& t + 100 > kelvin::MAX_KELVIN ==> new_temperature(current, 0) == kelvin::MAX_KELVIN
            &&& t - 100 >= kelvin::MIN_KELVIN ==> new_temperature(current, 1) == t - 100
            &&& t - 100 < kelvin::MIN_KELVIN ==> new_temperature(current, 1) == kelvin::MIN_KELVIN
            &&& kelvin::MIN_KELVIN + 100 <= t <= kelvin::MAX_KELVIN - 100 ==> new_temperature(
                Some(new_temperature(current, 0)),
                1,
            ) == t
        }),
{
}

/// Every other enabled output can be mirrored, and no disabled one.
pub proof fn all_targets_are_offered(outputs: Seq<OutputView>, name: Seq<char>, i: int)
    requires
        0 <= i < outputs.len(),
        outputs[i].name != name,
        outputs[i].enabled,
    ensures
        mirror_targets(outputs, name).contains("Mirror: "@ + outputs[i].name),
    decreases outputs.len(),
{
    let t = outputs.drop_last();
    let rest = mirror_targets(t, name);
    let all = mirror_targets(outputs, name);
    if i < t.len() {
        assert(t[i] == outputs[i]);
        all_targets_are_offered(t, name, i);
        let k = choose|k: int| 0 <= k < rest.len() && rest[k] == "Mirror: "@ + t[i].name;
        assert(all[k] == rest[k]);
    } else {
        assert(all[rest.len() as int] == "Mirror: "@ + outputs[i].name);
    }
}

/// A mirroring can be stopped exactly while there is one, and that is the first item then.
pub proof fn mirrorings_can_be_stopped(v: TuiView, name: Seq<char>)
    ensures
        v.mirroring.contains(name) ==> mirror_items(v, name)[0] == "Stop mirroring"@,
        mirror_items(v, name).len() > 0,
        mirror_items(v, name).len() == if v.mirroring.contains(name) {
            1 + mirror_targets(v.outputs, name).len()
        } else if mirror_targets(v.outputs, name).len() == 0 {
            1
        } else {
            mirror_targets(v.outputs, name).len()
        },
{
}

/// Choosing an output to mirror lets the selected one wait for the scaling, with the one that was
/// used last selected; stopping asks to stop.
pub proof fn mirroring_waits_for_the_scaling(v: TuiView, target: Seq<char>)
    requires
        0 <= v.selected_output < v.outputs.len(),
        v.selected_field is Mirror,
        v.mirror_pending is None,
        0 <= v.dropdown_selection < items(v).len(),
        target != "No other outputs available"@,
    ensures
        items(v)[v.dropdown_selection] == "Mirror: "@ + target ==> choice(v).1 is None && {
            let w = choice(v).0;
            &&& w.mirror_pending == Some((v.outputs[v.selected_output].name, target))
            &&& w.dropdown_selection == v.mirror_scaling.place()
            &&& w.outputs == v.outputs && w.mirroring == v.mirroring && w.dropdown_open == v.dropdown_open
            &&& w.status == v.outputs[v.selected_output].name + ": choose scaling for mirror "@ + target
        },
        items(v)[v.dropdown_selection] == "Stop mirroring"@ ==> choice(v).0 == v && (
        choice(v).1 matches Some((command, message)) && command is StopMirror),
{
    lemma_prefix_stripped("Mirror: "@, target);
    reveal_strlit("Mirror: ");
    reveal_strlit("Stop");
    reveal_strlit("Stop mirroring");
    let item = "Mirror: "@ + target;
    if spec::starts_with(item, "Stop"@) {
        assert(item.take(4)[0] == 'M');
    }
    assert("Stop mirroring"@.take(4) =~= "Stop"@);
}

/// Choosing a scaling starts the mirroring that waits for it, of the two outputs and with the
/// scaling of the item, and remembers the scaling; cancelling starts none. Either way the menu
/// closes and nothing waits any more.
pub proof fn scalings_start_the_mirroring(
    v: TuiView,
    dest: Seq<char>,
    source: Seq<char>,
    scaling: MirrorScaling,
)
    requires
        0 <= v.selected_output < v.outputs.len(),
        v.selected_field is Mirror,
        v.mirror_pending == Some((dest, source)),
    ensures
        items(v).len() == 5,
        items(v)[scaling.place()] == scaling.label_text(),
        items(v)[4] == "Cancel"@,
        ({
            let w = TuiView { dropdown_selection: scaling.place(), ..v };
            let (x, c) = choice(w);
            &&& c matches Some((command, message)) && command == CommandView::StartMirror(
                dest,
                source,
                scaling,
            ) && message == dest + ": mirroring "@ + source + " ("@ + scaling.arg_text()
                + " scaling)"@
            &&& x.mirror_pending is None && !x.dropdown_open && x.mirror_scaling == scaling
        }),
        ({
            let w = TuiView { dropdown_selection: 4, ..v };
            let (x, c) = choice(w);
            &&& c is None
            &&& x.mirror_pending is None && !x.dropdown_open && x.mirror_scaling == v.mirror_scaling
            &&& x.status == "Mirror selection cancelled"@
        }),
{
    reveal_strlit("Fit");
    reveal_strlit("Cover");
    reveal_strlit("Exact");
    reveal_strlit("Linear");
    reveal_strlit("Cancel");
    assert("Fit"@[0] == 'F' && "Cover"@[0] == 'C' && "Exact"@[0] == 'E' && "Linear"@[0] == 'L');
    assert("Cancel"@[0] == 'C' && "Cancel"@[1] == 'a' && "Cover"@[1] == 'o');
    assert(items(v)[0] == "Fit"@);
    assert(items(v)[1] == "Cover"@);
    assert(items(v)[2] == "Exact"@);
    assert(items(v)[3] == "Linear"@);
}

/// The letters `q`, `k`, `j`, `h` and `l` do what Escape and the arrows do.
pub proof fn letters_stand_for_keys(v: TuiView)
    ensures
        pressed(v, Key::Char('q')) == pressed(v, Key::Esc),
        pressed(v, Key::Char('k')) == pressed(v, Key::Up),
        pressed(v, Key::Char('j')) == pressed(v, Key::Down),
        pressed(v, Key::Char('h')) == pressed(v, Key::Left),
        pressed(v, Key::Char('l')) == pressed(v, Key::Right),
        pressed(v, Key::Char('r')).1 is Refresh,
        pressed(v, Key::Char('r')).0 == v,
        pressed(v, Key::Other) == (v, KeyActionView::Stay),
{
}

/// Down goes to the next output, or to the next item while the menu is open, and from the last one
/// to the first; nothing else changes.
pub proof fn down_goes_to_the_next(v: TuiView)
    ensures
        !v.dropdown_open && 0 <= v.selected_output < v.outputs.len() ==> pressed(v, Key::Down).0 == (
        TuiView {
            selected_output: if v.selected_output + 1 < v.outputs.len() {
                v.selected_output + 1
            } else {
                0
            },
            ..v
        }),
        v.dropdown_open && 0 <= v.dropdown_selection < items(v).len() ==> pressed(v, Key::Down).0 == (
        TuiView {
            dropdown_selection: if v.dropdown_selection + 1 < items(v).len() {
                v.dropdown_selection + 1
            } else {
                0
            },
            ..v
        }),
{
    if !v.dropdown_open && 0 <= v.selected_output < v.outputs.len() {
        let n = v.outputs.len() as int;
        if v.selected_output + 1 < n {
            vstd::arithmetic::div_mod::lemma_small_mod((v.selected_output + 1) as nat, n as nat);
        } else {
            vstd::arithmetic::div_mod::lemma_mod_self_0(n);
        }
    }
    if v.dropdown_open && 0 <= v.dropdown_selection < items(v).len() {
        let n = items(v).len() as int;
        if v.dropdown_selection + 1 < n {
            vstd::arithmetic::div_mod::lemma_small_mod((v.dropdown_selection + 1) as nat, n as nat);
        } else {
            vstd::arithmetic::div_mod::lemma_mod_self_0(n);
        }
    }
}

/// The field to the right of a field.
pub open spec fn field_after(f: Field) -> Field {
    match f {
        Field::Enabled => Field::Mode,
        Field::Mode => Field::Position,
        Field::Position => Field::Mirror,
        Field::Mirror => Field::Transform,
        Field::Transform => Field::Scale,
        Field::Scale => Field::AdaptiveSync,
        Field::AdaptiveSync => Field::Brightness,
        Field::Brightness => Field::Gamma,
        Field::Gamma => Field::Temperature,
        Field::Temperature => Field::Enabled,
    }
}

/// Right goes to the field on the right, from the last one to the first, and says which it is;
/// while the menu is open the field stays.
pub proof fn right_goes_to_the_next_field(v: TuiView)
    ensures
        v.dropdown_open ==> pressed(v, Key::Right).0 == v && pressed(v, Key::Left).0 == v,
        !v.dropdown_open ==> pressed(v, Key::Right).0 == (TuiView {
            selected_field: field_after(v.selected_field),
            status: "Selected: "@ + field_after(v.selected_field).label_text(),
            ..v
        }),
{
}

/// Tab opens the menu at its first item, and closes it again; closing it, by Tab or Escape, lets
/// nothing wait any more.
pub proof fn tab_opens_and_closes_the_menu(v: TuiView)
    ensures
        !v.dropdown_open ==> pressed(v, Key::Tab).0 == (TuiView {
            dropdown_open: true,
            dropdown_selection: 0,
            ..v
        }),
        v.dropdown_open ==> pressed(v, Key::Tab).0 == (TuiView {
            dropdown_open: false,
            dropdown_selection: 0,
            mirror_pending: None,
            ..v
        }),
        v.dropdown_open ==> pressed(v, Key::Esc).0 == pressed(v, Key::Tab).0,
{
}

/// Enter carries out what the selected item asks for, on the selected output; where it asks for
/// nothing, or the menu is closed, nothing is carried out.
pub proof fn enter_carries_out_the_choice(v: TuiView)
    ensures
        !v.dropdown_open ==> pressed(v, Key::Enter) == (v, KeyActionView::Stay),
        v.dropdown_open && choice(v).1 is None ==> pressed(v, Key::Enter).1 is Stay,
        v.dropdown_open ==> (choice(v).1 matches Some((command, message)) ==> pressed(v, Key::Enter)
            == (
            choice(v).0,
            KeyActionView::Run { output: v.outputs[v.selected_output].name, command, message },
        )),
{
}

/// A command closes the menu for the state and the mode of an output, and for no other field.
pub proof fn menus_close_after_state_and_mode(v: TuiView)
    ensures
        v.selected_field is Enabled || v.selected_field is Mode ==> !finished(v).dropdown_open
            && finished(v).dropdown_selection == 0,
        !(v.selected_field is Enabled || v.selected_field is Mode) ==> finished(v) == v,
        finished(v).status == v.status && finished(v).outputs == v.outputs,
{
}

/// A refresh takes in the outputs and the mirrorings, and keeps the selected output, the field,
/// the menu and what waits, as long as the outputs for it are there.
pub proof fn refreshing_keeps_what_it_can(
    v: TuiView,
    outputs: Seq<OutputView>,
    mirroring: Seq<Seq<char>>,
)
    requires
        0 <= v.selected_output < outputs.len(),
        v.mirror_pending matches Some(p) ==> crate::tui::is_output(outputs, p.0)
            && crate::tui::is_output(outputs, p.1),
    ensures
        refreshed(v, outputs, mirroring) == (TuiView { outputs, mirroring, ..v }),
{
}

/// Where the selected output is gone, the first one is selected, as long as there is any.
pub proof fn refreshing_goes_back_to_the_first(
    v: TuiView,
    outputs: Seq<OutputView>,
    mirroring: Seq<Seq<char>>,
)
    ensures
        v.selected_output >= outputs.len() > 0 ==> refreshed(v, outputs, mirroring).selected_output == 0,
        v.selected_output < outputs.len() ==> refreshed(v, outputs, mirroring).selected_output
            == v.selected_output,
        outputs.len() == 0 ==> refreshed(v, outputs, mirroring).selected_output == v.selected_output,
{
}

/// A mirroring that waits for an output that is gone is given up, with a message, and the menu
/// closes.
pub proof fn refreshing_gives_up_what_it_cannot_keep(
    v: TuiView,
    outputs: Seq<OutputView>,
    mirroring: Seq<Seq<char>>,
)
    requires
        v.mirror_pending matches Some(p) && !(crate::tui::is_output(outputs, p.0)
            && crate::tui::is_output(outputs, p.1)),
    ensures
        ({
            let w = refreshed(v, outputs, mirroring);
            &&& w.mirror_pending is None && !w.dropdown_open
            &&& w.status == "Mirror setup cancelled: output disconnected"@
            &&& w.outputs == outputs && w.mirroring == mirroring
        }),
{
}

/// A mirroring that was started is listed, once, with all that were listed before; and nothing else
/// changes but the message.
pub proof fn started_mirrorings_are_listed(
    v: TuiView,
    dest: Seq<char>,
    other: Seq<char>,
    message: Seq<char>,
)
    requires
        other != dest,
    ensures
        ({
            let w = after_start(v, dest, message);
            &&& w.mirroring.contains(dest)
            &&& w.mirroring.contains(other) <==> v.mirroring.contains(other)
            &&& v.mirroring.no_duplicates() ==> w.mirroring.no_duplicates()
            &&& w.status == message
            &&& w == (TuiView { mirroring: w.mirroring, status: w.status, ..v })
        }),
{
    let w = after_start(v, dest, message);
    if !v.mirroring.contains(dest) {
        assert(w.mirroring[v.mirroring.len() as int] == dest);
        if v.mirroring.contains(other) {
            let k = choose|k: int| 0 <= k < v.mirroring.len() && v.mirroring[k] == other;
            assert(w.mirroring[k] == other);
        }
        if w.mirroring.contains(other) {
            let k = choose|k: int| 0 <= k < w.mirroring.len() && w.mirroring[k] == other;
            assert(v.mirroring[k] == other);
        }
    }
}

/// A mirroring that was ended is not listed any more, and all others still are; where the outputs
/// are known, they are taken in as by a refresh.
pub proof fn ended_mirrorings_are_not_listed(
    v: TuiView,
    output: Seq<char>,
    other: Seq<char>,
    outputs: Seq<OutputView>,
    mirroring: Seq<Seq<char>>,
)
    requires
        other != output,
    ensures
        ({
            let w = after_stop(v, output, None);
            &&& !w.mirroring.contains(output)
            &&& w.mirroring.contains(other) <==> v.mirroring.contains(other)
            &&& w == (TuiView { mirroring: w.mirroring, status: w.status, ..v })
            &&& w.status == output + ": mirroring stopped, layout restored"@
        }),
        ({
            let w = after_stop(v, output, Some((outputs, mirroring)));
            &&& w.outputs == outputs && w.mirroring == mirroring
            &&& w.status == output + ": mirroring stopped, layout restored"@
            &&& w == (TuiView { status: w.status, ..refreshed(v, outputs, mirroring) })
        }),
{
    lemma_without_name(v.mirroring, output, output);
    lemma_without_name(v.mirroring, output, other);
}

proof fn lemma_without_name(s: Seq<Seq<char>>, name: Seq<char>, other: Seq<char>)
    ensures
        without_name(s, name).contains(other) <==> s.contains(other) && other != name,
    decreases s.len(),
{
    if s.len() > 0 {
        let t = s.drop_last();
        lemma_without_name(t, name, other);
        let w = without_name(t, name);
        if t.contains(other) {
            let k = choose|k: int| 0 <= k < t.len() && t[k] == other;
            assert(s[k] == other);
        }
        if s.contains(other) && other != s.last() {
            let k = choose|k: int| 0 <= k < s.len() && s[k] == other;
            assert(t[k] == other);
        }
        assert(s[s.len() - 1] == s.last());
        if s.last() != name {
            let u = w.push(s.last());
            assert(u[w.len() as int] == s.last());
            if w.contains(other) {
                let k = choose|k: int| 0 <= k < w.len() && w[k] == other;
                assert(u[k] == other);
            }
            if u.contains(other) && other != s.last() {
                let k = choose|k: int| 0 <= k < u.len() && u[k] == other;
                assert(w[k] == other);
            }
        }
    }
}


/// The menu of scales offers six of them, and the item asks for the scale that it says: a number of
/// quarters.
pub proof fn scaling_does_what_it_says(v: TuiView, k: int)
    requires
        0 <= v.selected_output < v.outputs.len(),
        v.selected_field is Scale,
        0 <= k < 6,
    ensures
        items(v).len() == 6,
        ({
            let w = TuiView { dropdown_selection: k, ..v };
            let (text, quarters): (Seq<char>, nat) = if k == 0 {
                ("0.5x"@, 2)
            } else if k == 1 {
                ("0.75x"@, 3)
            } else if k == 2 {
                ("1.0x"@, 4)
            } else if k == 3 {
                ("1.25x"@, 5)
            } else if k == 4 {
                ("1.5x"@, 6)
            } else {
                ("2.0x"@, 8)
            };
            &&& items(v)[k] == text
            &&& choice(w).0 == w
            &&& choice(w).1 matches Some((CommandView::Apply(StepView::Scale(x)), message)) && fs::units(
                Format::Double,
                x.bits as nat,
            ) * 4 == quarters * vstd::arithmetic::power2::pow2(1074) && message
                == v.outputs[v.selected_output].name + ": scale "@ + float::fixed_double(x, 2) + "x"@
        }),
{
    kelvin::laws::lemma_quarters(0x3fe0_0000_0000_0000, 2, 0x3fe, 0);
    kelvin::laws::lemma_quarters(0x3fe8_0000_0000_0000, 3, 0x3fe, 0x8_0000_0000_0000);
    kelvin::laws::lemma_quarters(0x3ff0_0000_0000_0000, 4, 0x3ff, 0);
    kelvin::laws::lemma_quarters(0x3ff4_0000_0000_0000, 5, 0x3ff, 0x4_0000_0000_0000);
    kelvin::laws::lemma_quarters(0x3ff8_0000_0000_0000, 6, 0x3ff, 0x8_0000_0000_0000);
    kelvin::laws::lemma_quarters(0x4000_0000_0000_0000, 8, 0x400, 0);
}

/// Brighter never makes an output darker, and darker never brighter; a brightness that is not known
/// counts as full.
pub proof fn brightness_goes_up_and_down(x: Single)
    requires
        x.bits <= float::ONE,
    ensures
        !float::less(new_brightness(Some(x), 0), x),
        !float::less(x, new_brightness(Some(x), 1)),
        new_brightness(None, 0) == new_brightness(Some(float::single(float::ONE)), 0),
        new_brightness(None, 1) == new_brightness(Some(float::single(float::ONE)), 1),
        DARKER == BRIGHTER + 0x8000_0000,
{
    lemma_steps(x, BRIGHTER);
}

/// More gamma never gives less, and less gamma never more; a gamma that is not known counts as one.
pub proof fn gamma_goes_up_and_down(x: Single)
    requires
        float::TENTH <= x.bits < 0x7f80_0000,
    ensures
        !float::less(new_gamma(Some(x), 0), x),
        !float::less(x, new_gamma(Some(x), 1)),
        !float::less(new_gamma(Some(x), 1), float::single(float::TENTH)),
        new_gamma(None, 0) == new_gamma(Some(float::single(float::ONE)), 0),
        new_gamma(None, 1) == new_gamma(Some(float::single(float::ONE)), 1),
        LESS_GAMMA == float::TENTH + 0x8000_0000,
{
    lemma_steps(x, float::TENTH);
}

proof fn lemma_steps(x: Single, step: u32)
    requires
        x.bits < 0x7f80_0000,
        0 < step < 0x7f80_0000,
    ensures
        x.bits <= float::sum(x, float::single(step)).bits <= 0x7f80_0000,
        ({
            let d = float::sum(x, float::single((step + 0x8000_0000) as u32));
            d.bits <= x.bits || 0x8000_0000 <= d.bits <= 0xff80_0000
        }),
{
    let f = Format::Single;
    vstd::arithmetic::power2::lemma2_to64();
    let u = fs::units(f, x.bits as nat);
    let s = fs::units(f, step as nat);
    fs::lemma_units_monotone(f, 1, step as nat);
    fs::lemma_units_step(f, 0);
    fs::lemma_nearest_at_least(f, u + s, 1, x.bits as nat);
    fs::lemma_nearest_exists(f, u + s, 1);
    assert(fs::is_nearest(f, u + s, 1, fs::nearest(f, u + s, 1)));
    let d = fs::abs(u - s);
    fs::lemma_nearest_exists(f, d, 1);
    assert(fs::is_nearest(f, d, 1, fs::nearest(f, d, 1)));
    if u >= s {
        fs::lemma_nearest_at_most(f, d, 1, x.bits as nat);
    }
    let m = (step + 0x8000_0000) as nat;
    assert(fs::magnitude(f, m) == step && fs::negative(f, m));
}


/// A scaling is given to the mirroring program by its label in small letters.
pub proof fn scalings_are_given_by_their_labels(scaling: MirrorScaling)
    ensures
        scaling.arg_text() == spec::lower(scaling.label_text()),
{
    reveal_strlit("Fit");
    reveal_strlit("Cover");
    reveal_strlit("Exact");
    reveal_strlit("Linear");
    reveal_strlit("fit");
    reveal_strlit("cover");
    reveal_strlit("exact");
    reveal_strlit("linear");
    assert(scaling.arg_text() =~= spec::lower(scaling.label_text()));
}


} // verus!
