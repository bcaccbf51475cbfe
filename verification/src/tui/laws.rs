//! What holds of the interface as a whole.
use vstd::prelude::*;

use crate::apply::StepView;
use crate::float;
use crate::kelvin;
use crate::models::OutputView;
use crate::text_spec as spec;
use crate::tui::menu::{
    choice, field_numbered, items, meaning, mirror_targets, place_of, position_items, pressed,
    with_field, CommandView, Key, KeyActionView,
};
use crate::tui::screen::{menu_area, menu_fits, menu_height, menu_width, offset, Area};
use crate::tui::{is_output, refreshed, Field, TuiView};

verus! {

/// Whether the selected output is one of those shown, where there are any.
pub open spec fn selects_an_output(v: TuiView) -> bool {
    v.outputs.len() > 0 ==> 0 <= v.selected_output < v.outputs.len()
}

/// Whatever the outputs are after a refresh, one of them is selected.
pub proof fn refreshing_selects_an_output(
    v: TuiView,
    outputs: Seq<OutputView>,
    mirroring: Seq<Seq<char>>,
)
    requires
        v.selected_output >= 0,
    ensures
        selects_an_output(refreshed(v, outputs, mirroring)),
{
}

/// No key leaves the outputs that there are.
pub proof fn keys_keep_an_output_selected(v: TuiView, key: Key)
    requires
        selects_an_output(v),
    ensures
        selects_an_output(pressed(v, key).0),
{
    let n = v.outputs.len() as int;
    if n > 0 {
        vstd::arithmetic::div_mod::lemma_mod_bound(v.selected_output + 1, n);
    }
}

/// A key leads out of the interface exactly where it is `q` or Escape and the menu is closed.
pub proof fn only_leaving_a_closed_menu_quits(v: TuiView, key: Key)
    ensures
        pressed(v, key).1 is Quit <==> (meaning(key) is Leave && !v.dropdown_open),
{
}

/// A key asks for a change only where it is Enter and the menu is open, and the change then
/// concerns the selected output. No key by itself changes what is known of the outputs.
pub proof fn only_accepting_asks_for_changes(v: TuiView, key: Key)
    ensures
        pressed(v, key).1 matches KeyActionView::Run { output, command, message } ==> {
            &&& meaning(key) is Accept
            &&& v.dropdown_open
            &&& 0 <= v.selected_output < v.outputs.len()
            &&& output == v.outputs[v.selected_output].name
        },
        pressed(v, key).0.outputs == v.outputs,
        pressed(v, key).0.mirroring == v.mirroring,
        pressed(v, key).0.backend == v.backend,
{
}

proof fn lemma_field_numbers(f: Field)
    ensures
        field_numbered(f.number()) == f,
        field_numbered((f.number() + 1) % 10).number() == (f.number() + 1) % 10,
        field_numbered((f.number() + 9) % 10).number() == (f.number() + 9) % 10,
{
}

/// Left undoes right and right undoes left among the fields.
pub proof fn left_and_right_undo_each_other(v: TuiView)
    requires
        !v.dropdown_open,
    ensures
        pressed(pressed(v, Key::Right).0, Key::Left).0.selected_field == v.selected_field,
        pressed(pressed(v, Key::Left).0, Key::Right).0.selected_field == v.selected_field,
{
    let n = v.selected_field.number();
    assert(0 <= n < 10);
    lemma_field_numbers(v.selected_field);
    let right = pressed(v, Key::Right).0;
    assert(right == with_field(v, (n + 1) % 10));
    lemma_field_numbers(right.selected_field);
    assert(pressed(right, Key::Left).0 == with_field(
        right,
        (right.selected_field.number() + 9) % 10,
    ));
    let left = pressed(v, Key::Left).0;
    assert(left == with_field(v, (n + 9) % 10));
    lemma_field_numbers(left.selected_field);
    assert(pressed(left, Key::Right).0 == with_field(
        left,
        (left.selected_field.number() + 1) % 10,
    ));
}

/// Up undoes down and down undoes up: among the outputs while the menu is closed, and else in the
/// menu.
pub proof fn up_and_down_undo_each_other(v: TuiView)
    requires
        selects_an_output(v),
        v.dropdown_open ==> (items(v).len() > 0 ==> 0 <= v.dropdown_selection < items(v).len()),
    ensures
        pressed(pressed(v, Key::Down).0, Key::Up).0 == v,
        pressed(pressed(v, Key::Up).0, Key::Down).0 == v,
{
    let n = if v.dropdown_open {
        items(v).len() as int
    } else {
        v.outputs.len() as int
    };
    let k = if v.dropdown_open {
        v.dropdown_selection
    } else {
        v.selected_output
    };
    if n > 0 {
        if k + 1 < n {
            vstd::arithmetic::div_mod::lemma_small_mod((k + 1) as nat, n as nat);
        } else {
            vstd::arithmetic::div_mod::lemma_mod_self_0(n);
        }
        if k > 0 {
            vstd::arithmetic::div_mod::lemma_small_mod(k as nat, n as nat);
        } else {
            vstd::arithmetic::div_mod::lemma_mod_self_0(n);
        }
        let down = pressed(v, Key::Down).0;
        let up = pressed(v, Key::Up).0;
        if v.dropdown_open {
            assert(items(down) == items(v));
            assert(items(up) == items(v));
        }
        assert(pressed(down, Key::Up).0 =~= v);
        assert(pressed(up, Key::Down).0 =~= v);
    }
}

/// The menu asks for a brightness from zero to one, for a gamma of at least one tenth, and for a
/// temperature that a screen can have.
pub proof fn asked_settings_are_in_range(v: TuiView)
    ensures
        choice(v).1 matches Some((CommandView::Apply(step), message)) ==> match step {
            StepView::Brightness(x) => float::clamped(x) == x,
            StepView::Gamma(x) => !float::less(x, float::single(float::TENTH)),
            StepView::Temperature(t) => kelvin::MIN_KELVIN <= t <= kelvin::MAX_KELVIN,
            _ => true,
        },
{
    vstd::arithmetic::power2::lemma2_to64();
}

/// The menu asks only for modes that the output has.
pub proof fn asked_modes_are_available(v: TuiView)
    ensures
        choice(v).1 matches Some((CommandView::Apply(StepView::Mode(m)), message)) ==> {
            v.outputs[v.selected_output].available_modes.contains(m)
        },
{
}

/// Whether there is an output of that name that is not the one of the other name.
pub open spec fn is_other_output(
    outputs: Seq<OutputView>,
    name: Seq<char>,
    other: Seq<char>,
) -> bool {
    other != name && is_output(outputs, other)
}

proof fn lemma_more_outputs(outputs: Seq<OutputView>, name: Seq<char>)
    requires
        outputs.len() > 0,
        is_output(outputs.drop_last(), name),
    ensures
        is_output(outputs, name),
{
    let i = choose|i: int|
        0 <= i < outputs.drop_last().len() && (#[trigger] outputs.drop_last()[i]).name == name;
    assert(outputs[i].name == name);
}

pub(crate) proof fn lemma_prefix_stripped(p: Seq<char>, s: Seq<char>)
    ensures
        spec::strip_prefix(p + s, p) == Some(s),
        spec::starts_with(p + s, p),
{
    assert((p + s).take(p.len() as int) =~= p);
    assert((p + s).skip(p.len() as int) =~= s);
}

pub(crate) proof fn lemma_places_read(other: Seq<char>)
    ensures
        place_of("Left of "@ + other) == Some((crate::models::Side::Left, other)),
        place_of("Right of "@ + other) == Some((crate::models::Side::Right, other)),
        place_of("Above "@ + other) == Some((crate::models::Side::Above, other)),
        place_of("Below "@ + other) == Some((crate::models::Side::Below, other)),
{
    reveal_strlit("Left of ");
    reveal_strlit("Right of ");
    reveal_strlit("Above ");
    reveal_strlit("Below ");
    lemma_prefix_stripped("Left of "@, other);
    lemma_prefix_stripped("Right of "@, other);
    lemma_prefix_stripped("Above "@, other);
    lemma_prefix_stripped("Below "@, other);
    let right = "Right of "@ + other;
    assert(right.take("Left of "@.len() as int)[0] == 'R');
    let above = "Above "@ + other;
    assert("Left of "@.len() <= above.len() ==> above.take("Left of "@.len() as int)[0] == 'A');
    assert("Right of "@.len() <= above.len() ==> above.take("Right of "@.len() as int)[0] == 'A');
    let below = "Below "@ + other;
    assert("Left of "@.len() <= below.len() ==> below.take("Left of "@.len() as int)[0] == 'B');
    assert("Right of "@.len() <= below.len() ==> below.take("Right of "@.len() as int)[0] == 'B');
    assert(below.take("Above "@.len() as int)[0] == 'B');
    assert("Left of "@[0] == 'L');
    assert("Right of "@[0] == 'R');
    assert("Above "@[0] == 'A');
}

proof fn lemma_position_items(outputs: Seq<OutputView>, name: Seq<char>, k: int)
    requires
        0 <= k < position_items(outputs, name).len(),
    ensures
        ({
            let item = position_items(outputs, name)[k];
            item == "Custom X,Y"@ || (place_of(item) matches Some(t) && is_other_output(
                outputs,
                name,
                t.1,
            ))
        }),
    decreases outputs.len(),
{
    if outputs.len() > 0 {
        let rest = position_items(outputs.drop_last(), name);
        let other = outputs.last().name;
        lemma_places_read(other);
        if k < rest.len() {
            lemma_position_items(outputs.drop_last(), name, k);
            if let Some(t) = place_of(rest[k]) {
                if is_output(outputs.drop_last(), t.1) {
                    lemma_more_outputs(outputs, t.1);
                }
            }
        } else {
            assert(outputs[outputs.len() - 1].name == other);
        }
    }
}

/// The menu asks for a place only next to another output.
pub proof fn places_are_beside_other_outputs(v: TuiView)
    ensures
        choice(v).1 matches Some((CommandView::PlaceBeside(side, target), message)) ==> {
            is_other_output(v.outputs, v.outputs[v.selected_output].name, target)
        },
{
    if 0 <= v.selected_output < v.outputs.len() && 0 <= v.dropdown_selection < items(v).len()
        && v.selected_field is Position {
        lemma_position_items(
            v.outputs,
            v.outputs[v.selected_output].name,
            v.dropdown_selection,
        );
    }
}

proof fn lemma_mirror_targets(outputs: Seq<OutputView>, name: Seq<char>, k: int)
    requires
        0 <= k < mirror_targets(outputs, name).len(),
    ensures
        spec::strip_prefix(mirror_targets(outputs, name)[k], "Mirror: "@) matches Some(t)
            && is_other_output(outputs, name, t),
    decreases outputs.len(),
{
    if outputs.len() > 0 {
        let rest = mirror_targets(outputs.drop_last(), name);
        let o = outputs.last();
        if k < rest.len() {
            lemma_mirror_targets(outputs.drop_last(), name, k);
            lemma_more_outputs(outputs, spec::strip_prefix(rest[k], "Mirror: "@)->Some_0);
        } else {
            lemma_prefix_stripped("Mirror: "@, o.name);
            assert(outputs[outputs.len() - 1].name == o.name);
        }
    }
}

/// Whether a mirroring that waits for its scaling is one of two different outputs that there are.
pub open spec fn waits_for_two_outputs(v: TuiView) -> bool {
    v.mirror_pending matches Some((dest, source)) ==> {
        &&& dest != source
        &&& is_output(v.outputs, dest)
        &&& is_output(v.outputs, source)
    }
}

/// A key lets only a mirroring of two different outputs that there are wait for its scaling.
pub proof fn keys_keep_mirrorings_possible(v: TuiView, key: Key)
    requires
        waits_for_two_outputs(v),
    ensures
        waits_for_two_outputs(pressed(v, key).0),
{
    if 0 <= v.selected_output < v.outputs.len() && 0 <= v.dropdown_selection < items(v).len()
        && v.selected_field is Mirror && v.mirror_pending is None {
        reveal_strlit("Stop mirroring");
        reveal_strlit("No other outputs available");
        reveal_strlit("Mirror: ");
        let name = v.outputs[v.selected_output].name;
        assert(v.outputs[v.selected_output].name == name);
        let item = items(v)[v.dropdown_selection];
        let head = if v.mirroring.contains(name) {
            1int
        } else {
            0
        };
        let targets = mirror_targets(v.outputs, name);
        if head <= v.dropdown_selection < head + targets.len() {
            assert(item == targets[v.dropdown_selection - head]);
            lemma_mirror_targets(v.outputs, name, v.dropdown_selection - head);
        } else {
            assert(item == "Stop mirroring"@ || item == "No other outputs available"@);
            assert("Mirror: "@[0] == 'M');
            assert(item.take("Mirror: "@.len() as int)[0] != 'M');
        }
    }
}

/// After a refresh, a mirroring that waits for its scaling is still one of two different outputs
/// that there are.
pub proof fn refreshing_keeps_mirrorings_possible(
    v: TuiView,
    outputs: Seq<OutputView>,
    mirroring: Seq<Seq<char>>,
)
    requires
        waits_for_two_outputs(v),
    ensures
        waits_for_two_outputs(refreshed(v, outputs, mirroring)),
{
}

/// A mirroring that is started is one of two different outputs that there are.
pub proof fn started_mirrorings_are_possible(v: TuiView)
    requires
        waits_for_two_outputs(v),
    ensures
        choice(v).1 matches Some((CommandView::StartMirror(dest, source, scaling), message)) ==> {
            &&& dest != source
            &&& is_output(v.outputs, dest)
            &&& is_output(v.outputs, source)
            &&& choice(v).0.mirror_pending is None
        },
{
}

/// The width of an output in the row.
pub open spec fn row_width(o: OutputView) -> int {
    match o.current_mode {
        Some(m) => m.width as int,
        None => 0,
    }
}

/// Outputs side by side do not overlap: each begins where those before it have ended.
pub proof fn outputs_side_by_side_do_not_overlap(outputs: Seq<OutputView>, j: int, k: int)
    requires
        0 <= j < k < outputs.len(),
        forall|i: int| 0 <= i < outputs.len() ==> row_width(#[trigger] outputs[i]) <= i32::MAX,
    ensures
        offset(outputs, j) + row_width(outputs[j]) <= offset(outputs, k),
    decreases k,
{
    assert(row_width(outputs[k - 1]) <= i32::MAX);
    if j < k - 1 {
        outputs_side_by_side_do_not_overlap(outputs, j, k - 1);
    }
}

/// The menu stands within the area where that is large enough for it.
pub proof fn menu_stands_within_the_area(list: Seq<Seq<char>>, area: Area)
    requires
        area.x + area.width <= u16::MAX,
        area.y + area.height <= u16::MAX,
        menu_width(list) <= area.width,
        menu_height(list) <= area.height,
    ensures
        menu_fits(list, area),
        area.x <= menu_area(list, area).x,
        area.y <= menu_area(list, area).y,
        menu_area(list, area).x + menu_width(list) <= area.x + area.width,
        menu_area(list, area).y + menu_height(list) <= area.y + area.height,
{
}

} // verus!
