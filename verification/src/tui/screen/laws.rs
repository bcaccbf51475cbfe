//! What holds of everything that is drawn.
use vstd::prelude::*;

use crate::decimal;
use crate::float;
use crate::models;
use crate::models::OutputView;
use crate::text_spec as spec;
use crate::tui::menu;
use crate::tui::screen::{
    first_line, menu_area, menu_fits, offset, second_line, widest, Area, SegmentStyle,
};
use crate::tui::Field;

verus! {

/// Where a field stands in the second line.
pub open spec fn place(field: Field) -> int {
    match field {
        Field::Enabled => 0,
        Field::Mode => 1,
        Field::Position => 3,
        Field::Mirror => 5,
        Field::Transform => 7,
        Field::Scale => 9,
        Field::AdaptiveSync => 11,
        Field::Brightness => 13,
        Field::Gamma => 15,
        Field::Temperature => 17,
    }
}

/// The selected field is marked, and nothing else is; which field is selected changes no text.
pub proof fn only_the_selected_field_is_marked(o: OutputView, selected: Option<Field>, k: int)
    requires
        0 <= k < second_line(o, selected).len(),
    ensures
        second_line(o, selected)[k].1 is Selected <==> (selected matches Some(f) && place(f) == k),
        second_line(o, selected)[k].0 == second_line(o, None)[k].0,
        second_line(o, selected).len() == second_line(o, None).len() == 18,
{
}

/// The values that are known of an output stand in the fields for them, and two hyphens in the
/// others.
pub proof fn known_values_are_shown(o: OutputView, selected: Option<Field>)
    ensures
        ({
            let line = second_line(o, selected);
            &&& line[place(Field::Mode)].0 == "Mode: "@ + (match o.current_mode {
                Some(m) => menu::mode_item(m),
                None => "--"@,
            }) + " "@
            &&& line[place(Field::Scale)].0 == "Scale: "@ + (match o.scale {
                Some(s) => float::fixed_double(s, 2) + "x"@,
                None => "--"@,
            }) + " "@
            &&& line[place(Field::Brightness)].0 == "Br: "@ + (match o.color.brightness {
                Some(b) => models::percent_text(b),
                None => "--"@,
            }) + " "@
            &&& line[place(Field::Gamma)].0 == "γ: "@ + (match o.color.gamma {
                Some(g) => float::fixed(g, 2),
                None => "--"@,
            }) + " "@
            &&& line[place(Field::Temperature)].0 == "T: "@ + (match o.color.temperature {
                Some(t) => decimal::decimal(t as nat) + "K"@,
                None => "--"@,
            })
            &&& line[place(Field::Position)].0 == "Pos "@
            &&& line[place(Field::Mirror)].0 == "Mirror "@
            &&& line[place(Field::Transform)].0 == "Transform "@
            &&& line[place(Field::AdaptiveSync)].0 == "VRR "@
        }),
{
}

/// Whether an output is enabled is said, and marked where that field is not selected.
pub proof fn states_are_shown(o: OutputView, selected: Option<Field>)
    ensures
        second_line(o, selected)[0].0 == (if o.enabled {
            "[enabled] "@
        } else {
            "[disabled] "@
        }),
        selected != Some(Field::Enabled) ==> (second_line(o, selected)[0].1 is On <==> o.enabled) && (
        second_line(o, selected)[0].1 is Off <==> !o.enabled),
{
    reveal_strlit("[");
    reveal_strlit("] ");
    reveal_strlit("enabled");
    reveal_strlit("disabled");
    reveal_strlit("[enabled] ");
    reveal_strlit("[disabled] ");
    assert("["@ + "enabled"@ + "] "@ =~= "[enabled] "@);
    assert("["@ + "disabled"@ + "] "@ =~= "[disabled] "@);
}

/// The first line begins with the name, and ends with the mark exactly where the output shows
/// another one; a description stands between them.
pub proof fn names_come_first(o: OutputView, mirroring: bool)
    ensures
        ({
            let line = first_line(o, mirroring);
            let described = o.description matches Some(d) && d.len() > 0;
            &&& line[0] == (o.name, SegmentStyle::Bold)
            &&& line.last().1 is Mirroring <==> mirroring
            &&& mirroring ==> line.last().0 == "[🔄 MIRRORING]"@
            &&& described ==> line[2].0 == o.description->Some_0
            &&& line.len() == 1 + (if described {
                2int
            } else {
                0
            }) + (if mirroring {
                2int
            } else {
                0
            })
            &&& forall|k: int|
                1 <= k < line.len() - 1 ==> (#[trigger] line[k]).1 is Plain
        }),
{
}

/// The width of a list is that of its widest text, or twenty where all are narrower.
pub proof fn widest_is_a_greatest_width(items: Seq<Seq<char>>)
    ensures
        widest(items) >= 20,
        forall|k: int| 0 <= k < items.len() ==> spec::byte_len(#[trigger] items[k]) <= widest(items),
        widest(items) == 20 || exists|k: int|
            0 <= k < items.len() && spec::byte_len(#[trigger] items[k]) == widest(items),
    decreases items.len(),
{
    if items.len() > 0 {
        let t = items.drop_last();
        widest_is_a_greatest_width(t);
        assert forall|k: int| 0 <= k < items.len() implies spec::byte_len(#[trigger] items[k]) <= widest(
            items,
        ) by {
            if k < t.len() {
                assert(t[k] == items[k]);
            }
        }
        if widest(items) != 20 {
            if spec::byte_len(items.last()) > widest(t) {
                assert(spec::byte_len(items[items.len() - 1]) == widest(items));
            } else {
                let k = choose|k: int|
                    0 <= k < t.len() && spec::byte_len(#[trigger] t[k]) == widest(t);
                assert(items[k] == t[k]);
            }
        }
    }
}

/// A menu that is no larger than its area stands in the middle of it: what is left over on the two
/// sides differs by at most one. All its items fit into its frame, unless they are too many.
pub proof fn menus_stand_in_the_middle(items: Seq<Seq<char>>, area: Area)
    requires
        menu_fits(items, area),
    ensures
        ({
            let m = menu_area(items, area);
            &&& m.width <= area.width ==> {
                let before = m.x - area.x;
                let after = area.width - m.width - before;
                0 <= before <= after <= before + 1
            }
            &&& m.width > area.width ==> m.x == area.x
            &&& m.height <= area.height ==> {
                let above = m.y - area.y;
                let below = area.height - m.height - above;
                0 <= above <= below <= above + 1
            }
            &&& m.height > area.height ==> m.y == area.y
            &&& widest(items) < 0x1_0000 ==> m.width == widest(items) + 4
            &&& items.len() <= 18 ==> m.height == items.len() + 2
            &&& items.len() > 18 ==> m.height == 20
        }),
{
    if widest(items) < 0x1_0000 {
        vstd::arithmetic::div_mod::lemma_small_mod(widest(items), 0x1_0000);
    }
}

/// Side by side, the first output begins at zero and each other one where the one before it ends.
pub proof fn outputs_stand_side_by_side(outputs: Seq<OutputView>, k: int)
    requires
        0 <= k < outputs.len(),
    ensures
        offset(outputs, 0) == 0,
        outputs[k].current_mode is None ==> offset(outputs, k + 1) == offset(outputs, k),
        outputs[k].current_mode matches Some(m) ==> m.width <= i32::MAX ==> offset(outputs, k + 1)
            == offset(outputs, k) + m.width,
{
}

} // verus!
