//! The menu of the selected field, and what its items ask for.
use vstd::prelude::*;

use crate::apply::{Step, StepView};
use crate::decimal;
use crate::float;
use crate::float::{Double, Single};
use crate::kelvin;
use crate::models;
use crate::models::{DisplayMode, DisplayOutput, OutputView, Side};
use crate::text;
use crate::text_spec as spec;
use crate::transforms;
use crate::tui::{Field, MirrorScaling, MirrorSetup, TuiState, TuiView};
use crate::x11;

pub mod laws;

verus! {

/// A key that was pressed.
#[derive(Clone, Copy, Debug)]
pub enum Key {
    Char(char),
    Esc,
    Up,
    Down,
    Left,
    Right,
    Tab,
    Enter,
    Other,
}

/// What is to be done to the selected output.
#[derive(Debug)]
pub enum Command {
    /// A change as on the command line.
    Apply(Step),
    /// Place it next to another output.
    PlaceBeside(Side, String),
    Transform(String),
    AdaptiveSync(bool),
    /// Let an output show another one.
    StartMirror(MirrorSetup, MirrorScaling),
    StopMirror,
}

/// What a [`Command`] holds.
pub enum CommandView {
    Apply(StepView),
    PlaceBeside(Side, Seq<char>),
    Transform(Seq<char>),
    AdaptiveSync(bool),
    StartMirror(Seq<char>, Seq<char>, MirrorScaling),
    StopMirror,
}

impl View for Command {
    type V = CommandView;

    open spec fn view(&self) -> CommandView {
        match self {
            Command::Apply(s) => CommandView::Apply(s@),
            Command::PlaceBeside(side, s) => CommandView::PlaceBeside(*side, s@),
            Command::Transform(s) => CommandView::Transform(s@),
            Command::AdaptiveSync(b) => CommandView::AdaptiveSync(*b),
            Command::StartMirror(m, s) => CommandView::StartMirror(m.dest@, m.source@, *s),
            Command::StopMirror => CommandView::StopMirror,
        }
    }
}

/// What the caller does after a key.
#[derive(Debug)]
pub enum KeyAction {
    /// Nothing.
    Stay,
    /// End the interface.
    Quit,
    /// Find out what the outputs are now.
    Refresh,
    /// Carry the command out on the output, and show the message where that succeeds.
    Run { output: String, command: Command, message: String },
}

/// What a [`KeyAction`] holds.
pub enum KeyActionView {
    Stay,
    Quit,
    Refresh,
    Run { output: Seq<char>, command: CommandView, message: Seq<char> },
}

impl View for KeyAction {
    type V = KeyActionView;

    open spec fn view(&self) -> KeyActionView {
        match self {
            KeyAction::Stay => KeyActionView::Stay,
            KeyAction::Quit => KeyActionView::Quit,
            KeyAction::Refresh => KeyActionView::Refresh,
            KeyAction::Run { output, command, message } => KeyActionView::Run {
                output: output@,
                command: command@,
                message: message@,
            },
        }
    }
}

// ---- items ----

/// A mode in the menu: `WxH`, and the rate without places.
pub open spec fn mode_item(m: DisplayMode) -> Seq<char> {
    models::size_text(m.width, m.height) + match m.refresh_hz {
        Some(hz) => " @ "@ + float::fixed(hz, 0) + "Hz"@,
        None => seq![],
    }
}

pub open spec fn mode_items(s: Seq<DisplayMode>) -> Seq<Seq<char>> {
    Seq::new(s.len(), |i: int| mode_item(s[i]))
}

/// The places next to the other outputs.
pub open spec fn position_items(outputs: Seq<OutputView>, name: Seq<char>) -> Seq<Seq<char>>
    decreases outputs.len(),
{
    if outputs.len() == 0 {
        seq!["Custom X,Y"@]
    } else {
        let rest = position_items(outputs.drop_last(), name);
        let other = outputs.last().name;
        if other == name {
            rest
        } else {
            rest.push("Left of "@ + other).push("Right of "@ + other).push("Above "@ + other).push(
                "Below "@ + other,
            )
        }
    }
}

/// The other outputs that can be mirrored.
pub open spec fn mirror_targets(outputs: Seq<OutputView>, name: Seq<char>) -> Seq<Seq<char>>
    decreases outputs.len(),
{
    if outputs.len() == 0 {
        seq![]
    } else {
        let rest = mirror_targets(outputs.drop_last(), name);
        let o = outputs.last();
        if o.name != name && o.enabled {
            rest.push("Mirror: "@ + o.name)
        } else {
            rest
        }
    }
}

/// The items for mirroring, while no scaling is to be chosen.
pub open spec fn mirror_items(v: TuiView, name: Seq<char>) -> Seq<Seq<char>> {
    let items = (if v.mirroring.contains(name) {
        seq!["Stop mirroring"@]
    } else {
        seq![]
    }) + mirror_targets(v.outputs, name);
    if items.len() == 0 {
        seq!["No other outputs available"@]
    } else {
        items
    }
}

/// The items of the menu.
pub open spec fn items(v: TuiView) -> Seq<Seq<char>> {
    if !(0 <= v.selected_output < v.outputs.len()) {
        seq![]
    } else {
        let o = v.outputs[v.selected_output];
        match v.selected_field {
            Field::Enabled => seq![
                if o.enabled {
                    "Disable"@
                } else {
                    "Enable"@
                },
            ],
            Field::Mode => mode_items(o.available_modes),
            Field::Position => position_items(v.outputs, o.name),
            Field::Transform => seq![
                "normal"@,
                "90°"@,
                "180°"@,
                "270°"@,
                "flipped"@,
                "flipped-90°"@,
                "flipped-180°"@,
                "flipped-270°"@,
            ],
            Field::Mirror => if v.mirror_pending is Some {
                seq!["Fit"@, "Cover"@, "Exact"@, "Linear"@, "Cancel"@]
            } else {
                mirror_items(v, o.name)
            },
            Field::Scale => seq!["0.5x"@, "0.75x"@, "1.0x"@, "1.25x"@, "1.5x"@, "2.0x"@],
            Field::AdaptiveSync => seq!["Enable"@, "Disable"@],
            Field::Brightness => seq!["+5%"@, "-5%"@],
            Field::Gamma => seq!["+0.1"@, "-0.1"@],
            Field::Temperature => seq!["+100K"@, "-100K"@],
        }
    }
}

fn push_item(v: &mut Vec<String>, s: &str)
    ensures
        spec::strings(final(v)@) == spec::strings(old(v)@).push(s@),
{
    crate::command::push(v, s);
}

fn push_joined(v: &mut Vec<String>, a: &str, b: &str)
    ensures
        spec::strings(final(v)@) == spec::strings(old(v)@).push(a@ + b@),
{
    let mut s = String::from_str(a);
    s.append(b);
    push_item(v, s.as_str());
}

pub(crate) fn mode_item_string(m: DisplayMode) -> (r: String)
    ensures
        r@ == mode_item(m),
{
    let mut r = models::size_string(m.width, m.height);
    if let Some(hz) = m.refresh_hz {
        r.append(" @ ");
        let rate = hz.fixed(0);
        text::push_chars(&mut r, rate.as_slice());
        r.append("Hz");
    }
    assert(r@ =~= mode_item(m));
    r
}

fn mode_items_of(modes: &Vec<DisplayMode>) -> (r: Vec<String>)
    ensures
        spec::strings(r@) == mode_items(modes@),
{
    let mut r: Vec<String> = Vec::new();
    let mut i: usize = 0;
    while i < modes.len()
        invariant
            i <= modes@.len(),
            r@.len() == i,
            forall|k: int| 0 <= k < i ==> (#[trigger] r@[k])@ == mode_item(modes@[k]),
        decreases modes.len() - i,
    {
        let s = mode_item_string(modes[i]);
        r.push(s);
        i = i + 1;
    }
    assert(spec::strings(r@) =~= mode_items(modes@));
    r
}

fn position_items_of(outputs: &Vec<DisplayOutput>, name: &str) -> (r: Vec<String>)
    ensures
        spec::strings(r@) == position_items(models::views(outputs@), name@),
{
    let ghost os = models::views(outputs@);
    let mut r: Vec<String> = Vec::new();
    assert(spec::strings(r@) =~= seq![]);
    push_item(&mut r, "Custom X,Y");
    let mut i: usize = 0;
    while i < outputs.len()
        invariant
            i <= outputs@.len(),
            os == models::views(outputs@),
            spec::strings(r@) == position_items(os.take(i as int), name@),
        decreases outputs.len() - i,
    {
        let other = outputs[i].name.as_str();
        proof {
            assert(os.take(i + 1).drop_last() == os.take(i as int));
            assert(os.take(i + 1).last().name == other@);
        }
        if !text::same_str(other, name) {
            push_joined(&mut r, "Left of ", other);
            push_joined(&mut r, "Right of ", other);
            push_joined(&mut r, "Above ", other);
            push_joined(&mut r, "Below ", other);
        }
        i = i + 1;
    }
    assert(os.take(os.len() as int) == os);
    r
}

fn mirror_items_of(state: &TuiState, name: &str) -> (r: Vec<String>)
    ensures
        spec::strings(r@) == mirror_items(state@, name@),
{
    let outputs = state.outputs();
    let ghost os = state@.outputs;
    let mut r: Vec<String> = Vec::new();
    assert(spec::strings(r@) =~= seq![]);
    if state.is_mirroring(name) {
        push_item(&mut r, "Stop mirroring");
    }
    let ghost head = spec::strings(r@);
    let mut i: usize = 0;
    assert(head + mirror_targets(os.take(0), name@) =~= head);
    while i < outputs.len()
        invariant
            i <= outputs@.len(),
            os == models::views(outputs@),
            spec::strings(r@) == head + mirror_targets(os.take(i as int), name@),
        decreases outputs.len() - i,
    {
        let ghost before = spec::strings(r@);
        let other = outputs[i].name.as_str();
        proof {
            assert(os.take(i + 1).drop_last() == os.take(i as int));
            assert(os.take(i + 1).last() == outputs@[i as int]@);
        }
        if !text::same_str(other, name) && outputs[i].enabled {
            push_joined(&mut r, "Mirror: ", other);
            assert(spec::strings(r@) =~= head + mirror_targets(os.take(i + 1), name@));
        }
        i = i + 1;
    }
    assert(os.take(os.len() as int) == os);
    assert(spec::strings(r@).len() == r@.len());
    if r.len() == 0 {
        push_item(&mut r, "No other outputs available");
        assert(spec::strings(r@) =~= seq!["No other outputs available"@]);
    }
    r
}

fn list2(a: &str, b: &str) -> (r: Vec<String>)
    ensures
        spec::strings(r@) == seq![a@, b@],
{
    let mut r: Vec<String> = Vec::new();
    assert(spec::strings(r@) =~= seq![]);
    push_item(&mut r, a);
    push_item(&mut r, b);
    r
}

impl TuiState {
    /// The items of the menu.
    pub fn get_dropdown_items(&self) -> (r: Vec<String>)
        ensures
            spec::strings(r@) == items(self@),
    {
        let mut r: Vec<String> = Vec::new();
        assert(spec::strings(r@) =~= seq![]);
        let outputs = self.outputs();
        let selected = self.selected_output();
        if selected >= outputs.len() {
            return r;
        }
        let o = &outputs[selected];
        assert(o@ == self@.outputs[self@.selected_output]);
        match self.selected_field() {
            Field::Enabled => {
                push_item(
                    &mut r,
                    if o.enabled {
                        "Disable"
                    } else {
                        "Enable"
                    },
                );
                r
            },
            Field::Mode => mode_items_of(&o.available_modes),
            Field::Position => position_items_of(outputs, o.name.as_str()),
            Field::Transform => {
                push_item(&mut r, "normal");
                push_item(&mut r, "90°");
                push_item(&mut r, "180°");
                push_item(&mut r, "270°");
                push_item(&mut r, "flipped");
                push_item(&mut r, "flipped-90°");
                push_item(&mut r, "flipped-180°");
                push_item(&mut r, "flipped-270°");
                r
            },
            Field::Mirror => {
                if self.has_pending() {
                    let all = MirrorScaling::all();
                    push_item(&mut r, all[0].label());
                    push_item(&mut r, all[1].label());
                    push_item(&mut r, all[2].label());
                    push_item(&mut r, all[3].label());
                    push_item(&mut r, "Cancel");
                    r
                } else {
                    mirror_items_of(self, o.name.as_str())
                }
            },
            Field::Scale => {
                push_item(&mut r, "0.5x");
                push_item(&mut r, "0.75x");
                push_item(&mut r, "1.0x");
                push_item(&mut r, "1.25x");
                push_item(&mut r, "1.5x");
                push_item(&mut r, "2.0x");
                r
            },
            Field::AdaptiveSync => list2("Enable", "Disable"),
            Field::Brightness => list2("+5%", "-5%"),
            Field::Gamma => list2("+0.1", "-0.1"),
            Field::Temperature => list2("+100K", "-100K"),
        }
    }
}

// ---- commands ----

/// The bit pattern of five hundredths, rounded.
pub const BRIGHTER: u32 = 0x3d4c_cccd;

/// The bit pattern of minus five hundredths, rounded.
pub const DARKER: u32 = 0xbd4c_cccd;

/// The bit pattern of minus one tenth, rounded.
pub const LESS_GAMMA: u32 = 0xbdcc_cccd;

/// The brightness after an item of its menu.
pub open spec fn new_brightness(current: Option<Single>, choice: int) -> Single {
    float::clamped(
        float::sum(
            x11::or_one(current),
            float::single(
                if choice == 0 {
                    BRIGHTER
                } else {
                    DARKER
                },
            ),
        ),
    )
}

/// The gamma after an item of its menu.
pub open spec fn new_gamma(current: Option<Single>, choice: int) -> Single {
    float::at_least(
        float::sum(
            x11::or_one(current),
            float::single(
                if choice == 0 {
                    float::TENTH
                } else {
                    LESS_GAMMA
                },
            ),
        ),
        float::single(float::TENTH),
    )
}

/// The temperature after an item of its menu.
pub open spec fn new_temperature(current: Option<u16>, choice: int) -> u16 {
    let t = (match current {
        Some(t) => t as int,
        None => kelvin::NEUTRAL_KELVIN as int,
    }) + if choice == 0 {
        100int
    } else {
        -100
    };
    if t < kelvin::MIN_KELVIN {
        kelvin::MIN_KELVIN
    } else if t > kelvin::MAX_KELVIN {
        kelvin::MAX_KELVIN
    } else {
        t as u16
    }
}

/// The scale of an item of its menu.
pub open spec fn scale_at(choice: int) -> Option<Double> {
    if choice == 0 {
        Some(float::double(0x3fe0_0000_0000_0000))
    } else if choice == 1 {
        Some(float::double(0x3fe8_0000_0000_0000))
    } else if choice == 2 {
        Some(float::double(0x3ff0_0000_0000_0000))
    } else if choice == 3 {
        Some(float::double(0x3ff4_0000_0000_0000))
    } else if choice == 4 {
        Some(float::double(0x3ff8_0000_0000_0000))
    } else if choice == 5 {
        Some(float::double(0x4000_0000_0000_0000))
    } else {
        None
    }
}

/// The word for a side in a message.
pub open spec fn side_word(side: Side) -> Seq<char> {
    match side {
        Side::Left => "left"@,
        Side::Right => "right"@,
        Side::Above => "above"@,
        Side::Below => "below"@,
    }
}

/// The place that an item of the menu for positions stands for.
pub open spec fn place_of(item: Seq<char>) -> Option<(Side, Seq<char>)> {
    if spec::starts_with(item, "Left of "@) {
        Some((Side::Left, spec::strip_prefix(item, "Left of "@)->Some_0))
    } else if spec::starts_with(item, "Right of "@) {
        Some((Side::Right, spec::strip_prefix(item, "Right of "@)->Some_0))
    } else if spec::starts_with(item, "Above "@) {
        Some((Side::Above, spec::strip_prefix(item, "Above "@)->Some_0))
    } else if spec::starts_with(item, "Below "@) {
        Some((Side::Below, spec::strip_prefix(item, "Below "@)->Some_0))
    } else {
        None
    }
}

/// What is asked for by a choice in the menu, with the message for its success.
pub type Choice = Option<(CommandView, Seq<char>)>;

/// The choice of a position.
pub open spec fn position_choice(v: TuiView, name: Seq<char>) -> (TuiView, Choice) {
    if !(0 <= v.dropdown_selection < items(v).len()) {
        (v, None)
    } else {
        let item = items(v)[v.dropdown_selection];
        if item == "Custom X,Y"@ {
            (TuiView { status: "Custom position not yet implemented"@, ..v }, None)
        } else {
            match place_of(item) {
                Some((side, target)) => (
                    v,
                    Some(
                        (
                            CommandView::PlaceBeside(side, target),
                            name + ": positioned "@ + side_word(side) + " "@ + target,
                        ),
                    ),
                ),
                None => (v, None),
            }
        }
    }
}

/// The scaling with the label.
pub open spec fn scaling_labelled(item: Seq<char>) -> Option<MirrorScaling> {
    if item == "Fit"@ {
        Some(MirrorScaling::Fit)
    } else if item == "Cover"@ {
        Some(MirrorScaling::Cover)
    } else if item == "Exact"@ {
        Some(MirrorScaling::Exact)
    } else if item == "Linear"@ {
        Some(MirrorScaling::Linear)
    } else {
        None
    }
}

/// The choice of what an output is to show: first the output, then the scaling.
pub open spec fn mirror_choice(v: TuiView, name: Seq<char>) -> (TuiView, Choice) {
    if !(0 <= v.dropdown_selection < items(v).len()) {
        (v, None)
    } else {
        let item = items(v)[v.dropdown_selection];
        match v.mirror_pending {
            Some((dest, source)) => {
                let w = crate::tui::menu_closed(TuiView { mirror_pending: None, ..v });
                if item == "Cancel"@ {
                    (TuiView { status: "Mirror selection cancelled"@, ..w }, None)
                } else {
                    match scaling_labelled(item) {
                        Some(scaling) => (
                            TuiView { mirror_scaling: scaling, ..w },
                            Some(
                                (
                                    CommandView::StartMirror(dest, source, scaling),
                                    dest + ": mirroring "@ + source + " ("@ + scaling.arg_text()
                                        + " scaling)"@,
                                ),
                            ),
                        ),
                        None => (v, None),
                    }
                }
            },
            None => if spec::starts_with(item, "Stop"@) {
                (v, Some((CommandView::StopMirror, seq![])))
            } else {
                match spec::strip_prefix(item, "Mirror: "@) {
                    Some(target) => if target == "No other outputs available"@ {
                        (v, None)
                    } else {
                        (
                            TuiView {
                                mirror_pending: Some((name, target)),
                                dropdown_selection: v.mirror_scaling.place(),
                                status: name + ": choose scaling for mirror "@ + target,
                                ..v
                            },
                            None,
                        )
                    },
                    None => (v, None),
                }
            },
        }
    }
}

/// What the selected item of the menu asks for.
pub open spec fn choice(v: TuiView) -> (TuiView, Choice) {
    if !(0 <= v.selected_output < v.outputs.len()) {
        (v, None)
    } else {
        let o = v.outputs[v.selected_output];
        let name = o.name;
        let k = v.dropdown_selection;
        match v.selected_field {
            Field::Enabled => (
                v,
                Some(
                    (
                        CommandView::Apply(StepView::Enabled(!o.enabled)),
                        name + ": "@ + if o.enabled {
                            "disabled"@
                        } else {
                            "enabled"@
                        },
                    ),
                ),
            ),
            Field::Mode => if 0 <= k < o.available_modes.len() {
                let m = o.available_modes[k];
                (
                    v,
                    Some(
                        (
                            CommandView::Apply(StepView::Mode(m)),
                            name + ": mode "@ + mode_item(m),
                        ),
                    ),
                )
            } else {
                (v, None)
            },
            Field::Brightness => {
                let x = new_brightness(o.color.brightness, k);
                (
                    v,
                    Some(
                        (
                            CommandView::Apply(StepView::Brightness(x)),
                            name + ": brightness "@ + models::percent_text(x),
                        ),
                    ),
                )
            },
            Field::Gamma => {
                let x = new_gamma(o.color.gamma, k);
                (
                    v,
                    Some(
                        (
                            CommandView::Apply(StepView::Gamma(x)),
                            name + ": gamma "@ + float::fixed(x, 2),
                        ),
                    ),
                )
            },
            Field::Temperature => {
                let t = new_temperature(o.color.temperature, k);
                (
                    v,
                    Some(
                        (
                            CommandView::Apply(StepView::Temperature(t)),
                            name + ": temperature "@ + decimal::decimal(t as nat) + "K"@,
                        ),
                    ),
                )
            },
            Field::Position => position_choice(v, name),
            Field::Transform => if 0 <= k < 8 {
                let t = transforms::numbered(k as u32);
                (v, Some((CommandView::Transform(t), name + ": transform "@ + t)))
            } else {
                (v, None)
            },
            Field::Mirror => mirror_choice(v, name),
            Field::Scale => match scale_at(k) {
                Some(x) => (
                    v,
                    Some(
                        (
                            CommandView::Apply(StepView::Scale(x)),
                            name + ": scale "@ + float::fixed_double(x, 2) + "x"@,
                        ),
                    ),
                ),
                None => (v, None),
            },
            Field::AdaptiveSync => (
                v,
                Some(
                    (
                        CommandView::AdaptiveSync(k == 0),
                        name + ": adaptive sync "@ + if k == 0 {
                            "enabled"@
                        } else {
                            "disabled"@
                        },
                    ),
                ),
            ),
        }
    }
}

fn or_one(x: Option<Single>) -> (r: Single)
    ensures
        r == x11::or_one(x),
{
    match x {
        Some(v) => v,
        None => Single { bits: float::ONE },
    }
}

fn brightness_after(current: Option<Single>, choice: usize) -> (r: Single)
    ensures
        r == new_brightness(current, choice as int),
{
    let delta = Single {
        bits: if choice == 0 {
            BRIGHTER
        } else {
            DARKER
        },
    };
    or_one(current).plus(delta).clamped()
}

fn gamma_after(current: Option<Single>, choice: usize) -> (r: Single)
    ensures
        r == new_gamma(current, choice as int),
{
    let delta = Single {
        bits: if choice == 0 {
            float::TENTH
        } else {
            LESS_GAMMA
        },
    };
    or_one(current).plus(delta).at_least(Single { bits: float::TENTH })
}

fn temperature_after(current: Option<u16>, choice: usize) -> (r: u16)
    ensures
        r == new_temperature(current, choice as int),
{
    let now: i32 = match current {
        Some(t) => t as i32,
        None => kelvin::NEUTRAL_KELVIN as i32,
    };
    let t: i32 = if choice == 0 {
        now + 100
    } else {
        now - 100
    };
    if t < kelvin::MIN_KELVIN as i32 {
        kelvin::MIN_KELVIN
    } else if t > kelvin::MAX_KELVIN as i32 {
        kelvin::MAX_KELVIN
    } else {
        t as u16
    }
}

fn scale_of(choice: usize) -> (r: Option<Double>)
    ensures
        r == scale_at(choice as int),
{
    match choice {
        0 => Some(Double { bits: 0x3fe0_0000_0000_0000 }),
        1 => Some(Double { bits: 0x3fe8_0000_0000_0000 }),
        2 => Some(Double { bits: 0x3ff0_0000_0000_0000 }),
        3 => Some(Double { bits: 0x3ff4_0000_0000_0000 }),
        4 => Some(Double { bits: 0x3ff8_0000_0000_0000 }),
        5 => Some(Double { bits: 0x4000_0000_0000_0000 }),
        _ => None,
    }
}

fn place_in(item: &[char]) -> (r: Option<(Side, String)>)
    ensures
        match place_of(item@) {
            Some((side, target)) => r matches Some(t) && t.0 == side && t.1@ == target,
            None => r is None,
        },
{
    if let Some(t) = text::strip_prefix(item, "Left of ") {
        return Some((Side::Left, text::string_of(t)));
    }
    if let Some(t) = text::strip_prefix(item, "Right of ") {
        return Some((Side::Right, text::string_of(t)));
    }
    if let Some(t) = text::strip_prefix(item, "Above ") {
        return Some((Side::Above, text::string_of(t)));
    }
    if let Some(t) = text::strip_prefix(item, "Below ") {
        return Some((Side::Below, text::string_of(t)));
    }
    None
}

/// The word for a side in a message, and in a request to a backend.
pub fn word_of(side: Side) -> (r: &'static str)
    ensures
        r@ == side_word(side),
{
    match side {
        Side::Left => "left",
        Side::Right => "right",
        Side::Above => "above",
        Side::Below => "below",
    }
}

fn scaling_with_label(item: &[char]) -> (r: Option<MirrorScaling>)
    ensures
        r == scaling_labelled(item@),
{
    if text::is(item, "Fit") {
        Some(MirrorScaling::Fit)
    } else if text::is(item, "Cover") {
        Some(MirrorScaling::Cover)
    } else if text::is(item, "Exact") {
        Some(MirrorScaling::Exact)
    } else if text::is(item, "Linear") {
        Some(MirrorScaling::Linear)
    } else {
        None
    }
}

/// Whether a choice that was made is the one that a contract states.
pub open spec fn is_choice(r: Option<(Command, String)>, c: Choice) -> bool {
    match c {
        Some((command, message)) => r matches Some(t) && t.0@ == command && t.1@ == message,
        None => r is None,
    }
}

/// A name and what follows it.
fn message(name: &str, rest: &str) -> (r: String)
    ensures
        r@ == name@ + rest@,
{
    let mut r = String::from_str(name);
    r.append(rest);
    r
}

impl TuiState {
    fn choose_position(&mut self, name: &str) -> (r: Option<(Command, String)>)
        requires
            old(self)@.selected_field == Field::Position,
        ensures
            final(self)@ == position_choice(old(self)@, name@).0,
            is_choice(r, position_choice(old(self)@, name@).1),
    {
        let list = self.get_dropdown_items();
        let k = self.dropdown_selection();
        if k >= list.len() {
            return None;
        }
        assert(items(self@)[k as int] == list@[k as int]@);
        let item = text::chars_of(list[k].as_str());
        if text::is(item.as_slice(), "Custom X,Y") {
            self.status = String::from_str("Custom position not yet implemented");
            return None;
        }
        match place_in(item.as_slice()) {
            Some((side, target)) => {
                let mut m = message(name, ": positioned ");
                m.append(word_of(side));
                m.append(" ");
                m.append(target.as_str());
                Some((Command::PlaceBeside(side, target), m))
            },
            None => None,
        }
    }

    fn choose_mirror(&mut self, name: &str) -> (r: Option<(Command, String)>)
        requires
            old(self)@.selected_field == Field::Mirror,
        ensures
            final(self)@ == mirror_choice(old(self)@, name@).0,
            is_choice(r, mirror_choice(old(self)@, name@).1),
    {
        let ghost start = self@;
        let list = self.get_dropdown_items();
        let k = self.dropdown_selection();
        if k >= list.len() {
            return None;
        }
        assert(items(self@)[k as int] == list@[k as int]@);
        let chars = text::chars_of(list[k].as_str());
        let item = chars.as_slice();
        if self.mirror_pending.is_some() {
            if text::is(item, "Cancel") {
                self.mirror_pending = None;
                self.dropdown_open = false;
                self.dropdown_selection = 0;
                self.status = String::from_str("Mirror selection cancelled");
                return None;
            }
            let scaling = match scaling_with_label(item) {
                Some(s) => s,
                None => return None,
            };
            let pending = self.mirror_pending.take();
            self.mirror_scaling = scaling;
            self.dropdown_open = false;
            self.dropdown_selection = 0;
            match pending {
                Some(setup) => {
                    let mut m = message(setup.dest.as_str(), ": mirroring ");
                    m.append(setup.source.as_str());
                    m.append(" (");
                    m.append(scaling.arg());
                    m.append(" scaling)");
                    Some((Command::StartMirror(setup, scaling), m))
                },
                None => None,
            }
        } else if text::starts_with(item, "Stop") {
            let m = String::new();
            assert(m@ =~= seq![]);
            Some((Command::StopMirror, m))
        } else {
            if let Some(target) = text::strip_prefix(item, "Mirror: ") {
                if !text::is(target, "No other outputs available") {
                    let source = text::string_of(target);
                    let mut s = message(name, ": choose scaling for mirror ");
                    s.append(source.as_str());
                    self.mirror_pending =
                    Some(MirrorSetup { dest: String::from_str(name), source });
                    self.dropdown_selection = self.mirror_scaling.place_in_menu();
                    self.status = s;
                }
            }
            None
        }
    }

    /// What the selected item of the menu asks for, with the message for its success.
    pub fn apply_dropdown_action(&mut self) -> (r: Option<(Command, String)>)
        ensures
            final(self)@ == choice(old(self)@).0,
            is_choice(r, choice(old(self)@).1),
    {
        let selected = self.selected_output;
        if selected >= self.outputs.len() {
            return None;
        }
        assert(self.outputs@[selected as int]@ == self@.outputs[self@.selected_output]);
        let name = self.outputs[selected].name.clone();
        let k = self.dropdown_selection;
        match self.selected_field {
            Field::Enabled => {
                let on = !self.outputs[selected].enabled;
                let mut m = message(name.as_str(), ": ");
                m.append(
                    if on {
                        "enabled"
                    } else {
                        "disabled"
                    },
                );
                Some((Command::Apply(Step::Enabled(on)), m))
            },
            Field::Mode => {
                if k >= self.outputs[selected].available_modes.len() {
                    return None;
                }
                let mode = self.outputs[selected].available_modes[k];
                let item = mode_item_string(mode);
                let mut m = message(name.as_str(), ": mode ");
                m.append(item.as_str());
                Some((Command::Apply(Step::Mode(mode)), m))
            },
            Field::Brightness => {
                let x = brightness_after(self.outputs[selected].color.brightness, k);
                let mut m = message(name.as_str(), ": brightness ");
                models::push_percent(&mut m, x);
                Some((Command::Apply(Step::Brightness(x)), m))
            },
            Field::Gamma => {
                let x = gamma_after(self.outputs[selected].color.gamma, k);
                let mut m = message(name.as_str(), ": gamma ");
                let digits = x.fixed(2);
                text::push_chars(&mut m, digits.as_slice());
                Some((Command::Apply(Step::Gamma(x)), m))
            },
            Field::Temperature => {
                let t = temperature_after(self.outputs[selected].color.temperature, k);
                let mut m = message(name.as_str(), ": temperature ");
                decimal::push(&mut m, t as u64);
                m.append("K");
                Some((Command::Apply(Step::Temperature(t)), m))
            },
            Field::Position => self.choose_position(name.as_str()),
            Field::Transform => {
                if k >= 8 {
                    return None;
                }
                let t = transforms::name_of(k as u32);
                let mut m = message(name.as_str(), ": transform ");
                m.append(t);
                Some((Command::Transform(String::from_str(t)), m))
            },
            Field::Mirror => self.choose_mirror(name.as_str()),
            Field::Scale => match scale_of(k) {
                Some(x) => {
                    let mut m = message(name.as_str(), ": scale ");
                    let digits = x.fixed(2);
                    text::push_chars(&mut m, digits.as_slice());
                    m.append("x");
                    Some((Command::Apply(Step::Scale(x)), m))
                },
                None => None,
            },
            Field::AdaptiveSync => {
                let mut m = message(name.as_str(), ": adaptive sync ");
                m.append(
                    if k == 0 {
                        "enabled"
                    } else {
                        "disabled"
                    },
                );
                Some((Command::AdaptiveSync(k == 0), m))
            },
        }
    }
}

// ---- keys ----

/// The field with the number.
pub open spec fn field_numbered(n: int) -> Field {
    if n == 0 {
        Field::Enabled
    } else if n == 1 {
        Field::Mode
    } else if n == 2 {
        Field::Position
    } else if n == 3 {
        Field::Mirror
    } else if n == 4 {
        Field::Transform
    } else if n == 5 {
        Field::Scale
    } else if n == 6 {
        Field::AdaptiveSync
    } else if n == 7 {
        Field::Brightness
    } else if n == 8 {
        Field::Gamma
    } else {
        Field::Temperature
    }
}

/// The state with another field selected.
pub open spec fn with_field(v: TuiView, n: int) -> TuiView {
    TuiView {
        selected_field: field_numbered(n),
        status: "Selected: "@ + field_numbered(n).label_text(),
        ..v
    }
}

/// The state with the menu closed, and no mirroring waiting.
pub open spec fn dismissed(v: TuiView) -> TuiView {
    crate::tui::menu_closed(TuiView { mirror_pending: None, ..v })
}

/// What a key does: `q` and Escape, `r`, the arrows or `hjkl`, Tab and Enter.
pub enum Meaning {
    Leave,
    Refresh,
    Up,
    Down,
    Left,
    Right,
    Menu,
    Accept,
    Nothing,
}

pub open spec fn meaning(key: Key) -> Meaning {
    match key {
        Key::Char('q') | Key::Esc => Meaning::Leave,
        Key::Char('r') => Meaning::Refresh,
        Key::Up | Key::Char('k') => Meaning::Up,
        Key::Down | Key::Char('j') => Meaning::Down,
        Key::Left | Key::Char('h') => Meaning::Left,
        Key::Right | Key::Char('l') => Meaning::Right,
        Key::Tab => Meaning::Menu,
        Key::Enter => Meaning::Accept,
        _ => Meaning::Nothing,
    }
}

/// The state after moving up or down: in the menu while it is open, else among the outputs.
pub open spec fn moved(v: TuiView, forward: bool) -> TuiView {
    if v.dropdown_open {
        let n = items(v).len() as int;
        if n == 0 {
            v
        } else {
            TuiView {
                dropdown_selection: if forward {
                    crate::tui::after(v.dropdown_selection, n)
                } else {
                    crate::tui::before(v.dropdown_selection, n)
                },
                ..v
            }
        }
    } else {
        let n = v.outputs.len() as int;
        if n == 0 {
            v
        } else {
            TuiView {
                selected_output: if forward {
                    crate::tui::after(v.selected_output, n)
                } else {
                    crate::tui::before(v.selected_output, n)
                },
                ..v
            }
        }
    }
}

/// What a key does to the state, and what the caller does after it.
pub open spec fn pressed(v: TuiView, key: Key) -> (TuiView, KeyActionView) {
    match meaning(key) {
        Meaning::Leave => if v.dropdown_open {
            (dismissed(v), KeyActionView::Stay)
        } else {
            (v, KeyActionView::Quit)
        },
        Meaning::Refresh => (v, KeyActionView::Refresh),
        Meaning::Up => (moved(v, false), KeyActionView::Stay),
        Meaning::Down => (moved(v, true), KeyActionView::Stay),
        Meaning::Left => if v.dropdown_open {
            (v, KeyActionView::Stay)
        } else {
            (with_field(v, (v.selected_field.number() + 9) % 10), KeyActionView::Stay)
        },
        Meaning::Right => if v.dropdown_open {
            (v, KeyActionView::Stay)
        } else {
            (with_field(v, (v.selected_field.number() + 1) % 10), KeyActionView::Stay)
        },
        Meaning::Menu => if v.dropdown_open {
            (dismissed(v), KeyActionView::Stay)
        } else {
            (TuiView { dropdown_open: true, dropdown_selection: 0, ..v }, KeyActionView::Stay)
        },
        Meaning::Accept => if v.dropdown_open {
            match choice(v) {
                (w, Some((command, message))) => (
                    w,
                    KeyActionView::Run {
                        output: v.outputs[v.selected_output].name,
                        command,
                        message,
                    },
                ),
                (w, None) => (crate::tui::finished(w), KeyActionView::Stay),
            }
        } else {
            (v, KeyActionView::Stay)
        },
        Meaning::Nothing => (v, KeyActionView::Stay),
    }
}

impl TuiState {
    fn select_field(&mut self, field: Field)
        ensures
            final(self)@ == with_field(old(self)@, field.number()),
    {
        self.selected_field = field;
        self.status = message("Selected: ", field.label());
        assert(field_numbered(field.number()) == field);
    }

    fn dismiss(&mut self)
        ensures
            final(self)@ == dismissed(old(self)@),
    {
        self.dropdown_open = false;
        self.dropdown_selection = 0;
        self.mirror_pending = None;
    }

    fn go(&mut self, forward: bool)
        ensures
            final(self)@ == moved(old(self)@, forward),
    {
        if self.dropdown_open {
            let list = self.get_dropdown_items();
            assert(items(self@).len() == list@.len());
            let n = list.len();
            if n > 0 {
                self.dropdown_selection =
                if forward {
                    crate::tui::step_forward(self.dropdown_selection, n)
                } else {
                    crate::tui::step_back(self.dropdown_selection, n)
                };
            }
        } else {
            let n = self.outputs.len();
            if n > 0 {
                self.selected_output =
                if forward {
                    crate::tui::step_forward(self.selected_output, n)
                } else {
                    crate::tui::step_back(self.selected_output, n)
                };
            }
        }
    }

    /// Answers a key.
    pub fn handle_key_event(&mut self, key: Key) -> (r: KeyAction)
        ensures
            (final(self)@, r@) == pressed(old(self)@, key),
    {
        match key {
            Key::Char('q') | Key::Esc => {
                if self.dropdown_open {
                    self.dismiss();
                    KeyAction::Stay
                } else {
                    KeyAction::Quit
                }
            },
            Key::Char('r') => KeyAction::Refresh,
            Key::Up | Key::Char('k') => {
                self.go(false);
                KeyAction::Stay
            },
            Key::Down | Key::Char('j') => {
                self.go(true);
                KeyAction::Stay
            },
            Key::Left | Key::Char('h') => {
                if !self.dropdown_open {
                    let field = self.selected_field.prev();
                    self.select_field(field);
                }
                KeyAction::Stay
            },
            Key::Right | Key::Char('l') => {
                if !self.dropdown_open {
                    let field = self.selected_field.next();
                    self.select_field(field);
                }
                KeyAction::Stay
            },
            Key::Tab => {
                if self.dropdown_open {
                    self.dismiss();
                } else {
                    self.dropdown_open = true;
                    self.dropdown_selection = 0;
                }
                KeyAction::Stay
            },
            Key::Enter => {
                if self.dropdown_open {
                    let selected = self.selected_output;
                    let output = if selected < self.outputs.len() {
                        assert(self.outputs@[selected as int]@
                            == self@.outputs[self@.selected_output]);
                        self.outputs[selected].name.clone()
                    } else {
                        String::new()
                    };
                    match self.apply_dropdown_action() {
                        Some((command, message)) => KeyAction::Run { output, command, message },
                        None => {
                            self.close_if_done();
                            KeyAction::Stay
                        },
                    }
                } else {
                    KeyAction::Stay
                }
            },
            _ => KeyAction::Stay,
        }
    }
}

} // verus!
