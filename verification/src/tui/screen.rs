//! What is drawn: texts with their styles, and where the menu goes.
use vstd::prelude::*;

use crate::backend::BackendKind;
use crate::decimal;
use crate::float;
use crate::models;
use crate::models::{DisplayOutput, OutputView};
use crate::search::seen;
use crate::text;
use crate::text_spec as spec;
use crate::tui::menu;
use crate::tui::{Field, TuiState};

pub mod laws;

verus! {

/// How a piece of text is drawn.
#[derive(Clone, Copy, Debug, PartialEq, Eq, Structural)]
pub enum SegmentStyle {
    Plain,
    Bold,
    /// The mark of an output that shows another one.
    Mirroring,
    /// The selected field.
    Selected,
    /// That an output is enabled.
    On,
    /// That an output is disabled.
    Off,
}

/// A piece of text and how it is drawn.
#[derive(Debug)]
pub struct Segment {
    pub text: String,
    pub style: SegmentStyle,
}

impl View for Segment {
    type V = (Seq<char>, SegmentStyle);

    open spec fn view(&self) -> (Seq<char>, SegmentStyle) {
        (self.text@, self.style)
    }
}

/// An output in the list: two lines, which are dimmed where the output is disabled.
#[derive(Debug)]
pub struct OutputItem {
    pub first: Vec<Segment>,
    pub second: Vec<Segment>,
    pub dimmed: bool,
}

/// The first line: the name, the description where there is one, and a mark where the output
/// shows another one.
pub open spec fn first_line(o: OutputView, mirroring: bool) -> Seq<(Seq<char>, SegmentStyle)> {
    seq![(o.name, SegmentStyle::Bold)] + (match o.description {
        Some(d) => if d.len() > 0 {
            seq![(" – "@, SegmentStyle::Plain), (d, SegmentStyle::Plain)]
        } else {
            seq![]
        },
        None => seq![],
    }) + if mirroring {
        seq![(" "@, SegmentStyle::Plain), ("[🔄 MIRRORING]"@, SegmentStyle::Mirroring)]
    } else {
        seq![]
    }
}

/// The style of a field.
pub open spec fn field_style(field: Field, selected: Option<Field>) -> SegmentStyle {
    if selected == Some(field) {
        SegmentStyle::Selected
    } else {
        SegmentStyle::Plain
    }
}

/// What is shown of a mode.
pub open spec fn mode_shown(o: OutputView) -> Seq<char> {
    match o.current_mode {
        Some(m) => menu::mode_item(m),
        None => "--"@,
    }
}

pub open spec fn brightness_shown(o: OutputView) -> Seq<char> {
    match o.color.brightness {
        Some(b) => models::percent_text(b),
        None => "--"@,
    }
}

pub open spec fn gamma_shown(o: OutputView) -> Seq<char> {
    match o.color.gamma {
        Some(g) => float::fixed(g, 2),
        None => "--"@,
    }
}

pub open spec fn temperature_shown(o: OutputView) -> Seq<char> {
    match o.color.temperature {
        Some(t) => decimal::decimal(t as nat) + "K"@,
        None => "--"@,
    }
}

pub open spec fn scale_shown(o: OutputView) -> Seq<char> {
    match o.scale {
        Some(s) => float::fixed_double(s, 2) + "x"@,
        None => "--"@,
    }
}

/// Whether the output is enabled, which is also a field that can be selected.
pub open spec fn enabled_segment(o: OutputView, selected: Option<Field>) -> (
    Seq<char>,
    SegmentStyle,
) {
    (
        "["@ + (if o.enabled {
            "enabled"@
        } else {
            "disabled"@
        }) + "] "@,
        if selected == Some(Field::Enabled) {
            SegmentStyle::Selected
        } else if o.enabled {
            SegmentStyle::On
        } else {
            SegmentStyle::Off
        },
    )
}

pub open spec fn bar() -> (Seq<char>, SegmentStyle) {
    ("| "@, SegmentStyle::Plain)
}

/// The second line: the fields with their values. `selected` is the field that is selected,
/// where the output is.
pub open spec fn second_line(o: OutputView, selected: Option<Field>) -> Seq<
    (Seq<char>, SegmentStyle),
> {
    seq![
        enabled_segment(o, selected),
        ("Mode: "@ + mode_shown(o) + " "@, field_style(Field::Mode, selected)),
        bar(),
        ("Pos "@, field_style(Field::Position, selected)),
        bar(),
        ("Mirror "@, field_style(Field::Mirror, selected)),
        bar(),
        ("Transform "@, field_style(Field::Transform, selected)),
        bar(),
        ("Scale: "@ + scale_shown(o) + " "@, field_style(Field::Scale, selected)),
        bar(),
        ("VRR "@, field_style(Field::AdaptiveSync, selected)),
        bar(),
        ("Br: "@ + brightness_shown(o) + " "@, field_style(Field::Brightness, selected)),
        bar(),
        ("γ: "@ + gamma_shown(o) + " "@, field_style(Field::Gamma, selected)),
        bar(),
        ("T: "@ + temperature_shown(o), field_style(Field::Temperature, selected)),
    ]
}

fn push(v: &mut Vec<Segment>, text: &str, style: SegmentStyle)
    ensures
        seen(final(v)@) == seen(old(v)@).push((text@, style)),
{
    let ghost before = seen(v@);
    let s = Segment { text: String::from_str(text), style };
    v.push(s);
    assert(seen(v@) =~= before.push(s@));
}

fn style_of(field: Field, selected: Option<Field>) -> (r: SegmentStyle)
    ensures
        r == field_style(field, selected),
{
    match selected {
        Some(f) => if f == field {
            SegmentStyle::Selected
        } else {
            SegmentStyle::Plain
        },
        None => SegmentStyle::Plain,
    }
}

fn around(a: &str, b: &str, c: &str) -> (r: String)
    ensures
        r@ == a@ + b@ + c@,
{
    let mut r = String::from_str(a);
    r.append(b);
    r.append(c);
    r
}

fn mode_shown_of(o: &DisplayOutput) -> (r: String)
    ensures
        r@ == mode_shown(o@),
{
    match o.current_mode {
        Some(m) => menu::mode_item_string(m),
        None => String::from_str("--"),
    }
}

fn brightness_shown_of(o: &DisplayOutput) -> (r: String)
    ensures
        r@ == brightness_shown(o@),
{
    match o.color.brightness {
        Some(b) => {
            let mut s = String::new();
            models::push_percent(&mut s, b);
            assert(s@ =~= models::percent_text(b));
            s
        },
        None => String::from_str("--"),
    }
}

fn gamma_shown_of(o: &DisplayOutput) -> (r: String)
    ensures
        r@ == gamma_shown(o@),
{
    match o.color.gamma {
        Some(g) => {
            let digits = g.fixed(2);
            text::string_of(digits.as_slice())
        },
        None => String::from_str("--"),
    }
}

fn temperature_shown_of(o: &DisplayOutput) -> (r: String)
    ensures
        r@ == temperature_shown(o@),
{
    match o.color.temperature {
        Some(t) => {
            let mut s = String::new();
            decimal::push(&mut s, t as u64);
            s.append("K");
            assert(s@ =~= decimal::decimal(t as nat) + "K"@);
            s
        },
        None => String::from_str("--"),
    }
}

fn scale_shown_of(o: &DisplayOutput) -> (r: String)
    ensures
        r@ == scale_shown(o@),
{
    match o.scale {
        Some(x) => {
            let digits = x.fixed(2);
            let mut s = text::string_of(digits.as_slice());
            s.append("x");
            s
        },
        None => String::from_str("--"),
    }
}

fn first_line_of(o: &DisplayOutput, mirroring: bool) -> (r: Vec<Segment>)
    ensures
        seen(r@) == first_line(o@, mirroring),
{
    let mut r: Vec<Segment> = Vec::new();
    assert(seen(r@) =~= seq![]);
    push(&mut r, o.name.as_str(), SegmentStyle::Bold);
    if let Some(d) = &o.description {
        if !text::is_empty(d.as_str()) {
            push(&mut r, " – ", SegmentStyle::Plain);
            push(&mut r, d.as_str(), SegmentStyle::Plain);
        }
    }
    if mirroring {
        push(&mut r, " ", SegmentStyle::Plain);
        push(&mut r, "[🔄 MIRRORING]", SegmentStyle::Mirroring);
    }
    assert(seen(r@) =~= first_line(o@, mirroring));
    r
}

fn second_line_of(o: &DisplayOutput, selected: Option<Field>) -> (r: Vec<Segment>)
    ensures
        seen(r@) == second_line(o@, selected),
{
    let mut r: Vec<Segment> = Vec::new();
    assert(seen(r@) =~= seq![]);
    let state = around(
        "[",
        if o.enabled {
            "enabled"
        } else {
            "disabled"
        },
        "] ",
    );
    let state_style = match style_of(Field::Enabled, selected) {
        SegmentStyle::Selected => SegmentStyle::Selected,
        _ => if o.enabled {
            SegmentStyle::On
        } else {
            SegmentStyle::Off
        },
    };
    push(&mut r, state.as_str(), state_style);
    let shown = mode_shown_of(o);
    let mode = around("Mode: ", shown.as_str(), " ");
    push(&mut r, mode.as_str(), style_of(Field::Mode, selected));
    push(&mut r, "| ", SegmentStyle::Plain);
    push(&mut r, "Pos ", style_of(Field::Position, selected));
    push(&mut r, "| ", SegmentStyle::Plain);
    push(&mut r, "Mirror ", style_of(Field::Mirror, selected));
    push(&mut r, "| ", SegmentStyle::Plain);
    push(&mut r, "Transform ", style_of(Field::Transform, selected));
    push(&mut r, "| ", SegmentStyle::Plain);
    let shown = scale_shown_of(o);
    let scale = around("Scale: ", shown.as_str(), " ");
    push(&mut r, scale.as_str(), style_of(Field::Scale, selected));
    push(&mut r, "| ", SegmentStyle::Plain);
    push(&mut r, "VRR ", style_of(Field::AdaptiveSync, selected));
    push(&mut r, "| ", SegmentStyle::Plain);
    let shown = brightness_shown_of(o);
    let brightness = around("Br: ", shown.as_str(), " ");
    push(&mut r, brightness.as_str(), style_of(Field::Brightness, selected));
    push(&mut r, "| ", SegmentStyle::Plain);
    let shown = gamma_shown_of(o);
    let gamma = around("γ: ", shown.as_str(), " ");
    push(&mut r, gamma.as_str(), style_of(Field::Gamma, selected));
    push(&mut r, "| ", SegmentStyle::Plain);
    let shown = temperature_shown_of(o);
    let temperature = around("T: ", shown.as_str(), "");
    proof {
        reveal_strlit("");
        assert(temperature@ =~= "T: "@ + shown@);
    }
    push(&mut r, temperature.as_str(), style_of(Field::Temperature, selected));
    r
}

/// An output in the list.
pub fn make_list_item(
    output: &DisplayOutput,
    is_selected: bool,
    selected_field: Field,
    is_mirroring: bool,
) -> (r: OutputItem)
    ensures
        seen(r.first@) == first_line(output@, is_mirroring),
        seen(r.second@) == second_line(
            output@,
            if is_selected {
                Some(selected_field)
            } else {
                None
            },
        ),
        r.dimmed == !output.enabled,
{
    let selected = if is_selected {
        Some(selected_field)
    } else {
        None
    };
    OutputItem {
        first: first_line_of(output, is_mirroring),
        second: second_line_of(output, selected),
        dimmed: !output.enabled,
    }
}

pub open spec fn backend_name(kind: BackendKind) -> Seq<char> {
    match kind {
        BackendKind::X11 => "X11"@,
        BackendKind::Wlroots => "Wlroots"@,
        BackendKind::Gnome => "GNOME"@,
        BackendKind::Kde => "KDE"@,
    }
}

impl TuiState {
    pub fn backend_label(&self) -> (r: &'static str)
        ensures
            r@ == backend_name(self@.backend),
    {
        match self.backend {
            BackendKind::X11 => "X11",
            BackendKind::Wlroots => "Wlroots",
            BackendKind::Gnome => "GNOME",
            BackendKind::Kde => "KDE",
        }
    }

    /// The lines above the list that change: the backend and the number of outputs, and the
    /// status.
    pub fn status_lines(&self) -> (r: (String, String))
        ensures
            r.0@ == "Backend: "@ + backend_name(self@.backend) + " | Outputs: "@ + decimal::decimal(
                self@.outputs.len(),
            ),
            r.1@ == "Status: "@ + self@.status,
    {
        let mut first = around("Backend: ", self.backend_label(), " | Outputs: ");
        assert(self@.outputs.len() == self.outputs@.len());
        decimal::push(&mut first, self.outputs.len() as u64);
        let mut second = String::from_str("Status: ");
        second.append(self.status.as_str());
        (first, second)
    }
}

/// A part of the screen.
#[derive(Clone, Copy, Debug, PartialEq, Eq, Structural)]
pub struct Area {
    pub x: u16,
    pub y: u16,
    pub width: u16,
    pub height: u16,
}

/// The length in bytes of the longest text, or 20 where that is more.
pub open spec fn widest(items: Seq<Seq<char>>) -> nat
    decreases items.len(),
{
    if items.len() == 0 {
        20
    } else {
        let rest = widest(items.drop_last());
        if spec::byte_len(items.last()) > rest {
            spec::byte_len(items.last())
        } else {
            rest
        }
    }
}

/// How far a part of some length is moved to stand in the middle of a length.
pub open spec fn centering(whole: int, part: int) -> int {
    if part > whole {
        0
    } else {
        (whole - part) / 2
    }
}

/// How wide the menu is drawn: wide enough for its items and the frame around them. Of a width
/// that no screen has, only the lower sixteen bits count.
pub open spec fn menu_width(items: Seq<Seq<char>>) -> int {
    widest(items) as int % 0x1_0000 + 4
}

/// How high the menu is drawn.
pub open spec fn menu_height(items: Seq<Seq<char>>) -> int {
    if items.len() > 18 {
        20
    } else {
        items.len() as int + 2
    }
}

/// Whether the menu has coordinates on the screen.
pub open spec fn menu_fits(items: Seq<Seq<char>>, area: Area) -> bool {
    &&& menu_width(items) <= u16::MAX
    &&& area.x + centering(area.width as int, menu_width(items)) <= u16::MAX
    &&& area.y + centering(area.height as int, menu_height(items)) <= u16::MAX
}

/// Where the menu is drawn: in the middle of the area.
pub open spec fn menu_area(items: Seq<Seq<char>>, area: Area) -> Area {
    Area {
        x: (area.x + centering(area.width as int, menu_width(items))) as u16,
        y: (area.y + centering(area.height as int, menu_height(items))) as u16,
        width: menu_width(items) as u16,
        height: menu_height(items) as u16,
    }
}

/// The width in bytes of the widest item, which is at least 20.
pub fn widest_of(items: &Vec<String>) -> (r: u128)
    ensures
        r as nat == widest(spec::strings(items@)),
{
    let ghost all = spec::strings(items@);
    let mut r: u128 = 20;
    let mut i: usize = 0;
    while i < items.len()
        invariant
            i <= items@.len(),
            all == spec::strings(items@),
            r as nat == widest(all.take(i as int)),
        decreases items.len() - i,
    {
        let s = text::chars_of(items[i].as_str());
        let n = text::byte_len(s.as_slice());
        if n > r {
            r = n;
        }
        i = i + 1;
        assert(all.take(i as int).drop_last() == all.take(i - 1));
    }
    assert(all.take(all.len() as int) == all);
    r
}

/// Whether the menu has coordinates on the screen.
pub fn menu_has_room(items: &Vec<String>, area: Area) -> (r: bool)
    ensures
        r == menu_fits(spec::strings(items@), area),
{
    let width = (widest_of(items) % 0x1_0000) as u32 + 4;
    let height: u32 = if items.len() > 18 {
        20
    } else {
        items.len() as u32 + 2
    };
    assert(spec::strings(items@).len() == items@.len());
    let (x, y) = (area.x as u32, area.y as u32);
    let (w, h) = (area.width as u32, area.height as u32);
    let dx: u32 = if width > w {
        0
    } else {
        (w - width) / 2
    };
    let dy: u32 = if height > h {
        0
    } else {
        (h - height) / 2
    };
    width <= u16::MAX as u32 && x + dx <= u16::MAX as u32 && y + dy <= u16::MAX as u32
}

/// Where the menu is drawn. A menu without items is not drawn.
pub fn dropdown_area(items: &Vec<String>, area: Area) -> (r: Option<Area>)
    requires
        items@.len() > 0 ==> menu_fits(spec::strings(items@), area),
    ensures
        r == if items@.len() == 0 {
            None
        } else {
            Some(menu_area(spec::strings(items@), area))
        },
{
    let count = items.len();
    if count == 0 {
        return None;
    }
    assert(spec::strings(items@).len() == count);
    let widest = widest_of(items);
    let width = (widest % 0x1_0000) as u16 + 4;
    let height: u16 = if count > 18 {
        20
    } else {
        count as u16 + 2
    };
    let dx: u16 = if width > area.width {
        0
    } else {
        (area.width - width) / 2
    };
    let dy: u16 = if height > area.height {
        0
    } else {
        (area.height - height) / 2
    };
    Some(Area { x: area.x + dx, y: area.y + dy, width, height })
}

/// Where the outputs begin when they stand side by side, by the widths of their modes.
pub open spec fn offset(outputs: Seq<OutputView>, k: int) -> int
    decreases k,
{
    if k <= 0 {
        0
    } else {
        offset(outputs, k - 1) + match outputs[k - 1].current_mode {
            Some(m) => (m.width as i32) as int,
            None => 0,
        }
    }
}

/// Whether all outputs side by side fit into the coordinates of a desktop.
pub open spec fn fits_side_by_side(outputs: Seq<OutputView>) -> bool {
    forall|k: int|
        0 <= k <= outputs.len() ==> i32::MIN <= #[trigger] offset(outputs, k) <= i32::MAX
}

/// Whether all outputs side by side fit into the coordinates of a desktop.
pub fn have_room_side_by_side(outputs: &Vec<DisplayOutput>) -> (r: bool)
    ensures
        r == fits_side_by_side(models::views(outputs@)),
{
    let ghost os = models::views(outputs@);
    let mut x: i32 = 0;
    let mut i: usize = 0;
    while i < outputs.len()
        invariant
            i <= outputs@.len(),
            os == models::views(outputs@),
            x == offset(os, i as int),
            forall|k: int| 0 <= k <= i ==> i32::MIN <= #[trigger] offset(os, k) <= i32::MAX,
        decreases outputs.len() - i,
    {
        assert(os[i as int] == outputs@[i as int]@);
        if let Some(m) = outputs[i].current_mode {
            let w = #[verifier::truncate]
            (m.width as i32);
            let next = x as i64 + w as i64;
            assert(next == offset(os, i + 1));
            if next < i32::MIN as i64 || next > i32::MAX as i64 {
                return false;
            }
            x = next as i32;
        }
        i = i + 1;
    }
    true
}

/// The positions of the outputs side by side, from left to right: the horizontal one of each.
pub fn side_by_side(outputs: &Vec<DisplayOutput>) -> (r: Vec<i32>)
    requires
        fits_side_by_side(models::views(outputs@)),
    ensures
        r@.len() == outputs@.len(),
        forall|k: int|
            0 <= k < r@.len() ==> #[trigger] r@[k] == offset(models::views(outputs@), k),
{
    let ghost os = models::views(outputs@);
    let mut r: Vec<i32> = Vec::new();
    let mut x: i32 = 0;
    let mut i: usize = 0;
    while i < outputs.len()
        invariant
            i <= outputs@.len(),
            os == models::views(outputs@),
            fits_side_by_side(os),
            r@.len() == i,
            x == offset(os, i as int),
            forall|k: int| 0 <= k < i ==> #[trigger] r@[k] == offset(os, k),
        decreases outputs.len() - i,
    {
        r.push(x);
        assert(i32::MIN <= offset(os, i + 1) <= i32::MAX);
        assert(os[i as int] == outputs@[i as int]@);
        if let Some(m) = outputs[i].current_mode {
            let w = #[verifier::truncate]
            (m.width as i32);
            x = x + w;
        }
        i = i + 1;
    }
    r
}

/// The arguments that let the mirroring program show an output on another one.
pub fn mirror_args(dest: &str, source: &str, scaling: crate::tui::MirrorScaling) -> (r: Vec<String>)
    ensures
        spec::strings(r@) == seq![
            "--fullscreen-output"@,
            dest@,
            "--scaling"@,
            scaling.arg_text(),
            source@,
        ],
{
    let mut r = crate::command::args4("--fullscreen-output", dest, "--scaling", scaling.arg());
    crate::command::push(&mut r, source);
    r
}

} // verus!
