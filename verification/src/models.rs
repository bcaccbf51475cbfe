//! The data that the backends share: modes, outputs and their color settings.
use vstd::prelude::*;

use crate::decimal;
use crate::float;
use crate::float::{Double, Single};
use crate::text;
use crate::text_spec as spec;

pub mod laws;

verus! {

/// A resolution with an optional refresh rate.
#[derive(Clone, Copy, Debug, Default)]
pub struct DisplayMode {
    pub width: u32,
    pub height: u32,
    pub refresh_hz: Option<Single>,
}

/// Whether two refresh rates are equal as numbers, or both missing.
pub open spec fn same_rate(a: Option<Single>, b: Option<Single>) -> bool {
    match (a, b) {
        (Some(x), Some(y)) => float::same(x, y),
        (None, None) => true,
        _ => false,
    }
}

/// Whether two modes are equal, their refresh rates as numbers.
pub open spec fn same_mode(a: DisplayMode, b: DisplayMode) -> bool {
    a.width == b.width && a.height == b.height && same_rate(a.refresh_hz, b.refresh_hz)
}

impl PartialEq for DisplayMode {
    fn eq(&self, other: &DisplayMode) -> (r: bool) {
        self.width == other.width && self.height == other.height && match (
            self.refresh_hz,
            other.refresh_hz,
        ) {
            (Some(x), Some(y)) => x == y,
            (None, None) => true,
            _ => false,
        }
    }
}

impl vstd::std_specs::cmp::PartialEqSpecImpl for DisplayMode {
    open spec fn obeys_eq_spec() -> bool {
        true
    }

    open spec fn eq_spec(&self, other: &DisplayMode) -> bool {
        same_mode(*self, *other)
    }
}

/// `WxH`.
pub open spec fn size_text(width: u32, height: u32) -> Seq<char> {
    decimal::decimal(width as nat) + "x"@ + decimal::decimal(height as nat)
}

/// `WxH`, and ` @ RHz` with one place where there is a refresh rate.
pub open spec fn mode_text(mode: DisplayMode) -> Seq<char> {
    match mode.refresh_hz {
        Some(hz) => size_text(mode.width, mode.height) + " @ "@ + float::fixed(hz, 1) + "Hz"@,
        None => size_text(mode.width, mode.height),
    }
}

/// `WxH`.
pub fn size_string(width: u32, height: u32) -> (r: String)
    ensures
        r@ == size_text(width, height),
{
    let mut r = String::new();
    decimal::push(&mut r, width as u64);
    r.append("x");
    decimal::push(&mut r, height as u64);
    assert(r@ =~= size_text(width, height));
    r
}

impl DisplayMode {
    pub fn new(width: u32, height: u32, refresh_hz: Option<Single>) -> (r: Self)
        ensures
            r == (DisplayMode { width, height, refresh_hz }),
    {
        Self { width, height, refresh_hz }
    }

    /// The mode as it is shown to a user.
    pub fn to_text(&self) -> (r: String)
        ensures
            r@ == mode_text(*self),
    {
        let mut r = size_string(self.width, self.height);
        match self.refresh_hz {
            Some(hz) => {
                r.append(" @ ");
                let digits = hz.fixed(1);
                text::push_chars(&mut r, digits.as_slice());
                r.append("Hz");
            },
            None => {},
        }
        r
    }
}

/// The color settings of an output, where they are known.
#[derive(Clone, Copy, Debug, Default)]
pub struct DisplayColorSettings {
    pub brightness: Option<Single>,
    pub gamma: Option<Single>,
    pub temperature: Option<u16>,
}

/// Which color settings of an output can be changed.
#[derive(Clone, Copy, Debug, Default)]
pub struct DisplayColorCapabilities {
    pub brightness: bool,
    pub gamma: bool,
    pub temperature: bool,
}

/// No color setting is known.
pub open spec fn no_color() -> DisplayColorSettings {
    DisplayColorSettings { brightness: None, gamma: None, temperature: None }
}

/// No color setting can be changed, or all of them can.
pub open spec fn caps(all: bool) -> DisplayColorCapabilities {
    DisplayColorCapabilities { brightness: all, gamma: all, temperature: all }
}

/// An output of the display system.
#[derive(Clone, Debug, Default)]
pub struct DisplayOutput {
    pub id: usize,
    pub name: String,
    pub description: Option<String>,
    pub enabled: bool,
    pub primary: bool,
    pub current_mode: Option<DisplayMode>,
    pub available_modes: Vec<DisplayMode>,
    pub color: DisplayColorSettings,
    pub color_caps: DisplayColorCapabilities,
    pub scale: Option<Double>,
    pub available_scales: Option<Vec<Double>>,
    pub transform: Option<String>,
    pub position: Option<(i32, i32)>,
}

/// What an output holds.
#[verifier::ext_equal]
pub struct OutputView {
    pub id: int,
    pub name: Seq<char>,
    pub description: Option<Seq<char>>,
    pub enabled: bool,
    pub primary: bool,
    pub current_mode: Option<DisplayMode>,
    pub available_modes: Seq<DisplayMode>,
    pub color: DisplayColorSettings,
    pub color_caps: DisplayColorCapabilities,
    pub scale: Option<Double>,
    pub available_scales: Option<Seq<Double>>,
    pub transform: Option<Seq<char>>,
    pub position: Option<(i32, i32)>,
}

impl View for DisplayOutput {
    type V = OutputView;

    open spec fn view(&self) -> OutputView {
        OutputView {
            id: self.id as int,
            name: self.name@,
            description: spec::opt(self.description),
            enabled: self.enabled,
            primary: self.primary,
            current_mode: self.current_mode,
            available_modes: self.available_modes@,
            color: self.color,
            color_caps: self.color_caps,
            scale: self.scale,
            available_scales: match self.available_scales {
                Some(v) => Some(v@),
                None => None,
            },
            transform: spec::opt(self.transform),
            position: self.position,
        }
    }
}

/// What a list of outputs holds.
pub open spec fn views(v: Seq<DisplayOutput>) -> Seq<OutputView> {
    Seq::new(v.len(), |i: int| v[i]@)
}

/// An enabled output of which nothing is known but its name and description.
pub open spec fn simple_view(
    id: int,
    name: Seq<char>,
    description: Option<Seq<char>>,
) -> OutputView {
    OutputView {
        id,
        name,
        description,
        enabled: true,
        primary: false,
        current_mode: None,
        available_modes: seq![],
        color: no_color(),
        color_caps: caps(false),
        scale: None,
        available_scales: None,
        transform: None,
        position: None,
    }
}

/// A brightness in percent, without places.
pub open spec fn percent_text(x: Single) -> Seq<char> {
    float::fixed(float::share(float::clamped(x), float::single(float::HUNDRED)), 0) + "%"@
}

pub(crate) fn push_percent(s: &mut String, x: Single)
    ensures
        final(s)@ == old(s)@ + percent_text(x),
{
    let ghost start = s@;
    proof {
        float::clamping_is_stable(x);
    }
    let digits = x.clamped().share(Single { bits: float::HUNDRED }).fixed(0);
    text::push_chars(s, digits.as_slice());
    s.append("%");
    assert(s@ =~= start + percent_text(x));
}

/// The texts, each after the first preceded by the separator.
pub open spec fn joined(parts: Seq<Seq<char>>, sep: Seq<char>) -> Seq<char>
    decreases parts.len(),
{
    if parts.len() == 0 {
        seq![]
    } else if parts.len() == 1 {
        parts[0]
    } else {
        joined(parts.drop_last(), sep) + sep + parts.last()
    }
}

/// The strings, each after the first preceded by the separator.
pub fn join(parts: &Vec<String>, sep: &str) -> (r: String)
    ensures
        r@ == joined(spec::strings(parts@), sep@),
{
    let mut r = String::new();
    let mut i: usize = 0;
    let ghost all = spec::strings(parts@);
    while i < parts.len()
        invariant
            i <= parts@.len(),
            all == spec::strings(parts@),
            r@ == joined(all.take(i as int), sep@),
        decreases parts.len() - i,
    {
        if i > 0 {
            r.append(sep);
        }
        r.append(parts[i].as_str());
        i = i + 1;
        let ghost now = all.take(i as int);
        assert(now.drop_last() == all.take(i - 1));
        assert(now.last() == parts@[i - 1]@);
        assert(r@ =~= joined(now, sep@));
    }
    assert(all.take(all.len() as int) == all);
    r
}

/// The facts of an output that are shown after its name, where they are known.
pub open spec fn output_facts(o: OutputView) -> Seq<Seq<char>> {
    (match o.current_mode {
        Some(m) => seq!["current mode: "@ + mode_text(m)],
        None => seq![],
    }) + (match o.color.brightness {
        Some(b) => seq!["brightness="@ + float::fixed(b, 2)],
        None => seq![],
    }) + (match o.color.gamma {
        Some(g) => seq!["gamma="@ + float::fixed(g, 2)],
        None => seq![],
    }) + (match o.color.temperature {
        Some(t) => seq!["temp="@ + decimal::decimal(t as nat) + "K"@],
        None => seq![],
    })
}

/// The output as it is listed: name, status, and the known facts.
pub open spec fn output_text(o: OutputView) -> Seq<char> {
    let head = o.name + " ("@ + (if o.enabled {
        "enabled"@
    } else {
        "disabled"@
    }) + ")"@;
    if output_facts(o).len() == 0 {
        head
    } else {
        head + " - "@ + joined(output_facts(o), ", "@)
    }
}

/// A label followed by a number with two places.
fn labelled(label: &str, x: Single) -> (r: String)
    ensures
        r@ == label@ + float::fixed(x, 2),
{
    let mut r = String::from_str(label);
    let digits = x.fixed(2);
    text::push_chars(&mut r, digits.as_slice());
    r
}

impl DisplayOutput {
    pub fn simple(id: usize, name: String, description: Option<String>) -> (r: Self)
        ensures
            r@ == simple_view(id as int, name@, spec::opt(description)),
    {
        let r = Self {
            id,
            name,
            description,
            enabled: true,
            primary: false,
            current_mode: None,
            available_modes: Vec::new(),
            color: DisplayColorSettings { brightness: None, gamma: None, temperature: None },
            color_caps: DisplayColorCapabilities {
                brightness: false,
                gamma: false,
                temperature: false,
            },
            scale: None,
            available_scales: None,
            transform: None,
            position: None,
        };
        assert(r@ =~= simple_view(id as int, name@, spec::opt(description)));
        r
    }

    pub fn with_color(self, color: DisplayColorSettings) -> (r: Self)
        ensures
            r@ == (OutputView { color, ..self@ }),
    {
        let mut r = self;
        r.color = color;
        r
    }

    pub fn with_color_caps(self, caps: DisplayColorCapabilities) -> (r: Self)
        ensures
            r@ == (OutputView { color_caps: caps, ..self@ }),
    {
        let mut r = self;
        r.color_caps = caps;
        r
    }

    /// The output as it is listed.
    pub fn to_text(&self) -> (r: String)
        ensures
            r@ == output_text(self@),
    {
        let mut parts: Vec<String> = Vec::new();
        let ghost facts = output_facts(self@);
        match self.current_mode {
            Some(mode) => {
                let shown = mode.to_text();
                let mut s = String::from_str("current mode: ");
                s.append(shown.as_str());
                parts.push(s);
            },
            None => {},
        }
        match self.color.brightness {
            Some(b) => {
                parts.push(labelled("brightness=", b));
            },
            None => {},
        }
        match self.color.gamma {
            Some(g) => {
                parts.push(labelled("gamma=", g));
            },
            None => {},
        }
        match self.color.temperature {
            Some(t) => {
                let mut s = String::from_str("temp=");
                decimal::push(&mut s, t as u64);
                s.append("K");
                parts.push(s);
            },
            None => {},
        }
        assert(spec::strings(parts@) =~= facts);
        let mut r = self.name.clone();
        r.append(" (");
        r.append(if self.enabled {
            "enabled"
        } else {
            "disabled"
        });
        r.append(")");
        if parts.len() > 0 {
            r.append(" - ");
            let list = join(&parts, ", ");
            r.append(list.as_str());
        }
        r
    }
}

/// Where an output is placed with regard to another one.
#[derive(Clone, Debug)]
pub enum RelativePosition {
    LeftOf(String),
    RightOf(String),
    Above(String),
    Below(String),
}

/// A direction of a [`RelativePosition`].
#[derive(Clone, Copy, Debug, PartialEq, Eq, Structural)]
pub enum Side {
    Left,
    Right,
    Above,
    Below,
}

/// The side that a word names.
pub open spec fn side_named(word: Seq<char>) -> Option<Side> {
    if word == "left"@ {
        Some(Side::Left)
    } else if word == "right"@ {
        Some(Side::Right)
    } else if word == "above"@ {
        Some(Side::Above)
    } else if word == "below"@ {
        Some(Side::Below)
    } else {
        None
    }
}

/// Reads the word for a side.
pub fn read_side(word: &str) -> (r: Option<Side>)
    ensures
        r == side_named(word@),
{
    if text::same_str(word, "left") {
        Some(Side::Left)
    } else if text::same_str(word, "right") {
        Some(Side::Right)
    } else if text::same_str(word, "above") {
        Some(Side::Above)
    } else if text::same_str(word, "below") {
        Some(Side::Below)
    } else {
        None
    }
}

impl RelativePosition {
    pub open spec fn side(self) -> Side {
        match self {
            RelativePosition::LeftOf(_) => Side::Left,
            RelativePosition::RightOf(_) => Side::Right,
            RelativePosition::Above(_) => Side::Above,
            RelativePosition::Below(_) => Side::Below,
        }
    }

    pub open spec fn target(self) -> Seq<char> {
        match self {
            RelativePosition::LeftOf(s) => s@,
            RelativePosition::RightOf(s) => s@,
            RelativePosition::Above(s) => s@,
            RelativePosition::Below(s) => s@,
        }
    }

    /// The position on the side that the word names; `None` where it names no side.
    pub fn from_direction(direction: &str, relative_to: &str) -> (r: Option<Self>)
        ensures
            r is Some == side_named(direction@) is Some,
            r matches Some(p) ==> side_named(direction@) == Some(p.side()) && p.target()
                == relative_to@,
    {
        let target = String::from_str(relative_to);
        match read_side(direction) {
            Some(Side::Left) => Some(RelativePosition::LeftOf(target)),
            Some(Side::Right) => Some(RelativePosition::RightOf(target)),
            Some(Side::Above) => Some(RelativePosition::Above(target)),
            Some(Side::Below) => Some(RelativePosition::Below(target)),
            None => None,
        }
    }
}

} // verus!
