//! The KDE backend: what `kscreen-doctor` reports, and the calls of it that change outputs.
use vstd::prelude::*;

use crate::command;
use crate::decimal;
use crate::errors::BackendError;
use crate::float;
use crate::float::{Double, Single};
use crate::models;
use crate::models::{
    DisplayColorCapabilities, DisplayColorSettings, DisplayMode, DisplayOutput, OutputView,
    RelativePosition, Side,
};
use crate::text;
use crate::text_spec as spec;
use crate::transforms;

pub mod laws;

verus! {

/// Control of the outputs of a Plasma session.
pub struct KdeBackend;

/// The report of `kscreen-doctor`.
#[derive(Clone, Debug)]
pub struct KScreenDoctorOutput {
    pub outputs: Vec<KScreenOutput>,
}

/// An output in the report.
#[derive(Clone, Debug)]
pub struct KScreenOutput {
    pub name: String,
    pub description: Option<String>,
    pub enabled: bool,
    pub current_mode_id: Option<String>,
    pub modes: Vec<KScreenMode>,
    pub pos: KScreenPos,
    pub scale: Double,
    pub rotation: KScreenRotation,
}

/// A mode in the report.
#[derive(Clone, Debug)]
pub struct KScreenMode {
    pub id: String,
    pub size: KScreenSize,
    pub refresh: Option<Single>,
}

/// A position, in either of the two forms of the report.
#[derive(Clone, Copy, Debug)]
pub enum KScreenPos {
    Object { x: i32, y: i32 },
    Array([i32; 2]),
}

/// A size, in either of the two forms of the report.
#[derive(Clone, Copy, Debug)]
pub enum KScreenSize {
    Object { width: u32, height: u32 },
    Array([u32; 2]),
}

/// A rotation, in either of the two forms of the report.
#[derive(Clone, Debug)]
pub enum KScreenRotation {
    Number(u32),
    String(String),
}

impl KScreenPos {
    pub open spec fn xy(self) -> (i32, i32) {
        match self {
            KScreenPos::Object { x, y } => (x, y),
            KScreenPos::Array(a) => (a@[0], a@[1]),
        }
    }

    pub fn to_xy(&self) -> (r: (i32, i32))
        ensures
            r == self.xy(),
    {
        match self {
            KScreenPos::Object { x, y } => (*x, *y),
            KScreenPos::Array(a) => (a[0], a[1]),
        }
    }
}

impl Default for KScreenPos {
    fn default() -> (r: Self)
        ensures
            r == (KScreenPos::Object { x: 0, y: 0 }),
    {
        KScreenPos::Object { x: 0, y: 0 }
    }
}

impl KScreenSize {
    pub open spec fn wh(self) -> (u32, u32) {
        match self {
            KScreenSize::Object { width, height } => (width, height),
            KScreenSize::Array(a) => (a@[0], a@[1]),
        }
    }

    pub fn to_wh(&self) -> (r: (u32, u32))
        ensures
            r == self.wh(),
    {
        match self {
            KScreenSize::Object { width, height } => (*width, *height),
            KScreenSize::Array(a) => (a[0], a[1]),
        }
    }
}

impl Default for KScreenSize {
    fn default() -> (r: Self)
        ensures
            r == (KScreenSize::Object { width: 0, height: 0 }),
    {
        KScreenSize::Object { width: 0, height: 0 }
    }
}

/// The scale of an output for which none is reported.
pub fn default_scale() -> (r: Double)
    ensures
        r == float::double(float::ONE_DOUBLE),
{
    Double { bits: float::ONE_DOUBLE }
}

/// The transform that a word stands for, in any case.
pub open spec fn named_transform(word: Seq<char>) -> Seq<char> {
    let s = spec::lower(word);
    if s == "left"@ || s == "90"@ {
        "90"@
    } else if s == "inverted"@ || s == "180"@ {
        "180"@
    } else if s == "right"@ || s == "270"@ {
        "270"@
    } else if s == "flipped"@ || s == "flipped0"@ || s == "4"@ {
        "flipped"@
    } else if s == "flippedleft"@ || s == "flipped90"@ || s == "5"@ {
        "flipped-90"@
    } else if s == "flippedinverted"@ || s == "flipped180"@ || s == "6"@ {
        "flipped-180"@
    } else if s == "flippedright"@ || s == "flipped270"@ || s == "7"@ {
        "flipped-270"@
    } else {
        "normal"@
    }
}

impl KScreenRotation {
    pub open spec fn transform(self) -> Seq<char> {
        match self {
            KScreenRotation::Number(n) => transforms::numbered(n),
            KScreenRotation::String(s) => named_transform(s@),
        }
    }

    /// The transform of the rotation; a rotation that is not known is taken as none.
    pub fn to_transform(&self) -> (r: String)
        ensures
            r@ == self.transform(),
    {
        match self {
            KScreenRotation::Number(n) => String::from_str(transforms::name_of(*n)),
            KScreenRotation::String(word) => {
                let all = text::chars_of(word.as_str());
                let low = text::lower(all.as_slice());
                let s = low.as_slice();
                let t = if text::is(s, "left") || text::is(s, "90") {
                    "90"
                } else if text::is(s, "inverted") || text::is(s, "180") {
                    "180"
                } else if text::is(s, "right") || text::is(s, "270") {
                    "270"
                } else if text::is(s, "flipped") || text::is(s, "flipped0") || text::is(s, "4") {
                    "flipped"
                } else if text::is(s, "flippedleft") || text::is(s, "flipped90") || text::is(
                    s,
                    "5",
                ) {
                    "flipped-90"
                } else if text::is(s, "flippedinverted") || text::is(s, "flipped180") || text::is(
                    s,
                    "6",
                ) {
                    "flipped-180"
                } else if text::is(s, "flippedright") || text::is(s, "flipped270") || text::is(
                    s,
                    "7",
                ) {
                    "flipped-270"
                } else {
                    "normal"
                };
                String::from_str(t)
            },
        }
    }
}

impl Default for KScreenRotation {
    fn default() -> (r: Self)
        ensures
            r == KScreenRotation::Number(0),
    {
        KScreenRotation::Number(0)
    }
}

/// The mode that an entry of the report stands for.
pub open spec fn kscreen_mode(m: KScreenMode) -> DisplayMode {
    DisplayMode { width: m.size.wh().0, height: m.size.wh().1, refresh_hz: m.refresh }
}

pub open spec fn kscreen_modes(s: Seq<KScreenMode>) -> Seq<DisplayMode> {
    Seq::new(s.len(), |i: int| kscreen_mode(s[i]))
}

/// The last mode with the identifier.
pub open spec fn mode_with_id(s: Seq<KScreenMode>, id: Seq<char>) -> Option<DisplayMode>
    decreases s.len(),
{
    if s.len() == 0 {
        None
    } else if s.last().id@ == id {
        Some(kscreen_mode(s.last()))
    } else {
        mode_with_id(s.drop_last(), id)
    }
}

/// The scales that are offered for every output: from one to two and a half, by quarters.
pub open spec fn offered_scales() -> Seq<Double> {
    seq![
        float::double(0x3ff0_0000_0000_0000),
        float::double(0x3ff4_0000_0000_0000),
        float::double(0x3ff8_0000_0000_0000),
        float::double(0x3ffc_0000_0000_0000),
        float::double(0x4000_0000_0000_0000),
        float::double(0x4002_0000_0000_0000),
        float::double(0x4004_0000_0000_0000),
    ]
}

fn scales() -> (r: Vec<Double>)
    ensures
        r@ == offered_scales(),
{
    let r = vec![
        Double { bits: 0x3ff0_0000_0000_0000 },
        Double { bits: 0x3ff4_0000_0000_0000 },
        Double { bits: 0x3ff8_0000_0000_0000 },
        Double { bits: 0x3ffc_0000_0000_0000 },
        Double { bits: 0x4000_0000_0000_0000 },
        Double { bits: 0x4002_0000_0000_0000 },
        Double { bits: 0x4004_0000_0000_0000 },
    ];
    assert(r@ =~= offered_scales());
    r
}

/// The output that an entry of the report describes. The color settings are those of the whole
/// session, and virtual outputs have none.
pub open spec fn kscreen_output(
    id: int,
    o: KScreenOutput,
    temperature: Option<u16>,
    brightness: Option<Single>,
) -> OutputView {
    let physical = !spec::starts_with(o.name@, "Virtual-"@);
    OutputView {
        enabled: o.enabled,
        scale: Some(o.scale),
        available_scales: Some(offered_scales()),
        position: Some(o.pos.xy()),
        transform: Some(o.rotation.transform()),
        color_caps: DisplayColorCapabilities {
            brightness: physical && brightness is Some,
            gamma: false,
            temperature: physical && temperature is Some,
        },
        color: if physical {
            DisplayColorSettings { brightness, gamma: None, temperature }
        } else {
            models::no_color()
        },
        available_modes: kscreen_modes(o.modes@),
        current_mode: match o.current_mode_id {
            Some(id) => mode_with_id(o.modes@, id@),
            None => None,
        },
        ..models::simple_view(id, o.name@, spec::opt(o.description))
    }
}

pub open spec fn kscreen_outputs(
    s: Seq<KScreenOutput>,
    temperature: Option<u16>,
    brightness: Option<Single>,
) -> Seq<OutputView> {
    Seq::new(s.len(), |i: int| kscreen_output(i, s[i], temperature, brightness))
}

/// Whether a mode of the report is the one that is asked for: the rate counts where one is asked
/// for, and may then differ by less than a tenth.
pub open spec fn mode_fits(asked: DisplayMode, m: KScreenMode) -> bool {
    &&& m.size.wh() == (asked.width, asked.height)
    &&& match (asked.refresh_hz, m.refresh) {
        (None, _) => true,
        (Some(_), None) => false,
        (Some(wanted), Some(actual)) => float::closer(
            actual,
            wanted,
            float::single(float::TENTH),
        ),
    }
}

/// The place of the first mode that fits.
pub open spec fn first_fitting(s: Seq<KScreenMode>, asked: DisplayMode, i: int) -> Option<int>
    decreases s.len() - i,
{
    if i >= s.len() {
        None
    } else if mode_fits(asked, s[i]) {
        Some(i)
    } else {
        first_fitting(s, asked, i + 1)
    }
}

/// The place of the first output with the name.
pub open spec fn first_named(s: Seq<KScreenOutput>, name: Seq<char>, i: int) -> Option<int>
    decreases s.len() - i,
{
    if i >= s.len() {
        None
    } else if s[i].name@ == name {
        Some(i)
    } else {
        first_named(s, name, i + 1)
    }
}

/// The identifier of the mode that is asked for.
pub open spec fn mode_id(
    s: Seq<KScreenOutput>,
    output: Seq<char>,
    mode: DisplayMode,
) -> Result<Seq<char>, BackendError> {
    match first_named(s, output, 0) {
        None => Err(BackendError::OutputNotFound),
        Some(i) => match first_fitting(s[i].modes@, mode, 0) {
            None => Err(BackendError::ModeNotFound),
            Some(k) => Ok(s[i].modes@[k].id@),
        },
    }
}

/// The rotation as `kscreen-doctor` names it.
pub open spec fn rotation_name(transform: Seq<char>) -> Option<Seq<char>> {
    if transform == "normal"@ || transform == "0"@ || transform == "none"@ {
        Some("none"@)
    } else if transform == "90"@ || transform == "left"@ {
        Some("left"@)
    } else if transform == "180"@ || transform == "inverted"@ {
        Some("inverted"@)
    } else if transform == "270"@ || transform == "right"@ {
        Some("right"@)
    } else if transform == "flipped"@ || transform == "flipped-0"@ {
        Some("flipped"@)
    } else if transform == "flipped-90"@ || transform == "flipped-left"@ {
        Some("flipped90"@)
    } else if transform == "flipped-180"@ || transform == "flipped-inverted"@ {
        Some("flipped180"@)
    } else if transform == "flipped-270"@ || transform == "flipped-right"@ {
        Some("flipped270"@)
    } else {
        None
    }
}

fn rotation_of(transform: &str) -> (r: Option<&'static str>)
    ensures
        r is Some == rotation_name(transform@) is Some,
        r matches Some(s) ==> rotation_name(transform@) == Some(s@),
{
    let all = text::chars_of(transform);
    let t = all.as_slice();
    if text::is(t, "normal") || text::is(t, "0") || text::is(t, "none") {
        Some("none")
    } else if text::is(t, "90") || text::is(t, "left") {
        Some("left")
    } else if text::is(t, "180") || text::is(t, "inverted") {
        Some("inverted")
    } else if text::is(t, "270") || text::is(t, "right") {
        Some("right")
    } else if text::is(t, "flipped") || text::is(t, "flipped-0") {
        Some("flipped")
    } else if text::is(t, "flipped-90") || text::is(t, "flipped-left") {
        Some("flipped90")
    } else if text::is(t, "flipped-180") || text::is(t, "flipped-inverted") {
        Some("flipped180")
    } else if text::is(t, "flipped-270") || text::is(t, "flipped-right") {
        Some("flipped270")
    } else {
        None
    }
}

/// The argument `output.NAME.SETTING`.
pub open spec fn setting(output: Seq<char>, rest: Seq<char>) -> Seq<char> {
    "output."@ + output + "."@ + rest
}

fn setting_arg(output: &str, rest: &str) -> (r: String)
    ensures
        r@ == setting(output@, rest@),
{
    let mut r = String::from_str("output.");
    r.append(output);
    r.append(".");
    r.append(rest);
    r
}

/// Two texts in one.
fn joined(a: &str, b: &str) -> (r: String)
    ensures
        r@ == a@ + b@,
{
    let mut r = String::from_str(a);
    r.append(b);
    r
}

/// The word for a side in an argument.
pub open spec fn side_word(side: Side) -> Seq<char> {
    match side {
        Side::Left => "left-of"@,
        Side::Right => "right-of"@,
        Side::Above => "above"@,
        Side::Below => "below"@,
    }
}

/// The word that switches an output on or off.
pub open spec fn enabled_word(enabled: bool) -> Seq<char> {
    if enabled {
        "enable"@
    } else {
        "disable"@
    }
}

/// The words that move an output.
pub open spec fn position_word(x: i32, y: i32) -> Seq<char> {
    "position."@ + (decimal::signed(x as int) + ","@ + decimal::signed(y as int))
}

/// The words that move an output to a side of another one.
pub open spec fn beside_word(side: Side, target: Seq<char>) -> Seq<char> {
    side_word(side) + "."@ + target
}

/// The settings that let an output show what another one shows.
pub open spec fn mirror_settings(output: Seq<char>, target: Seq<char>) -> Seq<Seq<char>> {
    seq![
        setting(target, "primary"@),
        setting(target, "position.0,0"@),
        setting(output, "position.0,0"@),
    ]
}

/// A brightness in percent, rounded.
pub open spec fn percent(value: Single) -> nat {
    float::rounded(float::share(float::clamped(value), float::single(float::HUNDRED)))
}

/// The brightness of the session, where both its value and its greatest value are known.
pub open spec fn global_brightness(current: Option<u32>, max: Option<u32>) -> Option<Single> {
    match (current, max) {
        (Some(c), Some(m)) => Some(
            float::ratio(
                c as nat,
                if m > 0 {
                    m as nat
                } else {
                    1
                },
            ),
        ),
        _ => None,
    }
}

impl KdeBackend {
    pub fn new() -> (r: Result<Self, BackendError>)
        ensures
            r is Ok,
    {
        Ok(KdeBackend)
    }

    /// The temperature of the session from the property of the compositor, of which the low 16
    /// bits count.
    pub fn global_temperature(value: u32) -> (r: u16)
        ensures
            r as int == value as int % 0x1_0000,
    {
        assert((value as u16) as int == value as int % 0x1_0000) by (bit_vector);
        #[verifier::truncate]
        (value as u16)
    }

    /// The brightness of the session.
    pub fn global_brightness(current: Option<u32>, max: Option<u32>) -> (r: Option<Single>)
        ensures
            r == global_brightness(current, max),
    {
        match (current, max) {
            (Some(c), Some(m)) => {
                let whole: u32 = if m > 0 {
                    m
                } else {
                    1
                };
                Some(Single::ratio(c, whole))
            },
            _ => None,
        }
    }

    /// The outputs in a report, with the color settings of the session.
    pub fn outputs(
        report: &KScreenDoctorOutput,
        temperature: Option<u16>,
        brightness: Option<Single>,
    ) -> (r: Vec<DisplayOutput>)
        ensures
            models::views(r@) == kscreen_outputs(report.outputs@, temperature, brightness),
    {
        let mut r: Vec<DisplayOutput> = Vec::new();
        let mut i: usize = 0;
        while i < report.outputs.len()
            invariant
                i <= report.outputs@.len(),
                r@.len() == i,
                forall|k: int|
                    0 <= k < i ==> (#[trigger] r@[k])@ == kscreen_output(
                        k,
                        report.outputs@[k],
                        temperature,
                        brightness,
                    ),
            decreases report.outputs.len() - i,
        {
            let o = Self::output(i, &report.outputs[i], temperature, brightness);
            r.push(o);
            i = i + 1;
        }
        assert(models::views(r@) =~= kscreen_outputs(report.outputs@, temperature, brightness));
        r
    }

    fn output(
        id: usize,
        k: &KScreenOutput,
        temperature: Option<u16>,
        brightness: Option<Single>,
    ) -> (r: DisplayOutput)
        ensures
            r@ == kscreen_output(id as int, *k, temperature, brightness),
    {
        let name = text::chars_of(k.name.as_str());
        let physical = !text::starts_with(name.as_slice(), "Virtual-");
        let mut modes: Vec<DisplayMode> = Vec::new();
        let mut current: Option<DisplayMode> = None;
        let mut i: usize = 0;
        while i < k.modes.len()
            invariant
                i <= k.modes@.len(),
                modes@ == kscreen_modes(k.modes@.take(i as int)),
                current == match k.current_mode_id {
                    Some(id) => mode_with_id(k.modes@.take(i as int), id@),
                    None => None,
                },
            decreases k.modes.len() - i,
        {
            let (width, height) = k.modes[i].size.to_wh();
            let mode = DisplayMode { width, height, refresh_hz: k.modes[i].refresh };
            if let Some(current_id) = &k.current_mode_id {
                if text::same_str(current_id.as_str(), k.modes[i].id.as_str()) {
                    current = Some(mode);
                }
            }
            modes.push(mode);
            i = i + 1;
            assert(k.modes@.take(i as int).drop_last() == k.modes@.take(i - 1));
            assert(modes@ =~= kscreen_modes(k.modes@.take(i as int)));
        }
        assert(k.modes@.take(k.modes@.len() as int) == k.modes@);
        let mut r = DisplayOutput::simple(id, k.name.clone(), k.description.clone());
        r.enabled = k.enabled;
        r.scale = Some(k.scale);
        r.available_scales = Some(scales());
        r.position = Some(k.pos.to_xy());
        r.transform = Some(k.rotation.to_transform());
        r.color_caps = DisplayColorCapabilities {
            brightness: physical && brightness.is_some(),
            gamma: false,
            temperature: physical && temperature.is_some(),
        };
        if physical {
            r.color = DisplayColorSettings { brightness, gamma: None, temperature };
        }
        r.available_modes = modes;
        r.current_mode = current;
        assert(r@ =~= kscreen_output(id as int, *k, temperature, brightness));
        r
    }

    /// The argument that sets a mode, which is named by its identifier in the report.
    pub fn set_mode(report: &KScreenDoctorOutput, output: &str, mode: DisplayMode) -> (r: Result<
        String,
        BackendError,
    >)
        ensures
            match mode_id(report.outputs@, output@, mode) {
                Ok(id) => r matches Ok(s) && s@ == setting(output@, "mode."@ + id),
                Err(e) => r == Err::<String, BackendError>(e),
            },
    {
        let mut i: usize = 0;
        while i < report.outputs.len() && !text::same_str(report.outputs[i].name.as_str(), output)
            invariant
                i <= report.outputs@.len(),
                first_named(report.outputs@, output@, 0) == first_named(
                    report.outputs@,
                    output@,
                    i as int,
                ),
            decreases report.outputs.len() - i,
        {
            i = i + 1;
        }
        if i >= report.outputs.len() {
            return Err(BackendError::OutputNotFound);
        }
        let modes = &report.outputs[i].modes;
        let mut k: usize = 0;
        while k < modes.len() && !Self::fits(mode, &modes[k])
            invariant
                k <= modes@.len(),
                first_fitting(modes@, mode, 0) == first_fitting(modes@, mode, k as int),
            decreases modes.len() - k,
        {
            k = k + 1;
        }
        if k >= modes.len() {
            return Err(BackendError::ModeNotFound);
        }
        let rest = joined("mode.", modes[k].id.as_str());
        Ok(setting_arg(output, rest.as_str()))
    }

    fn fits(asked: DisplayMode, m: &KScreenMode) -> (r: bool)
        ensures
            r == mode_fits(asked, *m),
    {
        let (width, height) = m.size.to_wh();
        width == asked.width && height == asked.height && match (asked.refresh_hz, m.refresh) {
            (None, _) => true,
            (Some(_), None) => false,
            (Some(wanted), Some(actual)) => actual.closer(wanted, Single { bits: float::TENTH }),
        }
    }

    /// The argument that sets a scale.
    pub fn set_scale(output: &str, scale: Double) -> (r: String)
        ensures
            r@ == setting(output@, "scale."@ + crate::shortest::double_notation(scale)),
    {
        let number = scale.to_text();
        let rest = joined("scale.", number.as_str());
        setting_arg(output, rest.as_str())
    }

    /// The argument that switches an output on or off.
    pub fn set_enabled(output: &str, enabled: bool) -> (r: String)
        ensures
            r@ == setting(output@, enabled_word(enabled)),
    {
        setting_arg(
            output,
            if enabled {
                "enable"
            } else {
                "disable"
            },
        )
    }

    /// The argument that sets a position.
    pub fn set_position(output: &str, x: i32, y: i32) -> (r: String)
        ensures
            r@ == setting(output@, position_word(x, y)),
    {
        let pos = command::pair(x, ",", y);
        let rest = joined("position.", pos.as_str());
        setting_arg(output, rest.as_str())
    }

    /// The argument that places an output next to another one.
    pub fn set_position_relative(output: &str, direction: &RelativePosition) -> (r: String)
        ensures
            r@ == setting(output@, beside_word(direction.side(), direction.target())),
    {
        let (word, target) = match direction {
            RelativePosition::LeftOf(s) => ("left-of", s),
            RelativePosition::RightOf(s) => ("right-of", s),
            RelativePosition::Above(s) => ("above", s),
            RelativePosition::Below(s) => ("below", s),
        };
        let mut rest = String::from_str(word);
        rest.append(".");
        rest.append(target.as_str());
        setting_arg(output, rest.as_str())
    }

    /// The argument that sets a transform. The word for it is read as that transform again, as
    /// [`KScreenRotation::to_transform`] reads it.
    pub fn set_transform(output: &str, transform: &str) -> (r: Result<String, BackendError>)
        ensures
            match rotation_name(transform@) {
                Some(name) => r matches Ok(s) && s@ == setting(output@, "rotation."@ + name),
                None => r == Err::<String, BackendError>(BackendError::UnsupportedTransform),
            },
            transforms::is_name(transform@) ==> (r matches Ok(s) && exists|word: Seq<char>|
                s@ == #[trigger] setting(output@, "rotation."@ + word) && named_transform(word)
                    == transform@),
    {
        proof {
            if transforms::is_name(transform@) {
                let n = choose|n: u32| n < 8 && transform@ == #[trigger] transforms::numbered(n);
                rotations_are_read_back(n);
            }
        }
        match rotation_of(transform) {
            Some(name) => {
                let rest = joined("rotation.", name);
                Ok(setting_arg(output, rest.as_str()))
            },
            None => Err(BackendError::UnsupportedTransform),
        }
    }

    /// The brightness in percent, and the argument that sets it.
    pub fn set_brightness(output: &str, value: Single) -> (r: (u32, String))
        ensures
            r.0 as nat == percent(value),
            r.1@ == setting(output@, "brightness."@ + decimal::decimal(percent(value))),
    {
        proof {
            float::clamping_is_stable(value);
        }
        let p = value.clamped().share(Single { bits: float::HUNDRED }).rounded();
        let mut rest = String::from_str("brightness.");
        decimal::push(&mut rest, p as u64);
        (p, setting_arg(output, rest.as_str()))
    }

    /// The arguments that mirror an output: the target becomes the primary one, and both go to
    /// the origin.
    pub fn set_mirror(output: &str, target: &str) -> (r: Vec<String>)
        ensures
            spec::strings(r@) == mirror_settings(output@, target@),
    {
        let a = setting_arg(target, "primary");
        let b = setting_arg(target, "position.0,0");
        let c = setting_arg(output, "position.0,0");
        command::args3(a.as_str(), b.as_str(), c.as_str())
    }

    /// Whether a failure to set the temperature says that the session has no such setting.
    pub fn temperature_unsupported(message: &str) -> (r: bool)
        ensures
            r == (spec::contains(message@, "org.freedesktop.DBus.Error.UnknownObject"@)
                || spec::contains(message@, "/ColorCorrect"@)),
    {
        let s = text::chars_of(message);
        text::contains(s.as_slice(), "org.freedesktop.DBus.Error.UnknownObject") || text::contains(
            s.as_slice(),
            "/ColorCorrect",
        )
    }
}

proof fn lemma_small_letters(s: Seq<char>)
    requires
        forall|i: int| 0 <= i < s.len() ==> !('A' <= #[trigger] s[i] && s[i] <= 'Z'),
    ensures
        spec::lower(s) == s,
{
    assert(spec::lower(s) =~= s);
}

proof fn lemma_turned(n: u32)
    requires
        n < 4,
    ensures
        rotation_name(transforms::numbered(n)) matches Some(r) && named_transform(r)
            == transforms::numbered(n),
{
    transforms::names_differ();
    transforms::lemma_other_names();
    reveal_strlit("none");
    reveal_strlit("left");
    reveal_strlit("inverted");
    reveal_strlit("right");
    reveal_strlit("90");
    reveal_strlit("180");
    reveal_strlit("270");
    reveal_strlit("normal");
    reveal_strlit("flipped");
    reveal_strlit("flipped0");
    reveal_strlit("4");
    reveal_strlit("flippedleft");
    reveal_strlit("flipped90");
    reveal_strlit("5");
    reveal_strlit("flippedinverted");
    reveal_strlit("flipped180");
    reveal_strlit("6");
    reveal_strlit("flippedright");
    reveal_strlit("flipped270");
    reveal_strlit("7");
    assert(transforms::numbered(0) == "normal"@);
    lemma_small_letters("none"@);
    lemma_small_letters("left"@);
    lemma_small_letters("inverted"@);
    lemma_small_letters("right"@);
    assert("none"@[0] == 'n' && "left"@[0] == 'l');
    assert("inverted"@[0] == 'i' && "flipped0"@[0] == 'f');
}

proof fn lemma_flipped(n: u32)
    requires
        4 <= n < 8,
    ensures
        rotation_name(transforms::numbered(n)) matches Some(r) && named_transform(r)
            == transforms::numbered(n),
{
    transforms::names_differ();
    transforms::lemma_other_names();
    assert(transforms::numbered(0) == "normal"@);
    assert(transforms::numbered(1) == "90"@);
    assert(transforms::numbered(2) == "180"@);
    assert(transforms::numbered(3) == "270"@);
    assert(transforms::numbered(4) == "flipped"@);
    assert(transforms::numbered(5) == "flipped-90"@);
    assert(transforms::numbered(6) == "flipped-180"@);
    reveal_strlit("left");
    reveal_strlit("inverted");
    reveal_strlit("right");
    reveal_strlit("90");
    reveal_strlit("180");
    reveal_strlit("270");
    reveal_strlit("flipped");
    reveal_strlit("flipped0");
    reveal_strlit("4");
    reveal_strlit("flippedleft");
    reveal_strlit("flipped90");
    reveal_strlit("5");
    reveal_strlit("flippedinverted");
    reveal_strlit("flipped180");
    reveal_strlit("6");
    reveal_strlit("flippedright");
    reveal_strlit("flipped270");
    reveal_strlit("flipped-0");
    reveal_strlit("flipped-90");
    reveal_strlit("flipped-180");
    reveal_strlit("flipped-270");
    reveal_strlit("flipped-left");
    reveal_strlit("flipped-inverted");
    lemma_small_letters("flipped"@);
    lemma_small_letters("flipped90"@);
    lemma_small_letters("flipped180"@);
    lemma_small_letters("flipped270"@);
    assert("inverted"@[0] == 'i' && "flipped180"@[0] == 'f' && "flipped270"@[0] == 'f');
    assert("flipped180"@[7] == '1' && "flipped270"@[7] == '2');
}

/// The name that `kscreen-doctor` is given for a transform is read as that transform again.
pub proof fn rotations_are_read_back(n: u32)
    requires
        n < 8,
    ensures
        rotation_name(transforms::numbered(n)) matches Some(r) && named_transform(r)
            == transforms::numbered(n),
{
    if n < 4 {
        lemma_turned(n);
    } else {
        lemma_flipped(n);
    }
}

} // verus!
