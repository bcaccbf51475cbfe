//! Brightness and color settings of a GNOME session: Night Light, the backlight of a built-in
//! panel, monitors that are talked to over DDC, and settings that are kept for each output.
use vstd::prelude::*;

use crate::by_name::ByName;
use crate::command;
use crate::decimal;
use crate::float;
use crate::float::Single;
use crate::kde;
use crate::kelvin;
use crate::models::DisplayColorSettings;
use crate::sorting;
use crate::sorting::Ordered;
use crate::text;
use crate::text_spec as spec;
use crate::trial::{Trial, TrialAction};
use crate::x11;

pub mod laws;

verus! {

// ---- settings of the desktop ----

pub open spec fn setting_bool(s: Seq<char>) -> Option<bool> {
    let t = spec::trim(s);
    if t == "true"@ {
        Some(true)
    } else if t == "false"@ {
        Some(false)
    } else {
        None
    }
}

/// An unsigned number, with or without its type before it.
pub open spec fn setting_u32(s: Seq<char>) -> Option<u32> {
    let t = spec::trim(s);
    match spec::strip_prefix(t, "uint32"@) {
        Some(rest) => decimal::u32_value(spec::trim(rest)),
        None => decimal::u32_value(t),
    }
}

pub fn parse_gsettings_bool(s: &str) -> (r: Option<bool>)
    ensures
        r == setting_bool(s@),
{
    let all = text::chars_of(s);
    let t = text::trim(all.as_slice());
    if text::is(t, "true") {
        Some(true)
    } else if text::is(t, "false") {
        Some(false)
    } else {
        None
    }
}

pub fn parse_gsettings_u32(s: &str) -> (r: Option<u32>)
    ensures
        r == setting_u32(s@),
{
    let all = text::chars_of(s);
    let t = text::trim(all.as_slice());
    match text::strip_prefix(t, "uint32") {
        Some(rest) => decimal::read_u32(text::trim(rest)),
        None => decimal::read_u32(t),
    }
}

/// A temperature in its range.
pub open spec fn kelvin(n: u32) -> u16 {
    if n < kelvin::MIN_KELVIN {
        kelvin::MIN_KELVIN
    } else if n > kelvin::MAX_KELVIN {
        kelvin::MAX_KELVIN
    } else {
        n as u16
    }
}

/// The temperature of Night Light, from the text of the setting.
pub fn nightlight_temperature(setting: &str) -> (r: Option<u16>)
    ensures
        r == match setting_u32(setting@) {
            Some(n) => Some(kelvin(n)),
            None => None,
        },
{
    match parse_gsettings_u32(setting) {
        Some(n) => Some(
            if n < kelvin::MIN_KELVIN as u32 {
                kelvin::MIN_KELVIN
            } else if n > kelvin::MAX_KELVIN as u32 {
                kelvin::MAX_KELVIN
            } else {
                n as u16
            },
        ),
        None => None,
    }
}

/// The arguments that set a key of Night Light.
pub open spec fn nightlight_args(key: Seq<char>, value: Seq<char>) -> Seq<Seq<char>> {
    seq!["set"@, "org.gnome.settings-daemon.plugins.color"@, key, value]
}

fn nightlight_set(key: &str, value: &str) -> (r: Vec<String>)
    ensures
        spec::strings(r@) == nightlight_args(key@, value@),
{
    command::args4("set", "org.gnome.settings-daemon.plugins.color", key, value)
}

/// The calls that set the temperature of Night Light: the first two make it take effect at
/// once, and may fail.
pub fn nightlight_set_temperature_args(value: u16) -> (r: (Vec<String>, Vec<String>, Vec<String>))
    ensures
        spec::strings(r.0@) == nightlight_args("night-light-schedule-automatic"@, "false"@),
        spec::strings(r.1@) == nightlight_args("night-light-enabled"@, "true"@),
        spec::strings(r.2@) == nightlight_args(
            "night-light-temperature"@,
            "uint32 "@ + decimal::decimal(x11::kelvin_in_range(value) as nat),
        ),
{
    let k: u16 = if value < kelvin::MIN_KELVIN {
        kelvin::MIN_KELVIN
    } else if value > kelvin::MAX_KELVIN {
        kelvin::MAX_KELVIN
    } else {
        value
    };
    let mut s = String::from_str("uint32 ");
    decimal::push(&mut s, k as u64);
    (
        nightlight_set("night-light-schedule-automatic", "false"),
        nightlight_set("night-light-enabled", "true"),
        nightlight_set("night-light-temperature", s.as_str()),
    )
}

/// The calls that switch Night Light off, which may fail.
pub fn disable_night_light_args() -> (r: (Vec<String>, Vec<String>))
    ensures
        spec::strings(r.0@) == nightlight_args("night-light-schedule-automatic"@, "false"@),
        spec::strings(r.1@) == nightlight_args("night-light-enabled"@, "false"@),
{
    (
        nightlight_set("night-light-schedule-automatic", "false"),
        nightlight_set("night-light-enabled", "false"),
    )
}

// ---- backlight ----

/// A backlight device: its name, and the texts of its files that could be read.
#[derive(Debug)]
pub struct BacklightDevice {
    pub name: String,
    pub max_brightness: Option<String>,
    pub actual_brightness: Option<String>,
    pub brightness: Option<String>,
    pub kind: Option<String>,
}

/// The number in a file.
pub open spec fn file_number(s: Option<String>) -> Option<u32> {
    match s {
        Some(t) => decimal::u32_value(spec::trim(t@)),
        None => None,
    }
}

/// The brightness of a device: the actual one, else the one that was asked for.
pub open spec fn current_level(d: BacklightDevice) -> Option<u32> {
    if file_number(d.actual_brightness) is Some {
        file_number(d.actual_brightness)
    } else {
        file_number(d.brightness)
    }
}

/// How likely a device is to be the one of the panel, by its kind.
pub open spec fn kind_score(kind: Option<String>) -> int {
    match kind {
        Some(s) => {
            let t = spec::trim(s@);
            if t == "raw"@ {
                3
            } else if t == "platform"@ {
                2
            } else if t == "firmware"@ {
                1
            } else {
                0
            }
        },
        None => 0,
    }
}

/// Whether a device can be used: its greatest brightness is known and not zero, and its
/// brightness is known.
pub open spec fn usable(d: BacklightDevice) -> bool {
    file_number(d.max_brightness) matches Some(m) && m > 0 && current_level(d) is Some
}

/// Whether the first of two devices is to be preferred to the second: by score, by greatest
/// brightness, and by name.
pub open spec fn preferred_to(a: BacklightDevice, b: BacklightDevice) -> bool {
    let am = file_number(a.max_brightness)->Some_0;
    let bm = file_number(b.max_brightness)->Some_0;
    if kind_score(a.kind) != kind_score(b.kind) {
        kind_score(a.kind) > kind_score(b.kind)
    } else if am != bm {
        am > bm
    } else {
        a.name@ != b.name@ && spec::le(a.name@, b.name@)
    }
}

/// The place of the device to use: of those that can be used, the first one to which no other
/// is preferred.
pub open spec fn chosen_device(s: Seq<BacklightDevice>) -> Option<int>
    decreases s.len(),
{
    if s.len() == 0 {
        None
    } else {
        let before = chosen_device(s.drop_last());
        if !usable(s.last()) {
            before
        } else {
            match before {
                Some(i) => if preferred_to(s.last(), s[i]) {
                    Some(s.len() - 1)
                } else {
                    Some(i)
                },
                None => Some(s.len() - 1),
            }
        }
    }
}

fn number_in(s: &Option<String>) -> (r: Option<u32>)
    ensures
        r == file_number(*s),
{
    match s {
        Some(t) => {
            let all = text::chars_of(t.as_str());
            decimal::read_u32(text::trim(all.as_slice()))
        },
        None => None,
    }
}

/// The brightness of a device.
pub fn read_backlight_current(d: &BacklightDevice) -> (r: Option<u32>)
    ensures
        r == current_level(*d),
{
    let actual = number_in(&d.actual_brightness);
    if actual.is_some() {
        actual
    } else {
        number_in(&d.brightness)
    }
}

/// How likely a device is to be the one of the panel.
pub fn backlight_type_score(kind: &Option<String>) -> (r: i32)
    ensures
        r == kind_score(*kind),
{
    match kind {
        Some(s) => {
            let all = text::chars_of(s.as_str());
            let t = text::trim(all.as_slice());
            if text::is(t, "raw") {
                3
            } else if text::is(t, "platform") {
                2
            } else if text::is(t, "firmware") {
                1
            } else {
                0
            }
        },
        None => 0,
    }
}

fn is_usable(d: &BacklightDevice) -> (r: bool)
    ensures
        r == usable(*d),
{
    match number_in(&d.max_brightness) {
        Some(m) => m > 0 && read_backlight_current(d).is_some(),
        None => false,
    }
}

fn is_preferred_to(a: &BacklightDevice, b: &BacklightDevice) -> (r: bool)
    requires
        usable(*a),
        usable(*b),
    ensures
        r == preferred_to(*a, *b),
{
    let x = backlight_type_score(&a.kind);
    let y = backlight_type_score(&b.kind);
    if x != y {
        return x > y;
    }
    match (number_in(&a.max_brightness), number_in(&b.max_brightness)) {
        (Some(m), Some(n)) => {
            if m != n {
                return m > n;
            }
        },
        _ => {},
    }
    !text::same_str(a.name.as_str(), b.name.as_str()) && a.name.at_most(&b.name)
}

/// The place of the device to use.
pub fn backlight_dir(devices: &Vec<BacklightDevice>) -> (r: Option<usize>)
    ensures
        r is Some == chosen_device(devices@) is Some,
        r matches Some(i) ==> chosen_device(devices@) == Some(i as int) && i < devices@.len()
            && usable(devices@[i as int]),
{
    let mut best: Option<usize> = None;
    let mut i: usize = 0;
    while i < devices.len()
        invariant
            i <= devices@.len(),
            best is Some == chosen_device(devices@.take(i as int)) is Some,
            best matches Some(k) ==> chosen_device(devices@.take(i as int)) == Some(k as int) && k
                < i && usable(devices@[k as int]),
        decreases devices.len() - i,
    {
        proof {
            let now = devices@.take(i + 1);
            assert(now.drop_last() == devices@.take(i as int));
            assert(now.last() == devices@[i as int]);
            assert(best matches Some(k) ==> now[k as int] == devices@[k as int]);
        }
        if is_usable(&devices[i]) {
            match best {
                Some(k) => {
                    if is_preferred_to(&devices[i], &devices[k]) {
                        best = Some(i);
                    }
                },
                None => {
                    best = Some(i);
                },
            }
        }
        i = i + 1;
    }
    assert(devices@.take(devices@.len() as int) == devices@);
    best
}

/// The name of the device to use, its brightness, and its greatest brightness.
pub fn backlight_get(devices: &Vec<BacklightDevice>) -> (r: Option<(String, u32, u32)>)
    ensures
        match chosen_device(devices@) {
            Some(i) => r matches Some(t) && t.0@ == devices@[i].name@ && Some(t.1)
                == current_level(devices@[i]) && Some(t.2) == file_number(
                devices@[i].max_brightness,
            ) && t.2 > 0,
            None => r is None,
        },
{
    let i = match backlight_dir(devices) {
        Some(i) => i,
        None => return None,
    };
    let d = &devices[i];
    match (read_backlight_current(d), number_in(&d.max_brightness)) {
        (Some(current), Some(max)) => Some((d.name.clone(), current, max)),
        _ => None,
    }
}

/// The brightness of a device and its greatest brightness, which is at least one.
pub fn backlight_read_named(d: &BacklightDevice) -> (r: Option<(u32, u32)>)
    ensures
        r == match (current_level(*d), file_number(d.max_brightness)) {
            (Some(current), Some(max)) => Some(
                (
                    current,
                    if max > 0 {
                        max
                    } else {
                        1
                    },
                ),
            ),
            _ => None,
        },
{
    match (read_backlight_current(d), number_in(&d.max_brightness)) {
        (Some(current), Some(max)) => Some(
            (
                current,
                if max > 0 {
                    max
                } else {
                    1
                },
            ),
        ),
        _ => None,
    }
}

/// The brightness of the device to use as a share of its greatest one.
pub fn backlight_get_ratio(devices: &Vec<BacklightDevice>) -> (r: Option<Single>)
    ensures
        r == match chosen_device(devices@) {
            Some(i) => Some(
                float::ratio(
                    current_level(devices@[i])->Some_0 as nat,
                    file_number(devices@[i].max_brightness)->Some_0 as nat,
                ),
            ),
            None => None,
        },
{
    match backlight_get(devices) {
        Some((_, current, max)) => Some(Single::ratio(current, max)),
        None => None,
    }
}

/// The names and levels of the devices whose brightness is known.
pub open spec fn levels(s: Seq<BacklightDevice>) -> Seq<(Seq<char>, u32)>
    decreases s.len(),
{
    if s.len() == 0 {
        seq![]
    } else {
        match current_level(s.last()) {
            Some(n) => levels(s.drop_last()).push((s.last().name@, n)),
            None => levels(s.drop_last()),
        }
    }
}

/// A level of a device, by its name.
#[derive(Debug)]
pub struct Level {
    pub name: String,
    pub level: u32,
}

impl Ordered for Level {
    type K = (Seq<char>, u32);

    open spec fn key(&self) -> (Seq<char>, u32) {
        (self.name@, self.level)
    }

    open spec fn le(a: (Seq<char>, u32), b: (Seq<char>, u32)) -> bool {
        spec::le(a.0, b.0)
    }

    fn at_most(&self, other: &Self) -> (r: bool) {
        self.name.at_most(&other.name)
    }
}

/// The names and levels of the devices whose brightness is known, in order of the names.
pub fn backlight_snapshot_values(devices: &Vec<BacklightDevice>) -> (r: Vec<Level>)
    ensures
        sorting::keys(r@) == sorting::sorted(levels(devices@), sorting::order::<Level>()),
{
    let mut v: Vec<Level> = Vec::new();
    let mut i: usize = 0;
    assert(sorting::keys(v@) =~= levels(devices@.take(0)));
    while i < devices.len()
        invariant
            i <= devices@.len(),
            sorting::keys(v@) == levels(devices@.take(i as int)),
        decreases devices.len() - i,
    {
        let ghost before = v@;
        assert(devices@.take(i + 1).drop_last() == devices@.take(i as int));
        if let Some(level) = read_backlight_current(&devices[i]) {
            let l = Level { name: devices[i].name.clone(), level };
            v.push(l);
            assert(sorting::keys(v@) =~= sorting::keys(before).push(l.key()));
        }
        i = i + 1;
    }
    assert(devices@.take(devices@.len() as int) == devices@);
    sorting::sort(v)
}

/// The level of a device for a share of its greatest one.
pub open spec fn level_of(value: Single, max: u32) -> u32 {
    let n = float::rounded(float::share(float::clamped(value), float::of_whole(max as nat)));
    if n > max {
        max
    } else {
        n as u32
    }
}

/// The level of a device for a share of its greatest one.
pub fn level_for(value: Single, max: u32) -> (r: u32)
    ensures
        r == level_of(value, max),
        r <= max,
{
    proof {
        float::clamping_is_stable(value);
    }
    let whole = Single::of_whole(max);
    let n = value.clamped().share(whole).rounded();
    if n > max {
        max
    } else {
        n
    }
}

/// Whether a level that was read back is the one that was set, give or take one.
pub fn level_took_effect(observed: u32, wanted: u32) -> (r: bool)
    ensures
        r == (-1 <= observed - wanted <= 1),
{
    let delta = observed as i64 - wanted as i64;
    -1 <= delta && delta <= 1
}

/// The value that a method of the login manager takes, in the type that it wants.
#[derive(Clone, Copy, Debug, PartialEq, Eq, Structural)]
pub enum LogindArg {
    U32(u32),
    U64(u64),
    I32(i32),
    U16(u16),
    U8(u8),
}

/// How a method with some signature is called.
#[derive(Clone, Copy, Debug, PartialEq, Eq, Structural)]
pub enum LogindCall {
    /// It does not begin with the subsystem and the name of the device.
    Skip,
    /// It takes a value of a type that cannot be given.
    Unsupported,
    With(LogindArg),
}

/// How a method is called: the third type says how the value is passed.
pub open spec fn logind_call(sig: Seq<char>, value: u32) -> LogindCall {
    if !spec::starts_with(sig, "ss"@) {
        LogindCall::Skip
    } else if sig.len() < 3 {
        LogindCall::Unsupported
    } else if sig[2] == 'u' {
        LogindCall::With(LogindArg::U32(value))
    } else if sig[2] == 't' {
        LogindCall::With(LogindArg::U64(value as u64))
    } else if sig[2] == 'i' {
        LogindCall::With(LogindArg::I32(value as i32))
    } else if sig[2] == 'q' {
        LogindCall::With(LogindArg::U16(value as u16))
    } else if sig[2] == 'y' {
        LogindCall::With(
            LogindArg::U8(
                if value > 255 {
                    255u8
                } else {
                    value as u8
                },
            ),
        )
    } else {
        LogindCall::Unsupported
    }
}

/// How a method with the signature is called to set the value.
pub fn logind_argument(sig: &str, value: u32) -> (r: LogindCall)
    ensures
        r == logind_call(sig@, value),
{
    let s = text::chars_of(sig);
    if !text::starts_with(s.as_slice(), "ss") {
        return LogindCall::Skip;
    }
    if s.len() < 3 {
        return LogindCall::Unsupported;
    }
    let third = s[2];
    if third == 'u' {
        LogindCall::With(LogindArg::U32(value))
    } else if third == 't' {
        LogindCall::With(LogindArg::U64(value as u64))
    } else if third == 'i' {
        LogindCall::With(
            LogindArg::I32(
                #[verifier::truncate]
                (value as i32),
            ),
        )
    } else if third == 'q' {
        LogindCall::With(
            LogindArg::U16(
                #[verifier::truncate]
                (value as u16),
            ),
        )
    } else if third == 'y' {
        let byte: u8 = if value > 255 {
            255
        } else {
            value as u8
        };
        LogindCall::With(LogindArg::U8(byte))
    } else {
        LogindCall::Unsupported
    }
}

// ---- monitors over DDC ----

/// The current and the greatest value in a report of `ddcutil`.
pub open spec fn ddc_values(s: Seq<char>) -> Option<(u32, u32)> {
    match (ddc_current(s), ddc_max(s)) {
        (Some(c), Some(m)) => Some(
            (
                c,
                if m > 0 {
                    m
                } else {
                    1
                },
            ),
        ),
        _ => None,
    }
}

/// The number after `current value =`, up to a comma.
pub open spec fn ddc_current(s: Seq<char>) -> Option<u32> {
    match spec::second_piece(s, "current value"@) {
        Some(t) => match spec::second_piece(t, "="@) {
            Some(u) => decimal::u32_value(spec::trim(spec::until(u, ","@))),
            None => None,
        },
        None => None,
    }
}

/// The number after `max value =`.
pub open spec fn ddc_max(s: Seq<char>) -> Option<u32> {
    match spec::second_piece(s, "max value"@) {
        Some(t) => match spec::second_piece(t, "="@) {
            Some(u) => decimal::u32_value(spec::trim(u)),
            None => None,
        },
        None => None,
    }
}

/// The current and the greatest value in a report of `ddcutil`.
pub fn parse_ddcutil_current_max(stdout: &str) -> (r: Option<(u32, u32)>)
    ensures
        r == ddc_values(stdout@),
{
    let s = text::chars_of(stdout);
    let current = match text::second_piece(s.as_slice(), "current value") {
        Some(t) => match text::second_piece(t, "=") {
            Some(u) => decimal::read_u32(text::trim(text::until(u, ","))),
            None => None,
        },
        None => None,
    };
    let max = match text::second_piece(s.as_slice(), "max value") {
        Some(t) => match text::second_piece(t, "=") {
            Some(u) => decimal::read_u32(text::trim(u)),
            None => None,
        },
        None => None,
    };
    match (current, max) {
        (Some(c), Some(m)) => Some(
            (
                c,
                if m > 0 {
                    m
                } else {
                    1
                },
            ),
        ),
        _ => None,
    }
}

/// The brightness of a monitor as a share of its greatest one, from a report of `ddcutil`.
pub fn ddc_ratio(stdout: &str) -> (r: Option<Single>)
    ensures
        r == match ddc_values(stdout@) {
            Some((c, m)) => Some(float::ratio(c as nat, m as nat)),
            None => None,
        },
{
    match parse_ddcutil_current_max(stdout) {
        Some((c, m)) => Some(Single::ratio(c, m)),
        None => None,
    }
}

/// The greatest brightness of a monitor, from a report of `ddcutil` where there is one; a
/// hundred where it is not known.
pub fn ddc_greatest(stdout: Option<&str>) -> (r: u32)
    ensures
        r == match stdout {
            Some(s) => match ddc_values(s@) {
                Some((_, m)) => m,
                None => 100,
            },
            None => 100,
        },
        r > 0,
{
    match stdout {
        Some(s) => match parse_ddcutil_current_max(s) {
            Some((_, m)) => m,
            None => 100,
        },
        None => 100,
    }
}

/// The arguments that read the brightness of the monitor on a bus.
pub fn ddc_get_args(bus: u32) -> (r: Vec<String>)
    ensures
        spec::strings(r@) == seq![
            "--bus"@,
            decimal::decimal(bus as nat),
            "getvcp"@,
            "10"@,
            "--brief"@,
        ],
{
    let mut n = String::new();
    decimal::push(&mut n, bus as u64);
    assert(n@ =~= decimal::decimal(bus as nat));
    let mut r = command::args4("--bus", n.as_str(), "getvcp", "10");
    command::push(&mut r, "--brief");
    r
}

/// The arguments that set the brightness of the monitor on a bus.
pub fn ddc_set_args(bus: u32, value: Single, max: u32) -> (r: Vec<String>)
    ensures
        spec::strings(r@) == seq![
            "--bus"@,
            decimal::decimal(bus as nat),
            "setvcp"@,
            "10"@,
            decimal::decimal(level_of(value, max) as nat),
        ],
{
    let mut n = String::new();
    decimal::push(&mut n, bus as u64);
    assert(n@ =~= decimal::decimal(bus as nat));
    let level = level_for(value, max);
    let mut l = String::new();
    decimal::push(&mut l, level as u64);
    assert(l@ =~= decimal::decimal(level as nat));
    let mut r = command::args4("--bus", n.as_str(), "setvcp", "10");
    command::push(&mut r, l.as_str());
    r
}

/// Whether a failure of `ddcutil` is about missing rights.
pub fn is_permission_denied(stderr: &str) -> (r: bool)
    ensures
        r == spec::contains(spec::lower(stderr@), "permission denied"@),
{
    let s = text::chars_of(stderr);
    let low = text::lower(s.as_slice());
    text::contains(low.as_slice(), "permission denied")
}

/// The message for a failure of `ddcutil`.
pub open spec fn ddc_failure_text(command: Seq<char>, bus: u32, stderr: Seq<char>) -> Seq<char> {
    if spec::contains(spec::lower(stderr), "permission denied"@) {
        "ddcutil "@ + command
            + " failed (permission denied). You likely need access to /dev/i2c-"@ + decimal::decimal(
            bus as nat,
        ) + " (udev rules / add user to i2c group / run as root). Raw error: "@ + stderr
    } else {
        "ddcutil "@ + command + " failed: "@ + stderr
    }
}

/// The message for a failure of `ddcutil`, with what it wrote.
pub fn ddc_failure(command: &str, bus: u32, stderr: &str) -> (r: String)
    ensures
        r@ == ddc_failure_text(command@, bus, stderr@),
{
    let mut r = String::from_str("ddcutil ");
    r.append(command);
    if is_permission_denied(stderr) {
        r.append(" failed (permission denied). You likely need access to /dev/i2c-");
        decimal::push(&mut r, bus as u64);
        r.append(" (udev rules / add user to i2c group / run as root). Raw error: ");
    } else {
        r.append(" failed: ");
    }
    r.append(stderr);
    r
}

/// The bit pattern of eight hundredths, rounded.
pub const DDC_TOLERANCE: u32 = 0x3da3_d70a;

/// Whether a brightness that was read back is too far from the one that was set.
pub fn ddc_had_no_effect(after: Single, wanted: Single) -> (r: bool)
    ensures
        r == float::farther(after, wanted, float::single(DDC_TOLERANCE)),
{
    after.farther(wanted, Single { bits: DDC_TOLERANCE })
}

/// A brightness that was read at some time, in milliseconds.
#[derive(Clone, Copy, Debug)]
pub struct Reading {
    pub at: u64,
    pub value: Single,
}

/// For how long a brightness that was read counts, in milliseconds.
pub const READING_LIFETIME: u64 = 5000;

/// The brightness that was read, where it was not long ago.
pub open spec fn recent(
    cache: Map<Seq<char>, Reading>,
    connector: Seq<char>,
    now: u64,
) -> Option<Single> {
    if cache.dom().contains(connector) && now - cache[connector].at <= READING_LIFETIME {
        Some(cache[connector].value)
    } else {
        None
    }
}

/// The brightness that was read, where it was not long ago.
pub fn cached_ddc_brightness(cache: &ByName<Reading>, connector: &str, now: u64) -> (r: Option<Single>)
    ensures
        r == recent(cache@, connector@, now),
{
    match cache.get(connector) {
        Some(reading) => if now < reading.at || now - reading.at <= READING_LIFETIME {
            Some(reading.value)
        } else {
            None
        },
        None => None,
    }
}

// ---- settings that are kept for each output ----

/// The settings that are kept for an output; none where it is not known.
pub open spec fn kept(
    states: Map<Seq<char>, DisplayColorSettings>,
    output: Seq<char>,
) -> DisplayColorSettings {
    if states.dom().contains(output) {
        states[output]
    } else {
        crate::models::no_color()
    }
}

fn kept_of(states: &ByName<DisplayColorSettings>, output: &str) -> (r: DisplayColorSettings)
    ensures
        r == kept(states@, output@),
{
    match states.get(output) {
        Some(s) => s,
        None => DisplayColorSettings { brightness: None, gamma: None, temperature: None },
    }
}

/// Keeps the brightness of an output.
pub fn keep_brightness(states: &mut ByName<DisplayColorSettings>, output: &str, value: Single)
    ensures
        final(states)@ == old(states)@.insert(
            output@,
            DisplayColorSettings {
                brightness: Some(float::clamped(value)),
                ..kept(old(states)@, output@)
            },
        ),
{
    let mut s = kept_of(states, output);
    s.brightness = Some(value.clamped());
    states.set(output, s);
}

/// Keeps the gamma of an output.
pub fn keep_gamma(states: &mut ByName<DisplayColorSettings>, output: &str, value: Single)
    ensures
        final(states)@ == old(states)@.insert(
            output@,
            DisplayColorSettings {
                gamma: Some(float::at_least(value, float::single(float::TENTH))),
                ..kept(old(states)@, output@)
            },
        ),
{
    let mut s = kept_of(states, output);
    s.gamma = Some(value.at_least(Single { bits: float::TENTH }));
    states.set(output, s);
}

/// Keeps the temperature of an output.
pub fn keep_temperature(states: &mut ByName<DisplayColorSettings>, output: &str, value: u16)
    ensures
        final(states)@ == old(states)@.insert(
            output@,
            DisplayColorSettings {
                temperature: Some(x11::kelvin_in_range(value)),
                ..kept(old(states)@, output@)
            },
        ),
{
    let mut s = kept_of(states, output);
    let k: u16 = if value < kelvin::MIN_KELVIN {
        kelvin::MIN_KELVIN
    } else if value > kelvin::MAX_KELVIN {
        kelvin::MAX_KELVIN
    } else {
        value
    };
    s.temperature = Some(k);
    states.set(output, s);
}

/// The gamma and the temperature that are applied to an output: the ones that are kept, else
/// neutral ones.
pub fn ramp_settings(states: &ByName<DisplayColorSettings>, output: &str) -> (r: (Single, u16))
    ensures
        r.0 == x11::or_one(kept(states@, output@).gamma),
        r.1 == match kept(states@, output@).temperature {
            Some(t) => t,
            None => kelvin::NEUTRAL_KELVIN,
        },
{
    let s = kept_of(states, output);
    let gamma = match s.gamma {
        Some(g) => g,
        None => Single { bits: float::ONE },
    };
    let temperature = match s.temperature {
        Some(t) => t,
        None => kelvin::NEUTRAL_KELVIN,
    };
    (gamma, temperature)
}

/// A trial of the sizes that the table of a gamma ramp can have, the likeliest one first.
pub fn ramp_sizes() -> (r: (Trial<usize>, TrialAction))
    ensures
        r.0@.items == seq![256usize, 1024, 512],
        r.0@.at == 0,
        r.1 is Try,
{
    let mut sizes: Vec<usize> = Vec::new();
    sizes.push(256);
    sizes.push(1024);
    sizes.push(512);
    assert(sizes@ =~= seq![256usize, 1024, 512]);
    Trial::new(sizes)
}

/// Whether the interface of Mutter lets gamma ramps be set.
pub fn has_set_crtc_gamma(xml: &str) -> (r: bool)
    ensures
        r == (spec::contains(xml@, "method name=\"SetCrtcGamma\""@) || spec::contains(
            xml@,
            "method name='SetCrtcGamma'"@,
        )),
{
    let s = text::chars_of(xml);
    text::contains(s.as_slice(), "method name=\"SetCrtcGamma\"") || text::contains(
        s.as_slice(),
        "method name='SetCrtcGamma'",
    )
}

/// The percentage for a brightness.
pub open spec fn percentage(value: Single) -> int {
    if kde::percent(value) > 100 {
        100
    } else {
        kde::percent(value) as int
    }
}

/// The percentage for a brightness.
pub fn percentage_of(value: Single) -> (r: i32)
    ensures
        r == percentage(value),
        0 <= r <= 100,
{
    proof {
        float::clamping_is_stable(value);
    }
    let p = value.clamped().share(Single { bits: float::HUNDRED }).rounded();
    if p > 100 {
        100
    } else {
        p as i32
    }
}

/// The brightness for a percentage.
pub open spec fn of_percentage(p: i32) -> Single {
    if p < 0 {
        float::single(float::ZERO)
    } else {
        float::ratio(p as nat, 100)
    }
}

/// The brightness for a percentage.
pub fn ratio_of_percentage(p: i32) -> (r: Single)
    ensures
        r == of_percentage(p),
{
    if p < 0 {
        Single { bits: float::ZERO }
    } else {
        Single::ratio(p as u32, 100)
    }
}

proof fn lemma_preference_chains(a: BacklightDevice, b: BacklightDevice, c: BacklightDevice)
    requires
        preferred_to(a, b),
        preferred_to(b, c),
    ensures
        preferred_to(a, c),
{
    if kind_score(a.kind) == kind_score(b.kind) && kind_score(b.kind) == kind_score(c.kind)
        && file_number(a.max_brightness)->Some_0 == file_number(b.max_brightness)->Some_0
        && file_number(b.max_brightness)->Some_0 == file_number(c.max_brightness)->Some_0 {
        sorting::lemma_text_order_chains(a.name@, b.name@, c.name@);
        sorting::lemma_text_order(a.name@, b.name@);
    }
}

/// The device that is used can be used, and no other device that can be used is preferred to it.
/// One is used wherever any can be.
pub proof fn chosen_device_is_the_best(s: Seq<BacklightDevice>, k: int)
    requires
        0 <= k < s.len(),
        usable(s[k]),
    ensures
        chosen_device(s) matches Some(i) && 0 <= i < s.len() && usable(s[i]) && !preferred_to(
            s[k],
            s[i],
        ),
    decreases s.len(),
{
    let d = s.drop_last();
    if k < d.len() {
        chosen_device_is_the_best(d, k);
        let i = chosen_device(d)->Some_0;
        assert(d[i] == s[i]);
        assert(d[k] == s[k]);
        if usable(s.last()) && preferred_to(s.last(), s[i]) && preferred_to(s[k], s.last()) {
            lemma_preference_chains(s[k], s.last(), s[i]);
        }
    } else {
        lemma_chosen(d);
        if let Some(i) = chosen_device(d) {
            assert(d[i] == s[i]);
        }
    }
}

proof fn lemma_chosen(s: Seq<BacklightDevice>)
    ensures
        chosen_device(s) matches Some(i) ==> 0 <= i < s.len() && usable(s[i]),
    decreases s.len(),
{
    if s.len() > 0 {
        lemma_chosen(s.drop_last());
    }
}

/// Settings that are kept are read back, and keeping one of an output leaves its others and all
/// other outputs as they are.
pub proof fn kept_settings_are_independent(
    states: Map<Seq<char>, DisplayColorSettings>,
    output: Seq<char>,
    other: Seq<char>,
    value: Single,
)
    requires
        other != output,
    ensures
        ({
            let s = DisplayColorSettings {
                brightness: Some(float::clamped(value)),
                ..kept(states, output)
            };
            let after = states.insert(output, s);
            &&& kept(after, output).brightness == Some(float::clamped(value))
            &&& kept(after, output).gamma == kept(states, output).gamma
            &&& kept(after, output).temperature == kept(states, output).temperature
            &&& kept(after, other) == kept(states, other)
        }),
{
}

} // verus!
