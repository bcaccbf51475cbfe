//! Changing the brightness of an output in a GNOME session: of the panel through the power
//! settings or the backlight, and of a monitor over DDC.
use vstd::prelude::*;

use crate::decimal;
use crate::float;
use crate::float::Single;
use crate::gnome::brightness;
use crate::gnome::brightness::{BacklightDevice, DDC_TOLERANCE};
use crate::gnome::connectors;
use crate::gnome::connectors::DrmEntry;
use crate::models;
use crate::text_spec as spec;

pub mod laws;

verus! {

// ---- the backlight ----

/// What is waited for.
#[derive(Clone, Copy, Debug, PartialEq, Eq, Structural)]
pub enum BacklightStage {
    Logind,
    File,
    Reading,
    Finished,
}

/// What came of what was asked for last.
#[derive(Debug)]
pub enum BacklightEvent {
    /// The level was set, or the file could be opened and was written to.
    Succeeded,
    /// The level could not be set, or the file could not be opened.
    Failed(String),
    /// The level of the device now, where it is known.
    Level(Option<u32>),
}

/// What is asked for next.
#[derive(Clone, Copy, Debug, PartialEq, Eq, Structural)]
pub enum BacklightAction {
    /// Set the level through the login manager.
    AskLogind,
    /// Write the level to the file of the device.
    WriteFile,
    /// Wait a moment, and read the level of the device.
    ReadBack,
    /// The backlight is set, as far as can be told.
    Done,
    /// The backlight is not set.
    Failed,
}

/// Where the change of a backlight stands.
#[verifier::ext_equal]
pub struct BacklightView {
    pub device: Seq<char>,
    pub level: u32,
    pub stage: BacklightStage,
    /// Why the login manager did not set the level.
    pub refusal: Seq<char>,
    /// Why the backlight is not set.
    pub failure: Seq<char>,
}

impl BacklightView {
    /// Whether the event answers what is waited for.
    pub open spec fn expects(self, e: BacklightEvent) -> bool {
        match self.stage {
            BacklightStage::Logind | BacklightStage::File => !(e is Level),
            BacklightStage::Reading => e is Level,
            BacklightStage::Finished => false,
        }
    }
}

/// The change has come to its end without success.
pub open spec fn backlight_failed(v: BacklightView, failure: Seq<char>) -> (
    BacklightView,
    BacklightAction,
) {
    (BacklightView { failure, stage: BacklightStage::Finished, ..v }, BacklightAction::Failed)
}

/// One step: what was found out, and what is asked for next.
pub open spec fn backlight_step(v: BacklightView, e: BacklightEvent) -> (
    BacklightView,
    BacklightAction,
) {
    match e {
        BacklightEvent::Succeeded => (
            BacklightView { stage: BacklightStage::Reading, ..v },
            BacklightAction::ReadBack,
        ),
        BacklightEvent::Failed(error) => if v.stage is Logind {
            (
                BacklightView { refusal: error@, stage: BacklightStage::File, ..v },
                BacklightAction::WriteFile,
            )
        } else {
            backlight_failed(
                v,
                "failed to set backlight brightness (device="@ + v.device + ") via logind: "@
                    + v.refusal + " (sysfs not writable: "@ + error@ + ")"@,
            )
        },
        BacklightEvent::Level(level) => match level {
            Some(n) => if -1 <= n - v.level <= 1 {
                (BacklightView { stage: BacklightStage::Finished, ..v }, BacklightAction::Done)
            } else {
                backlight_failed(
                    v,
                    "backlight write did not take effect (device="@ + v.device + "): expected "@
                        + decimal::decimal(v.level as nat) + ", observed "@ + decimal::decimal(
                        n as nat,
                    ),
                )
            },
            None => (
                BacklightView { stage: BacklightStage::Finished, ..v },
                BacklightAction::Done,
            ),
        },
    }
}

/// The change of a backlight.
#[derive(Debug)]
pub struct BacklightChange {
    device: String,
    level: u32,
    stage: BacklightStage,
    refusal: String,
    failure: String,
}

impl View for BacklightChange {
    type V = BacklightView;

    closed spec fn view(&self) -> BacklightView {
        BacklightView {
            device: self.device@,
            level: self.level,
            stage: self.stage,
            refusal: self.refusal@,
            failure: self.failure@,
        }
    }
}

/// The change of a backlight to a share of its greatest brightness.
pub open spec fn backlight_start(device: BacklightDevice, value: Single) -> BacklightView {
    BacklightView {
        device: device.name@,
        level: brightness::level_of(value, brightness::file_number(device.max_brightness)->Some_0),
        stage: BacklightStage::Logind,
        refusal: seq![],
        failure: seq![],
    }
}

impl BacklightChange {
    /// The change to a share of the greatest brightness, on the device that is used for it. There
    /// is none where there is no such device.
    pub fn new(devices: &Vec<BacklightDevice>, value: Single) -> (r: Option<Self>)
        ensures
            match brightness::chosen_device(devices@) {
                Some(i) => r matches Some(c) && c@ == backlight_start(devices@[i], value),
                None => r is None,
            },
    {
        match brightness::backlight_get(devices) {
            Some((device, _, max)) => {
                let c = BacklightChange {
                    device,
                    level: brightness::level_for(value, max),
                    stage: BacklightStage::Logind,
                    refusal: String::new(),
                    failure: String::new(),
                };
                assert(c.refusal@ =~= seq![]);
                assert(c.failure@ =~= seq![]);
                Some(c)
            },
            None => None,
        }
    }

    pub fn device(&self) -> (r: &String)
        ensures
            r@ == self@.device,
    {
        &self.device
    }

    pub fn level(&self) -> (r: u32)
        ensures
            r == self@.level,
    {
        self.level
    }

    /// Why the backlight is not set.
    pub fn failure(&self) -> (r: &String)
        ensures
            r@ == self@.failure,
    {
        &self.failure
    }

    fn fail(&mut self, failure: String) -> (r: BacklightAction)
        ensures
            (final(self)@, r) == backlight_failed(old(self)@, failure@),
    {
        self.failure = failure;
        self.stage = BacklightStage::Finished;
        BacklightAction::Failed
    }

    /// Takes in what came of what was asked for last. The first thing to ask for is the login
    /// manager.
    pub fn step(&mut self, e: BacklightEvent) -> (r: BacklightAction)
        requires
            old(self)@.expects(e),
        ensures
            (final(self)@, r) == backlight_step(old(self)@, e),
    {
        match e {
            BacklightEvent::Succeeded => {
                self.stage = BacklightStage::Reading;
                BacklightAction::ReadBack
            },
            BacklightEvent::Failed(error) => match self.stage {
                BacklightStage::Logind => {
                    self.refusal = error;
                    self.stage = BacklightStage::File;
                    BacklightAction::WriteFile
                },
                _ => {
                    let mut s = String::from_str("failed to set backlight brightness (device=");
                    s.append(self.device.as_str());
                    s.append(") via logind: ");
                    s.append(self.refusal.as_str());
                    s.append(" (sysfs not writable: ");
                    s.append(error.as_str());
                    s.append(")");
                    self.fail(s)
                },
            },
            BacklightEvent::Level(level) => match level {
                Some(n) => {
                    if brightness::level_took_effect(n, self.level) {
                        self.stage = BacklightStage::Finished;
                        BacklightAction::Done
                    } else {
                        let mut s = String::from_str(
                            "backlight write did not take effect (device=",
                        );
                        s.append(self.device.as_str());
                        s.append("): expected ");
                        decimal::push(&mut s, self.level as u64);
                        s.append(", observed ");
                        decimal::push(&mut s, n as u64);
                        self.fail(s)
                    }
                },
                None => {
                    self.stage = BacklightStage::Finished;
                    BacklightAction::Done
                },
            },
        }
    }
}

// ---- an output ----

/// What is waited for.
#[derive(Clone, Copy, Debug, PartialEq, Eq, Structural)]
pub enum BrightnessStage {
    Power,
    Backlight,
    Ddcutil,
    Bus,
    Range,
    Write,
    Reading,
    Finished,
}

/// What came of what was asked for last.
#[derive(Debug)]
pub enum BrightnessEvent {
    Succeeded,
    Failed(String),
    /// The display devices that the kernel knows.
    Devices(Vec<DrmEntry>),
    /// What `ddcutil` reports, where it does.
    Report(Option<String>),
}

/// What is asked for next.
#[derive(Debug)]
pub enum BrightnessAction {
    /// Set the percentage in the power settings.
    SetPower(i32),
    /// Set the backlight.
    SetBacklight(Single),
    /// Find out whether `ddcutil` can be run.
    FindDdcutil,
    /// List the display devices.
    ListDevices,
    /// Run `ddcutil` for a report on the monitor.
    Report(Vec<String>),
    /// Run `ddcutil` to set the brightness.
    Write(Vec<String>),
    /// Wait a moment, and run `ddcutil` for a report on the monitor.
    ReadBack(Vec<String>),
    /// The brightness is set; it counts as read now, and the one that was asked for is kept.
    Keep(Single),
    /// The brightness is set.
    Done,
    /// The brightness is not set.
    Failed,
}

pub enum BrightnessActionView {
    SetPower(i32),
    SetBacklight(Single),
    FindDdcutil,
    ListDevices,
    Report(Seq<Seq<char>>),
    Write(Seq<Seq<char>>),
    ReadBack(Seq<Seq<char>>),
    Keep(Single),
    Done,
    Failed,
}

impl View for BrightnessAction {
    type V = BrightnessActionView;

    open spec fn view(&self) -> BrightnessActionView {
        match self {
            BrightnessAction::SetPower(p) => BrightnessActionView::SetPower(*p),
            BrightnessAction::SetBacklight(x) => BrightnessActionView::SetBacklight(*x),
            BrightnessAction::FindDdcutil => BrightnessActionView::FindDdcutil,
            BrightnessAction::ListDevices => BrightnessActionView::ListDevices,
            BrightnessAction::Report(args) => BrightnessActionView::Report(spec::strings(args@)),
            BrightnessAction::Write(args) => BrightnessActionView::Write(spec::strings(args@)),
            BrightnessAction::ReadBack(args) => BrightnessActionView::ReadBack(
                spec::strings(args@),
            ),
            BrightnessAction::Keep(x) => BrightnessActionView::Keep(*x),
            BrightnessAction::Done => BrightnessActionView::Done,
            BrightnessAction::Failed => BrightnessActionView::Failed,
        }
    }
}

/// Where the change of a brightness stands.
#[verifier::ext_equal]
pub struct BrightnessView {
    pub output: Seq<char>,
    /// The brightness that is asked for, from zero to one.
    pub value: Single,
    pub stage: BrightnessStage,
    pub bus: u32,
    /// Why the power settings did not change the brightness.
    pub refusal: Seq<char>,
    /// Why the brightness is not set.
    pub failure: Seq<char>,
}

impl BrightnessView {
    /// Whether the event answers what is waited for.
    pub open spec fn expects(self, e: BrightnessEvent) -> bool {
        match self.stage {
            BrightnessStage::Bus => e is Devices,
            BrightnessStage::Range | BrightnessStage::Reading => e is Report,
            BrightnessStage::Finished => false,
            _ => e is Succeeded || e is Failed,
        }
    }
}

/// The arguments for a report on the monitor on a bus.
pub open spec fn report_args(bus: u32) -> Seq<Seq<char>> {
    seq!["--bus"@, decimal::decimal(bus as nat), "getvcp"@, "10"@, "--brief"@]
}

/// The arguments that set the brightness of the monitor on a bus, given a report where there is
/// one.
pub open spec fn write_args(bus: u32, value: Single, report: Option<Seq<char>>) -> Seq<Seq<char>> {
    let max = match report {
        Some(s) => match brightness::ddc_values(s) {
            Some((_, m)) => m,
            None => 100,
        },
        None => 100,
    };
    seq![
        "--bus"@,
        decimal::decimal(bus as nat),
        "setvcp"@,
        "10"@,
        decimal::decimal(brightness::level_of(value, max) as nat),
    ]
}

/// The brightness in a report.
pub open spec fn reported(report: Option<Seq<char>>) -> Option<Single> {
    match report {
        Some(s) => match brightness::ddc_values(s) {
            Some((c, m)) => Some(float::ratio(c as nat, m as nat)),
            None => None,
        },
        None => None,
    }
}

pub open spec fn brightness_failed(v: BrightnessView, failure: Seq<char>) -> (
    BrightnessView,
    BrightnessActionView,
) {
    (
        BrightnessView { failure, stage: BrightnessStage::Finished, ..v },
        BrightnessActionView::Failed,
    )
}

pub open spec fn brightness_at(v: BrightnessView, stage: BrightnessStage) -> BrightnessView {
    BrightnessView { stage, ..v }
}

/// What is done about a success.
pub open spec fn after_success(v: BrightnessView) -> (BrightnessView, BrightnessActionView) {
    match v.stage {
        BrightnessStage::Ddcutil => (
            brightness_at(v, BrightnessStage::Bus),
            BrightnessActionView::ListDevices,
        ),
        BrightnessStage::Write => (
            brightness_at(v, BrightnessStage::Reading),
            BrightnessActionView::ReadBack(report_args(v.bus)),
        ),
        _ => (brightness_at(v, BrightnessStage::Finished), BrightnessActionView::Done),
    }
}

/// What is done about a failure.
pub open spec fn after_failure(v: BrightnessView, error: Seq<char>) -> (
    BrightnessView,
    BrightnessActionView,
) {
    match v.stage {
        BrightnessStage::Power => (
            BrightnessView { refusal: error, stage: BrightnessStage::Backlight, ..v },
            BrightnessActionView::SetBacklight(v.value),
        ),
        BrightnessStage::Backlight => brightness_failed(
            v,
            "failed to set brightness: gsd-power failed ("@ + v.refusal
                + "); backlight failed ("@ + error + ")"@,
        ),
        BrightnessStage::Ddcutil => brightness_failed(
            v,
            "ddcutil is not available; install it to control external monitor brightness on GNOME"@,
        ),
        _ => brightness_failed(
            v,
            "failed to set DDC/CI brightness for "@ + v.output + " (i2c bus "@ + decimal::decimal(
                v.bus as nat,
            ) + ")"@,
        ),
    }
}

/// What is done about a report: first the brightness is set, then it is read back.
pub open spec fn after_report(v: BrightnessView, report: Option<Seq<char>>) -> (
    BrightnessView,
    BrightnessActionView,
) {
    if v.stage is Range {
        (
            brightness_at(v, BrightnessStage::Write),
            BrightnessActionView::Write(write_args(v.bus, v.value, report)),
        )
    } else {
        match reported(report) {
            Some(x) => if float::farther(x, v.value, float::single(DDC_TOLERANCE)) {
                brightness_failed(
                    v,
                    "DDC/CI brightness write did not take effect for "@ + v.output
                        + ": requested "@ + models::percent_text(v.value) + ", observed "@
                        + models::percent_text(x),
                )
            } else {
                (brightness_at(v, BrightnessStage::Finished), BrightnessActionView::Keep(x))
            },
            None => (
                brightness_at(v, BrightnessStage::Finished),
                BrightnessActionView::Keep(v.value),
            ),
        }
    }
}

/// One step: what was found out, and what is asked for next.
pub open spec fn brightness_step(v: BrightnessView, e: BrightnessEvent) -> (
    BrightnessView,
    BrightnessActionView,
) {
    match e {
        BrightnessEvent::Succeeded => after_success(v),
        BrightnessEvent::Failed(error) => after_failure(v, error@),
        BrightnessEvent::Devices(entries) => match connectors::first_bus(
            entries@,
            connectors::aliases(v.output),
        ) {
            Some(bus) => (
                BrightnessView { bus, stage: BrightnessStage::Range, ..v },
                BrightnessActionView::Report(report_args(bus)),
            ),
            None => brightness_failed(
                v,
                "failed to locate DDC/CI i2c bus for output "@ + v.output
                    + " under /sys/class/drm"@,
            ),
        },
        BrightnessEvent::Report(report) => after_report(v, spec::opt(report)),
    }
}

/// The change of the brightness of an output.
#[derive(Debug)]
pub struct BrightnessChange {
    output: String,
    value: Single,
    stage: BrightnessStage,
    bus: u32,
    refusal: String,
    failure: String,
}

impl View for BrightnessChange {
    type V = BrightnessView;

    closed spec fn view(&self) -> BrightnessView {
        BrightnessView {
            output: self.output@,
            value: self.value,
            stage: self.stage,
            bus: self.bus,
            refusal: self.refusal@,
            failure: self.failure@,
        }
    }
}

/// The change of an output to a brightness, and what is asked for first.
pub open spec fn brightness_start(output: Seq<char>, value: Single) -> (
    BrightnessView,
    BrightnessActionView,
) {
    (
        BrightnessView {
            output,
            value: float::clamped(value),
            stage: if connectors::is_internal(output) {
                BrightnessStage::Power
            } else {
                BrightnessStage::Ddcutil
            },
            bus: 0,
            refusal: seq![],
            failure: seq![],
        },
        if connectors::is_internal(output) {
            BrightnessActionView::SetPower(brightness::percentage(value) as i32)
        } else {
            BrightnessActionView::FindDdcutil
        },
    )
}

impl BrightnessChange {
    /// The change to a brightness, and what is asked for first.
    pub fn new(output: &str, value: Single) -> (r: (Self, BrightnessAction))
        ensures
            (r.0@, r.1@) == brightness_start(output@, value),
    {
        let internal = connectors::connector_looks_internal(output);
        let c = BrightnessChange {
            output: String::from_str(output),
            value: value.clamped(),
            stage: if internal {
                BrightnessStage::Power
            } else {
                BrightnessStage::Ddcutil
            },
            bus: 0,
            refusal: String::new(),
            failure: String::new(),
        };
        assert(c.refusal@ =~= seq![]);
        assert(c.failure@ =~= seq![]);
        let first = if internal {
            BrightnessAction::SetPower(brightness::percentage_of(value))
        } else {
            BrightnessAction::FindDdcutil
        };
        (c, first)
    }

    /// The brightness that is asked for, from zero to one.
    pub fn value(&self) -> (r: Single)
        ensures
            r == self@.value,
    {
        self.value
    }

    pub fn bus(&self) -> (r: u32)
        ensures
            r == self@.bus,
    {
        self.bus
    }

    /// Why the brightness is not set.
    pub fn failure(&self) -> (r: &String)
        ensures
            r@ == self@.failure,
    {
        &self.failure
    }

    fn fail(&mut self, failure: String) -> (r: BrightnessAction)
        ensures
            (final(self)@, r@) == brightness_failed(old(self)@, failure@),
    {
        self.failure = failure;
        self.stage = BrightnessStage::Finished;
        BrightnessAction::Failed
    }

    fn succeeded(&mut self) -> (r: BrightnessAction)
        ensures
            (final(self)@, r@) == after_success(old(self)@),
    {
        match self.stage {
            BrightnessStage::Ddcutil => {
                self.stage = BrightnessStage::Bus;
                BrightnessAction::ListDevices
            },
            BrightnessStage::Write => {
                self.stage = BrightnessStage::Reading;
                BrightnessAction::ReadBack(brightness::ddc_get_args(self.bus))
            },
            _ => {
                self.stage = BrightnessStage::Finished;
                BrightnessAction::Done
            },
        }
    }

    fn failed(&mut self, error: String) -> (r: BrightnessAction)
        ensures
            (final(self)@, r@) == after_failure(old(self)@, error@),
    {
        match self.stage {
            BrightnessStage::Power => {
                self.refusal = error;
                self.stage = BrightnessStage::Backlight;
                BrightnessAction::SetBacklight(self.value)
            },
            BrightnessStage::Backlight => {
                let mut s = String::from_str("failed to set brightness: gsd-power failed (");
                s.append(self.refusal.as_str());
                s.append("); backlight failed (");
                s.append(error.as_str());
                s.append(")");
                self.fail(s)
            },
            BrightnessStage::Ddcutil => self.fail(
                String::from_str(
                    "ddcutil is not available; install it to control external monitor brightness on GNOME",
                ),
            ),
            _ => {
                let mut s = String::from_str("failed to set DDC/CI brightness for ");
                s.append(self.output.as_str());
                s.append(" (i2c bus ");
                decimal::push(&mut s, self.bus as u64);
                s.append(")");
                self.fail(s)
            },
        }
    }

    fn report(&mut self, report: Option<String>) -> (r: BrightnessAction)
        ensures
            (final(self)@, r@) == after_report(old(self)@, spec::opt(report)),
    {
        let stdout: Option<&str> = match &report {
            Some(s) => Some(s.as_str()),
            None => None,
        };
        match self.stage {
            BrightnessStage::Range => {
                let max = brightness::ddc_greatest(stdout);
                self.stage = BrightnessStage::Write;
                BrightnessAction::Write(brightness::ddc_set_args(self.bus, self.value, max))
            },
            _ => {
                let now = match stdout {
                    Some(s) => brightness::ddc_ratio(s),
                    None => None,
                };
                match now {
                    Some(x) => {
                        if brightness::ddc_had_no_effect(x, self.value) {
                            let mut s = String::from_str(
                                "DDC/CI brightness write did not take effect for ",
                            );
                            s.append(self.output.as_str());
                            s.append(": requested ");
                            models::push_percent(&mut s, self.value);
                            s.append(", observed ");
                            models::push_percent(&mut s, x);
                            self.fail(s)
                        } else {
                            self.stage = BrightnessStage::Finished;
                            BrightnessAction::Keep(x)
                        }
                    },
                    None => {
                        self.stage = BrightnessStage::Finished;
                        BrightnessAction::Keep(self.value)
                    },
                }
            },
        }
    }

    /// Takes in what came of what was asked for last.
    pub fn step(&mut self, e: BrightnessEvent) -> (r: BrightnessAction)
        requires
            old(self)@.expects(e),
        ensures
            (final(self)@, r@) == brightness_step(old(self)@, e),
    {
        match e {
            BrightnessEvent::Succeeded => self.succeeded(),
            BrightnessEvent::Failed(error) => self.failed(error),
            BrightnessEvent::Devices(entries) => {
                match connectors::find_ddc_i2c_bus_for_connector(&entries, self.output.as_str()) {
                    Some(bus) => {
                        self.bus = bus;
                        self.stage = BrightnessStage::Range;
                        BrightnessAction::Report(brightness::ddc_get_args(bus))
                    },
                    None => {
                        let mut s = String::from_str(
                            "failed to locate DDC/CI i2c bus for output ",
                        );
                        s.append(self.output.as_str());
                        s.append(" under /sys/class/drm");
                        self.fail(s)
                    },
                }
            },
            BrightnessEvent::Report(report) => self.report(report),
        }
    }
}

/// The number of the stage, by which a change goes forward.
pub open spec fn rank(s: BrightnessStage) -> int {
    match s {
        BrightnessStage::Power => 0,
        BrightnessStage::Backlight => 1,
        BrightnessStage::Ddcutil => 2,
        BrightnessStage::Bus => 3,
        BrightnessStage::Range => 4,
        BrightnessStage::Write => 5,
        BrightnessStage::Reading => 6,
        BrightnessStage::Finished => 7,
    }
}

/// Whatever the answers are, a change goes forward with each of them, and keeps the output and
/// the brightness that are asked for. It is over exactly where it is told how it has ended, and
/// only a failure has a message.
pub proof fn changes_go_forward(v: BrightnessView, e: BrightnessEvent)
    requires
        v.expects(e),
        v.failure.len() == 0,
    ensures
        ({
            let (w, a) = brightness_step(v, e);
            &&& rank(w.stage) > rank(v.stage)
            &&& w.output == v.output
            &&& w.value == v.value
            &&& w.stage is Finished <==> (a is Done || a is Keep || a is Failed)
            &&& w.failure.len() > 0 ==> a is Failed
        }),
{
}

/// A brightness that is kept for an output is the one that was asked for, or it was read back and
/// is not far from it.
pub proof fn kept_brightness_took_effect(v: BrightnessView, e: BrightnessEvent)
    requires
        v.expects(e),
    ensures
        brightness_step(v, e).1 matches BrightnessActionView::Keep(x) ==> x == v.value
            || !float::farther(x, v.value, float::single(DDC_TOLERANCE)),
{
}

/// A backlight counts as set only where its level was read back as the wanted one, give or take
/// one, or could not be read.
pub proof fn set_backlights_took_effect(v: BacklightView, e: BacklightEvent)
    requires
        v.expects(e),
    ensures
        backlight_step(v, e).1 is Done <==> (v.stage is Reading && (e matches BacklightEvent::Level(
            n,
        ) && (n matches Some(k) ==> -1 <= k - v.level <= 1))),
{
}

} // verus!
