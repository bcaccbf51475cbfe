//! What holds of every change of a brightness.
use vstd::prelude::*;

use crate::decimal;
use crate::float;
use crate::float::Single;
use crate::gnome::brightness;
use crate::gnome::brightness::{BacklightDevice, DDC_TOLERANCE};
use crate::gnome::connectors;
use crate::gnome::connectors::DrmEntry;
use crate::gnome::dimming::{
    backlight_start, backlight_step, brightness_start, brightness_step, reported, BacklightEvent,
    BacklightView, BrightnessActionView, BrightnessEvent, BrightnessView,
};
use crate::models;
use crate::text_spec as spec;

verus! {

/// Once a monitor was told its brightness, the change has succeeded exactly if the report on the
/// monitor cannot be read, or gives a brightness that is not farther from the wanted one than the
/// tolerance; in any other case it has failed. What counts as read is the reported brightness, or
/// the wanted one where none can be read.
pub proof fn read_back_decides(v: BrightnessView, report: Option<String>)
    requires
        v.stage is Reading,
    ensures
        ({
            let (w, a) = brightness_step(v, BrightnessEvent::Report(report));
            let near = match reported(spec::opt(report)) {
                Some(x) => !float::farther(x, v.value, float::single(DDC_TOLERANCE)),
                None => true,
            };
            &&& near <==> a is Keep
            &&& !near <==> a is Failed
            &&& a matches BrightnessActionView::Keep(x) ==> x == match reported(spec::opt(report)) {
                Some(y) => y,
                None => v.value,
            }
            &&& near ==> w.failure == v.failure
            &&& w.stage is Finished
        }),
{
}

/// A monitor that reports exactly the brightness that was asked for has been set.
pub proof fn obeying_monitors_are_kept(v: BrightnessView, report: String)
    requires
        v.stage is Reading,
        reported(Some(report@)) == Some(v.value),
    ensures
        brightness_step(v, BrightnessEvent::Report(Some(report))).1 == BrightnessActionView::Keep(
            v.value,
        ),
{
    float::laws::numbers_are_close_to_themselves(
        v.value,
        float::double(0),
        float::single(DDC_TOLERANCE),
        float::double(0),
    );
    read_back_decides(v, Some(report));
}

/// The brightness in a report is the share of the current value in the greatest one.
pub proof fn reports_give_a_share(report: Seq<char>, current: u32, max: u32)
    requires
        brightness::ddc_current(report) == Some(current),
        brightness::ddc_max(report) == Some(max),
    ensures
        max > 0 ==> reported(Some(report)) == Some(float::ratio(current as nat, max as nat)),
        reported(None) is None,
{
}

/// A monitor is set over DDC: it is looked for once `ddcutil` is there, asked for its range on its
/// own bus, told the level for its range, and asked again on the same bus.
pub proof fn monitors_are_set_over_ddc(
    v: BrightnessView,
    entries: Vec<DrmEntry>,
    bus: u32,
    report: Option<String>,
)
    requires
        v.stage is Ddcutil,
        connectors::first_bus(entries@, connectors::aliases(v.output)) == Some(bus),
    ensures
        ({
            let (v1, a1) = brightness_step(v, BrightnessEvent::Succeeded);
            let (v2, a2) = brightness_step(v1, BrightnessEvent::Devices(entries));
            let (v3, a3) = brightness_step(v2, BrightnessEvent::Report(report));
            let (v4, a4) = brightness_step(v3, BrightnessEvent::Succeeded);
            let number = decimal::decimal(bus as nat);
            let max = match report {
                Some(s) => match brightness::ddc_values(s@) {
                    Some((_, m)) => m,
                    None => 100u32,
                },
                None => 100,
            };
            &&& a1 is ListDevices
            &&& a2 == BrightnessActionView::Report(
                seq!["--bus"@, number, "getvcp"@, "10"@, "--brief"@],
            )
            &&& a3 == BrightnessActionView::Write(
                seq![
                    "--bus"@,
                    number,
                    "setvcp"@,
                    "10"@,
                    decimal::decimal(brightness::level_of(v.value, max) as nat),
                ],
            )
            &&& a4 == BrightnessActionView::ReadBack(
                seq!["--bus"@, number, "getvcp"@, "10"@, "--brief"@],
            )
            &&& v4.stage is Reading && v4.value == v.value && v4.output == v.output && v4.bus == bus
        }),
{
}

/// A monitor is not set where `ddcutil` is not there, where its bus is not found, or where it
/// refuses the level; each failure is told apart, with the output and the bus.
pub proof fn monitors_that_are_not_set(
    v: BrightnessView,
    error: String,
    entries: Vec<DrmEntry>,
)
    ensures
        v.stage is Ddcutil ==> brightness_step(v, BrightnessEvent::Failed(error)).1 is Failed
            && brightness_step(v, BrightnessEvent::Failed(error)).0.failure
            == "ddcutil is not available; install it to control external monitor brightness on GNOME"@,
        connectors::first_bus(entries@, connectors::aliases(v.output)) is None ==> brightness_step(
            v,
            BrightnessEvent::Devices(entries),
        ).1 is Failed && brightness_step(v, BrightnessEvent::Devices(entries)).0.failure
            == "failed to locate DDC/CI i2c bus for output "@ + v.output + " under /sys/class/drm"@,
        v.stage is Write ==> brightness_step(v, BrightnessEvent::Failed(error)).1 is Failed
            && brightness_step(v, BrightnessEvent::Failed(error)).0.failure
            == "failed to set DDC/CI brightness for "@ + v.output + " (i2c bus "@
            + decimal::decimal(v.bus as nat) + ")"@,
{
}

/// A brightness that did not come about is reported with what was asked for and what was seen.
pub proof fn missing_effects_are_reported(v: BrightnessView, report: Option<String>)
    requires
        v.stage is Reading,
        brightness_step(v, BrightnessEvent::Report(report)).1 is Failed,
    ensures
        reported(spec::opt(report)) is Some,
        brightness_step(v, BrightnessEvent::Report(report)).0.failure
            == "DDC/CI brightness write did not take effect for "@ + v.output + ": requested "@
            + models::percent_text(v.value) + ", observed "@ + models::percent_text(
            reported(spec::opt(report))->Some_0,
        ),
{
}

/// A panel is set through the power settings; only where they refuse, its backlight is set to the
/// same brightness, and only where that fails too, the change has failed, for both reasons.
pub proof fn panels_are_set_by_power_or_backlight(v: BrightnessView, first: String, second: String)
    requires
        v.stage is Power,
    ensures
        ({
            let (v1, a1) = brightness_step(v, BrightnessEvent::Failed(first));
            let (v2, a2) = brightness_step(v1, BrightnessEvent::Failed(second));
            &&& brightness_step(v, BrightnessEvent::Succeeded).1 is Done
            &&& a1 == BrightnessActionView::SetBacklight(v.value)
            &&& v1.stage is Backlight
            &&& brightness_step(v1, BrightnessEvent::Succeeded).1 is Done
            &&& a2 is Failed
            &&& v2.failure == "failed to set brightness: gsd-power failed ("@ + first@
                + "); backlight failed ("@ + second@ + ")"@
        }),
{
}

/// A backlight is set through the login manager; only where that refuses, by its file; and only
/// where that cannot be written, the change has failed, for both reasons. Either way the level is
/// read back, and the device and the level stay what they were.
pub proof fn backlights_are_set_by_logind_or_file(v: BacklightView, first: String, second: String)
    requires
        v.stage is Logind,
    ensures
        ({
            let (v1, a1) = backlight_step(v, BacklightEvent::Failed(first));
            let (v2, a2) = backlight_step(v1, BacklightEvent::Failed(second));
            &&& backlight_step(v, BacklightEvent::Succeeded).1 is ReadBack
            &&& backlight_step(v, BacklightEvent::Succeeded).0.stage is Reading
            &&& backlight_step(v, BacklightEvent::Succeeded).0.level == v.level
            &&& a1 is WriteFile && v1.stage is File && v1.level == v.level && v1.device == v.device
            &&& backlight_step(v1, BacklightEvent::Succeeded).1 is ReadBack
            &&& backlight_step(v1, BacklightEvent::Succeeded).0.level == v.level
            &&& a2 is Failed
            &&& v2.failure == "failed to set backlight brightness (device="@ + v.device
                + ") via logind: "@ + first@ + " (sysfs not writable: "@ + second@ + ")"@
        }),
{
}

/// A backlight that was read back has failed exactly if its level is more than one off.
pub proof fn backlights_that_stay_have_failed(v: BacklightView, n: u32)
    requires
        v.stage is Reading,
    ensures
        ({
            let (w, a) = backlight_step(v, BacklightEvent::Level(Some(n)));
            let off = n > v.level + 1 || n + 1 < v.level;
            &&& off <==> a is Failed
            &&& !off <==> a is Done
            &&& off ==> w.failure == "backlight write did not take effect (device="@ + v.device
                + "): expected "@ + decimal::decimal(v.level as nat) + ", observed "@
                + decimal::decimal(n as nat)
        }),
        backlight_step(v, BacklightEvent::Level(None)).1 is Done,
{
}

/// A built-in panel is first set through the power settings, to the brightness in percent; for any
/// other monitor, `ddcutil` is looked for first.
pub proof fn panels_start_with_the_power_settings(output: Seq<char>, value: Single)
    ensures
        ({
            let (v, a) = brightness_start(output, value);
            &&& v.output == output && v.value == float::clamped(value)
            &&& connectors::is_internal(output) ==> v.stage is Power && a
                == BrightnessActionView::SetPower(brightness::percentage(value) as i32)
            &&& !connectors::is_internal(output) ==> v.stage is Ddcutil && a is FindDdcutil
            &&& v.refusal.len() == 0 && v.failure.len() == 0
        }),
{
}

/// A backlight is set on its own device, to the level for its own range, first through the login
/// manager.
pub proof fn backlights_are_set_on_their_device(device: BacklightDevice, value: Single, max: u32)
    requires
        brightness::file_number(device.max_brightness) == Some(max),
    ensures
        ({
            let v = backlight_start(device, value);
            &&& v.device == device.name@
            &&& v.level == brightness::level_of(value, max)
            &&& v.level <= max
            &&& v.stage is Logind && v.refusal.len() == 0 && v.failure.len() == 0
        }),
{
}

} // verus!
