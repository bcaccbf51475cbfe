use sabantui::by_name::ByName;
use sabantui::float::{Double, Single};
use sabantui::gnome::brightness::{
    backlight_dir, backlight_get, backlight_get_ratio, backlight_read_named, backlight_snapshot_values,
    cached_ddc_brightness, ddc_failure, ddc_get_args, ddc_greatest, ddc_had_no_effect, ddc_ratio, ddc_set_args,
    disable_night_light_args, has_set_crtc_gamma, keep_brightness, keep_gamma, keep_temperature, level_for,
    level_took_effect, logind_argument, nightlight_set_temperature_args, nightlight_temperature, parse_ddcutil_current_max,
    parse_gsettings_bool, parse_gsettings_u32, percentage_of, ramp_settings, ramp_sizes, ratio_of_percentage,
    BacklightDevice, LogindArg, LogindCall, Reading,
};
use sabantui::gnome::connectors::{
    connector_aliases, connector_looks_internal, ddc_bus_to_ask, find_crtc_for_output, find_ddc_i2c_bus_for_connector,
    looks_like_connector_name, DrmEntry,
};
use sabantui::gnome::dbus::DbusValue;
use sabantui::gnome::dimming::{
    BacklightAction, BacklightChange, BacklightEvent, BrightnessAction, BrightnessChange, BrightnessEvent,
};
use sabantui::gnome::discovery::{
    add_object_methods, add_object_setters, search_for_setters, search_login_manager, sort_methods, sort_setters,
    DbusMethodSig, DbusSetter, DbusSetterKind, Walk,
};
use sabantui::gnome::introspect::{
    introspect_interfaces, is_brightness_like, parse_brightness_methods, parse_interface_blocks, parse_node_names,
    parse_setter_methods_from_iface, parse_writable_props_from_iface,
};
use sabantui::gnome::logind::{LogindAction, LogindEvent, LogindSetting};
use sabantui::gnome::power::{
    iface_candidates, percentage_of_signed, percentage_of_unsigned, verify_effect, EffectAction, EffectWatch,
    PercentageAction, PercentageEvent, PercentageQuery, PowerAction, PowerEvent, PowerSetting, SetterValue,
};
use sabantui::models::DisplayColorSettings;
use sabantui::trial::TrialAction;

fn single(x: f32) -> Single {
    Single { bits: x.to_bits() }
}

fn value(x: Single) -> f32 {
    f32::from_bits(x.bits)
}

fn some(s: &str) -> Option<String> {
    Some(s.to_string())
}

fn device(name: &str, kind: &str, max: &str, actual: Option<&str>, brightness: Option<&str>) -> BacklightDevice {
    BacklightDevice {
        name: name.to_string(),
        max_brightness: some(max),
        actual_brightness: actual.map(|s| s.to_string()),
        brightness: brightness.map(|s| s.to_string()),
        kind: some(kind),
    }
}

fn setter(path: &str, iface: &str, name: &str, ty: &str, kind: DbusSetterKind) -> DbusSetter {
    DbusSetter {
        destination: "org.gnome.SettingsDaemon.Power".to_string(),
        path: path.to_string(),
        iface: iface.to_string(),
        name: name.to_string(),
        arg_ty: ty.to_string(),
        kind,
    }
}

fn method(iface: &str, sig: &str) -> DbusMethodSig {
    DbusMethodSig {
        destination: "d".to_string(),
        path: "/p".to_string(),
        iface: iface.to_string(),
        method: "SetBrightness".to_string(),
        in_sig: sig.to_string(),
    }
}

#[test]
fn gsettings_values_are_read() {
    assert_eq!(parse_gsettings_bool(" true\n"), Some(true));
    assert_eq!(parse_gsettings_bool("false"), Some(false));
    assert_eq!(parse_gsettings_bool("yes"), None);
    assert_eq!(parse_gsettings_u32("uint32 4000\n"), Some(4000));
    assert_eq!(parse_gsettings_u32("17"), Some(17));
    assert_eq!(parse_gsettings_u32("uint32"), None);
    assert_eq!(nightlight_temperature("uint32 500"), Some(1000));
    assert_eq!(nightlight_temperature("x"), None);
    let (a, b, c) = nightlight_set_temperature_args(20000);
    assert_eq!(a, vec!["set", "org.gnome.settings-daemon.plugins.color", "night-light-schedule-automatic", "false"]);
    assert_eq!(b[2..], ["night-light-enabled", "true"]);
    assert_eq!(c[2..], ["night-light-temperature", "uint32 10000"]);
    let (_, off) = disable_night_light_args();
    assert_eq!(off[2..], ["night-light-enabled", "false"]);
}

#[test]
fn the_best_backlight_is_used() {
    let devices = vec![
        device("acpi", "firmware", "100", Some("50"), None),
        device("zero", "raw", "0", Some("0"), None),
        device("intel", "raw", "1515\n", Some("x"), Some("757")),
        device("amd", "raw", "255", Some("255"), None),
        device("dark", "raw", "9999", None, None),
    ];
    assert_eq!(backlight_dir(&devices), Some(2));
    assert_eq!(backlight_get(&devices), Some(("intel".to_string(), 757, 1515)));
    assert_eq!(backlight_get_ratio(&devices).map(value), Some(757.0 / 1515.0));
    let levels = backlight_snapshot_values(&devices);
    let names: Vec<&str> = levels.iter().map(|l| l.name.as_str()).collect();
    assert_eq!(names, vec!["acpi", "amd", "intel", "zero"]);
    assert_eq!(backlight_read_named(&devices[1]), Some((0, 1)));
    assert_eq!(backlight_dir(&vec![]), None);
}

#[test]
fn levels_are_shares_of_the_greatest() {
    for x in [0.0f32, 0.1, 0.333, 0.5, 0.999, 1.0, 2.0, -1.0] {
        for max in [1u32, 7, 100, 1515, 19393] {
            let expected = ((x.clamp(0.0, 1.0) * max as f32).round() as u32).clamp(0, max);
            assert_eq!(level_for(single(x), max), expected);
        }
    }
    assert!(level_took_effect(99, 100) && level_took_effect(101, 100) && !level_took_effect(98, 100));
}

#[test]
fn methods_of_the_login_manager_get_their_type() {
    assert_eq!(logind_argument("ssu", 300), LogindCall::With(LogindArg::U32(300)));
    assert_eq!(logind_argument("sst", 300), LogindCall::With(LogindArg::U64(300)));
    assert_eq!(logind_argument("ssi", u32::MAX), LogindCall::With(LogindArg::I32(-1)));
    assert_eq!(logind_argument("ssq", 65537), LogindCall::With(LogindArg::U16(1)));
    assert_eq!(logind_argument("ssy", 300), LogindCall::With(LogindArg::U8(255)));
    assert_eq!(logind_argument("ss", 1), LogindCall::Unsupported);
    assert_eq!(logind_argument("ssd", 1), LogindCall::Unsupported);
    assert_eq!(logind_argument("suu", 1), LogindCall::Skip);
}

#[test]
fn the_login_manager_is_asked_in_every_way() {
    let (mut s, first) = LogindSetting::new(300);
    assert_eq!(first, LogindAction::CallManager);
    assert_eq!(s.step(LogindEvent::Failed("denied".to_string())), LogindAction::Search);
    let methods = vec![method("a", "u"), method("b", "ssd"), method("c", "ssu"), method("d", "ssq")];
    assert_eq!(s.step(LogindEvent::Found(methods)), LogindAction::Open);
    assert_eq!(s.method().iface, "b");
    assert_eq!(s.step(LogindEvent::Succeeded), LogindAction::Open);
    assert_eq!(s.step(LogindEvent::Failed("no object".to_string())), LogindAction::Open);
    assert_eq!(s.step(LogindEvent::Succeeded), LogindAction::Call(LogindArg::U16(300)));
    assert_eq!(s.step(LogindEvent::Failed("refused".to_string())), LogindAction::Exhausted);
    assert_eq!(
        s.failure(),
        "logind backlight control unavailable/denied; attempts: b::SetBrightness(ssd) @ /p: unsupported | proxy c @ /p: no object | d::SetBrightness(ssq) @ /p: refused"
    );
    let (mut s, _) = LogindSetting::new(1);
    assert_eq!(s.step(LogindEvent::Succeeded), LogindAction::Done);
}

#[test]
fn a_backlight_is_set_and_read_back() {
    let devices = vec![device("intel", "raw", "100", Some("50"), None)];
    let mut c = BacklightChange::new(&devices, single(0.25)).unwrap();
    assert_eq!((c.device().as_str(), c.level()), ("intel", 25));
    assert_eq!(c.step(BacklightEvent::Failed("denied".to_string())), BacklightAction::WriteFile);
    assert_eq!(c.step(BacklightEvent::Succeeded), BacklightAction::ReadBack);
    assert_eq!(c.step(BacklightEvent::Level(Some(50))), BacklightAction::Failed);
    assert_eq!(c.failure(), "backlight write did not take effect (device=intel): expected 25, observed 50");
    let mut c = BacklightChange::new(&devices, single(0.25)).unwrap();
    c.step(BacklightEvent::Failed("denied".to_string()));
    assert_eq!(c.step(BacklightEvent::Failed("read-only".to_string())), BacklightAction::Failed);
    assert_eq!(
        c.failure(),
        "failed to set backlight brightness (device=intel) via logind: denied (sysfs not writable: read-only)"
    );
    let mut c = BacklightChange::new(&devices, single(0.25)).unwrap();
    assert_eq!(c.step(BacklightEvent::Succeeded), BacklightAction::ReadBack);
    assert_eq!(c.step(BacklightEvent::Level(Some(26))), BacklightAction::Done);
    assert!(BacklightChange::new(&vec![], single(0.5)).is_none());
}

#[test]
fn a_panel_is_dimmed_through_power_or_backlight() {
    let (mut c, first) = BrightnessChange::new("eDP-1", single(0.456));
    assert!(matches!(first, BrightnessAction::SetPower(46)));
    match c.step(BrightnessEvent::Failed("no service".to_string())) {
        BrightnessAction::SetBacklight(x) => assert_eq!(value(x), 0.456),
        other => panic!("{other:?}"),
    }
    assert!(matches!(c.step(BrightnessEvent::Failed("no device".to_string())), BrightnessAction::Failed));
    assert_eq!(
        c.failure(),
        "failed to set brightness: gsd-power failed (no service); backlight failed (no device)"
    );
    let (mut c, _) = BrightnessChange::new("LVDS1", single(1.0));
    assert!(matches!(c.step(BrightnessEvent::Succeeded), BrightnessAction::Done));
}

fn drm() -> Vec<DrmEntry> {
    vec![
        DrmEntry { name: "card0".to_string(), ddc: some("i2c-1"), files: None },
        DrmEntry { name: "card0-HDMI-A-1".to_string(), ddc: None, files: Some(vec!["i2c-12".to_string(), "i2c-9".to_string(), "edid".to_string()]) },
        DrmEntry { name: "card0-DP-1".to_string(), ddc: some("i2c-4"), files: None },
    ]
}

#[test]
fn a_monitor_is_dimmed_over_ddc() {
    let (mut c, first) = BrightnessChange::new("HDMI-1", single(0.5));
    assert!(matches!(first, BrightnessAction::FindDdcutil));
    assert!(matches!(c.step(BrightnessEvent::Succeeded), BrightnessAction::ListDevices));
    match c.step(BrightnessEvent::Devices(drm())) {
        BrightnessAction::Report(args) => assert_eq!(args, vec!["--bus", "9", "getvcp", "10", "--brief"]),
        other => panic!("{other:?}"),
    }
    let report = some("VCP code 0x10 (Brightness): current value = 20, max value = 80");
    match c.step(BrightnessEvent::Report(report)) {
        BrightnessAction::Write(args) => assert_eq!(args, vec!["--bus", "9", "setvcp", "10", "40"]),
        other => panic!("{other:?}"),
    }
    assert!(matches!(c.step(BrightnessEvent::Succeeded), BrightnessAction::ReadBack(_)));
    let unchanged = some("VCP code 0x10 (Brightness): current value = 20, max value = 80");
    assert!(matches!(c.step(BrightnessEvent::Report(unchanged)), BrightnessAction::Failed));
    assert_eq!(
        c.failure(),
        "DDC/CI brightness write did not take effect for HDMI-1: requested 50%, observed 25%"
    );
    let (mut c, _) = BrightnessChange::new("DP-1", single(0.5));
    c.step(BrightnessEvent::Succeeded);
    c.step(BrightnessEvent::Devices(drm()));
    c.step(BrightnessEvent::Report(None));
    assert_eq!(c.bus(), 4);
    c.step(BrightnessEvent::Succeeded);
    match c.step(BrightnessEvent::Report(None)) {
        BrightnessAction::Keep(x) => assert_eq!(value(x), 0.5),
        other => panic!("{other:?}"),
    }
}

#[test]
fn a_monitor_that_cannot_be_reached_is_reported() {
    let (mut c, _) = BrightnessChange::new("VGA-1", single(0.5));
    assert!(matches!(c.step(BrightnessEvent::Failed(String::new())), BrightnessAction::Failed));
    assert_eq!(c.failure(), "ddcutil is not available; install it to control external monitor brightness on GNOME");
    let (mut c, _) = BrightnessChange::new("VGA-1", single(0.5));
    c.step(BrightnessEvent::Succeeded);
    assert!(matches!(c.step(BrightnessEvent::Devices(drm())), BrightnessAction::Failed));
    assert_eq!(c.failure(), "failed to locate DDC/CI i2c bus for output VGA-1 under /sys/class/drm");
    let (mut c, _) = BrightnessChange::new("DP-1", single(0.5));
    c.step(BrightnessEvent::Succeeded);
    c.step(BrightnessEvent::Devices(drm()));
    c.step(BrightnessEvent::Report(None));
    assert!(matches!(c.step(BrightnessEvent::Failed("x".to_string())), BrightnessAction::Failed));
    assert_eq!(c.failure(), "failed to set DDC/CI brightness for DP-1 (i2c bus 4)");
}

#[test]
fn ddcutil_reports_are_read() {
    let line = "VCP code 0x10 (Brightness): current value =    50, max value =   100";
    assert_eq!(parse_ddcutil_current_max(line), Some((50, 100)));
    assert_eq!(ddc_ratio(line).map(value), Some(0.5));
    assert_eq!(ddc_greatest(Some(line)), 100);
    assert_eq!(ddc_greatest(Some("nothing")), 100);
    assert_eq!(ddc_greatest(None), 100);
    assert_eq!(parse_ddcutil_current_max("current value = 1, max value = 0"), Some((1, 1)));
    assert_eq!(parse_ddcutil_current_max("VCP 10 C 50 100"), None);
    assert_eq!(ddc_get_args(3)[1], "3");
    assert_eq!(ddc_set_args(3, single(0.333), 255)[4], "85");
    assert!(ddc_had_no_effect(single(0.5), single(0.6)) && !ddc_had_no_effect(single(0.5), single(0.55)));
    assert_eq!(ddc_failure("getvcp", 3, "boom"), "ddcutil getvcp failed: boom");
    assert!(ddc_failure("setvcp", 3, "Permission Denied").starts_with("ddcutil setvcp failed (permission denied)."));
}

#[test]
fn recent_readings_count() {
    let mut cache = ByName::new();
    cache.set("DP-1", Reading { at: 1000, value: single(0.4) });
    assert_eq!(cached_ddc_brightness(&cache, "DP-1", 6000).map(value), Some(0.4));
    assert!(cached_ddc_brightness(&cache, "DP-1", 6001).is_none());
    assert!(cached_ddc_brightness(&cache, "DP-2", 1000).is_none());
}

#[test]
fn settings_are_kept_apart() {
    let mut states: ByName<DisplayColorSettings> = ByName::new();
    keep_brightness(&mut states, "DP-1", single(2.0));
    keep_gamma(&mut states, "DP-1", single(0.0));
    keep_temperature(&mut states, "DP-1", 99);
    let s = states.get("DP-1").unwrap();
    assert_eq!((s.brightness.map(value), s.gamma.map(value), s.temperature), (Some(1.0), Some(0.1), Some(1000)));
    let (gamma, temperature) = ramp_settings(&states, "DP-2");
    assert_eq!((value(gamma), temperature), (1.0, 6500));
    assert!(has_set_crtc_gamma("<method name='SetCrtcGamma'>") && !has_set_crtc_gamma("<method name=\"Other\">"));
    assert_eq!(percentage_of(single(0.005)), (0.005f32 * 100.0).round() as i32);
    assert_eq!(value(ratio_of_percentage(50)), 0.5);
}

#[test]
fn connectors_have_aliases() {
    assert!(connector_looks_internal("eDP-1") && connector_looks_internal("DSI-1") && !connector_looks_internal("DP-1"));
    assert_eq!(connector_aliases(" HDMI-1 "), vec!["HDMI-1", "HDMI-A-1"]);
    assert_eq!(connector_aliases("HDMI-A-2"), vec!["HDMI-2", "HDMI-A-2", "HDMI-A-A-2"]);
    assert_eq!(connector_aliases("DVI-1"), vec!["DVI-1", "DVI-D-1", "DVI-I-1"]);
    assert_eq!(find_ddc_i2c_bus_for_connector(&drm(), "HDMI-1"), Some(9));
    assert_eq!(find_ddc_i2c_bus_for_connector(&drm(), "DP-1"), Some(4));
    assert_eq!(find_ddc_i2c_bus_for_connector(&drm(), "VGA-1"), None);
    assert_eq!(ddc_bus_to_ask(&drm(), "DP-1", true), Some(4));
    assert_eq!(ddc_bus_to_ask(&drm(), "DP-1", false), None);
    assert_eq!(ddc_bus_to_ask(&drm(), "eDP-1", true), None);
    assert!(looks_like_connector_name("HDMI-1") && !looks_like_connector_name("HDMI") && !looks_like_connector_name("Dell U2"));
}

#[test]
fn crtcs_are_found() {
    let output = |name: &str, crtc: u32| {
        DbusValue::Struct(vec![DbusValue::U32(1), DbusValue::U32(crtc), DbusValue::Text(name.to_string())])
    };
    let all = vec![DbusValue::Other, output("DP-1", 0), output("HDMI-A-1", 64)];
    assert_eq!(find_crtc_for_output(&all, "HDMI-1"), Some(64));
    assert_eq!(find_crtc_for_output(&all, "DP-1"), None);
}

const XML: &str = r#"<node>
 <interface name="org.gnome.SettingsDaemon.Power.Screen">
  <method name="SetPercentage"><arg name="p" type="u" direction="in"/><arg type="u" direction="out"/></method>
  <method name="StepUp"></method>
  <property name="Brightness" type="i" access="readwrite"/>
  <property name="BrightnessMax" type="i" access="read"/>
 </interface>
 <interface name="org.gnome.SettingsDaemon.Power.Keyboard">
  <property name="Brightness" type="i" access="readwrite"/>
 </interface>
 <node name="b"/><node name='a'/><node name="b"/>
</node>"#;

#[test]
fn introspection_is_read() {
    assert_eq!(introspect_interfaces(XML).len(), 2);
    assert_eq!(parse_node_names(XML), vec!["a", "b"]);
    let blocks = parse_interface_blocks(XML);
    assert_eq!(blocks.len(), 2);
    assert_eq!(parse_setter_methods_from_iface(&blocks[0].1), vec![("SetPercentage".to_string(), "u".to_string())]);
    assert_eq!(parse_writable_props_from_iface(&blocks[0].1), vec![("Brightness".to_string(), "i".to_string())]);
    assert!(is_brightness_like("SetBacklight") && !is_brightness_like("KbdBrightness") && !is_brightness_like("Volume"));
    let login = r#"<method name="SetBrightness"><arg type="s"/><arg type="s"/><arg type="u"/></method><method name="Other"/>"#;
    assert_eq!(parse_brightness_methods(login), vec![("SetBrightness".to_string(), "ssu".to_string())]);
}

#[test]
fn setters_are_collected_and_ordered() {
    let mut found = Vec::new();
    add_object_setters(&mut found, "dest", "/x/Screen", XML);
    assert_eq!(found.len(), 2);
    assert_eq!(found[0].name, "SetPercentage");
    assert_eq!(found[1].kind, DbusSetterKind::Property);
    let sorted = sort_setters(found);
    assert_eq!(sorted.len(), 2);
    let mut methods = Vec::new();
    let login = r#"<interface name="org.x"><method name="SetBrightness"><arg type="s"/><arg type="s"/><arg type="u"/></method></interface>
        <interface name="org.x.Manager"><method name="SetBrightness"><arg type="s"/><arg type="s"/><arg type="u"/></method></interface>"#;
    add_object_methods(&mut methods, "dest", "/p", login);
    assert_eq!(sort_methods(methods)[0].iface, "org.x.Manager");
}

#[test]
fn walks_look_at_each_object_once() {
    let mut w = Walk::new(&vec!["/r".to_string()], 1, 10);
    let v = w.next().unwrap();
    assert_eq!((v.path.as_str(), v.depth), ("/r", 0));
    w.describe(&v, XML);
    let a = w.next().unwrap();
    assert_eq!((a.path.as_str(), a.depth), ("/r/a", 1));
    w.describe(&a, XML);
    assert_eq!(w.next().unwrap().path, "/r/b");
    assert!(w.next().is_none());
    let mut w = search_for_setters("/org/gnome/SettingsDaemon/Power");
    assert_eq!(w.next().unwrap().path, "/org/gnome/SettingsDaemon/Power");
    assert_eq!(w.next().unwrap().path, "/org/gnome/SettingsDaemon/Power/Backlight");
    let mut w = search_login_manager();
    assert_eq!(w.next().unwrap().path, "/org/freedesktop/login1");
    assert!(w.next().is_none());
    let mut w = Walk::new(&vec!["/a".to_string(), "/b".to_string()], 3, 1);
    assert!(w.next().is_some() && w.next().is_none());
}

#[test]
fn power_settings_are_tried_until_one_takes_effect() {
    let setters = vec![
        setter("/p", "a.b", "SetPercentage", "d", DbusSetterKind::Method),
        setter("/p", "not an interface", "Brightness", "i", DbusSetterKind::Property),
        setter("/p", "a.b", "Brightness", "s", DbusSetterKind::Property),
        setter("/p", "a.b", "Brightness", "i", DbusSetterKind::Property),
    ];
    let (mut s, first) = PowerSetting::new(150, setters);
    assert_eq!(first, PowerAction::Open);
    assert_eq!(s.percent(), 100);
    assert_eq!(s.step(PowerEvent::Opened), PowerAction::Call);
    assert!(matches!(s.value(), SetterValue::F64(Double { bits }) if bits == 100.0f64.to_bits()));
    assert_eq!(s.step(PowerEvent::CallFailed("no".to_string())), PowerAction::Call);
    assert!(matches!(s.value(), SetterValue::F64(Double { bits }) if bits == 1.0f64.to_bits()));
    assert_eq!(s.step(PowerEvent::Called), PowerAction::Verify);
    assert_eq!(s.step(PowerEvent::NoEffect), PowerAction::Open);
    assert_eq!(s.step(PowerEvent::Opened), PowerAction::Open);
    assert_eq!(s.step(PowerEvent::Opened), PowerAction::Open);
    assert_eq!(s.setter().arg_ty, "i");
    assert_eq!(s.step(PowerEvent::Opened), PowerAction::Call);
    assert_eq!(s.step(PowerEvent::CallFailed("never".to_string())), PowerAction::Exhausted);
    let text = s.failure(Some(20), Some(20));
    assert!(text.contains("a.b::SetPercentage(d=100) @ /p: no | a.b::SetPercentage(d=1) @ /p: no effect"));
    assert!(text.starts_with("failed to call gsd-power SetPercentage; attempts: discovered 4 brightness setters in gsd-power | "));
    assert!(text.contains("Properties.Set Brightness @ /p: invalid iface not an interface"));
    assert!(text.contains("Properties.Set Brightness @ /p: unsupported type s"));
    assert!(text.ends_with("gsd-power reported 20% before and 20% after; desired 100% (no change)"));
    let (mut s, _) = PowerSetting::new(10, vec![setter("/p", "a.b", "SetBrightness", "u", DbusSetterKind::Method)]);
    s.step(PowerEvent::Opened);
    s.step(PowerEvent::Called);
    assert_eq!(s.step(PowerEvent::TookEffect), PowerAction::Done);
}

#[test]
fn interface_names_are_those_of_the_bus() {
    let long = format!("a.{}", "b".repeat(253));
    let too_long = format!("a.{}", "b".repeat(254));
    for (name, valid) in [
        ("a.b", true), ("org.x_1.Y2", true), ("a.b.", true), ("ab", false), ("abc", false), (".a.b", false),
        ("a..b", false), ("a.1b", false), ("1a.b", false), ("a.b-c", false), ("a.bé", false), ("", false),
        (long.as_str(), true), (too_long.as_str(), false),
    ] {
        let (mut s, _) = PowerSetting::new(10, vec![setter("/p", name, "Brightness", "i", DbusSetterKind::Property)]);
        let expected = if valid { PowerAction::Call } else { PowerAction::Exhausted };
        assert_eq!(s.step(PowerEvent::Opened), expected, "{name}");
    }
}

#[test]
fn percentages_are_kept_in_range() {
    assert_eq!((percentage_of_signed(-5), percentage_of_signed(50), percentage_of_signed(500)), (0, 50, 100));
    assert_eq!((percentage_of_unsigned(50), percentage_of_unsigned(500)), (50, 100));
    assert_eq!(percentage_of_unsigned(u32::MAX), (u32::MAX as i32).clamp(0, 100));
    let all = iface_candidates(vec!["z".to_string(), "org.gnome.SettingsDaemon.Power".to_string()]);
    assert_eq!(all.len(), 4);
    assert_eq!(all[3], "z");
    let before = backlight_snapshot_values(&vec![device("intel", "raw", "100", Some("50"), None)]);
    let after = backlight_snapshot_values(&vec![device("intel", "raw", "100", Some("60"), None)]);
    assert!(verify_effect(30, Some(31), &before, &before));
    assert!(verify_effect(30, None, &before, &after));
    assert!(!verify_effect(30, Some(50), &before, &before));
}

#[test]
fn effect_is_looked_for_four_times() {
    let before = backlight_snapshot_values(&vec![device("intel", "raw", "100", Some("50"), None)]);
    let after = backlight_snapshot_values(&vec![device("intel", "raw", "100", Some("60"), None)]);
    let (mut watch, action) = EffectWatch::new();
    assert_eq!(action, EffectAction::Wait(60));
    assert_eq!(watch.step(30, None, &before, &before), EffectAction::Wait(120));
    assert_eq!(watch.step(30, Some(50), &before, &before), EffectAction::Wait(240));
    assert_eq!(watch.step(30, Some(50), &before, &before), EffectAction::Wait(480));
    assert_eq!(watch.step(30, Some(50), &before, &before), EffectAction::NoEffect);
    let (mut watch, _) = EffectWatch::new();
    assert_eq!(watch.step(30, None, &before, &before), EffectAction::Wait(120));
    assert_eq!(watch.step(30, None, &before, &after), EffectAction::TookEffect);
}

#[test]
fn percentage_is_asked_for_in_order() {
    let (mut query, action) = PercentageQuery::new();
    assert_eq!(action, PercentageAction::Describe);
    assert_eq!(query.path(), "/org/gnome/SettingsDaemon/Power");
    let xml = r#"<node><interface name="a.b"></interface></node>"#.to_string();
    assert_eq!(query.step(PercentageEvent::Described(Some(xml))), PercentageAction::Open);
    assert_eq!(query.iface(), "a.b");
    assert_eq!(query.step(PercentageEvent::OpenFailed("closed".to_string())), PercentageAction::Open);
    assert_eq!(query.iface(), "org.gnome.SettingsDaemon.Power");
    assert_eq!(query.step(PercentageEvent::Opened), PercentageAction::AskUnsigned);
    assert_eq!(query.method(), "GetPercentage");
    let failed = || PercentageEvent::CallFailed("no".to_string());
    assert_eq!(query.step(failed()), PercentageAction::AskSigned);
    assert_eq!(query.method(), "GetPercentage");
    assert_eq!(query.step(failed()), PercentageAction::AskUnsigned);
    assert_eq!(query.method(), "GetBrightness");
    assert_eq!(query.step(PercentageEvent::Unsigned(140)), PercentageAction::Found(100));
    assert_eq!(query.failure(), "closed");
}

#[test]
fn percentage_is_asked_for_everywhere() {
    let (mut query, _) = PercentageQuery::new();
    for path in ["/org/gnome/SettingsDaemon/Power", "/org/gnome/SettingsDaemon/Power/Screen"] {
        assert_eq!(query.path(), path);
        let mut action = query.step(PercentageEvent::Described(None));
        for iface in ["Power", "Power.Backlight", "Power.Screen"] {
            assert_eq!(action, PercentageAction::Open);
            assert_eq!(query.iface(), format!("org.gnome.SettingsDaemon.{iface}"));
            assert_eq!(query.step(PercentageEvent::Opened), PercentageAction::AskUnsigned);
            for _ in 0..4 {
                action = query.step(PercentageEvent::CallFailed(format!("{path} {iface}")));
            }
        }
        if path.ends_with("Screen") {
            assert_eq!(action, PercentageAction::Exhausted);
        } else {
            assert_eq!(action, PercentageAction::Describe);
        }
    }
    assert_eq!(query.failure(), "/org/gnome/SettingsDaemon/Power Power");
    let (query, _) = PercentageQuery::new();
    assert_eq!(query.failure(), "gsd-power GetPercentage failed");
    let (mut query, _) = PercentageQuery::new();
    query.step(PercentageEvent::Described(None));
    query.step(PercentageEvent::Opened);
    query.step(PercentageEvent::CallFailed("not unsigned".to_string()));
    assert_eq!(query.step(PercentageEvent::Signed(-3)), PercentageAction::Found(0));
}

#[test]
fn tables_of_three_sizes_are_tried() {
    let (mut trial, action) = ramp_sizes();
    assert_eq!((action, *trial.current()), (TrialAction::Try, 256));
    assert_eq!((trial.step(false), *trial.current()), (TrialAction::Try, 1024));
    assert_eq!((trial.step(false), *trial.current()), (TrialAction::Try, 512));
    assert_eq!(trial.step(false), TrialAction::Failed);
    assert_eq!(ramp_sizes().0.step(true), TrialAction::Done);
}
