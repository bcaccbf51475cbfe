use sabantui::by_name::ByName;
use sabantui::float::{Double, Single};
use sabantui::gnome::apply::{
    apply_trial, attempts, build_apply_args_v0, build_apply_args_v1, build_apply_args_v2, props_variants, Version,
};
use sabantui::gnome::dbus::{DbusEntry, DbusValue, DecodeError};
use sabantui::gnome::layout::{can_mirror, LayoutError};
use sabantui::gnome::monitors::{
    are_numbers, find_output_logical, fmt_scales, mode_matches, supported_scales_for_logical_monitor, transform_to_mutter,
    LogicalMonitorInfo, MonitorInfo, MonitorSpec, Props,
};
use sabantui::gnome::outputs::{list_outputs, ColorSources, DdcState};
use sabantui::gnome::state::{
    load_state, parse_logical_monitor, parse_monitor, parse_monitor_mode, parse_monitor_spec, MutterLogicalMonitorState,
    MutterMonitorModeState, MutterMonitorState,
};
use sabantui::gnome::GnomeBackend;
use sabantui::models::{DisplayColorSettings, DisplayMode, RelativePosition};
use sabantui::transforms;
use sabantui::trial::{Trial, TrialAction};

fn single(x: f32) -> Single {
    Single { bits: x.to_bits() }
}

fn double(x: f64) -> Double {
    Double { bits: x.to_bits() }
}

fn spec(connector: &str) -> MonitorSpec {
    MonitorSpec {
        connector: connector.to_string(),
        vendor: "ACM".to_string(),
        product: "Screen".to_string(),
        serial: connector.to_string(),
    }
}

fn flag(name: &str) -> DbusEntry {
    DbusEntry { name: name.to_string(), value: DbusValue::Bool(true), number: 0 }
}

fn mode(id: &str, width: i32, height: i32, refresh: f64, scales: Vec<f64>, flags: Vec<&str>) -> MutterMonitorModeState {
    MutterMonitorModeState {
        id: id.to_string(),
        width,
        height,
        refresh: double(refresh),
        preferred_scale: double(1.0),
        supported_scales: scales.into_iter().map(double).collect(),
        props: flags.into_iter().map(flag).collect(),
    }
}

fn monitor(connector: &str) -> MutterMonitorState {
    MutterMonitorState {
        spec: spec(connector),
        modes: vec![
            mode("big", 1920, 1080, 60.0, vec![1.0, 1.25, 2.0], vec!["is-current"]),
            mode("slow", 1920, 1080, 30.0, vec![1.0, 1.25], vec![]),
            mode("small", 1280, 720, 0.0, vec![], vec!["is-preferred"]),
        ],
    }
}

fn logical(x: i32, connectors: Vec<&str>, primary: bool) -> MutterLogicalMonitorState {
    MutterLogicalMonitorState {
        x,
        y: 0,
        scale: double(1.0),
        transform: 0,
        primary,
        monitors: connectors.into_iter().map(spec).collect(),
        props: ByName::new(),
    }
}

/// Two monitors side by side, and one that is disabled.
fn desktop() -> (Vec<MonitorInfo>, Vec<LogicalMonitorInfo>) {
    load_state(
        &vec![monitor("eDP-1"), monitor("DP-1"), monitor("HDMI-1")],
        &vec![logical(0, vec!["eDP-1"], true), logical(1920, vec!["DP-1"], false)],
    )
}

fn connectors(l: &LogicalMonitorInfo) -> Vec<&str> {
    l.monitors.iter().map(|e| e.spec.connector.as_str()).collect()
}

#[test]
fn the_state_names_the_modes_in_use() {
    let (ms, ls) = desktop();
    assert_eq!(ms.len(), 3);
    assert_eq!(ls[0].monitors[0].mode_id, "big");
    assert!(ms[0].modes[0].current && ms[0].modes[2].preferred);
    assert!(ms[0].modes[2].mode.refresh_hz.is_none());
    assert_eq!(find_output_logical(&ls, "DP-1"), Some(1));
    assert_eq!(find_output_logical(&ls, "HDMI-1"), None);
}

#[test]
fn modes_are_set() {
    let (ms, ls) = desktop();
    let ls = GnomeBackend::set_mode(&ms, ls, "DP-1", DisplayMode::new(1920, 1080, Some(single(29.9)))).unwrap();
    assert_eq!(ls[1].monitors[0].mode_id, "slow");
    assert_eq!(ls[0].monitors[0].mode_id, "big");
    let (ms, ls) = desktop();
    assert!(matches!(GnomeBackend::set_mode(&ms, ls, "VGA-1", DisplayMode::new(1, 1, None)), Err(LayoutError::OutputNotFound)));
    let (ms, ls) = desktop();
    assert!(matches!(GnomeBackend::set_mode(&ms, ls, "DP-1", DisplayMode::new(1, 1, None)), Err(LayoutError::ModeUnavailable)));
    let (ms, ls) = desktop();
    assert!(matches!(GnomeBackend::set_mode(&ms, ls, "HDMI-1", DisplayMode::new(1280, 720, None)), Err(LayoutError::Disabled)));
}

#[test]
fn scales_are_set_where_they_are_supported() {
    let (ms, ls) = desktop();
    let ls = GnomeBackend::set_scale(&ms, ls, "DP-1", double(1.25)).unwrap();
    assert_eq!(ls[1].scale.bits, 1.25f64.to_bits());
    assert_eq!(ls[0].scale.bits, 1.0f64.to_bits());
    let (ms, ls) = desktop();
    match GnomeBackend::set_scale(&ms, ls, "DP-1", double(1.5)) {
        Err(LayoutError::UnsupportedScale { width, height, scales }) => {
            assert_eq!((width, height), (1920, 1080));
            assert_eq!(fmt_scales(&scales), "1.00, 1.25, 2.00");
        }
        other => panic!("{other:?}"),
    }
    let (ms, ls) = desktop();
    assert!(matches!(GnomeBackend::set_scale(&ms, ls, "HDMI-1", double(1.0)), Err(LayoutError::Disabled)));
}

#[test]
fn outputs_are_enabled_and_disabled() {
    let (ms, ls) = desktop();
    let on = GnomeBackend::set_enabled(&ms, ls, "HDMI-1", true).unwrap().unwrap();
    assert_eq!(on.len(), 3);
    assert_eq!((on[2].x, on[2].y, on[2].primary), (3840, 0, false));
    assert_eq!(on[2].monitors[0].mode_id, "small");
    let off = GnomeBackend::set_enabled(&ms, on, "HDMI-1", false).unwrap().unwrap();
    assert_eq!(off.len(), 2);
    assert_eq!(connectors(&off[0]), vec!["eDP-1"]);
    assert!(GnomeBackend::set_enabled(&ms, off, "HDMI-1", false).unwrap().is_none());
    let (ms, ls) = desktop();
    assert!(matches!(GnomeBackend::set_enabled(&ms, ls, "VGA-1", true), Err(LayoutError::OutputNotFound)));
    let (mut ms, ls) = desktop();
    ms[2].modes.clear();
    assert!(matches!(GnomeBackend::set_enabled(&ms, ls, "HDMI-1", true), Err(LayoutError::NoModes)));
}

#[test]
fn outputs_are_moved() {
    let (_, ls) = desktop();
    let ls = GnomeBackend::set_position(ls, "DP-1", -10, 20).unwrap();
    assert_eq!((ls[1].x, ls[1].y), (-10, 20));
    let (ms, ls) = desktop();
    let above = RelativePosition::Above("eDP-1".to_string());
    let ls = GnomeBackend::set_position_relative(&ms, ls, "DP-1", &above).unwrap();
    assert_eq!((ls[1].x, ls[1].y), (0, -1080));
    let left = RelativePosition::LeftOf("eDP-1".to_string());
    let ls = GnomeBackend::set_position_relative(&ms, ls, "DP-1", &left).unwrap();
    assert_eq!((ls[1].x, ls[1].y), (-1920, 0));
    let gone = RelativePosition::Below("HDMI-1".to_string());
    assert!(matches!(GnomeBackend::set_position_relative(&ms, ls, "DP-1", &gone), Err(LayoutError::TargetDisabled)));
    let (_, ls) = desktop();
    assert!(matches!(GnomeBackend::set_position(ls, "HDMI-1", 0, 0), Err(LayoutError::Disabled)));
}

#[test]
fn outputs_are_turned() {
    for n in 0..8 {
        let (_, ls) = desktop();
        let ls = GnomeBackend::set_transform(ls, "eDP-1", transforms::name_of(n)).unwrap();
        assert_eq!(ls[0].transform, n);
        assert_eq!(transform_to_mutter(transforms::name_of(n)), Some(n));
    }
    let (_, ls) = desktop();
    assert!(matches!(GnomeBackend::set_transform(ls, "eDP-1", "left"), Err(LayoutError::UnsupportedTransform)));
    assert_eq!(transform_to_mutter("0"), Some(0));
}

#[test]
fn outputs_are_mirrored() {
    let (ms, ls) = desktop();
    assert!(can_mirror(&ms, "DP-1", "HDMI-1"));
    let ls = GnomeBackend::set_mirror(&ms, ls, "DP-1", "HDMI-1").unwrap();
    assert_eq!(ls.len(), 2);
    let last = &ls[1];
    assert_eq!(connectors(last), vec!["DP-1", "HDMI-1"]);
    assert!(!last.primary && last.x == 0 && last.y == 0);
    assert_eq!(ls.iter().filter(|l| l.primary).count(), 1);
    assert_eq!(last.monitors[0].mode_id, "slow");
    let (ms, ls) = desktop();
    let ls = GnomeBackend::set_mirror(&ms, ls, "HDMI-1", "eDP-1").unwrap();
    assert!(ls[1].primary && !ls[0].primary);
    assert_eq!((ls[1].monitors.len(), ls[0].monitors[0].spec.connector.as_str()), (2, "DP-1"));
    let (ms, ls) = desktop();
    assert!(matches!(GnomeBackend::set_mirror(&ms, ls, "DP-1", "VGA-1"), Err(LayoutError::TargetNotFound)));
    let (ms, ls) = desktop();
    assert!(matches!(GnomeBackend::set_mirror(&ms, ls, "VGA-1", "DP-1"), Err(LayoutError::OutputNotFound)));
    let (mut ms, ls) = desktop();
    ms[0].modes.truncate(1);
    ms[1].modes.remove(0);
    assert!(matches!(GnomeBackend::set_mirror(&ms, ls, "eDP-1", "DP-1"), Err(LayoutError::NoCommonMode)));
    let (mut ms, ls) = desktop();
    for m in &mut ms {
        m.modes.truncate(1);
        m.modes[0].mode = DisplayMode::new(100_000, 100_000, None);
    }
    assert!(can_mirror(&ms, "DP-1", "HDMI-1"));
    assert_eq!(GnomeBackend::set_mirror(&ms, ls, "DP-1", "HDMI-1").unwrap().len(), 2);
    let more = load_state(&vec![monitor("DP-1")], &vec![]).0.remove(0).modes.remove(0);
    ms[1].modes.push(more);
    ms[1].modes[1].mode = ms[1].modes[0].mode;
    assert!(!can_mirror(&ms, "DP-1", "HDMI-1"));
    assert!(are_numbers(&vec![double(1.0), double(f64::INFINITY)]));
    assert!(!are_numbers(&vec![double(1.0), double(f64::NAN)]));
    assert_eq!(fmt_scales(&vec![double(f64::NAN)]), "NaN");
}

#[test]
fn modes_match_within_half_a_hertz() {
    let m = DisplayMode::new(1920, 1080, Some(single(60.0)));
    assert!(mode_matches(DisplayMode::new(1920, 1080, Some(single(59.6))), m));
    assert!(!mode_matches(DisplayMode::new(1920, 1080, Some(single(59.5))), m));
    assert!(mode_matches(DisplayMode::new(1920, 1080, None), m));
    assert!(!mode_matches(m, DisplayMode::new(1920, 1080, None)));
}

#[test]
fn outputs_are_listed_with_their_layout() {
    let (ms, ls) = desktop();
    let mut states = ByName::new();
    states.set("DP-1", DisplayColorSettings { brightness: Some(single(0.3)), gamma: Some(single(1.2)), temperature: Some(5000) });
    let src = ColorSources { gamma_supported: true, ddc_available: true, backlight: Some(single(0.7)), power: None };
    let outputs = list_outputs(&ms, &ls, src, &vec![DdcState::NoBus, DdcState::Bus(None), DdcState::NoBus], &states);
    assert_eq!(outputs.len(), 3);
    assert!(outputs[0].enabled && outputs[0].primary && !outputs[2].enabled);
    assert_eq!(outputs[0].description.as_deref(), Some("ACM Screen"));
    assert_eq!(outputs[1].position, Some((1920, 0)));
    assert_eq!(outputs[0].color.brightness.map(|x| f32::from_bits(x.bits)), Some(0.7));
    assert_eq!(outputs[1].color.brightness.map(|x| f32::from_bits(x.bits)), Some(0.3));
    assert_eq!(outputs[1].color.temperature, Some(5000));
    assert!(outputs[1].color_caps.brightness && !outputs[2].color_caps.brightness);
    assert_eq!(outputs[0].transform.as_deref(), Some("normal"));
    let scales = supported_scales_for_logical_monitor(&ms, &ls[0]).unwrap();
    assert_eq!(fmt_scales(&scales), "1.00, 1.25, 2.00");
}

#[test]
fn requests_are_tried_from_new_to_old() {
    let mut props: Props = ByName::new();
    props.set("layout-mode", 1);
    props.set("other", 2);
    assert_eq!(props_variants(&props).len(), 3);
    let all = attempts(&props);
    assert_eq!(all.len(), 18);
    assert_eq!((all[0].version, all[0].method), (Version::V2, 2));
    assert_eq!(all[1].props.get("layout-mode"), None);
    assert_eq!(all[1].props.get("other"), Some(2));
    assert!(all[2].props.entries().is_empty());
    assert_eq!((all[17].version, all[17].method), (Version::V0, 1));
    assert_eq!(attempts(&ByName::new()).len(), 12);
}

#[test]
fn first_accepted_request_is_the_last() {
    let (mut trial, action) = apply_trial(&ByName::new());
    assert_eq!(action, TrialAction::Try);
    assert_eq!(trial.current().version, Version::V2);
    assert_eq!(trial.step(false), TrialAction::Try);
    assert_eq!(trial.step(false), TrialAction::Try);
    assert_eq!((trial.current().version, trial.current().method), (Version::V2, 1));
    assert_eq!(trial.step(true), TrialAction::Done);
    assert_eq!((trial.current().version, trial.current().method), (Version::V2, 1));
    let (mut trial, _) = apply_trial(&ByName::new());
    for _ in 0..11 {
        assert_eq!(trial.step(false), TrialAction::Try);
    }
    assert_eq!(trial.step(false), TrialAction::Failed);
    assert_eq!((trial.current().version, trial.current().method), (Version::V0, 1));
    let (_, action) = Trial::<u32>::new(Vec::new());
    assert_eq!(action, TrialAction::Failed);
}

#[test]
fn requests_hold_the_layout() {
    let (_, ls) = desktop();
    let v2 = build_apply_args_v2(&ls);
    assert_eq!((v2[1].x, v2[1].monitors[0].connector.as_str()), (1920, "DP-1"));
    let v1 = build_apply_args_v1(&ls);
    assert_eq!(v1[0].monitors[0].mode_id, "big");
    assert_eq!(v1[0].monitors[0].spec.vendor, "ACM");
    let v0 = build_apply_args_v0(&ls);
    assert_eq!((v0[0].monitors[0].connector.as_str(), v0[0].primary), ("eDP-1", true));
}

fn text(s: &str) -> DbusValue {
    DbusValue::Text(s.to_string())
}

fn spec_value(c: &str) -> DbusValue {
    DbusValue::Struct(vec![text(c), text("v"), text("p"), text("s")])
}

fn mode_value() -> DbusValue {
    DbusValue::Struct(vec![
        text("id"),
        DbusValue::I32(1920),
        DbusValue::I32(1080),
        DbusValue::F64(double(60.0)),
        DbusValue::Bool(false),
        DbusValue::Bool(true),
    ])
}

#[test]
fn values_from_the_bus_are_read() {
    assert_eq!(parse_monitor_spec(&spec_value("DP-1")).unwrap().connector, "DP-1");
    assert!(matches!(parse_monitor_spec(&text("DP-1")), Err(DecodeError::ExpectedStruct)));
    assert!(matches!(parse_monitor_spec(&DbusValue::Struct(vec![text("a")])), Err(DecodeError::SpecFormat)));
    let m = parse_monitor_mode(&mode_value()).unwrap();
    assert!(m.current && !m.preferred && m.mode.width == 1920);
    assert!(matches!(parse_monitor_mode(&DbusValue::Struct(vec![])), Err(DecodeError::ModeFormat)));
    let modes = DbusValue::Array(vec![mode_value(), text("no mode")]);
    let monitor = DbusValue::Struct(vec![spec_value("DP-1"), modes, DbusValue::Dict(vec![])]);
    assert_eq!(parse_monitor(&monitor).unwrap().modes.len(), 1);
    assert!(matches!(parse_monitor(&DbusValue::Struct(vec![])), Err(DecodeError::MonitorFormat)));
    let entry = DbusValue::Struct(vec![spec_value("DP-1"), text("id"), DbusValue::Dict(vec![flag("x")])]);
    let fields = vec![
        DbusValue::I32(-1),
        DbusValue::I32(2),
        DbusValue::F64(double(1.5)),
        DbusValue::U32(3),
        DbusValue::Bool(true),
        DbusValue::Array(vec![DbusValue::Struct(vec![]), entry]),
    ];
    let l = parse_logical_monitor(&DbusValue::Struct(fields)).unwrap();
    assert_eq!((l.x, l.y, l.transform, l.primary, l.monitors.len()), (-1, 2, 3, true, 1));
    assert_eq!(l.monitors[0].props.get("x"), Some(0));
    assert!(matches!(parse_logical_monitor(&DbusValue::Other), Err(DecodeError::ExpectedStruct)));
    assert!(matches!(parse_logical_monitor(&DbusValue::Struct(vec![])), Err(DecodeError::LogicalFormat)));
    assert_eq!(DbusValue::U32(3).to_u32(), Ok(3));
    assert_eq!(DbusValue::U32(3).to_i32(), Err(DecodeError::ExpectedI32));
}
