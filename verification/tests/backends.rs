use sabantui::apply::{
    normalize_transform, parse_mode_and_refresh, parse_position, parse_resolution, PlanAction, Request, RequestError, Step,
};
use sabantui::backend::{BackendKind, BackendSelector, Desktop};
use sabantui::by_name::ByName;
use sabantui::errors::BackendError;
use sabantui::float::{Double, Single};
use sabantui::models::{DisplayColorSettings, DisplayMode, DisplayOutput};
use sabantui::sorting;
use sabantui::text;
use sabantui::transforms;
use sabantui::wlroots::{
    have_small_areas, ColorQuery, PropertyTarget, ProxyOutcome, QueryAction, QueryEvent, Search, SearchAction, SearchEvent, WlrootsBackend,
};

fn single(x: f32) -> Single {
    Single { bits: x.to_bits() }
}

fn double(x: f64) -> Double {
    Double { bits: x.to_bits() }
}

fn desktop(current: &str, session: &str, desktop_session: &str) -> Desktop {
    Desktop {
        current: current.to_string(),
        session: session.to_string(),
        desktop_session: desktop_session.to_string(),
    }
}

fn request() -> Request {
    Request {
        mode: None,
        refresh: None,
        scale: None,
        brightness: None,
        gamma: None,
        temperature: None,
        position: None,
        orientation: None,
        mirror: None,
        enabled: None,
    }
}

fn output(id: usize, name: &str, modes: Vec<DisplayMode>) -> DisplayOutput {
    let mut o = DisplayOutput::simple(id, name.to_string(), None);
    o.enabled = true;
    o.available_modes = modes;
    o
}

#[test]
fn backends_are_detected() {
    assert_eq!(BackendKind::auto_detect(false, true, &desktop("GNOME", "", "")), BackendKind::X11);
    assert_eq!(BackendKind::auto_detect(true, true, &desktop("KDE", "", "")), BackendKind::Gnome);
    assert_eq!(BackendKind::auto_detect(true, false, &desktop("ubuntu:GNOME", "", "")), BackendKind::Gnome);
    assert_eq!(BackendKind::auto_detect(true, false, &desktop("", "Ubuntu", "")), BackendKind::Gnome);
    assert_eq!(BackendKind::auto_detect(true, false, &desktop("", "", "kde")), BackendKind::Kde);
    assert_eq!(BackendKind::auto_detect(true, false, &desktop("GNOME-Classic", "", "")), BackendKind::Gnome);
    assert_eq!(BackendKind::auto_detect(true, false, &desktop("", "gnome-classic", "")), BackendKind::Wlroots);
    assert_eq!(BackendKind::auto_detect(true, false, &desktop("KDE", "", "XGNOMEX")), BackendKind::Gnome);
    assert_eq!(BackendKind::auto_detect(true, false, &desktop("sway", "KDE-ish", "")), BackendKind::Kde);
    assert_eq!(BackendKind::auto_detect(true, false, &desktop("sway", "", "")), BackendKind::Wlroots);
    assert_eq!(BackendKind::from(BackendSelector::Kde), BackendKind::Kde);
    assert_eq!(BackendKind::from(BackendSelector::X11), BackendKind::X11);
}

#[test]
fn only_wlroots_falls_back_to_gnome() {
    let message = "compositor doesn't support wlr-output-management-unstable-v1";
    assert!(BackendKind::Wlroots.may_be_gnome(message));
    assert!(!BackendKind::X11.may_be_gnome(message));
    assert!(!BackendKind::Wlroots.may_be_gnome("wlr-randr not found"));
}

#[test]
fn resolutions_are_read() {
    assert!(matches!(parse_resolution("1920x1080"), Ok((1920, 1080))));
    assert!(matches!(parse_resolution("1920x1080x60"), Ok((1920, 1080))));
    assert!(matches!(parse_resolution("1920"), Err(RequestError::InvalidMode)));
    assert!(matches!(parse_resolution("ax1080"), Err(RequestError::NotASize(s)) if s == "a"));
    assert!(matches!(parse_resolution("1920x"), Err(RequestError::NotASize(s)) if s.is_empty()));
    assert!(matches!(parse_resolution("4294967296x1"), Err(RequestError::NotASize(_))));
    let mode = parse_mode_and_refresh(Some("800x600"), Some(75)).unwrap().unwrap();
    assert_eq!(mode, DisplayMode::new(800, 600, Some(single(75.0))));
    assert!(parse_mode_and_refresh(None, Some(75)).unwrap().is_none());
}

#[test]
fn positions_are_read() {
    assert!(matches!(parse_position(" 1920 , -5 "), Ok((1920, -5))));
    assert!(matches!(parse_position("10x20"), Ok((10, 20))));
    assert!(matches!(parse_position("10"), Err(RequestError::InvalidPosition)));
    assert!(matches!(parse_position("a,1"), Err(RequestError::NotACoordinate(s)) if s == "a"));
}

#[test]
fn transforms_are_normalized() {
    for (given, name) in [
        ("normal", "normal"), ("0", "normal"), (" 90° ", "90"), ("LEFT", "90"), ("inverted", "180"), ("right", "270"),
        ("flip", "flipped"), ("Flip-90", "flipped-90"), ("flipped-180°", "flipped-180"), ("flip-270", "flipped-270"),
    ] {
        let once = normalize_transform(given).unwrap();
        assert_eq!(once, name);
        assert_eq!(normalize_transform(&once).unwrap(), name);
    }
    assert!(matches!(normalize_transform(" Side°ways "), Err(RequestError::UnsupportedTransform(s)) if s == "sideways"));
    for n in 0..8 {
        assert_eq!(normalize_transform(transforms::name_of(n)).unwrap(), transforms::name_of(n));
    }
}

#[test]
fn requests_become_steps_in_order() {
    let mut r = request();
    r.mode = Some("1920x1080".to_string());
    r.refresh = Some(60);
    r.scale = Some(double(1.5));
    r.brightness = Some(single(0.5));
    r.gamma = Some(single(1.0));
    r.temperature = Some(4000);
    r.enabled = Some(true);
    r.position = Some("0,0".to_string());
    r.orientation = Some("left".to_string());
    r.mirror = Some("DP-2".to_string());
    let steps = r.plan();
    assert_eq!(steps.len(), 9);
    assert!(matches!(steps[0], Step::Enabled(true)));
    assert!(matches!(steps[1], Step::Mode(m) if m.width == 1920));
    assert!(matches!(steps[2], Step::Scale(_)));
    assert!(matches!(steps[3], Step::Brightness(_)));
    assert!(matches!(steps[4], Step::Gamma(_)));
    assert!(matches!(steps[5], Step::Temperature(4000)));
    assert!(matches!(steps[6], Step::Position(0, 0)));
    assert!(matches!(&steps[7], Step::Transform(s) if s == "90"));
    assert!(matches!(&steps[8], Step::Mirror(s) if s == "DP-2"));
}

#[test]
fn requests_end_where_they_cannot_be_read() {
    let mut r = request();
    r.mode = Some("big".to_string());
    r.enabled = Some(true);
    assert!(matches!(r.plan().as_slice(), [Step::Fail(RequestError::NotASize(_))]));
    let mut r = request();
    r.enabled = Some(false);
    r.position = Some("here".to_string());
    r.mirror = Some("DP-2".to_string());
    assert!(matches!(r.plan().as_slice(), [Step::Enabled(false), Step::Fail(RequestError::InvalidPosition)]));
    let mut r = request();
    r.orientation = Some("upside".to_string());
    r.mirror = Some("DP-2".to_string());
    assert!(matches!(r.plan().as_slice(), [Step::Fail(RequestError::UnsupportedTransform(_))]));
    assert!(request().plan().is_empty());
}

#[test]
fn plans_end_with_their_first_failure() {
    let mut r = request();
    r.enabled = Some(true);
    r.temperature = Some(4000);
    let (mut progress, action) = r.start();
    assert_eq!(action, PlanAction::Take);
    assert!(matches!(progress.current(), Step::Enabled(true)));
    assert_eq!(progress.step(true), PlanAction::Take);
    assert!(matches!(progress.current(), Step::Temperature(4000)));
    assert_eq!(progress.step(true), PlanAction::Done);
    let (mut progress, _) = r.start();
    assert_eq!(progress.step(false), PlanAction::Failed);
    assert!(matches!(progress.current(), Step::Enabled(true)));
    r.position = Some("here".to_string());
    let (mut progress, _) = r.start();
    assert_eq!(progress.step(true), PlanAction::Take);
    assert_eq!(progress.step(true), PlanAction::Reject);
    assert!(matches!(progress.current(), Step::Fail(RequestError::InvalidPosition)));
    assert_eq!(progress.step(false), PlanAction::Failed);
    assert_eq!(request().start().1, PlanAction::Done);
    r.mode = Some("big".to_string());
    assert_eq!(r.start().1, PlanAction::Reject);
}

#[test]
fn wlr_randr_arguments() {
    let mode = DisplayMode::new(2560, 1440, Some(single(143.856)));
    assert_eq!(
        WlrootsBackend::set_mode("DP-1", mode),
        vec!["--output", "DP-1", "--mode", "2560x1440@143.856Hz"]
    );
    let plain = DisplayMode::new(800, 600, Some(single(0.0)));
    assert_eq!(WlrootsBackend::set_mode("DP-1", plain)[3], "800x600");
    assert_eq!(WlrootsBackend::set_scale("DP-1", double(1.75)), vec!["--output", "DP-1", "--scale", "1.75"]);
    assert_eq!(WlrootsBackend::set_enabled("DP-1", true), vec!["--output", "DP-1", "--on"]);
    assert_eq!(WlrootsBackend::set_position("DP-1", 1, -2), vec!["--output", "DP-1", "--pos", "1,-2"]);
    assert_eq!(
        WlrootsBackend::set_position_relative("A", "B", "above").unwrap(),
        vec!["--output", "A", "--above", "B"]
    );
    assert_eq!(
        WlrootsBackend::set_position_relative("A", "B", "near"),
        Err(BackendError::InvalidDirection)
    );
    assert_eq!(WlrootsBackend::set_transform("A", "90"), vec!["--output", "A", "--transform", "90"]);
    assert_eq!(WlrootsBackend::set_adaptive_sync("A", true)[3], "enabled");
    assert_eq!(WlrootsBackend::gammarelay_output_path("HDMI-A-1"), "/outputs/HDMI_A_1");
}

#[test]
fn mirrored_outputs_share_the_largest_common_mode() {
    let small = DisplayMode::new(1280, 720, Some(single(60.0)));
    let large = DisplayMode::new(1920, 1080, Some(single(60.0)));
    let huge = DisplayMode::new(3840, 2160, Some(single(60.0)));
    let outputs = vec![output(0, "A", vec![small, large, huge]), output(1, "B", vec![large, small]), output(2, "C", vec![])];
    let common = WlrootsBackend::modes_to_mirror(&outputs, "A", "B").unwrap();
    assert_eq!(common, vec![small, large]);
    assert!(have_small_areas(&common));
    assert!(!have_small_areas(&vec![small, DisplayMode::new(65536, 65536, None)]));
    let (first, second) = WlrootsBackend::set_mirror(&common, "A", "B");
    assert!(first.contains(&"1920x1080@60Hz".to_string()) && second.contains(&"1920x1080@60Hz".to_string()));
    assert!(first.contains(&"0,0".to_string()));
    assert!(matches!(WlrootsBackend::modes_to_mirror(&outputs, "A", "C"), Err(BackendError::NoCommonMode)));
    assert!(matches!(WlrootsBackend::modes_to_mirror(&outputs, "A", "D"), Err(BackendError::TargetNotFound)));
    assert!(matches!(WlrootsBackend::modes_to_mirror(&outputs, "D", "A"), Err(BackendError::OutputNotFound)));
}

#[test]
fn the_search_starts_the_service_once_and_ends() {
    let mut s = Search::new();
    assert_eq!(s.step(SearchEvent::Absent), SearchAction::Start);
    for _ in 0..25 {
        assert_eq!(s.step(SearchEvent::Absent), SearchAction::Wait);
    }
    assert_eq!(s.step(SearchEvent::Absent), SearchAction::Unavailable);
    let mut s = Search::new();
    for _ in 0..24 {
        assert_eq!(s.step(SearchEvent::Failed), SearchAction::Wait);
    }
    assert_eq!(s.step(SearchEvent::Failed), SearchAction::GiveUp);
    let mut s = Search::new();
    assert_eq!(s.step(SearchEvent::Present), SearchAction::Done);
}

#[test]
fn color_settings_are_asked_of_every_output() {
    let outputs = vec![output(0, "A", vec![]), output(1, "B", vec![])];
    let (mut q, a) = ColorQuery::new(&outputs);
    assert!(matches!(a, QueryAction::Open(0)));
    assert!(matches!(q.step(&outputs, QueryEvent::Opened(ProxyOutcome::Built)), QueryAction::ReadBrightness));
    assert!(matches!(q.step(&outputs, QueryEvent::Number(double(0.5))), QueryAction::ReadGamma));
    assert!(matches!(q.step(&outputs, QueryEvent::Number(double(1.25))), QueryAction::ReadTemperature));
    assert!(matches!(q.step(&outputs, QueryEvent::Kelvin(5000)), QueryAction::Open(1)));
    assert!(matches!(q.step(&outputs, QueryEvent::Opened(ProxyOutcome::UnknownObject)), QueryAction::Finished));
    let s = q.states().get("A").unwrap();
    assert_eq!(s.brightness.map(|x| f32::from_bits(x.bits)), Some(0.5));
    assert_eq!(s.temperature, Some(5000));
    assert!(q.states().get("B").is_none());
    let (mut q, _) = ColorQuery::new(&outputs);
    assert!(matches!(q.step(&outputs, QueryEvent::Opened(ProxyOutcome::NoOwner)), QueryAction::Gone));
    let (mut q, _) = ColorQuery::new(&outputs);
    q.step(&outputs, QueryEvent::Opened(ProxyOutcome::Built));
    assert!(matches!(q.step(&outputs, QueryEvent::OtherType), QueryAction::WrongType));
}

#[test]
fn properties_go_to_the_output_or_to_all() {
    assert_eq!(WlrootsBackend::property_target(ProxyOutcome::Built), PropertyTarget::Output);
    assert_eq!(WlrootsBackend::property_target(ProxyOutcome::UnknownObject), PropertyTarget::Global);
    assert_eq!(WlrootsBackend::property_target(ProxyOutcome::NoOwner), PropertyTarget::NotRunning);
    assert_eq!(f64::from_bits(WlrootsBackend::brightness_value(single(2.0)).bits), 1.0);
    assert_eq!(f64::from_bits(WlrootsBackend::gamma_value(single(0.7)).bits), 0.7f32 as f64);
}

#[test]
fn known_color_settings_are_shown() {
    let mut states = ByName::new();
    states.set("A", DisplayColorSettings { brightness: Some(single(0.5)), gamma: None, temperature: Some(3000) });
    let outputs = WlrootsBackend::apply_color_states(vec![output(0, "A", vec![])], Some(&states));
    assert_eq!(outputs[0].color.temperature, Some(3000));
    assert!(outputs[0].color_caps.temperature);
    let outputs = WlrootsBackend::apply_color_states(vec![output(0, "A", vec![])], None);
    assert!(outputs[0].color.temperature.is_none());
}

#[test]
fn names_lead_to_values() {
    let mut m: ByName<u64> = ByName::new();
    m.set("a", 1);
    m.set("b", 2);
    m.set("a", 3);
    assert_eq!((m.get("a"), m.get("b"), m.get("c")), (Some(3), Some(2), None));
    assert_eq!(m.copied().entries().len(), 2);
    assert!(m.remove("a") && !m.remove("a"));
    assert_eq!(m.get("a"), None);
    let n = ByName::from_entries(vec![("x".to_string(), 7u64)]);
    assert_eq!(n.get("x"), Some(7));
}

#[test]
fn white_space_is_that_of_std() {
    for u in 0..=0x10ffffu32 {
        if let Some(c) = char::from_u32(u) {
            assert_eq!(text::is_space(c), c.is_whitespace());
        }
    }
}

#[test]
fn texts_are_sorted_as_in_std() {
    let given = ["b", "a", "", "ä", "b", "ab", "Z", "𝄞", "\u{ffff}"];
    let mut expected: Vec<String> = given.iter().map(|s| s.to_string()).collect();
    let ours = sorting::sort(expected.iter().map(|s| s.to_string()).collect::<Vec<String>>());
    expected.sort();
    assert_eq!(ours, expected);
}
