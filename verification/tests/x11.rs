use sabantui::by_name::ByName;
use sabantui::errors::BackendError;
use sabantui::float::{Double, Single};
use sabantui::models::{DisplayMode, DisplayOutput};
use sabantui::program::{output_of, Outcome};
use sabantui::x11::{X11Backend, X11ColorState};

fn single(x: f32) -> Single {
    Single { bits: x.to_bits() }
}

fn double(x: f64) -> Double {
    Double { bits: x.to_bits() }
}

fn value(x: Single) -> f32 {
    f32::from_bits(x.bits)
}

fn rate(mode: &DisplayMode) -> Option<f32> {
    mode.refresh_hz.map(value)
}

#[test]
fn connected_without_current_mode_is_treated_as_disabled() {
    let sample = r#"Screen 0: minimum 8 x 8, current 2560 x 1080, maximum 32767 x 32767
eDP-1 connected primary (normal left inverted right x axis y axis)
	Identifier: 0x42
	1920x1080     60.00  59.94
DP-1 disconnected (normal left inverted right x axis y axis)
"#;
    let outputs = X11Backend::parse_xrandr(sample);
    assert_eq!(outputs.len(), 2);
    assert_eq!(outputs[0].name, "eDP-1");
    assert!(!outputs[0].enabled);
    assert!(outputs[0].current_mode.is_none());
}

#[test]
fn verbose_mode_markers_set_current_and_preferred_mode() {
    let sample = r#"Screen 0: minimum 8 x 8, current 1920 x 1080, maximum 32767 x 32767
eDP-1 connected primary (normal left inverted right x axis y axis)
	Identifier: 0x42
	1920x1080 (0x4b) 148.500MHz +HSync +VSync *current +preferred
	1280x720  (0x4c) 74.250MHz +HSync +VSync
"#;
    let outputs = X11Backend::parse_xrandr(sample);
    assert_eq!(outputs.len(), 1);
    let output = &outputs[0];
    assert!(output.enabled);
    let mode = output.current_mode.as_ref().expect("current mode");
    assert_eq!(mode.width, 1920);
    assert_eq!(mode.height, 1080);
    assert!(mode.refresh_hz.is_none());
}

#[test]
fn compact_mode_line_keeps_refresh_rate() {
    let sample = r#"Screen 0: minimum 8 x 8, current 1920 x 1080, maximum 32767 x 32767
DP-1 connected 1920x1080+0+0 (normal left inverted right x axis y axis)
	Identifier: 0x43
	1920x1080     74.97*+ 60.00
"#;
    let outputs = X11Backend::parse_xrandr(sample);
    assert_eq!(outputs.len(), 1);
    let mode = outputs[0].current_mode.as_ref().expect("current mode");
    assert_eq!(rate(mode), Some(74.97));
}

#[test]
fn verbose_mode_uses_vertical_clock_hz() {
    let sample = r#"Screen 0: minimum 320 x 200, current 2560 x 1080, maximum 16384 x 16384
DP-1 connected 2560x1080+0+0 (0x693) normal (normal left inverted right x axis y axis)
	Identifier: 0x42
	2560x1080 (0x693) 181.250MHz +HSync -VSync *current +preferred
        h: width  2560 start 2608 end 2640 total 2720 skew    0 clock  66.64KHz
        v: height 1080 start 1083 end 1093 total 1111           clock  59.98Hz
"#;
    let outputs = X11Backend::parse_xrandr(sample);
    assert_eq!(outputs.len(), 1);
    let mode = outputs[0].current_mode.as_ref().expect("current mode");
    assert_eq!(mode.width, 2560);
    assert_eq!(mode.height, 1080);
    assert_eq!(rate(mode), Some(59.98));
}

#[test]
fn connected_with_only_preferred_mode_is_treated_as_disabled() {
    let sample = r#"Screen 0: minimum 320 x 200, current 2560 x 1080, maximum 16384 x 16384
eDP-1 connected primary (normal left inverted right x axis y axis)
	Identifier: 0x41
  1920x1200 (0x46) 154.000MHz -HSync -VSync +preferred
        h: width  1920 start 1968 end 2000 total 2080 skew    0 clock  74.04KHz
        v: height 1200 start 1203 end 1209 total 1235           clock  59.95Hz
"#;
    let outputs = X11Backend::parse_xrandr(sample);
    assert_eq!(outputs.len(), 1);
    assert!(!outputs[0].enabled);
    assert!(outputs[0].current_mode.is_none());
}

#[test]
fn backend_defaults_color_state() {
    let mut backend = X11Backend::new().expect("backend");
    let state = backend.get_color_state("DP-1");
    assert_eq!(value(state.brightness), 1.0);
    assert_eq!(value(state.gamma), 1.0);
    assert_eq!(state.temperature, 6500);
}

#[test]
fn mode_lines_are_read() {
    let (mode, current, preferred) = X11Backend::parse_mode_line("  1920x1080     60.00*+  59.94").unwrap();
    assert_eq!((mode.width, mode.height, rate(&mode)), (1920, 1080, Some(60.0)));
    assert!(current && preferred);
    assert!(X11Backend::parse_mode_line("\tIdentifier: 0x42").is_none());
    assert!(X11Backend::parse_mode_line("").is_none());
    let clock = X11Backend::parse_vertical_clock_line("        v: height 1080 start 1083 total 1111  clock  59.98Hz");
    assert_eq!(clock.map(value), Some(59.98));
    assert!(X11Backend::parse_vertical_clock_line("  h: width 2560 clock 66.64KHz").is_none());
}

#[test]
fn modes_are_listed_once_and_color_is_read() {
    let sample = "DP-1 connected primary 1920x1080+0+0 (normal left)\n\tBrightness: 0.50\n\tGamma:      2.0:2.0:2.0\n\t1920x1080     60.00*+\n\t1920x1080     60.00\n\t1280x720      60.00\n";
    let outputs = X11Backend::parse_xrandr(sample);
    assert_eq!(outputs.len(), 1);
    let o = &outputs[0];
    assert!(o.primary && o.enabled);
    assert_eq!(o.available_modes.len(), 2);
    assert_eq!(o.color.brightness.map(value), Some(0.5));
}

#[test]
fn settings_are_kept_in_range_for_each_output() {
    let mut backend = X11Backend::new().unwrap();
    let s = backend.set_brightness("DP-1", single(1.5));
    assert_eq!(value(s.brightness), 1.0);
    let s = backend.set_gamma("DP-1", single(0.0));
    assert_eq!(value(s.gamma), 0.1);
    let s = backend.set_temperature("DP-1", 200);
    assert_eq!(s.temperature, 1000);
    let s = backend.set_temperature("DP-1", 20000);
    assert_eq!(s.temperature, 10000);
    let again = backend.get_color_state("DP-1");
    assert_eq!((value(again.brightness), value(again.gamma), again.temperature), (1.0, 0.1, 10000));
    let other = backend.get_color_state("DP-2");
    assert_eq!((value(other.gamma), other.temperature), (1.0, 6500));
}

#[test]
fn seen_outputs_take_over_kept_settings() {
    let mut kept = ByName::new();
    kept.set("DP-1", X11ColorState { brightness: single(0.5), gamma: single(2.0), temperature: 4000 });
    let mut backend = X11Backend::with_states(kept);
    let mut a = DisplayOutput::simple(0, "DP-1".to_string(), None);
    a.enabled = true;
    let mut b = DisplayOutput::simple(1, "DP-2".to_string(), None);
    b.enabled = true;
    let (outputs, changed) = backend.merge_color_states(vec![a, b]);
    assert!(changed);
    assert_eq!(outputs[0].color.temperature, Some(4000));
    assert_eq!(outputs[1].color.temperature, Some(6500));
    assert_eq!(backend.states().get("DP-2").map(|s| s.temperature), Some(6500));
    let (_, again) = backend.merge_color_states(outputs);
    assert!(!again);
}

#[test]
fn xrandr_arguments() {
    let mode = DisplayMode::new(1920, 1080, Some(single(59.94)));
    assert_eq!(
        X11Backend::set_mode("DP-1", mode),
        vec!["--output", "DP-1", "--mode", "1920x1080", "--rate", "59.940"]
    );
    assert_eq!(X11Backend::set_scale("DP-1", double(1.25)), vec!["--output", "DP-1", "--scale", "1.25x1.25"]);
    assert_eq!(X11Backend::set_scale("DP-1", double(2.0)), vec!["--output", "DP-1", "--scale", "2x2"]);
    assert_eq!(X11Backend::set_enabled("DP-1", false), vec!["--output", "DP-1", "--off"]);
    assert_eq!(X11Backend::set_enabled("DP-1", true), vec!["--output", "DP-1", "--auto"]);
    assert_eq!(X11Backend::set_position("DP-1", -10, 20), vec!["--output", "DP-1", "--pos", "-10x20"]);
    assert_eq!(
        X11Backend::set_position_relative("DP-1", "DP-2", "left").unwrap(),
        vec!["--output", "DP-1", "--left-of", "DP-2"]
    );
    assert_eq!(
        X11Backend::set_position_relative("DP-1", "DP-2", "up"),
        Err(BackendError::InvalidDirection)
    );
    assert_eq!(X11Backend::set_mirror("DP-1", "DP-2"), vec!["--output", "DP-1", "--same-as", "DP-2"]);
}

#[test]
fn color_arguments_agree_with_std() {
    let state = X11ColorState { brightness: single(0.8), gamma: single(1.5), temperature: 5000 };
    let (r, g, b) = (1.12345f64, 0.97f64, 0.0f64);
    let base = 1.5f32 as f64;
    let expected = format!(
        "{:.4}:{:.4}:{:.4}",
        (base * r).clamp(0.1, 10.0),
        (base * g).clamp(0.1, 10.0),
        (base * b).clamp(0.1, 10.0)
    );
    assert_eq!(
        X11Backend::apply_color_args("DP-1", state, double(r), double(g), double(b)),
        vec!["--output".to_string(), "DP-1".to_string(), "--brightness".to_string(), "0.8".to_string(), "--gamma".to_string(), expected]
    );
    let bright = X11ColorState { brightness: single(2.0), gamma: single(f32::INFINITY), temperature: 5000 };
    let args = X11Backend::apply_color_args("DP-1", bright, double(1.0), double(1.0), double(1.0));
    assert_eq!(args[3], "1");
    assert_eq!(args[5], "10.0000:10.0000:10.0000");
}

#[test]
fn any_update_of_the_settings_is_kept() {
    let mut backend = X11Backend::new().unwrap();
    backend.set_temperature("DP-2", 4000);
    let mut calls = 0;
    let s = backend.update_color_state("DP-1", |s| {
        calls += 1;
        assert_eq!((s.brightness, s.temperature), (single(1.0), 6500));
        X11ColorState { brightness: single(0.25), gamma: s.gamma, temperature: 1234 }
    });
    assert_eq!(calls, 1);
    assert_eq!((s.brightness, s.gamma, s.temperature), (single(0.25), single(1.0), 1234));
    let read = backend.get_color_state("DP-1");
    assert_eq!((read.brightness, read.gamma, read.temperature), (single(0.25), single(1.0), 1234));
    assert_eq!(backend.get_color_state("DP-2").temperature, 4000);
}

fn ended(success: bool) -> Outcome {
    Outcome::Ended {
        success,
        status: "exit status: 1".to_string(),
        stdout: "done".to_string(),
        stderr: "cannot find output".to_string(),
    }
}

#[test]
fn temperatures_are_kept_whatever_comes_of_them() {
    let mut backend = X11Backend::new().unwrap();
    assert_eq!(backend.set_temperature("DP-1", 20000).temperature, 10000);
    assert_eq!(
        X11Backend::change_result(ended(false)),
        Err("xrandr exited with status exit status: 1: cannot find output".to_string())
    );
    assert_eq!(backend.get_color_state("DP-1").temperature, 10000);
    assert_eq!(backend.set_temperature("DP-1", 10).temperature, 1000);
    assert_eq!(X11Backend::change_result(Outcome::NotRun), Err("failed to execute xrandr".to_string()));
    assert_eq!(X11Backend::change_result(ended(true)), Ok(()));
    assert_eq!(backend.get_color_state("DP-1").temperature, 1000);
    assert_eq!(output_of("wlr-randr", ended(true)), Ok("done".to_string()));
    assert_eq!(output_of("wlr-randr", Outcome::NotRun), Err("failed to execute wlr-randr".to_string()));
}
