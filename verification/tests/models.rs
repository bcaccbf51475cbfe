use sabantui::float::{Double, Single};
use sabantui::models::{
    DisplayColorCapabilities, DisplayColorSettings, DisplayMode, DisplayOutput, RelativePosition,
};
use sabantui::wlr_randr::{
    parse_wlr_randr_json, parse_wlr_randr_text, WlrRandrJsonHead, WlrRandrJsonMode,
};
use serde_json::Value;

fn single(x: f32) -> Single {
    Single { bits: x.to_bits() }
}

fn double(x: f64) -> Double {
    Double { bits: x.to_bits() }
}

fn rate(mode: &DisplayMode) -> Option<f32> {
    mode.refresh_hz.map(|x| f32::from_bits(x.bits))
}

fn text(v: &Value, key: &str) -> Option<String> {
    v[key].as_str().map(|s| s.to_string())
}

fn json_mode(v: &Value) -> WlrRandrJsonMode {
    WlrRandrJsonMode {
        width: v["width"].as_u64().map(|n| n as u32),
        height: v["height"].as_u64().map(|n| n as u32),
        refresh: v["refresh"].as_f64().map(double),
        preferred: v["preferred"].as_bool().unwrap_or(false),
        current: v["current"].as_bool().unwrap_or(false),
    }
}

fn json_head(v: &Value) -> WlrRandrJsonHead {
    WlrRandrJsonHead {
        name: text(v, "name"),
        description: text(v, "description"),
        make: text(v, "make"),
        model: text(v, "model"),
        enabled: v["enabled"].as_bool().unwrap_or(false),
        modes: match v["modes"].as_array() {
            Some(modes) => modes.iter().map(json_mode).collect(),
            None => Vec::new(),
        },
        scale: v["scale"].as_f64().map(double),
    }
}

fn heads(s: &str) -> Option<Vec<WlrRandrJsonHead>> {
    let v: Value = serde_json::from_str(s.trim()).ok()?;
    Some(v.as_array()?.iter().map(json_head).collect())
}

fn parse(s: &str) -> Vec<DisplayOutput> {
    DisplayOutput::parse_from_wlr_randr(s, heads(s))
}

#[test]
fn parses_wlr_randr_json_output() {
    let sample = r#"[
  {
    "name": "HDMI-A-1",
    "description": "Dell Inc. DELL P2715Q",
    "make": "Dell Inc.",
    "model": "DELL P2715Q",
    "serial": "ABC1234",
    "physical_size": { "width": 600, "height": 340 },
    "enabled": true,
    "modes": [
      { "width": 3840, "height": 2160, "refresh": 60.0, "preferred": true, "current": true },
      { "width": 3840, "height": 2160, "refresh": 30.0, "preferred": false, "current": false }
    ],
    "position": { "x": 0, "y": 0 },
    "transform": "normal",
    "scale": 1.0,
    "adaptive_sync": true
  },
  {
    "name": "DP-1",
    "description": null,
    "make": null,
    "model": null,
    "serial": null,
    "physical_size": { "width": 520, "height": 320 },
    "enabled": false,
    "modes": [
      { "width": 1920, "height": 1080, "refresh": 60.0, "preferred": true, "current": false }
    ],
    "adaptive_sync": null
  }
]"#;

    let outputs = parse(sample);
    assert_eq!(outputs.len(), 2);

    let first = &outputs[0];
    assert_eq!(first.name, "HDMI-A-1");
    assert_eq!(first.description.as_deref(), Some("Dell Inc. DELL P2715Q"));
    assert!(first.enabled);
    assert_eq!(first.available_modes.len(), 2);
    assert_eq!(first.current_mode.as_ref().map(|m| (m.width, m.height)), Some((3840, 2160)));
    assert_eq!(first.current_mode.as_ref().and_then(rate), Some(60.0));

    let second = &outputs[1];
    assert_eq!(second.name, "DP-1");
    assert!(!second.enabled);
    assert!(second.current_mode.is_none());
    assert_eq!(second.available_modes.len(), 1);
    assert_eq!(second.available_modes[0], DisplayMode::new(1920, 1080, Some(single(60.0))));
}

#[test]
fn parses_wlr_randr_text_output() {
    let sample = r#"HDMI-A-1 \"Dell Inc. DELL P2715Q\"
  Physical size: 600x340 mm
  Enabled: yes
  Modes:
    3840x2160 px, 60.000000 Hz (preferred, current)
    3840x2160 px, 30.000000 Hz
  Position: 0,0
  Transform: normal
  Scale: 1.000000

DP-1 \"Unknown\"
  Enabled: no
  Modes:
    1920x1080 px, 60.000000 Hz (preferred)
  Transform: normal
  Scale: 1.000000
"#;

    let outputs = parse(sample);
    assert_eq!(outputs.len(), 2);
    assert_eq!(outputs[0].name, "HDMI-A-1");
    assert!(outputs[0].enabled);
    assert_eq!(outputs[1].name, "DP-1");
    assert!(!outputs[1].enabled);
}

#[test]
fn text_outputs_have_modes_scale_and_description() {
    let sample = "DP-2 \"Acme Screen\"\n  Enabled: YES\n  Modes:\n    2560x1440 px, 143.856003 Hz (current)\n    1280x720 px\n  Scale: 1.250000\n";
    let outputs = parse_wlr_randr_text(sample);
    assert_eq!(outputs.len(), 1);
    let o = &outputs[0];
    assert_eq!(o.description.as_deref(), Some("Acme Screen"));
    assert_eq!(o.scale.map(|x| f64::from_bits(x.bits)), Some(1.25));
    assert_eq!(o.available_modes.len(), 2);
    assert_eq!(o.current_mode, Some(DisplayMode::new(2560, 1440, Some(single(143.856)))));
    assert_eq!(o.available_modes[1], DisplayMode::new(1280, 720, None));
}

#[test]
fn nothing_is_reported_of_nothing() {
    assert_eq!(parse("").len(), 0);
    assert_eq!(parse("  \n ").len(), 0);
    assert!(matches!(parse_wlr_randr_json("", None), Some(v) if v.is_empty()));
    assert!(parse_wlr_randr_json("no json", None).is_none());
}

#[test]
fn json_heads_without_a_name_are_left_out_and_numbers_stay() {
    let sample = r#"[{"enabled": true}, {"name": ""}, {"name": "DP-3", "make": "Acme", "model": "X", "enabled": true,
        "modes": [{"width": 800}, {"width": 800, "height": 600, "preferred": true}]}]"#;
    let outputs = parse(sample);
    assert_eq!(outputs.len(), 1);
    assert_eq!(outputs[0].id, 2);
    assert_eq!(outputs[0].description.as_deref(), Some("Acme X"));
    assert_eq!(outputs[0].available_modes, vec![DisplayMode::new(800, 600, None)]);
}

#[test]
fn modes_are_written_with_one_place() {
    assert_eq!(DisplayMode::new(1920, 1080, Some(single(59.94))).to_text(), "1920x1080 @ 59.9Hz");
    assert_eq!(DisplayMode::new(1920, 1080, None).to_text(), "1920x1080");
}

#[test]
fn outputs_are_written_with_what_is_known() {
    let mut o = DisplayOutput::simple(0, "DP-1".to_string(), None);
    o.enabled = false;
    assert_eq!(o.to_text(), "DP-1 (disabled)");
    o.enabled = true;
    o.current_mode = Some(DisplayMode::new(1920, 1080, Some(single(60.0))));
    let o = o.with_color(DisplayColorSettings {
        brightness: Some(single(0.8)),
        gamma: Some(single(1.0)),
        temperature: Some(4500),
    });
    let o = o.with_color_caps(DisplayColorCapabilities { brightness: true, gamma: false, temperature: true });
    assert!(o.color_caps.brightness && !o.color_caps.gamma && o.color_caps.temperature);
    assert_eq!(
        o.to_text(),
        "DP-1 (enabled) - current mode: 1920x1080 @ 60.0Hz, brightness=0.80, gamma=1.00, temp=4500K"
    );
}

#[test]
fn directions_are_read() {
    let left = RelativePosition::from_direction("left", "DP-1");
    assert!(matches!(left, Some(RelativePosition::LeftOf(s)) if s == "DP-1"));
    assert!(matches!(RelativePosition::from_direction("right", "A"), Some(RelativePosition::RightOf(_))));
    assert!(matches!(RelativePosition::from_direction("above", "A"), Some(RelativePosition::Above(_))));
    assert!(matches!(RelativePosition::from_direction("below", "A"), Some(RelativePosition::Below(_))));
    assert!(RelativePosition::from_direction("beside", "A").is_none());
}
