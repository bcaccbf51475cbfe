use sabantui::errors::BackendError;
use sabantui::float::{Double, Single};
use sabantui::kde::{
    default_scale, KScreenDoctorOutput, KScreenMode, KScreenOutput, KScreenPos, KScreenRotation, KScreenSize, KdeBackend,
};
use sabantui::models::{DisplayMode, RelativePosition};
use sabantui::transforms;
use serde_json::Value;

fn single(x: f32) -> Single {
    Single { bits: x.to_bits() }
}

fn double(x: f64) -> Double {
    Double { bits: x.to_bits() }
}

fn mode_of(v: &Value) -> KScreenMode {
    let size = &v["size"];
    KScreenMode {
        id: v["id"].as_str().unwrap().to_string(),
        size: match size.as_array() {
            Some(a) => KScreenSize::Array([a[0].as_u64().unwrap() as u32, a[1].as_u64().unwrap() as u32]),
            None => KScreenSize::Object {
                width: size["width"].as_u64().unwrap() as u32,
                height: size["height"].as_u64().unwrap() as u32,
            },
        },
        refresh: v["refresh"].as_f64().map(|x| single(x as f32)),
    }
}

fn output_of(v: &Value) -> KScreenOutput {
    KScreenOutput {
        name: v["name"].as_str().unwrap().to_string(),
        description: v["description"].as_str().map(|s| s.to_string()),
        enabled: v["enabled"].as_bool().unwrap_or(false),
        current_mode_id: v["currentModeId"].as_str().map(|s| s.to_string()),
        modes: match v["modes"].as_array() {
            Some(a) => a.iter().map(mode_of).collect(),
            None => Vec::new(),
        },
        pos: match (v["pos"]["x"].as_i64(), v["pos"]["y"].as_i64()) {
            (Some(x), Some(y)) => KScreenPos::Object { x: x as i32, y: y as i32 },
            _ => KScreenPos::default(),
        },
        scale: match v["scale"].as_f64() {
            Some(x) => double(x),
            None => default_scale(),
        },
        rotation: match v["rotation"].as_u64() {
            Some(n) => KScreenRotation::Number(n as u32),
            None => KScreenRotation::default(),
        },
    }
}

fn parse(s: &str) -> KScreenDoctorOutput {
    let v: Value = serde_json::from_str(s).unwrap();
    KScreenDoctorOutput { outputs: v["outputs"].as_array().unwrap().iter().map(output_of).collect() }
}

#[test]
fn parses_outputs_when_mode_refresh_is_missing() {
    let sample = r#"{
            "outputs": [
                {
                    "name": "HDMI-1",
                    "enabled": true,
                    "currentModeId": "1",
                    "modes": [
                        { "id": "1", "size": { "width": 1920, "height": 1080 } }
                    ],
                    "pos": { "x": 0, "y": 0 },
                    "scale": 1.0,
                    "rotation": 0
                }
            ]
        }"#;

    let parsed = parse(sample);
    let output = &parsed.outputs[0];
    let mode = &output.modes[0];

    assert_eq!(output.name, "HDMI-1");
    assert!(mode.refresh.is_none());
    assert_eq!(mode.size.to_wh(), (1920, 1080));
}

#[test]
fn defaults_optional_output_fields() {
    let sample = r#"{
            "outputs": [
                {
                    "name": "DP-1"
                }
            ]
        }"#;

    let parsed = parse(sample);
    let output = &parsed.outputs[0];

    assert!(!output.enabled);
    assert!(output.modes.is_empty());
    assert_eq!(output.pos.to_xy(), (0, 0));
    assert_eq!(f64::from_bits(output.scale.bits), 1.0);
    assert_eq!(output.rotation.to_transform(), KScreenRotation::Number(0).to_transform());
}

#[test]
fn reported_outputs_carry_over() {
    let sample = r#"{"outputs": [{"name": "HDMI-1", "description": "Acme", "enabled": true, "currentModeId": "2",
        "modes": [{"id": "1", "size": [1280, 720]}, {"id": "2", "size": {"width": 1920, "height": 1080}, "refresh": 60.0}],
        "pos": {"x": 1920, "y": 0}, "scale": 1.5, "rotation": 5}]}"#;
    let outputs = KdeBackend::outputs(&parse(sample), Some(5000), Some(single(0.5)));
    let o = &outputs[0];
    assert_eq!(o.name, "HDMI-1");
    assert!(o.enabled);
    assert_eq!(o.position, Some((1920, 0)));
    assert_eq!(o.transform.as_deref(), Some("flipped-90"));
    assert_eq!(o.scale.map(|x| f64::from_bits(x.bits)), Some(1.5));
    assert_eq!(o.current_mode, Some(DisplayMode::new(1920, 1080, Some(single(60.0)))));
    assert_eq!(o.available_modes.len(), 2);
    assert_eq!(o.color.temperature, Some(5000));
    assert_eq!(o.available_scales.as_ref().map(|v| v.len()), Some(7));
}

#[test]
fn rotations_are_named_in_any_case() {
    for (word, transform) in [
        ("Left", "90"), ("INVERTED", "180"), ("right", "270"), ("Flipped", "flipped"), ("FlippedLeft", "flipped-90"),
        ("flipped180", "flipped-180"), ("7", "flipped-270"), ("none", "normal"), ("other", "normal"),
    ] {
        assert_eq!(KScreenRotation::String(word.to_string()).to_transform(), transform);
    }
    for n in 0..9 {
        assert_eq!(KScreenRotation::Number(n).to_transform(), transforms::name_of(n));
    }
}

#[test]
fn kscreen_arguments_lead_back_to_the_transform() {
    for n in 0..8 {
        let name = transforms::name_of(n);
        let arg = KdeBackend::set_transform("DP-1", name).unwrap();
        let word = arg.strip_prefix("output.DP-1.rotation.").unwrap();
        assert_eq!(KScreenRotation::String(word.to_string()).to_transform(), name);
    }
    assert_eq!(KdeBackend::set_transform("DP-1", "sideways"), Err(BackendError::UnsupportedTransform));
}

#[test]
fn kscreen_arguments() {
    assert_eq!(KdeBackend::set_scale("DP-1", double(1.25)), "output.DP-1.scale.1.25");
    assert_eq!(KdeBackend::set_enabled("DP-1", false), "output.DP-1.disable");
    assert_eq!(KdeBackend::set_position("DP-1", -5, 7), "output.DP-1.position.-5,7");
    let (percent, arg) = KdeBackend::set_brightness("DP-1", single(0.455));
    assert_eq!(percent, (0.455f32.clamp(0.0, 1.0) * 100.0).round() as u32);
    assert!(arg.ends_with(&format!("{percent}")));
    let below = RelativePosition::Below("DP-2".to_string());
    assert!(KdeBackend::set_position_relative("DP-1", &below).contains("DP-2"));
}

#[test]
fn modes_are_looked_up_in_the_report() {
    let sample = r#"{"outputs": [{"name": "HDMI-1", "modes": [
        {"id": "7", "size": {"width": 1920, "height": 1080}, "refresh": 60.0},
        {"id": "8", "size": {"width": 1920, "height": 1080}, "refresh": 30.0}]}]}"#;
    let report = parse(sample);
    let mode = DisplayMode::new(1920, 1080, Some(single(30.0)));
    assert_eq!(KdeBackend::set_mode(&report, "HDMI-1", mode).unwrap(), "output.HDMI-1.mode.8");
    assert_eq!(KdeBackend::set_mode(&report, "DP-9", mode), Err(BackendError::OutputNotFound));
    let missing = DisplayMode::new(640, 480, None);
    assert_eq!(KdeBackend::set_mode(&report, "HDMI-1", missing), Err(BackendError::ModeNotFound));
}

#[test]
fn settings_of_the_session_are_read() {
    assert_eq!(KdeBackend::global_temperature(4500), 4500);
    assert_eq!(KdeBackend::global_temperature(70000), 70000u32 as u16);
    let half = KdeBackend::global_brightness(Some(50), Some(100)).map(|x| f32::from_bits(x.bits));
    assert_eq!(half, Some(0.5));
    let full = KdeBackend::global_brightness(Some(3), Some(0)).map(|x| f32::from_bits(x.bits));
    assert_eq!(full, Some(1.0));
    assert!(KdeBackend::global_brightness(None, Some(100)).is_none());
    assert!(KdeBackend::temperature_unsupported("no object at path /ColorCorrect"));
    assert!(!KdeBackend::temperature_unsupported("timed out"));
    assert_eq!(
        KdeBackend::set_mirror("A", "B"),
        vec!["output.B.primary", "output.B.position.0,0", "output.A.position.0,0"]
    );
}
