use sabantui::apply::Step;
use sabantui::backend::BackendKind;
use sabantui::float::{Double, Single};
use sabantui::models::{DisplayMode, DisplayOutput, Side};
use sabantui::tui::menu::{Command, Key, KeyAction};
use sabantui::tui::screen::{
    dropdown_area, have_room_side_by_side, make_list_item, menu_has_room, mirror_args, side_by_side, Area, SegmentStyle,
};
use sabantui::tui::{Field, MirrorScaling, TuiState};

fn single(x: f32) -> Single {
    Single { bits: x.to_bits() }
}

fn double(x: f64) -> Double {
    Double { bits: x.to_bits() }
}

fn output(id: usize, name: &str, width: u32) -> DisplayOutput {
    let mut o = DisplayOutput::simple(id, name.to_string(), None);
    o.enabled = true;
    let mode = DisplayMode::new(width, 1080, Some(single(59.94)));
    o.current_mode = Some(mode);
    o.available_modes = vec![mode, DisplayMode::new(800, 600, None)];
    o
}

fn state() -> TuiState {
    let mut s = TuiState::new(BackendKind::Wlroots);
    s.refresh_outputs(vec![output(0, "DP-1", 1920), output(1, "DP-2", 2560)], vec![]);
    s
}

fn select(s: &mut TuiState, field: Field) {
    while s.selected_field() != field {
        s.handle_key_event(Key::Right);
    }
}

fn accept(s: &mut TuiState) -> KeyAction {
    s.handle_key_event(Key::Enter)
}

#[test]
fn fields_go_round() {
    let mut f = Field::Enabled;
    for _ in 0..10 {
        assert_eq!(f.next().prev(), f);
        assert_eq!(f.prev().next(), f);
        f = f.next();
    }
    assert_eq!(f, Field::Enabled);
    assert!(Field::Enabled.should_close_on_apply() && Field::Mode.should_close_on_apply());
    assert!(!Field::Scale.should_close_on_apply());
}

#[test]
fn keys_move_and_leave() {
    let mut s = state();
    assert_eq!(s.selected_field(), Field::Mode);
    s.handle_key_event(Key::Char('l'));
    assert_eq!(s.status(), "Selected: Position");
    s.handle_key_event(Key::Char('h'));
    assert_eq!(s.selected_field(), Field::Mode);
    s.handle_key_event(Key::Down);
    assert_eq!(s.selected_output(), 1);
    s.handle_key_event(Key::Char('j'));
    assert_eq!(s.selected_output(), 0);
    s.handle_key_event(Key::Up);
    assert_eq!(s.selected_output(), 1);
    s.handle_key_event(Key::Tab);
    assert!(s.dropdown_open());
    s.handle_key_event(Key::Left);
    assert_eq!(s.selected_field(), Field::Mode);
    assert!(matches!(s.handle_key_event(Key::Char('q')), KeyAction::Stay));
    assert!(!s.dropdown_open());
    assert!(matches!(s.handle_key_event(Key::Char('r')), KeyAction::Refresh));
    assert!(matches!(s.handle_key_event(Key::Other), KeyAction::Stay));
    assert!(matches!(s.handle_key_event(Key::Esc), KeyAction::Quit));
}

#[test]
fn a_mode_is_chosen_and_the_menu_closes() {
    let mut s = state();
    s.handle_key_event(Key::Tab);
    assert_eq!(s.get_dropdown_items(), vec!["1920x1080 @ 60Hz", "800x600"]);
    s.handle_key_event(Key::Down);
    match accept(&mut s) {
        KeyAction::Run { output, command: Command::Apply(Step::Mode(m)), message } => {
            assert_eq!(output, "DP-1");
            assert_eq!(m, DisplayMode::new(800, 600, None));
            assert_eq!(message, "DP-1: mode 800x600");
            s.command_done(message, vec![output_of_one()], vec![]);
        }
        other => panic!("{other:?}"),
    }
    assert!(!s.dropdown_open());
    assert_eq!(s.status(), "DP-1: mode 800x600");
    assert_eq!(s.outputs().len(), 1);
}

fn output_of_one() -> DisplayOutput {
    output(0, "DP-1", 800)
}

#[test]
fn failures_are_shown() {
    let mut s = state();
    s.handle_key_event(Key::Tab);
    accept(&mut s);
    s.command_failed("no such mode");
    assert_eq!(s.status(), "Error: no such mode");
    assert!(!s.dropdown_open());
    s.handle_action_error("gone");
    assert_eq!(s.status(), "Error: gone");
    s.manual_refresh(vec![], vec![]);
    assert_eq!(s.status(), "Outputs refreshed");
    assert!(s.get_dropdown_items().is_empty());
}

#[test]
fn settings_change_by_steps() {
    let mut s = state();
    let cases = [
        (Field::Brightness, "DP-1: brightness 100%", "DP-1: brightness 95%"),
        (Field::Gamma, "DP-1: gamma 1.10", "DP-1: gamma 0.90"),
        (Field::Temperature, "DP-1: temperature 6600K", "DP-1: temperature 6400K"),
        (Field::Scale, "DP-1: scale 0.50x", "DP-1: scale 0.75x"),
        (Field::AdaptiveSync, "DP-1: adaptive sync enabled", "DP-1: adaptive sync disabled"),
        (Field::Transform, "DP-1: transform normal", "DP-1: transform 90"),
    ];
    for (field, first, second) in cases {
        select(&mut s, field);
        s.handle_key_event(Key::Tab);
        assert!(matches!(accept(&mut s), KeyAction::Run { message, .. } if message == first));
        s.handle_key_event(Key::Down);
        assert!(matches!(accept(&mut s), KeyAction::Run { message, .. } if message == second));
        s.handle_key_event(Key::Tab);
    }
    select(&mut s, Field::Enabled);
    s.handle_key_event(Key::Tab);
    assert_eq!(s.get_dropdown_items(), vec!["Disable"]);
    assert!(matches!(
        accept(&mut s),
        KeyAction::Run { command: Command::Apply(Step::Enabled(false)), .. }
    ));
}

#[test]
fn changed_settings_stay_in_range() {
    let mut o = output(0, "DP-1", 1920);
    o.color.brightness = Some(single(0.02));
    o.color.gamma = Some(single(0.15));
    o.color.temperature = Some(1050);
    let mut s = TuiState::new(BackendKind::X11);
    s.refresh_outputs(vec![o], vec![]);
    for (field, expected) in [
        (Field::Brightness, "DP-1: brightness 0%"),
        (Field::Gamma, "DP-1: gamma 0.10"),
        (Field::Temperature, "DP-1: temperature 1000K"),
    ] {
        select(&mut s, field);
        s.handle_key_event(Key::Tab);
        s.handle_key_event(Key::Down);
        assert!(matches!(accept(&mut s), KeyAction::Run { message, .. } if message == expected));
        s.handle_key_event(Key::Tab);
    }
}

#[test]
fn outputs_are_placed_beside_others() {
    let mut s = state();
    select(&mut s, Field::Position);
    s.handle_key_event(Key::Tab);
    assert_eq!(
        s.get_dropdown_items(),
        vec!["Custom X,Y", "Left of DP-2", "Right of DP-2", "Above DP-2", "Below DP-2"]
    );
    assert!(matches!(accept(&mut s), KeyAction::Stay));
    assert_eq!(s.status(), "Custom position not yet implemented");
    s.handle_key_event(Key::Up);
    match accept(&mut s) {
        KeyAction::Run { command: Command::PlaceBeside(side, target), message, .. } => {
            assert_eq!(side, Side::Below);
            assert_eq!(target, "DP-2");
            assert_eq!(message, "DP-1: positioned below DP-2");
        }
        other => panic!("{other:?}"),
    }
}

#[test]
fn mirroring_asks_for_the_scaling() {
    let mut s = state();
    select(&mut s, Field::Mirror);
    s.handle_key_event(Key::Tab);
    assert_eq!(s.get_dropdown_items(), vec!["Mirror: DP-2"]);
    assert!(matches!(accept(&mut s), KeyAction::Stay));
    assert!(s.has_pending());
    assert_eq!(s.status(), "DP-1: choose scaling for mirror DP-2");
    assert_eq!(s.get_dropdown_items(), vec!["Fit", "Cover", "Exact", "Linear", "Cancel"]);
    s.handle_key_event(Key::Down);
    match accept(&mut s) {
        KeyAction::Run { command: Command::StartMirror(m, scaling), message, .. } => {
            assert_eq!((m.dest.as_str(), m.source.as_str()), ("DP-1", "DP-2"));
            assert_eq!(scaling, MirrorScaling::Cover);
            assert_eq!(message, "DP-1: mirroring DP-2 (cover scaling)");
            s.mirror_started("DP-1", message);
        }
        other => panic!("{other:?}"),
    }
    assert!(!s.dropdown_open() && !s.has_pending());
    assert!(s.is_mirroring("DP-1"));
    s.handle_key_event(Key::Tab);
    assert_eq!(s.get_dropdown_items(), vec!["Stop mirroring", "Mirror: DP-2"]);
    assert!(matches!(accept(&mut s), KeyAction::Run { command: Command::StopMirror, .. }));
    s.mirror_stopped("DP-1", None);
    assert!(!s.is_mirroring("DP-1"));
    assert_eq!(s.status(), "DP-1: mirroring stopped, layout restored");
    s.no_mirroring("DP-1");
    assert_eq!(s.status(), "DP-1: no active mirroring");
    s.mirror_failed("not found");
    assert_eq!(s.status(), "Error: wl-mirror not found: not found");
}

#[test]
fn a_waiting_mirroring_ends_with_its_outputs() {
    let mut s = state();
    select(&mut s, Field::Mirror);
    s.handle_key_event(Key::Tab);
    accept(&mut s);
    s.refresh_outputs(vec![output(0, "DP-1", 1920)], vec![]);
    assert!(!s.has_pending() && !s.dropdown_open());
    assert_eq!(s.status(), "Mirror setup cancelled: output disconnected");
    s.handle_key_event(Key::Tab);
    assert_eq!(s.get_dropdown_items(), vec!["No other outputs available"]);
    assert!(matches!(accept(&mut s), KeyAction::Stay));
    let mut s = state();
    select(&mut s, Field::Mirror);
    s.handle_key_event(Key::Tab);
    accept(&mut s);
    for _ in 0..4 {
        s.handle_key_event(Key::Down);
    }
    accept(&mut s);
    assert_eq!(s.status(), "Mirror selection cancelled");
}

#[test]
fn the_selection_stays_among_the_outputs() {
    let mut s = state();
    s.handle_key_event(Key::Down);
    assert_eq!(s.selected_output(), 1);
    s.refresh_outputs(vec![output(0, "DP-1", 1920)], vec![]);
    assert_eq!(s.selected_output(), 0);
}

#[test]
fn outputs_are_listed_with_their_settings() {
    let mut o = output(0, "DP-1", 1920);
    o.description = Some("Acme".to_string());
    o.color.brightness = Some(single(1.5));
    o.scale = Some(double(1.25));
    let item = make_list_item(&o, true, Field::Scale, true);
    let first: String = item.first.iter().map(|s| s.text.as_str()).collect();
    assert_eq!(first, "DP-1 – Acme [🔄 MIRRORING]");
    let second: String = item.second.iter().map(|s| s.text.as_str()).collect();
    assert_eq!(
        second,
        "[enabled] Mode: 1920x1080 @ 60Hz | Pos | Mirror | Transform | Scale: 1.25x | VRR | Br: 100% | γ: -- | T: --"
    );
    let selected: Vec<&str> =
        item.second.iter().filter(|s| s.style == SegmentStyle::Selected).map(|s| s.text.as_str()).collect();
    assert_eq!(selected, vec!["Scale: 1.25x "]);
    assert!(!item.dimmed);
    o.enabled = false;
    let item = make_list_item(&o, false, Field::Scale, false);
    assert!(item.dimmed);
    assert_eq!(item.second[0].text, "[disabled] ");
    assert_eq!(item.second[0].style, SegmentStyle::Off);
}

#[test]
fn the_header_names_the_backend() {
    let s = state();
    let (first, second) = s.status_lines();
    assert_eq!(first, "Backend: Wlroots | Outputs: 2");
    assert_eq!(second, "Status: Ready");
    assert_eq!(TuiState::new(BackendKind::Kde).backend_label(), "KDE");
}

#[test]
fn the_menu_stands_in_the_middle() {
    let area = Area { x: 0, y: 6, width: 80, height: 18 };
    let items = vec!["a".to_string(), "b".to_string()];
    assert_eq!(dropdown_area(&items, area), Some(Area { x: 28, y: 13, width: 24, height: 4 }));
    assert_eq!(dropdown_area(&vec![], area), None);
    let many: Vec<String> = (0..40).map(|i| format!("item {i}, which is rather long °")).collect();
    let a = dropdown_area(&many, area).unwrap();
    assert_eq!(a.height, 20);
    assert_eq!(a.width as usize, many[39].len() + 4);
    assert_eq!(a.y, 6);
    assert!(menu_has_room(&items, area) && menu_has_room(&many, area));
    assert!(!menu_has_room(&items, Area { x: 65535, y: 6, width: 80, height: 18 }));
    assert!(!menu_has_room(&vec!["x".repeat(65535)], area));
}

#[test]
fn outputs_stand_side_by_side() {
    let mut dark = output(2, "DP-3", 1);
    dark.current_mode = None;
    let outputs = vec![output(0, "DP-1", 1920), dark, output(1, "DP-2", 2560)];
    assert!(have_room_side_by_side(&outputs));
    assert_eq!(side_by_side(&outputs), vec![0, 1920, 1920]);
    let wide = vec![output(0, "DP-1", i32::MAX as u32), output(1, "DP-2", 1)];
    assert!(!have_room_side_by_side(&wide));
}

#[test]
fn scalings_stand_in_the_order_of_the_menu() {
    let labels: Vec<&str> = MirrorScaling::all().iter().map(|s| s.label()).collect();
    assert_eq!(labels, vec!["Fit", "Cover", "Exact", "Linear"]);
    for (i, s) in MirrorScaling::all().iter().enumerate() {
        assert_eq!(s.place_in_menu(), i);
    }
}

#[test]
fn the_mirroring_program_gets_its_arguments() {
    assert_eq!(
        mirror_args("DP-1", "DP-2", MirrorScaling::Exact),
        vec!["--fullscreen-output", "DP-1", "--scaling", "exact", "DP-2"]
    );
}
