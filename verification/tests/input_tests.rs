use vorto::action::Mode;
use vorto::input::{agent_key_is_window_chord, route_key, KeyRoute};
use vorto::keys::{KeyCode, KeyInput};

fn key(code: KeyCode) -> KeyInput {
    KeyInput::press(code, false, false, false)
}

fn ctrl(c: char) -> KeyInput {
    KeyInput::press(KeyCode::Char(c), false, true, false)
}

#[test]
fn prompt_and_overlay_take_keys_first() {
    assert_eq!(route_key(true, true, true, Mode::Normal, &ctrl('c'), true), KeyRoute::Prompt);
    assert_eq!(route_key(false, true, true, Mode::Insert, &ctrl('c'), false), KeyRoute::JumpOverlay);
    assert_eq!(route_key(false, false, true, Mode::Normal, &ctrl('c'), false), KeyRoute::Agent);
}

#[test]
fn ctrl_c_quits_outside_agent() {
    assert_eq!(route_key(false, false, false, Mode::Insert, &ctrl('c'), false), KeyRoute::Quit);
}

#[test]
fn esc_dismisses_fatal_toast_only_in_normal() {
    assert_eq!(route_key(false, false, false, Mode::Normal, &key(KeyCode::Esc), true), KeyRoute::DismissFatal);
    assert_eq!(route_key(false, false, false, Mode::Normal, &key(KeyCode::Esc), false), KeyRoute::Normal);
    assert_eq!(route_key(false, false, false, Mode::Insert, &key(KeyCode::Esc), true), KeyRoute::Insert);
    assert_eq!(route_key(false, false, false, Mode::VisualBlock, &key(KeyCode::Esc), true), KeyRoute::Visual);
    assert_eq!(route_key(false, false, false, Mode::VisualLine, &key(KeyCode::Char('j')), false), KeyRoute::Visual);
}

#[test]
fn agent_pane_reserves_ctrl_w() {
    assert!(agent_key_is_window_chord(&ctrl('w'), false));
    assert!(agent_key_is_window_chord(&ctrl('W'), false));
    assert!(agent_key_is_window_chord(&key(KeyCode::Char('h')), true));
    assert!(!agent_key_is_window_chord(&key(KeyCode::Char('w')), false));
    assert!(!agent_key_is_window_chord(&ctrl('c'), false));
}
