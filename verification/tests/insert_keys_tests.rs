use vorto::insert_keys::{
    auto_trigger, first_nav_selection, insert_action, popup_key, ArrowDir, AutoTrigger, InsertAction,
    PopupKey,
};
use vorto::keys::{KeyCode, KeyInput};

fn key(code: KeyCode) -> KeyInput {
    KeyInput::press(code, false, false, false)
}

fn shift(code: KeyCode) -> KeyInput {
    KeyInput::press(code, true, false, false)
}

fn ctrl(code: KeyCode) -> KeyInput {
    KeyInput::press(code, false, true, false)
}

#[test]
fn popup_navigation_keys() {
    assert_eq!(popup_key(&key(KeyCode::Esc), false), PopupKey::Close);
    assert_eq!(popup_key(&key(KeyCode::Up), false), PopupKey::Nav(-1));
    assert_eq!(popup_key(&key(KeyCode::BackTab), true), PopupKey::Nav(-1));
    assert_eq!(popup_key(&shift(KeyCode::Tab), true), PopupKey::Nav(-1));
    assert_eq!(popup_key(&key(KeyCode::Tab), true), PopupKey::Nav(1));
    assert_eq!(popup_key(&key(KeyCode::Down), true), PopupKey::Nav(1));
    assert_eq!(popup_key(&ctrl(KeyCode::Char('p')), true), PopupKey::Nav(-1));
    assert_eq!(popup_key(&ctrl(KeyCode::Char('n')), true), PopupKey::Nav(1));
}

#[test]
fn popup_enter_accepts_only_when_selecting() {
    assert_eq!(popup_key(&key(KeyCode::Enter), true), PopupKey::Accept);
    assert_eq!(popup_key(&key(KeyCode::Enter), false), PopupKey::CloseThenInsert);
}

#[test]
fn popup_lets_typing_through() {
    assert_eq!(popup_key(&key(KeyCode::Char('p')), true), PopupKey::PassThrough);
    assert_eq!(popup_key(&key(KeyCode::Backspace), true), PopupKey::PassThrough);
    assert_eq!(popup_key(&key(KeyCode::Left), true), PopupKey::PassThrough);
}

#[test]
fn first_nav_up_jumps_to_last_row() {
    assert_eq!(first_nav_selection(0, 5, -1), 4);
    assert_eq!(first_nav_selection(2, 5, 1), 2);
    assert_eq!(first_nav_selection(0, 0, -1), 0);
}

#[test]
fn insert_keys_classified() {
    assert_eq!(insert_action(&ctrl(KeyCode::Char(' '))), InsertAction::RequestCompletion);
    assert_eq!(insert_action(&ctrl(KeyCode::Char('l'))), InsertAction::AcceptInline);
    assert_eq!(insert_action(&ctrl(KeyCode::Char('y'))), InsertAction::AcceptInline);
    assert_eq!(insert_action(&ctrl(KeyCode::Char('x'))), InsertAction::Ignore);
    assert_eq!(insert_action(&key(KeyCode::Char('a'))), InsertAction::Type('a'));
    assert_eq!(insert_action(&shift(KeyCode::Char('A'))), InsertAction::Type('A'));
    assert_eq!(insert_action(&key(KeyCode::Esc)), InsertAction::Leave);
    assert_eq!(insert_action(&key(KeyCode::Enter)), InsertAction::Newline);
    assert_eq!(insert_action(&key(KeyCode::Backspace)), InsertAction::Backspace);
    assert_eq!(insert_action(&key(KeyCode::Tab)), InsertAction::Indent);
    assert_eq!(insert_action(&shift(KeyCode::Tab)), InsertAction::Dedent);
    assert_eq!(insert_action(&key(KeyCode::BackTab)), InsertAction::Dedent);
    assert_eq!(insert_action(&key(KeyCode::Up)), InsertAction::Move(ArrowDir::Up));
    assert_eq!(insert_action(&key(KeyCode::Right)), InsertAction::Move(ArrowDir::Right));
    assert_eq!(insert_action(&key(KeyCode::Home)), InsertAction::Ignore);
}

#[test]
fn auto_trigger_rules() {
    assert_eq!(auto_trigger(true, true, true, true, 9, 2), AutoTrigger::Nothing);
    assert_eq!(auto_trigger(false, false, true, true, 9, 2), AutoTrigger::Nothing);
    assert_eq!(auto_trigger(false, true, true, false, 0, 2), AutoTrigger::TriggerChar);
    assert_eq!(auto_trigger(false, true, false, true, 2, 2), AutoTrigger::Identifier);
    assert_eq!(auto_trigger(false, true, false, true, 1, 2), AutoTrigger::Nothing);
    assert_eq!(auto_trigger(false, true, false, false, 7, 2), AutoTrigger::Nothing);
}
