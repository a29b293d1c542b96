use vorto::keys::{encode_key, KeyCode, KeyEventKind, KeyInput};

/// A press with the given modifiers (shift, ctrl, alt).
fn key(code: KeyCode, shift: bool, ctrl: bool, alt: bool) -> KeyInput {
    KeyInput::press(code, shift, ctrl, alt)
}

/// Encode under DECCKM normal mode (the common case).
fn enc(code: KeyCode, shift: bool, ctrl: bool, alt: bool) -> Option<Vec<u8>> {
    encode_key(&key(code, shift, ctrl, alt), false)
}

#[test]
fn plain_char_is_its_utf8() {
    assert_eq!(enc(KeyCode::Char('a'), false, false, false), Some(b"a".to_vec()));
}

#[test]
fn ctrl_letter_maps_to_control_byte() {
    assert_eq!(enc(KeyCode::Char('c'), false, true, false), Some(vec![0x03]));
}

#[test]
fn alt_char_gets_esc_prefix() {
    assert_eq!(enc(KeyCode::Char('b'), false, false, true), Some(vec![0x1b, b'b']));
}

#[test]
fn bare_arrows_are_csi() {
    assert_eq!(enc(KeyCode::Up, false, false, false), Some(vec![0x1b, b'[', b'A']));
    assert_eq!(enc(KeyCode::Left, false, false, false), Some(vec![0x1b, b'[', b'D']));
}

#[test]
fn bare_arrows_under_app_cursor_are_ss3() {
    assert_eq!(encode_key(&key(KeyCode::Up, false, false, false), true), Some(vec![0x1b, b'O', b'A']));
    assert_eq!(encode_key(&key(KeyCode::Left, false, false, false), true), Some(vec![0x1b, b'O', b'D']));
    assert_eq!(encode_key(&key(KeyCode::Home, false, false, false), true), Some(vec![0x1b, b'O', b'H']));
    assert_eq!(encode_key(&key(KeyCode::End, false, false, false), true), Some(vec![0x1b, b'O', b'F']));
}

#[test]
fn modified_arrow_carries_xterm_modifier_code_regardless_of_mode() {
    assert_eq!(enc(KeyCode::Right, false, true, false), Some(b"\x1b[1;5C".to_vec()));
    assert_eq!(encode_key(&key(KeyCode::Right, false, true, false), true), Some(b"\x1b[1;5C".to_vec()));
}

#[test]
fn enter_backspace_tab_escape() {
    assert_eq!(enc(KeyCode::Enter, false, false, false), Some(b"\r".to_vec()));
    assert_eq!(enc(KeyCode::Backspace, false, false, false), Some(b"\x7f".to_vec()));
    assert_eq!(enc(KeyCode::Tab, false, false, false), Some(b"\t".to_vec()));
    assert_eq!(enc(KeyCode::Esc, false, false, false), Some(b"\x1b".to_vec()));
}

#[test]
fn backtab_is_csi_z() {
    assert_eq!(enc(KeyCode::BackTab, true, false, false), Some(b"\x1b[Z".to_vec()));
}

#[test]
fn f1_is_ss3() {
    assert_eq!(enc(KeyCode::F(1), false, false, false), Some(vec![0x1b, b'O', b'P']));
}

#[test]
fn pageup_is_csi_tilde() {
    assert_eq!(enc(KeyCode::PageUp, false, false, false), Some(b"\x1b[5~".to_vec()));
}

#[test]
fn releases_and_bare_modifiers_send_nothing() {
    let mut k = key(KeyCode::Char('a'), false, false, false);
    k.kind = KeyEventKind::Release;
    assert_eq!(encode_key(&k, false), None);
    assert_eq!(enc(KeyCode::Other, false, false, false), None);
    assert_eq!(enc(KeyCode::F(13), false, false, false), None);
}

#[test]
fn f_keys_above_four_use_terminfo_numbers() {
    assert_eq!(enc(KeyCode::F(5), false, false, false), Some(b"\x1b[15~".to_vec()));
    assert_eq!(enc(KeyCode::F(11), false, false, false), Some(b"\x1b[23~".to_vec()));
    assert_eq!(enc(KeyCode::F(12), true, true, true), Some(b"\x1b[24;8~".to_vec()));
}

#[test]
fn multibyte_chars_are_utf8_and_ctrl_specials_fold() {
    assert_eq!(enc(KeyCode::Char('é'), false, false, false), Some("é".as_bytes().to_vec()));
    assert_eq!(enc(KeyCode::Char('€'), false, false, true), Some([&[0x1bu8][..], "€".as_bytes()].concat()));
    assert_eq!(enc(KeyCode::Char('['), false, true, false), Some(vec![0x1b]));
    assert_eq!(enc(KeyCode::Char('C'), false, true, false), Some(vec![0x03]));
    assert_eq!(enc(KeyCode::Char('1'), false, true, false), Some(b"1".to_vec()));
}
