use vorto::action::{MotionKind, Operator};
use vorto::keys::{KeyCode, KeyInput};
use vorto::cursor::Cursor;
use vorto::visual::{
    append_at_end_cursors, insert_at_start_cursors, selection_row_span, toggle_visual, visual_key_action, Selection,
    VisualAction, VisualKind,
};

fn key(c: char) -> KeyInput {
    KeyInput::press(KeyCode::Char(c), false, false, false)
}

fn ctrl(c: char) -> KeyInput {
    KeyInput::press(KeyCode::Char(c), false, true, false)
}

fn code(k: KeyCode) -> KeyInput {
    KeyInput::press(k, false, false, false)
}

#[test]
fn visual_motions_take_precedence() {
    assert_eq!(visual_key_action(&key('w'), false), VisualAction::Motion(MotionKind::WordForward));
    assert_eq!(visual_key_action(&ctrl('d'), false), VisualAction::Motion(MotionKind::HalfPageDown));
    assert_eq!(visual_key_action(&code(KeyCode::End), false), VisualAction::Motion(MotionKind::LineEnd));
}

#[test]
fn visual_basic_moves_and_modes() {
    assert_eq!(visual_key_action(&code(KeyCode::Esc), false), VisualAction::Leave);
    assert_eq!(visual_key_action(&key('h'), false), VisualAction::MoveLeft);
    assert_eq!(visual_key_action(&code(KeyCode::Right), false), VisualAction::MoveRight);
    assert_eq!(visual_key_action(&key('j'), false), VisualAction::MoveDown);
    assert_eq!(visual_key_action(&code(KeyCode::Up), false), VisualAction::MoveUp);
    assert_eq!(visual_key_action(&code(KeyCode::Home), false), VisualAction::LineStart);
    assert_eq!(visual_key_action(&key('G'), false), VisualAction::FileEnd);
    assert_eq!(visual_key_action(&key('g'), false), VisualAction::GPrefix);
    assert_eq!(visual_key_action(&key('v'), false), VisualAction::Toggle(VisualKind::Char));
    assert_eq!(visual_key_action(&ctrl('v'), false), VisualAction::Toggle(VisualKind::Block));
    assert_eq!(visual_key_action(&key('V'), false), VisualAction::Toggle(VisualKind::Line));
    assert_eq!(visual_key_action(&key('o'), false), VisualAction::SwapEnds);
}

#[test]
fn visual_operators_and_edits() {
    assert_eq!(visual_key_action(&key('y'), false), VisualAction::Op(Operator::Yank));
    assert_eq!(visual_key_action(&key('x'), false), VisualAction::Op(Operator::Delete));
    assert_eq!(visual_key_action(&key('s'), false), VisualAction::Op(Operator::Change));
    assert_eq!(visual_key_action(&key('R'), false), VisualAction::ChangeLines);
    assert_eq!(visual_key_action(&key('D'), false), VisualAction::DeleteToEol);
    assert_eq!(visual_key_action(&key('u'), false), VisualAction::Lowercase);
    assert_eq!(visual_key_action(&key('~'), false), VisualAction::ToggleCase);
    assert_eq!(visual_key_action(&key('>'), false), VisualAction::Shift { right: true });
    assert_eq!(visual_key_action(&key(':'), false), VisualAction::Command);
    assert_eq!(visual_key_action(&key('#'), false), VisualAction::SearchWord { forward: false });
    assert_eq!(visual_key_action(&key('q'), false), VisualAction::Nothing);
}

#[test]
fn visual_g_prefix_second_key() {
    assert_eq!(visual_key_action(&key('g'), true), VisualAction::FileStart);
    assert_eq!(visual_key_action(&key('e'), true), VisualAction::Motion(MotionKind::WordEndBack));
    assert_eq!(visual_key_action(&key('s'), true), VisualAction::Motion(MotionKind::LineFirstNonBlank));
    assert_eq!(visual_key_action(&key('N'), true), VisualAction::SearchSelect { reverse: true });
    assert_eq!(visual_key_action(&key('w'), true), VisualAction::Nothing);
}

#[test]
fn toggling_the_same_submode_leaves_visual() {
    assert_eq!(toggle_visual(VisualKind::Char, VisualKind::Char), None);
    assert_eq!(toggle_visual(VisualKind::Char, VisualKind::Line), Some(VisualKind::Line));
    assert_eq!(toggle_visual(VisualKind::Block, VisualKind::Char), Some(VisualKind::Char));
}

fn c(row: usize, col: usize) -> Cursor {
    Cursor { row, col }
}

fn lines(v: &[&str]) -> Vec<String> {
    v.iter().map(|s| s.to_string()).collect()
}

#[test]
fn visual_insert_fans_out_per_row() {
    let ls = lines(&["  foo", "\tbar", "x", "", "abcdef"]);
    let (p, ex) = insert_at_start_cursors(Selection::Char { from: c(1, 2), to: c(3, 0) }, &ls);
    assert_eq!(p, c(1, 2));
    assert!(ex.is_empty());
    let (p, ex) = insert_at_start_cursors(Selection::Line { from_row: 0, to_row: 3 }, &ls);
    assert_eq!(p, c(0, 2));
    assert_eq!(ex, vec![c(1, 1), c(2, 0), c(3, 0)]);
    let (p, ex) = insert_at_start_cursors(Selection::Block { r0: 2, c0: 3, r1: 4, c1: 5 }, &ls);
    assert_eq!(p, c(2, 3));
    assert_eq!(ex, vec![c(3, 0), c(4, 3)]);
    let (_, ex) = insert_at_start_cursors(Selection::Line { from_row: 3, to_row: 1 }, &ls);
    assert!(ex.is_empty());
}

#[test]
fn visual_append_lands_past_the_end() {
    let ls = lines(&["  foo", "\tbar", "x", "", "abcdef"]);
    let (p, ex) = append_at_end_cursors(Selection::Char { from: c(0, 0), to: c(0, 2) }, &ls);
    assert_eq!(p, c(0, 3));
    assert!(ex.is_empty());
    let (p, _) = append_at_end_cursors(Selection::Char { from: c(0, 0), to: c(2, 0) }, &ls);
    assert_eq!(p, c(2, 1));
    let (p, ex) = append_at_end_cursors(Selection::Line { from_row: 0, to_row: 2 }, &ls);
    assert_eq!(p, c(0, 5));
    assert_eq!(ex, vec![c(1, 4), c(2, 1)]);
    let (p, ex) = append_at_end_cursors(Selection::Block { r0: 0, c0: 1, r1: 4, c1: 3 }, &ls);
    assert_eq!(p, c(0, 4));
    assert_eq!(ex, vec![c(1, 4), c(2, 1), c(3, 0), c(4, 4)]);
}

#[test]
fn selection_row_spans() {
    assert_eq!(selection_row_span(Selection::Char { from: c(4, 1), to: c(2, 0) }), (4, 2));
    assert_eq!(selection_row_span(Selection::Line { from_row: 1, to_row: 3 }), (1, 3));
    assert_eq!(selection_row_span(Selection::Block { r0: 0, c0: 2, r1: 5, c1: 1 }), (0, 5));
}
