use vorto::action::{DirectKind, Mode, MotionKind, Operator, Token};
use vorto::keys::{KeyCode, KeyInput};
use vorto::action::{Expr, MotionExpr, Target};
use vorto::tokenize::{context_of, is_surround_char_pending, normal_key, tokenize, KeySig, Keymap, ParseCtx};

fn sig(c: char) -> KeySig {
    KeySig { code: KeyCode::Char(c), ctrl: false, alt: false }
}

fn km() -> Keymap {
    Keymap {
        initial: vec![
            (sig('d'), Token::Op(Operator::Delete)),
            (sig('y'), Token::Op(Operator::Yank)),
            (sig('j'), Token::Motion(MotionKind::Down)),
            (sig('f'), Token::FindCharPrefix { forward: true, till: false }),
            (sig('r'), Token::ReplaceCharPrefix),
            (sig(' '), Token::LeaderPrefix),
            (sig(']'), Token::BracketPrefix { forward: true }),
        ],
        leader: vec![(sig('m'), Token::BookmarkPrefix)],
        op_pending: vec![(KeyCode::Char('w'), Token::Motion(MotionKind::WordForward))],
        object: vec![],
        goto: vec![],
        z: vec![],
        window: vec![],
        bookmark: vec![(KeyCode::Char('a'), Token::Direct(DirectKind::BookmarkAdd))],
        ctrl_w: vec![],
        bracket_next: vec![(KeyCode::Char('d'), Token::Direct(DirectKind::GotoDiagnostic { forward: true }))],
        bracket_prev: vec![(KeyCode::Char('d'), Token::Direct(DirectKind::GotoDiagnostic { forward: false }))],
    }
}

fn press(c: char) -> KeyInput {
    KeyInput::press(KeyCode::Char(c), false, false, false)
}

#[test]
fn counts_and_line_start_zero() {
    let k = km();
    assert_eq!(tokenize(&k, &[], Mode::Normal, &press('0')), Some(Token::Motion(MotionKind::LineStart)));
    assert_eq!(tokenize(&k, &[], Mode::Normal, &press('3')), Some(Token::Count(3)));
    assert_eq!(tokenize(&k, &[Token::Count(3)], Mode::Normal, &press('0')), Some(Token::Count(0)));
    assert_eq!(tokenize(&k, &[Token::LeaderPrefix], Mode::Normal, &press('4')), None);
}

#[test]
fn operator_followers() {
    let k = km();
    let d = [Token::Op(Operator::Delete)];
    assert_eq!(tokenize(&k, &d, Mode::Normal, &press('d')), Some(Token::SelfDouble(Operator::Delete)));
    assert_eq!(tokenize(&k, &d, Mode::Normal, &press('s')), Some(Token::SurroundDeletePrefix));
    assert_eq!(tokenize(&k, &d, Mode::Normal, &press('w')), Some(Token::Motion(MotionKind::WordForward)));
    let ys = [Token::Op(Operator::Yank), Token::SurroundAddPrefix];
    assert_eq!(tokenize(&k, &ys, Mode::Normal, &press('s')), Some(Token::SelfDouble(Operator::Yank)));
}

#[test]
fn char_arguments_and_surround_chars() {
    let k = km();
    assert_eq!(
        tokenize(&k, &[Token::FindCharPrefix { forward: true, till: false }], Mode::Normal, &press('x')),
        Some(Token::Motion(MotionKind::FindChar { ch: 'x', forward: true, till: false }))
    );
    assert_eq!(
        tokenize(&k, &[Token::ReplaceCharPrefix], Mode::Normal, &press('q')),
        Some(Token::Direct(DirectKind::ReplaceChar { ch: 'q' }))
    );
    let ds = [Token::Op(Operator::Delete), Token::SurroundDeletePrefix];
    assert!(is_surround_char_pending(&ds));
    assert_eq!(context_of(&ds), ParseCtx::SurroundCharPending);
    assert_eq!(tokenize(&k, &ds, Mode::Normal, &press('"')), Some(Token::SurroundChar('"')));
}

#[test]
fn leader_bracket_and_ctrl_keys() {
    let k = km();
    assert_eq!(tokenize(&k, &[Token::LeaderPrefix], Mode::Normal, &press('m')), Some(Token::BookmarkPrefix));
    assert_eq!(
        tokenize(&k, &[Token::LeaderPrefix, Token::BookmarkPrefix], Mode::Normal, &press('a')),
        Some(Token::Direct(DirectKind::BookmarkAdd))
    );
    assert_eq!(
        tokenize(&k, &[Token::BracketPrefix { forward: false }], Mode::Normal, &press('d')),
        Some(Token::Direct(DirectKind::GotoDiagnostic { forward: false }))
    );
    let ctrl_r = KeyInput::press(KeyCode::Char('r'), false, true, false);
    assert_eq!(tokenize(&k, &[Token::Op(Operator::Delete)], Mode::Normal, &ctrl_r), Some(Token::Direct(DirectKind::Redo)));
    let ctrl_w = KeyInput::press(KeyCode::Char('w'), false, true, false);
    assert_eq!(tokenize(&k, &[], Mode::Normal, &ctrl_w), Some(Token::CtrlWPrefix));
    assert_eq!(context_of(&[Token::Count(2), Token::Op(Operator::Yank), Token::Count(3)]), ParseCtx::OpPending);
}

#[test]
fn normal_key_builds_and_clears_commands() {
    let km = km();
    let mut tokens: Vec<Token> = Vec::new();
    assert_eq!(normal_key(&km, &mut tokens, &press('d')), None);
    assert_eq!(tokens, vec![Token::Op(Operator::Delete)]);
    assert_eq!(normal_key(&km, &mut tokens, &press('2')), None);
    assert_eq!(tokens.len(), 2);
    assert_eq!(
        normal_key(&km, &mut tokens, &press('w')),
        Some(Expr::Op {
            op: Operator::Delete,
            target: Target::Motion(MotionExpr { motion: MotionKind::WordForward, count: 2 }),
            outer_count: 1,
        })
    );
    assert!(tokens.is_empty());
    assert_eq!(normal_key(&km, &mut tokens, &press('j')), Some(Expr::Motion(MotionExpr { motion: MotionKind::Down, count: 1 })));
    assert!(tokens.is_empty());
}

#[test]
fn normal_key_drops_unknown_keys() {
    let km = km();
    let mut tokens: Vec<Token> = Vec::new();
    assert_eq!(normal_key(&km, &mut tokens, &press('d')), None);
    assert_eq!(normal_key(&km, &mut tokens, &press('Q')), None);
    assert!(tokens.is_empty());
}
