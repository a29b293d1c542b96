use vorto::action::{DirectKind, Expr, MotionExpr, MotionKind, Object, Operator, Scope as ScopeKind, Target, Token};
use vorto::parse::{classify, Parse};

fn complete(toks: &[Token]) -> Option<Expr> {
    match classify(toks) {
        Parse::Complete(e) => Some(e),
        _ => None,
    }
}

fn incomplete(toks: &[Token]) -> bool {
    matches!(classify(toks), Parse::Incomplete)
}

fn invalid(toks: &[Token]) -> bool {
    matches!(classify(toks), Parse::Invalid)
}

#[test]
fn bookmark_subleader_parses_and_waits() {
    assert_eq!(
        complete(&[Token::LeaderPrefix, Token::BookmarkPrefix, Token::Direct(DirectKind::BookmarkAdd),]),
        Some(Expr::Direct { kind: DirectKind::BookmarkAdd, count: 1 })
    );
    assert_eq!(
        complete(&[
            Token::LeaderPrefix,
            Token::BookmarkPrefix,
            Token::Direct(DirectKind::BookmarkRemoveCurrent),
        ]),
        Some(Expr::Direct { kind: DirectKind::BookmarkRemoveCurrent, count: 1 })
    );
    assert!(incomplete(&[Token::LeaderPrefix, Token::BookmarkPrefix]));
}

#[test]
fn goto_motions_distinguish_bare_from_explicit_count() {
    let motion = |toks: &[Token]| match complete(toks) {
        Some(Expr::Motion(m)) => Some(m),
        _ => None,
    };
    assert_eq!(
        motion(&[Token::GotoPrefix, Token::GotoPrefix]),
        Some(MotionExpr { motion: MotionKind::FileStart, count: 0 })
    );
    assert_eq!(
        motion(&[Token::Count(1), Token::GotoPrefix, Token::GotoPrefix]),
        Some(MotionExpr { motion: MotionKind::FileStart, count: 1 })
    );
    assert_eq!(
        motion(&[Token::Motion(MotionKind::FileEnd)]),
        Some(MotionExpr { motion: MotionKind::FileEnd, count: 0 })
    );
    assert_eq!(
        motion(&[Token::Count(1), Token::Motion(MotionKind::FileEnd)]),
        Some(MotionExpr { motion: MotionKind::FileEnd, count: 1 })
    );
    assert_eq!(
        motion(&[Token::Motion(MotionKind::Down)]),
        Some(MotionExpr { motion: MotionKind::Down, count: 1 })
    );
}

#[test]
fn ds_complete_with_one_char() {
    let toks = [Token::Op(Operator::Delete), Token::SurroundDeletePrefix, Token::SurroundChar('"')];
    assert_eq!(complete(&toks), Some(Expr::SurroundDelete { ch: '"' }));
}

#[test]
fn ds_prefix_alone_is_incomplete() {
    assert!(incomplete(&[Token::Op(Operator::Delete), Token::SurroundDeletePrefix]));
}

#[test]
fn cs_needs_two_chars() {
    let prefix = [Token::Op(Operator::Change), Token::SurroundChangePrefix];
    assert!(incomplete(&prefix));
    let one_char = [Token::Op(Operator::Change), Token::SurroundChangePrefix, Token::SurroundChar('"')];
    assert!(incomplete(&one_char));
    let full = [
        Token::Op(Operator::Change),
        Token::SurroundChangePrefix,
        Token::SurroundChar('"'),
        Token::SurroundChar('\''),
    ];
    assert_eq!(complete(&full), Some(Expr::SurroundChange { from: '"', to: '\'' }));
}

#[test]
fn ys_with_text_object() {
    let toks = [
        Token::Op(Operator::Yank),
        Token::SurroundAddPrefix,
        Token::Scope(ScopeKind::Inner),
        Token::Object(Object::Word),
        Token::SurroundChar('"'),
    ];
    let expected = Expr::SurroundAdd {
        target: Target::TextObject { scope: ScopeKind::Inner, object: Object::Word },
        ch: '"',
    };
    assert_eq!(complete(&toks), Some(expected));
}

#[test]
fn ys_with_motion() {
    let toks = [
        Token::Op(Operator::Yank),
        Token::SurroundAddPrefix,
        Token::Motion(MotionKind::WordForward),
        Token::SurroundChar(')'),
    ];
    let expected = Expr::SurroundAdd {
        target: Target::Motion(MotionExpr { motion: MotionKind::WordForward, count: 1 }),
        ch: ')',
    };
    assert_eq!(complete(&toks), Some(expected));
}

#[test]
fn yss_is_line_wise() {
    let toks = [
        Token::Op(Operator::Yank),
        Token::SurroundAddPrefix,
        Token::SelfDouble(Operator::Yank),
        Token::SurroundChar('"'),
    ];
    assert_eq!(complete(&toks), Some(Expr::SurroundAdd { target: Target::LineWise, ch: '"' }));
}

#[test]
fn ys_intermediate_states_are_incomplete() {
    let cases: Vec<Vec<Token>> = vec![
        vec![Token::Op(Operator::Yank), Token::SurroundAddPrefix],
        vec![Token::Op(Operator::Yank), Token::SurroundAddPrefix, Token::Scope(ScopeKind::Inner)],
        vec![
            Token::Op(Operator::Yank),
            Token::SurroundAddPrefix,
            Token::Scope(ScopeKind::Inner),
            Token::Object(Object::Word),
        ],
        vec![Token::Op(Operator::Yank), Token::SurroundAddPrefix, Token::Motion(MotionKind::WordForward)],
    ];
    for c in cases {
        assert!(incomplete(&c), "expected incomplete: {:?}", c);
    }
}

#[test]
fn plain_yank_still_parses() {
    let toks = [Token::Op(Operator::Yank), Token::Motion(MotionKind::WordForward)];
    let expected = Expr::Op {
        op: Operator::Yank,
        target: Target::Motion(MotionExpr { motion: MotionKind::WordForward, count: 1 }),
        outer_count: 1,
    };
    assert_eq!(complete(&toks), Some(expected));
}

#[test]
fn s_after_indent_op_is_invalid() {
    let toks = [Token::Op(Operator::Indent), Token::SurroundAddPrefix, Token::SurroundChar('"')];
    assert!(invalid(&toks));
}

#[test]
fn counts_multiply_into_operator_and_motion() {
    // `2d3w`: outer count 2, motion count 3.
    let toks = [
        Token::Count(2),
        Token::Op(Operator::Delete),
        Token::Count(3),
        Token::Motion(MotionKind::WordForward),
    ];
    assert_eq!(
        complete(&toks),
        Some(Expr::Op {
            op: Operator::Delete,
            target: Target::Motion(MotionExpr { motion: MotionKind::WordForward, count: 3 }),
            outer_count: 2,
        })
    );
}

#[test]
fn digits_fold_into_one_count_and_saturate() {
    let toks = [Token::Count(1), Token::Count(2), Token::Motion(MotionKind::Down)];
    assert_eq!(complete(&toks), Some(Expr::Motion(MotionExpr { motion: MotionKind::Down, count: 12 })));
    let mut huge = vec![Token::Count(9); 15];
    huge.push(Token::Motion(MotionKind::Down));
    assert_eq!(
        complete(&huge),
        Some(Expr::Motion(MotionExpr { motion: MotionKind::Down, count: u32::MAX }))
    );
}
