use vorto::action::{Expr, Token, LastFind, MotionExpr, MotionKind, Object, Operator, Scope, Target};
use vorto::cursor::Cursor;
use vorto::plan::{plan_motion, plan_op, plan_visual_op, range_effect, MotionPlan, OpPlan, RangeEffect, VisualOpPlan};
use vorto::parse::{classify, Parse};
use vorto::visual::Selection;

fn c(row: usize, col: usize) -> Cursor {
    Cursor { row, col }
}

fn m(motion: MotionKind, count: u32) -> MotionExpr {
    MotionExpr { motion, count }
}

#[test]
fn counts_repeat_steps_and_searches() {
    assert_eq!(plan_motion(m(MotionKind::Down, 3), None), (None, MotionPlan::Repeat { motion: MotionKind::Down, times: 3 }));
    assert_eq!(plan_motion(m(MotionKind::SearchPrev, 2), None), (None, MotionPlan::JumpSearch { reverse: true, times: 2 }));
    assert_eq!(plan_motion(m(MotionKind::LineEnd, 4), None), (None, MotionPlan::Once(MotionKind::LineEnd)));
    assert_eq!(plan_motion(m(MotionKind::SearchWordBack, 1), None), (None, MotionPlan::WordSearch { forward: false }));
    assert_eq!(plan_motion(m(MotionKind::WordEnd, 2), None), (None, MotionPlan::Target { motion: MotionKind::WordEnd, count: 2 }));
}

#[test]
fn gg_and_g_with_a_count_go_to_that_line() {
    assert_eq!(plan_motion(m(MotionKind::FileStart, 0), None).1, MotionPlan::FileStart);
    assert_eq!(plan_motion(m(MotionKind::FileStart, 1), None).1, MotionPlan::GotoLine(1));
    assert_eq!(plan_motion(m(MotionKind::FileStart, 5), None).1, MotionPlan::GotoLine(5));
    assert_eq!(plan_motion(m(MotionKind::FileEnd, 0), None).1, MotionPlan::FileEnd);
    assert_eq!(plan_motion(m(MotionKind::FileEnd, 1), None).1, MotionPlan::GotoLine(1));
    assert_eq!(plan_motion(m(MotionKind::FileEnd, 20), None).1, MotionPlan::GotoLine(20));
}

#[test]
fn repeat_find_needs_a_previous_find() {
    assert_eq!(plan_motion(m(MotionKind::RepeatFind { reverse: false }, 1), None), (None, MotionPlan::NoPreviousFind));
    let lf = LastFind { ch: 'x', forward: true, till: false };
    assert_eq!(
        plan_motion(m(MotionKind::RepeatFind { reverse: true }, 1), Some(lf)),
        (None, MotionPlan::Target { motion: MotionKind::FindChar { ch: 'x', forward: false, till: false }, count: 1 })
    );
    let (update, plan) = plan_motion(m(MotionKind::FindChar { ch: 'q', forward: true, till: true }, 2), None);
    assert_eq!(update, Some(LastFind { ch: 'q', forward: true, till: true }));
    assert_eq!(plan, MotionPlan::Target { motion: MotionKind::FindChar { ch: 'q', forward: true, till: true }, count: 2 });
}

#[test]
fn linewise_operators() {
    assert_eq!(plan_op(Operator::Delete, Target::LineWise, 3, None, true, c(2, 0), 10, &[]).1, OpPlan::DeleteLines { times: 3 });
    assert_eq!(plan_op(Operator::Yank, Target::LineWise, 1, None, true, c(2, 0), 10, &[]).1, OpPlan::YankLines { times: 1 });
    assert_eq!(
        plan_op(Operator::Change, Target::LineWise, 2, None, true, c(2, 0), 10, &[]).1,
        OpPlan::ChangeLinesUnsupported { times: 2 }
    );
    assert_eq!(
        plan_op(Operator::Indent, Target::LineWise, 3, None, true, c(8, 4), 10, &[]).1,
        OpPlan::ShiftLines { right: true, lo: 8, hi: 9 }
    );
    assert_eq!(
        plan_op(Operator::Dedent, Target::LineWise, 1, None, true, c(2, 4), 10, &[]).1,
        OpPlan::ShiftLines { right: false, lo: 2, hi: 2 }
    );
    assert_eq!(
        plan_op(Operator::Comment, Target::LineWise, 2, None, true, c(2, 4), 10, &[]).1,
        OpPlan::CommentLines { block: false, rows: vec![2, 3] }
    );
    assert_eq!(
        plan_op(Operator::BlockComment, Target::LineWise, 2, None, true, c(2, 4), 10, &[c(7, 0)]).1,
        OpPlan::CommentLines { block: true, rows: vec![2, 7] }
    );
}

#[test]
fn operators_over_motions_matches_and_objects() {
    assert_eq!(
        plan_op(Operator::Delete, Target::Motion(m(MotionKind::WordEnd, 2)), 3, None, true, c(0, 0), 5, &[]),
        (None, OpPlan::OverMotion { motion: MotionKind::WordEnd, count: 2, inclusive: true, times: 3 })
    );
    assert_eq!(
        plan_op(Operator::Yank, Target::Motion(m(MotionKind::WordForward, 1)), 1, None, true, c(0, 0), 5, &[]).1,
        OpPlan::OverMotion { motion: MotionKind::WordForward, count: 1, inclusive: false, times: 1 }
    );
    assert_eq!(
        plan_op(Operator::Delete, Target::Motion(m(MotionKind::RepeatFind { reverse: false }, 1)), 1, None, true, c(0, 0), 5, &[]).1,
        OpPlan::NoPreviousFind
    );
    assert_eq!(
        plan_op(Operator::Change, Target::SearchMatch { reverse: true }, 2, None, true, c(0, 0), 5, &[]).1,
        OpPlan::OverSearchMatch { forward: false, times: 2 }
    );
    assert_eq!(
        plan_op(Operator::Change, Target::SearchMatch { reverse: true }, 1, None, false, c(0, 0), 5, &[]).1,
        OpPlan::OverSearchMatch { forward: true, times: 1 }
    );
    assert_eq!(
        plan_op(Operator::Delete, Target::TextObject { scope: Scope::Inner, object: Object::Word }, 1, None, true, c(0, 0), 5, &[]).1,
        OpPlan::OverObject { scope: Scope::Inner, object: Object::Word, times: 1 }
    );
}

#[test]
fn range_effects() {
    assert_eq!(range_effect(Operator::Delete, c(1, 2), c(1, 5)), RangeEffect::Delete { start: c(1, 2), end: c(1, 5) });
    assert_eq!(range_effect(Operator::Indent, c(5, 0), c(2, 3)), RangeEffect::Shift { right: true, lo: 2, hi: 5 });
    assert_eq!(range_effect(Operator::Comment, c(5, 0), c(3, 3)), RangeEffect::Comment { rows: vec![3, 4, 5] });
    assert_eq!(
        range_effect(Operator::BlockComment, c(4, 1), c(3, 3)),
        RangeEffect::BlockComment { rows: vec![3, 4], lo: c(3, 3), hi: c(4, 1) }
    );
}

#[test]
fn visual_operator_plans() {
    let ls: Vec<String> = vec!["one".into(), "three".into(), "x".into()];
    let ch = Selection::Char { from: c(0, 1), to: c(1, 2) };
    assert_eq!(
        plan_visual_op(ch, Operator::Yank, c(1, 3), &ls),
        VisualOpPlan::YankRange { start: c(0, 1), end: c(1, 3), cursor: c(0, 1) }
    );
    assert_eq!(plan_visual_op(ch, Operator::Comment, c(1, 3), &ls), VisualOpPlan::LineComment { a: 0, b: 1 });
    let line = Selection::Line { from_row: 2, to_row: 1 };
    assert_eq!(
        plan_visual_op(line, Operator::Yank, c(0, 0), &ls),
        VisualOpPlan::YankLines { from_row: 2, to_row: 1, cursor: c(2, 0) }
    );
    assert_eq!(
        plan_visual_op(line, Operator::BlockComment, c(0, 0), &ls),
        VisualOpPlan::BlockComment { lo: c(1, 0), hi: c(2, 1), a: 1, b: 2 }
    );
    let block = Selection::Block { r0: 0, c0: 1, r1: 2, c1: 2 };
    assert_eq!(
        plan_visual_op(block, Operator::Yank, c(0, 0), &ls),
        VisualOpPlan::YankBlock { r0: 0, c0: 1, r1: 2, c1: 2, cursor: c(0, 1) }
    );
    assert_eq!(plan_visual_op(block, Operator::Change, c(0, 0), &ls), VisualOpPlan::ChangeBlock { r0: 0, c0: 1, r1: 2, c1: 2 });
    assert_eq!(plan_visual_op(block, Operator::BlockComment, c(0, 0), &ls), VisualOpPlan::LineComment { a: 0, b: 2 });
}

fn motion_of(tokens: &[Token]) -> MotionExpr {
    match classify(tokens) {
        Parse::Complete(Expr::Motion(m)) => m,
        other => panic!("not a motion: {other:?}"),
    }
}

#[test]
fn typed_count_one_g_goes_to_line_one() {
    let bare = motion_of(&[Token::Motion(MotionKind::FileEnd)]);
    assert_eq!(plan_motion(bare, None).1, MotionPlan::FileEnd);
    let one = motion_of(&[Token::Count(1), Token::Motion(MotionKind::FileEnd)]);
    assert_eq!(plan_motion(one, None).1, MotionPlan::GotoLine(1));
    let bare_gg = motion_of(&[Token::Motion(MotionKind::FileStart)]);
    assert_eq!(plan_motion(bare_gg, None).1, MotionPlan::FileStart);
}
