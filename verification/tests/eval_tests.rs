use vorto::action::{DirectKind, Expr, MotionExpr, MotionKind, Operator, Target};
use vorto::cursor::Cursor;
use vorto::eval::{first_diverging_row, override_count};

#[test]
fn override_count_leaves_expr_alone_when_no_prefix() {
    let e = Expr::Direct { kind: DirectKind::DeleteCharUnderCursor, count: 3 };
    let got = override_count(e.clone(), 1);
    assert_eq!(got, e);
    let got_zero = override_count(e.clone(), 0);
    assert_eq!(got_zero, e);
}

#[test]
fn override_count_replaces_each_expr_shape() {
    let direct = Expr::Direct { kind: DirectKind::Paste, count: 1 };
    let got = override_count(direct, 5);
    assert!(matches!(got, Expr::Direct { kind: DirectKind::Paste, count: 5 }));

    let op = Expr::Op {
        op: Operator::Delete,
        target: Target::Motion(MotionExpr { motion: MotionKind::WordForward, count: 1 }),
        outer_count: 1,
    };
    let got = override_count(op, 4);
    match got {
        Expr::Op { outer_count, .. } => assert_eq!(outer_count, 4),
        _ => panic!("expected Op"),
    }

    let m = Expr::Motion(MotionExpr { motion: MotionKind::Down, count: 1 });
    let got = override_count(m, 7);
    match got {
        Expr::Motion(mx) => assert_eq!(mx.count, 7),
        _ => panic!("expected Motion"),
    }
}

#[test]
fn first_diverging_row_finds_the_first_difference() {
    assert_eq!(first_diverging_row(&[1, 2, 3], &[1, 5, 3]), 1);
    assert_eq!(first_diverging_row(&[1, 2], &[1, 2, 3]), 2);
    assert_eq!(first_diverging_row(&[], &[4]), 0);
}

#[test]
fn insertion_shifts_processed_cursors_right_of_the_edit() {
    let mut positions = vec![Cursor { row: 0, col: 0 }, Cursor { row: 0, col: 4 }];
    let already = vec![(1usize, Cursor { row: 0, col: 4 })];
    vorto::eval::adjust_already_processed(&mut positions, &already, &[5, 3], &[7, 3], Cursor { row: 0, col: 1 });
    assert_eq!(positions, vec![Cursor { row: 0, col: 0 }, Cursor { row: 0, col: 6 }]);
}

#[test]
fn deleted_row_shifts_cursors_below_up() {
    let mut positions = vec![Cursor { row: 0, col: 0 }, Cursor { row: 2, col: 2 }];
    let already = vec![(1usize, Cursor { row: 2, col: 2 })];
    vorto::eval::adjust_already_processed(&mut positions, &already, &[1, 2, 3], &[1, 3], Cursor { row: 1, col: 0 });
    assert_eq!(positions[1], Cursor { row: 1, col: 2 });
}

#[test]
fn positions_past_the_new_end_are_clamped() {
    let mut positions = vec![Cursor { row: 2, col: 1 }];
    let already = vec![(0usize, Cursor { row: 2, col: 1 })];
    vorto::eval::adjust_already_processed(&mut positions, &already, &[3, 3, 3], &[3, 3], Cursor { row: 0, col: 0 });
    assert_eq!(positions[0], Cursor { row: 1, col: 1 });
}

#[test]
fn a_cursor_named_twice_is_shifted_twice() {
    let mut positions = vec![Cursor { row: 0, col: 0 }, Cursor { row: 0, col: 4 }];
    let already = vec![(1usize, Cursor { row: 0, col: 4 }), (1usize, Cursor { row: 0, col: 4 })];
    vorto::eval::adjust_already_processed(&mut positions, &already, &[5, 3], &[7, 3], Cursor { row: 0, col: 1 });
    assert_eq!(positions[1], Cursor { row: 0, col: 7 });
}
