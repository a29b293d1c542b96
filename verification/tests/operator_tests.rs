use vorto::action::Operator;
use vorto::cursor::Cursor;
use vorto::operator::{
    comment_target_rows, comment_unavailable_text, line_block_comment_range,
    linewise_shift_rows, range_comment_rows, rows_between, shift_row_span,
};

fn c(row: usize, col: usize) -> Cursor {
    Cursor { row, col }
}

fn lines(v: &[&str]) -> Vec<String> {
    v.iter().map(|s| s.to_string()).collect()
}

#[test]
fn shift_rows_count_is_clamped_to_buffer_end() {
    assert_eq!(linewise_shift_rows(2, 10, 3), (2, 4));
    assert_eq!(linewise_shift_rows(8, 10, 5), (8, 9));
    assert_eq!(linewise_shift_rows(4, 10, 0), (4, 4));
    assert_eq!(linewise_shift_rows(4, 10, 1), (4, 4));
    assert_eq!(linewise_shift_rows(0, 0, 3), (0, 0));
}

#[test]
fn comment_rows_follow_count_then_stop_at_end() {
    assert_eq!(comment_target_rows(1, 10, 3, &[]), vec![1, 2, 3]);
    assert_eq!(comment_target_rows(8, 10, 5, &[]), vec![8, 9]);
    assert_eq!(comment_target_rows(3, 10, 0, &[]), Vec::<usize>::new());
    assert_eq!(comment_target_rows(12, 10, 2, &[]), Vec::<usize>::new());
}

#[test]
fn comment_rows_with_extra_cursors_use_every_cursor_row() {
    let extras = [c(5, 2), c(1, 0)];
    assert_eq!(comment_target_rows(3, 10, 7, &extras), vec![3, 5, 1]);
}

#[test]
fn shift_span_orders_the_ends() {
    assert_eq!(shift_row_span(c(4, 1), c(2, 9)), (2, 4));
    assert_eq!(shift_row_span(c(2, 9), c(4, 1)), (2, 4));
    assert_eq!(shift_row_span(c(3, 5), c(3, 2)), (3, 3));
}

#[test]
fn rows_between_is_inclusive() {
    assert_eq!(rows_between(2, 5), vec![2, 3, 4, 5]);
    assert_eq!(rows_between(4, 4), vec![4]);
    assert_eq!(rows_between(5, 2), Vec::<usize>::new());
    assert_eq!(range_comment_rows(c(6, 0), c(4, 3)), vec![4, 5, 6]);
}

#[test]
fn comment_errors_name_the_missing_token() {
    assert_eq!(
        comment_unavailable_text(Operator::Comment).as_deref(),
        Some("no comment token for this buffer")
    );
    assert_eq!(
        comment_unavailable_text(Operator::BlockComment).as_deref(),
        Some("no block- or line-comment tokens for this buffer")
    );
    assert_eq!(comment_unavailable_text(Operator::Delete), None);
}

#[test]
fn line_block_comment_spans_whole_lines() {
    let ls = lines(&["one", "two", "héllo"]);
    assert_eq!(line_block_comment_range(2, 0, &ls), (c(0, 0), c(2, 5)));
    assert_eq!(line_block_comment_range(1, 1, &ls), (c(1, 0), c(1, 3)));
}
