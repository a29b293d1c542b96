use vorto::cursor::Cursor;
use vorto::multi_cursor::{collect_cursors, cursor_rows, scatter_cursors, shift_after_dedent};

fn c(row: usize, col: usize) -> Cursor {
    Cursor { row, col }
}

#[test]
fn collect_tags_primary_then_extras() {
    assert_eq!(collect_cursors(c(1, 1), &[c(3, 0), c(2, 5)]), vec![(0, c(1, 1)), (1, c(3, 0)), (2, c(2, 5))]);
    assert_eq!(collect_cursors(c(0, 0), &[]), vec![(0, c(0, 0))]);
}

#[test]
fn scatter_drops_coincident_cursors() {
    let (p, ex) = scatter_cursors(&[c(1, 2), c(3, 4), c(1, 2), c(3, 4), c(5, 0)]);
    assert_eq!(p, c(1, 2));
    assert_eq!(ex, vec![c(3, 4), c(5, 0)]);
    let (p, ex) = scatter_cursors(&[c(0, 0)]);
    assert_eq!(p, c(0, 0));
    assert!(ex.is_empty());
}

#[test]
fn dedent_shift_uses_each_rows_removed_count() {
    let removed = [(1, 4), (3, 2)];
    let out = shift_after_dedent(&[c(1, 6), c(1, 2), c(2, 5), c(3, 2)], &removed);
    assert_eq!(out, vec![c(1, 2), c(1, 0), c(2, 5), c(3, 0)]);
}

#[test]
fn cursor_rows_are_unique_and_ascending() {
    assert_eq!(cursor_rows(&[c(5, 0), c(2, 3), c(5, 9), c(0, 0), c(2, 1)]), vec![0, 2, 5]);
    assert_eq!(cursor_rows(&[]), Vec::<usize>::new());
}
