use vorto::cursor::Cursor;
use vorto::goto::{cycle_target, goto_conflict, goto_diagnostic};
use vorto::lsp_coordinator::{Diagnostic, Position, Range};
use vorto::picker::Severity;

fn diag(line: u32, character: u32, message: &str) -> Diagnostic {
    let p = Position { line, character };
    Diagnostic { range: Range { start: p, end: p }, severity: Severity::Warning, message: message.to_string(), source: None }
}

fn at(row: usize, col: usize) -> Cursor {
    Cursor { row, col }
}

#[test]
fn cycle_forward_picks_first_strictly_after() {
    let keys = [(1, 0), (3, 4), (3, 8), (7, 0)];
    assert_eq!(cycle_target(&keys, 3, 4, true, 1), 2);
    assert_eq!(cycle_target(&keys, 0, 0, true, 1), 0);
    assert_eq!(cycle_target(&keys, 7, 0, true, 1), 0);
    assert_eq!(cycle_target(&keys, 0, 0, true, 3), 2);
    assert_eq!(cycle_target(&keys, 0, 0, true, 6), 1);
    assert_eq!(cycle_target(&keys, 0, 0, true, 0), 0);
}

#[test]
fn cycle_backward_picks_last_strictly_before() {
    let keys = [(1, 0), (3, 4), (3, 8), (7, 0)];
    assert_eq!(cycle_target(&keys, 3, 8, false, 1), 1);
    assert_eq!(cycle_target(&keys, 1, 0, false, 1), 3);
    assert_eq!(cycle_target(&keys, 9, 0, false, 1), 3);
    assert_eq!(cycle_target(&keys, 9, 0, false, 2), 2);
    assert_eq!(cycle_target(&keys, 9, 0, false, 5), 3);
    assert_eq!(cycle_target(&keys, 3, 4, false, 3), 2);
}

#[test]
fn count_larger_by_length_lands_in_same_place() {
    let keys = [(2, 0), (5, 0), (9, 0)];
    for count in 1..5u32 {
        assert_eq!(cycle_target(&keys, 4, 0, true, count + 3), cycle_target(&keys, 4, 0, true, count));
        assert_eq!(cycle_target(&keys, 4, 0, false, count + 3), cycle_target(&keys, 4, 0, false, count));
    }
}

#[test]
fn goto_diagnostic_reports_empty_list() {
    match goto_diagnostic(&[], at(0, 0), true, 1, 10) {
        Err(msg) => assert_eq!(msg, "no diagnostics"),
        Ok(_) => panic!("expected no diagnostics"),
    }
}

#[test]
fn goto_diagnostic_lands_on_start_and_shows_message() {
    let diags = [diag(1, 2, "unused"), diag(4, 0, "type error"), diag(40, 3, "past end")];
    let l = goto_diagnostic(&diags, at(1, 2), true, 1, 10).ok().unwrap();
    assert_eq!(l.index, 1);
    assert_eq!(l.cursor, at(4, 0));
    assert_eq!(l.message, "type error");
    let l = goto_diagnostic(&diags, at(5, 0), true, 1, 10).ok().unwrap();
    assert_eq!(l.index, 2);
    assert_eq!(l.cursor, at(9, 3));
    let l = goto_diagnostic(&diags, at(1, 2), false, 1, 10).ok().unwrap();
    assert_eq!(l.index, 2);
    assert_eq!(l.message, "past end");
}

#[test]
fn goto_conflict_wraps_and_counts_from_one() {
    let starts = [3, 10, 20];
    let l = goto_conflict(&starts, 10, true, 1, 30).ok().unwrap();
    assert_eq!(l.index, 2);
    assert_eq!(l.cursor, at(20, 0));
    assert_eq!(l.message, "conflict 3/3 at line 21");
    let l = goto_conflict(&starts, 25, true, 1, 30).ok().unwrap();
    assert_eq!(l.message, "conflict 1/3 at line 4");
    let l = goto_conflict(&starts, 10, false, 1, 30).ok().unwrap();
    assert_eq!(l.cursor, at(3, 0));
    let l = goto_conflict(&starts, 3, false, 1, 30).ok().unwrap();
    assert_eq!(l.message, "conflict 3/3 at line 21");
}

#[test]
fn goto_conflict_reports_none() {
    match goto_conflict(&[], 0, true, 1, 1) {
        Err(msg) => assert_eq!(msg, "no conflict markers in this buffer"),
        Ok(_) => panic!("expected no conflicts"),
    }
}
