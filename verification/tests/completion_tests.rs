use vorto::completion::{dedup_completion, finalize_hover, owes_signature_help, plan_accept, CompletionChoice};
use vorto::cursor::Cursor;
use vorto::lsp_coordinator::{Position, Range, TextEdit};

fn pos(line: u32, character: u32) -> Position {
    Position { line, character }
}

fn edit(s: Position, e: Position, text: &str) -> TextEdit {
    TextEdit { range: Range { start: s, end: e }, new_text: text.to_string() }
}

fn item(label: &str, kind: u8) -> CompletionChoice {
    CompletionChoice { label: label.to_string(), kind, insert_text: None, text_edit: None, additional_text_edits: vec![] }
}

#[test]
fn callable_gets_parens_and_cursor_between_them() {
    let plan = plan_accept(&item("foo", 3), Cursor { row: 2, col: 4 }, Cursor { row: 2, col: 6 });
    assert_eq!(plan.edits.len(), 1);
    assert_eq!(plan.edits[0].new_text, "foo()");
    assert_eq!(plan.edits[0].range, Range { start: pos(2, 4), end: pos(2, 6) });
    assert_eq!((plan.row, plan.col), (2, 8));
    assert!(plan.needs_resolve);
}

#[test]
fn non_callable_or_parenthesised_text_is_left_alone() {
    let plan = plan_accept(&item("field", 5), Cursor { row: 0, col: 0 }, Cursor { row: 0, col: 2 });
    assert_eq!(plan.edits[0].new_text, "field");
    assert_eq!(plan.col, 5);
    let mut it = item("f", 3);
    it.insert_text = Some("f(x)".to_string());
    let plan = plan_accept(&it, Cursor { row: 0, col: 0 }, Cursor { row: 0, col: 1 });
    assert_eq!(plan.edits[0].new_text, "f(x)");
    assert_eq!(plan.col, 4);
}

#[test]
fn server_edit_starting_left_of_the_prefix_wins() {
    let mut it = item("bar", 5);
    it.text_edit = Some(edit(pos(2, 3), pos(2, 5), ".bar"));
    let plan = plan_accept(&it, Cursor { row: 2, col: 4 }, Cursor { row: 2, col: 6 });
    assert_eq!(plan.edits[0].range, Range { start: pos(2, 3), end: pos(2, 6) });
    assert_eq!(plan.edits[0].new_text, ".bar");
    assert_eq!(plan.col, 7);
}

#[test]
fn auto_import_above_shifts_the_cursor_row() {
    let mut it = item("HashMap", 7);
    it.additional_text_edits = vec![edit(pos(0, 0), pos(0, 0), "use std::collections::HashMap;\n")];
    let plan = plan_accept(&it, Cursor { row: 5, col: 8 }, Cursor { row: 5, col: 10 });
    assert_eq!(plan.edits.len(), 2);
    assert_eq!(plan.edits[0].new_text, "use std::collections::HashMap;\n");
    assert_eq!(plan.edits[1].new_text, "HashMap");
    assert_eq!((plan.row, plan.col), (6, 15));
    assert!(!plan.needs_resolve);
}

#[test]
fn multi_line_replacement_lands_on_its_last_line() {
    let mut it = item("snippet", 15);
    it.insert_text = Some("if x {\n    y".to_string());
    let plan = plan_accept(&it, Cursor { row: 1, col: 0 }, Cursor { row: 1, col: 2 });
    assert_eq!((plan.row, plan.col), (2, 5));
}

#[test]
fn duplicate_offers_collapse_to_the_first() {
    let mut a = item("len", 2);
    a.insert_text = Some("len".to_string());
    let b = item("len", 2); // same label, kind and text (its label)
    let c = item("len", 3); // another kind
    let mut d = item("len", 2);
    d.insert_text = Some("len2".to_string()); // another text
    let kept = dedup_completion(vec![a, b, c, d, item("is_empty", 2)]);
    let keys: Vec<(String, u8, Option<String>)> = kept.iter().map(|c| (c.label.clone(), c.kind, c.insert_text.clone())).collect();
    assert_eq!(
        keys,
        vec![
            ("len".to_string(), 2, Some("len".to_string())),
            ("len".to_string(), 3, None),
            ("len".to_string(), 2, Some("len2".to_string())),
            ("is_empty".to_string(), 2, None),
        ]
    );
}

#[test]
fn hover_texts_join_with_a_rule() {
    assert_eq!(finalize_hover(&vec![]), None);
    assert_eq!(finalize_hover(&vec!["a".to_string()]), Some("a".to_string()));
    assert_eq!(finalize_hover(&vec!["a".to_string(), "b".to_string()]), Some("a\n\n---\n\nb".to_string()));
}

#[test]
fn appended_parens_owe_signature_help() {
    let plan = plan_accept(&item("foo", 2), Cursor { row: 0, col: 0 }, Cursor { row: 0, col: 1 });
    assert!(plan.signature_help);
    assert!(owes_signature_help(&item("foo", 2)));
    assert!(owes_signature_help(&item("Foo", 4)));
    assert!(!owes_signature_help(&item("foo", 5)));
    assert!(!owes_signature_help(&item("foo", 1)));
    assert!(!owes_signature_help(&item("", 3)));
    let mut it = item("f", 3);
    it.insert_text = Some("f(x)".to_string());
    assert!(!owes_signature_help(&it));
    assert!(!plan_accept(&it, Cursor { row: 0, col: 0 }, Cursor { row: 0, col: 1 }).signature_help);
    it.insert_text = Some("a\nb".to_string());
    assert!(!owes_signature_help(&it));
}
