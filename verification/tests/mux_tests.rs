use vorto::mux::{parse_json, zellij_panes_from_output, collect_zellij_panes, focused_pane_id, parse_tmux_pane_id, tmux_pane_listed, zellij_pane_listed, JsonValue};

fn obj(members: Vec<(&str, JsonValue)>) -> JsonValue {
    JsonValue::Object(members.into_iter().map(|(k, v)| (k.to_string(), v)).collect())
}

fn num(n: u64) -> JsonValue {
    JsonValue::Number(Some(n))
}

#[test]
fn collect_zellij_panes_finds_panes_in_nested_tabs() {
    // Shape: tabs (each with an `id`) wrapping a `panes` array. Only the
    // pane objects (those with `is_focused`) should be collected.
    let json = parse_json(
        r#"{"tabs": [{"id": 0, "panes": [
            {"id": 1, "is_focused": false, "is_plugin": true, "title": "status"},
            {"id": 2, "is_focused": true, "is_plugin": false, "title": "agent"}
        ]}]}"#,
    )
    .unwrap();
    let mut panes = Vec::new();
    collect_zellij_panes(&json, &mut panes);
    assert_eq!(panes.len(), 2);
    let focused = panes.iter().find(|p| p.focused && !p.plugin).unwrap();
    assert_eq!(focused.id, "2");
}

#[test]
fn collect_zellij_panes_handles_flat_array() {
    let json = parse_json(r#"[{"id": 5, "is_focused": true, "is_plugin": false}]"#).unwrap();
    let mut panes = Vec::new();
    collect_zellij_panes(&json, &mut panes);
    assert_eq!(panes.len(), 1);
    assert_eq!(panes[0].id, "5");
    assert!(panes[0].focused);
}

#[test]
fn zellij_output_text_to_panes() {
    let panes = zellij_panes_from_output(
        r#"[{"id": 3, "is_focused": false, "is_plugin": false}, {"id": 4, "is_focused": true, "is_plugin": false}]"#,
    )
    .unwrap();
    assert_eq!(panes.iter().map(|p| p.id.clone()).collect::<Vec<_>>(), vec!["3", "4"]);
    assert_eq!(focused_pane_id(&panes).as_deref(), Some("4"));
    assert!(zellij_panes_from_output("not json").is_none());
    assert!(zellij_panes_from_output("").is_none());
    assert_eq!(zellij_panes_from_output("[]").map(|p| p.len()), Some(0));
}

#[test]
fn parse_json_reads_numbers_and_members() {
    match parse_json(r#"{"b": -1, "a": [1.5, 7, null, "x", true]}"#).unwrap() {
        JsonValue::Object(m) => {
            assert_eq!(m.len(), 2);
            assert!(m.iter().any(|(k, v)| k == "b" && matches!(v, JsonValue::Number(None))));
            assert!(m.iter().any(|(k, v)| k == "a" && matches!(v, JsonValue::Array(a) if a.len() == 5
                && matches!(a[1], JsonValue::Number(Some(7)))
                && matches!(a[0], JsonValue::Number(None)))));
        }
        _ => panic!("expected an object"),
    }
}

#[test]
fn objects_without_numeric_id_or_focus_key_are_not_panes() {
    let json = JsonValue::Array(vec![
        obj(vec![("id", JsonValue::Str("7".into())), ("is_focused", JsonValue::Bool(true))]),
        obj(vec![("id", num(8))]),
        obj(vec![("id", JsonValue::Number(None)), ("is_focused", JsonValue::Bool(true))]),
        obj(vec![("id", num(9)), ("is_focused", JsonValue::Null)]),
    ]);
    let mut panes = Vec::new();
    collect_zellij_panes(&json, &mut panes);
    assert_eq!(panes.len(), 1);
    assert_eq!(panes[0].id, "9");
    assert!(!panes[0].focused && !panes[0].plugin);
}

#[test]
fn focused_pane_and_liveness() {
    let json = JsonValue::Array(vec![
        obj(vec![("id", num(1)), ("is_focused", JsonValue::Bool(true)), ("is_plugin", JsonValue::Bool(true))]),
        obj(vec![("id", num(3)), ("is_focused", JsonValue::Bool(true))]),
    ]);
    let mut panes = Vec::new();
    collect_zellij_panes(&json, &mut panes);
    assert_eq!(focused_pane_id(&panes).as_deref(), Some("3"));
    assert!(zellij_pane_listed(&panes, "1"));
    assert!(!zellij_pane_listed(&panes, "4"));
}

#[test]
fn tmux_output_parsing() {
    assert_eq!(parse_tmux_pane_id("%7\n").as_deref(), Some("%7"));
    assert_eq!(parse_tmux_pane_id("  %12 \r\nnext\n").as_deref(), Some("%12"));
    assert_eq!(parse_tmux_pane_id(""), None);
    assert_eq!(parse_tmux_pane_id("\n%3\n"), None);
    assert!(tmux_pane_listed("%1\n%7\n%9\n", "%7"));
    assert!(!tmux_pane_listed("%1\n%70\n", "%7"));
    assert!(!tmux_pane_listed("%1\n", ""));
}
