use vorto::lsp_coordinator::{
    TextEdit,
    Diagnostic, LspClientInfo, LspCoordinator, LspEvent, LspEventOutcome, LspRequestKind, Position, Range,
};
use vorto::mux::JsonValue;
use vorto::picker::Severity;

fn info(pid: u32, completion: &[&str], signature: &[&str]) -> LspClientInfo {
    LspClientInfo {
        pid,
        root_uri: "file:///work".to_string(),
        language_id: "rust".to_string(),
        completion_triggers: completion.iter().map(|s| s.to_string()).collect(),
        signature_help_triggers: signature.iter().map(|s| s.to_string()).collect(),
    }
}

fn diag(line: u32, character: u32, message: &str) -> Diagnostic {
    let p = Position { line, character };
    Diagnostic { range: Range { start: p, end: p }, severity: Severity::Error, message: message.to_string(), source: None }
}

fn messages(v: &[Diagnostic]) -> Vec<String> {
    v.iter().map(|d| d.message.clone()).collect()
}

fn coordinator_with(key: &str, uri: &str) -> LspCoordinator {
    let mut c = LspCoordinator::new("/work".to_string());
    assert!(c.attach_client(key, info(7, &[".", ":"], &["("])));
    assert!(c.did_open(key, "rust", uri));
    c
}

#[test]
fn new_coordinator_is_detached() {
    let c = LspCoordinator::new("/work".to_string());
    assert!(!c.has_lsp());
    assert_eq!(c.current_uri(), None);
    assert_eq!(c.startup_cwd(), "/work");
    assert_eq!(c.last_synced_version(), 0);
    assert!(c.current_diagnostics().is_none());
    assert!(c.all_diagnostics().is_empty());
}

#[test]
fn synced_version_is_recorded() {
    let mut c = LspCoordinator::new("/work".to_string());
    c.set_last_synced_version(42);
    assert_eq!(c.last_synced_version(), 42);
}

#[test]
fn attaching_the_same_key_twice_is_refused() {
    let mut c = LspCoordinator::new("/work".to_string());
    assert!(c.attach_client("rust::ra", info(1, &[], &[])));
    assert!(!c.attach_client("rust::ra", info(2, &[], &[])));
    assert!(c.has_client("rust::ra"));
    assert!(!c.has_client("go::gopls"));
    let rows = c.running_clients();
    assert_eq!(rows.len(), 1);
    assert_eq!(rows[0].pid, 1);
}

#[test]
fn did_open_is_sent_once_per_client_and_document() {
    let mut c = LspCoordinator::new("/work".to_string());
    c.attach_client("rust::ra", info(1, &[], &[]));
    assert!(c.needs_did_open("rust::ra", "file:///a.rs"));
    assert!(c.did_open("rust::ra", "rust", "file:///a.rs"));
    assert!(!c.needs_did_open("rust::ra", "file:///a.rs"));
    assert!(!c.did_open("rust::ra", "rust", "file:///a.rs"));
    assert!(c.has_lsp());
    assert_eq!(c.current_uri(), Some("file:///a.rs"));
    // A client that is not running gets nothing sent, but still counts
    // for the current document.
    assert!(!c.needs_did_open("go::gopls", "file:///a.rs"));
    let rows = c.running_clients();
    assert_eq!(rows[0].open_count, 1);
}

#[test]
fn detach_keeps_documents_open() {
    let mut c = coordinator_with("rust::ra", "file:///a.rs");
    c.detach_current();
    assert!(!c.has_lsp());
    assert_eq!(c.current_uri(), None);
    assert!(!c.needs_did_open("rust::ra", "file:///a.rs"));
    assert_eq!(c.running_clients()[0].open_count, 1);
}

#[test]
fn trigger_characters_come_from_current_clients() {
    let mut c = coordinator_with("rust::ra", "file:///a.rs");
    assert!(c.is_completion_trigger_char('.'));
    assert!(c.is_completion_trigger_char(':'));
    assert!(!c.is_completion_trigger_char('('));
    assert!(c.is_signature_help_trigger_char('('));
    assert!(!c.is_signature_help_trigger_char('.'));
    c.detach_current();
    assert!(!c.is_completion_trigger_char('.'));
}

#[test]
fn add_current_client_is_idempotent() {
    let mut c = coordinator_with("rust::ra", "file:///a.rs");
    c.attach_client("rust::other", info(2, &[], &[]));
    c.add_current_client("rust::other");
    c.add_current_client("rust::other");
    let t = c.did_change().unwrap();
    assert_eq!(t.uri, "file:///a.rs");
    assert_eq!(t.clients, vec!["rust::ra".to_string(), "rust::other".to_string()]);
}

#[test]
fn sync_targets_skip_clients_that_are_not_running() {
    let mut c = coordinator_with("rust::ra", "file:///a.rs");
    c.add_current_client("rust::gone");
    let t = c.did_save().unwrap();
    assert_eq!(t.clients, vec!["rust::ra".to_string()]);
    c.detach_current();
    assert!(c.did_change().is_none());
}

#[test]
fn diagnostics_merge_across_clients_sorted_by_position() {
    let mut c = coordinator_with("rust::ra", "file:///a.rs");
    let out = c.handle_event(LspEvent::Diagnostics {
        client: "rust::ra".to_string(),
        uri: "file:///a.rs".to_string(),
        items: vec![diag(5, 0, "late"), diag(1, 4, "b"), diag(1, 2, "a")],
    });
    assert!(matches!(out, LspEventOutcome::Nothing));
    c.handle_event(LspEvent::Diagnostics {
        client: "rust::clippy".to_string(),
        uri: "file:///a.rs".to_string(),
        items: vec![diag(1, 2, "a-too"), diag(3, 0, "mid")],
    });
    let got = c.current_diagnostics().unwrap();
    assert_eq!(messages(&got), vec!["a", "a-too", "b", "mid", "late"]);
}

#[test]
fn empty_publish_clears_only_that_clients_slice() {
    let mut c = coordinator_with("rust::ra", "file:///a.rs");
    c.handle_event(LspEvent::Diagnostics {
        client: "rust::ra".to_string(),
        uri: "file:///a.rs".to_string(),
        items: vec![diag(0, 0, "ra")],
    });
    c.handle_event(LspEvent::Diagnostics {
        client: "rust::clippy".to_string(),
        uri: "file:///a.rs".to_string(),
        items: vec![diag(0, 1, "clippy")],
    });
    c.handle_event(LspEvent::Diagnostics {
        client: "rust::ra".to_string(),
        uri: "file:///a.rs".to_string(),
        items: vec![],
    });
    assert_eq!(messages(&c.current_diagnostics().unwrap()), vec!["clippy"]);
    c.handle_event(LspEvent::Diagnostics {
        client: "rust::clippy".to_string(),
        uri: "file:///a.rs".to_string(),
        items: vec![],
    });
    assert!(c.current_diagnostics().is_none());
    assert!(c.all_diagnostics().is_empty());
}

#[test]
fn republishing_replaces_the_old_list() {
    let mut c = coordinator_with("rust::ra", "file:///a.rs");
    for text in ["old", "new"] {
        c.handle_event(LspEvent::Diagnostics {
            client: "rust::ra".to_string(),
            uri: "file:///a.rs".to_string(),
            items: vec![diag(0, 0, text)],
        });
    }
    assert_eq!(messages(&c.current_diagnostics().unwrap()), vec!["new"]);
}

#[test]
fn all_diagnostics_lists_documents_in_name_order() {
    let mut c = coordinator_with("rust::ra", "file:///a.rs");
    for uri in ["file:///c.rs", "file:///a.rs", "file:///b.rs"] {
        c.handle_event(LspEvent::Diagnostics {
            client: "rust::ra".to_string(),
            uri: uri.to_string(),
            items: vec![diag(2, 0, "two"), diag(1, 0, "one")],
        });
    }
    let all = c.all_diagnostics();
    let names: Vec<&str> = all.iter().map(|(u, _)| u.as_str()).collect();
    assert_eq!(names, vec!["file:///a.rs", "file:///b.rs", "file:///c.rs"]);
    for (_, items) in &all {
        assert_eq!(messages(items), vec!["one", "two"]);
    }
}

#[test]
fn message_level_one_is_an_error() {
    let mut c = LspCoordinator::new("/".to_string());
    match c.handle_event(LspEvent::Message { level: 1, text: "bad".to_string() }) {
        LspEventOutcome::ErrorMessage(m) => assert_eq!(m, "bad"),
        other => panic!("unexpected {:?}", other),
    }
    match c.handle_event(LspEvent::Message { level: 3, text: "fyi".to_string() }) {
        LspEventOutcome::InfoMessage(m) => assert_eq!(m, "fyi"),
        other => panic!("unexpected {:?}", other),
    }
}

#[test]
fn error_from_a_running_client_drops_it() {
    let mut c = coordinator_with("rust::ra", "file:///a.rs");
    c.handle_event(LspEvent::Diagnostics {
        client: "rust::ra".to_string(),
        uri: "file:///a.rs".to_string(),
        items: vec![diag(0, 0, "x")],
    });
    match c.handle_event(LspEvent::Error { client: "rust::ra".to_string(), message: "eof".to_string() }) {
        LspEventOutcome::ErrorMessage(m) => assert_eq!(m, "lsp: eof"),
        other => panic!("unexpected {:?}", other),
    }
    assert!(!c.has_client("rust::ra"));
    assert!(!c.has_lsp());
    assert!(c.current_diagnostics().is_none());
    assert!(c.running_clients().is_empty());
    // Its reader thread reporting again is expected, not an error.
    let again = c.handle_event(LspEvent::Error { client: "rust::ra".to_string(), message: "eof".to_string() });
    assert!(matches!(again, LspEventOutcome::Nothing));
}

#[test]
fn closing_the_last_document_shuts_the_client_down() {
    let mut c = coordinator_with("rust::ra", "file:///a.rs");
    c.did_open("rust::ra", "rust", "file:///b.rs");
    c.handle_event(LspEvent::Diagnostics {
        client: "rust::ra".to_string(),
        uri: "file:///a.rs".to_string(),
        items: vec![diag(0, 0, "x")],
    });
    let first = c.close_uri("file:///a.rs");
    assert_eq!(first.did_close, vec!["rust::ra".to_string()]);
    assert!(first.shut_down.is_empty());
    assert!(c.has_client("rust::ra"));
    assert!(c.all_diagnostics().is_empty());
    assert_eq!(c.current_uri(), Some("file:///b.rs"));
    let second = c.close_uri("file:///b.rs");
    assert_eq!(second.did_close, vec!["rust::ra".to_string()]);
    assert_eq!(second.shut_down, vec!["rust::ra".to_string()]);
    assert!(!c.has_client("rust::ra"));
    assert_eq!(c.current_uri(), None);
}

#[test]
fn closing_an_unknown_document_changes_nothing() {
    let mut c = coordinator_with("rust::ra", "file:///a.rs");
    let r = c.close_uri("file:///zzz.rs");
    assert!(r.did_close.is_empty());
    assert!(r.shut_down.is_empty());
    assert!(c.has_lsp());
}

#[test]
fn fanned_out_request_completes_after_every_answer() {
    let mut c = coordinator_with("rust::ra", "file:///a.rs");
    c.attach_client("rust::other", info(2, &[], &[]));
    c.add_current_client("rust::other");
    let fan = c.fan_out_targets().unwrap();
    assert_eq!(fan.group, 0);
    assert_eq!(fan.clients, vec!["rust::ra".to_string(), "rust::other".to_string()]);
    c.register_requests(fan.group, LspRequestKind::Hover, vec![("rust::ra".to_string(), 11), ("rust::other".to_string(), 4)]);
    match c.handle_event(LspEvent::Response { client: "rust::ra".to_string(), id: 11, error: None }) {
        LspEventOutcome::Response { group, kind, accumulate, complete, .. } => {
            assert_eq!(group, 0);
            assert_eq!(kind, LspRequestKind::Hover);
            assert!(accumulate);
            assert!(!complete);
        }
        other => panic!("unexpected {:?}", other),
    }
    match c.handle_event(LspEvent::Response { client: "rust::other".to_string(), id: 4, error: Some("no".to_string()) }) {
        LspEventOutcome::Response { accumulate, complete, client, .. } => {
            assert_eq!(client, "rust::other");
            assert!(!accumulate);
            assert!(complete);
        }
        other => panic!("unexpected {:?}", other),
    }
    // A stray answer matches nothing.
    let stray = c.handle_event(LspEvent::Response { client: "rust::ra".to_string(), id: 11, error: None });
    assert!(matches!(stray, LspEventOutcome::Nothing));
    assert_eq!(c.fan_out_targets().unwrap().group, 1);
}

#[test]
fn no_fan_out_without_current_clients() {
    let mut c = LspCoordinator::new("/".to_string());
    assert!(c.fan_out_targets().is_none());
}

#[test]
fn dropping_a_client_settles_its_requests() {
    let mut c = coordinator_with("rust::ra", "file:///a.rs");
    c.attach_client("rust::other", info(2, &[], &[]));
    c.add_current_client("rust::other");
    let fan = c.fan_out_targets().unwrap();
    c.register_requests(fan.group, LspRequestKind::References, vec![("rust::ra".to_string(), 1), ("rust::other".to_string(), 1)]);
    c.handle_event(LspEvent::Error { client: "rust::other".to_string(), message: "gone".to_string() });
    match c.handle_event(LspEvent::Response { client: "rust::ra".to_string(), id: 1, error: None }) {
        LspEventOutcome::Response { complete, .. } => assert!(complete),
        other => panic!("unexpected {:?}", other),
    }
}

#[test]
fn single_target_falls_back_to_the_first_current_client() {
    let mut c = coordinator_with("rust::ra", "file:///a.rs");
    assert_eq!(c.single_target("rust::ra"), Some("rust::ra".to_string()));
    assert_eq!(c.single_target("rust::gone"), Some("rust::ra".to_string()));
    let g = c.register_single("rust::ra".to_string(), 9, LspRequestKind::CompletionResolve);
    assert_eq!(g, 0);
    match c.handle_event(LspEvent::Response { client: "rust::ra".to_string(), id: 9, error: None }) {
        LspEventOutcome::Response { group, kind, complete, .. } => {
            assert_eq!(group, 0);
            assert_eq!(kind, LspRequestKind::CompletionResolve);
            assert!(complete);
        }
        other => panic!("unexpected {:?}", other),
    }
    c.detach_current();
    assert_eq!(c.single_target("rust::gone"), None);
}

fn edit(text: &str) -> TextEdit {
    let p = Position { line: 0, character: 0 };
    TextEdit { range: Range { start: p, end: p }, new_text: text.to_string() }
}

#[test]
fn workspace_edit_splits_current_buffer_from_other_files() {
    let c = coordinator_with("rust::ra", "file:///a.rs");
    let changes = vec![
        ("file:///b.rs".to_string(), vec![edit("b1"), edit("b2")]),
        ("file:///a.rs".to_string(), vec![edit("a1")]),
        ("file:///c.rs".to_string(), vec![edit("c1")]),
    ];
    let (result, others) = c.split_workspace_edit(changes);
    assert_eq!(result.files_touched, 3);
    assert_eq!(result.total_edits, 4);
    assert_eq!(result.current_buffer_edits.len(), 1);
    assert_eq!(result.current_buffer_edits[0].new_text, "a1");
    let names: Vec<&str> = others.iter().map(|(u, _)| u.as_str()).collect();
    assert_eq!(names, vec!["file:///b.rs", "file:///c.rs"]);
}

#[test]
fn workspace_edit_without_current_document_writes_everything() {
    let c = LspCoordinator::new("/".to_string());
    let (result, others) = c.split_workspace_edit(vec![("file:///a.rs".to_string(), vec![edit("x")])]);
    assert!(result.current_buffer_edits.is_empty());
    assert_eq!(result.total_edits, 1);
    assert_eq!(others.len(), 1);
}

fn to_serde(v: &JsonValue) -> serde_json::Value {
    match v {
        JsonValue::Null => serde_json::Value::Null,
        JsonValue::Bool(b) => serde_json::Value::Bool(*b),
        JsonValue::Number(Some(n)) => serde_json::Value::from(*n),
        JsonValue::Number(None) => serde_json::Value::Null,
        JsonValue::Str(s) => serde_json::Value::String(s.clone()),
        JsonValue::Array(a) => serde_json::Value::Array(a.iter().map(to_serde).collect()),
        JsonValue::Object(m) => {
            let mut out = serde_json::Map::new();
            for (k, x) in m {
                out.insert(k.clone(), to_serde(x));
            }
            serde_json::Value::Object(out)
        }
    }
}

fn parse(s: &str) -> serde_json::Value {
    serde_json::from_str(s).unwrap()
}

#[test]
fn hover_request_carries_the_position() {
    let mut c = coordinator_with("rust::ra", "file:///a.rs");
    let q = c.request_hover(vorto::cursor::Cursor { row: 3, col: 7 }).unwrap();
    assert_eq!(q.method, "textDocument/hover");
    assert_eq!(q.group, 0);
    assert_eq!(q.clients, vec!["rust::ra".to_string()]);
    assert_eq!(
        to_serde(&q.params),
        parse(r#"{"textDocument":{"uri":"file:///a.rs"},"position":{"line":3,"character":7}}"#)
    );
    let q = c.request_jump("textDocument/definition", vorto::cursor::Cursor { row: 0, col: 0 }).unwrap();
    assert_eq!(q.method, "textDocument/definition");
    assert_eq!(q.group, 1);
}

#[test]
fn requests_need_a_current_client() {
    let mut c = LspCoordinator::new("/".to_string());
    assert!(c.request_hover(vorto::cursor::Cursor { row: 0, col: 0 }).is_none());
    assert!(c.request_references(vorto::cursor::Cursor { row: 0, col: 0 }).is_none());
}

#[test]
fn references_rename_and_completion_add_their_context() {
    let mut c = coordinator_with("rust::ra", "file:///a.rs");
    let at = vorto::cursor::Cursor { row: 1, col: 2 };
    let q = c.request_references(at).unwrap();
    assert_eq!(
        to_serde(&q.params),
        parse(r#"{"textDocument":{"uri":"file:///a.rs"},"position":{"line":1,"character":2},"context":{"includeDeclaration":true}}"#)
    );
    let q = c.request_rename("renamed".to_string(), at).unwrap();
    assert_eq!(q.method, "textDocument/rename");
    assert_eq!(
        to_serde(&q.params),
        parse(r#"{"textDocument":{"uri":"file:///a.rs"},"position":{"line":1,"character":2},"newName":"renamed"}"#)
    );
    let q = c.request_completion(at, Some(':')).unwrap();
    assert_eq!(
        to_serde(&q.params),
        parse(r#"{"textDocument":{"uri":"file:///a.rs"},"position":{"line":1,"character":2},"context":{"triggerKind":2,"triggerCharacter":":"}}"#)
    );
    let q = c.request_completion(at, None).unwrap();
    assert_eq!(
        to_serde(&q.params),
        parse(r#"{"textDocument":{"uri":"file:///a.rs"},"position":{"line":1,"character":2},"context":{"triggerKind":1}}"#)
    );
}

#[test]
fn code_action_sends_the_diagnostics_on_the_row() {
    let mut c = coordinator_with("rust::ra", "file:///a.rs");
    let mut spanning = diag(1, 0, "spans");
    spanning.range.end = Position { line: 3, character: 1 };
    spanning.source = Some("rustc".to_string());
    spanning.severity = Severity::Warning;
    let ds = vec![diag(0, 0, "above"), spanning, diag(2, 5, "on-row")];
    let q = c.request_code_action(vorto::cursor::Cursor { row: 2, col: 4 }, &ds).unwrap();
    assert_eq!(q.method, "textDocument/codeAction");
    assert_eq!(
        to_serde(&q.params),
        parse(
            r#"{"textDocument":{"uri":"file:///a.rs"},
                "range":{"start":{"line":2,"character":4},"end":{"line":2,"character":4}},
                "context":{"diagnostics":[
                    {"range":{"start":{"line":1,"character":0},"end":{"line":3,"character":1}},"severity":2,"message":"spans","source":"rustc"},
                    {"range":{"start":{"line":2,"character":5},"end":{"line":2,"character":5}},"severity":1,"message":"on-row","source":null}
                ]}}"#
        )
    );
}

#[test]
fn failed_did_open_send_changes_nothing() {
    let mut c = LspCoordinator::new("/work".to_string());
    c.attach_client("rust::ra", info(1, &[], &[]));
    assert!(!c.finish_did_open("rust::ra", "rust", "file:///a.rs", false));
    assert!(!c.has_lsp());
    assert_eq!(c.current_uri(), None);
    assert!(c.needs_did_open("rust::ra", "file:///a.rs"));
    assert!(c.finish_did_open("rust::ra", "rust", "file:///a.rs", true));
    assert_eq!(c.current_uri(), Some("file:///a.rs"));
    assert!(!c.needs_did_open("rust::ra", "file:///a.rs"));
    // Already open: no send is needed, so the outcome of none is ignored.
    c.detach_current();
    assert!(c.finish_did_open("rust::ra", "rust", "file:///a.rs", false));
    assert_eq!(c.current_uri(), Some("file:///a.rs"));
}

#[test]
fn diagnostics_at_the_same_place_keep_publish_order() {
    let mut c = LspCoordinator::new("/".to_string());
    c.handle_event(LspEvent::Diagnostics {
        client: "rust::ra".to_string(),
        uri: "file:///a.rs".to_string(),
        items: vec![diag(3, 1, "first"), diag(0, 0, "top"), diag(3, 1, "second")],
    });
    c.handle_event(LspEvent::Diagnostics {
        client: "rust::clippy".to_string(),
        uri: "file:///a.rs".to_string(),
        items: vec![diag(3, 1, "third")],
    });
    let all = c.all_diagnostics();
    assert_eq!(all.len(), 1);
    assert_eq!(messages(&all[0].1), vec!["top", "first", "second", "third"]);
}
