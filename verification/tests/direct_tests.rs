use vorto::action::{DirectKind, FocusDir, FuzzyKind, Mode, PromptKind};
use vorto::buffer_ref::BufferRef;
use vorto::cursor::Cursor;
use vorto::direct::{cleared_cursors_text, plan_direct, DirectPlan, ScrollAnchor, classify_command_line, parse_usize_str, unknown_command_text, CommandLine, substitute_pattern, substitution_report, cursor_count_message, lsp_status_all, parse_goto_line, plan_cursor_below, plan_quit, CursorBelow, QuitPlan};

fn lines(v: &[&str]) -> Vec<String> {
    v.iter().map(|s| s.to_string()).collect()
}

#[test]
fn quit_refused_while_active_buffer_is_dirty() {
    match plan_quit(true, &[]) {
        QuitPlan::Refuse(m) => assert_eq!(m, "unsaved changes (use :q!)"),
        QuitPlan::Quit => panic!("quit with unsaved changes"),
    }
}

#[test]
fn quit_refused_names_dirty_sleeping_buffers() {
    let sleeping = vec![
        (BufferRef::File("/w/src/a.rs".to_string()), true),
        (BufferRef::File("/w/src/b.rs".to_string()), false),
        (BufferRef::Scratch(2), true),
    ];
    match plan_quit(false, &sleeping) {
        QuitPlan::Refuse(m) => assert_eq!(m, "unsaved changes in a.rs, [scratch 2] (use :q!)"),
        QuitPlan::Quit => panic!("quit with unsaved changes"),
    }
}

#[test]
fn quit_allowed_when_everything_is_saved() {
    let sleeping = vec![(BufferRef::File("/w/a.rs".to_string()), false)];
    assert!(matches!(plan_quit(false, &sleeping), QuitPlan::Quit));
    assert!(matches!(plan_quit(false, &[]), QuitPlan::Quit));
}

#[test]
fn cursor_below_clamps_to_the_shorter_line() {
    let ls = lines(&["hello world", "hi", ""]);
    let r = plan_cursor_below(Cursor { row: 0, col: 8 }, &ls, &[]);
    assert_eq!(r, CursorBelow::Added(Cursor { row: 1, col: 1 }));
    let r = plan_cursor_below(Cursor { row: 1, col: 1 }, &ls, &[]);
    assert_eq!(r, CursorBelow::Added(Cursor { row: 2, col: 0 }));
}

#[test]
fn cursor_below_refused_on_last_line_or_occupied_spot() {
    let ls = lines(&["ab", "cd"]);
    assert_eq!(plan_cursor_below(Cursor { row: 1, col: 0 }, &ls, &[]), CursorBelow::NoLineBelow);
    let extras = vec![Cursor { row: 1, col: 1 }];
    assert_eq!(plan_cursor_below(Cursor { row: 0, col: 1 }, &ls, &extras), CursorBelow::Occupied);
}

#[test]
fn cursor_count_message_counts() {
    assert_eq!(cursor_count_message(3), "3 cursors");
}

#[test]
fn goto_line_reads_a_positive_number() {
    assert_eq!(parse_goto_line("42"), Some(42));
    assert_eq!(parse_goto_line("+7"), Some(7));
    assert_eq!(parse_goto_line("0"), None);
    assert_eq!(parse_goto_line(""), None);
    assert_eq!(parse_goto_line("+"), None);
    assert_eq!(parse_goto_line("12a"), None);
    assert_eq!(parse_goto_line(" 3"), None);
    assert_eq!(parse_goto_line("-3"), None);
    assert_eq!(parse_goto_line("99999999999999999999999"), None);
}

#[test]
fn goto_line_matches_str_parse() {
    for s in ["1", "007", "+0", "18446744073709551615", "18446744073709551616", "4294967296"] {
        let expected = s.parse::<usize>().ok().filter(|n| *n >= 1);
        assert_eq!(parse_goto_line(s), expected, "{s}");
    }
}

#[test]
fn lsp_status_scope() {
    assert!(lsp_status_all("all"));
    assert!(lsp_status_all("  a "));
    assert!(!lsp_status_all(""));
    assert!(!lsp_status_all("al"));
    assert!(!lsp_status_all("alle"));
}

#[test]
fn substitute_falls_back_to_last_search() {
    assert_eq!(substitute_pattern("foo", "bar"), Ok("foo".to_string()));
    assert_eq!(substitute_pattern("", "bar"), Ok("bar".to_string()));
    assert_eq!(substitute_pattern("", ""), Err("no previous search pattern".to_string()));
}

#[test]
fn substitution_report_counts_and_pluralises() {
    assert_eq!(substitution_report("x", 0, 0), Err("pattern not found: x".to_string()));
    assert_eq!(substitution_report("x", 1, 1), Ok("1 substitution on 1 line".to_string()));
    assert_eq!(substitution_report("x", 5, 2), Ok("5 substitutions on 2 lines".to_string()));
    assert_eq!(substitution_report("x", 3, 1), Ok("3 substitutions on 1 line".to_string()));
}

#[test]
fn command_line_number_goes_to_line() {
    assert_eq!(classify_command_line("42"), CommandLine::GotoLine);
    assert_eq!(classify_command_line("0"), CommandLine::GotoLine);
    assert_eq!(classify_command_line("+7"), CommandLine::GotoLine);
}

#[test]
fn command_line_splits_head_and_trimmed_rest() {
    assert_eq!(
        classify_command_line("w  notes.txt  "),
        CommandLine::Named { head: "w".to_string(), rest: "notes.txt".to_string() }
    );
    assert_eq!(classify_command_line("q!"), CommandLine::Named { head: "q!".to_string(), rest: String::new() });
    assert_eq!(
        classify_command_line("agent\tfix it"),
        CommandLine::Named { head: "agent\tfix".to_string(), rest: "it".to_string() }
    );
    assert_eq!(classify_command_line(""), CommandLine::Empty);
    assert_eq!(classify_command_line(" w"), CommandLine::Empty);
    assert_eq!(unknown_command_text("frob"), "unknown command: frob");
}

#[test]
fn parse_usize_str_matches_std() {
    for s in ["0", "12", "+3", "", "+", "-1", "1a", "18446744073709551616", "007"] {
        assert_eq!(parse_usize_str(s), s.parse::<usize>().ok(), "{s}");
    }
}

#[test]
fn direct_plans_follow_counts_and_arguments() {
    let none: [Cursor; 0] = [];
    assert_eq!(plan_direct(DirectKind::YankLine, 3, "", 8, 10, &none), DirectPlan::YankLines { lo: 8, hi: 9 });
    assert_eq!(plan_direct(DirectKind::YankLine, 0, "", 2, 10, &none), DirectPlan::YankLines { lo: 2, hi: 2 });
    assert_eq!(
        plan_direct(DirectKind::JoinLines, 4, "", 0, 10, &none),
        DirectPlan::Edit { kind: DirectKind::JoinLines, times: 4, then_insert: false }
    );
    assert_eq!(
        plan_direct(DirectKind::SubstituteChar, 2, "", 0, 10, &none),
        DirectPlan::Edit { kind: DirectKind::SubstituteChar, times: 2, then_insert: true }
    );
    assert_eq!(
        plan_direct(DirectKind::OpenLineBelow, 5, "", 0, 10, &none),
        DirectPlan::Edit { kind: DirectKind::OpenLineBelow, times: 1, then_insert: true }
    );
    assert_eq!(plan_direct(DirectKind::Paste, 3, "", 0, 10, &none), DirectPlan::Paste { count: 3 });
    assert_eq!(plan_direct(DirectKind::ReplaceChar { ch: 'z' }, 2, "", 0, 10, &none), DirectPlan::ReplaceChars { ch: 'z', times: 2 });
    assert_eq!(plan_direct(DirectKind::ViewportTopAtCursor, 1, "", 0, 10, &none), DirectPlan::Scroll(ScrollAnchor::Top));
    assert_eq!(plan_direct(DirectKind::EnterMode(Mode::Insert), 1, "", 0, 10, &none), DirectPlan::EnterMode(Mode::Insert));
    assert_eq!(
        plan_direct(DirectKind::BufferList, 1, "", 0, 10, &none),
        DirectPlan::OpenPrompt(PromptKind::Fuzzy(FuzzyKind::Buffers))
    );
    assert_eq!(plan_direct(DirectKind::Quit, 1, "", 0, 10, &none), DirectPlan::QuitChecked);
    assert_eq!(plan_direct(DirectKind::QuitForce, 1, "", 0, 10, &none), DirectPlan::Quit);
    assert_eq!(plan_direct(DirectKind::FocusWindow { dir: FocusDir::Left }, 1, "", 0, 10, &none), DirectPlan::FocusWindow { dir: FocusDir::Left });
    assert_eq!(
        plan_direct(DirectKind::GotoDiagnostic { forward: false }, 3, "", 0, 10, &none),
        DirectPlan::GotoDiagnostic { forward: false, count: 3 }
    );
}

#[test]
fn direct_plans_with_arguments() {
    let none: [Cursor; 0] = [];
    assert_eq!(
        plan_direct(DirectKind::SaveAndQuit, 1, "", 0, 1, &none),
        DirectPlan::Save { path: None, then_quit: true, force: false }
    );
    assert_eq!(
        plan_direct(DirectKind::SaveForce, 1, "out.txt", 0, 1, &none),
        DirectPlan::Save { path: Some("out.txt".to_string()), then_quit: false, force: true }
    );
    assert_eq!(
        plan_direct(DirectKind::Open, 1, "", 0, 1, &none),
        DirectPlan::Message { error: true, text: "missing path".to_string() }
    );
    assert_eq!(plan_direct(DirectKind::Open, 1, "a.rs", 0, 1, &none), DirectPlan::OpenPath("a.rs".to_string()));
    assert_eq!(plan_direct(DirectKind::GotoLine, 1, "12", 0, 1, &none), DirectPlan::GotoLine(12));
    assert_eq!(
        plan_direct(DirectKind::GotoLine, 1, "0", 0, 1, &none),
        DirectPlan::Message { error: true, text: "usage: :goto <line>".to_string() }
    );
    assert_eq!(
        plan_direct(DirectKind::GotoDefinition, 1, "", 0, 1, &none),
        DirectPlan::LspJump { method: "textDocument/definition".to_string(), label: "definition".to_string() }
    );
    assert_eq!(plan_direct(DirectKind::LspStatus, 1, " all ", 0, 1, &none), DirectPlan::LspStatus { all: true });
    assert_eq!(plan_direct(DirectKind::LspStatus, 1, "", 0, 1, &none), DirectPlan::LspStatus { all: false });
    assert_eq!(
        plan_direct(DirectKind::ToggleComment, 2, "", 3, 10, &none),
        DirectPlan::CommentLines { rows: vec![3, 4] }
    );
    assert_eq!(
        plan_direct(DirectKind::MultiCursorPop, 1, "", 0, 1, &none),
        DirectPlan::Message { error: false, text: "no extra cursor to remove".to_string() }
    );
    let extras = [Cursor { row: 1, col: 0 }, Cursor { row: 2, col: 0 }];
    assert_eq!(plan_direct(DirectKind::MultiCursorPop, 1, "", 0, 5, &extras), DirectPlan::PopCursor);
    assert_eq!(plan_direct(DirectKind::MultiCursorClear, 1, "", 0, 5, &extras), DirectPlan::ClearCursors { n: 2 });
    assert_eq!(
        plan_direct(DirectKind::MultiCursorClear, 1, "", 0, 5, &none),
        DirectPlan::Message { error: false, text: "no extra cursors".to_string() }
    );
    assert_eq!(cleared_cursors_text(2), "cleared 2 extra cursors");
}
