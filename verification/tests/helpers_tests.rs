use vorto::action::Object;
use vorto::buffer_ref::BufferRef;
use vorto::commands::{client_key, format_dirty_list, parse_grammar_command, parse_save_path, remap_path, GrammarCommand};
use vorto::cursor::Cursor;
use vorto::editing::{first_non_blank, innermost_fold_at, tab_insertion, trim_blank_edges, word_under_cursor, TabInsert};
use vorto::keys::{KeyCode, KeyInput};
use vorto::action::MotionKind;
use vorto::picker::{buffer_picker_row, is_searchable_ext, severity_tag, Severity};
use vorto::surround::{object_for, pair_for};
use vorto::visual::visual_motion_for;

fn lines(v: &[&str]) -> Vec<String> {
    v.iter().map(|s| s.to_string()).collect()
}

#[test]
fn first_non_blank_skips_indent() {
    assert_eq!(first_non_blank("    foo"), 4);
    assert_eq!(first_non_blank("\tbar"), 1);
    assert_eq!(first_non_blank("   "), 0);
    assert_eq!(first_non_blank(""), 0);
}

#[test]
fn word_under_cursor_takes_the_whole_word() {
    let l = lines(&["let foo_bar = 1;"]);
    assert_eq!(word_under_cursor(&l, Cursor { row: 0, col: 6 }).as_deref(), Some("foo_bar"));
    assert_eq!(word_under_cursor(&l, Cursor { row: 0, col: 3 }), None);
    assert_eq!(word_under_cursor(&l, Cursor { row: 0, col: 40 }), None);
    assert_eq!(word_under_cursor(&l, Cursor { row: 0, col: 0 }).as_deref(), Some("let"));
}

#[test]
fn trim_blank_edges_pulls_in_blank_rows() {
    let l = lines(&["", "  ", "code", "more", "", ""]);
    let (lo, hi) = trim_blank_edges(&l, Cursor { row: 0, col: 0 }, Cursor { row: 5, col: 0 });
    assert_eq!(lo, Cursor { row: 2, col: 0 });
    assert_eq!(hi, Cursor { row: 4, col: 0 });
    let (lo, hi) = trim_blank_edges(&l, Cursor { row: 0, col: 0 }, Cursor { row: 4, col: 0 });
    assert_eq!((lo, hi), (Cursor { row: 2, col: 0 }, Cursor { row: 4, col: 0 }));
    let (lo, hi) = trim_blank_edges(&l, Cursor { row: 1, col: 0 }, Cursor { row: 3, col: 4 });
    assert_eq!((lo, hi), (Cursor { row: 2, col: 0 }, Cursor { row: 3, col: 4 }));
    // Mid-line and all-blank ranges come back unchanged.
    let mid = (Cursor { row: 2, col: 1 }, Cursor { row: 3, col: 2 });
    assert_eq!(trim_blank_edges(&l, mid.0, mid.1), mid);
    let blank = (Cursor { row: 0, col: 0 }, Cursor { row: 1, col: 2 });
    assert_eq!(trim_blank_edges(&l, blank.0, blank.1), blank);
}

#[test]
fn innermost_fold_prefers_the_smallest_then_the_first() {
    let regions = [(0, 10), (2, 5), (3, 6), (8, 9)];
    assert_eq!(innermost_fold_at(&regions, 4), Some((2, 5)));
    assert_eq!(innermost_fold_at(&regions, 8), Some((8, 9)));
    assert_eq!(innermost_fold_at(&regions, 11), None);
    assert_eq!(innermost_fold_at(&[], 0), None);
}

#[test]
fn severity_badges() {
    assert_eq!(severity_tag(Severity::Error), 'E');
    assert_eq!(severity_tag(Severity::Warning), 'W');
    assert_eq!(severity_tag(Severity::Info), 'I');
    assert_eq!(severity_tag(Severity::Hint), 'H');
}

#[test]
fn searchable_files() {
    assert!(is_searchable_ext("src/main.rs"));
    assert!(is_searchable_ext("Makefile"));
    assert!(is_searchable_ext("a/b/Cargo.lock"));
    assert!(is_searchable_ext("notes.md"));
    assert!(!is_searchable_ext("image.png"));
    assert!(!is_searchable_ext("LICENSE"));
    assert!(!is_searchable_ext("dir.rs/binary"));
    assert!(!is_searchable_ext("x.RS"));
}

#[test]
fn surround_pairs_and_objects() {
    assert_eq!(pair_for('b'), Some(("(".to_string(), ")".to_string())));
    assert_eq!(pair_for('}'), Some(("{".to_string(), "}".to_string())));
    assert_eq!(pair_for('`'), Some(("`".to_string(), "`".to_string())));
    assert_eq!(pair_for('x'), None);
    assert_eq!(object_for('>'), Some(Object::AngleBracket));
    assert_eq!(object_for('\''), Some(Object::SingleQuote));
    assert_eq!(object_for('q'), None);
}

#[test]
fn visual_motions() {
    let k = |c: char, ctrl: bool| KeyInput::press(KeyCode::Char(c), false, ctrl, false);
    assert_eq!(visual_motion_for(&k('w', false)), Some(MotionKind::WordForward));
    assert_eq!(visual_motion_for(&k('d', true)), Some(MotionKind::HalfPageDown));
    assert_eq!(visual_motion_for(&k('w', true)), None);
    assert_eq!(visual_motion_for(&k('x', false)), None);
    assert_eq!(visual_motion_for(&KeyInput::press(KeyCode::End, false, false, false)), Some(MotionKind::LineEnd));
}

#[test]
fn command_arguments() {
    assert_eq!(parse_save_path(""), None);
    assert_eq!(parse_save_path("out.txt").as_deref(), Some("out.txt"));
    assert_eq!(client_key("rust", "rust-analyzer"), "rust::rust-analyzer");
}

#[test]
fn dirty_list_names_three_then_counts() {
    let refs = vec![
        BufferRef::File("/a/b/one.rs".into()),
        BufferRef::Scratch(0),
        BufferRef::Scratch(4),
        BufferRef::File("two.rs".into()),
        BufferRef::File("three.rs".into()),
    ];
    assert_eq!(format_dirty_list(&refs), "one.rs, [scratch], [scratch 4] +2 more");
    assert_eq!(format_dirty_list(&refs[..1]), "one.rs");
    assert_eq!(format_dirty_list(&[]), "");
}

#[test]
fn remap_follows_renames_and_moves() {
    assert_eq!(remap_path("/p/a.rs", "/p/a.rs", "/p/b.rs").as_deref(), Some("/p/b.rs"));
    assert_eq!(remap_path("/p/dir/x.rs", "/p/dir", "/q/new").as_deref(), Some("/q/new/x.rs"));
    assert_eq!(remap_path("/p/dirx/x.rs", "/p/dir", "/q/new"), None);
}

#[test]
fn grammar_subcommands_resolve() {
    assert!(matches!(parse_grammar_command(""), GrammarCommand::List));
    assert!(matches!(parse_grammar_command("  ls "), GrammarCommand::List));
    match parse_grammar_command(" add  rust  toml ") {
        GrammarCommand::Install(rest) => assert_eq!(rest, "rust  toml"),
        _ => panic!("expected install"),
    }
    match parse_grammar_command("uninstall python") {
        GrammarCommand::Remove(rest) => assert_eq!(rest, "python"),
        _ => panic!("expected remove"),
    }
    match parse_grammar_command("frob x") {
        GrammarCommand::Unknown(cmd) => assert_eq!(cmd, "frob"),
        _ => panic!("expected unknown"),
    }
}

#[test]
fn relative_uri_label_strips_the_project_root() {
    assert_eq!(vorto::picker::relative_uri_label("/work/src/a.rs", "/work"), "src/a.rs");
    assert_eq!(vorto::picker::relative_uri_label("/elsewhere/b.rs", "/work"), "/elsewhere/b.rs");
    // Component-wise: `/workshop` does not lie under `/work`.
    assert_eq!(vorto::picker::relative_uri_label("/workshop/c.rs", "/work"), "/workshop/c.rs");
}

#[test]
fn location_label_is_one_based() {
    assert_eq!(vorto::picker::format_location_label("/work/src/a.rs", "/work", 0, 4), "src/a.rs:1:5");
    assert_eq!(vorto::picker::format_location_label("/tmp/x.rs", "/work", 41, 0), "/tmp/x.rs:42:1");
}

#[test]
fn tab_reaches_the_next_tab_stop() {
    assert_eq!(tab_insertion("    foo", 4, false, 4), TabInsert::Spaces(4));
    assert_eq!(tab_insertion("ab", 2, false, 4), TabInsert::Spaces(2));
    assert_eq!(tab_insertion("ab", 3, false, 0), TabInsert::Spaces(1));
    assert_eq!(tab_insertion("ab", 1, true, 4), TabInsert::Tab);
    // A tab in the indentation keeps the row tab-indented.
    assert_eq!(tab_insertion(" \tfoo", 5, false, 4), TabInsert::Tab);
    // A tab after the indentation does not count.
    assert_eq!(tab_insertion("x\ty", 3, false, 4), TabInsert::Spaces(1));
}

#[test]
fn diagnostics_picker_entries() {
    let p = vorto::lsp_coordinator::Position { line: 9, character: 0 };
    let d = vorto::lsp_coordinator::Diagnostic {
        range: vorto::lsp_coordinator::Range { start: p, end: p },
        severity: Severity::Warning,
        message: "unused".to_string(),
        source: None,
    };
    let ds = vec![d];
    assert_eq!(vorto::picker::diagnostic_entries(&ds, None), vec!["[W] 10".to_string()]);
    assert_eq!(vorto::picker::diagnostic_entries(&ds, Some("src/a.rs")), vec!["[W] src/a.rs:10".to_string()]);
}

#[test]
fn buffer_picker_rows_mark_current_changed_and_dirty() {
    assert_eq!(buffer_picker_row("src/a.rs", true, true, true, false, false, true), "% + src/a.rs");
    assert_eq!(buffer_picker_row("src/a.rs", true, true, false, true, true, false), "%~  src/a.rs");
    assert_eq!(buffer_picker_row("src/b.rs", true, false, true, true, false, true), " ~  src/b.rs");
    assert_eq!(buffer_picker_row("src/b.rs", true, false, false, false, true, false), " ~+ src/b.rs");
    assert_eq!(buffer_picker_row("[scratch]", false, false, false, false, true, true), "  + [scratch]");
    assert_eq!(buffer_picker_row("[scratch]", false, true, false, true, false, false), "%   [scratch]");
}
