use vorto::cursor::Cursor;
use vorto::document::{Buffer, Snapshot};
use vorto::sleeping::SleepingBuffer;

fn buf_from(lines: &[&str]) -> Buffer {
    let mut b = Buffer::new();
    b.lines = lines.iter().map(|s| s.to_string()).collect();
    b
}

#[test]
fn freeze_thaw_roundtrip_preserves_lines() {
    let mut b = buf_from(&["hello", "world", "foo bar baz"]);
    b.dirty = true;
    b.yank = "yanked".to_string();
    b.version = 42;
    b.disk_base = Some(vec!["hello".to_string(), "world".to_string()]);

    let frozen = SleepingBuffer::freeze(b);
    let thawed = frozen.thaw();
    assert_eq!(thawed.lines, vec!["hello", "world", "foo bar baz"]);
    assert!(thawed.dirty);
    assert_eq!(thawed.yank, "yanked");
    assert_eq!(thawed.version, 42);
    assert_eq!(thawed.disk_base.as_deref(), Some(&["hello".to_string(), "world".to_string()][..]));
}

#[test]
fn tiny_buffer_stays_uncompressed() {
    let b = buf_from(&["x"]);
    let frozen = SleepingBuffer::freeze(b);
    assert!(!frozen.is_compressed());
}

#[test]
fn over_threshold_compresses_everything_even_tiny_snapshots() {
    let mut b = buf_from(&["short main"]);
    for i in 0..200 {
        b.undo_stack.push(Snapshot {
            lines: vec![format!("snapshot {i:03} of fifty-something bytes per row")],
            cursor: Cursor::default(),
            extra_cursors: Vec::new(),
            dirty: false,
        });
    }
    let frozen = SleepingBuffer::freeze(b);
    assert!(frozen.is_compressed());
    for z in frozen.undo_compressed() {
        assert!(z);
    }
}

#[test]
fn dirty_flag_visible_without_thaw() {
    let mut b = buf_from(&["x"]);
    b.dirty = true;
    let frozen = SleepingBuffer::freeze(b);
    assert!(frozen.dirty());
}

#[test]
fn compressed_roundtrip_restores_everything() {
    let big: Vec<String> = (0..300).map(|i| format!("line {i} with some text ü∑ and more")).collect();
    let mut b = Buffer::new();
    b.lines = big.clone();
    b.path = Some("/tmp/x.rs".to_string());
    b.scroll = 17;
    b.col_scroll = 3;
    b.redo_stack.push(Snapshot {
        lines: vec!["redo".into(), "".into()],
        cursor: Cursor { row: 1, col: 0 },
        extra_cursors: vec![Cursor { row: 0, col: 2 }],
        dirty: true,
    });
    let frozen = SleepingBuffer::freeze(b);
    assert!(frozen.is_compressed());
    assert_eq!(frozen.peek_lines(), big);
    assert_eq!(frozen.path().map(|p| p.as_str()), Some("/tmp/x.rs"));
    let thawed = frozen.thaw();
    assert_eq!(thawed.lines, big);
    assert_eq!(thawed.scroll, 17);
    assert_eq!(thawed.col_scroll, 3);
    assert_eq!(thawed.redo_stack.len(), 1);
    assert_eq!(thawed.redo_stack[0].lines, vec!["redo", ""]);
    assert_eq!(thawed.redo_stack[0].extra_cursors, vec![Cursor { row: 0, col: 2 }]);
    assert!(thawed.redo_stack[0].dirty);
}

#[test]
fn threshold_is_on_the_byte_total() {
    // 4096 bytes exactly stays raw; one more byte compresses.
    let at = buf_from(&[&"a".repeat(4096)]);
    assert!(!SleepingBuffer::freeze(at).is_compressed());
    let over = buf_from(&[&"a".repeat(4095), "bb"]);
    assert!(SleepingBuffer::freeze(over).is_compressed());
}

#[test]
fn set_path_renames_a_sleeping_buffer() {
    let mut s = SleepingBuffer::freeze(buf_from(&["x"]));
    assert!(s.path().is_none());
    s.set_path(Some("new.rs".to_string()));
    assert_eq!(s.path().map(|p| p.as_str()), Some("new.rs"));
    assert_eq!(s.thaw().path.as_deref(), Some("new.rs"));
}
