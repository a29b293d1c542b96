use vorto::bookmark::{BookmarkStore, StoredMark};
use vorto::buffer_ref::BufferRef;

fn store() -> BookmarkStore {
    BookmarkStore::load("/proj".to_string(), vec![StoredMark { path: "/proj/a.rs".into(), line: 3 }])
}

#[test]
fn load_turns_stored_marks_into_file_marks() {
    let s = store();
    assert_eq!(s.marks.len(), 1);
    assert_eq!(s.marks[0].target, BufferRef::File("/proj/a.rs".into()));
    assert_eq!(s.marks[0].line, 3);
    assert_eq!(s.root(), "/proj");
}

#[test]
fn add_dedups_by_buffer() {
    let mut s = store();
    assert!(!s.add(BufferRef::File("/proj/a.rs".into()), 10));
    assert_eq!(s.marks.len(), 1);
    assert_eq!(s.marks[0].line, 3);
    assert!(s.add(BufferRef::Scratch(2), 5));
    assert!(s.add(BufferRef::File("/proj/b.rs".into()), 0));
    assert_eq!(s.marks.len(), 3);
    assert!(!s.add(BufferRef::Scratch(2), 9));
}

#[test]
fn remove_target_drops_only_that_buffer() {
    let mut s = store();
    s.add(BufferRef::Scratch(1), 2);
    assert!(s.remove_target(&BufferRef::File("/proj/a.rs".into())));
    assert_eq!(s.marks.len(), 1);
    assert_eq!(s.marks[0].target, BufferRef::Scratch(1));
    assert!(!s.remove_target(&BufferRef::File("/proj/a.rs".into())));
}

#[test]
fn only_file_marks_are_stored() {
    let mut s = store();
    s.add(BufferRef::Scratch(1), 2);
    s.add(BufferRef::File("/proj/c.rs".into()), 8);
    let stored = s.stored_entry().unwrap();
    let got: Vec<(String, usize)> = stored.iter().map(|m| (m.path.clone(), m.line)).collect();
    assert_eq!(got, vec![("/proj/a.rs".to_string(), 3), ("/proj/c.rs".to_string(), 8)]);
    s.remove_target(&BufferRef::File("/proj/a.rs".into()));
    s.remove_target(&BufferRef::File("/proj/c.rs".into()));
    assert!(s.stored_entry().is_none());
}
