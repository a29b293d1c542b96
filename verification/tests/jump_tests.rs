use vorto::buffer_ref::BufferRef;
use vorto::cursor::Cursor;
use vorto::jump::{jump_list_positions, assign_labels, JumpEntry, JumpList, JumpState, JumpStep, JUMPLIST_CAP};
use vorto::keys::{KeyCode, KeyInput};

fn entry(row: usize) -> JumpEntry {
    JumpEntry { doc: BufferRef::Scratch(0), cursor: Cursor { row, col: 0 } }
}

fn rows(j: &JumpList) -> Vec<usize> {
    j.entries().iter().map(|e| e.cursor.row).collect()
}

#[test]
fn back_then_forward_returns_to_origin() {
    let mut j = JumpList::default();
    j.push(entry(10));
    j.push(entry(20));
    assert_eq!(j.backward(1, entry(30)).unwrap().cursor.row, 20);
    assert_eq!(j.backward(1, entry(30)).unwrap().cursor.row, 10);
    assert_eq!(j.forward(1).unwrap().cursor.row, 20);
    assert_eq!(j.forward(1).unwrap().cursor.row, 30);
    assert!(j.forward(1).is_none(), "already at newest");
}

#[test]
fn back_past_oldest_returns_none() {
    let mut j = JumpList::default();
    j.push(entry(5));
    assert_eq!(j.backward(1, entry(9)).unwrap().cursor.row, 5);
    assert!(j.backward(1, entry(9)).is_none());
}

#[test]
fn new_jump_after_going_back_truncates_forward_history() {
    let mut j = JumpList::default();
    j.push(entry(10));
    j.push(entry(20));
    j.push(entry(30));
    j.backward(2, entry(40));
    j.push(entry(99));
    assert_eq!(rows(&j), vec![10, 99]);
    assert!(j.forward(1).is_none());
}

#[test]
fn large_count_clamps_to_oldest_and_newest() {
    let mut j = JumpList::default();
    j.push(entry(10));
    j.push(entry(20));
    j.push(entry(30));
    assert_eq!(j.backward(10, entry(40)).unwrap().cursor.row, 10);
    assert_eq!(j.forward(10).unwrap().cursor.row, 40);
    assert!(j.forward(1).is_none(), "already at newest");
}

#[test]
fn tip_snapshot_respects_cap() {
    let mut j = JumpList::default();
    for r in 0..JUMPLIST_CAP {
        j.push(entry(r));
    }
    assert_eq!(j.entries().len(), JUMPLIST_CAP);
    let landed = j.backward(1, entry(9999)).unwrap();
    assert_eq!(j.entries().len(), JUMPLIST_CAP);
    assert_eq!(landed.cursor.row, JUMPLIST_CAP - 1);
    assert_eq!(j.forward(1).unwrap().cursor.row, 9999);
}

#[test]
fn consecutive_same_line_jumps_collapse() {
    let mut j = JumpList::default();
    j.push(entry(10));
    j.push(JumpEntry { doc: BufferRef::Scratch(0), cursor: Cursor { row: 10, col: 7 } });
    assert_eq!(j.entries().len(), 1);
    assert_eq!(j.entries()[0].cursor.col, 7);
}

#[test]
fn caps_at_jumplist_cap() {
    let mut j = JumpList::default();
    for r in 0..JUMPLIST_CAP + 50 {
        j.push(entry(r));
    }
    assert_eq!(j.entries().len(), JUMPLIST_CAP);
    assert_eq!(j.entries().last().unwrap().cursor.row, JUMPLIST_CAP + 49);
}

#[test]
fn same_row_in_another_document_is_a_new_entry() {
    let mut j = JumpList::default();
    j.push(entry(3));
    j.push(JumpEntry { doc: BufferRef::File("a.rs".into()), cursor: Cursor { row: 3, col: 0 } });
    assert_eq!(j.entries().len(), 2);
}

#[test]
fn single_letter_labels_for_few_targets() {
    let targets = vec![Cursor { row: 0, col: 0 }, Cursor { row: 1, col: 4 }];
    let labels = assign_labels(targets);
    assert_eq!(labels.len(), 2);
    assert_eq!(labels[0].first, 'a');
    assert!(labels[0].second.is_none());
    assert_eq!(labels[1].first, 's');
}

fn label(row: usize, first: char, second: Option<char>) -> vorto::jump::JumpLabel {
    vorto::jump::JumpLabel { pos: vorto::cursor::Cursor { row, col: 0 }, first, second }
}

fn ch(c: char) -> KeyInput {
    KeyInput::press(KeyCode::Char(c), false, false, false)
}

#[test]
fn jump_key_single_char_labels_land_at_once() {
    let mut st = JumpState { labels: vec![label(0, 'a', None), label(1, 's', None)], typed_first: None };
    assert_eq!(st.key(&ch('s')), JumpStep::Land(vorto::cursor::Cursor { row: 1, col: 0 }));
    let mut st = JumpState { labels: vec![label(0, 'a', None)], typed_first: None };
    assert_eq!(st.key(&ch('x')), JumpStep::Cancel);
}

#[test]
fn jump_key_two_char_labels_wait_then_land() {
    let labels = vec![label(0, 'a', Some('a')), label(1, 's', Some('a')), label(2, 'a', Some('s'))];
    let mut st = JumpState { labels, typed_first: None };
    assert_eq!(st.key(&ch('a')), JumpStep::Wait);
    assert_eq!(st.typed_first, Some('a'));
    assert_eq!(st.key(&ch('s')), JumpStep::Land(vorto::cursor::Cursor { row: 2, col: 0 }));
    let mut st = JumpState { labels: vec![label(0, 'a', Some('a')), label(2, 'a', Some('s'))], typed_first: Some('a') };
    assert_eq!(st.key(&ch('q')), JumpStep::Cancel);
}

#[test]
fn jump_key_escape_and_non_chars_cancel() {
    let mut st = JumpState { labels: vec![label(0, 'a', None)], typed_first: None };
    assert_eq!(st.key(&KeyInput::press(KeyCode::Esc, false, false, false)), JumpStep::Cancel);
    assert_eq!(st.key(&KeyInput::press(KeyCode::Char('g'), false, true, false)), JumpStep::Cancel);
    assert_eq!(st.key(&KeyInput::press(KeyCode::Enter, false, false, false)), JumpStep::Cancel);
}

#[test]
fn every_assigned_label_reaches_its_target() {
    for n in [1usize, 5, 26, 27, 30, 60] {
        let targets: Vec<Cursor> = (0..n).map(|i| Cursor { row: i, col: i % 3 }).collect();
        let labels = assign_labels(targets.clone());
        for (i, l) in labels.iter().enumerate() {
            let mut st = JumpState { labels: labels.clone(), typed_first: None };
            let landed = match st.key(&ch(l.first)) {
                JumpStep::Land(p) => p,
                JumpStep::Wait => match st.key(&ch(l.second.unwrap())) {
                    JumpStep::Land(p) => p,
                    other => panic!("second key gave {other:?}"),
                },
                JumpStep::Cancel => panic!("first key cancelled"),
            };
            assert_eq!(landed, targets[i], "n={n} i={i}");
        }
    }
}

fn file_entry(path: &str, row: usize, col: usize) -> JumpEntry {
    JumpEntry { doc: BufferRef::File(path.to_string()), cursor: Cursor { row, col } }
}

#[test]
fn jump_list_shows_here_then_newest_file_origins() {
    let here = file_entry("/w/a.rs", 10, 2);
    let entries = vec![
        file_entry("/w/a.rs", 1, 0),
        entry(5),
        file_entry("/w/a.rs", 10, 7),
        file_entry("/w/b.rs", 10, 0),
        file_entry("/w/c.rs", 3, 3),
    ];
    let got = jump_list_positions(&here, &entries);
    let want: Vec<(String, Cursor)> = vec![
        ("/w/a.rs".to_string(), Cursor { row: 10, col: 2 }),
        ("/w/c.rs".to_string(), Cursor { row: 3, col: 3 }),
        ("/w/b.rs".to_string(), Cursor { row: 10, col: 0 }),
        ("/w/a.rs".to_string(), Cursor { row: 1, col: 0 }),
    ];
    assert_eq!(got, want);
}

#[test]
fn jump_list_of_scratch_positions_is_empty() {
    let here = entry(4);
    assert!(jump_list_positions(&here, &[entry(1), entry(2)]).is_empty());
}

#[test]
fn pushes_stay_capped_and_end_with_the_origin() {
    let mut j = JumpList::default();
    for row in 0..150 {
        j.push(entry(row));
        assert!(j.entries().len() <= JUMPLIST_CAP);
        assert_eq!(j.entries().last().unwrap().cursor.row, row);
    }
    assert_eq!(j.entries().len(), 100);
}
