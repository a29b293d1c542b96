use vorto::action::FocusDir;
use vorto::pane::{plan_focus, FocusPlan, next_pane, pane_in_direction, PaneLayout, PaneRect, SplitDir, SplitPlace, WindowClose};

#[test]
fn splitting_places_the_new_pane_beside_the_old_one() {
    let mut l = PaneLayout::Leaf(0);
    assert!(l.split_leaf(0, SplitDir::Vertical, 1, SplitPlace::After));
    assert_eq!(l.leaves(), vec![0, 1]);
    assert!(l.split_leaf(1, SplitDir::Horizontal, 2, SplitPlace::Before));
    assert_eq!(l.leaves(), vec![0, 2, 1]);
    assert!(!l.split_leaf(9, SplitDir::Horizontal, 3, SplitPlace::After));
    assert_eq!(l.leaves(), vec![0, 2, 1]);
    assert!(l.find_leaf(2));
    assert!(!l.find_leaf(3));
}

#[test]
fn removing_a_pane_collapses_its_split_and_names_a_neighbour() {
    let mut l = PaneLayout::Leaf(0);
    l.split_leaf(0, SplitDir::Vertical, 1, SplitPlace::After);
    l.split_leaf(1, SplitDir::Horizontal, 2, SplitPlace::Before);
    assert_eq!(l.remove_leaf(2), Some(1));
    assert_eq!(l.leaves(), vec![0, 1]);
    match &l {
        PaneLayout::Split { dir, children } => {
            assert_eq!(*dir, SplitDir::Vertical);
            assert_eq!(children.len(), 2);
            assert!(matches!(children[1], PaneLayout::Leaf(1)));
        }
        _ => panic!("expected a split"),
    }
    // Removing the last child of a split focuses the previous sibling.
    assert_eq!(l.remove_leaf(1), Some(0));
    assert!(matches!(l, PaneLayout::Leaf(0)));
}

#[test]
fn removing_the_only_pane_or_an_unknown_one_changes_nothing() {
    let mut l = PaneLayout::Leaf(4);
    assert_eq!(l.remove_leaf(4), None);
    assert_eq!(l.leaves(), vec![4]);
    l.split_at(SplitDir::Vertical, 5, SplitPlace::Before);
    assert_eq!(l.leaves(), vec![5, 4]);
    assert_eq!(l.remove_leaf(7), None);
    assert_eq!(l.leaves(), vec![5, 4]);
}

#[test]
fn split_then_close_restores_the_layout() {
    let mut l = PaneLayout::Leaf(0);
    l.split_leaf(0, SplitDir::Vertical, 1, SplitPlace::After);
    l.split_leaf(0, SplitDir::Horizontal, 2, SplitPlace::After);
    let before = l.leaves();
    l.split_leaf(2, SplitDir::Vertical, 3, SplitPlace::Before);
    assert_eq!(l.leaves(), vec![0, 3, 2, 1]);
    assert_eq!(l.remove_leaf(3), Some(2));
    assert_eq!(l.leaves(), before);
}

fn rect(x: u16, y: u16, width: u16, height: u16) -> PaneRect {
    PaneRect { x, y, width, height }
}

#[test]
fn directional_focus_picks_the_nearest_pane_first_listed_on_ties() {
    let rects = vec![(0, rect(0, 0, 40, 20)), (1, rect(40, 0, 40, 10)), (2, rect(40, 10, 40, 10))];
    assert_eq!(pane_in_direction(&rects, 0, FocusDir::Right), Some(1));
    assert_eq!(pane_in_direction(&rects, 0, FocusDir::Left), None);
    assert_eq!(pane_in_direction(&rects, 1, FocusDir::Down), Some(2));
    assert_eq!(pane_in_direction(&rects, 2, FocusDir::Left), Some(0));
    assert_eq!(pane_in_direction(&rects, 9, FocusDir::Left), None);
}

#[test]
fn cycling_wraps_around() {
    assert_eq!(next_pane(&[3, 5, 7], 5), Some(7));
    assert_eq!(next_pane(&[3, 5, 7], 7), Some(3));
    assert_eq!(next_pane(&[3, 5, 7], 9), Some(5));
    assert_eq!(next_pane(&[4], 4), None);
}

#[test]
fn closing_the_only_pane_is_refused() {
    let mut l = PaneLayout::Leaf(0);
    assert_eq!(l.close_window(0, None), WindowClose::OnlyOnePane);
    assert_eq!(l.leaves(), vec![0]);
}

#[test]
fn closing_the_only_editor_beside_the_agent_is_refused() {
    let mut l = PaneLayout::Leaf(0);
    l.split_leaf(0, SplitDir::Vertical, 1, SplitPlace::After);
    assert_eq!(l.close_window(0, Some(1)), WindowClose::OnlyEditorPane);
    assert_eq!(l.leaves(), vec![0, 1]);
}

#[test]
fn closing_the_agent_pane_focuses_its_neighbour() {
    let mut l = PaneLayout::Leaf(0);
    l.split_leaf(0, SplitDir::Vertical, 1, SplitPlace::After);
    assert_eq!(l.close_window(1, Some(1)), WindowClose::AgentClosed { neighbor: 0 });
    assert_eq!(l.leaves(), vec![0]);
}

#[test]
fn closing_an_editor_never_falls_into_the_agent_pane() {
    // [0 | 1 | agent 2]: closing 1 names 2 geometrically; the editor pane
    // 0 is chosen instead.
    let mut l = PaneLayout::Leaf(0);
    l.split_leaf(0, SplitDir::Vertical, 1, SplitPlace::After);
    l.split_leaf(1, SplitDir::Vertical, 2, SplitPlace::After);
    assert_eq!(l.close_window(1, Some(2)), WindowClose::EditorClosed { neighbor: 0 });
    assert_eq!(l.leaves(), vec![0, 2]);
}

#[test]
fn closing_an_editor_pane_names_its_neighbour() {
    let mut l = PaneLayout::Leaf(0);
    l.split_leaf(0, SplitDir::Vertical, 1, SplitPlace::After);
    assert_eq!(l.close_window(1, None), WindowClose::EditorClosed { neighbor: 0 });
    assert_eq!(l.leaves(), vec![0]);
}

#[test]
fn focus_plan_cases() {
    assert_eq!(plan_focus(2, 2, Some(3), 1), FocusPlan::Stay);
    assert_eq!(plan_focus(3, 1, Some(3), 1), FocusPlan::Retarget);
    assert_eq!(plan_focus(1, 3, Some(3), 1), FocusPlan::Retarget);
    assert_eq!(plan_focus(4, 1, Some(3), 1), FocusPlan::SwapSession);
    assert_eq!(plan_focus(4, 1, None, 1), FocusPlan::SwapSession);
}
