use todo_tui::frontend::{next_selection, prev_selection};

#[test]
fn test_next_wraps_at_end() {
    assert_eq!(next_selection(None, 3), Some(0));
    assert_eq!(next_selection(Some(0), 3), Some(1));
    assert_eq!(next_selection(Some(1), 3), Some(2));
    assert_eq!(next_selection(Some(2), 3), Some(0));
    assert_eq!(next_selection(None, 0), None);
}

#[test]
fn test_prev_wraps_at_start() {
    assert_eq!(prev_selection(None, 3), Some(0));
    assert_eq!(prev_selection(Some(2), 3), Some(1));
    assert_eq!(prev_selection(Some(1), 3), Some(0));
    assert_eq!(prev_selection(Some(0), 3), Some(2));
    assert_eq!(prev_selection(None, 0), None);
}
