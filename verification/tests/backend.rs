use todo_tui::backend::Backend;
use todo_tui::errors::TodoError;

#[test]
fn test_remove_first_item() {
    let mut bnd = Backend::new();
    bnd.add_item("First");
    bnd.add_item("Second");
    bnd.add_item("Third");
    assert_eq!(bnd.get_items().len(), 3);
    bnd.remove_item_at_index(0).unwrap();
    assert_eq!(bnd.get_items().len(), 2);
    assert_eq!(bnd.get_items().get(0).unwrap().get_title(), "Second");
    assert_eq!(bnd.get_items().get(1).unwrap().get_title(), "Third");
}

#[test]
fn test_remove_last_item() {
    let mut bnd = Backend::new();
    bnd.add_item("First");
    bnd.add_item("Second");
    bnd.add_item("Third");
    assert_eq!(bnd.get_items().len(), 3);
    bnd.remove_item_at_index(2).unwrap();
    assert_eq!(bnd.get_items().len(), 2);
    assert_eq!(bnd.get_items().get(0).unwrap().get_title(), "First");
    assert_eq!(bnd.get_items().get(1).unwrap().get_title(), "Second");
}

#[test]
fn test_save_items() {
    let mut bnd = Backend::new();
    bnd.add_item("First Test Item");
    bnd.add_item("Second Test Item");
    assert!(bnd.save_items(Some("/home/user")).is_ok());
}

#[test]
fn test_get_save_path() {
    assert!(Backend::get_save_path(Some("/home/user")).is_ok());
}

#[test]
fn test_get_save_path_exact() {
    let path = Backend::get_save_path(Some("/home/user")).unwrap();
    assert_eq!(path, "/home/user/.todo_tui/items.json");
}

#[test]
fn test_remove_out_of_range_leaves_items_unchanged() {
    let mut bnd = Backend::new();
    bnd.add_item("First");
    bnd.add_item("Second");
    let r = bnd.remove_item_at_index(2);
    assert_eq!(r, Err(TodoError::IndexOutOfRange));
    assert_eq!(bnd.get_items().len(), 2);
    assert_eq!(bnd.get_items()[0].get_title(), "First");
    assert_eq!(bnd.get_items()[1].get_title(), "Second");
}

#[test]
fn test_save_without_home_is_home_unresolved() {
    let mut bnd = Backend::new();
    bnd.add_item("Anything");
    assert_eq!(bnd.save_items(None), Err(TodoError::HomeUnresolved));
    assert_eq!(Backend::get_save_path(None), Err(TodoError::HomeUnresolved));
}
