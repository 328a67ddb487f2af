use todo_tui::todoitem::TodoItem;

#[test]
fn test_get_title_returns_title() {
    let item1 = TodoItem::new_item("Test Item 1");
    let item2 = TodoItem::new_item("Test Item 2");
    assert_eq!(item1.get_title(), "Test Item 1");
    assert_eq!(item2.get_title(), "Test Item 2");
}

#[test]
fn test_created_item_is_not_completed() {
    let item = TodoItem::new_item("Test Item");
    assert!(!item.is_completed())
}

#[test]
fn test_sub_item_added() {
    let mut main_item = TodoItem::new_item("Main Item");
    assert_eq!(main_item.get_nb_sub_items(), 0);
    let sub_item = TodoItem::new_item("Sub Item");
    main_item.add_sub_item(sub_item);
    assert_eq!(main_item.get_nb_sub_items(), 1);
}

#[test]
fn test_sub_items_are_completed_when_completed() {
    let sub_item_1 = TodoItem::new_item("Sub Item 1");
    let sub_item_2 = TodoItem::new_item("Sub Item 2");
    let mut main_item = TodoItem::new_item("Main Item");
    main_item.add_sub_item(sub_item_1);
    main_item.add_sub_item(sub_item_2);
    main_item.set_completed();
    assert!(main_item.is_completed());
    for item in main_item.get_sub_items() {
        assert!(item.is_completed())
    }
}

#[test]
fn test_sub_items_are_uncompleted_when_uncompleted() {
    let sub_item_1 = TodoItem::new_item("Sub Item 1");
    let sub_item_2 = TodoItem::new_item("Sub Item 2");
    let mut main_item = TodoItem::new_item("Main Item");
    main_item.add_sub_item(sub_item_1);
    main_item.add_sub_item(sub_item_2);
    main_item.set_not_completed();
    assert!(!main_item.is_completed());
    for item in main_item.get_sub_items() {
        assert!(!item.is_completed())
    }
}

#[test]
fn test_completion_cascades_to_any_depth() {
    let grandchild = TodoItem::new_item("Grandchild");
    let mut child = TodoItem::new_item("Child");
    child.add_sub_item(grandchild);
    let mut root = TodoItem::new_item("Root");
    root.add_sub_item(child);
    root.set_completed();
    assert!(root.is_completed());
    let child_ref = &root.get_sub_items()[0];
    assert!(child_ref.is_completed());
    assert!(child_ref.get_sub_items()[0].is_completed());
    root.set_not_completed();
    assert!(!root.is_completed());
    let child_ref = &root.get_sub_items()[0];
    assert!(!child_ref.is_completed());
    assert!(!child_ref.get_sub_items()[0].is_completed());
}

#[test]
fn test_add_child_increments_count_each_call() {
    let mut item = TodoItem::new_item("Parent");
    for expected in 1..=5usize {
        item.add_sub_item(TodoItem::new_item("Child"));
        assert_eq!(item.get_nb_sub_items(), expected);
    }
}
