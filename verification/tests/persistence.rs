use todo_tui::backend::Backend;
use todo_tui::errors::TodoError;
use todo_tui::todoitem::TodoItem;

fn content_string(bnd: &Backend) -> String {
    let (_, content) = bnd.save_items(Some("/home/user")).unwrap();
    content.iter().collect()
}

fn assert_same_tree(a: &TodoItem, b: &TodoItem) {
    assert_eq!(a.get_title(), b.get_title());
    assert_eq!(a.is_completed(), b.is_completed());
    assert_eq!(a.get_nb_sub_items(), b.get_nb_sub_items());
    for (ca, cb) in a.get_sub_items().iter().zip(b.get_sub_items().iter()) {
        assert_same_tree(ca, cb);
    }
}

#[test]
fn test_serialize_exact_form() {
    let mut bnd = Backend::new();
    bnd.add_item("Buy milk");
    bnd.add_item("Call home");
    assert_eq!(
        content_string(&bnd),
        "[{\"title\":\"Buy milk\",\"completed\":false,\"sub_items\":[]},\
         {\"title\":\"Call home\",\"completed\":false,\"sub_items\":[]}]"
    );
}

#[test]
fn test_serialize_empty_store() {
    let bnd = Backend::new();
    assert_eq!(content_string(&bnd), "[]");
}

#[test]
fn test_round_trip_restores_identical_tree() {
    let mut bnd = Backend::new();
    bnd.add_item("First");
    bnd.add_item("Second");
    let (_, content) = bnd.save_items(Some("/home/user")).unwrap();

    let mut fresh = Backend::new();
    fresh.restore_items(&content).unwrap();
    assert_eq!(fresh.get_items().len(), 2);
    for (a, b) in bnd.get_items().iter().zip(fresh.get_items().iter()) {
        assert_same_tree(a, b);
    }
}

#[test]
fn test_round_trip_with_escapes_and_depth() {
    let mut child = TodoItem::new_item("quote \" and backslash \\ and tab \t");
    child.add_sub_item(TodoItem::new_item("control \u{1b} char"));
    child.set_completed();
    // a store cannot take a built tree directly, so build the same shape
    // through restore: serialize a hand-made file and read it back
    let text = "[{\"title\":\"quote \\\" and backslash \\\\ and tab \\t\",\"completed\":true,\
                \"sub_items\":[{\"title\":\"control \\u001b char\",\"completed\":true,\
                \"sub_items\":[]}]}]";
    let chars: Vec<char> = text.chars().collect();
    let mut store = Backend::new();
    store.restore_items(&chars).unwrap();
    assert_eq!(store.get_items().len(), 1);
    assert_same_tree(&store.get_items()[0], &child);

    // and saving it again gives back exactly the same text
    assert_eq!(content_string(&store), text);
}

#[test]
fn test_restore_invalid_json_is_deserialize_error() {
    let mut bnd = Backend::new();
    bnd.add_item("Kept");
    let junk: Vec<char> = "not json at all".chars().collect();
    assert_eq!(bnd.restore_items(&junk), Err(TodoError::DeserializeError));
    assert_eq!(bnd.get_items().len(), 1);
    assert_eq!(bnd.get_items()[0].get_title(), "Kept");
}

#[test]
fn test_restore_wrong_shape_is_deserialize_error() {
    let mut bnd = Backend::new();
    let cases = [
        "",
        "{}",
        "[{\"title\":\"x\"}]",
        "[{\"title\":\"x\",\"completed\":false,\"sub_items\":[]}",
        "[{\"title\":\"x\",\"completed\":1,\"sub_items\":[]}]",
    ];
    for case in cases {
        let chars: Vec<char> = case.chars().collect();
        assert_eq!(bnd.restore_items(&chars), Err(TodoError::DeserializeError));
        assert_eq!(bnd.get_items().len(), 0);
    }
}

#[test]
fn test_saved_form_is_valid_json_for_serde() {
    let mut bnd = Backend::new();
    bnd.add_item("plain");
    bnd.add_item("escaped \" \\ \n \u{7} end");
    let mine = content_string(&bnd);

    // serde_json accepts the canonical text and reads the same data back
    let parsed: serde_json::Value = serde_json::from_str(&mine).unwrap();
    let arr = parsed.as_array().unwrap();
    assert_eq!(arr.len(), 2);
    assert_eq!(arr[0]["title"].as_str().unwrap(), "plain");
    assert_eq!(arr[0]["completed"].as_bool().unwrap(), false);
    assert_eq!(arr[0]["sub_items"].as_array().unwrap().len(), 0);
    assert_eq!(arr[1]["title"].as_str().unwrap(), "escaped \" \\ \n \u{7} end");
    assert_eq!(arr[1]["completed"].as_bool().unwrap(), false);

    // and the escape forms serde_json writes for a string are the ones the
    // canonical form uses
    let serde_str = serde_json::to_string(&serde_json::Value::String(
        "escaped \" \\ \n \u{7} end".to_string(),
    ))
    .unwrap();
    assert!(mine.contains(&serde_str[1..serde_str.len() - 1]));
}
