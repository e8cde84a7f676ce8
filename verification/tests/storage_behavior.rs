use distribeautie::storage::Store;

#[test]
fn new_store_is_empty() {
    let store = Store::new();
    assert_eq!(store.get_all_items().len(), 0);
    assert!(!store.get_item(String::from("anything")));
}

#[test]
fn added_item_is_present() {
    let mut store = Store::new();
    store.add_item(String::from("foo"));
    assert!(store.get_item(String::from("foo")));
}

#[test]
fn never_added_item_is_absent() {
    let mut store = Store::new();
    store.add_item(String::from("foo"));
    assert!(!store.get_item(String::from("bar")));
}

#[test]
fn item_stays_present_after_later_adds() {
    let mut store = Store::new();
    store.add_item(String::from("first"));
    store.add_item(String::from("second"));
    store.add_item(String::from("third"));
    assert!(store.get_item(String::from("first")));
    assert!(store.get_item(String::from("second")));
    assert!(store.get_item(String::from("third")));
}

#[test]
fn snapshot_keeps_insertion_order() {
    let mut store = Store::new();
    store.add_item(String::from("b"));
    store.add_item(String::from("a"));
    store.add_item(String::from("c"));
    let all = store.get_all_items();
    assert_eq!(all, vec![String::from("b"), String::from("a"), String::from("c")]);
}

#[test]
fn duplicate_adds_yield_two_entries() {
    let mut store = Store::new();
    store.add_item(String::from("a"));
    store.add_item(String::from("a"));
    let all = store.get_all_items();
    assert_eq!(all, vec![String::from("a"), String::from("a")]);
    assert!(store.get_item(String::from("a")));
}

#[test]
fn snapshot_is_a_copy_not_a_view() {
    let mut store = Store::new();
    store.add_item(String::from("x"));
    let snapshot = store.get_all_items();
    store.add_item(String::from("y"));
    assert_eq!(snapshot, vec![String::from("x")]);
    assert_eq!(store.get_all_items().len(), 2);
}
