use todo_store::categories::Category;
use todo_store::store::Store;
use todo_store::text::{push_decimal, push_field, push_number_field, push_tabs};

fn category(id: u64, title: &str) -> Category {
    Category { id, title: title.to_string(), color: String::new() }
}

#[test]
fn new_store_has_no_collections() {
    let store: Store<Category> = Store::new(None);
    assert!(!store.contains("alice"));
    assert_eq!(store.get("alice"), None);
    assert_eq!(store.count("alice"), 0);
    assert_eq!(store.peek("alice"), vec![]);
}

#[test]
fn peek_does_not_create_but_list_does_where_seeded() {
    let mut store = Store::new(Some(category(0, "seed")));
    assert_eq!(store.peek("alice"), vec![category(0, "seed")]);
    assert!(!store.contains("alice"));
    assert_eq!(store.list("alice"), vec![category(0, "seed")]);
    assert!(store.contains("alice"));
    assert_eq!(store.list("alice"), vec![category(0, "seed")]);
    assert!(!store.contains("bob"));
}

#[test]
fn list_does_not_create_where_not_seeded() {
    let mut store: Store<Category> = Store::new(None);
    assert_eq!(store.list("alice"), vec![]);
    assert!(!store.contains("alice"));
}

#[test]
fn append_creates_then_appends() {
    let mut seeded = Store::new(Some(category(0, "seed")));
    seeded.append("alice", category(5, "a"));
    assert_eq!(seeded.get("alice"), Some(vec![category(0, "seed"), category(5, "a")]));
    seeded.append("alice", category(5, "b"));
    assert_eq!(seeded.count("alice"), 3);

    let mut plain: Store<Category> = Store::new(None);
    plain.append("alice", category(5, "a"));
    assert_eq!(plain.get("alice"), Some(vec![category(5, "a")]));
}

#[test]
fn owners_are_kept_apart() {
    let mut store: Store<Category> = Store::new(None);
    store.append("a", category(1, "one"));
    store.append("b", category(2, "two"));
    store.append("", category(3, "three"));
    store.append("a", category(4, "four"));
    assert_eq!(store.peek("a"), vec![category(1, "one"), category(4, "four")]);
    assert_eq!(store.peek("b"), vec![category(2, "two")]);
    assert_eq!(store.peek(""), vec![category(3, "three")]);
    assert_eq!(store.peek("A"), vec![]);
}

#[test]
fn remove_says_whether_there_was_a_collection() {
    let mut store: Store<Category> = Store::new(None);
    store.append("a", category(1, "one"));
    store.append("b", category(2, "two"));
    store.append("c", category(3, "three"));
    assert!(!store.remove("d"));
    assert!(store.remove("a"));
    assert!(!store.remove("a"));
    assert!(!store.contains("a"));
    assert_eq!(store.peek("b"), vec![category(2, "two")]);
    assert_eq!(store.peek("c"), vec![category(3, "three")]);
}

#[test]
fn insert_an_empty_collection_is_kept() {
    let mut store = Store::new(Some(category(0, "seed")));
    store.insert("a", vec![]);
    assert!(store.contains("a"));
    assert_eq!(store.list("a"), vec![]);
    assert_eq!(store.count("a"), 0);
}

#[test]
fn decimal_rendering() {
    for (n, text) in [
        (0u64, "0"),
        (7, "7"),
        (9, "9"),
        (10, "10"),
        (11, "11"),
        (100, "100"),
        (1234567890, "1234567890"),
        (u64::MAX, "18446744073709551615"),
    ] {
        let mut out = String::from("n=");
        push_decimal(&mut out, n);
        assert_eq!(out, format!("n={}", text));
    }
}

#[test]
fn tabs_and_fields() {
    let mut out = String::from("x");
    push_tabs(&mut out, 0);
    assert_eq!(out, "x");
    push_tabs(&mut out, 3);
    assert_eq!(out, "x\t\t\t");
    push_field(&mut out, "title", "work");
    assert_eq!(out, "x\t\t\t title: work;\n");
    push_number_field(&mut out, "id", 42);
    assert_eq!(out, "x\t\t\t title: work;\n id: 42;\n");
}
