use todo_store::error::StoreError;
use todo_store::tasks::{tasks_format_output, Task, Tasks};

fn get_test_tasks_empty_case() -> Tasks {
    Tasks::new()
}

fn task(id: u64, text: &str, category_id: u64, timestamp: u64) -> Task {
    Task { id, text: text.to_string(), category_id, timestamp }
}

#[test]
fn add_task() {
    let test_user = String::from("unicorn.testnet");
    let mut contract = get_test_tasks_empty_case();

    let tasks_before = contract.get_tasks(&test_user);
    println!("tasks before: {}", tasks_format_output(&tasks_before));

    contract.add_task(&test_user, String::from("test task text"), 0, 0);

    let tasks_after = contract.get_tasks(&test_user);
    println!("tasks after: {}", tasks_format_output(&tasks_after));
    assert_eq!(tasks_before.len() < tasks_after.len(), true);
}

#[test]
fn get_tasks_empty_case() {
    let test_user = String::from("unicorn.testnet");
    let contract = get_test_tasks_empty_case();

    let got_tasks = contract.get_tasks(&test_user);
    println!("got tasks: {}", tasks_format_output(&got_tasks));
    assert_eq!(got_tasks.len() == 0, true);
}

#[test]
fn get_tasks_non_empty_case() {
    let test_user = String::from("unicorn.testnet");
    let mut contract = get_test_tasks_empty_case();

    let mut tasks_vec = Vec::new();
    tasks_vec.push(Task { id: 0, text: String::from("test-text"), category_id: 0, timestamp: 21 });
    contract.insert(&test_user, tasks_vec);

    let got_tasks = contract.get_tasks(&test_user);
    println!("got tasks: {}", tasks_format_output(&got_tasks));
    assert_eq!(got_tasks.len() == 1, true);
    assert_eq!(got_tasks[0], task(0, "test-text", 0, 21));
}

#[test]
fn first_task_of_an_owner() {
    let mut store = Tasks::new();
    assert_eq!(store.get_tasks("alice"), vec![]);
    assert_eq!(store.get("alice"), None);
    let added = store.add_task("alice", "buy milk".to_string(), 0, 1_700_000_000_123);
    assert_eq!(added, task(0, "buy milk", 0, 1_700_000_000_123));
    assert_eq!(store.get_tasks("alice"), vec![task(0, "buy milk", 0, 1_700_000_000_123)]);
    assert_eq!(store.get_tasks("alice"), vec![added]);
}

#[test]
fn tasks_are_numbered_from_zero_in_call_order() {
    let mut store = Tasks::new();
    for i in 0..6u64 {
        let added = store.add_task("bob", format!("t{}", i), i % 2, 100 + i);
        assert_eq!(added.id, i);
        store.add_task("zed", "noise".to_string(), 0, 0);
    }
    let got = store.get_tasks("bob");
    assert_eq!(got.len(), 6);
    for i in 0..6u64 {
        assert_eq!(got[i as usize], task(i, &format!("t{}", i), i % 2, 100 + i));
    }
    assert_eq!(store.count("bob"), 6);
    assert_eq!(store.count("zed"), 6);
    assert_eq!(store.count("nobody"), 0);
}

#[test]
fn generated_task_has_the_given_fields() {
    assert_eq!(
        Tasks::generate_task_fields(3, "x".to_string(), 4, 5),
        task(3, "x", 4, 5)
    );
}

#[test]
fn task_reset_returns_owner_to_the_unseen_state() {
    let mut store = Tasks::new();
    store.add_task("carol", "a".to_string(), 1, 2);
    store.add_task("carol", "b".to_string(), 1, 3);
    store.add_task("dave", "c".to_string(), 1, 4);
    store.reset("carol");
    assert_eq!(store.get("carol"), None);
    assert_eq!(store.get_tasks("carol"), vec![]);
    assert_eq!(store.get_tasks("dave"), vec![task(0, "c", 1, 4)]);
    assert_eq!(store.add_task("carol", "d".to_string(), 0, 0).id, 0);
}

#[test]
fn task_reset_of_unseen_owner_changes_nothing() {
    let mut store = Tasks::new();
    store.add_task("erin", "a".to_string(), 1, 2);
    store.reset("nobody");
    assert_eq!(store.get("nobody"), None);
    assert_eq!(store.get("erin"), Some(vec![task(0, "a", 1, 2)]));
}

#[test]
fn caller_drawn_task_identifier_is_kept() {
    let mut store = Tasks::new();
    let added = store.add_task_with_id("frank", u64::MAX, "a".to_string(), 7, 8);
    assert_eq!(added, task(u64::MAX, "a", 7, 8));
    assert_eq!(store.add_task("frank", "b".to_string(), 0, 0).id, 1);
}

#[test]
fn tasks_text_of_none() {
    assert_eq!(tasks_format_output(&vec![]), "\n\n[]\n");
}

#[test]
fn tasks_text_of_one() {
    let text = tasks_format_output(&vec![task(0, "test-text", 0, 21)]);
    assert_eq!(
        text,
        "\n\t\t\t\t\n[{\n id: 0;\n text: test-text;\n category_id: 0;\n timestamp: 21;\n}]\n"
    );
}

#[test]
fn tasks_text_of_two() {
    let text = tasks_format_output(&vec![task(10, "a", 907, 1000), task(11, "b;\n", 9, 99)]);
    assert_eq!(
        text,
        "\n\t\t\t\t\t\t\t\t\n[{\n id: 10;\n text: a;\n category_id: 907;\n timestamp: 1000;\n}\
         {\n id: 11;\n text: b;\n;\n category_id: 9;\n timestamp: 99;\n}]\n"
    );
}

#[test]
fn task_clone_keeps_the_fields() {
    let first = task(1, "a", 2, 3);
    assert_eq!(first.clone(), first);
}

#[test]
fn append_without_a_creation_time_changes_nothing() {
    let mut store = Tasks::new();
    store.add_task("gina", "a".to_string(), 1, 2);
    let refused = store.try_add_task("gina", "b".to_string(), 1, None);
    assert_eq!(refused, Err(StoreError::TimeSourceFailure));
    let unseen = store.try_add_task("hank", "b".to_string(), 1, None);
    assert_eq!(unseen, Err(StoreError::TimeSourceFailure));
    assert_eq!(store.get_tasks("gina"), vec![task(0, "a", 1, 2)]);
    assert_eq!(store.get("hank"), None);
    let accepted = store.try_add_task("gina", "b".to_string(), 1, Some(3));
    assert_eq!(accepted, Ok(task(1, "b", 1, 3)));
    assert_eq!(store.count("gina"), 2);
}
