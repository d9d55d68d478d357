use todo_cli::todo::{Priority, TodoError, TodoList};

fn stamp() -> String {
    String::from("2024-01-15T10:30:00+00:00")
}

#[test]
fn empty_store_starts_at_one() {
    let list = TodoList::new();
    assert_eq!(list.tasks.len(), 0);
    assert_eq!(list.next_id, 1);
}

#[test]
fn add_assigns_sequential_ids() {
    let mut list = TodoList::new();
    list.add_at(String::from("one"), Priority::Low, stamp());
    list.add_at(String::from("two"), Priority::High, stamp());
    list.add_at(String::from("three"), Priority::Medium, stamp());
    assert_eq!(list.tasks.len(), 3);
    assert_eq!(list.tasks[0].id, 1);
    assert_eq!(list.tasks[1].id, 2);
    assert_eq!(list.tasks[2].id, 3);
    assert_eq!(list.next_id, 4);
}

#[test]
fn ids_are_not_reused_after_delete() {
    let mut list = TodoList::new();
    list.add_at(String::from("one"), Priority::Low, stamp());
    list.add_at(String::from("two"), Priority::Low, stamp());
    assert_eq!(list.delete(1), Ok(()));
    list.add_at(String::from("three"), Priority::Low, stamp());
    assert_eq!(list.tasks.len(), 2);
    assert_eq!(list.tasks[0].id, 2);
    assert_eq!(list.tasks[1].id, 3);
    assert_eq!(list.next_id, 4);
}

#[test]
fn complete_marks_task_and_is_idempotent() {
    let mut list = TodoList::new();
    list.add_at(String::from("one"), Priority::Low, stamp());
    assert!(!list.tasks[0].completed);
    assert_eq!(list.complete(1), Ok(()));
    assert!(list.tasks[0].completed);
    let before: Vec<(usize, String, bool)> = list
        .tasks
        .iter()
        .map(|t| (t.id, t.description.clone(), t.completed))
        .collect();
    assert_eq!(list.complete(1), Ok(()));
    let after: Vec<(usize, String, bool)> = list
        .tasks
        .iter()
        .map(|t| (t.id, t.description.clone(), t.completed))
        .collect();
    assert_eq!(before, after);
    assert_eq!(list.next_id, 2);
}

#[test]
fn complete_missing_id_fails_and_changes_nothing() {
    let mut list = TodoList::new();
    list.add_at(String::from("one"), Priority::Low, stamp());
    assert_eq!(list.complete(99), Err(TodoError::TaskNotFound(99)));
    assert_eq!(list.tasks.len(), 1);
    assert!(!list.tasks[0].completed);
    assert_eq!(list.next_id, 2);
}

#[test]
fn delete_missing_id_fails_and_changes_nothing() {
    let mut list = TodoList::new();
    list.add_at(String::from("one"), Priority::Low, stamp());
    assert_eq!(list.delete(99), Err(TodoError::TaskNotFound(99)));
    assert_eq!(list.tasks.len(), 1);
    assert_eq!(list.next_id, 2);
}

#[test]
fn delete_removes_exactly_one_and_keeps_order() {
    let mut list = TodoList::new();
    list.add_at(String::from("one"), Priority::Low, stamp());
    list.add_at(String::from("two"), Priority::Medium, stamp());
    list.add_at(String::from("three"), Priority::High, stamp());
    assert_eq!(list.delete(2), Ok(()));
    assert_eq!(list.tasks.len(), 2);
    assert_eq!(list.tasks[0].id, 1);
    assert_eq!(list.tasks[0].description, "one");
    assert_eq!(list.tasks[1].id, 3);
    assert_eq!(list.tasks[1].description, "three");
    assert_eq!(list.next_id, 4);
}

#[test]
fn clear_empties_and_resets_counter() {
    let mut list = TodoList::new();
    list.add_at(String::from("one"), Priority::Low, stamp());
    list.add_at(String::from("two"), Priority::Low, stamp());
    list.clear();
    assert_eq!(list.tasks.len(), 0);
    assert_eq!(list.next_id, 1);
    list.add_at(String::from("again"), Priority::Low, stamp());
    assert_eq!(list.tasks[0].id, 1);
}

#[test]
fn add_with_clock_stamps_and_counts() {
    let mut list = TodoList::new();
    list.add(String::from("one"), Priority::Low);
    assert_eq!(list.tasks.len(), 1);
    assert_eq!(list.tasks[0].id, 1);
    assert!(!list.tasks[0].completed);
    assert_eq!(list.next_id, 2);
}

#[test]
fn full_scenario() {
    let mut list = TodoList::new();
    list.add_at(String::from("buy milk"), Priority::Low, stamp());
    assert_eq!(list.tasks.len(), 1);
    assert_eq!(list.tasks[0].id, 1);
    assert!(!list.tasks[0].completed);
    assert_eq!(list.complete(1), Ok(()));
    assert!(list.tasks[0].completed);
    list.add_at(String::from("walk dog"), Priority::High, stamp());
    assert_eq!(list.tasks[1].id, 2);
    assert_eq!(list.delete(1), Ok(()));
    assert_eq!(list.tasks.len(), 1);
    assert_eq!(list.tasks[0].id, 2);
    list.clear();
    assert_eq!(list.tasks.len(), 0);
    list.add_at(String::from("fresh"), Priority::Medium, stamp());
    assert_eq!(list.tasks[0].id, 1);
}
