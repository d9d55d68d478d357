use todo_cli::todo::{Priority, TodoError, TodoList};

fn stamp() -> String {
    String::from("2024-01-15T10:30:00+00:00")
}

const EMPTY_DOC: &str = "{\n  \"tasks\": [],\n  \"next_id\": 1\n}";

const ONE_TASK_DOC: &str = "{\n  \"tasks\": [\n    {\n      \"id\": 1,\n      \"description\": \"buy milk\",\n      \"completed\": false,\n      \"priority\": \"Low\",\n      \"created_at\": \"2024-01-15T10:30:00+00:00\"\n    }\n  ],\n  \"next_id\": 2\n}";

#[test]
fn save_empty_store() {
    let list = TodoList::new();
    assert_eq!(list.save(), EMPTY_DOC);
}

#[test]
fn save_one_task() {
    let mut list = TodoList::new();
    list.add_at(String::from("buy milk"), Priority::Low, stamp());
    assert_eq!(list.save(), ONE_TASK_DOC);
}

#[test]
fn load_missing_document_gives_empty_store() {
    let loaded = TodoList::load(None).unwrap();
    assert_eq!(loaded.tasks.len(), 0);
    assert_eq!(loaded.next_id, 1);
}

#[test]
fn load_reads_back_written_document() {
    let loaded = TodoList::load(Some(ONE_TASK_DOC)).unwrap();
    assert_eq!(loaded.tasks.len(), 1);
    assert_eq!(loaded.tasks[0].id, 1);
    assert_eq!(loaded.tasks[0].description, "buy milk");
    assert!(!loaded.tasks[0].completed);
    assert!(matches!(loaded.tasks[0].priority, Priority::Low));
    assert_eq!(loaded.tasks[0].created_at, "2024-01-15T10:30:00+00:00");
    assert_eq!(loaded.next_id, 2);
}

#[test]
fn save_load_save_reproduces_document() {
    let mut list = TodoList::new();
    list.add_at(String::from("one \"quoted\" \\ line\nbreak"), Priority::High, stamp());
    list.add_at(String::from("tab\there"), Priority::Medium, stamp());
    assert_eq!(list.complete(1), Ok(()));
    let doc = list.save();
    let loaded = TodoList::load(Some(doc.as_str())).unwrap();
    assert_eq!(loaded.save(), doc);
    assert!(loaded.tasks[0].completed);
    assert!(!loaded.tasks[1].completed);
    assert!(matches!(loaded.tasks[0].priority, Priority::High));
    assert_eq!(loaded.next_id, 3);
}

#[test]
fn empty_description_round_trips() {
    let mut list = TodoList::new();
    list.add_at(String::new(), Priority::Low, stamp());
    let doc = list.save();
    let loaded = TodoList::load(Some(doc.as_str())).unwrap();
    assert_eq!(loaded.tasks[0].description, "");
}

#[test]
fn escaped_characters_round_trip() {
    let mut list = TodoList::new();
    let strange = String::from("quote \" backslash \\ slash / bell \u{7} cr \r form \u{c}");
    list.add_at(strange.clone(), Priority::Low, stamp());
    let doc = list.save();
    let loaded = TodoList::load(Some(doc.as_str())).unwrap();
    assert_eq!(loaded.tasks[0].description, strange);
}

#[test]
fn non_ascii_round_trips() {
    let mut list = TodoList::new();
    let text = String::from("caf\u{e9} \u{1f600}");
    list.add_at(text.clone(), Priority::High, stamp());
    let doc = list.save();
    let loaded = TodoList::load(Some(doc.as_str())).unwrap();
    assert_eq!(loaded.tasks[0].description, text);
}

#[test]
fn unicode_escape_is_understood() {
    let doc = ONE_TASK_DOC.replace("buy milk", "buy\\u0041milk");
    let loaded = TodoList::load(Some(doc.as_str())).unwrap();
    assert_eq!(loaded.tasks[0].description, "buyAmilk");
}

#[test]
fn truncated_document_is_malformed() {
    assert_eq!(
        TodoList::load(Some("{\n  \"tasks\": [")).unwrap_err(),
        TodoError::Json
    );
}

#[test]
fn unknown_priority_is_malformed() {
    let doc = ONE_TASK_DOC.replace("\"Low\"", "\"Urgent\"");
    assert_eq!(TodoList::load(Some(doc.as_str())).unwrap_err(), TodoError::Json);
}

#[test]
fn trailing_content_is_malformed() {
    let mut doc = String::from(EMPTY_DOC);
    doc.push_str(" ");
    assert_eq!(TodoList::load(Some(doc.as_str())).unwrap_err(), TodoError::Json);
}

#[test]
fn leading_zero_is_malformed() {
    let doc = EMPTY_DOC.replace("\"next_id\": 1", "\"next_id\": 01");
    assert_eq!(TodoList::load(Some(doc.as_str())).unwrap_err(), TodoError::Json);
}

#[test]
fn oversized_counter_is_malformed() {
    let doc = EMPTY_DOC.replace(
        "\"next_id\": 1",
        "\"next_id\": 99999999999999999999999999999999",
    );
    assert_eq!(TodoList::load(Some(doc.as_str())).unwrap_err(), TodoError::Json);
}

#[test]
fn lone_surrogate_escape_is_malformed() {
    let doc = ONE_TASK_DOC.replace("buy milk", "bad\\ud800pair");
    assert_eq!(TodoList::load(Some(doc.as_str())).unwrap_err(), TodoError::Json);
}
