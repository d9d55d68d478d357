use todo_cli::render::ListLine;
use todo_cli::todo::{Priority, TodoList};

fn stamp() -> String {
    String::from("2024-01-15T10:30:00+00:00")
}

#[test]
fn empty_store_lists_no_tasks_message() {
    let list = TodoList::new();
    let lines = list.list();
    assert_eq!(lines.len(), 1);
    assert!(matches!(lines[0], ListLine::NoTasks));
}

#[test]
fn listing_shows_tasks_counts_and_stamp() {
    let mut list = TodoList::new();
    list.add_at(String::from("buy milk"), Priority::Low, stamp());
    list.add_at(String::from("walk dog"), Priority::High, stamp());
    list.complete(1).unwrap();
    let lines = list.list();
    assert_eq!(lines.len(), 7);
    assert!(matches!(lines[0], ListLine::Header));
    assert!(matches!(lines[1], ListLine::Separator));
    match &lines[2] {
        ListLine::TaskLine { completed, id, description } => {
            assert!(*completed);
            assert_eq!(*id, 1);
            assert_eq!(description, "buy milk");
        }
        other => panic!("unexpected line: {:?}", line_kind(other)),
    }
    match &lines[3] {
        ListLine::CompletedOn { stamp } => {
            assert!(stamp.contains("-"));
            assert!(stamp.contains(":"));
        }
        other => panic!("unexpected line: {:?}", line_kind(other)),
    }
    match &lines[4] {
        ListLine::TaskLine { completed, id, description } => {
            assert!(!*completed);
            assert_eq!(*id, 2);
            assert_eq!(description, "walk dog");
        }
        other => panic!("unexpected line: {:?}", line_kind(other)),
    }
    assert!(matches!(lines[5], ListLine::Separator));
    match &lines[6] {
        ListLine::Footer { total, completed, pending } => {
            assert_eq!(*total, 2);
            assert_eq!(*completed, 1);
            assert_eq!(*pending, 1);
        }
        other => panic!("unexpected line: {:?}", line_kind(other)),
    }
}

#[test]
fn unparseable_stamp_gets_no_completed_line() {
    let mut list = TodoList::new();
    list.add_at(String::from("odd"), Priority::Low, String::from("not a time"));
    list.complete(1).unwrap();
    let lines = list.list();
    assert_eq!(lines.len(), 5);
    assert!(matches!(lines[2], ListLine::TaskLine { .. }));
    assert!(matches!(lines[3], ListLine::Separator));
}

#[test]
fn pending_task_gets_no_stamp_line() {
    let mut list = TodoList::new();
    list.add_at(String::from("later"), Priority::Medium, stamp());
    let lines = list.list();
    assert_eq!(lines.len(), 5);
    match &lines[4] {
        ListLine::Footer { total, completed, pending } => {
            assert_eq!(*total, 1);
            assert_eq!(*completed, 0);
            assert_eq!(*pending, 1);
        }
        other => panic!("unexpected line: {:?}", line_kind(other)),
    }
}

fn line_kind(l: &ListLine) -> &'static str {
    match l {
        ListLine::NoTasks => "NoTasks",
        ListLine::Header => "Header",
        ListLine::Separator => "Separator",
        ListLine::TaskLine { .. } => "TaskLine",
        ListLine::CompletedOn { .. } => "CompletedOn",
        ListLine::Footer { .. } => "Footer",
    }
}
