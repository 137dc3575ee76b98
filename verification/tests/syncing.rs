use canvas_sync::records::{AssignmentRecord, RecordStore};
use canvas_sync::sync::{sync_assignment, sync_course, Assignment, TaskAction};

fn assignment(id: &str, name: &str, due_at: Option<&str>) -> Assignment {
    Assignment { id: id.to_string(), name: name.to_string(), due_at: due_at.map(|s| s.to_string()) }
}

fn record(id: &str, title: &str, due_date: &str) -> AssignmentRecord {
    AssignmentRecord { id: id.to_string(), title: title.to_string(), due_date: due_date.to_string() }
}

fn create(content: &str, due_string: &str) -> TaskAction {
    TaskAction::Create { content: content.to_string(), due_string: due_string.to_string() }
}

fn delete(task_id: &str) -> TaskAction {
    TaskAction::Delete { task_id: task_id.to_string() }
}

#[test]
fn new_store_is_empty() {
    let store = RecordStore::new();
    assert!(store.records().is_empty());
    assert_eq!(store.get("1"), None);
}

#[test]
fn put_then_get() {
    let mut store = RecordStore::new();
    store.put(record("1", "A", "d1"));
    store.put(record("2", "B", "d2"));
    assert_eq!(store.get("1"), Some(&record("1", "A", "d1")));
    assert_eq!(store.get("2"), Some(&record("2", "B", "d2")));
    assert_eq!(store.get("3"), None);
    assert_eq!(store.get(""), None);
}

#[test]
fn put_replaces_under_the_same_id_and_keeps_order() {
    let mut store = RecordStore::new();
    store.put(record("1", "A", "d1"));
    store.put(record("2", "B", "d2"));
    store.put(record("1", "A2", "d3"));
    assert_eq!(store.records(), &vec![record("1", "A2", "d3"), record("2", "B", "d2")]);
}

#[test]
fn duplicate_record_is_equal() {
    let r = record("1", "A", "d1");
    assert_eq!(r.duplicate(), r);
}

#[test]
fn unseen_assignment_gets_a_task_and_a_record() {
    let mut store = RecordStore::new();
    let a = assignment("42", "Problem \"Set\" 1", Some("2024-03-10T02:00:00Z"));
    let actions = sync_assignment(&mut store, "CS 301", &a);
    assert_eq!(actions, vec![create("CS 301 Problem Set 1", "2024-03-09")]);
    assert_eq!(store.records(), &vec![record("42", "Problem Set 1", "2024-03-10T02:00:00Z")]);
}

#[test]
fn seen_assignment_with_same_due_date_is_left_alone() {
    let mut store = RecordStore::new();
    store.put(record("42", "PS1", "2024-03-10T02:00:00Z"));
    let a = assignment("42", "PS1 renamed", Some("2024-03-10T02:00:00Z"));
    assert_eq!(sync_assignment(&mut store, "CS 301", &a), vec![]);
    assert_eq!(store.records(), &vec![record("42", "PS1", "2024-03-10T02:00:00Z")]);
}

#[test]
fn changed_due_date_deletes_then_creates_and_updates_the_record() {
    let mut store = RecordStore::new();
    store.put(record("7", "Other", "2024-01-01T12:00:00Z"));
    store.put(record("42", "PS1", "2024-03-10T02:00:00Z"));
    let a = assignment("42", "PS1 renamed", Some("2024-03-12T12:00:00Z"));
    let actions = sync_assignment(&mut store, "CS 301", &a);
    assert_eq!(actions, vec![delete("42"), create("CS 301 PS1 renamed", "2024-03-12")]);
    assert_eq!(
        store.records(),
        &vec![record("7", "Other", "2024-01-01T12:00:00Z"), record("42", "PS1", "2024-03-12T12:00:00Z")]
    );
}

#[test]
fn unreadable_due_date_is_passed_over() {
    let mut store = RecordStore::new();
    store.put(record("42", "PS1", "2024-03-10T02:00:00Z"));
    for due in [None, Some("null"), Some("tomorrow")] {
        assert_eq!(sync_assignment(&mut store, "CS", &assignment("42", "PS1", due)), vec![]);
        assert_eq!(sync_assignment(&mut store, "CS", &assignment("43", "PS2", due)), vec![]);
    }
    assert_eq!(store.records(), &vec![record("42", "PS1", "2024-03-10T02:00:00Z")]);
}

#[test]
fn first_run_creates_a_task_for_every_valid_assignment() {
    let mut store = RecordStore::new();
    let items = vec![
        assignment("1", "Essay", Some("2024-03-10T02:00:00Z")),
        assignment("2", "Undated", None),
        assignment("3", "Quiz", Some("2024-03-11T15:00:00Z")),
        assignment("4", "Broken", Some("n/a")),
    ];
    let actions = sync_course(&mut store, "HIST 110: Europe", &items);
    assert_eq!(actions, vec![create("HIST 110 Essay", "2024-03-09"), create("HIST 110 Quiz", "2024-03-11")]);
    assert_eq!(
        store.records(),
        &vec![record("1", "Essay", "2024-03-10T02:00:00Z"), record("3", "Quiz", "2024-03-11T15:00:00Z")]
    );
}

#[test]
fn second_run_asks_for_nothing() {
    let mut store = RecordStore::new();
    let items = vec![
        assignment("1", "Essay", Some("2024-03-10T02:00:00Z")),
        assignment("2", "Undated", None),
        assignment("3", "Quiz", Some("2024-03-11T15:00:00Z")),
    ];
    assert_eq!(sync_course(&mut store, "HIST 110: Europe", &items).len(), 2);
    let after_first = store.records().clone();
    assert_eq!(sync_course(&mut store, "HIST 110: Europe", &items), vec![]);
    assert_eq!(store.records(), &after_first);
}

#[test]
fn sync_course_uses_the_short_name() {
    let mut store = RecordStore::new();
    let items = vec![assignment("1", "Lab", Some("2024-03-10T12:00:00Z"))];
    let actions = sync_course(&mut store, "Section Merge: Biology 101", &items);
    assert_eq!(actions, vec![create("Biology 101 Lab", "2024-03-10")]);
}

#[test]
fn sync_course_takes_assignments_in_order() {
    let mut store = RecordStore::new();
    let items = vec![
        assignment("1", "Draft", Some("2024-03-10T12:00:00Z")),
        assignment("1", "Draft", Some("2024-03-17T12:00:00Z")),
    ];
    let actions = sync_course(&mut store, "ENG2", &items);
    assert_eq!(
        actions,
        vec![create("ENG2 Draft", "2024-03-10"), delete("1"), create("ENG2 Draft", "2024-03-17")]
    );
    assert_eq!(store.records(), &vec![record("1", "Draft", "2024-03-17T12:00:00Z")]);
}

#[test]
fn sync_course_with_no_assignments() {
    let mut store = RecordStore::new();
    assert_eq!(sync_course(&mut store, "ENG2", &Vec::new()), vec![]);
    assert!(store.records().is_empty());
}
