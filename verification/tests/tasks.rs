use argus::ops::{append_task, finish_task, push_new_task, remove_task, visible_positions_of};
use argus::task::Task;

fn sample(id: &str, description: &str, done: bool, removed: bool) -> Task {
    Task {
        id: id.to_string(),
        description: description.to_string(),
        done,
        creation_date: "2024-01-02 03:04:05.000000000 +00:00".to_string(),
        removed,
    }
}

#[test]
fn append_extends_the_list() {
    let mut tasks: Vec<Task> = Vec::new();
    assert!(append_task(&mut tasks, "buy milk".to_string()).is_ok());
    assert_eq!(tasks.len(), 1);
    assert_eq!(tasks[0].description, "buy milk");
    assert!(!tasks[0].done);
    assert!(!tasks[0].removed);

    assert!(append_task(&mut tasks, "water plants".to_string()).is_ok());
    assert_eq!(tasks.len(), 2);
    assert_eq!(tasks[1].description, "water plants");
    assert_eq!(tasks[0].description, "buy milk");
}

#[test]
fn appended_ids_are_fresh_hyphenated_uuids() {
    let mut tasks: Vec<Task> = Vec::new();
    append_task(&mut tasks, "one".to_string()).unwrap();
    append_task(&mut tasks, "two".to_string()).unwrap();
    append_task(&mut tasks, "three".to_string()).unwrap();
    for t in &tasks {
        assert_eq!(t.id.chars().count(), 36);
    }
    assert_ne!(tasks[0].id, tasks[1].id);
    assert_ne!(tasks[0].id, tasks[2].id);
    assert_ne!(tasks[1].id, tasks[2].id);
}

#[test]
fn blank_descriptions_are_rejected() {
    let mut tasks: Vec<Task> = vec![sample("a", "kept", false, false)];
    assert!(append_task(&mut tasks, "".to_string()).is_err());
    assert!(append_task(&mut tasks, "   ".to_string()).is_err());
    assert!(append_task(&mut tasks, " \t\r\n ".to_string()).is_err());
    assert_eq!(tasks.len(), 1);
    assert_eq!(tasks[0].description, "kept");
}

#[test]
fn push_new_task_pins_every_field() {
    let mut tasks: Vec<Task> = Vec::new();
    push_new_task(
        &mut tasks,
        "call home".to_string(),
        "id-1".to_string(),
        "yesterday".to_string(),
    )
    .unwrap();
    assert_eq!(tasks.len(), 1);
    assert_eq!(tasks[0].id, "id-1");
    assert_eq!(tasks[0].description, "call home");
    assert_eq!(tasks[0].creation_date, "yesterday");
    assert!(!tasks[0].done);
    assert!(!tasks[0].removed);
}

#[test]
fn double_toggle_restores_the_list() {
    let mut tasks = vec![
        sample("a", "one", false, false),
        sample("b", "two", true, false),
        sample("c", "three", false, true),
    ];
    let before = tasks.clone();
    finish_task(&mut tasks, 2).unwrap();
    assert!(!tasks[1].done);
    finish_task(&mut tasks, 2).unwrap();
    assert_eq!(tasks, before);
}

#[test]
fn toggle_sets_done() {
    let mut tasks = vec![sample("a", "one", false, false)];
    finish_task(&mut tasks, 1).unwrap();
    assert!(tasks[0].done);
}

#[test]
fn removal_hides_but_keeps_the_slot() {
    let mut tasks = vec![
        sample("a", "one", false, false),
        sample("b", "two", false, false),
        sample("c", "three", false, false),
    ];
    remove_task(&mut tasks, 2).unwrap();
    assert_eq!(tasks.len(), 3);
    assert!(tasks[1].removed);
    assert_eq!(visible_positions_of(&tasks), vec![1, 3]);

    let before = tasks.clone();
    remove_task(&mut tasks, 2).unwrap();
    assert_eq!(tasks, before);
}

#[test]
fn out_of_range_positions_leave_the_list_alone() {
    let mut tasks = vec![sample("a", "one", false, false)];
    let before = tasks.clone();
    assert!(finish_task(&mut tasks, 0).is_err());
    assert!(finish_task(&mut tasks, 2).is_err());
    assert!(remove_task(&mut tasks, 0).is_err());
    assert!(remove_task(&mut tasks, 2).is_err());
    assert_eq!(tasks, before);
}

#[test]
fn toggle_on_the_empty_list_reports_not_found() {
    let mut tasks: Vec<Task> = Vec::new();
    assert!(finish_task(&mut tasks, 1).is_err());
    assert!(tasks.is_empty());
}

#[test]
fn a_session_from_an_empty_store() {
    let mut tasks = argus::json::load_tasks(None);
    assert!(tasks.is_empty());

    append_task(&mut tasks, "buy milk".to_string()).unwrap();
    assert_eq!(tasks.len(), 1);
    assert_eq!(tasks[0].description, "buy milk");

    finish_task(&mut tasks, 1).unwrap();
    assert!(tasks[0].done);

    remove_task(&mut tasks, 1).unwrap();
    assert!(visible_positions_of(&tasks).is_empty());
    assert_eq!(tasks.len(), 1);
}
