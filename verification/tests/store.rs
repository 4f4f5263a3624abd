use argus::json::{load_tasks, tasks_to_json};
use argus::task::Task;

fn sample(id: &str, description: &str, done: bool, removed: bool) -> Task {
    Task {
        id: id.to_string(),
        description: description.to_string(),
        done,
        creation_date: "2024-01-02 03:04:05.000000000 +00:00".to_string(),
        removed,
    }
}

#[test]
fn an_empty_list_serializes_to_an_empty_array() {
    let tasks: Vec<Task> = Vec::new();
    assert_eq!(tasks_to_json(&tasks), "[]");
}

#[test]
fn one_task_serializes_to_the_documented_form() {
    let mut t = sample("id-1", "buy milk", false, false);
    t.creation_date = "today".to_string();
    let text = tasks_to_json(&vec![t]);
    assert_eq!(
        text,
        "[\n  {\n    \"id\": \"id-1\",\n    \"description\": \"buy milk\",\n    \"done\": false,\n    \"creation_date\": \"today\",\n    \"removed\": false\n  }\n]"
    );
}

#[test]
fn loading_an_empty_array_gives_no_tasks() {
    assert!(load_tasks(Some("[]")).is_empty());
}

#[test]
fn a_missing_store_gives_no_tasks() {
    assert!(load_tasks(None).is_empty());
}

#[test]
fn corrupt_text_gives_no_tasks() {
    assert!(load_tasks(Some("")).is_empty());
    assert!(load_tasks(Some("not json at all")).is_empty());
    assert!(load_tasks(Some("{\"id\": 3}")).is_empty());
    assert!(load_tasks(Some("[")).is_empty());
    assert!(load_tasks(Some("[\n  {\n    \"id\": \"x\"")).is_empty());
}

#[test]
fn trailing_text_is_rejected() {
    let text = tasks_to_json(&vec![sample("a", "one", false, false)]);
    let mut longer = text.clone();
    longer.push_str(" ");
    assert!(load_tasks(Some(&longer)).is_empty());
}

#[test]
fn a_round_trip_keeps_every_field() {
    let tasks = vec![
        sample("a", "plain text", false, false),
        sample("b", "done and removed", true, true),
        sample("c", "quotes \" and \\ backslash", false, true),
        sample("d", "line\nbreak, tab\t, return\r", true, false),
        sample("e", "control \u{1} \u{8} \u{c} \u{1f} chars", false, false),
        sample("f", "unicode \u{e9}\u{4e16}\u{754c} text", false, false),
    ];
    let text = tasks_to_json(&tasks);
    let back = load_tasks(Some(&text));
    assert_eq!(back, tasks);
}

#[test]
fn a_round_trip_of_the_empty_list() {
    let tasks: Vec<Task> = Vec::new();
    let text = tasks_to_json(&tasks);
    assert_eq!(load_tasks(Some(&text)), tasks);
}

#[test]
fn a_two_task_document_loads_field_for_field() {
    let text = "[\n  {\n    \"id\": \"a\",\n    \"description\": \"first\",\n    \"done\": true,\n    \"creation_date\": \"d1\",\n    \"removed\": false\n  },\n  {\n    \"id\": \"b\",\n    \"description\": \"second \\\"quoted\\\"\",\n    \"done\": false,\n    \"creation_date\": \"d2\",\n    \"removed\": true\n  }\n]";
    let tasks = load_tasks(Some(text));
    assert_eq!(tasks.len(), 2);
    assert_eq!(tasks[0].id, "a");
    assert_eq!(tasks[0].description, "first");
    assert!(tasks[0].done);
    assert_eq!(tasks[0].creation_date, "d1");
    assert!(!tasks[0].removed);
    assert_eq!(tasks[1].id, "b");
    assert_eq!(tasks[1].description, "second \"quoted\"");
    assert!(!tasks[1].done);
    assert_eq!(tasks[1].creation_date, "d2");
    assert!(tasks[1].removed);
}

#[test]
fn the_store_text_is_json_that_other_readers_accept() {
    let tasks = vec![
        sample("a", "plain", true, false),
        sample("b", "escapes \" \\ \n \t \u{1}", false, true),
    ];
    let text = tasks_to_json(&tasks);
    let parsed: serde_json::Value = serde_json::from_str(&text).unwrap();
    let arr = parsed.as_array().unwrap();
    assert_eq!(arr.len(), 2);
    assert_eq!(arr[0]["id"].as_str().unwrap(), "a");
    assert_eq!(arr[0]["description"].as_str().unwrap(), "plain");
    assert_eq!(arr[0]["done"].as_bool().unwrap(), true);
    assert_eq!(arr[0]["removed"].as_bool().unwrap(), false);
    assert_eq!(
        arr[0]["creation_date"].as_str().unwrap(),
        "2024-01-02 03:04:05.000000000 +00:00"
    );
    assert_eq!(arr[1]["description"].as_str().unwrap(), "escapes \" \\ \n \t \u{1}");
    assert_eq!(arr[1]["done"].as_bool().unwrap(), false);
    assert_eq!(arr[1]["removed"].as_bool().unwrap(), true);
}
