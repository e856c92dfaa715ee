use task_tracker::{parse_tasks, render_tasks, Priority, Task, TasksManager, Timestamp};

fn sample(name: &str, description: &str, priority: Priority, ts: Timestamp) -> Task {
    Task::with_time(name.to_owned(), description.to_owned(), priority, ts)
}

fn noon() -> Timestamp {
    Timestamp {
        year: 2024,
        month: 12,
        day: 31,
        hour: 12,
        minute: 0,
        second: 5,
        offset_minutes: -330,
    }
}

#[test]
fn empty_collection_renders_as_empty_array() {
    let m = TasksManager::new();
    let bytes = m.store_to_bytes();
    assert_eq!(bytes, b"[]".to_vec());
}

#[test]
fn one_task_renders_as_exact_json() {
    let mut m = TasksManager::new();
    m.add_task(sample("a", "b", Priority::Low, noon()));
    let bytes = m.store_to_bytes();
    let text = String::from_utf8(bytes).unwrap();
    assert_eq!(
        text,
        "[{\"name\":\"a\",\"description\":\"b\",\"priority\":\"Low\",\
         \"add_time\":\"2024-12-31T12:00:05-05:30\"}]"
    );
}

#[test]
fn escaping_covers_quotes_and_backslashes() {
    let mut m = TasksManager::new();
    m.add_task(sample("q\"uote", "back\\slash", Priority::High, noon()));
    let bytes = m.store_to_bytes();
    let text = String::from_utf8(bytes.clone()).unwrap();
    assert!(text.contains("q\\\"uote"));
    assert!(text.contains("back\\\\slash"));
    let loaded = parse_tasks(&bytes).unwrap();
    assert_eq!(loaded[0].name, "q\"uote");
    assert_eq!(loaded[0].description, "back\\slash");
}

#[test]
fn control_characters_are_escaped_as_unicode() {
    let mut m = TasksManager::new();
    m.add_task(sample("line\nbreak", "tab\there", Priority::Low, noon()));
    let bytes = m.store_to_bytes();
    let text = String::from_utf8(bytes.clone()).unwrap();
    assert!(text.contains("line\\u000abreak"));
    assert!(text.contains("tab\\u0009here"));
    assert!(!text.contains('\n'));
    let loaded = parse_tasks(&bytes).unwrap();
    assert_eq!(loaded[0].name, "line\nbreak");
    assert_eq!(loaded[0].description, "tab\there");
}

#[test]
fn round_trip_restores_fields_and_order() {
    let mut m = TasksManager::new();
    m.add_task(sample("first", "plain", Priority::Low, noon()));
    m.add_task(sample(
        "zweite Aufgabe \u{00e9}\u{6f22}",
        "text with \"quotes\", commas, and \\ slashes",
        Priority::Medium,
        Timestamp {
            year: 1999,
            month: 1,
            day: 2,
            hour: 3,
            minute: 4,
            second: 5,
            offset_minutes: 0,
        },
    ));
    m.add_task(sample("third", "", Priority::High, noon()));
    let bytes = m.store_to_bytes();
    let mut restored = TasksManager::new();
    let r = restored.load_from_bytes(&bytes);
    assert_eq!(r, Ok("Data read successfully".to_owned()));
    assert_eq!(restored.len(), m.len());
    for (a, b) in m.tasks().iter().zip(restored.tasks().iter()) {
        assert_eq!(a.name, b.name);
        assert_eq!(a.description, b.description);
        assert_eq!(a.priority, b.priority);
        assert_eq!(a.add_time, b.add_time);
    }
}

#[test]
fn round_trip_of_empty_collection() {
    let m = TasksManager::new();
    let bytes = m.store_to_bytes();
    let mut restored = TasksManager::new();
    restored.add_task(sample("left over", "gets replaced", Priority::Low, noon()));
    let r = restored.load_from_bytes(&bytes);
    assert!(r.is_ok());
    assert_eq!(restored.len(), 0);
}

#[test]
fn malformed_document_is_refused_and_state_kept() {
    let mut m = TasksManager::new();
    m.add_task(sample("keep", "me", Priority::Low, noon()));
    let garbage = b"not json at all".to_vec();
    let r = m.load_from_bytes(&garbage);
    assert_eq!(
        r,
        Err("Error reading file: not a stored task list".to_owned())
    );
    assert_eq!(m.len(), 1);
    assert_eq!(m.tasks()[0].name, "keep");
}

#[test]
fn truncated_document_is_refused() {
    let mut m = TasksManager::new();
    m.add_task(sample("a", "b", Priority::Low, noon()));
    let mut bytes = m.store_to_bytes();
    bytes.pop();
    assert!(parse_tasks(&bytes).is_none());
}

#[test]
fn out_of_range_timestamp_is_refused() {
    let text = "[{\"name\":\"a\",\"description\":\"b\",\"priority\":\"Low\",\
                \"add_time\":\"2024-13-31T12:00:05+00:00\"}]";
    assert!(parse_tasks(&text.as_bytes().to_vec()).is_none());
}

#[test]
fn render_tasks_matches_store() {
    let t = sample("n", "d", Priority::Medium, noon());
    let v = vec![t];
    let bytes = render_tasks(&v);
    let text = String::from_utf8(bytes).unwrap();
    assert!(text.starts_with("[{\"name\":\"n\""));
    assert!(text.contains("\"priority\":\"Medium\""));
    assert!(text.ends_with("\"}]"));
}
