use task_tracker::{Priority, Task, TasksManager, Timestamp};

fn stamp(hour: u8) -> Timestamp {
    Timestamp {
        year: 2024,
        month: 3,
        day: 7,
        hour,
        minute: 30,
        second: 45,
        offset_minutes: 120,
    }
}

fn task(name: &str, description: &str, priority: Priority, hour: u8) -> Task {
    Task::with_time(name.to_owned(), description.to_owned(), priority, stamp(hour))
}

#[test]
fn list_keeps_insertion_order() {
    let mut m = TasksManager::new();
    m.add_task(task("a", "first", Priority::Low, 1));
    m.add_task(task("b", "second", Priority::Medium, 2));
    m.add_task(task("c", "third", Priority::High, 3));
    let names: Vec<&str> = m.tasks().iter().map(|t| t.name.as_str()).collect();
    assert_eq!(names, vec!["a", "b", "c"]);
}

#[test]
fn find_returns_first_match() {
    let mut m = TasksManager::new();
    m.add_task(task("x", "one", Priority::Low, 1));
    m.add_task(task("y", "two", Priority::Medium, 2));
    m.add_task(task("y", "three", Priority::High, 3));
    assert_eq!(m.find_task("y".to_owned()), Some(1));
    assert_eq!(m.find_task("x".to_owned()), Some(0));
    assert_eq!(m.find_task("z".to_owned()), None);
}

#[test]
fn remove_shrinks_by_one_and_keeps_order() {
    let mut m = TasksManager::new();
    m.add_task(task("a", "first", Priority::Low, 1));
    m.add_task(task("b", "second", Priority::Medium, 2));
    m.add_task(task("c", "third", Priority::High, 3));
    let r = m.remove_task("b");
    assert_eq!(r, Ok("Task \"b\" removed successfully".to_owned()));
    assert_eq!(m.len(), 2);
    let names: Vec<&str> = m.tasks().iter().map(|t| t.name.as_str()).collect();
    assert_eq!(names, vec!["a", "c"]);
}

#[test]
fn remove_missing_name_fails_and_leaves_collection() {
    let mut m = TasksManager::new();
    m.add_task(task("a", "first", Priority::Low, 1));
    let r = m.remove_task("b");
    assert_eq!(r, Err("Task with name \"b\" doesn't exist".to_owned()));
    assert_eq!(m.len(), 1);
    assert_eq!(m.tasks()[0].name, "a");
    assert_eq!(m.tasks()[0].description, "first");
}

#[test]
fn remove_on_empty_collection_names_the_task() {
    let mut m = TasksManager::new();
    let r = m.remove_task("Nonexistent");
    let msg = r.unwrap_err();
    assert!(msg.contains("Nonexistent"));
    assert_eq!(m.len(), 0);
}

#[test]
fn edit_preserves_creation_time_and_position() {
    let mut m = TasksManager::new();
    m.add_task(task("a", "first", Priority::Low, 1));
    m.add_task(task("b", "second", Priority::Medium, 2));
    let replacement = task("b2", "changed", Priority::High, 23);
    let r = m.edit_task("b", replacement);
    assert_eq!(r, Ok("Task \"b\" updated successfully".to_owned()));
    assert_eq!(m.len(), 2);
    let edited = &m.tasks()[1];
    assert_eq!(edited.name, "b2");
    assert_eq!(edited.description, "changed");
    assert_eq!(edited.priority, Priority::High);
    assert_eq!(edited.add_time, stamp(2));
}

#[test]
fn edit_missing_name_fails_and_leaves_collection() {
    let mut m = TasksManager::new();
    m.add_task(task("a", "first", Priority::Low, 1));
    let r = m.edit_task("missing", task("n", "d", Priority::Low, 4));
    assert_eq!(r, Err("Task with name \"missing\" doesn't exist".to_owned()));
    assert_eq!(m.len(), 1);
    assert_eq!(m.tasks()[0].name, "a");
}

#[test]
fn duplicate_names_reach_only_the_first() {
    let mut m = TasksManager::new();
    m.add_task(task("Write report", "Q3 summary", Priority::Medium, 9));
    m.add_task(task("Write report", "duplicate", Priority::Low, 10));
    let i = m.find_task("Write report".to_owned()).unwrap();
    assert_eq!(i, 0);
    assert_eq!(m.tasks()[i].description, "Q3 summary");
    assert_eq!(m.tasks()[i].priority, Priority::Medium);
    let r = m.edit_task(
        "Write report",
        task("Write report", "revised", Priority::High, 11),
    );
    assert!(r.is_ok());
    assert_eq!(m.tasks()[0].description, "revised");
    assert_eq!(m.tasks()[0].priority, Priority::High);
    assert_eq!(m.tasks()[1].description, "duplicate");
    assert_eq!(m.tasks()[1].priority, Priority::Low);
}
