use task_tracker::{command_from_str, priority_from_str, Command, Priority, Task, Timestamp};

#[test]
fn command_selectors_map_to_menu_entries() {
    assert_eq!(command_from_str(&"1".to_owned()), Some(Command::AddTask));
    assert_eq!(command_from_str(&"2".to_owned()), Some(Command::FindTask));
    assert_eq!(command_from_str(&"3".to_owned()), Some(Command::EditTask));
    assert_eq!(command_from_str(&"4".to_owned()), Some(Command::RemoveTask));
    assert_eq!(command_from_str(&"5".to_owned()), Some(Command::PrintTasks));
    assert_eq!(command_from_str(&"6".to_owned()), Some(Command::StoreToFile));
    assert_eq!(command_from_str(&"7".to_owned()), Some(Command::ReadFromFile));
    assert_eq!(command_from_str(&"8".to_owned()), None);
    assert_eq!(command_from_str(&"".to_owned()), None);
    assert_eq!(command_from_str(&"one".to_owned()), None);
}

#[test]
fn clock_fields_carry_into_the_timestamp() {
    let t = Timestamp::from_clock_fields(2024, 3, 7, 9, 5, 59, 7200);
    assert_eq!(
        t,
        Timestamp {
            year: 2024,
            month: 3,
            day: 7,
            hour: 9,
            minute: 5,
            second: 59,
            offset_minutes: 120,
        }
    );
}

#[test]
fn clock_conversion_clamps_year_and_rounds_offset_toward_zero() {
    let early = Timestamp::from_clock_fields(-5, 1, 1, 0, 0, 0, -19800);
    assert_eq!(early.year, 0);
    assert_eq!(early.offset_minutes, -330);
    let late = Timestamp::from_clock_fields(123456, 12, 31, 23, 59, 59, 90);
    assert_eq!(late.year, 9999);
    assert_eq!(late.offset_minutes, 1);
    let partial = Timestamp::from_clock_fields(2000, 6, 15, 12, 30, 30, -90);
    assert_eq!(partial.offset_minutes, -1);
}

#[test]
fn priority_labels() {
    assert_eq!(Priority::Low.to_string(), "Low");
    assert_eq!(Priority::Medium.to_string(), "Medium");
    assert_eq!(Priority::High.to_string(), "High");
}

#[test]
fn priority_words_map_to_labels() {
    assert_eq!(priority_from_str(&"low".to_owned()), Some(Priority::Low));
    assert_eq!(
        priority_from_str(&"medium".to_owned()),
        Some(Priority::Medium)
    );
    assert_eq!(priority_from_str(&"high".to_owned()), Some(Priority::High));
    assert_eq!(priority_from_str(&"urgent".to_owned()), None);
    assert_eq!(priority_from_str(&"".to_owned()), None);
}

#[test]
fn display_renders_day_month_year_and_quoted_description() {
    let t = Task::with_time(
        "Write report".to_owned(),
        "Q3 summary".to_owned(),
        Priority::Medium,
        Timestamp {
            year: 2024,
            month: 3,
            day: 7,
            hour: 9,
            minute: 5,
            second: 0,
            offset_minutes: 60,
        },
    );
    assert_eq!(
        t.display_string(),
        "Write report | Medium | 07-03-2024 09:05:00\n\"Q3 summary\"\n"
    );
}

#[test]
fn task_new_stamps_a_plausible_time() {
    let t = Task::new("n".to_owned(), "d".to_owned(), Priority::Low);
    assert!(t.add_time.month >= 1 && t.add_time.month <= 12);
    assert!(t.add_time.day >= 1 && t.add_time.day <= 31);
    assert!(t.add_time.hour <= 23);
    assert_eq!(t.name, "n");
    assert_eq!(t.description, "d");
    assert_eq!(t.priority, Priority::Low);
}
