use org_cli::calendar::{Date, Time};
use org_cli::models::{Event, Habit, InboxItem, InboxSection, Task};
use org_cli::parser::{Headline, OrgTimestamp, Properties, TimestampType, TodoState};

fn date(y: i32, m: u32, d: u32) -> Date {
    Date::from_ymd_opt(y, m, d).unwrap()
}

fn scheduled(d: Date, repeater: Option<&str>) -> OrgTimestamp {
    OrgTimestamp {
        timestamp_type: TimestampType::Scheduled,
        date: d,
        time: None,
        end_time: None,
        repeater: repeater.map(|r| r.to_string()),
    }
}

fn task_headline() -> Headline {
    Headline {
        level: 2,
        todo_state: Some(TodoState::Todo),
        priority: Some('A'),
        title: "Test task".to_string(),
        tags: vec!["work".to_string()],
        properties: Properties {
            id: Some("task-id".to_string()),
            ..Default::default()
        },
        scheduled: Some(scheduled(date(2026, 3, 6), None)),
        deadline: Some(OrgTimestamp {
            timestamp_type: TimestampType::Deadline,
            date: date(2026, 3, 10),
            time: None,
            end_time: None,
            repeater: None,
        }),
        closed: None,
        body: "Task body".to_string(),
        line_number: 10,
    }
}

fn habit_headline() -> Headline {
    Headline {
        level: 2,
        todo_state: Some(TodoState::Todo),
        priority: None,
        title: "Log weight".to_string(),
        tags: vec![],
        properties: Properties {
            id: Some("habit-id".to_string()),
            style: Some("habit".to_string()),
            ..Default::default()
        },
        scheduled: Some(scheduled(date(2026, 3, 6), Some(".+1d"))),
        deadline: None,
        closed: None,
        body: String::new(),
        line_number: 5,
    }
}

fn plain_headline(title: &str, body: &str) -> Headline {
    Headline {
        level: 2,
        todo_state: None,
        priority: None,
        title: title.to_string(),
        tags: vec![],
        properties: Properties::default(),
        scheduled: None,
        deadline: None,
        closed: None,
        body: body.to_string(),
        line_number: 10,
    }
}

fn event_headline() -> Headline {
    Headline {
        level: 2,
        todo_state: None,
        priority: None,
        title: "Meeting with John".to_string(),
        tags: vec![],
        properties: Properties {
            id: Some("event-id".to_string()),
            location: Some("Coffee Shop".to_string()),
            ..Default::default()
        },
        scheduled: None,
        deadline: None,
        closed: None,
        body: "<2026-03-06 Fri 10:00-11:00>\nDiscuss project.".to_string(),
        line_number: 5,
    }
}

fn inbox_headline() -> Headline {
    Headline {
        level: 2,
        todo_state: Some(TodoState::Todo),
        priority: Some('B'),
        title: "Inbox item".to_string(),
        tags: vec!["urgent".to_string()],
        properties: Properties {
            id: Some("inbox-item-id".to_string()),
            ..Default::default()
        },
        scheduled: Some(scheduled(date(2026, 3, 6), None)),
        deadline: None,
        closed: None,
        body: "Item body".to_string(),
        line_number: 15,
    }
}

#[test]
fn task_test_from_headline() {
    let task = Task::from_headline(&task_headline(), "/path/to/file.org");
    assert_eq!(task.id, Some("task-id".to_string()));
    assert_eq!(task.title, "Test task");
    assert_eq!(task.state, Some(TodoState::Todo));
    assert_eq!(task.priority, Some('A'));
    assert_eq!(task.tags, vec!["work"]);
    assert_eq!(task.scheduled, Some(date(2026, 3, 6)));
    assert_eq!(task.deadline, Some(date(2026, 3, 10)));
    assert_eq!(task.file_path, "/path/to/file.org");
    assert_eq!(task.line_number, 10);
}

#[test]
fn task_test_is_done() {
    let mut task = Task::from_headline(&task_headline(), "test.org");
    assert!(!task.is_done());
    task.state = Some(TodoState::Done);
    assert!(task.is_done());
    task.state = Some(TodoState::Cancelled);
    assert!(task.is_done());
    task.state = None;
    assert!(!task.is_done());
}

#[test]
fn test_is_scheduled_for() {
    let task = Task::from_headline(&task_headline(), "test.org");
    assert!(task.is_scheduled_for(date(2026, 3, 6)));
    assert!(!task.is_scheduled_for(date(2026, 3, 7)));
}

#[test]
fn test_is_scheduled_on_or_before() {
    let task = Task::from_headline(&task_headline(), "test.org");
    assert!(!task.is_scheduled_on_or_before(date(2026, 3, 5)));
    assert!(task.is_scheduled_on_or_before(date(2026, 3, 6)));
    assert!(task.is_scheduled_on_or_before(date(2026, 3, 7)));
}

#[test]
fn test_has_deadline_on_or_before() {
    let task = Task::from_headline(&task_headline(), "test.org");
    assert!(!task.has_deadline_on_or_before(date(2026, 3, 9)));
    assert!(task.has_deadline_on_or_before(date(2026, 3, 10)));
    assert!(task.has_deadline_on_or_before(date(2026, 3, 11)));
}

#[test]
fn test_from_headline_habit() {
    let habit = Habit::from_headline(&habit_headline(), "habits.org");
    assert!(habit.is_some());
    let habit = habit.unwrap();
    assert_eq!(habit.id, Some("habit-id".to_string()));
    assert_eq!(habit.title, "Log weight");
    assert_eq!(habit.repeater, Some(".+1d".to_string()));
}

#[test]
fn test_from_headline_non_habit() {
    let habit = Habit::from_headline(&plain_headline("Regular task", ""), "test.org");
    assert!(habit.is_none());
}

#[test]
fn test_is_due() {
    let habit = Habit::from_headline(&habit_headline(), "habits.org").unwrap();
    assert!(!habit.is_due(date(2026, 3, 5)));
    assert!(habit.is_due(date(2026, 3, 6)));
    assert!(habit.is_due(date(2026, 3, 7)));
}

#[test]
fn test_from_headline_event() {
    let event = Event::from_headline(&event_headline(), "calendar.org");
    assert!(event.is_some());
    let event = event.unwrap();
    assert_eq!(event.title, "Meeting with John");
    assert_eq!(event.date, date(2026, 3, 6));
    assert_eq!(event.start_time, Some(Time::from_hm_opt(10, 0).unwrap()));
    assert_eq!(event.end_time, Some(Time::from_hm_opt(11, 0).unwrap()));
    assert_eq!(event.location, Some("Coffee Shop".to_string()));
}

#[test]
fn test_from_headline_non_event() {
    let event = Event::from_headline(&plain_headline("Not an event", "No timestamp here"), "test.org");
    assert!(event.is_none());
}

#[test]
fn test_is_on_date() {
    let event = Event::from_headline(&event_headline(), "calendar.org").unwrap();
    assert!(event.is_on_date(date(2026, 3, 6)));
    assert!(!event.is_on_date(date(2026, 3, 7)));
}

#[test]
fn test_is_in_range() {
    let event = Event::from_headline(&event_headline(), "calendar.org").unwrap();
    assert!(event.is_in_range(date(2026, 3, 1), date(2026, 3, 10)));
    assert!(event.is_in_range(date(2026, 3, 6), date(2026, 3, 6)));
    assert!(!event.is_in_range(date(2026, 3, 1), date(2026, 3, 5)));
}

#[test]
fn test_inbox_section_from_str() {
    assert_eq!(InboxSection::from_str("personal"), Some(InboxSection::Personal));
    assert_eq!(InboxSection::from_str("PERSONAL"), Some(InboxSection::Personal));
    assert_eq!(InboxSection::from_str("work"), Some(InboxSection::Work));
    assert_eq!(InboxSection::from_str("email"), Some(InboxSection::Email));
    assert_eq!(InboxSection::from_str("invalid"), None);
}

#[test]
fn test_inbox_section_as_str() {
    assert_eq!(InboxSection::Personal.as_str(), "Personal");
    assert_eq!(InboxSection::Work.as_str(), "Work");
    assert_eq!(InboxSection::Email.as_str(), "Email");
}

#[test]
fn test_inbox_section_parsing() {
    assert!(InboxSection::from_str("personal").is_some());
    assert!(InboxSection::from_str("work").is_some());
    assert!(InboxSection::from_str("email").is_some());
    assert!(InboxSection::from_str("invalid").is_none());
}

#[test]
fn inbox_item_test_from_headline() {
    let item = InboxItem::from_headline(&inbox_headline(), InboxSection::Work);
    assert_eq!(item.id, Some("inbox-item-id".to_string()));
    assert_eq!(item.title, "Inbox item");
    assert_eq!(item.section, InboxSection::Work);
    assert_eq!(item.state, Some(TodoState::Todo));
    assert_eq!(item.priority, Some('B'));
    assert_eq!(item.tags, vec!["urgent"]);
    assert_eq!(item.scheduled, Some(date(2026, 3, 6)));
}

#[test]
fn inbox_item_test_is_done() {
    let mut item = InboxItem::from_headline(&inbox_headline(), InboxSection::Personal);
    assert!(!item.is_done());
    item.state = Some(TodoState::Done);
    assert!(item.is_done());
}

#[test]
fn section_name_round_trip() {
    for s in [InboxSection::Personal, InboxSection::Work, InboxSection::Email] {
        assert_eq!(InboxSection::from_str(s.as_str()), Some(s));
    }
}

#[test]
fn habit_without_schedule_is_never_due() {
    let mut h = habit_headline();
    h.scheduled = None;
    let habit = Habit::from_headline(&h, "habits.org").unwrap();
    assert!(habit.repeater.is_none());
    assert!(!habit.is_due(date(2100, 1, 1)));
}

#[test]
fn section_names_read_in_any_case() {
    for s in [InboxSection::Personal, InboxSection::Work, InboxSection::Email] {
        assert_eq!(InboxSection::from_str(&s.as_str().to_uppercase()), Some(s));
    }
    assert_eq!(InboxSection::from_str("WoRk"), Some(InboxSection::Work));
    assert_eq!(InboxSection::from_str("e-mail"), None);
}
