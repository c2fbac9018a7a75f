use org_cli::calendar::Date;
use org_cli::parser::OrgFile;
use org_cli::tools::agenda::{get_agenda_for_date, get_agenda_upcoming_from, AgendaDay};

const INBOX: &str = "#+title: Inbox\n* Personal :personal:\n** TODO Personal task\nSCHEDULED: <2026-03-06 Fri>\n:PROPERTIES:\n:ID:       personal-task-id\n:END:\n* Work :work:\n** TODO Work task\nSCHEDULED: <2026-03-06 Fri>\nDEADLINE: <2026-03-10 Tue>\n:PROPERTIES:\n:ID:       work-task-id\n:END:\n** TODO Overdue task\nSCHEDULED: <2026-03-05 Thu>\n:PROPERTIES:\n:ID:       overdue-task-id\n:END:\n** DONE Completed task\n:PROPERTIES:\n:ID:       completed-task-id\n:END:";

const HABITS: &str = "#+title: Habits\n* Habits\n** TODO Log weight\nSCHEDULED: <2026-03-06 Fri .+1d>\n:PROPERTIES:\n:ID:       habit-weight-id\n:STYLE:    habit\n:END:\n** TODO Check emails\nSCHEDULED: <2026-03-06 Fri .+1d>\n:PROPERTIES:\n:ID:       habit-email-id\n:STYLE:    habit\n:END:";

const CALENDAR: &str = "#+title: Calendar\n* Events\n** Meeting with John\n<2026-03-06 Fri 10:00-11:00>\n:PROPERTIES:\n:ID:       meeting-id\n:LOCATION: Coffee Shop\n:END:\n** Future meeting\n<2026-03-10 Tue 14:00-15:00>\n:PROPERTIES:\n:ID:       future-meeting-id\n:END:";

fn files() -> Vec<OrgFile> {
    vec![
        OrgFile::parse_content(INBOX, "/tmp/inbox.org".to_string()).unwrap(),
        OrgFile::parse_content(HABITS, "/tmp/habits.org".to_string()).unwrap(),
        OrgFile::parse_content(CALENDAR, "/tmp/calendar.org".to_string()).unwrap(),
    ]
}

fn date(y: i32, m: u32, d: u32) -> Date {
    Date::from_ymd_opt(y, m, d).unwrap()
}

#[test]
fn test_get_agenda_for_date() {
    let agenda = get_agenda_for_date(&files(), date(2026, 3, 6));
    assert!(!agenda.tasks.is_empty());
    assert!(agenda.tasks.iter().any(|t| t.title == "Personal task"));
    assert!(agenda.tasks.iter().any(|t| t.title == "Work task"));
    assert!(agenda.tasks.iter().any(|t| t.title == "Overdue task"));
    assert!(!agenda.tasks.iter().any(|t| t.title == "Completed task"));
    assert_eq!(agenda.habits.len(), 2);
    assert!(agenda.habits.iter().any(|h| h.title == "Log weight"));
    assert_eq!(agenda.events.len(), 1);
    assert_eq!(agenda.events[0].title, "Meeting with John");
}

#[test]
fn test_get_agenda_upcoming() {
    let fs = files();
    let agenda_6 = get_agenda_for_date(&fs, date(2026, 3, 6));
    let agenda_10 = get_agenda_for_date(&fs, date(2026, 3, 10));
    assert!(agenda_6.events.iter().any(|e| e.title == "Meeting with John"));
    assert!(agenda_10.events.iter().any(|e| e.title == "Future meeting"));
    assert!(agenda_10.tasks.iter().any(|t| t.title == "Work task"));
}

#[test]
fn test_agenda_day_new() {
    let d = date(2026, 3, 6);
    let agenda = AgendaDay::new(d);
    assert_eq!(agenda.date, d);
    assert!(agenda.tasks.is_empty());
    assert!(agenda.habits.is_empty());
    assert!(agenda.events.is_empty());
}

#[test]
fn test_missing_file_is_skipped() {
    let agenda = get_agenda_for_date(&Vec::new(), date(2026, 3, 6));
    assert!(agenda.tasks.is_empty());
}

#[test]
fn upcoming_days_follow_each_other() {
    let days = get_agenda_upcoming_from(&files(), date(2026, 3, 5), 6).unwrap();
    assert_eq!(days.len(), 6);
    assert_eq!(days[0].date, date(2026, 3, 5));
    assert_eq!(days[5].date, date(2026, 3, 10));
    assert!(days[1].events.iter().any(|e| e.title == "Meeting with John"));
    assert!(days[5].events.iter().any(|e| e.title == "Future meeting"));
    assert!(days[0].habits.is_empty());
    assert_eq!(days[1].habits.len(), 2);
}

#[test]
fn upcoming_past_the_calendar_end_is_none() {
    let last = date(262142, 12, 31);
    assert!(get_agenda_upcoming_from(&Vec::new(), last, 2).is_none());
    assert_eq!(get_agenda_upcoming_from(&Vec::new(), last, 1).unwrap().len(), 1);
}

#[test]
fn agenda_entries_belong_on_the_day() {
    let d = date(2026, 3, 5);
    let agenda = get_agenda_for_date(&files(), d);
    assert!(agenda.habits.iter().all(|h| h.is_due(d)));
    assert!(agenda.events.iter().all(|e| e.date == d));
    assert!(agenda.tasks.iter().all(|t| !t.is_done() && (t.is_scheduled_on_or_before(d) || t.has_deadline_on_or_before(d))));
    assert_eq!(agenda.tasks.len(), 1);
    assert_eq!(agenda.tasks[0].title, "Overdue task");
}

#[test]
fn today_is_a_real_date() {
    let agenda = org_cli::tools::agenda::get_agenda_today(&Vec::new());
    let d = agenda.date;
    assert!(Date::from_ymd_opt(d.year, d.month, d.day).is_some());
    assert!(agenda.tasks.is_empty() && agenda.habits.is_empty() && agenda.events.is_empty());
    let days = org_cli::tools::agenda::get_agenda_upcoming(&files(), 3).unwrap();
    assert_eq!(days.len(), 3);
    let habits_today = org_cli::tools::habits::get_habits_due_today(&Vec::new());
    assert!(habits_today.is_empty());
}

#[test]
fn upcoming_days_cross_a_leap_day() {
    let days = get_agenda_upcoming_from(&Vec::new(), date(2024, 2, 27), 4).unwrap();
    let got: Vec<Date> = days.iter().map(|d| d.date).collect();
    assert_eq!(
        got,
        vec![date(2024, 2, 27), date(2024, 2, 28), date(2024, 2, 29), date(2024, 3, 1)]
    );
    let days = get_agenda_upcoming_from(&Vec::new(), date(2025, 12, 31), 2).unwrap();
    assert_eq!(days[1].date, date(2026, 1, 1));
}

#[test]
fn weekday_abbreviations() {
    assert_eq!(date(2026, 3, 6).weekday_abbrev(), "Fri");
    assert_eq!(date(2026, 7, 24).weekday_abbrev(), "Fri");
    assert_eq!(date(1, 1, 1).weekday_abbrev(), "Mon");
    assert_eq!(date(2000, 1, 1).weekday_abbrev(), "Sat");
    assert_eq!(date(-1, 12, 31).weekday_abbrev(), "Fri");
}

#[test]
fn agenda_holds_every_entry_of_the_day() {
    let d = date(2026, 3, 6);
    let agenda = get_agenda_for_date(&files(), d);
    let titles: Vec<&str> = agenda.tasks.iter().map(|t| t.title.as_str()).collect();
    for t in ["Personal task", "Work task", "Overdue task"] {
        assert!(titles.contains(&t));
    }
    assert_eq!(agenda.tasks.len(), 3);
}
