use org_cli::calendar::Date;
use org_cli::parser::{Headline, TodoState};

#[test]
fn test_parse_simple_headline() {
    let text = "* Simple headline";
    let headline = Headline::parse(text, 1).unwrap();
    assert_eq!(headline.level, 1);
    assert!(headline.todo_state.is_none());
    assert_eq!(headline.title, "Simple headline");
    assert!(headline.tags.is_empty());
}

#[test]
fn test_parse_todo_headline() {
    let text = "** TODO Task to do";
    let headline = Headline::parse(text, 1).unwrap();
    assert_eq!(headline.level, 2);
    assert_eq!(headline.todo_state, Some(TodoState::Todo));
    assert_eq!(headline.title, "Task to do");
}

#[test]
fn test_parse_done_headline() {
    let text = "* DONE Completed task";
    let headline = Headline::parse(text, 1).unwrap();
    assert_eq!(headline.todo_state, Some(TodoState::Done));
    assert!(headline.is_done());
}

#[test]
fn test_parse_headline_with_priority() {
    let text = "* TODO [#A] High priority task";
    let headline = Headline::parse(text, 1).unwrap();
    assert_eq!(headline.priority, Some('A'));
    assert_eq!(headline.title, "High priority task");
}

#[test]
fn test_parse_headline_with_tags() {
    let text = "* TODO Task with tags :work:urgent:";
    let headline = Headline::parse(text, 1).unwrap();
    assert_eq!(headline.tags, vec!["work", "urgent"]);
    assert!(headline.has_tag("work"));
    assert!(headline.has_tag("WORK"));
    assert!(!headline.has_tag("personal"));
}

#[test]
fn test_parse_headline_with_properties() {
    let text = "* TODO Task\n:PROPERTIES:\n:ID:       task-123\n:END:";
    let headline = Headline::parse(text, 1).unwrap();
    assert_eq!(headline.properties.id, Some("task-123".to_string()));
}

#[test]
fn test_parse_headline_with_scheduled() {
    let text = "* TODO Scheduled task\nSCHEDULED: <2026-03-06 Fri>";
    let headline = Headline::parse(text, 1).unwrap();
    assert!(headline.scheduled.is_some());
    assert_eq!(
        headline.scheduled.unwrap().date,
        Date::from_ymd_opt(2026, 3, 6).unwrap()
    );
}

#[test]
fn test_parse_headline_with_deadline() {
    let text = "* TODO Task with deadline\nDEADLINE: <2026-03-10 Tue>";
    let headline = Headline::parse(text, 1).unwrap();
    assert!(headline.deadline.is_some());
}

#[test]
fn test_parse_headline_with_body() {
    let text = "* TODO Task with body\n:PROPERTIES:\n:ID:       body-task\n:END:\nSCHEDULED: <2026-03-06 Fri>\nThis is the body content.\nMultiple lines of text.";
    let headline = Headline::parse(text, 1).unwrap();
    assert!(headline.body.contains("This is the body content"));
    assert!(headline.body.contains("Multiple lines"));
}

#[test]
fn test_parse_habit_headline() {
    let text = "** TODO Log weight\nSCHEDULED: <2026-03-06 Fri .+1d>\n:PROPERTIES:\n:ID:       habit-id\n:STYLE:    habit\n:END:";
    let headline = Headline::parse(text, 1).unwrap();
    assert!(headline.is_habit());
    assert!(headline.scheduled.unwrap().is_repeating());
}

#[test]
fn test_todo_state_from_str() {
    assert_eq!(TodoState::from_str("TODO"), Some(TodoState::Todo));
    assert_eq!(TodoState::from_str("todo"), Some(TodoState::Todo));
    assert_eq!(TodoState::from_str("DONE"), Some(TodoState::Done));
    assert_eq!(TodoState::from_str("NEXT"), Some(TodoState::Next));
    assert_eq!(TodoState::from_str("WAITING"), Some(TodoState::Waiting));
    assert_eq!(TodoState::from_str("CANCELLED"), Some(TodoState::Cancelled));
    assert_eq!(TodoState::from_str("invalid"), None);
}

#[test]
fn test_todo_state_is_done() {
    assert!(!TodoState::Todo.is_done());
    assert!(TodoState::Done.is_done());
    assert!(!TodoState::Next.is_done());
    assert!(!TodoState::Waiting.is_done());
    assert!(TodoState::Cancelled.is_done());
}

#[test]
fn test_todo_state_as_str() {
    assert_eq!(TodoState::Todo.as_str(), "TODO");
    assert_eq!(TodoState::Done.as_str(), "DONE");
    assert_eq!(TodoState::Next.as_str(), "NEXT");
    assert_eq!(TodoState::Waiting.as_str(), "WAITING");
    assert_eq!(TodoState::Cancelled.as_str(), "CANCELLED");
}

#[test]
fn test_parse_invalid_headline() {
    assert!(Headline::parse("Not a headline", 1).is_none());
    assert!(Headline::parse("", 1).is_none());
}

#[test]
fn keyword_round_trip_for_every_state() {
    for s in [
        TodoState::Todo,
        TodoState::Done,
        TodoState::Next,
        TodoState::Waiting,
        TodoState::Cancelled,
    ] {
        assert_eq!(TodoState::from_str(s.as_str()), Some(s));
    }
}

#[test]
fn headline_keeps_line_number_and_closed() {
    let text = "*** DONE [#C] Old thing :a:b:\nCLOSED: [2026-03-01 Sun 09:30]";
    let h = Headline::parse(text, 42).unwrap();
    assert_eq!(h.level, 3);
    assert_eq!(h.line_number, 42);
    assert_eq!(h.priority, Some('C'));
    assert_eq!(h.title, "Old thing");
    assert_eq!(h.tags, vec!["a", "b"]);
    let closed = h.closed.unwrap();
    assert_eq!(closed.date, Date::from_ymd_opt(2026, 3, 1).unwrap());
    assert_eq!(h.body, "");
}

#[test]
fn headline_without_space_after_stars_is_none() {
    assert!(Headline::parse("*bold text*", 1).is_none());
    assert!(Headline::parse("* ", 1).is_none());
}

#[test]
fn body_drops_drawers_and_planning_lines() {
    let text = "* Note\n:LOGBOOK:\n- State DONE\n:END:\nDEADLINE: <2026-03-10 Tue>\n  kept line  ";
    let h = Headline::parse(text, 1).unwrap();
    assert_eq!(h.body, "kept line");
}

#[test]
fn keyword_without_title_is_the_title() {
    let h = Headline::parse("* TODO", 1).unwrap();
    assert_eq!(h.title, "TODO");
    assert!(h.todo_state.is_none());
    let h = Headline::parse("* TODO  ", 1).unwrap();
    assert_eq!(h.todo_state, Some(TodoState::Todo));
    assert_eq!(h.title, "");
}

#[test]
fn crlf_lines_are_read_like_lf_lines() {
    let h = Headline::parse("* A :x:\r\nbody\r\n", 1).unwrap();
    assert_eq!(h.title, "A");
    assert_eq!(h.tags, vec!["x"]);
    assert_eq!(h.body, "body");
}

#[test]
fn unicode_tags_and_titles() {
    let h = Headline::parse("** NEXT Café planning :été:work:", 7).unwrap();
    assert_eq!(h.todo_state, Some(TodoState::Next));
    assert_eq!(h.title, "Café planning");
    assert_eq!(h.tags, vec!["été", "work"]);
    assert!(h.has_tag("ÉTÉ") == false);
    assert!(h.has_tag("été"));
}

#[test]
fn lower_case_keyword_stays_in_the_title() {
    let h = Headline::parse("* todo x", 1).unwrap();
    assert!(h.todo_state.is_none());
    assert_eq!(h.title, "todo x");
    let h = Headline::parse("*** DONE y\nrest", 9).unwrap();
    assert_eq!(h.level, 3);
    assert_eq!(h.line_number, 9);
    assert_eq!(h.todo_state, Some(TodoState::Done));
    assert_eq!(h.body, "rest");
}

#[test]
fn body_keeps_only_lines_outside_drawers_and_planning() {
    let text = "* T\n:PROPERTIES:\n:ID: x\n:END:\nSCHEDULED: <2026-03-06 Fri>\nHello\n  world  ";
    let h = Headline::parse(text, 1).unwrap();
    assert_eq!(h.body, "Hello\n  world");
    assert_eq!(h.properties.id, Some("x".to_string()));
}

#[test]
fn state_keywords_read_in_any_case() {
    assert_eq!(TodoState::from_str("Done"), Some(TodoState::Done));
    assert_eq!(TodoState::from_str("wAiTiNg"), Some(TodoState::Waiting));
    assert_eq!(TodoState::from_str("cancelled"), Some(TodoState::Cancelled));
    assert_eq!(TodoState::from_str("next "), None);
}
