use org_cli::calendar::Date;
use org_cli::models::Habit;
use org_cli::parser::OrgFile;
use org_cli::tools::habits::{
    create_habit_elisp, create_habit_elisp_with_id, delete_habit_elisp, elisp_str, find_habit,
    get_habits, get_habits_due, mark_habit_done_elisp,
};

const HABITS: &str = "#+title: Habits\n* Habits\n** TODO Log weight\nSCHEDULED: <2026-03-06 Fri .+1d>\n:PROPERTIES:\n:ID:       habit-weight\n:STYLE:    habit\n:END:\n** TODO Check emails\nSCHEDULED: <2026-03-06 Fri .+1d>\n:PROPERTIES:\n:ID:       habit-email\n:STYLE:    habit\n:END:\n** TODO Weekly review\nSCHEDULED: <2026-03-07 Sat .+1w>\n:PROPERTIES:\n:ID:       habit-review\n:STYLE:    habit\n:END:\n** TODO Exercise\nSCHEDULED: <2026-03-05 Thu .+1d/3d>\n:PROPERTIES:\n:ID:       habit-exercise\n:STYLE:    habit\n:END:\n";

fn files() -> Vec<OrgFile> {
    vec![OrgFile::parse_content(HABITS, "/tmp/habits.org".to_string()).unwrap()]
}

fn date(y: i32, m: u32, d: u32) -> Date {
    Date::from_ymd_opt(y, m, d).unwrap()
}

fn habit(title: &str) -> Habit {
    Habit {
        id: Some("habit-x".to_string()),
        title: title.to_string(),
        scheduled: Some(date(2026, 7, 24)),
        repeater: Some(".+1w".to_string()),
        file_path: "/path/to/habits.org".to_string(),
        line_number: 10,
    }
}

#[test]
fn test_get_habits() {
    let habits = get_habits(&files());
    assert_eq!(habits.len(), 4);
    assert!(habits.iter().any(|h| h.title == "Log weight"));
    assert!(habits.iter().any(|h| h.title == "Check emails"));
    assert!(habits.iter().any(|h| h.title == "Weekly review"));
    assert!(habits.iter().any(|h| h.title == "Exercise"));
}

#[test]
fn test_get_habits_due() {
    let due_habits = get_habits_due(&files(), date(2026, 3, 6));
    assert_eq!(due_habits.len(), 3);
    assert!(due_habits.iter().any(|h| h.title == "Log weight"));
    assert!(due_habits.iter().any(|h| h.title == "Check emails"));
    assert!(due_habits.iter().any(|h| h.title == "Exercise"));
    assert!(!due_habits.iter().any(|h| h.title == "Weekly review"));
}

#[test]
fn test_get_habits_due_includes_weekly() {
    let due_habits = get_habits_due(&files(), date(2026, 3, 7));
    assert_eq!(due_habits.len(), 4);
    assert!(due_habits.iter().any(|h| h.title == "Weekly review"));
}

#[test]
fn test_habit_repeater() {
    let habits = get_habits(&files());
    let log_weight = habits.iter().find(|h| h.title == "Log weight").unwrap();
    assert_eq!(log_weight.repeater, Some(".+1d".to_string()));
    let weekly_review = habits.iter().find(|h| h.title == "Weekly review").unwrap();
    assert_eq!(weekly_review.repeater, Some(".+1w".to_string()));
    let exercise = habits.iter().find(|h| h.title == "Exercise").unwrap();
    assert_eq!(exercise.repeater, Some(".+1d/3d".to_string()));
}

#[test]
fn test_empty_habits_file() {
    let habits = get_habits(&Vec::new());
    assert!(habits.is_empty());
}

#[test]
fn test_create_habit() {
    let elisp = create_habit_elisp(
        "/path/to/habits.org",
        "Weekly OSS contribution",
        "2026-07-24",
        ".+1w",
        &vec!["oss".to_string()],
    );
    assert!(elisp.contains("find-file-noselect"));
    assert!(elisp.contains("/path/to/habits.org"));
    assert!(elisp.contains("TODO Weekly OSS contribution"));
    assert!(elisp.contains(":oss:"));
    assert!(elisp.contains("<2026-07-24 Fri .+1w>"));
    assert!(elisp.contains(":STYLE:    habit"));
}

#[test]
fn create_habit_exact_form() {
    let elisp = create_habit_elisp_with_id("/h.org", "Run", "2026-03-06", ".+1d", &vec![], "ID-1");
    assert_eq!(
        elisp,
        "(with-current-buffer (find-file-noselect \"/h.org\")\n  (goto-char (point-max))\n  (insert \"\\n* TODO Run\nSCHEDULED: <2026-03-06 Fri .+1d>\n:PROPERTIES:\n:ID:       ID-1\n:STYLE:    habit\n:END:\\n\")\n  (save-buffer))"
    );
}

#[test]
fn create_habit_with_unparsable_date_has_no_weekday() {
    let elisp = create_habit_elisp_with_id("/h.org", "Run", "someday", ".+1d", &vec![], "ID-1");
    assert!(elisp.contains("SCHEDULED: <someday .+1d>"));
}

#[test]
fn test_delete_habit_with_regex_special_title() {
    let elisp = delete_habit_elisp(&habit("Review blog + talk idea buckets"));
    assert!(elisp.contains("regexp-quote"));
    assert!(elisp.contains("Review blog + talk idea buckets"));
    assert!(elisp.contains("org-cut-subtree"));
}

#[test]
fn test_delete_habit() {
    let elisp = delete_habit_elisp(&habit("Monthly blog post"));
    assert!(elisp.contains("find-file-noselect"));
    assert!(elisp.contains("Monthly blog post"));
    assert!(elisp.contains("org-cut-subtree"));
}

#[test]
fn test_mark_habit_done() {
    let elisp = mark_habit_done_elisp(&habit("Log weight"));
    assert!(elisp.contains("find-file-noselect"));
    assert!(elisp.contains("/path/to/habits.org"));
    assert!(elisp.contains("Log weight"));
    assert!(elisp.contains("org-todo"));
}

#[test]
fn test_mark_habit_done_with_special_chars() {
    let elisp = mark_habit_done_elisp(&habit("Habit with \"quotes\" and \\backslash"));
    assert!(elisp.contains("\\\"quotes\\\""));
    assert!(elisp.contains("\\\\backslash"));
}

#[test]
fn mark_habit_done_exact_form() {
    let elisp = mark_habit_done_elisp(&habit("Log weight"));
    assert_eq!(
        elisp,
        "(with-current-buffer (find-file-noselect \"/path/to/habits.org\")\n  (goto-char (point-min))\n  (when (re-search-forward (concat \"^\\\\*+ TODO \" (regexp-quote \"Log weight\")) nil t)\n    (org-todo 'done))\n  (save-buffer))"
    );
}

#[test]
fn elisp_str_escapes_backslashes_then_quotes() {
    assert_eq!(elisp_str("a\"b\\c"), "a\\\"b\\\\c");
    assert_eq!(elisp_str("plain"), "plain");
    assert_eq!(elisp_str(""), "");
}

#[test]
fn find_habit_by_id_or_title() {
    let habits = get_habits(&files());
    assert_eq!(find_habit(&habits, "habit-review"), Some(2));
    assert_eq!(find_habit(&habits, "log WEIGHT"), Some(0));
    assert_eq!(find_habit(&habits, "nothing"), None);
}

#[test]
fn elisp_str_length_and_quotes() {
    let s = "say \"hi\" \\ \\\"";
    let e = elisp_str(s);
    let specials = s.chars().filter(|c| *c == '\\' || *c == '"').count();
    assert_eq!(e.chars().count(), s.chars().count() + specials);
    let c: Vec<char> = e.chars().collect();
    for i in 0..c.len() {
        if c[i] == '"' {
            let mut run = 0;
            while run < i && c[i - 1 - run] == '\\' {
                run += 1;
            }
            assert_eq!(run % 2, 1);
        }
    }
}

#[test]
fn habits_due_grow_with_the_date() {
    let fs = files();
    let early: Vec<String> = get_habits_due(&fs, date(2026, 3, 6)).into_iter().map(|h| h.title).collect();
    let late: Vec<String> = get_habits_due(&fs, date(2026, 3, 7)).into_iter().map(|h| h.title).collect();
    assert!(early.iter().all(|t| late.contains(t)));
}

#[test]
fn escaped_text_reads_back_pair_by_pair() {
    let original = "say \"hi\" \\ then \\n and \\\"";
    let escaped = elisp_str(original);
    let mut back = String::new();
    let mut chars = escaped.chars();
    while let Some(c) = chars.next() {
        if c == '\\' {
            back.push(chars.next().unwrap());
        } else {
            back.push(c);
        }
    }
    assert_eq!(back, original);
    assert_eq!(escaped.len(), original.len() + 6);
}
