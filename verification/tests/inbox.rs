use org_cli::calendar::Date;
use org_cli::config::Config;
use org_cli::models::InboxSection;
use org_cli::parser::OrgFile;
use org_cli::tools::inbox::{add_to_inbox_elisp, add_to_inbox_elisp_for, query_inbox};

const INBOX: &str = "#+title: Inbox\nCapture items here.\n* Personal :personal:\n** TODO Personal task one\nSCHEDULED: <2026-03-06 Fri>\n:PROPERTIES:\n:ID:       personal-1\n:END:\n** TODO Personal task two\n:PROPERTIES:\n:ID:       personal-2\n:END:\n** DONE Completed personal task\n:PROPERTIES:\n:ID:       personal-done\n:END:\n* Work :work:\n** TODO Work task\nSCHEDULED: <2026-03-07 Sat>\n:PROPERTIES:\n:ID:       work-1\n:END:\n** TODO Another work task\n:PROPERTIES:\n:ID:       work-2\n:END:\n* Email :email:\n** Follow Up\n*** TODO Follow up email\nDEADLINE: <2026-03-08 Sun>\n:PROPERTIES:\n:ID:       email-followup\n:END:\n** Read Later\n*** TODO Article to read\n:PROPERTIES:\n:ID:       email-read\n:END:\n";

fn inbox() -> OrgFile {
    OrgFile::parse_content(INBOX, "/tmp/Inbox.org".to_string()).unwrap()
}

fn sections() -> Vec<String> {
    vec!["Personal".to_string(), "Work".to_string(), "Email".to_string()]
}

fn tags(v: &[&str]) -> Vec<String> {
    v.iter().map(|s| s.to_string()).collect()
}

#[test]
fn test_query_inbox_all() {
    let items = query_inbox(&inbox(), &sections(), None, false);
    assert_eq!(items.len(), 6);
}

#[test]
fn test_query_inbox_with_done() {
    let items = query_inbox(&inbox(), &sections(), None, true);
    assert_eq!(items.len(), 7);
    assert!(items.iter().any(|i| i.title == "Completed personal task"));
}

#[test]
fn test_query_inbox_personal_only() {
    let items = query_inbox(&inbox(), &sections(), Some(InboxSection::Personal), false);
    assert_eq!(items.len(), 2);
    assert!(items.iter().all(|i| i.section == InboxSection::Personal));
}

#[test]
fn test_query_inbox_work_only() {
    let items = query_inbox(&inbox(), &sections(), Some(InboxSection::Work), false);
    assert_eq!(items.len(), 2);
    assert!(items.iter().any(|i| i.title == "Work task"));
    assert!(items.iter().any(|i| i.title == "Another work task"));
}

#[test]
fn test_query_inbox_email_only() {
    let items = query_inbox(&inbox(), &sections(), Some(InboxSection::Email), false);
    assert_eq!(items.len(), 2);
    assert!(items.iter().any(|i| i.title == "Follow up email"));
    assert!(items.iter().any(|i| i.title == "Article to read"));
}

#[test]
fn test_query_inbox_item_properties() {
    let items = query_inbox(&inbox(), &sections(), Some(InboxSection::Personal), false);
    let task_one = items.iter().find(|i| i.title == "Personal task one").unwrap();
    assert_eq!(task_one.id, Some("personal-1".to_string()));
    assert_eq!(task_one.scheduled, Some(Date::from_ymd_opt(2026, 3, 6).unwrap()));
}

#[test]
fn unknown_section_names_are_skipped() {
    let names = vec!["Misc".to_string(), "work".to_string()];
    let items = query_inbox(&inbox(), &names, None, false);
    assert_eq!(items.len(), 2);
    assert!(items.iter().all(|i| i.section == InboxSection::Work));
}

#[test]
fn test_add_to_inbox_basic() {
    let elisp = add_to_inbox_elisp_for("/tmp/Inbox.org", "New test task", InboxSection::Personal, None, None, None, &vec![]);
    assert!(elisp.contains("find-file-noselect"));
    assert!(elisp.contains("Personal"));
    assert!(elisp.contains("New test task"));
    assert!(elisp.contains("** TODO New test task"));
}

#[test]
fn test_add_to_inbox_with_scheduled() {
    let elisp = add_to_inbox_elisp_for("/tmp/Inbox.org", "Scheduled task", InboxSection::Work, None, Some("2026-03-10"), None, &vec![]);
    assert!(elisp.contains("SCHEDULED: <2026-03-10>"));
}

#[test]
fn test_add_to_inbox_with_deadline() {
    let elisp = add_to_inbox_elisp_for("/tmp/Inbox.org", "Deadline task", InboxSection::Work, None, None, Some("2026-03-15"), &vec![]);
    assert!(elisp.contains("DEADLINE: <2026-03-15>"));
}

#[test]
fn test_add_to_inbox_with_tags() {
    let elisp = add_to_inbox_elisp_for("/tmp/Inbox.org", "Tagged task", InboxSection::Personal, None, None, None, &tags(&["urgent", "important"]));
    assert!(elisp.contains(":urgent:important:"));
}

#[test]
fn test_add_to_inbox_with_body() {
    let elisp = add_to_inbox_elisp_for("/tmp/Inbox.org", "Task with body", InboxSection::Email, Some("This is the task body"), None, None, &vec![]);
    assert!(elisp.contains("This is the task body"));
}

#[test]
fn test_add_to_inbox_full_options() {
    let elisp = add_to_inbox_elisp_for(
        "/tmp/Inbox.org",
        "Full options task",
        InboxSection::Work,
        Some("Task body content"),
        Some("2026-03-10"),
        Some("2026-03-20"),
        &tags(&["tag1", "tag2"]),
    );
    assert!(elisp.contains("Full options task"));
    assert!(elisp.contains(":tag1:tag2:"));
    assert!(elisp.contains("SCHEDULED: <2026-03-10>"));
    assert!(elisp.contains("DEADLINE: <2026-03-20>"));
    assert!(elisp.contains("Task body content"));
}

#[test]
fn add_to_inbox_exact_form() {
    let elisp = add_to_inbox_elisp_for("/in.org", "X", InboxSection::Email, None, None, None, &vec![]);
    assert_eq!(
        elisp,
        "(with-current-buffer (find-file-noselect \"/in.org\")\n  (goto-char (point-min))\n  (when (re-search-forward \"^\\\\* Email\\\\b\" nil t)\n    (org-end-of-subtree t t)\n    (insert \"\\n** TODO X\\n\"))\n  (save-buffer))"
    );
}

#[test]
fn add_to_inbox_uses_the_configured_file() {
    let mut config = Config::default();
    config.inbox.file = "/abs/Inbox.org".to_string();
    let elisp = add_to_inbox_elisp(&config, "Y", InboxSection::Work, None, None, None, &vec![]);
    assert!(elisp.contains("(find-file-noselect \"/abs/Inbox.org\")"));
}

#[test]
fn section_and_done_filters_agree_with_filtering_the_whole() {
    let all = query_inbox(&inbox(), &sections(), None, true);
    for s in [InboxSection::Personal, InboxSection::Work, InboxSection::Email] {
        let some: Vec<String> = query_inbox(&inbox(), &sections(), Some(s), true).into_iter().map(|i| i.title).collect();
        let kept: Vec<String> = all.iter().filter(|i| i.section == s).map(|i| i.title.clone()).collect();
        assert_eq!(some, kept);
    }
    let open: Vec<String> = query_inbox(&inbox(), &sections(), None, false).into_iter().map(|i| i.title).collect();
    let kept: Vec<String> = all.iter().filter(|i| !i.is_done()).map(|i| i.title.clone()).collect();
    assert_eq!(open, kept);
}
