use org_cli::calendar::Date;
use org_cli::models::Task;
use org_cli::parser::{OrgFile, TodoState};
use org_cli::tools::tasks::{
    complete_task_elisp, create_task_elisp, find_task, find_task_by_id, find_task_by_title,
    refile_task_elisp, update_task_deadline_elisp, update_task_scheduled_elisp,
};

fn create_test_task() -> Task {
    Task {
        id: Some("test-task-id".to_string()),
        title: "Test task".to_string(),
        state: Some(TodoState::Todo),
        priority: None,
        tags: vec![],
        scheduled: Some(Date::from_ymd_opt(2026, 3, 6).unwrap()),
        deadline: None,
        body: String::new(),
        file_path: "/path/to/tasks.org".to_string(),
        line_number: 10,
    }
}

fn files() -> Vec<OrgFile> {
    let tasks = "#+title: Tasks\n* Projects\n** TODO Project task\n:PROPERTIES:\n:ID:       project-task-id\n:END:\n** TODO Another task\n:PROPERTIES:\n:ID:       another-task-id\n:END:";
    let inbox = "#+title: Inbox\n* Personal\n** TODO Inbox task\n:PROPERTIES:\n:ID:       inbox-task-id\n:END:";
    vec![
        OrgFile::parse_content(tasks, "/tmp/tasks.org".to_string()).unwrap(),
        OrgFile::parse_content(inbox, "/tmp/inbox.org".to_string()).unwrap(),
    ]
}

fn tags(v: &[&str]) -> Vec<String> {
    v.iter().map(|s| s.to_string()).collect()
}

#[test]
fn test_create_task_basic() {
    let elisp = create_task_elisp("/path/to/tasks.org", "New task", None, None, &vec![], None);
    assert!(elisp.contains("find-file-noselect"));
    assert!(elisp.contains("/path/to/tasks.org"));
    assert!(elisp.contains("* TODO New task"));
}

#[test]
fn test_create_task_with_scheduled() {
    let elisp = create_task_elisp("/path/to/tasks.org", "Scheduled task", Some("2026-03-10"), None, &vec![], None);
    assert!(elisp.contains("SCHEDULED: <2026-03-10>"));
}

#[test]
fn test_create_task_with_deadline() {
    let elisp = create_task_elisp("/path/to/tasks.org", "Deadline task", None, Some("2026-03-15"), &vec![], None);
    assert!(elisp.contains("DEADLINE: <2026-03-15>"));
}

#[test]
fn test_create_task_with_tags() {
    let elisp = create_task_elisp("/path/to/tasks.org", "Tagged task", None, None, &tags(&["urgent", "project"]), None);
    assert!(elisp.contains(":urgent:project:"));
}

#[test]
fn test_create_task_with_body() {
    let elisp = create_task_elisp("/path/to/tasks.org", "Task with body", None, None, &vec![], Some("This is the task description"));
    assert!(elisp.contains("This is the task description"));
}

#[test]
fn test_create_task_full_options() {
    let elisp = create_task_elisp(
        "/path/to/tasks.org",
        "Full task",
        Some("2026-03-10"),
        Some("2026-03-20"),
        &tags(&["tag1", "tag2"]),
        Some("Task body"),
    );
    assert!(elisp.contains("* TODO Full task"));
    assert!(elisp.contains(":tag1:tag2:"));
    assert!(elisp.contains("SCHEDULED: <2026-03-10>"));
    assert!(elisp.contains("DEADLINE: <2026-03-20>"));
    assert!(elisp.contains("Task body"));
}

#[test]
fn create_task_exact_form() {
    let elisp = create_task_elisp("/f.org", "T \"q\"", Some("2026-03-10"), None, &tags(&["a"]), Some("b\\c"));
    assert_eq!(
        elisp,
        "(with-current-buffer (find-file-noselect \"/f.org\")\n  (goto-char (point-max))\n  (insert \"\\n* TODO T \\\"q\\\" :a:\nSCHEDULED: <2026-03-10>\nb\\\\c\\n\")\n  (save-buffer))"
    );
}

#[test]
fn test_complete_task() {
    let elisp = complete_task_elisp(&create_test_task());
    assert!(elisp.contains("find-file-noselect"));
    assert!(elisp.contains("/path/to/tasks.org"));
    assert!(elisp.contains("Test task"));
    assert!(elisp.contains("org-todo"));
}

#[test]
fn test_complete_task_with_special_chars() {
    let mut task = create_test_task();
    task.title = "Task with \"quotes\"".to_string();
    let elisp = complete_task_elisp(&task);
    assert!(elisp.contains("\\\"quotes\\\""));
}

#[test]
fn complete_task_exact_form() {
    let elisp = complete_task_elisp(&create_test_task());
    assert_eq!(
        elisp,
        "(with-current-buffer (find-file-noselect \"/path/to/tasks.org\")\n  (goto-char (point-min))\n  (when (re-search-forward \"^\\\\*+ TODO Test task\" nil t)\n    (org-todo 'done))\n  (save-buffer))"
    );
}

#[test]
fn test_update_task_scheduled() {
    let elisp = update_task_scheduled_elisp(&create_test_task(), "2026-03-15");
    assert!(elisp.contains("org-schedule"));
    assert!(elisp.contains("2026-03-15"));
    assert!(elisp.contains("\\\\(TODO\\\\|NEXT\\\\|WAITING\\\\)"));
}

#[test]
fn test_update_task_deadline() {
    let elisp = update_task_deadline_elisp(&create_test_task(), "2026-03-20");
    assert!(elisp.contains("org-deadline"));
    assert!(elisp.contains("2026-03-20"));
}

#[test]
fn test_refile_task_to_file() {
    let elisp = refile_task_elisp(&create_test_task(), "/path/to/projects.org", None);
    assert!(elisp.contains("org-refile"));
    assert!(elisp.contains("/path/to/projects.org"));
    assert!(elisp.contains("'(\"/path/to/projects.org\" nil)"));
}

#[test]
fn test_refile_task_to_heading() {
    let elisp = refile_task_elisp(&create_test_task(), "/path/to/projects.org", Some("Active Projects"));
    assert!(elisp.contains("org-refile"));
    assert!(elisp.contains("/path/to/projects.org"));
    assert!(elisp.contains("Active Projects"));
    assert!(elisp.ends_with("(with-current-buffer (find-file-noselect \"/path/to/projects.org\")\n    (save-buffer)))"));
}

#[test]
fn test_find_task_by_id_in_agenda() {
    let task = find_task_by_id(&files(), "project-task-id");
    assert!(task.is_some());
    assert_eq!(task.unwrap().title, "Project task");
}

#[test]
fn test_find_task_by_id_in_inbox() {
    let task = find_task_by_id(&files(), "inbox-task-id");
    assert!(task.is_some());
    let task = task.unwrap();
    assert_eq!(task.title, "Inbox task");
    assert_eq!(task.file_path, "/tmp/inbox.org");
}

#[test]
fn test_find_task_by_id_not_found() {
    assert!(find_task_by_id(&files(), "nonexistent-id").is_none());
}

#[test]
fn test_find_task_by_title() {
    let task = find_task_by_title(&files(), "Project task");
    assert!(task.is_some());
    assert_eq!(task.unwrap().id, Some("project-task-id".to_string()));
}

#[test]
fn test_find_task_by_title_case_insensitive() {
    assert!(find_task_by_title(&files(), "PROJECT TASK").is_some());
}

#[test]
fn test_find_task_by_title_not_found() {
    assert!(find_task_by_title(&files(), "Nonexistent task").is_none());
}

#[test]
fn find_task_prefers_id_then_title() {
    let by_id = find_task(&files(), "another-task-id").unwrap();
    assert_eq!(by_id.title, "Another task");
    let by_title = find_task(&files(), "inbox task").unwrap();
    assert_eq!(by_title.id, Some("inbox-task-id".to_string()));
    assert!(find_task(&files(), "nothing").is_none());
}
