use org_cli::parser::{OrgError, OrgFile};

fn parse(content: &str) -> OrgFile {
    OrgFile::parse_content(content, "test.org".to_string()).unwrap()
}

#[test]
fn test_parse_title() {
    let org = parse("#+title: Test File\n* Headline");
    assert_eq!(org.title, Some("Test File".to_string()));
}

#[test]
fn test_parse_no_title() {
    let org = parse("* Headline without title");
    assert!(org.title.is_none());
}

#[test]
fn test_parse_headlines() {
    let org = parse("#+title: Test\n* First headline\n** Second level\n* Third headline");
    assert_eq!(org.headlines.len(), 3);
    assert_eq!(org.headlines[0].title, "First headline");
    assert_eq!(org.headlines[0].level, 1);
    assert_eq!(org.headlines[1].title, "Second level");
    assert_eq!(org.headlines[1].level, 2);
    assert_eq!(org.headlines[2].title, "Third headline");
}

#[test]
fn test_parse_from_file() {
    let content = "#+title: Test File\n* TODO Task one\n* DONE Task two";
    let org = OrgFile::parse_content(content, "/tmp/file.org".to_string()).unwrap();
    assert_eq!(org.title, Some("Test File".to_string()));
    assert_eq!(org.headlines.len(), 2);
    assert_eq!(org.path, "/tmp/file.org");
}

#[test]
fn test_find_headline_by_id() {
    let org = parse("* Task\n:PROPERTIES:\n:ID:       unique-id\n:END:");
    let found = org.find_headline_by_id("unique-id");
    assert!(found.is_some());
    assert_eq!(found.unwrap().title, "Task");
    assert!(org.find_headline_by_id("nonexistent").is_none());
}

#[test]
fn test_find_headlines_by_tag() {
    let org = parse("* Task one :work:\n* Task two :personal:\n* Task three :work:urgent:");
    let work_tasks = org.find_headlines_by_tag("work");
    assert_eq!(work_tasks.len(), 2);
}

#[test]
fn test_find_headlines_by_level() {
    let org = parse("* Level one\n** Level two\n*** Level three\n* Another level one");
    let level_one = org.find_headlines_by_level(1);
    assert_eq!(level_one.len(), 2);
}

#[test]
fn test_find_section() {
    let org = parse("* Personal :personal:\n** Task\n* Work :work:\n** Task");
    let personal = org.find_section("Personal");
    assert!(personal.is_some());
    assert!(org.find_section("Nonexistent").is_none());
}

#[test]
fn test_get_children() {
    let org = parse("* Parent\n** Child 1\n** Child 2\n*** Grandchild\n** Child 3\n* Sibling");
    let children = org.get_children(0);
    assert_eq!(children.len(), 3);
    assert_eq!(children[0].title, "Child 1");
    assert_eq!(children[1].title, "Child 2");
    assert_eq!(children[2].title, "Child 3");
}

#[test]
fn test_get_all_descendants() {
    let org = parse("* Parent\n** Child 1\n*** Grandchild 1\n** Child 2\n* Sibling");
    let descendants = org.get_all_descendants(0);
    assert_eq!(descendants.len(), 3);
}

#[test]
fn test_parse_inbox_structure() {
    let content = "#+title: Inbox\n* Personal :personal:\n** TODO Personal task\nSCHEDULED: <2026-03-06 Fri>\n* Work :work:\n** TODO Work task\nSCHEDULED: <2026-03-06 Fri>\n* Email :email:\n** Follow Up\n*** TODO Follow up task\n** Read Later\n*** TODO Read later task";
    let org = OrgFile::parse_content(content, "inbox.org".to_string()).unwrap();

    let personal = org.find_section("Personal").unwrap();
    assert!(personal.has_tag("personal"));

    let work = org.find_section("Work").unwrap();
    assert!(work.has_tag("work"));

    let email = org.find_section("Email").unwrap();
    assert!(email.has_tag("email"));
}

#[test]
fn children_are_descendants_one_level_down() {
    let org = parse("* A\n** B\n*** C\n** D\n* E\n** F");
    let children = org.get_children(0);
    let descendants = org.get_all_descendants(0);
    assert_eq!(descendants.len(), 3);
    assert_eq!(children.len(), 2);
    for c in &children {
        assert_eq!(c.level, 2);
        assert!(descendants.iter().any(|d| d.title == c.title));
    }
    assert!(org.get_children(4).iter().all(|c| c.title == "F"));
}

#[test]
fn headlines_carry_line_numbers_and_bodies() {
    let org = parse("intro\n* One\nbody one\n* Two");
    assert_eq!(org.headlines[0].line_number, 2);
    assert_eq!(org.headlines[0].body, "body one");
    assert_eq!(org.headlines[1].line_number, 4);
}

#[test]
fn title_is_trimmed_and_first_wins() {
    let org = parse("#+title:   Spaced   \n#+title: Second");
    assert_eq!(org.title, Some("Spaced".to_string()));
}

#[test]
fn find_section_ignores_ascii_case() {
    let org = parse("* Personal\n* WORK");
    assert_eq!(org.find_section("personal").unwrap().title, "Personal");
    assert_eq!(org.find_section("work").unwrap().title, "WORK");
    assert_eq!(org.index_of_section("Work"), Some(1));
}

#[test]
fn read_error_message() {
    let e = OrgError::Unreadable { path: "/x.org".to_string() };
    assert_eq!(e.message(), "Failed to read file: /x.org");
}
