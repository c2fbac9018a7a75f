use org_cli::roam::OrgRoamNode;
use org_cli::server::{add_link_elisp, add_link_form, create_node_elisp, new_node, node_file_content, node_filename, update_node_elisp};
use org_cli::tools::elisp::{escape_elisp_newlines, tags_suffix_of};

#[test]
fn node_filename_slug() {
    assert_eq!(node_filename("My New Note!"), "my-new-note.org");
    assert_eq!(node_filename("C++ & Rust"), "c--rust.org");
}

#[test]
fn node_content_with_and_without_tags() {
    assert_eq!(
        node_file_content("ID1", "T", &vec![], "body"),
        ":PROPERTIES:\n:ID:       ID1\n:END:\n#+title: T\n\nbody"
    );
    assert_eq!(
        node_file_content("ID1", "T", &vec!["a".to_string(), "b".to_string()], ""),
        ":PROPERTIES:\n:ID:       ID1\n:END:\n#+title: T\n#+filetags: :a:b: \n\n"
    );
}

#[test]
fn new_node_has_a_fresh_id() {
    let (id, name, text) = new_node("Hello World", &vec![], "x");
    assert_eq!(id.len(), 36);
    assert_eq!(name, "hello-world.org");
    assert!(text.contains(&id));
    let (id2, _, _) = new_node("Hello World", &vec![], "x");
    assert_ne!(id, id2);
}

#[test]
fn create_node_form_puts_content_on_one_line() {
    let e = create_node_elisp("/r/n.org", "a\n\"b\"");
    assert_eq!(
        e,
        "(progn\n  (with-temp-file \"/r/n.org\"\n    (insert \"a\\n\\\"b\\\"\"))\n  (org-roam-db-sync))"
    );
}

#[test]
fn update_and_link_forms() {
    let u = update_node_elisp("/r/n.org", "new\ntext");
    assert!(u.contains("(re-search-forward \"^#\\\\+title:.*$\" nil t)"));
    assert!(u.contains("(insert \"\\nnew\\ntext\")"));
    assert!(u.ends_with("(save-buffer)\n  (org-roam-db-sync))"));
    let l = add_link_elisp("/r/a.org", "id-2", "Target");
    assert!(l.contains("(insert \"\\n[[id:id-2][Target]]\")"));
}

#[test]
fn one_line_escape() {
    assert_eq!(escape_elisp_newlines("x\ny"), "x\\ny");
    assert_eq!(tags_suffix_of(&vec![]), "");
    assert_eq!(tags_suffix_of(&vec!["a".to_string()]), " :a:");
}

#[test]
fn new_node_id_is_a_version_4_uuid() {
    let (id, _, _) = new_node("X", &vec![], "");
    let c: Vec<char> = id.chars().collect();
    assert_eq!(c.len(), 36);
    for (i, ch) in c.iter().enumerate() {
        match i {
            8 | 13 | 18 | 23 => assert_eq!(*ch, '-'),
            14 => assert_eq!(*ch, '4'),
            19 => assert!("89ab".contains(*ch)),
            _ => assert!(ch.is_ascii_hexdigit() && !ch.is_ascii_uppercase()),
        }
    }
}

#[test]
fn link_form_defaults_to_untitled() {
    let node = |file: &str, title: Option<&str>| OrgRoamNode {
        id: "i".to_string(),
        file: file.to_string(),
        level: 0,
        pos: 0,
        todo: None,
        priority: None,
        scheduled: None,
        deadline: None,
        title: title.map(|t| t.to_string()),
        properties: None,
        olp: None,
        tags: vec![],
        aliases: vec![],
    };
    let (form, title) = add_link_form(&node("/a.org", Some("A")), &node("/b.org", None), "id-b");
    assert_eq!(title, "Untitled");
    assert!(form.contains("[[id:id-b][Untitled]]"));
    assert!(form.contains("(find-file-noselect \"/a.org\")"));
    let (_, title) = add_link_form(&node("/a.org", None), &node("/b.org", Some("B")), "id-b");
    assert_eq!(title, "B");
}

#[test]
fn ascii_slug_keeps_letters_digits_and_hyphens() {
    assert_eq!(node_filename("Meeting 2024-05 Notes"), "meeting-2024-05-notes.org");
    assert_eq!(node_filename("ABC_def"), "abcdef.org");
    assert_eq!(node_filename(""), ".org");
}
