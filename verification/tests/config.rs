use org_cli::config::Config;

#[test]
fn test_default_config() {
    let config = Config::default();
    assert!(!config.agenda.files.is_empty());
    assert!(config.inbox.file.contains("Inbox.org"));
    assert_eq!(config.inbox.sections.len(), 3);
    assert!(config.emacs.use_emacsclient);
}

#[test]
fn test_expand_path() {
    let path = Config::expand_path("~/Documents/test.org");
    assert!(!path.contains('~'));
    assert!(path.contains("Documents/test.org"));
}

#[test]
fn test_agenda_files() {
    let config = Config::default();
    let files = config.agenda_files();
    assert!(!files.is_empty());
    for file in &files {
        assert!(!file.contains('~'));
    }
}

#[test]
fn test_inbox_file() {
    let config = Config::default();
    let file = config.inbox_file();
    assert!(!file.contains('~'));
    assert!(file.contains("Inbox.org"));
}

#[test]
fn test_refile_targets() {
    let config = Config::default();
    let targets = config.refile_targets();
    assert_eq!(targets.len(), 4);
    let names: Vec<&str> = targets.iter().map(|(n, _)| n.as_str()).collect();
    assert!(names.contains(&"Projects"));
    assert!(names.contains(&"Areas"));
    assert!(names.contains(&"Resources"));
    assert!(names.contains(&"Archives"));
}

#[test]
fn plain_paths_are_not_expanded() {
    assert_eq!(Config::expand_path("/abs/file.org"), "/abs/file.org");
    assert_eq!(Config::expand_path("rel/~file.org"), "rel/~file.org");
    assert_eq!(Config::expand_path("~other/file.org"), "~other/file.org");
}

#[test]
fn expanded_home_path_keeps_the_rest() {
    let p = Config::expand_path("~/x/y.org");
    assert!(p.ends_with("/x/y.org"));
}

#[test]
fn expansion_with_a_given_home() {
    assert_eq!(Config::expand_path_with_home("~/a.org", Some("/home/u")), "/home/u/a.org");
    assert_eq!(Config::expand_path_with_home("~", Some("/home/u")), "/home/u");
    assert_eq!(Config::expand_path_with_home("~/a.org", None), "~/a.org");
    assert_eq!(Config::expand_path_with_home("~x/a.org", Some("/home/u")), "~x/a.org");
    assert_eq!(Config::expand_path_with_home("/abs", Some("/home/u")), "/abs");
}

#[test]
fn default_sections_are_inbox_sections() {
    let config = Config::default();
    for name in &config.inbox.sections {
        assert!(org_cli::models::InboxSection::from_str(name).is_some());
    }
}
