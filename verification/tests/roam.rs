use org_cli::roam::database::{
    all_nodes_query, clean_string, decimal_string, node_from_row, normalize_id,
    search_nodes_query, search_pattern,
};
use org_cli::roam::{DatabaseStats, OrgRoamLink, OrgRoamNode};

#[test]
fn test_org_roam_node_default_tags() {
    let node = OrgRoamNode {
        id: "test-id".to_string(),
        file: "/path/to/file.org".to_string(),
        level: 0,
        pos: 1,
        todo: None,
        priority: None,
        scheduled: None,
        deadline: None,
        title: Some("Test Node".to_string()),
        properties: None,
        olp: None,
        tags: vec![],
        aliases: vec![],
    };
    assert!(node.tags.is_empty());
    assert!(node.aliases.is_empty());
}

#[test]
fn test_org_roam_link() {
    let link = OrgRoamLink {
        pos: 100,
        source: "source-id".to_string(),
        dest: "dest-id".to_string(),
        link_type: "id".to_string(),
        properties: None,
    };
    assert_eq!(link.source, "source-id");
    assert_eq!(link.dest, "dest-id");
}

#[test]
fn test_database_stats() {
    let stats = DatabaseStats {
        nodes: 100,
        files: 50,
        links: 200,
        unique_tags: 30,
        aliases: 25,
    };
    assert_eq!(stats.nodes, 100);
    assert_eq!(stats.files, 50);
}

#[test]
fn clean_string_strips_quotes() {
    assert_eq!(clean_string(Some("\"abc\"")), Some("abc".to_string()));
    assert_eq!(clean_string(Some("\"\"x\"")), Some("x".to_string()));
    assert_eq!(clean_string(Some("\"\"")), Some(String::new()));
    assert_eq!(clean_string(Some("plain")), Some("plain".to_string()));
    assert_eq!(clean_string(None), None);
}

#[test]
fn normalize_id_quotes_once() {
    assert_eq!(normalize_id("abc"), "\"abc\"");
    assert_eq!(normalize_id("\"abc\""), "\"abc\"");
    assert_eq!(normalize_id(&normalize_id("abc")), normalize_id("abc"));
    assert_eq!(clean_string(Some(&normalize_id("abc"))), Some("abc".to_string()));
}

#[test]
fn queries_with_and_without_limit() {
    assert_eq!(
        all_nodes_query(None),
        "SELECT id, file, level, pos, todo, priority, scheduled, deadline, title, properties, olp FROM nodes ORDER BY title"
    );
    assert!(all_nodes_query(Some(50)).ends_with("ORDER BY title LIMIT 50"));
    assert!(search_nodes_query(Some(7)).ends_with("ORDER BY n.title LIMIT 7"));
    assert!(search_nodes_query(None).ends_with("ORDER BY n.title"));
    assert_eq!(search_pattern("emacs"), "%emacs%");
}

#[test]
fn decimal_digits() {
    assert_eq!(decimal_string(0), "0");
    assert_eq!(decimal_string(9), "9");
    assert_eq!(decimal_string(10), "10");
    assert_eq!(decimal_string(1234567), "1234567");
}

#[test]
fn node_rows_lose_their_quotes() {
    let n = node_from_row(
        Some("\"id-1\"".to_string()),
        Some("\"/f.org\"".to_string()),
        1,
        2,
        None,
        None,
        None,
        None,
        Some("\"Title\"".to_string()),
        None,
        None,
    );
    assert_eq!(n.id, "id-1");
    assert_eq!(n.file, "/f.org");
    assert_eq!(n.title, Some("Title".to_string()));
    let m = node_from_row(None, None, 0, 0, None, None, None, None, None, None, None);
    assert_eq!(m.id, "");
    assert!(m.title.is_none());
}
