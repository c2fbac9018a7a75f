use org_cli::parser::{Properties, PropertyMap};

#[test]
fn test_parse_properties_with_id() {
    let text = ":PROPERTIES:\n:ID:       test-id-123\n:END:";
    let props = Properties::parse(text);
    assert_eq!(props.id, Some("test-id-123".to_string()));
}

#[test]
fn test_parse_properties_with_style() {
    let text = ":PROPERTIES:\n:ID:       habit-id\n:STYLE:    habit\n:END:";
    let props = Properties::parse(text);
    assert_eq!(props.id, Some("habit-id".to_string()));
    assert_eq!(props.style, Some("habit".to_string()));
    assert!(props.is_habit());
}

#[test]
fn test_parse_properties_with_location() {
    let text = ":PROPERTIES:\n:ID:       event-id\n:LOCATION: Coffee Shop\n:END:";
    let props = Properties::parse(text);
    assert_eq!(props.location, Some("Coffee Shop".to_string()));
}

#[test]
fn test_parse_properties_with_custom() {
    let text = ":PROPERTIES:\n:ID:       custom-id\n:CUSTOM_PROP: custom value\n:END:";
    let props = Properties::parse(text);
    assert_eq!(
        props.other.get("CUSTOM_PROP"),
        Some(&"custom value".to_string())
    );
}

#[test]
fn test_parse_no_properties() {
    let text = "Some text without properties";
    let props = Properties::parse(text);
    assert!(props.id.is_none());
    assert!(props.style.is_none());
    assert!(props.other.is_empty());
}

#[test]
fn test_is_habit_false() {
    let props = Properties::default();
    assert!(!props.is_habit());

    let props = Properties {
        style: Some("other".to_string()),
        ..Default::default()
    };
    assert!(!props.is_habit());
}

#[test]
fn test_properties_default() {
    let props = Properties::default();
    assert!(props.id.is_none());
    assert!(props.style.is_none());
    assert!(props.location.is_none());
    assert!(props.other.is_empty());
}

#[test]
fn property_map_insert_replaces_value() {
    let mut m = PropertyMap::new();
    m.insert("A".to_string(), "1".to_string());
    m.insert("B".to_string(), "2".to_string());
    m.insert("A".to_string(), "3".to_string());
    assert_eq!(m.len(), 2);
    assert_eq!(m.get("A"), Some(&"3".to_string()));
    assert_eq!(m.get("B"), Some(&"2".to_string()));
    assert_eq!(m.get("C"), None);
}

#[test]
fn later_property_wins_and_keys_are_case_insensitive() {
    let text = ":PROPERTIES:\n:id:       first\n:ID:       second\n:END:";
    let props = Properties::parse(text);
    assert_eq!(props.id, Some("second".to_string()));
}

#[test]
fn only_the_first_drawer_counts() {
    let a = ":PROPERTIES:\n:ID:       first\n:END:\n";
    let b = ":PROPERTIES:\n:ID:       second\n:STYLE:    habit\n:END:";
    let whole = format!("{}{}", a, b);
    assert_eq!(Properties::parse(&whole), Properties::parse(a));
    assert_eq!(Properties::parse(&whole).id, Some("first".to_string()));
}

#[test]
fn each_key_takes_its_last_value() {
    let text = ":PROPERTIES:\n:id: a\n:Foo: 1\n:ID: b\n:foo: 2\n:Foo: 3\n:Style: habit\n:END:";
    let props = Properties::parse(text);
    assert_eq!(props.id, Some("b".to_string()));
    assert_eq!(props.style, Some("habit".to_string()));
    assert_eq!(props.location, None);
    assert_eq!(props.other.len(), 2);
    assert_eq!(props.other.get("Foo"), Some(&"3".to_string()));
    assert_eq!(props.other.get("foo"), Some(&"2".to_string()));
    assert_eq!(props.other.get("ID"), None);
}
