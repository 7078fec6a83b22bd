use std::collections::BTreeMap;

use lima::tags::{string_to_hex_color, TagAction, TagEnsure, TagEvent};

/// Runs get-or-create against an in-memory tag table (name to id and colour).
fn ensure(table: &mut BTreeMap<String, (String, String)>, names: &[&str]) -> Vec<String> {
    let names: Vec<String> = names.iter().map(|s| s.to_string()).collect();
    let (mut run, mut action) = TagEnsure::begin(names, "2024-01-01T00:00:00Z".to_string());
    loop {
        let event = match action {
            TagAction::LookUp { name } => TagEvent::Found { id: table.get(&name).map(|t| t.0.clone()) },
            TagAction::Create { tag } => {
                assert_eq!(tag.color, string_to_hex_color(&tag.name));
                assert_eq!(tag.created_at, "2024-01-01T00:00:00Z");
                table.insert(tag.name.clone(), (tag.id.clone(), tag.color.clone()));
                TagEvent::Created
            }
            TagAction::Finish { ids } => return ids,
            TagAction::Fail { message } => panic!("failed: {}", message),
        };
        action = run.step(event);
    }
}

#[test]
fn ensure_tags_twice_gives_the_same_ids() {
    let mut table = BTreeMap::new();
    let first = ensure(&mut table, &["x", "x", "y"]);
    let second = ensure(&mut table, &["x", "x", "y"]);
    assert_eq!(first, second);
    assert_eq!(first[0], first[1]);
    assert_ne!(first[0], first[2]);
    assert_eq!(table.len(), 2);
    assert!(table.contains_key("x") && table.contains_key("y"));
}

#[test]
fn ensure_tags_is_case_sensitive_and_keeps_existing() {
    let mut table = BTreeMap::new();
    table.insert("red".to_string(), ("tag-red".to_string(), "#01B891".to_string()));
    let ids = ensure(&mut table, &["red", "Red"]);
    assert_eq!(ids[0], "tag-red");
    assert_ne!(ids[1], "tag-red");
    assert_eq!(table["Red"].1, "#014071");
}

#[test]
fn ensure_tags_stops_on_store_failure() {
    let (mut run, _) = TagEnsure::begin(vec!["x".to_string()], "now".to_string());
    match run.step(TagEvent::Failed { message: "locked".to_string() }) {
        TagAction::Fail { message } => assert_eq!(message, "locked"),
        other => panic!("unexpected {:?}", other),
    }
}

#[test]
fn ensure_tags_distinct_names_get_distinct_ids() {
    let mut table = BTreeMap::new();
    let ids = ensure(&mut table, &["Red", "red"]);
    assert_ne!(ids[0], ids[1]);
    assert_eq!(table.len(), 2);
}

#[test]
fn ensure_no_tags_finishes_at_once() {
    let (_run, action) = TagEnsure::begin(vec![], "now".to_string());
    match action {
        TagAction::Finish { ids } => assert!(ids.is_empty()),
        other => panic!("unexpected {:?}", other),
    }
}
