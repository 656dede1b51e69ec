use prettycond::{
    format_document, list_entries, parse_last_transition_time, skipped_entry_count,
    sort_mode_from_flags, title_of, Json, PathError, SortMode, Timestamp,
};

fn now() -> Timestamp {
    parse_last_transition_time("2026-04-02T15:00:00Z").unwrap()
}

fn text(s: &str) -> Json {
    Json::String(s.to_string())
}

fn object(members: Vec<(&str, Json)>) -> Json {
    Json::Object(members.into_iter().map(|(k, v)| (k.to_string(), v)).collect())
}

fn resource(kind: &str, namespace: Option<&str>, name: &str, types: &[&str]) -> Json {
    let mut metadata = vec![("name", text(name))];
    if let Some(ns) = namespace {
        metadata.push(("namespace", text(ns)));
    }
    let conditions = types
        .iter()
        .map(|t| {
            object(vec![
                ("type", text(t)),
                ("status", text("True")),
                ("lastTransitionTime", text("2026-04-02T14:00:00Z")),
            ])
        })
        .collect();
    object(vec![
        ("kind", text(kind)),
        ("metadata", object(metadata)),
        ("status", object(vec![("conditions", Json::Array(conditions))])),
    ])
}

fn list(items: Vec<Json>) -> Json {
    object(vec![("kind", text("List")), ("items", Json::Array(items))])
}

#[test]
fn list_documents_give_one_stanza_per_resource() {
    let doc = list(vec![
        resource("Pod", Some("x"), "b", &["Ready"]),
        text("stray"),
        resource("Pod", Some("x"), "a", &["Ready", "Initialized"]),
        resource("Node", None, "n1", &["Ready"]),
    ]);
    let lines =
        format_document(&doc, "status.conditions", SortMode::Type, false, true, now()).unwrap();
    assert_eq!(
        lines,
        vec![
            "Node n1",
            "Ready  True  -  1h ago",
            "",
            "Pod x/a",
            "Initialized  True  -  1h ago",
            "Ready        True  -  1h ago",
            "",
            "Pod x/b",
            "Ready  True  -  1h ago",
        ]
    );
}

#[test]
fn sort_flags_apply_within_each_resource() {
    let doc = list(vec![resource("Pod", Some("x"), "a", &["Ready", "Initialized"])]);
    let lines =
        format_document(&doc, "status.conditions", SortMode::Type, true, false, now()).unwrap();
    assert_eq!(lines[0], "Pod x/a");
    assert!(lines[1].starts_with("TYPE"));
    assert!(lines[2].starts_with("Ready"));
    assert!(lines[3].starts_with("Initialized"));
}

#[test]
fn a_failing_resource_fails_the_list() {
    let doc = list(vec![
        resource("Pod", Some("x"), "a", &["Ready"]),
        object(vec![("kind", text("Pod"))]),
    ]);
    match format_document(&doc, "status.conditions", SortMode::Type, false, true, now()) {
        Err(PathError::MissingKey { segment, .. }) => assert_eq!(segment, "status"),
        other => panic!("unexpected {:?}", other),
    }
}

#[test]
fn an_empty_list_prints_nothing() {
    let doc = list(vec![]);
    let lines = format_document(&doc, "status.conditions", SortMode::Type, false, false, now()).unwrap();
    assert!(lines.is_empty());
}

#[test]
fn other_documents_give_their_table() {
    let doc = resource("Pod", Some("x"), "a", &["Ready"]);
    let lines =
        format_document(&doc, "status.conditions", SortMode::Type, false, true, now()).unwrap();
    assert_eq!(lines, vec!["Ready  True  -  1h ago"]);
    let not_a_list = object(vec![("kind", text("PodList")), ("items", Json::Array(vec![]))]);
    assert!(list_entries(&not_a_list).is_none());
    assert!(format_document(&not_a_list, "status.conditions", SortMode::Type, false, true, now()).is_err());
}

#[test]
fn titles_of_resources() {
    assert_eq!(title_of(&resource("Pod", Some("ns"), "p", &[])), "Pod ns/p");
    assert_eq!(title_of(&resource("Node", None, "n", &[])), "Node n");
    assert_eq!(title_of(&resource("Node", Some(""), "n", &[])), "Node n");
    assert_eq!(title_of(&object(vec![])), "- -");
}

#[test]
fn sort_flags_exclude_one_another() {
    assert_eq!(sort_mode_from_flags(false, false, false), Some(SortMode::Type));
    assert_eq!(sort_mode_from_flags(true, false, false), Some(SortMode::Unsorted));
    assert_eq!(sort_mode_from_flags(false, true, false), Some(SortMode::Status));
    assert_eq!(sort_mode_from_flags(false, false, true), Some(SortMode::Time));
    assert_eq!(sort_mode_from_flags(true, true, false), None);
    assert_eq!(sort_mode_from_flags(false, true, true), None);
    assert_eq!(sort_mode_from_flags(true, false, true), None);
}

#[test]
fn skipped_entries_are_counted() {
    let root = object(vec![(
        "c",
        Json::Array(vec![text("x"), object(vec![]), Json::Null]),
    )]);
    assert_eq!(skipped_entry_count(&root, "c"), 2);
    assert_eq!(skipped_entry_count(&root, "missing"), 0);
}
