use prettycond::{
    column_widths, condition_row_from_object, format_condition_table, format_padded_line,
    parse_last_transition_time, relative_time_at, sort_rows, str_field, table_header_strings,
    walk_path, ConditionRow, Json, SortMode, Timestamp,
};

fn fixed_now() -> Timestamp {
    parse_last_transition_time("2026-04-02T15:00:00Z").unwrap()
}

fn text(s: &str) -> Json {
    Json::String(s.to_string())
}

fn object(members: Vec<(&str, Json)>) -> Json {
    Json::Object(members.into_iter().map(|(k, v)| (k.to_string(), v)).collect())
}

fn condition(type_: &str, status: &str, reason: &str, ltt: &str) -> Json {
    object(vec![
        ("type", text(type_)),
        ("status", text(status)),
        ("reason", text(reason)),
        ("lastTransitionTime", text(ltt)),
    ])
}

fn row(type_: &str, status: &str, reason: &str, ltt: &str) -> ConditionRow {
    ConditionRow {
        type_: type_.into(),
        status: status.into(),
        reason: reason.into(),
        last_transition: ltt.into(),
        last_transition_ts: parse_last_transition_time(ltt),
    }
}

fn sample_cr_json() -> Json {
    object(vec![(
        "status",
        object(vec![(
            "conditions",
            Json::Array(vec![
                condition("CondTypeLongNameOne", "True", "-", "2026-04-02T14:47:00Z"),
                condition("CondTypeB", "False", "ReasonAlpha", "2026-04-02T14:47:00Z"),
                condition("CondTypeC", "False", "ReasonBeta", "2026-04-02T14:47:00Z"),
                condition("CondTypeD", "False", "ReasonBeta", "2026-04-02T14:47:00Z"),
                condition("CondTypeE", "True", "-", "2026-04-02T14:47:00Z"),
            ]),
        )]),
    )])
}

#[test]
fn walk_path_empty_segment_error() {
    let v = object(vec![]);
    let err = walk_path(&v, "").unwrap_err();
    assert!(err.message().contains("at least one segment"));
}

#[test]
fn walk_path_missing_key() {
    let v = object(vec![("status", object(vec![]))]);
    let err = walk_path(&v, "status.conditions").unwrap_err();
    assert!(err.message().contains("missing key"));
}

#[test]
fn walk_path_leaf_not_array_or_object() {
    let v = object(vec![("status", object(vec![("conditions", text("nope"))]))]);
    let err = walk_path(&v, "status.conditions").unwrap_err();
    assert!(err.message().contains("not an array or object"));
}

#[test]
fn walk_path_array_ok() {
    let v = object(vec![(
        "a",
        object(vec![(
            "b",
            Json::Array(vec![Json::Number("1".into()), Json::Number("2".into())]),
        )]),
    )]);
    let got = walk_path(&v, "a.b").unwrap();
    assert_eq!(got.len(), 2);
}

#[test]
fn walk_path_single_object_ok() {
    let v = object(vec![("x", object(vec![("y", object(vec![("type", text("T"))]))]))]);
    let got = walk_path(&v, "x.y").unwrap();
    assert_eq!(got.len(), 1);
}

#[test]
fn invalid_json_from_str() {
    let res = serde_json::from_str::<serde_json::Value>("{not json");
    assert!(res.is_err());
}

#[test]
fn relative_time_at_minutes_ago() {
    let now = fixed_now();
    assert_eq!(relative_time_at("2026-04-02T14:47:00Z", now), "13m ago");
}

#[test]
fn relative_time_at_unparseable_passthrough() {
    assert_eq!(relative_time_at("not-a-date", fixed_now()), "not-a-date");
}

#[test]
fn column_widths_and_padding_align() {
    let header: Vec<String> = vec![
        "TYPE".into(),
        "STATUS".into(),
        "REASON".into(),
        "LAST_TRANSITION".into(),
    ];
    let rows: Vec<Vec<String>> = vec![vec![
        "Short".into(),
        "True".into(),
        "-".into(),
        "1m ago".into(),
    ]];
    let w = column_widths(Some(&header), &rows);
    assert_eq!(w, vec![5, 6, 6, 15]);
    let line = format_padded_line(&rows[0], &w);
    // After the STATUS column ("True  ") comes the two-space gap, so there are four spaces after "e".
    assert_eq!(line, "Short  True    -       1m ago         ");
    let hdr = format_padded_line(&header, &w);
    assert!(hdr.starts_with("TYPE"));
    assert!(hdr.contains("LAST_TRANSITION"));
}

#[test]
fn sort_by_type_default_order() {
    let now = fixed_now();
    let mut rows = vec![
        ConditionRow {
            type_: "Zebra".into(),
            status: "True".into(),
            reason: "-".into(),
            last_transition: relative_time_at("2026-04-01T00:00:00Z", now),
            last_transition_ts: parse_last_transition_time("2026-04-01T00:00:00Z"),
        },
        ConditionRow {
            type_: "Alpha".into(),
            status: "False".into(),
            reason: "-".into(),
            last_transition: relative_time_at("2026-04-02T00:00:00Z", now),
            last_transition_ts: parse_last_transition_time("2026-04-02T00:00:00Z"),
        },
    ];
    sort_rows(&mut rows, SortMode::Type, false);
    assert_eq!(rows[0].type_, "Alpha");
    assert_eq!(rows[1].type_, "Zebra");
}

#[test]
fn sort_by_time_most_recent_first() {
    let mut rows = vec![
        ConditionRow {
            type_: "A".into(),
            status: "True".into(),
            reason: "-".into(),
            last_transition: String::new(),
            last_transition_ts: parse_last_transition_time("2026-04-01T00:00:00Z"),
        },
        ConditionRow {
            type_: "B".into(),
            status: "True".into(),
            reason: "-".into(),
            last_transition: String::new(),
            last_transition_ts: parse_last_transition_time("2026-04-02T00:00:00Z"),
        },
    ];
    sort_rows(&mut rows, SortMode::Time, false);
    assert_eq!(rows[0].type_, "B");
    assert_eq!(rows[1].type_, "A");
}

#[test]
fn format_table_matches_expected_columns_and_type_sort() {
    let root = sample_cr_json();
    let now = fixed_now();
    let lines =
        format_condition_table(&root, "status.conditions", SortMode::Type, false, false, now)
            .unwrap();
    assert_eq!(lines.len(), 6);
    assert!(lines[0].contains("TYPE"));
    assert!(lines[0].contains("LAST_TRANSITION"));
    // Sorted by type: CondTypeB, C, D, E, LongNameOne
    assert!(lines[1].starts_with("CondTypeB"));
    assert!(lines[2].starts_with("CondTypeC"));
    assert!(lines[5].starts_with("CondTypeLongNameOne"));
    for line in &lines[1..] {
        assert!(line.contains("13m ago"), "expected fixed relative time: {line}");
    }
}

#[test]
fn format_table_unsorted_preserves_json_order() {
    let root = sample_cr_json();
    let now = fixed_now();
    let lines =
        format_condition_table(&root, "status.conditions", SortMode::Unsorted, false, true, now)
            .unwrap();
    assert_eq!(lines.len(), 5);
    assert!(lines[0].starts_with("CondTypeLongNameOne"));
    assert!(lines[1].starts_with("CondTypeB"));
}

#[test]
fn table_lines_all_have_the_same_width() {
    let root = sample_cr_json();
    let lines =
        format_condition_table(&root, "status.conditions", SortMode::Type, false, false, fixed_now())
            .unwrap();
    let width = lines[0].chars().count();
    for line in &lines {
        assert_eq!(line.chars().count(), width);
        // Every column starts at the same place: the STATUS cell follows the
        // widest type and the gap.
        assert_eq!(&line[19..21], "  ");
    }
    assert_eq!(lines[0], "TYPE                 STATUS  REASON       LAST_TRANSITION");
    assert_eq!(lines[1], "CondTypeB            False   ReasonAlpha  13m ago        ");
}

#[test]
fn table_skips_entries_that_are_not_objects() {
    let root = object(vec![(
        "conds",
        Json::Array(vec![
            text("stray"),
            condition("Ready", "True", "Fine", "2026-04-02T14:59:30Z"),
            Json::Null,
        ]),
    )]);
    let lines =
        format_condition_table(&root, "conds", SortMode::Type, false, true, fixed_now()).unwrap();
    assert_eq!(lines, vec!["Ready  True  Fine  30s ago".to_string()]);
}

#[test]
fn table_of_a_single_object_at_the_path() {
    let root = object(vec![("status", condition("Ready", "True", "-", "later"))]);
    let lines =
        format_condition_table(&root, "status", SortMode::Time, false, true, fixed_now()).unwrap();
    assert_eq!(lines, vec!["Ready  True  -  later".to_string()]);
}

#[test]
fn table_reports_a_path_error() {
    let root = sample_cr_json();
    let err = format_condition_table(&root, "status.missing", SortMode::Type, false, false, fixed_now())
        .unwrap_err();
    assert_eq!(
        err.message(),
        "missing key \"missing\" in path \"status.missing\""
    );
}

#[test]
fn str_field_shows_a_dash_for_missing_or_non_string_members() {
    let Json::Object(members) = object(vec![
        ("type", text("Ready")),
        ("status", Json::Bool(true)),
    ]) else {
        unreachable!()
    };
    assert_eq!(str_field(&members, "type"), "Ready");
    assert_eq!(str_field(&members, "status"), "-");
    assert_eq!(str_field(&members, "reason"), "-");
}

#[test]
fn condition_row_without_a_transition_time() {
    let Json::Object(members) = object(vec![("type", text("Ready"))]) else {
        unreachable!()
    };
    let r = condition_row_from_object(&members, fixed_now());
    assert_eq!(r.type_, "Ready");
    assert_eq!(r.status, "-");
    assert_eq!(r.reason, "-");
    assert_eq!(r.last_transition, "-");
    assert!(r.last_transition_ts.is_none());
}

#[test]
fn condition_row_with_an_unparseable_transition_time() {
    let Json::Object(members) = object(vec![("lastTransitionTime", text("yesterday"))]) else {
        unreachable!()
    };
    let r = condition_row_from_object(&members, fixed_now());
    assert_eq!(r.last_transition, "yesterday");
    assert!(r.last_transition_ts.is_none());
}

#[test]
fn header_strings_are_the_four_titles() {
    assert_eq!(
        table_header_strings(),
        vec!["TYPE", "STATUS", "REASON", "LAST_TRANSITION"]
    );
}

#[test]
fn unsorted_mode_keeps_rows() {
    let mut rows = vec![row("B", "x", "-", "a"), row("A", "y", "-", "b")];
    sort_rows(&mut rows, SortMode::Unsorted, true);
    assert_eq!(rows[0].type_, "B");
    assert_eq!(rows[1].type_, "A");
}

#[test]
fn tied_rows_keep_their_order_also_when_reversed() {
    let mut rows = vec![
        row("Ready", "True", "-", "first"),
        row("Alpha", "True", "-", "x"),
        row("Ready", "True", "-", "second"),
    ];
    sort_rows(&mut rows, SortMode::Type, false);
    let order: Vec<&str> = rows.iter().map(|r| r.last_transition.as_str()).collect();
    assert_eq!(order, vec!["x", "first", "second"]);
    sort_rows(&mut rows, SortMode::Type, true);
    let order: Vec<&str> = rows.iter().map(|r| r.last_transition.as_str()).collect();
    assert_eq!(order, vec!["first", "second", "x"]);
}

#[test]
fn status_sort_then_type() {
    let mut rows = vec![
        row("B", "True", "-", "1"),
        row("C", "False", "-", "2"),
        row("A", "True", "-", "3"),
    ];
    sort_rows(&mut rows, SortMode::Status, false);
    let types: Vec<&str> = rows.iter().map(|r| r.type_.as_str()).collect();
    assert_eq!(types, vec!["C", "A", "B"]);
}

#[test]
fn time_sort_puts_missing_times_last_and_breaks_ties_by_type() {
    let mut rows = vec![
        row("Z", "True", "-", "never"),
        row("B", "True", "-", "2026-04-01T00:00:00Z"),
        row("A", "True", "-", "2026-04-01T00:00:00Z"),
        row("C", "True", "-", "2026-04-02T00:00:00Z"),
    ];
    sort_rows(&mut rows, SortMode::Time, false);
    let types: Vec<&str> = rows.iter().map(|r| r.type_.as_str()).collect();
    assert_eq!(types, vec!["C", "A", "B", "Z"]);
    sort_rows(&mut rows, SortMode::Time, true);
    let types: Vec<&str> = rows.iter().map(|r| r.type_.as_str()).collect();
    assert_eq!(types, vec!["Z", "B", "A", "C"]);
}

#[test]
fn type_sort_compares_by_code_point() {
    let mut rows = vec![
        row("b", "", "", ""),
        row("Ä", "", "", ""),
        row("B", "", "", ""),
        row("", "", "", ""),
        row("Ba", "", "", ""),
    ];
    sort_rows(&mut rows, SortMode::Type, false);
    let types: Vec<&str> = rows.iter().map(|r| r.type_.as_str()).collect();
    assert_eq!(types, vec!["", "B", "Ba", "b", "Ä"]);
}
