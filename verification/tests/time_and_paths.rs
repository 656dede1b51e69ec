use std::cmp::Ordering;

use prettycond::{
    cell_width, cmp_last_transition_time, column_widths, describe_age, elapsed_seconds,
    format_duration, format_padded_line, json_kind, parse_last_transition_time, relative_time_at,
    walk_path, ConditionRow, Json, PathError, Timestamp,
};

fn now() -> Timestamp {
    parse_last_transition_time("2026-04-02T15:00:00Z").unwrap()
}

fn object(members: Vec<(&str, Json)>) -> Json {
    Json::Object(members.into_iter().map(|(k, v)| (k.to_string(), v)).collect())
}

fn timed(ts: Option<Timestamp>) -> ConditionRow {
    ConditionRow {
        type_: "T".into(),
        status: "True".into(),
        reason: "-".into(),
        last_transition: "-".into(),
        last_transition_ts: ts,
    }
}

#[test]
fn format_duration_units() {
    assert_eq!(format_duration(30), "30s");
    assert_eq!(format_duration(120), "2m");
    assert_eq!(format_duration(7200), "2h");
    assert_eq!(format_duration(172800), "2d");
}

#[test]
fn format_duration_boundaries() {
    assert_eq!(format_duration(0), "0s");
    assert_eq!(format_duration(59), "59s");
    assert_eq!(format_duration(60), "1m");
    assert_eq!(format_duration(3599), "59m");
    assert_eq!(format_duration(3600), "1h");
    assert_eq!(format_duration(172799), "47h");
    assert_eq!(format_duration(1_000_000), "11d");
}

#[test]
fn format_duration_drops_the_sign() {
    assert_eq!(format_duration(-90), "1m");
    assert_eq!(format_duration(i64::MIN), "106751991167300d");
    assert_eq!(format_duration(i64::MAX), "106751991167300d");
}

#[test]
fn describe_age_past_and_future() {
    assert_eq!(describe_age(780), "13m ago");
    assert_eq!(describe_age(0), "0s ago");
    assert_eq!(describe_age(-780), "in 13m");
    assert_eq!(describe_age(-1), "in 1s");
}

#[test]
fn relative_time_in_the_future() {
    assert_eq!(relative_time_at("2026-04-02T17:00:00Z", now()), "in 2h");
    assert_eq!(relative_time_at("2026-04-02T16:00:00+01:00", now()), "0s ago");
}

#[test]
fn relative_time_truncates_fractions_toward_zero() {
    assert_eq!(relative_time_at("2026-04-02T14:59:00.500Z", now()), "59s ago");
    assert_eq!(relative_time_at("2026-04-02T15:00:59.900Z", now()), "in 59s");
}

#[test]
fn parsed_instants() {
    let t = now();
    assert_eq!(t.unix_seconds(), 1775142000);
    assert_eq!(t.subsec_nanos(), 0);
    let leap = parse_last_transition_time("2016-12-31T23:59:60Z").unwrap();
    assert_eq!(leap.unix_seconds(), 1483228799);
    assert_eq!(leap.subsec_nanos(), 1_000_000_000);
    assert!(parse_last_transition_time("2026-04-02").is_none());
    assert!(parse_last_transition_time("").is_none());
}

#[test]
fn elapsed_seconds_between_instants() {
    let earlier = parse_last_transition_time("2026-04-02T14:47:00Z").unwrap();
    assert_eq!(elapsed_seconds(&now(), &earlier), 780);
    assert_eq!(elapsed_seconds(&earlier, &now()), -780);
}

#[test]
fn timestamps_from_unix() {
    let t = Timestamp::from_unix(1775142000, 0).unwrap();
    assert_eq!(t, now());
    assert!(Timestamp::from_unix(i64::MAX, 0).is_none());
    assert!(Timestamp::from_unix(0, 2_000_000_000).is_none());
}

#[test]
fn time_order_of_rows() {
    let old = timed(parse_last_transition_time("2026-04-01T00:00:00Z"));
    let new = timed(parse_last_transition_time("2026-04-02T00:00:00Z"));
    let none = timed(None);
    assert_eq!(cmp_last_transition_time(&new, &old), Ordering::Less);
    assert_eq!(cmp_last_transition_time(&old, &new), Ordering::Greater);
    assert_eq!(cmp_last_transition_time(&old, &old), Ordering::Equal);
    assert_eq!(cmp_last_transition_time(&old, &none), Ordering::Less);
    assert_eq!(cmp_last_transition_time(&none, &old), Ordering::Greater);
    assert_eq!(cmp_last_transition_time(&none, &none), Ordering::Equal);
    let a = timed(parse_last_transition_time("2026-04-01T00:00:00.1Z"));
    let b = timed(parse_last_transition_time("2026-04-01T00:00:00.2Z"));
    assert_eq!(cmp_last_transition_time(&b, &a), Ordering::Less);
}

#[test]
fn kinds_of_values() {
    assert_eq!(json_kind(&Json::Null), "null");
    assert_eq!(json_kind(&Json::Bool(false)), "bool");
    assert_eq!(json_kind(&Json::Number("1.5".into())), "number");
    assert_eq!(json_kind(&Json::String("x".into())), "string");
    assert_eq!(json_kind(&Json::Array(vec![])), "array");
    assert_eq!(json_kind(&object(vec![])), "object");
}

#[test]
fn path_errors_and_their_messages() {
    let v = object(vec![("status", object(vec![("conditions", Json::Number("3".into()))]))]);
    match walk_path(&v, ".") {
        Err(PathError::EmptyPath) => {}
        other => panic!("unexpected {:?}", other),
    }
    let err = walk_path(&v, "status.conditions").unwrap_err();
    assert_eq!(
        err.message(),
        "value at path \"status.conditions\" is not an array or object (got number)"
    );
    let err = walk_path(&v, "status.x\"y").unwrap_err();
    assert_eq!(err.message(), "missing key \"x\\\"y\" in path \"status.x\\\"y\"");
    assert_eq!(
        PathError::EmptyPath.message(),
        "path must contain at least one segment"
    );
}

#[test]
fn path_ignores_empty_segments() {
    let v = object(vec![(
        "a",
        object(vec![("b", Json::Array(vec![Json::Null, Json::Bool(true), Json::Null]))]),
    )]);
    assert_eq!(walk_path(&v, "..a...b.").unwrap().len(), 3);
    assert!(matches!(walk_path(&v, "a.b").unwrap()[1], Json::Bool(true)));
}

#[test]
fn keys_are_looked_up_only_in_objects() {
    let v = object(vec![("a", Json::Array(vec![object(vec![])]))]);
    match walk_path(&v, "a.0") {
        Err(PathError::MissingKey { segment, path }) => {
            assert_eq!(segment, "0");
            assert_eq!(path, "a.0");
        }
        other => panic!("unexpected {:?}", other),
    }
}

#[test]
fn the_first_member_with_a_name_wins() {
    let v = object(vec![
        ("k", Json::Array(vec![Json::Null])),
        ("k", Json::Array(vec![])),
    ]);
    assert_eq!(walk_path(&v, "k").unwrap().len(), 1);
}

#[test]
fn widths_count_unicode_scalar_values() {
    assert_eq!(cell_width("Ärger"), 5);
    assert_eq!(cell_width(""), 0);
    let rows: Vec<Vec<String>> = vec![
        vec!["Ärger".into(), "ok".into()],
        vec!["a".into(), "b".into(), "c".into(), "d".into(), "very long fifth".into()],
    ];
    let w = column_widths(None, &rows);
    assert_eq!(w, vec![5, 2, 1, 1]);
    assert_eq!(format_padded_line(&rows[1], &w), "a      b   c  d  very long fifth");
    assert_eq!(format_padded_line(&rows[0], &w), "Ärger  ok");
}

#[test]
fn cells_wider_than_their_column_are_not_cut() {
    let cols: Vec<String> = vec!["toolong".into(), "x".into()];
    assert_eq!(format_padded_line(&cols, &[3, 3]), "toolong  x  ");
    assert_eq!(format_padded_line(&[], &[3]), "");
}
