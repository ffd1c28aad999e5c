use codex_cost_meter::discovery::{Json, JsonNumber};
use codex_cost_meter::session::Snapshot;
use serde_json::Value;

fn to_json(value: Value) -> Json {
    match value {
        Value::Null => Json::Null,
        Value::Bool(b) => Json::Bool(b),
        Value::Number(n) => match (n.as_u64(), n.as_i64()) {
            (Some(u), _) => Json::Number(JsonNumber::Unsigned(u)),
            (None, Some(i)) => Json::Number(JsonNumber::Negative(i)),
            _ => Json::Number(JsonNumber::Fractional),
        },
        Value::String(s) => Json::Text(s),
        Value::Array(items) => Json::List(items.into_iter().map(to_json).collect()),
        Value::Object(map) => Json::Object(map.into_iter().map(|(k, v)| (k, to_json(v))).collect()),
    }
}

fn load(lines: &[&str]) -> Snapshot {
    let mut snapshot = Snapshot::new();
    for line in lines {
        let item = serde_json::from_str::<Value>(line).ok().map(to_json);
        snapshot.record_line(item.as_ref());
    }
    snapshot.finish_reading(0);
    snapshot
}

#[test]
fn retains_the_latest_valid_entry_and_counts_malformed_records() {
    assert!(Snapshot::new().is_complete());

    let snapshot = load(&[
        "{\"id\":\"root\",\"thread_name\":\"oldest\",\"updated_at\":\"2026-08-13T12:00:00Z\"}",
        "not json",
        "\"wrong type\"",
        "{\"id\":\"root\",\"thread_name\":\"ignored\",\"updated_at\":\"2026-08-13T12:00:30Z\",\"unknown_field\":\"ignored\"}",
        "{\"id\":\"root\",\"thread_name\":\"newest\",\"updated_at\":\"2026-08-13T12:01:00Z\"}",
    ]);

    assert_eq!(snapshot.entry("root").unwrap().name, "newest");
    assert_eq!(snapshot.malformed_records(), 2);
    assert!(!snapshot.is_complete());
}

#[test]
fn older_entries_do_not_replace_newer_ones_and_blank_names_are_ignored() {
    let snapshot = load(&[
        "{\"id\":\"a\",\"thread_name\":\"new\",\"updated_at\":\"2026-08-13T12:01:00Z\"}",
        "{\"id\":\"a\",\"thread_name\":\"old\",\"updated_at\":\"2026-08-13T12:00:00Z\"}",
        "{\"id\":\"b\",\"thread_name\":\"\",\"updated_at\":\"2026-08-13T12:00:00Z\"}",
        "{\"id\":\"c\",\"thread_name\":\"x\",\"updated_at\":\"yesterday\"}",
        "{\"thread_name\":\"no id\"}",
    ]);
    assert_eq!(snapshot.entry("a").unwrap().name, "new");
    assert!(snapshot.entry("b").is_none());
    assert!(snapshot.entry("c").is_none());
    assert_eq!(snapshot.malformed_records(), 1);
}

#[test]
fn rfc3339_instants_are_nanoseconds_since_the_epoch() {
    let snapshot = load(&[
        "{\"id\":\"a\",\"thread_name\":\"one\",\"updated_at\":\"1970-01-01T00:00:01Z\"}",
        "{\"id\":\"b\",\"thread_name\":\"two\",\"updated_at\":\"1970-01-01T01:00:00+01:00\"}",
        "{\"id\":\"c\",\"thread_name\":\"three\",\"updated_at\":\"not a time\"}",
    ]);
    assert_eq!(snapshot.entry("a").unwrap().updated_at, 1_000_000_000);
    assert_eq!(snapshot.entry("b").unwrap().updated_at, 0);
    assert!(snapshot.entry("c").is_none());
}
