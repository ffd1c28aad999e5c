use codex_cost_meter::discovery::{
    path_less, record_from_value, resolve_duplicates, rollout_kind, source_is_root, Json,
    RolloutIndex, RolloutKind, RolloutRecord,
};

fn text(value: &str) -> Json {
    Json::Text(value.to_string())
}

fn object(entries: Vec<(&str, Json)>) -> Json {
    Json::Object(entries.into_iter().map(|(k, v)| (k.to_string(), v)).collect())
}

fn record(id: &str, parent: Option<&str>, kind: RolloutKind, path: &str, cwd: &str) -> RolloutRecord {
    RolloutRecord {
        id: id.into(),
        parent_id: parent.map(String::from),
        kind,
        cwd: Some(cwd.into()),
        path: path.into(),
    }
}

fn kind_name(kind: &RolloutKind) -> String {
    kind.report_type()
}

#[test]
fn classifies_known_string_subagent_kinds() {
    let cases = [
        ("review", "code_review"),
        ("memory_consolidation", "memory_consolidation"),
    ];
    for (kind, expected) in cases {
        let source = object(vec![("subagent", text(kind))]);
        assert_eq!(kind_name(&rollout_kind(Some(&source))), expected, "{kind}");
    }
}

#[test]
fn classifies_object_subagents_internal_work_and_roots() {
    let guardian = object(vec![("subagent", object(vec![("other", text("guardian"))]))]);
    assert_eq!(kind_name(&rollout_kind(Some(&guardian))), "security_review");
    let spawn = object(vec![("subagent", object(vec![("thread_spawn", object(vec![]))]))]);
    assert_eq!(kind_name(&rollout_kind(Some(&spawn))), "subagent");
    let labelled = object(vec![("subagent", object(vec![("other", text("linter"))]))]);
    assert_eq!(kind_name(&rollout_kind(Some(&labelled))), "subagent:linter");
    let unlabelled = object(vec![("subagent", text("mystery"))]);
    assert_eq!(kind_name(&rollout_kind(Some(&unlabelled))), "subagent:mystery");
    let internal = object(vec![("internal", text("memory_consolidation"))]);
    assert_eq!(kind_name(&rollout_kind(Some(&internal))), "memory_consolidation");
    let other_internal = object(vec![("internal", text("indexer"))]);
    assert_eq!(kind_name(&rollout_kind(Some(&other_internal))), "internal:indexer");
    assert_eq!(kind_name(&rollout_kind(Some(&text("cli")))), "root");
    assert_eq!(kind_name(&rollout_kind(None)), "root");
    let empty = object(vec![("subagent", object(vec![]))]);
    assert_eq!(kind_name(&rollout_kind(Some(&empty))), "subagent");
}

#[test]
fn source_column_roots() {
    assert!(source_is_root(None));
    assert!(source_is_root(Some(&text("cli"))));
    let sub = object(vec![("subagent", text("review"))]);
    assert!(!source_is_root(Some(&sub)));
}

#[test]
fn reads_session_metadata_records() {
    let line = object(vec![
        ("type", text("session_meta")),
        (
            "payload",
            object(vec![
                ("cwd", text("/project")),
                ("session_id", text("child")),
                (
                    "source",
                    object(vec![(
                        "subagent",
                        object(vec![(
                            "thread_spawn",
                            object(vec![("parent_thread_id", text("root"))]),
                        )]),
                    )]),
                ),
            ]),
        ),
    ]);
    let rec = record_from_value(&line, "/home/sessions/child.jsonl").unwrap();
    assert_eq!(rec.id, "child");
    assert_eq!(rec.parent_id.as_deref(), Some("root"));
    assert_eq!(rec.cwd.as_deref(), Some("/project"));
    assert_eq!(rec.path, "/home/sessions/child.jsonl");
    assert_eq!(rec.kind.report_type(), "subagent");

    let other = object(vec![("type", text("turn_context")), ("payload", object(vec![]))]);
    assert!(record_from_value(&other, "x").is_none());
    let numeric_id = object(vec![
        ("type", text("session_meta")),
        ("payload", object(vec![("id", Json::Null), ("session_id", text("s"))])),
    ]);
    assert!(record_from_value(&numeric_id, "x").is_none());
}

#[test]
fn orders_paths_by_components() {
    assert!(path_less("/a/b", "/a-b"));
    assert!(!path_less("/a-b", "/a/b"));
    assert!(path_less("a.jsonl", "z.jsonl"));
    assert!(!path_less("/a//b", "/a/b"));
    assert!(path_less("/x", "x"));
}

#[test]
fn duplicate_resolution_uses_synthetic_time_then_path() {
    let selected = resolve_duplicates(vec![
        (record("duplicate", None, RolloutKind::Root, "a.jsonl", "old"), 0),
        (record("duplicate", None, RolloutKind::Root, "z.jsonl", "new"), 1_000_000_000),
    ]);
    assert_eq!(selected.len(), 1);
    assert_eq!(selected[0].cwd.as_deref(), Some("new"));

    let selected = resolve_duplicates(vec![
        (record("duplicate", None, RolloutKind::Root, "a.jsonl", "first"), 0),
        (record("duplicate", None, RolloutKind::Root, "z.jsonl", "later"), 0),
    ]);
    assert_eq!(selected[0].cwd.as_deref(), Some("later"));

    let selected = resolve_duplicates(vec![
        (record("duplicate", None, RolloutKind::Root, "z.jsonl", "newest"), 5),
        (record("other", None, RolloutKind::Root, "b.jsonl", "b"), 0),
        (record("duplicate", None, RolloutKind::Root, "y.jsonl", "older"), 4),
    ]);
    assert_eq!(selected.len(), 2);
    assert_eq!(selected[0].cwd.as_deref(), Some("newest"));
    assert_eq!(selected[1].id, "other");
}

fn index(records: Vec<RolloutRecord>) -> RolloutIndex {
    RolloutIndex::from_records(resolve_duplicates(records.into_iter().map(|r| (r, 0)).collect()), Vec::new(), 0, 0)
}

#[test]
fn traversal_stops_at_cyclic_parents() {
    let idx = index(vec![
        record("a", Some("b"), RolloutKind::Root, "a.jsonl", "/p"),
        record("b", Some("a"), RolloutKind::Root, "b.jsonl", "/p"),
    ]);
    assert_eq!(idx.descendants("a").unwrap(), vec!["b".to_string()]);
}

#[test]
fn indexes_sorted_descendants_through_every_generation() {
    let idx = index(vec![
        record("root", None, RolloutKind::Root, "r.jsonl", "/p"),
        record("zeta", Some("root"), RolloutKind::Subagent, "z.jsonl", "/p"),
        record("alpha", Some("zeta"), RolloutKind::CodeReview, "a.jsonl", "/p"),
        record("mid", Some("root"), RolloutKind::Subagent, "m.jsonl", "/p"),
        record("orphan", Some("missing"), RolloutKind::Subagent, "o.jsonl", "/p"),
    ]);
    assert_eq!(
        idx.descendants("root").unwrap(),
        vec!["alpha".to_string(), "mid".to_string(), "zeta".to_string()]
    );
    assert_eq!(idx.descendants("zeta").unwrap(), vec!["alpha".to_string()]);
    assert!(idx.descendants("alpha").unwrap().is_empty());
    assert!(idx.is_root("root"));
    assert!(!idx.is_root("zeta"));
    assert!(!idx.is_root("missing"));
    assert_eq!(idx.roots().len(), 1);
    assert_eq!(idx.record("mid").unwrap().path, "m.jsonl");
}

#[test]
fn missing_roots_produce_an_empty_index() {
    let idx = RolloutIndex::from_records(Vec::new(), Vec::new(), 2, 3);
    assert!(idx.record("missing").is_none());
    assert_eq!(idx.descendants("missing"), None);
    assert_eq!(idx.oversized_lines_skipped(), 2);
    assert_eq!(idx.malformed_lines_skipped(), 3);
    assert!(idx.warnings().is_empty());
}
