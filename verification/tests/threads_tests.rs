use codex_cost_meter::discovery::{Json, RolloutKind, RolloutRecord};
use codex_cost_meter::threads::{root_candidates, roots_by_id, targeted_complete, StateRow};

fn row(id: &str, source: Option<Json>, cwd: Option<&str>) -> StateRow {
    StateRow {
        id: id.into(),
        path: format!("/h/sessions/{id}.jsonl"),
        source,
        cwd: cwd.map(String::from),
        modified: 7,
    }
}

fn record(id: &str, kind: RolloutKind) -> RolloutRecord {
    RolloutRecord { id: id.into(), parent_id: None, kind, cwd: None, path: format!("/{id}") }
}

#[test]
fn thread_rows_describe_root_candidates() {
    let subagent = Json::Object(vec![(
        "subagent".into(),
        Json::Object(vec![("thread_spawn".into(), Json::Object(vec![]))]),
    )]);
    let rows = [
        row("a", None, Some("/w")),
        row("b", Some(Json::Text("cli".into())), Some("")),
        row("c", Some(subagent), Some("/w")),
    ];
    let candidates = root_candidates(&rows);
    assert_eq!(candidates.len(), 2);
    assert_eq!(candidates[0].0.id, "a");
    assert_eq!(candidates[0].0.cwd.as_deref(), Some("/w"));
    assert!(matches!(candidates[0].0.kind, RolloutKind::Root));
    assert_eq!(candidates[0].1, 7);
    assert_eq!(candidates[1].0.id, "b");
    assert_eq!(candidates[1].0.cwd, None);
    assert_eq!(candidates[1].0.path, "/h/sessions/b.jsonl");
}

#[test]
fn roots_come_sorted_by_id() {
    let records = [
        record("m", RolloutKind::Root),
        record("c", RolloutKind::Subagent),
        record("b", RolloutKind::Root),
        record("z", RolloutKind::Root),
    ];
    let ids: Vec<String> = roots_by_id(&records).into_iter().map(|r| r.id).collect();
    assert_eq!(ids, vec!["b".to_string(), "m".into(), "z".into()]);
}

#[test]
fn targeted_indexes_must_find_everything() {
    let records = [record("a", RolloutKind::Root), record("b", RolloutKind::Subagent)];
    let ids = ["a".to_string()];
    assert!(targeted_complete(&records, 0, 2, &ids));
    assert!(!targeted_complete(&records, 1, 2, &ids));
    assert!(!targeted_complete(&records, 0, 3, &ids));
    assert!(!targeted_complete(&records, 0, 2, &["c".to_string()]));
    assert!(targeted_complete(&[], 0, 0, &[]));
}
