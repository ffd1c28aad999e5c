use codex_cost_meter::discovery::Json;
use codex_cost_meter::schedule::FailureClass;
use codex_cost_meter::session::Snapshot;
use codex_cost_meter::title::{MetricList, TitleFormat};
use codex_cost_meter::update::{
    base_name, matches_title, needs_update, nonblank, normalize_whitespace, select_explicit,
    select_idle, select_idle_at, select_rows, update_output, write_update_output, AppendFault, IoFault,
    ProposedUpdate, SqliteFault, ThreadRow, UpdateError, UpdateOptions, UpdateResult,
};

fn row(id: &str, title: Option<&str>, updated_at: i64) -> ThreadRow {
    ThreadRow {
        id: id.into(),
        title: title.map(String::from),
        name: None,
        history_mode: None,
        updated_at,
        first_user_message: None,
        source: None,
    }
}

fn options() -> UpdateOptions {
    UpdateOptions {
        thread_ids: Vec::new(),
        title_matches: Vec::new(),
        idle_minutes: None,
        limit: 20,
        reprice_before: None,
        apply: false,
        title_format: TitleFormat::new(65, MetricList::from_str("total-tokens").unwrap()),
    }
}

#[test]
fn applied_update_write_failure_reports_completed_count() {
    let result = UpdateResult {
        proposals: vec![ProposedUpdate {
            id: "root".into(),
            old_title: "Old title".into(),
            new_title: "New title".into(),
        }],
    };

    let (_, error) = write_update_output(&result, true);

    assert!(error.message().contains("update applied successfully to 1 task(s)"));
    assert!(error.message().contains("could not write update output"));
}

#[test]
fn update_output_lists_proposals_then_the_outcome() {
    let result = UpdateResult {
        proposals: vec![ProposedUpdate {
            id: "root".into(),
            old_title: "Old\ttitle".into(),
            new_title: "New title".into(),
        }],
    };
    assert_eq!(update_output(&result, true), "root: Old title -> New title\nupdated 1 task(s)\n");
    assert_eq!(
        update_output(&result, false),
        "root: Old title -> New title\ndry run; pass --apply to write\n"
    );
    let (text, error) = write_update_output(&UpdateResult { proposals: vec![] }, false);
    assert_eq!(text, "dry run; pass --apply to write\n");
    assert_eq!(error.message(), "could not write update output");
}

#[test]
fn blank_values_and_whitespace() {
    assert_eq!(nonblank(Some("  hi there \n")), Some("hi there".to_string()));
    assert_eq!(nonblank(Some(" \t ")), None);
    assert_eq!(nonblank(None), None);
    assert_eq!(normalize_whitespace("  a \n b\tc  "), "a b c");
}

#[test]
fn root_rows_follow_their_source() {
    let mut r = row("a", None, 0);
    assert!(!r.is_root());
    r.source = Some(None);
    assert!(r.is_root());
    r.source = Some(Some(Json::Text("cli".into())));
    assert!(r.is_root());
    r.source = Some(Some(Json::Object(vec![("subagent".into(), Json::Text("review".into()))])));
    assert!(!r.is_root());
}

#[test]
fn base_names_prefer_titles_then_names_then_prompts() {
    let snapshot = Snapshot::new();
    let mut r = row("a", Some(" Stored "), 0);
    r.first_user_message = Some("Prompt".into());
    assert_eq!(base_name(&r, &snapshot), "Stored");
    r.title = Some("Prompt".into());
    assert_eq!(base_name(&r, &snapshot), "Prompt");
    r.title = None;
    r.first_user_message = Some("  many   words ".into());
    assert_eq!(base_name(&r, &snapshot), "many words");
    r.first_user_message = None;
    assert_eq!(base_name(&r, &snapshot), "Untitled");
    r.history_mode = Some("paginated".into());
    r.name = Some("Sidebar".into());
    r.title = Some("Stored".into());
    assert_eq!(base_name(&r, &snapshot), "Sidebar");
}

#[test]
fn title_queries_ignore_case() {
    let snapshot = Snapshot::new();
    let r = row("a", Some("Refactor The Parser"), 0);
    assert!(matches_title(&r, &snapshot, "the parser"));
    assert!(!matches_title(&r, &snapshot, "lexer"));
}

#[test]
fn rows_without_an_index_entry_need_updates() {
    let snapshot = Snapshot::new();
    assert!(needs_update(&row("a", None, 0), &snapshot, &options().title_format, None));
}

#[test]
fn explicit_selection_resolves_ids_and_queries_once() {
    let snapshot = Snapshot::new();
    let roots = vec![row("a", Some("Alpha task"), 0), row("b", Some("Beta task"), 0)];
    let mut o = options();
    o.thread_ids = vec!["b".into(), "b".into()];
    o.title_matches = vec!["alpha".into(), "BETA".into()];
    assert_eq!(select_explicit(&roots, &snapshot, &o).ok(), Some(vec![1, 0]));

    o.thread_ids = vec!["missing".into()];
    match select_rows(&roots, &snapshot, &o) {
        Err(UpdateError::RootNotFound { id }) => assert_eq!(id, "missing"),
        _ => panic!("expected a missing root"),
    }

    o.thread_ids = vec![];
    o.title_matches = vec!["task".into()];
    match select_explicit(&roots, &snapshot, &o) {
        Err(UpdateError::TitleMatch { query, matches }) => {
            assert_eq!(query, "task");
            assert_eq!(matches, "a, b");
        }
        _ => panic!("expected an ambiguous title"),
    }
    o.title_matches = vec!["gamma".into()];
    match select_explicit(&roots, &snapshot, &o) {
        Err(UpdateError::TitleMatch { matches, .. }) => assert_eq!(matches, "none"),
        _ => panic!("expected no title match"),
    }
}

#[test]
fn idle_selection_is_newest_first_and_limited() {
    let snapshot = Snapshot::new();
    let roots = vec![
        row("old", None, 100),
        row("new", None, 300),
        row("too-recent", None, 950),
        row("tie-first", None, 200),
        row("tie-second", None, 200),
    ];
    let mut o = options();
    o.idle_minutes = Some(1);
    o.limit = 3;
    assert_eq!(select_idle_at(&roots, &snapshot, &o, 1000), vec![1, 3, 4]);
    o.limit = 20;
    assert_eq!(select_idle_at(&roots, &snapshot, &o, 1000), vec![1, 3, 4, 0]);
    o.idle_minutes = Some(u64::MAX);
    assert!(select_idle_at(&roots, &snapshot, &o, 1000).is_empty());
}

#[test]
fn classifies_failures_for_scheduled_circuit_breaking() {
    for (error, expected) in [
        (UpdateError::Schema { column: "name".into() }, FailureClass::IncompatibleSchema),
        (
            UpdateError::SessionIndexUnreadable { kind: IoFault::PermissionDenied },
            FailureClass::PermissionDenied,
        ),
        (UpdateError::RootNotFound { id: "missing".into() }, FailureClass::Ordinary),
        (UpdateError::Database { code: Some(SqliteFault::DiskFull) }, FailureClass::DiskFull),
        (
            UpdateError::Database { code: Some(SqliteFault::PermissionDenied) },
            FailureClass::PermissionDenied,
        ),
        (
            UpdateError::Database { code: Some(SqliteFault::CannotOpen) },
            FailureClass::PermissionDenied,
        ),
        (
            UpdateError::Database { code: Some(SqliteFault::ReadOnly) },
            FailureClass::PermissionDenied,
        ),
        (UpdateError::Database { code: Some(SqliteFault::Other) }, FailureClass::Ordinary),
        (UpdateError::SessionIndex(AppendFault::DiskFull), FailureClass::DiskFull),
        (
            UpdateError::SessionIndex(AppendFault::Io(IoFault::PermissionDenied)),
            FailureClass::PermissionDenied,
        ),
        (
            UpdateError::Lock {
                path: "thread-cost-title-updater.lock".into(),
                source: IoFault::PermissionDenied,
            },
            FailureClass::PermissionDenied,
        ),
    ] {
        assert_eq!(error.failure_class(), expected);
    }
}

fn index_line(id: &str, name: &str) -> Json {
    Json::Object(vec![
        ("id".into(), Json::Text(id.into())),
        ("thread_name".into(), Json::Text(name.into())),
        ("updated_at".into(), Json::Text("2026-01-01T00:00:00Z".into())),
    ])
}

fn stored(id: &str, title: &str, name: Option<&str>, mode: &str, prompt: &str) -> ThreadRow {
    ThreadRow {
        id: id.into(),
        title: Some(title.into()),
        name: name.map(String::from),
        history_mode: Some(mode.into()),
        updated_at: 0,
        first_user_message: Some(prompt.into()),
        source: None,
    }
}

#[test]
fn chooses_paginated_and_legacy_base_names_in_adr_order() {
    let rows = [
        stored("paginated", "SQLite title", Some(" SQLite name "), "paginated", "Prompt"),
        stored("legacy-title", " SQLite title ", None, "legacy", "Prompt"),
        stored("legacy-index", "Prompt", None, "legacy", "Prompt"),
        stored("paginated-blank", "SQLite title", None, "paginated", "  Prompt   words "),
        stored("fallback", "  Prompt   words ", None, "legacy", "  Prompt   words "),
    ];
    let mut snapshot = Snapshot::new();
    snapshot.record_line(Some(&index_line("legacy-index", "Index name")));
    snapshot.record_line(Some(&index_line("paginated-blank", "Stale index name")));
    let mut o = options();
    o.thread_ids = rows.iter().map(|row| row.id.clone()).collect();
    let selected = select_rows(&rows, &snapshot, &o).ok().unwrap();
    assert_eq!(
        selected.iter().map(|&i| base_name(&rows[i], &snapshot)).collect::<Vec<_>>(),
        ["SQLite name", "SQLite title", "Index name", "Prompt words", "Prompt words"]
    );
}

#[test]
fn explicit_selection_matches_all_name_sources_deduplicates_and_rejects_non_unique_or_non_root_ids() {
    let rows = [
        stored("title", "Title only", None, "legacy", "Prompt"),
        stored("name", "Other", Some("Name match"), "legacy", "Prompt"),
        stored("index", "Other", None, "legacy", "Prompt"),
        stored("first", "Shared", None, "legacy", "Prompt"),
        stored("second", "Shared", None, "legacy", "Prompt"),
    ];
    let mut snapshot = Snapshot::new();
    snapshot.record_line(Some(&index_line("index", "Index match")));
    let mut o = options();
    o.thread_ids = vec!["name".into(), "name".into()];
    o.title_matches = vec!["title only".into(), "name match".into(), "index match".into()];
    let selected = select_rows(&rows, &snapshot, &o).ok().unwrap();
    assert_eq!(selected.iter().map(|&i| rows[i].id.as_str()).collect::<Vec<_>>(), ["name", "title", "index"]);

    let mut ambiguous = options();
    ambiguous.title_matches = vec!["shared".into()];
    assert!(matches!(select_rows(&rows, &snapshot, &ambiguous), Err(UpdateError::TitleMatch { .. })));
    let mut absent = options();
    absent.title_matches = vec!["absent".into()];
    assert!(matches!(select_rows(&rows, &snapshot, &absent), Err(UpdateError::TitleMatch { .. })));
    // A child task is not among the root rows the selection is made from.
    let mut child = options();
    child.thread_ids = vec!["child".into()];
    assert!(matches!(select_rows(&rows, &snapshot, &child), Err(UpdateError::RootNotFound { .. })));
}

#[test]
fn idle_selection_now_picks_long_idle_tasks() {
    let snapshot = Snapshot::new();
    let roots = vec![row("old", None, 100), row("older", None, 50), row("future", None, i64::MAX)];
    let mut o = options();
    o.idle_minutes = Some(1);
    assert_eq!(select_idle(&roots, &snapshot, &o), Some(vec![0, 1]));
}
