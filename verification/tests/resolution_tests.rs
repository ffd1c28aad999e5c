use codex_cost_meter::discovery::{DiscoveryWarning, RolloutIndex, RolloutKind, RolloutRecord};
use codex_cost_meter::project::{
    path_target, project_scope, resolve_route, resolver_name, tally_cwd_scope, DesktopProject, DesktopState,
    ProjectError, ProjectRoute, Resolver,
};
use codex_cost_meter::session::Snapshot;
use codex_cost_meter::tree::{add_session_notes, scan_notes, thread_name, tree_order, TreeError};

fn project(id: &str, name: &str) -> DesktopProject {
    DesktopProject { id: id.into(), name: name.into(), root_paths: vec![format!("/src/{id}")] }
}

fn root(id: &str, cwd: Option<&str>) -> RolloutRecord {
    RolloutRecord {
        id: id.into(),
        parent_id: None,
        kind: RolloutKind::Root,
        cwd: cwd.map(String::from),
        path: format!("/home/.codex/sessions/{id}.jsonl"),
    }
}

fn state() -> DesktopState {
    DesktopState {
        projects: vec![project("p1", "Meter"), project("p2", "Billing")],
        project_keys: vec!["p1".into(), "p2".into()],
        assignments: vec![("t1".into(), "p2".into()), ("t3".into(), "gone".into())],
        projectless: vec!["t2".into()],
    }
}

#[test]
fn a_named_project_is_the_target() {
    let roots = [root("t1", Some("/w"))];
    match resolve_route(&state(), true, &roots, "METER", Some("t9")) {
        Ok(ProjectRoute::Project { index, resolver, required_thread }) => {
            assert_eq!(index, 0);
            assert_eq!(resolver, Resolver::ProjectName);
            assert_eq!(required_thread.as_deref(), Some("t9"));
        }
        _ => panic!("expected the named project"),
    }
    assert!(matches!(resolve_route(&state(), false, &roots, "Meter", None), Ok(ProjectRoute::Path)));
    assert!(matches!(resolve_route(&state(), true, &roots, "./somewhere", None), Ok(ProjectRoute::Path)));
    assert!(matches!(resolve_route(&state(), true, &roots, "", None), Ok(ProjectRoute::Path)));
}

#[test]
fn duplicate_project_names_are_ambiguous() {
    let mut desktop = state();
    desktop.projects.push(project("p3", "meter"));
    desktop.project_keys.push("p3".into());
    match resolve_route(&desktop, true, &[], "Meter", None) {
        Err(ProjectError::AmbiguousProjectName { reference, matches }) => {
            assert_eq!(reference, "Meter");
            assert_eq!(matches, "Meter, meter");
        }
        _ => panic!("expected an ambiguous name"),
    }
}

#[test]
fn a_thread_leads_to_its_project_or_its_directory() {
    let roots = [root("t1", Some("/w1")), root("t2", Some("/w2")), root("t3", None)];
    assert!(matches!(
        resolve_route(&state(), true, &roots, "", Some("t1")),
        Ok(ProjectRoute::Project { index: 1, resolver: Resolver::ThreadAssignment, required_thread: None })
    ));
    assert!(matches!(
        resolve_route(&state(), true, &roots, "", Some("t2")),
        Ok(ProjectRoute::ThreadCwd(ref cwd)) if cwd == "/w2"
    ));
    assert!(matches!(
        resolve_route(&state(), true, &roots, "", Some("t3")),
        Err(ProjectError::ThreadCwdMissing(ref id)) if id == "t3"
    ));
    assert!(matches!(
        resolve_route(&state(), true, &roots, "", Some("t4")),
        Err(ProjectError::ThreadNotRoot(ref id)) if id == "t4"
    ));
    assert!(matches!(
        resolve_route(&state(), false, &roots, "", Some("t1")),
        Err(ProjectError::MetadataUnavailable)
    ));
}

#[test]
fn resolved_paths_name_their_owner() {
    let desktop = state();
    let target = path_target(&desktop, &[false, true], "/src/p2", false).ok().unwrap();
    assert_eq!(target.project, Some(1));
    assert_eq!(target.target, "Billing");
    assert_eq!(resolver_name(target.resolver), "source_root_path");
    let target = path_target(&desktop, &[false, false], "/tmp/x", true).ok().unwrap();
    assert_eq!(target.project, None);
    assert_eq!(target.target, "/tmp/x");
    assert_eq!(resolver_name(target.resolver), "current_directory");
    let target = path_target(&desktop, &[false, false], "/tmp/x", false).ok().unwrap();
    assert_eq!(resolver_name(target.resolver), "path");
    match path_target(&desktop, &[true, true], "/shared", false) {
        Err(ProjectError::AmbiguousSourceRoot { path, matches }) => {
            assert_eq!(path, "/shared");
            assert_eq!(matches, "Billing, Meter");
        }
        _ => panic!("expected an ambiguous source root"),
    }
}

#[test]
fn project_scopes_count_and_require_threads() {
    let desktop = DesktopState {
        projects: vec![project("p1", "Meter")],
        project_keys: vec!["p1".into()],
        assignments: vec![("d".into(), "p1".into()), ("o".into(), "p9".into())],
        projectless: vec!["n".into()],
    };
    let roots = [
        root("w", Some("/src/p1/a")),
        root("d", Some("/elsewhere")),
        root("o", Some("/src/p1/b")),
        root("n", Some("/src/p1/c")),
        root("x", None),
        root("far", Some("/far")),
    ];
    let beneath = [true, false, true, true, false, false];
    let tally = project_scope(&desktop, &roots, &beneath, Some("p1"), Some("w"), "Meter").ok().unwrap();
    assert_eq!(tally.direct_assignments, 1);
    assert_eq!(tally.workspace_fallbacks, 1);
    assert_eq!(tally.projectless_exclusions, 1);
    assert_eq!(tally.other_project_exclusions, 1);
    assert_eq!(tally.thread_ids, vec!["d".to_string(), "w".to_string()]);
    match project_scope(&desktop, &roots, &beneath, Some("p1"), Some("far"), "Meter") {
        Err(ProjectError::ThreadOutsideProject { thread_id, target }) => {
            assert_eq!(thread_id, "far");
            assert_eq!(target, "Meter");
        }
        _ => panic!("expected the thread to lie outside"),
    }
}

#[test]
fn directory_scopes_include_unassigned_tasks() {
    let desktop = state();
    let roots = [root("t1", Some("/w")), root("t2", Some("/w")), root("z", Some("/w")), root("a", Some("/v"))];
    let tally = tally_cwd_scope(&desktop, &roots, "/w");
    assert_eq!(tally.other_project_exclusions, 1);
    assert_eq!(tally.projectless_threads, 1);
    assert_eq!(tally.workspace_fallbacks, 1);
    assert_eq!(tally.thread_ids, vec!["t2".to_string(), "z".to_string()]);
}

#[test]
fn a_tree_is_read_root_first_then_descendants_by_id() {
    let mut child_b = root("b", Some("/w"));
    child_b.parent_id = Some("r".into());
    child_b.kind = RolloutKind::Subagent;
    let mut child_a = root("a", Some("/w"));
    child_a.parent_id = Some("b".into());
    child_a.kind = RolloutKind::Subagent;
    let index = RolloutIndex::from_records(vec![root("r", Some("/w")), child_b, child_a], vec![], 0, 0);
    assert_eq!(tree_order(&index, "r", "/home").ok().unwrap(), vec!["r".to_string(), "a".into(), "b".into()]);
    match tree_order(&index, "missing", "/home") {
        Err(TreeError::RolloutNotFound { thread_id, home }) => {
            assert_eq!(thread_id, "missing");
            assert_eq!(home, "/home");
        }
        _ => panic!("expected a missing rollout"),
    }
}

#[test]
fn scan_problems_become_notes() {
    let warning = DiscoveryWarning { path: "/home/.codex/sessions/x".into(), error: std::io::ErrorKind::PermissionDenied };
    let index = RolloutIndex::from_records(vec![], vec![warning], 2, 1);
    let notes = scan_notes(&index);
    assert!(notes.incomplete);
    assert_eq!(
        notes.warnings,
        vec![
            "rollout scan could not read /home/.codex/sessions/x (permission denied)".to_string(),
            "rollout scan skipped malformed JSONL records".into(),
            "rollout scan skipped oversized JSONL records".into(),
        ]
    );
    let clean = scan_notes(&RolloutIndex::from_records(vec![], vec![], 0, 0));
    assert!(!clean.incomplete);
    assert!(clean.warnings.is_empty());
}

#[test]
fn session_index_problems_become_notes() {
    let mut snapshot = Snapshot::new();
    snapshot.record_line(None);
    snapshot.finish_reading(1);
    let mut notes = vec!["first".to_string()];
    add_session_notes(&snapshot, &mut notes);
    assert_eq!(
        notes,
        vec![
            "first".to_string(),
            "session index skipped oversized JSONL records".into(),
            "session index contains malformed JSONL records".into(),
        ]
    );
    assert_eq!(thread_name(&snapshot, "t1"), None);
    snapshot.fail_reading(std::io::ErrorKind::NotFound);
    let mut notes = Vec::new();
    add_session_notes(&snapshot, &mut notes);
    assert_eq!(notes, vec!["session index could not be read".to_string()]);
}
