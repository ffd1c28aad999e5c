use codex_cost_meter::output::project_display;
use codex_cost_meter::report::{
    append_selection_notes, classify_root, fallback_task_count, tally_scope, write_cache_notices,
    ProjectSelection, ScopeDecision, ScopeRoot,
};
use codex_cost_meter::text::replace_text;

fn selection() -> ProjectSelection {
    ProjectSelection {
        target: "project".into(),
        resolver: "path".into(),
        missing_source_roots: 0,
        direct_assignments: 2,
        workspace_fallbacks: 3,
        projectless_threads: 1,
        projectless_exclusions: 0,
        other_project_exclusions: 0,
        incomplete_root_reports: 0,
        unpriced_root_reports: 0,
    }
}

#[test]
fn fallback_counts_saturate() {
    assert_eq!(fallback_task_count(&selection()), 6);
    let mut s = selection();
    s.direct_assignments = usize::MAX;
    assert_eq!(fallback_task_count(&s), usize::MAX);
}

#[test]
fn selection_notes_mention_only_what_happened() {
    let mut rendered = String::from("x\n");
    append_selection_notes(&mut rendered, &selection(), false);
    assert_eq!(rendered, "x\n");
    let mut s = selection();
    s.incomplete_root_reports = 1234;
    s.other_project_exclusions = 2;
    append_selection_notes(&mut rendered, &s, false);
    assert_eq!(
        rendered,
        "x\nTask trees: 1,234 incomplete · 0 with partial cost.\nExcluded: 0 missing source · 0 projectless · 2 other project.\n"
    );
    let mut corpus = String::new();
    append_selection_notes(&mut corpus, &s, true);
    assert_eq!(corpus, "");
}

#[test]
fn project_paths_show_their_last_component() {
    assert_eq!(project_display("/home/me/projects/meter"), "meter");
    assert_eq!(project_display("/home/me/projects/meter/"), "meter");
    assert_eq!(project_display("/"), "/");
    assert_eq!(project_display("a/.."), "a/..");
    assert_eq!(project_display("My\tProject"), "My Project");
}

#[test]
fn cache_notices_are_sanitised_lines() {
    assert_eq!(
        write_cache_notices(&["cache\nrebuilt".to_string(), "ok".to_string()]),
        "cache rebuilt\nok\n"
    );
}

#[test]
fn scope_decisions_and_tallies() {
    let root = |id: &str, beneath: bool, assignment: Option<&str>, projectless: bool| ScopeRoot {
        id: id.into(),
        beneath,
        assignment: assignment.map(String::from),
        projectless,
    };
    let roots = vec![
        root("z", false, Some("p1"), false),
        root("b", true, None, false),
        root("c", true, None, true),
        root("d", true, Some("p2"), false),
        root("e", false, None, false),
        root("a", true, Some("p1"), false),
    ];
    assert_eq!(classify_root(&roots[0], Some("p1")), ScopeDecision::Direct);
    assert_eq!(classify_root(&roots[2], Some("p1")), ScopeDecision::ProjectlessExclusion);
    assert_eq!(classify_root(&roots[3], Some("p1")), ScopeDecision::OtherProjectExclusion);
    assert_eq!(classify_root(&roots[4], Some("p1")), ScopeDecision::Unrelated);
    let tally = tally_scope(&roots, Some("p1"));
    assert_eq!(tally.direct_assignments, 2);
    assert_eq!(tally.workspace_fallbacks, 1);
    assert_eq!(tally.projectless_exclusions, 1);
    assert_eq!(tally.other_project_exclusions, 1);
    assert_eq!(tally.thread_ids, vec!["a".to_string(), "b".to_string(), "z".to_string()]);
}

#[test]
fn replacement_takes_matches_from_the_left() {
    assert_eq!(replace_text("aaa", "aa", "b"), "ba");
    assert_eq!(replace_text("ab", "", "X"), "XaXbX");
    assert_eq!(replace_text("none here", "zz", "y"), "none here");
}
