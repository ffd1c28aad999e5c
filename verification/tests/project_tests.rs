use codex_cost_meter::project::{
    high_confidence_match, levenshtein, normalized, project_names, short_list, DesktopProject,
};

#[test]
fn normalizes_to_lowercase_alphanumerics() {
    assert_eq!(normalized("Codex Cost-Meter 2"), "codexcostmeter2");
    assert_eq!(normalized("  --  "), "");
    assert_eq!(normalized("Ärger"), "ärger");
}

#[test]
fn edit_distances() {
    assert_eq!(levenshtein("kitten", "sitting"), 3);
    assert_eq!(levenshtein("", "abc"), 3);
    assert_eq!(levenshtein("abc", ""), 3);
    assert_eq!(levenshtein("flaw", "lawn"), 2);
    assert_eq!(levenshtein("same", "same"), 0);
    // The table is as long as the right side has bytes.
    assert_eq!(levenshtein("abc", "é"), 2);
    assert_eq!(levenshtein("a", "é"), 2);
    assert_eq!(levenshtein("café", "cafe"), 1);
}

#[test]
fn matches_project_references_with_high_confidence() {
    assert!(high_confidence_match("cost meter", "Codex Cost Meter"));
    assert!(high_confidence_match("codex-cost-metre", "codex cost meter"));
    assert!(!high_confidence_match("billing", "codex cost meter"));
    assert!(!high_confidence_match("", "anything"));
    assert!(!high_confidence_match("!!", "anything"));
    assert!(high_confidence_match("ab", "ac"));
}

#[test]
fn short_lists_stop_after_five() {
    let values: Vec<String> = ["a", "b", "c", "d", "e", "f"].iter().map(|s| s.to_string()).collect();
    assert_eq!(short_list(&values), "a, b, c, d, e, ...");
    assert_eq!(short_list(&values[..2]), "a, b");
    assert_eq!(short_list(&[]), "");
}

#[test]
fn project_names_are_sorted() {
    let project = |name: &str| DesktopProject { id: name.to_lowercase(), name: name.into(), root_paths: vec![] };
    assert_eq!(project_names(&[project("Zeta"), project("Alpha"), project("Mid")]), "Alpha, Mid, Zeta");
}

use codex_cost_meter::project::{
    eq_ignore_ascii_case, fuzzy_target, historical_cwd_matches, named_projects, FuzzyTarget, ProjectError,
};

fn desktop(id: &str, name: &str) -> DesktopProject {
    DesktopProject { id: id.into(), name: name.into(), root_paths: vec![] }
}

#[test]
fn compares_names_ignoring_ascii_case() {
    assert!(eq_ignore_ascii_case("Codex Meter", "cODEX mETER"));
    assert!(!eq_ignore_ascii_case("Ärger", "ärger"));
    assert!(!eq_ignore_ascii_case("abc", "abcd"));
    let projects = [desktop("1", "Alpha"), desktop("2", "beta"), desktop("3", "ALPHA")];
    assert_eq!(named_projects(&projects, "alpha"), vec![0, 2]);
    assert_eq!(named_projects(&projects, "gamma"), Vec::<usize>::new());
}

#[test]
fn historical_directories_are_sorted_and_deduplicated() {
    let cwds = [
        Some("/work/cost-meter".to_string()),
        None,
        Some("/work/other".to_string()),
        Some("/work/cost-meter".to_string()),
        Some("/src/costmeter".to_string()),
    ];
    assert_eq!(
        historical_cwd_matches(&cwds, "cost meter"),
        vec!["/src/costmeter".to_string(), "/work/cost-meter".to_string()]
    );
}

#[test]
fn fuzzy_references_resolve_to_one_project_or_directory() {
    let projects = [desktop("p1", "Codex Cost Meter"), desktop("p2", "Billing")];
    let cwds = [Some("/work/notes".to_string())];
    assert!(matches!(fuzzy_target(&projects, &cwds, "cost meter", true), Ok(FuzzyTarget::Project(0))));
    assert!(matches!(
        fuzzy_target(&projects, &cwds, "notes", true),
        Ok(FuzzyTarget::Cwd(ref cwd)) if cwd == "/work/notes"
    ));
    assert!(matches!(
        fuzzy_target(&projects, &cwds, "unrelated", true),
        Err(ProjectError::ProjectRefNotFound(ref reference)) if reference == "unrelated"
    ));
    assert!(matches!(
        fuzzy_target(&projects, &cwds, "cost meter", false),
        Err(ProjectError::MetadataUnavailable)
    ));
}

#[test]
fn ambiguous_fuzzy_references_list_their_matches() {
    let projects = [desktop("p1", "Meter Two"), desktop("p2", "Meter One")];
    match fuzzy_target(&projects, &[], "meter", true) {
        Err(ProjectError::AmbiguousProjectRef { reference, matches }) => {
            assert_eq!(reference, "meter");
            assert_eq!(matches, "Meter One, Meter Two");
        }
        _ => panic!("expected an ambiguous project reference"),
    }
    let cwds = [Some("/b/meter".to_string()), Some("/a/meter".to_string())];
    match fuzzy_target(&[], &cwds, "meter", false) {
        Err(ProjectError::AmbiguousHistoricalCwd { reference, matches }) => {
            assert_eq!(reference, "meter");
            assert_eq!(matches, "/a/meter, /b/meter");
        }
        _ => panic!("expected an ambiguous directory reference"),
    }
}
