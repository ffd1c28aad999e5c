use codex_cost_meter::related::{related_entries, related_paths, CachedEntry};

fn entry(path: &str, id: &str, parent: Option<&str>, root: bool) -> CachedEntry {
    CachedEntry { path: path.into(), id: id.into(), parent_id: parent.map(String::from), root }
}

#[test]
fn descendants_of_chosen_tasks_are_found_through_any_depth() {
    let cached = [
        entry("/s/grandchild", "g", Some("c"), false),
        entry("/s/child", "c", Some("r"), false),
        entry("/s/root", "r", None, true),
        entry("/s/other-root", "o", None, true),
        entry("/s/other-child", "oc", Some("o"), false),
        entry("/s/orphan", "x", None, false),
    ];
    let chosen = ["r".to_string()];
    let mut found = related_entries(&cached, &chosen);
    found.sort();
    assert_eq!(found, vec![0, 1, 2, 5]);
}

#[test]
fn related_paths_keep_uncached_files_first() {
    let cached = [entry("/s/child", "c", Some("r"), false), entry("/s/unrelated", "u", Some("z"), false)];
    let paths = ["/s/new".to_string(), "/s/child".to_string(), "/s/unrelated".to_string()];
    let related = related_paths(&paths, &cached, &["r".to_string()]);
    assert_eq!(related, vec!["/s/new".to_string(), "/s/child".to_string()]);
    assert!(related_paths(&[], &[], &[]).is_empty());
}
