use codex_cost_meter::output::{human_turns, report_heading};

fn heading(rollout_type: &str, id: &str, project: Option<&str>, name: Option<&str>, count: usize) -> String {
    report_heading(rollout_type, name, id, project, Some("gpt-5.6-terra"), Some("high"), count)
}

#[test]
fn human_cleans_task_identity_and_keeps_noncanonical_titles() {
    let id = "01a0b189-574f-7a21-8de4-546018584e81";
    let project = Some("/tmp/work/platform-operator-console");
    let rendered = heading("root", id, project, Some("Fix scrolling · $332.50 · ⇥361.2M · ↦783.6K"), 2);
    assert!(rendered.starts_with(
        "Fix scrolling · 01a0b189\nplatform-operator-console · 2 rollouts · Most root turns:"
    ));
    assert!(!rendered.contains("$332.50"));

    assert!(heading("root", id, project, Some("Keep this · $332.5"), 2).starts_with("Keep this · $332.5 · 01a0b189"));
    assert!(heading("root", id, project, None, 2).starts_with("Unnamed task · 01a0b189"));
}

#[test]
fn human_labels_direct_non_root_reports() {
    let rendered = heading("subagent", "short-id", Some("/tmp/project"), None, 1);
    assert!(rendered.starts_with("Subagent · short-id\nproject · 1 rollout · Most turns: gpt-5.6-terra/high"));
}

#[test]
fn human_sanitizes_untrusted_single_line_labels() {
    let forged = "\x1b[31m\nforged\r";
    let rendered = report_heading("root", Some(forged), forged, Some(forged), Some(forged), Some(forged), 2);
    assert!(!rendered.contains('\x1b'));
    assert!(!rendered.contains('\r'));
    assert!(!rendered.contains("\nforged"));
}

#[test]
fn human_turns_only_calls_out_incomplete_work() {
    assert_eq!(human_turns(3, 1), "3 (1 incomplete)");
    assert_eq!(human_turns(3, 0), "3");
}

#[test]
fn headings_name_the_whole_first_lines() {
    assert_eq!(
        report_heading("root", Some("Rollout stats"), "root", Some("/tmp/project"), None, None, 1234),
        "Rollout stats · root\nproject · 1,234 rollouts · Most root turns: unknown/unknown\n\n"
    );
    assert_eq!(
        report_heading("code_review", Some("  "), "abc", None, Some("m"), Some("low"), 1),
        "Code review · abc\nunknown project · 1 rollout · Most turns: m/low\n\n"
    );
}
