use codex_cost_meter::platform::{
    extract_sid, job_target, quote_argument, runtime_argument, systemd_quote, timer_unit,
    xml_text,
};

#[test]
fn quote_argument_follows_the_windows_c_runtime_rules() {
    for (argument, expected) in [
        ("", "\"\""),
        ("two words", "\"two words\""),
        ("a\"b", "\"a\\\"b\""),
        ("trailing\\", "\"trailing\\\\\""),
    ] {
        assert_eq!(quote_argument(argument), expected);
    }
}

#[test]
fn extracts_only_a_bounded_ascii_sid_csv_field() {
    assert_eq!(
        extract_sid(b"\"\x81\x82\x83\",\"S-1-5-21-123-456-789-1001\"\r\n"),
        Some("S-1-5-21-123-456-789-1001".into())
    );
    assert_eq!(extract_sid(b"\"user\",\"S-1-5-x\"\r\n"), None);
    assert_eq!(extract_sid(b"\"user\",\"S-1-5-21-1\" extra"), None);
    assert_eq!(extract_sid(&[b'x'; 512]), None);
}

#[test]
fn quoting_escapes_backslashes_before_quotes_only() {
    assert_eq!(quote_argument(r"C:\a b\"), "\"C:\\a b\\\\\"");
    assert_eq!(quote_argument("a\\\\\"b"), "\"a\\\\\\\\\\\"b\"");
}

#[test]
fn systemd_words_escape_specials_and_controls() {
    assert_eq!(systemd_quote("a b"), "\"a b\"");
    assert_eq!(systemd_quote("$x\\\"\n\t\r"), "\"$$x\\\\\\\"\\n\\t\\r\"");
    assert_eq!(systemd_quote("\u{1b}\u{85}"), "\"\\x1b\\xc2\\x85\"");
}

#[test]
fn xml_and_runtime_texts() {
    assert_eq!(xml_text("/tmp/codex&<meter>"), "/tmp/codex&amp;&lt;meter&gt;");
    assert_eq!(runtime_argument(240), "4m");
    assert_eq!(runtime_argument(90), "90");
    assert_eq!(job_target("501"), "gui/501/io.github.deinspanjer.codex-cost-meter");
    assert!(timer_unit().contains("OnUnitActiveSec=5min\nUnit=io.github.deinspanjer.codex-cost-meter.service\n"));
}

#[test]
fn paths_fall_back_to_home_or_use_xdg_roots() {
    let home = "/tmp/home";
    let fallback = codex_cost_meter::linux::Paths::from_homes(home, None, None);
    let configured = codex_cost_meter::linux::Paths::from_homes(home, Some("/tmp/home/config".into()), Some("/tmp/home/state".into()));
    assert_eq!(fallback.service(), "/tmp/home/.config/systemd/user/io.github.deinspanjer.codex-cost-meter.service");
    assert_eq!(fallback.status(), "/tmp/home/.local/state/codex-cost-meter/status.json");
    assert_eq!(configured.timer(), "/tmp/home/config/systemd/user/io.github.deinspanjer.codex-cost-meter.timer");
    assert_eq!(configured.status(), "/tmp/home/state/codex-cost-meter/status.json");
}

#[test]
fn failed_registration_reports_a_bounded_redacted_diagnostic_after_cleanup() {
    let paths = codex_cost_meter::windows::Paths::new("C:\\Users\\u\\AppData\\Local");
    let sid = "S-1-5-21-123-456-789-1001";
    let stderr = format!("Task definition {} for {sid} failed\u{1b}[31m\n{}", paths.definition(), "x".repeat(300));
    let error = codex_cost_meter::windows::create_task_error(stderr.as_bytes(), Some(42), &paths, sid);
    assert_eq!(error.exit_code, Some(42));
    assert!(error.diagnostic.contains("Task definition <temporary-definition> for <current-user> failed [31m"));
    assert!(!error.diagnostic.contains(paths.definition()));
    assert!(!error.diagnostic.contains(sid));
    assert!(!error.diagnostic.chars().any(char::is_control));
    assert!(error.diagnostic.chars().count() <= 256);
}
