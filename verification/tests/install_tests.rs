use codex_cost_meter::install::{property_list, scheduled_arguments, service_unit, task_xml, InstallOptions};
use codex_cost_meter::linux;
use codex_cost_meter::macos;
use codex_cost_meter::windows;

fn options() -> InstallOptions {
    InstallOptions {
        codex_home: "/home/me/.codex".into(),
        idle_minutes: 30,
        limit: 20,
        max_runtime_seconds: 240,
        max_width: 65,
        title_metrics: "cost,total-tokens".into(),
        reprice_before: None,
    }
}

#[test]
fn scheduled_arguments_follow_the_fixed_order() {
    let mut o = options();
    o.reprice_before = Some("2026-08-13T12:00:00Z".into());
    assert_eq!(
        scheduled_arguments(&o),
        vec![
            "schedule", "run", "--codex-home", "/home/me/.codex", "--idle-minutes", "30", "--limit",
            "20", "--max-runtime", "4m", "--max-width", "65", "--title-metrics", "cost,total-tokens",
            "--reprice-before", "2026-08-13T12:00:00Z", "--apply",
        ]
    );
}

#[test]
fn service_unit_quotes_paths_and_metrics() {
    let unit = service_unit(&options(), "/usr/local/bin/codex cost");
    assert_eq!(
        unit,
        "[Unit]\nDescription=Codex Cost Meter scheduled update\n\n[Service]\nType=oneshot\nExecStart=\"/usr/local/bin/codex cost\" schedule run --codex-home \"/home/me/.codex\" --idle-minutes 30 --limit 20 --max-runtime 4m --max-width 65 --title-metrics \"cost,total-tokens\" --apply\nStandardOutput=null\nStandardError=null\n"
    );
}

#[test]
fn plist_escapes_text_and_preserves_scheduled_argument_order() {
    let mut o = options();
    o.codex_home = "/Users/a&b/<codex>".into();
    let plist = property_list(&o, "/bin/meter");
    assert!(plist.contains("    <string>/bin/meter</string>\n    <string>schedule</string>\n    <string>run</string>\n    <string>--codex-home</string>\n    <string>/Users/a&amp;b/&lt;codex&gt;</string>\n"));
    assert!(plist.ends_with("    <string>--apply</string>\n  </array>\n  <key>RunAtLoad</key>\n  <true/>\n  <key>StartInterval</key>\n  <integer>300</integer>\n  <key>ProcessType</key>\n  <string>Background</string>\n</dict>\n</plist>\n"));
}

#[test]
fn task_xml_quotes_arguments_then_escapes_them() {
    let mut o = options();
    o.codex_home = "C:\\Users\\me\\.codex".into();
    let xml = task_xml(&o, "C:\\bin\\meter.exe", "S-1-5-21-1");
    assert!(xml.contains("<UserId>S-1-5-21-1</UserId>"));
    assert!(xml.contains("<Command>C:\\bin\\meter.exe</Command>"));
    assert!(xml.contains("<Arguments>\"schedule\" \"run\" \"--codex-home\" \"C:\\Users\\me\\.codex\" \"--idle-minutes\" \"30\""));
}

#[test]
fn linux_paths_follow_xdg_directories() {
    let p = linux::Paths::new("/home/me", None, Some(String::new()));
    assert_eq!(p.service(), "/home/me/.config/systemd/user/io.github.deinspanjer.codex-cost-meter.service");
    assert_eq!(p.timer(), "/home/me/.config/systemd/user/io.github.deinspanjer.codex-cost-meter.timer");
    assert_eq!(p.status(), "/home/me/.local/state/codex-cost-meter/status.json");
    let p = linux::Paths::from_homes("/home/me", Some("/cfg/".into()), Some("/state".into()));
    assert_eq!(p.service(), "/cfg/systemd/user/io.github.deinspanjer.codex-cost-meter.service");
    assert_eq!(p.status(), "/state/codex-cost-meter/status.json");
    assert_eq!(
        linux::schedule_install_output(&p),
        "schedule installed: /cfg/systemd/user/io.github.deinspanjer.codex-cost-meter.timer\n"
    );
}

#[test]
fn macos_and_windows_paths() {
    let p = macos::Paths::new("/Users/me");
    assert_eq!(p.plist(), "/Users/me/Library/LaunchAgents/io.github.deinspanjer.codex-cost-meter.plist");
    assert_eq!(p.status(), "/Users/me/Library/Application Support/codex-cost-meter/status.json");
    let w = windows::Paths::new("C:\\Users\\me\\AppData\\Local");
    assert_eq!(w.status(), "C:\\Users\\me\\AppData\\Local\\codex-cost-meter\\status.json");
    assert_eq!(w.definition(), "C:\\Users\\me\\AppData\\Local\\codex-cost-meter\\schedule-definition.xml");
    assert_eq!(w.cleanup(), "C:\\Users\\me\\AppData\\Local\\codex-cost-meter\\schedule-cleanup.ps1");
    assert_eq!(windows::schedule_install_output(&w), "schedule registered\n");
}

#[test]
fn windows_tools_live_in_the_system_directory() {
    assert!(windows::SystemRunner::new(None).is_none());
    assert!(windows::SystemRunner::new(Some(String::new())).is_none());
    let runner = windows::SystemRunner::new(Some("C:\\Windows".into())).unwrap();
    assert_eq!(runner.program("schtasks.exe"), "C:\\Windows\\System32\\schtasks.exe");
    assert_eq!(
        runner.program("powershell.exe"),
        "C:\\Windows\\System32\\WindowsPowerShell\\v1.0\\powershell.exe"
    );
}

#[test]
fn registration_failures_mask_paths_and_the_user() {
    let w = windows::Paths::new("C:\\Local");
    let stderr = b"ERROR:  cannot read C:\\Local\\codex-cost-meter\\schedule-definition.xml\r\n for S-1-5-21-9";
    let error = windows::create_task_error(stderr, Some(1), &w, "S-1-5-21-9");
    assert_eq!(error.exit_code, Some(1));
    assert_eq!(error.diagnostic, "ERROR: cannot read <temporary-definition> for <current-user>");
    let long = vec![b'x'; 300];
    assert_eq!(windows::create_task_error(&long, None, &w, "sid").diagnostic.chars().count(), 256);
}
