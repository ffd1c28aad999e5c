use codex_cost_meter::schedule::{
    after_failure, after_success, remediation, result_code, resume_status, validate, FailureClass,
    ResultCode, Status, StatusError,
};
use time::{Duration, OffsetDateTime};

#[test]
fn failure_transitions_pause_after_three_ordinary_failures_or_one_severe_failure() {
    let now = OffsetDateTime::UNIX_EPOCH;
    let two_failures = || Status {
        last_run_at: Some(now - Duration::minutes(1)),
        result: ResultCode::OrdinaryFailure,
        consecutive_failures: 2,
        paused: false,
        remediation: String::new(),
    };

    for (previous, class, result, consecutive_failures, paused) in [
        (None, FailureClass::Ordinary, ResultCode::OrdinaryFailure, 1, false),
        (Some(two_failures()), FailureClass::Ordinary, ResultCode::OrdinaryFailure, 3, true),
        (None, FailureClass::DiskFull, ResultCode::DiskFull, 1, true),
        (None, FailureClass::IncompatibleSchema, ResultCode::IncompatibleSchema, 1, true),
        (None, FailureClass::PermissionDenied, ResultCode::PermissionDenied, 1, true),
    ] {
        let status = after_failure(previous, class, now);
        assert_eq!(status.last_run_at, Some(now));
        assert_eq!(status.result, result);
        assert_eq!(status.consecutive_failures, consecutive_failures);
        assert_eq!(status.paused, paused);
    }
}

#[test]
fn ordinary_failures_saturate_at_three() {
    let now = OffsetDateTime::UNIX_EPOCH;
    let previous = Status {
        last_run_at: None,
        result: ResultCode::OrdinaryFailure,
        consecutive_failures: 3,
        paused: true,
        remediation: String::new(),
    };

    assert_eq!(
        after_failure(Some(previous), FailureClass::Ordinary, now).consecutive_failures,
        3
    );
}

#[test]
fn success_and_resume_clear_the_circuit_breaker_without_changing_resume_time() {
    let now = OffsetDateTime::UNIX_EPOCH;
    let paused = || Status {
        last_run_at: Some(now - Duration::minutes(1)),
        result: ResultCode::PermissionDenied,
        consecutive_failures: 1,
        paused: true,
        remediation: String::new(),
    };

    let success = after_success(Some(paused()), now);
    assert_eq!(success.last_run_at, Some(now));
    assert_eq!(success.result, ResultCode::Success);
    assert_eq!(success.consecutive_failures, 0);
    assert!(!success.paused);

    let resumed = resume_status(Some(paused()));
    assert_eq!(resumed.last_run_at, Some(now - Duration::minutes(1)));
    assert_eq!(resumed.result, ResultCode::Success);
    assert_eq!(resumed.consecutive_failures, 0);
    assert!(!resumed.paused);
}

#[test]
fn malformed_or_unallowlisted_status_is_rejected() {
    let status = Status {
        last_run_at: None,
        result: ResultCode::Success,
        consecutive_failures: 0,
        paused: false,
        remediation: "sensitive updater detail".into(),
    };
    assert_eq!(validate(&status), Err(StatusError::InvalidRemediation));
    let over = Status {
        last_run_at: None,
        result: ResultCode::OrdinaryFailure,
        consecutive_failures: 4,
        paused: true,
        remediation: "Retry the scheduled update.".into(),
    };
    assert_eq!(validate(&over), Err(StatusError::TooManyFailures));
    let fresh = after_failure(None, FailureClass::Ordinary, OffsetDateTime::UNIX_EPOCH);
    assert_eq!(validate(&fresh), Ok(()));
    assert_eq!(fresh.remediation, remediation(ResultCode::OrdinaryFailure));
    assert_eq!(result_code(ResultCode::DiskFull), "disk_full");
}

use codex_cost_meter::schedule::status_report;

#[test]
fn status_reports_read_like_the_status_file() {
    assert_eq!(status_report(None, None), "last run: never\n");
    let status = Status {
        last_run_at: None,
        result: ResultCode::DiskFull,
        consecutive_failures: 1,
        paused: true,
        remediation: remediation(ResultCode::DiskFull).to_string(),
    };
    assert_eq!(
        status_report(Some(&status), Some("2026-01-02T03:04:05Z")),
        "last run: 2026-01-02T03:04:05Z\nresult: disk_full\nconsecutive failures: 1\npaused: yes\nremediation: Free disk space, then resume the schedule.\n"
    );
}

#[test]
fn scheduler_inspection_lines() {
    assert_eq!(codex_cost_meter::linux::inspection_text(true, false), "installed: yes\nactive: no\n");
    assert_eq!(codex_cost_meter::macos::inspection_text(false, false), "installed: no\nloaded: no\n");
    assert_eq!(codex_cost_meter::windows::inspection_text(true), "registered: yes\n");
}
