//! The scheduled updater's status record and its circuit breaker.
use vstd::prelude::*;

use crate::text::{decimal, extend_str, push_decimal, string_of};

use time::OffsetDateTime;

verus! {

#[verifier::external_type_specification]
#[verifier::external_body]
pub struct ExOffsetDateTime(OffsetDateTime);

/// How a failed update is classified for circuit breaking.
#[derive(Clone, Copy, Debug, PartialEq, Eq, Structural)]
pub enum FailureClass {
    Ordinary,
    DiskFull,
    IncompatibleSchema,
    PermissionDenied,
}

/// The outcome recorded for the last scheduled run.
#[derive(Clone, Copy, Debug, PartialEq, Eq, Structural)]
pub enum ResultCode {
    Success,
    OrdinaryFailure,
    DiskFull,
    IncompatibleSchema,
    PermissionDenied,
}

/// The persisted state of the scheduled updater.
#[derive(Debug)]
pub struct Status {
    pub last_run_at: Option<OffsetDateTime>,
    pub result: ResultCode,
    pub consecutive_failures: u8,
    pub paused: bool,
    pub remediation: String,
}

/// Why a status record is refused.
#[derive(Debug, PartialEq, Eq, Structural)]
pub enum StatusError {
    InvalidRemediation,
    TooManyFailures,
}

/// The only remediation text allowed for each result.
pub open spec fn remediation_text(result: ResultCode) -> Seq<char> {
    match result {
        ResultCode::Success => "No action required."@,
        ResultCode::OrdinaryFailure => "Retry the scheduled update."@,
        ResultCode::DiskFull => "Free disk space, then resume the schedule."@,
        ResultCode::IncompatibleSchema => "Update Codex Cost Meter, then resume the schedule."@,
        ResultCode::PermissionDenied => "Restore access to Codex storage, then resume the schedule."@,
    }
}

/// The stable name of each result as stored and shown.
pub open spec fn result_name(result: ResultCode) -> Seq<char> {
    match result {
        ResultCode::Success => "success"@,
        ResultCode::OrdinaryFailure => "ordinary_failure"@,
        ResultCode::DiskFull => "disk_full"@,
        ResultCode::IncompatibleSchema => "incompatible_schema"@,
        ResultCode::PermissionDenied => "permission_denied"@,
    }
}

/// Whether a status may be stored: at most three failures and the allowlisted remediation.
pub open spec fn valid_status(status: &Status) -> bool {
    status.consecutive_failures <= 3 && status.remediation@ == remediation_text(status.result)
}

/// The remediation text for a result.
pub fn remediation(result: ResultCode) -> (r: &'static str)
    ensures
        r@ == remediation_text(result),
{
    match result {
        ResultCode::Success => "No action required.",
        ResultCode::OrdinaryFailure => "Retry the scheduled update.",
        ResultCode::DiskFull => "Free disk space, then resume the schedule.",
        ResultCode::IncompatibleSchema => "Update Codex Cost Meter, then resume the schedule.",
        ResultCode::PermissionDenied => "Restore access to Codex storage, then resume the schedule.",
    }
}

/// The stored name of a result, such as `ordinary_failure`.
pub fn result_code(result: ResultCode) -> (r: &'static str)
    ensures
        r@ == result_name(result),
{
    match result {
        ResultCode::Success => "success",
        ResultCode::OrdinaryFailure => "ordinary_failure",
        ResultCode::DiskFull => "disk_full",
        ResultCode::IncompatibleSchema => "incompatible_schema",
        ResultCode::PermissionDenied => "permission_denied",
    }
}

/// A status with the remediation that belongs to its result.
pub fn status(
    last_run_at: Option<OffsetDateTime>,
    result: ResultCode,
    consecutive_failures: u8,
    paused: bool,
) -> (s: Status)
    ensures
        s.last_run_at == last_run_at,
        s.result == result,
        s.consecutive_failures == consecutive_failures,
        s.paused == paused,
        s.remediation@ == remediation_text(result),
{
    Status {
        last_run_at,
        result,
        consecutive_failures,
        paused,
        remediation: String::from_str(remediation(result)),
    }
}

/// The failure count after one more ordinary failure, capped at three.
pub open spec fn ordinary_count(previous: Option<u8>) -> u8 {
    match previous {
        Some(c) => if c >= 2 {
            3
        } else {
            (c + 1) as u8
        },
        None => 1,
    }
}

/// The failure count a previous status carried, if there was one.
pub open spec fn prior_failures(previous: Option<Status>) -> Option<u8> {
    match previous {
        Some(p) => Some(p.consecutive_failures),
        None => None,
    }
}

/// The status after a failed run at `now`: ordinary failures count up to three
/// and pause the schedule at three; any other failure pauses it at once.
pub fn after_failure(previous: Option<Status>, failure: FailureClass, now: OffsetDateTime) -> (s:
    Status)
    ensures
        s.last_run_at == Some(now),
        valid_status(&s),
        match failure {
            FailureClass::Ordinary => {
                let count = ordinary_count(prior_failures(previous));
                let before: int = match previous {
                    Some(p) => p.consecutive_failures as int,
                    None => 0,
                };
                &&& s.result == ResultCode::OrdinaryFailure
                &&& s.consecutive_failures == count
                &&& s.consecutive_failures == (if before + 1 < 3 { before + 1 } else { 3 })
                &&& s.paused == (count == 3)
                &&& s.paused == (before + 1 >= 3)
            },
            FailureClass::DiskFull => s.result == ResultCode::DiskFull
                && s.consecutive_failures == 1 && s.paused,
            FailureClass::IncompatibleSchema => s.result == ResultCode::IncompatibleSchema
                && s.consecutive_failures == 1 && s.paused,
            FailureClass::PermissionDenied => s.result == ResultCode::PermissionDenied
                && s.consecutive_failures == 1 && s.paused,
        },
{
    match failure {
        FailureClass::Ordinary => {
            let before: u8 = match previous {
                Some(p) => p.consecutive_failures,
                None => 0,
            };
            let counted = before.saturating_add(1);
            let consecutive_failures = if counted < 3 {
                counted
            } else {
                3
            };
            status(
                Some(now),
                ResultCode::OrdinaryFailure,
                consecutive_failures,
                consecutive_failures == 3,
            )
        },
        FailureClass::DiskFull => status(Some(now), ResultCode::DiskFull, 1, true),
        FailureClass::IncompatibleSchema => status(
            Some(now),
            ResultCode::IncompatibleSchema,
            1,
            true,
        ),
        FailureClass::PermissionDenied => status(Some(now), ResultCode::PermissionDenied, 1, true),
    }
}

/// The status after a successful run at `now`: the circuit breaker is cleared.
pub fn after_success(previous: Option<Status>, now: OffsetDateTime) -> (s: Status)
    ensures
        s.last_run_at == Some(now),
        s.result == ResultCode::Success,
        s.consecutive_failures == 0,
        !s.paused,
        valid_status(&s),
{
    status(Some(now), ResultCode::Success, 0, false)
}

/// The status after the user resumes the schedule: cleared, keeping the last run time.
pub fn resume_status(previous: Option<Status>) -> (s: Status)
    ensures
        s.last_run_at == (match previous {
            Some(p) => p.last_run_at,
            None => None,
        }),
        s.result == ResultCode::Success,
        s.consecutive_failures == 0,
        !s.paused,
        valid_status(&s),
{
    let last_run_at = match previous {
        Some(p) => p.last_run_at,
        None => None,
    };
    status(last_run_at, ResultCode::Success, 0, false)
}

/// Checks that a status may be stored or trusted.
pub fn validate(status: &Status) -> (r: Result<(), StatusError>)
    ensures
        r is Ok <==> valid_status(status),
        status.consecutive_failures > 3 ==> r == Err::<(), StatusError>(StatusError::TooManyFailures),
        status.consecutive_failures <= 3 && !valid_status(status) ==> r == Err::<(), StatusError>(
            StatusError::InvalidRemediation,
        ),
{
    if status.consecutive_failures > 3 {
        return Err(StatusError::TooManyFailures);
    }
    let expected = String::from_str(remediation(status.result));
    if status.remediation != expected {
        return Err(StatusError::InvalidRemediation);
    }
    Ok(())
}

/// Three ordinary failures in a row pause the schedule, whatever the count
/// before them, and further ordinary failures keep the count at three.
pub proof fn lemma_circuit_breaker(previous: Option<u8>)
    ensures
        ordinary_count(Some(ordinary_count(Some(ordinary_count(previous))))) == 3,
        ordinary_count(Some(3)) == 3,
        1 <= ordinary_count(previous) <= 3,
{
}


/// `yes` or `no`.
pub open spec fn yes_no_text(value: bool) -> Seq<char> {
    if value {
        "yes"@
    } else {
        "no"@
    }
}

/// The status part of `schedule status`: when there is a status, the last run
/// (`last_run`, the formatted time, or `never`), the result, the failure
/// count, whether the schedule is paused and the remediation; otherwise that
/// it never ran.
pub open spec fn status_report_text(status: Option<&Status>, last_run: Option<Seq<char>>) -> Seq<char> {
    match status {
        None => "last run: never\n"@,
        Some(s) => "last run: "@ + match last_run {
            Some(t) => t,
            None => "never"@,
        } + "\nresult: "@ + result_name(s.result) + "\nconsecutive failures: "@ + decimal(
            s.consecutive_failures as nat,
        ) + "\npaused: "@ + yes_no_text(s.paused) + "\nremediation: "@ + s.remediation@ + seq!['\n'],
    }
}

/// The status part of `schedule status` (see `status_report_text`).
pub fn status_report(status: Option<&Status>, last_run: Option<&str>) -> (r: String)
    ensures
        r@ == status_report_text(
            status,
            match last_run {
                Some(t) => Some(t@),
                None => None,
            },
        ),
{
    match status {
        None => String::from_str("last run: never\n"),
        Some(s) => {
            let mut out: Vec<char> = Vec::new();
            extend_str(&mut out, "last run: ");
            match last_run {
                Some(t) => extend_str(&mut out, t),
                None => extend_str(&mut out, "never"),
            }
            extend_str(&mut out, "\nresult: ");
            extend_str(&mut out, result_code(s.result));
            extend_str(&mut out, "\nconsecutive failures: ");
            push_decimal(&mut out, s.consecutive_failures as u64);
            extend_str(&mut out, "\npaused: ");
            extend_str(&mut out, crate::output::yes_no(s.paused));
            extend_str(&mut out, "\nremediation: ");
            extend_str(&mut out, s.remediation.as_str());
            out.push('\n');
            string_of(&out)
        },
    }
}

/// Ordinary failures are counted one by one up to three: after `c` earlier
/// failures (none when there was no status) the count is `c + 1`, or three
/// when that would pass three; so after a success (count zero) one ordinary
/// failure makes the count one, and only the third in a row reaches three.
pub proof fn lemma_ordinary_counts_up(previous: Option<u8>)
    ensures
        ordinary_count(previous) as int == ({
            let before: int = match previous {
                Some(c) => c as int,
                None => 0,
            };
            if before + 1 < 3 { before + 1 } else { 3 }
        }),
        ordinary_count(Some(0)) == 1,
        ordinary_count(Some(1)) == 2,
        ordinary_count(None) == 1,
{
}

} // verus!
