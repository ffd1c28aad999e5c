use codex_cost_meter::cli::{
    has_control_byte, parse_metric_text, parse_positive_u64, parse_positive_usize, parse_reprice_before, parse_runtime,
    parse_u64, reprice_before_at,
};

#[test]
fn positive_integers_are_read_as_str_parse_reads_them() {
    assert_eq!(parse_u64("+42"), Some(42));
    assert_eq!(parse_u64("18446744073709551615"), Some(u64::MAX));
    assert_eq!(parse_u64("18446744073709551616"), None);
    assert_eq!(parse_u64(""), None);
    assert_eq!(parse_u64("-1"), None);
    assert_eq!(parse_positive_u64("15"), Ok(15));
    assert_eq!(parse_positive_u64("0"), Err("must be a positive integer".to_string()));
    assert_eq!(parse_positive_usize("500"), Ok(500));
    assert_eq!(parse_positive_usize("x"), Err("must be a positive integer".to_string()));
}

#[test]
fn runtimes_are_seconds_or_minutes() {
    assert_eq!(parse_runtime("90"), Ok(90));
    assert_eq!(parse_runtime("240m"), Ok(14_400));
    assert_eq!(parse_runtime("0m"), Err("must be a positive integer".to_string()));
    assert_eq!(parse_runtime("307445734561825861m"), Err("runtime is too large".to_string()));
}

#[test]
fn metric_lists_are_checked_and_kept_as_given() {
    assert_eq!(parse_metric_text("output-tokens,cost"), Ok("output-tokens,cost".to_string()));
    assert!(parse_metric_text("cost,cost").is_err());
}

#[test]
fn control_bytes_anywhere_refuse_the_command_line() {
    assert!(!has_control_byte(&[b"codex-cost-meter".to_vec(), b"update".to_vec()]));
    assert!(has_control_byte(&[b"codex-cost-meter".to_vec(), b"a\x1bb".to_vec()]));
    assert!(has_control_byte(&[b"\x7f".to_vec()]));
    assert!(!has_control_byte(&[]));
}

#[test]
fn reprice_cutoffs_name_past_instants() {
    let now: i128 = 1_786_000_000_000_000_000;
    assert_eq!(reprice_before_at("2026-08-13", now), Err("cannot be in the future".to_string()));
    assert_eq!(reprice_before_at("2026-08-13", 1_786_579_200_000_000_000), Ok(1_786_579_200_000_000_000));
    assert_eq!(reprice_before_at("2026-01-01", now), Ok(1_767_225_600_000_000_000));
    assert_eq!(reprice_before_at("2026-01-01T01:00:00+01:00", now), Ok(1_767_225_600_000_000_000));
    assert_eq!(
        reprice_before_at("2030-01-01", now),
        Err("cannot be in the future".to_string())
    );
    assert_eq!(
        reprice_before_at("2026-08-13T12:00:00", now),
        Err("must be an ISO date or RFC 3339 timestamp with a timezone".to_string())
    );
    assert_eq!(parse_reprice_before("1970-01-02"), Ok(86_400_000_000_000));
}
