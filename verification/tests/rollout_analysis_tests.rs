use codex_cost_meter::analysis::Usage;
use codex_cost_meter::analyze::{RolloutStats, TurnIndex, UsageReader};
use codex_cost_meter::discovery::{Json, JsonNumber};
use serde_json::Value;

fn to_json(value: Value) -> Json {
    match value {
        Value::Null => Json::Null,
        Value::Bool(b) => Json::Bool(b),
        Value::Number(n) => match (n.as_u64(), n.as_i64()) {
            (Some(u), _) => Json::Number(JsonNumber::Unsigned(u)),
            (None, Some(i)) => Json::Number(JsonNumber::Negative(i)),
            _ => Json::Number(JsonNumber::Fractional),
        },
        Value::String(s) => Json::Text(s),
        Value::Array(items) => Json::List(items.into_iter().map(to_json).collect()),
        Value::Object(map) => Json::Object(map.into_iter().map(|(k, v)| (k, to_json(v))).collect()),
    }
}

fn analyze_lines(lines: &[&str]) -> RolloutStats {
    let items: Vec<Option<Json>> = lines
        .iter()
        .map(|line| serde_json::from_str::<Value>(line).ok().map(to_json))
        .collect();
    let mut index = TurnIndex::new();
    for item in &items {
        assert!(index.has_room());
        index.read_line(item.as_ref());
    }
    let mut reader = UsageReader::new(&index);
    for item in &items {
        assert!(reader.has_room());
        reader.read_line(&index, item.as_ref());
    }
    reader.finish(&index, 0)
}

fn usage_json(input: u64, cached: u64, output: u64, reasoning: u64) -> String {
    format!(
        "{{\"input_tokens\":{input},\"cached_input_tokens\":{cached},\"cache_write_input_tokens\":0,\"output_tokens\":{output},\"reasoning_output_tokens\":{reasoning},\"total_tokens\":{}}}",
        input + output
    )
}

fn token_event(last: (u64, u64, u64), total: (u64, u64, u64)) -> String {
    format!(
        "{{\"type\":\"event_msg\",\"timestamp\":\"2026-08-13T12:00:00Z\",\"payload\":{{\"type\":\"token_count\",\"info\":{{\"last_token_usage\":{},\"total_token_usage\":{}}}}}}}",
        usage_json(last.0, last.1, last.2, 0),
        usage_json(total.0, total.1, total.2, 0)
    )
}

fn metadata(timestamp: &str) -> String {
    format!("{{\"type\":\"session_meta\",\"timestamp\":\"{timestamp}\",\"payload\":{{\"id\":\"rollout\"}}}}")
}

fn context(turn_id: Option<&str>, model: &str, effort: &str) -> String {
    match turn_id {
        Some(t) => format!("{{\"type\":\"turn_context\",\"payload\":{{\"model\":\"{model}\",\"effort\":\"{effort}\",\"turn_id\":\"{t}\"}}}}"),
        None => format!("{{\"type\":\"turn_context\",\"payload\":{{\"model\":\"{model}\",\"effort\":\"{effort}\"}}}}"),
    }
}

fn lifecycle(name: &str, turn_id: &str, timestamp: &str) -> String {
    format!("{{\"type\":\"event_msg\",\"timestamp\":\"{timestamp}\",\"payload\":{{\"type\":\"{name}\",\"turn_id\":\"{turn_id}\"}}}}")
}

fn run(rows: &[String]) -> RolloutStats {
    let lines: Vec<&str> = rows.iter().map(String::as_str).collect();
    analyze_lines(&lines)
}

#[test]
fn cumulative_usage_becomes_deltas_and_resets_use_last_usage() {
    let stats = run(&[
        metadata("2026-08-13T10:00:00Z"),
        context(None, "gpt-5.6-terra", "high"),
        token_event((100, 20, 5), (100, 20, 5)),
        token_event((40, 10, 2), (140, 30, 7)),
        token_event((7, 1, 1), (7, 1, 1)),
    ]);
    assert_eq!(stats.totals.known_usage.input, 147);
    assert_eq!(stats.totals.known_usage.cached_input, 31);
    assert_eq!(stats.totals.known_usage.output, 8);
}

#[test]
fn attributes_modern_and_legacy_usage_but_marks_ambiguous_history_unattributed() {
    let cases = [
        (
            "modern root",
            vec![
                metadata("2026-08-13T10:00:00Z"),
                context(Some("turn-1"), "gpt-5.6-terra", "high"),
                lifecycle("task_started", "turn-1", "2026-08-13T10:00:01Z"),
                token_event((3, 1, 4), (3, 1, 4)),
                lifecycle("task_complete", "turn-1", "2026-08-13T10:00:03Z"),
            ],
            7,
            0,
            1,
            1,
        ),
        (
            "guardian child",
            vec![
                metadata("2026-08-13T10:00:00Z"),
                context(Some("turn-1"), "gpt-5.6-sol", "medium"),
                lifecycle("turn_started", "turn-1", "2026-08-13T10:00:01Z"),
                token_event((8, 2, 1), (8, 2, 1)),
                lifecycle("turn_aborted", "turn-1", "2026-08-13T10:00:02Z"),
            ],
            9,
            0,
            1,
            1,
        ),
        (
            "unambiguous legacy",
            vec![
                metadata("2026-08-13T10:00:00Z"),
                context(None, "gpt-5.6-terra", "low"),
                token_event((6, 2, 3), (6, 2, 3)),
            ],
            9,
            0,
            0,
            0,
        ),
        (
            "ambiguous embedded history",
            vec![
                metadata("2026-08-13T10:00:00Z"),
                metadata("2026-08-13T10:00:01Z"),
                context(None, "gpt-5.6-terra", "low"),
                token_event((6, 2, 3), (6, 2, 3)),
            ],
            0,
            9,
            0,
            0,
        ),
    ];
    for (name, rows, expected_tokens, expected_unattributed, expected_turns, expected_ended) in cases {
        let stats = run(&rows);
        assert_eq!(
            stats.totals.known_usage.input + stats.totals.known_usage.output,
            expected_tokens,
            "{name}"
        );
        assert_eq!(stats.totals.unattributed_tokens, expected_unattributed, "{name}");
        assert_eq!(stats.turns, expected_turns, "{name}");
        assert_eq!(stats.ended_turns, expected_ended, "{name}");
    }
}

#[test]
fn marks_unbound_usage_unattributed_when_embedded_history_also_has_valid_turns() {
    let stats = run(&[
        metadata("2026-08-13T10:00:00Z"),
        metadata("2026-08-13T10:00:01Z"),
        context(Some("turn-1"), "gpt-5.6-terra", "high"),
        token_event((6, 2, 3), (6, 2, 3)),
    ]);
    assert_eq!(stats.totals.known_usage, Usage { input: 0, cached_input: 0, cache_write_input: 0, output: 0 });
    assert_eq!(stats.totals.unattributed_tokens, 9);
    assert!(stats.totals.incomplete_usage);
}

#[test]
fn records_turn_durations_and_model_effort_contexts() {
    let stats = run(&[
        metadata("2026-08-13T10:00:00Z"),
        context(Some("a"), "gpt-5.6-terra", "high"),
        context(Some("b"), "gpt-5.6-sol", "low"),
        lifecycle("turn_started", "a", "2026-08-13T10:00:01Z"),
        lifecycle("turn_complete", "a", "2026-08-13T10:00:04Z"),
        lifecycle("task_started", "b", "2026-08-13T10:00:05Z"),
        lifecycle("task_aborted", "b", "2026-08-13T10:00:07Z"),
    ]);
    assert_eq!(stats.turns, 2);
    assert_eq!(stats.ended_turns, 2);
    assert_eq!(stats.duration / 1_000_000_000, 5);
    assert_eq!(stats.turn_models.len(), 2);
    assert!(stats
        .turn_models
        .iter()
        .any(|((model, effort), count)| model == "gpt-5.6-sol" && effort == "low" && *count == 1));
    assert_eq!(stats.turn_durations.len(), 2);
}

#[test]
fn falls_back_to_session_timestamp_and_keeps_reasoning_inside_output_usage() {
    let stats = run(&[
        metadata("2026-08-13T10:00:00Z"),
        context(None, "gpt-5.6-terra", "high"),
        "{\"type\":\"event_msg\",\"timestamp\":\"not-a-timestamp\",\"payload\":{\"type\":\"token_count\",\"info\":{\"last_token_usage\":{\"input_tokens\":1,\"output_tokens\":9,\"reasoning_output_tokens\":4,\"total_tokens\":10}}}}".to_string(),
    ]);
    assert_eq!(stats.totals.known_usage.output, 9);
    assert_eq!(stats.totals.reasoning_output, 4);
    assert_eq!(stats.events[0].at, Some(1_786_615_200_000_000_000));
    assert!(stats.totals.incomplete_usage);
}

#[test]
fn absent_event_timestamps_still_fall_back_without_making_usage_incomplete() {
    let stats = run(&[
        metadata("2026-08-13T10:00:00Z"),
        context(None, "gpt-5.6-terra", "high"),
        "{\"type\":\"event_msg\",\"payload\":{\"type\":\"token_count\",\"info\":{\"last_token_usage\":{\"input_tokens\":1,\"total_tokens\":1}}}}".to_string(),
    ]);
    assert_eq!(stats.events[0].at, Some(1_786_615_200_000_000_000));
    assert!(!stats.totals.incomplete_usage);
}

#[test]
fn malformed_usage_and_json_lines_make_results_incomplete_without_panicking() {
    let stats = analyze_lines(&[
        "not json",
        &metadata("malformed"),
        &context(None, "gpt-5.6-terra", "high"),
        "{\"type\":\"event_msg\",\"payload\":{\"type\":\"token_count\",\"info\":{\"last_token_usage\":{\"input_tokens\":-1,\"output_tokens\":\"wrong\",\"total_tokens\":5}}}}",
    ]);
    assert_eq!(stats.totals.known_usage, Usage { input: 0, cached_input: 0, cache_write_input: 0, output: 0 });
    assert_eq!(stats.malformed_lines, 1);
    assert_eq!(stats.invalid_usage_records, 1);
    assert!(stats.totals.incomplete_usage);
}

#[test]
fn turn_models_count_each_started_turn() {
    let stats = run(&[
        metadata("2026-08-13T10:00:00Z"),
        context(Some("turn-1"), "gpt-5.6-terra", "medium"),
        lifecycle("task_started", "turn-1", "2026-08-13T10:00:01Z"),
    ]);
    assert_eq!(
        stats.turn_models,
        vec![(("gpt-5.6-terra".to_string(), "medium".to_string()), 1)]
    );
}

#[test]
fn skipped_long_lines_make_usage_incomplete() {
    let rows = [metadata("2026-08-13T10:00:00Z")];
    let items: Vec<Option<Json>> = rows
        .iter()
        .map(|line| serde_json::from_str::<Value>(line).ok().map(to_json))
        .collect();
    let mut index = TurnIndex::new();
    for item in &items {
        index.read_line(item.as_ref());
    }
    let reader = UsageReader::new(&index);
    let stats = reader.finish(&index, 2);
    assert_eq!(stats.oversized_lines, 2);
    assert!(stats.totals.incomplete_usage);
}
