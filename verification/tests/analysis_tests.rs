use codex_cost_meter::analysis::{
    add_known_usage, add_unattributed, event_turn_id, model_context, normalize_usage,
    service_tier_key, ServiceTier, TokenUsage, Usage, UsageTotals,
};
use codex_cost_meter::discovery::{Json, JsonNumber};

fn usage(input: u64, cached: u64, write: u64, output: u64, reasoning: u64, total: u64) -> TokenUsage {
    TokenUsage {
        usage: Usage { input, cached_input: cached, cache_write_input: write, output },
        reasoning_output: reasoning,
        total_tokens: total,
    }
}

fn number(n: u64) -> Json {
    Json::Number(JsonNumber::Unsigned(n))
}

#[test]
fn reads_token_usage_objects() {
    let value = Json::Object(vec![
        ("input_tokens".into(), number(10)),
        ("output_tokens".into(), number(5)),
        ("total_tokens".into(), number(15)),
    ]);
    assert_eq!(TokenUsage::from_json(&value), Some(usage(10, 0, 0, 5, 0, 15)));
    let bad = Json::Object(vec![("input_tokens".into(), Json::Number(JsonNumber::Negative(-1)))]);
    assert_eq!(TokenUsage::from_json(&bad), None);
    assert_eq!(TokenUsage::from_json(&Json::Null), None);
}

#[test]
fn cumulative_totals_become_deltas_unless_reset() {
    let previous = usage(10, 2, 0, 5, 1, 18);
    let current = usage(15, 2, 0, 9, 1, 27);
    assert_eq!(current.delta(previous), usage(5, 0, 0, 4, 0, 9));
    assert!(!current.reset_from(previous));
    assert!(previous.reset_from(current));
    assert_eq!(previous.delta(current), usage(0, 0, 0, 0, 0, 0));
    let last = usage(1, 0, 0, 1, 0, 2);
    assert_eq!(normalize_usage(last, Some(current), Some(previous)), usage(5, 0, 0, 4, 0, 9));
    assert_eq!(normalize_usage(last, Some(previous), Some(current)), last);
    assert_eq!(normalize_usage(last, None, Some(previous)), last);
    assert!(last.has_tokens());
    assert!(!usage(0, 0, 0, 0, 0, 7).has_tokens());
}

#[test]
fn totals_overflow_is_reported() {
    let mut totals = UsageTotals {
        known_usage: Usage { input: u64::MAX, cached_input: 0, cache_write_input: 0, output: 0 },
        reasoning_output: 0,
        unattributed_tokens: u64::MAX - 1,
        incomplete_usage: false,
    };
    assert!(!add_known_usage(&mut totals, usage(1, 0, 0, 0, 0, 1)));
    assert_eq!(totals.known_usage.input, u64::MAX);
    assert!(add_known_usage(&mut totals, usage(0, 3, 0, 4, 5, 12)));
    assert_eq!(totals.known_usage.output, 4);
    assert_eq!(totals.reasoning_output, 5);
    add_unattributed(&mut totals, 1);
    assert_eq!(totals.unattributed_tokens, u64::MAX);
    assert!(!totals.incomplete_usage);
    add_unattributed(&mut totals, 1);
    assert!(totals.incomplete_usage);
}

#[test]
fn turn_contexts_and_event_turns() {
    let payload = Json::Object(vec![
        ("model".into(), Json::Text("gpt-5.6-terra".into())),
        ("reasoning_effort".into(), Json::Text("high".into())),
    ]);
    assert_eq!(model_context(&payload), ("gpt-5.6-terra".to_string(), "high".to_string()));
    assert_eq!(model_context(&Json::Object(vec![])), ("unknown".to_string(), "unknown".to_string()));
    let event = Json::Object(vec![("id".into(), Json::Text("turn-1".into()))]);
    assert_eq!(event_turn_id(&event), Some("turn-1".to_string()));
    assert_eq!(event_turn_id(&Json::Object(vec![("turn_id".into(), number(3))])), None);
}

#[test]
fn service_tier_keys() {
    assert_eq!(service_tier_key(&ServiceTier::Standard), "standard");
    assert_eq!(service_tier_key(&ServiceTier::AssumedStandard), "assumed_standard");
    assert_eq!(service_tier_key(&ServiceTier::Fast), "fast");
    assert_eq!(service_tier_key(&ServiceTier::Unpriced("flex".into())), "flex");
}
