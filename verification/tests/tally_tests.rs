use codex_cost_meter::analysis::{Usage, UsageTotals};
use codex_cost_meter::analyze::{RolloutStats, UsageEvent};
use codex_cost_meter::tally::Tally;

fn usage(input: u64, cached: u64, write: u64, output: u64) -> Usage {
    Usage { input, cached_input: cached, cache_write_input: write, output }
}

fn stats() -> RolloutStats {
    RolloutStats {
        totals: UsageTotals {
            known_usage: usage(100, 20, 0, 30),
            reasoning_output: 5,
            unattributed_tokens: 0,
            incomplete_usage: false,
        },
        events: vec![
            UsageEvent { model: "gpt-a".into(), at: None, usage: usage(60, 10, 0, 20), reasoning_output: 5 },
            UsageEvent { model: "gpt-b".into(), at: None, usage: usage(40, 10, 0, 10), reasoning_output: 0 },
        ],
        turns: 3,
        ended_turns: 2,
        duration: 5_000_000_000,
        turn_durations: vec![("gpt-c".into(), 5_000_000_000)],
        turn_models: vec![(("gpt-a".into(), "high".into()), 2), (("gpt-b".into(), "low".into()), 1)],
        malformed_lines: 0,
        oversized_lines: 0,
        invalid_usage_records: 0,
    }
}

fn model<'a>(tally: &'a Tally, name: &str) -> &'a codex_cost_meter::tally::ModelTally {
    &tally.models.iter().find(|(n, _)| n == name).unwrap().1
}

#[test]
fn sums_rollouts_and_keeps_per_model_counts() {
    let mut tally = Tally::new();
    tally.add(&stats(), &[true, false]);
    tally.add(&stats(), &[true, true]);
    assert_eq!(tally.rollout_count, 2);
    assert_eq!(tally.usage, usage(200, 40, 0, 60));
    assert_eq!(tally.reasoning_output, 10);
    assert_eq!(tally.turns, 6);
    assert_eq!(tally.ended_turns, 4);
    assert!(tally.incomplete);
    assert_eq!(model(&tally, "gpt-a").usage, usage(120, 20, 0, 40));
    assert_eq!(model(&tally, "gpt-a").turns, 4);
    assert!(!model(&tally, "gpt-a").incomplete);
    assert!(model(&tally, "gpt-b").incomplete);
    assert_eq!(model(&tally, "gpt-c").turns, 0);
    assert_eq!(tally.unpriced_models, vec![("gpt-b".to_string(), 50)]);
    assert_eq!(tally.majority(), Some(("gpt-a".to_string(), "high".to_string())));
}

#[test]
fn unreadable_rollouts_make_the_tally_incomplete() {
    let mut tally = Tally::new();
    assert_eq!(tally.majority(), None);
    tally.add_unreadable();
    assert_eq!(tally.rollout_count, 1);
    assert!(tally.incomplete);
}

#[test]
fn ties_go_to_the_first_model_and_effort() {
    let mut s = stats();
    s.turn_models = vec![
        (("gpt-b".into(), "low".into()), 2),
        (("gpt-a".into(), "z".into()), 2),
        (("gpt-a".into(), "m".into()), 2),
        (("gpt-0".into(), "x".into()), 1),
    ];
    let mut tally = Tally::new();
    tally.add(&s, &[true, true]);
    assert_eq!(tally.majority(), Some(("gpt-a".to_string(), "m".to_string())));
}

#[test]
fn unattributed_usage_makes_the_tally_incomplete() {
    let mut s = stats();
    s.totals.unattributed_tokens = 7;
    let mut tally = Tally::new();
    tally.add(&s, &[true, true]);
    assert!(tally.incomplete);
    assert_eq!(tally.unattributed_tokens, 7);
}
