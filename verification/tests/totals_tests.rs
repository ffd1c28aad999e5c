use codex_cost_meter::analysis::Usage;
use codex_cost_meter::tally::{ModelTally, Tally};
use codex_cost_meter::totals::{merge_model, ReportCounts};

fn usage(input: u64, cached_input: u64, cache_write_input: u64, output: u64) -> Usage {
    Usage { input, cached_input, cache_write_input, output }
}

fn counts(rollouts: usize, unpriced: &[(&str, u64)], unattributed: Option<u64>, incomplete: bool) -> ReportCounts {
    ReportCounts {
        rollout_count: rollouts,
        usage: usage(10, 2, 1, 5),
        reasoning_output: 3,
        turns: 4,
        ended_turns: 3,
        incomplete_turns: 1,
        unpriced_models: unpriced.iter().map(|(m, t)| (m.to_string(), *t)).collect(),
        unattributed_tokens: unattributed,
        incomplete,
    }
}

#[test]
fn merging_adds_every_count_and_sums_unpriced_tokens_by_model() {
    let mut total = counts(1, &[("a", 5), ("b", 1)], None, false);
    total.merge(&counts(2, &[("b", 2), ("c", 7)], Some(4), true));
    assert_eq!(total.rollout_count, 3);
    assert_eq!(total.usage, usage(20, 4, 2, 10));
    assert_eq!(total.reasoning_output, 6);
    assert_eq!((total.turns, total.ended_turns, total.incomplete_turns), (8, 6, 2));
    assert_eq!(
        total.unpriced_models,
        vec![("a".to_string(), 5), ("b".to_string(), 3), ("c".to_string(), 7)]
    );
    assert_eq!(total.unattributed_tokens, Some(4));
    assert!(total.incomplete);
}

#[test]
fn unattributed_tokens_stay_absent_only_when_both_are() {
    let mut none = counts(0, &[], None, false);
    none.merge(&counts(0, &[], None, false));
    assert_eq!(none.unattributed_tokens, None);
    assert!(!none.incomplete);
    let mut some = counts(0, &[], Some(u64::MAX), false);
    some.merge(&counts(0, &[], Some(1), false));
    assert_eq!(some.unattributed_tokens, Some(u64::MAX));
}

#[test]
fn merging_into_nothing_gives_the_report_back() {
    let mut total = ReportCounts::empty();
    total.merge(&counts(2, &[("a", 5)], Some(1), false));
    assert_eq!(total.rollout_count, 2);
    assert_eq!(total.usage, usage(10, 2, 1, 5));
    assert_eq!(total.unpriced_models, vec![("a".to_string(), 5)]);
    assert_eq!(total.unattributed_tokens, Some(1));
    assert!(!total.incomplete);
}

#[test]
fn a_tally_shows_turns_not_ended_and_only_nonzero_unattributed_tokens() {
    let mut tally = Tally::new();
    tally.turns = 2;
    tally.ended_turns = 5;
    tally.unpriced_models.push(("m".to_string(), 9));
    let shown = tally.counts();
    assert_eq!(shown.incomplete_turns, 0);
    assert_eq!(shown.unattributed_tokens, None);
    assert_eq!(shown.unpriced_models, vec![("m".to_string(), 9)]);
    tally.turns = 7;
    tally.unattributed_tokens = 12;
    let shown = tally.counts();
    assert_eq!(shown.incomplete_turns, 2);
    assert_eq!(shown.unattributed_tokens, Some(12));
}

#[test]
fn model_sums_saturate_and_carry_incompleteness() {
    let mut total = ModelTally { usage: usage(u64::MAX, 1, 1, 1), reasoning_output: 1, turns: 1, incomplete: false };
    merge_model(&mut total, &ModelTally { usage: usage(1, 1, 1, 1), reasoning_output: 2, turns: 3, incomplete: true });
    assert_eq!(total.usage, usage(u64::MAX, 2, 2, 2));
    assert_eq!((total.reasoning_output, total.turns), (3, 4));
    assert!(total.incomplete);
}
