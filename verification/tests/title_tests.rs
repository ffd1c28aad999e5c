use codex_cost_meter::title::{
    compact_tokens, format_cost, format_scaled, format_tokens, strip_canonical_suffix, Metric,
    MetricList, TitleFormat, TitleStats,
};

fn stats(input_tokens: u64, output_tokens: u64, cost_cents: u64, incomplete: bool) -> TitleStats {
    TitleStats {
        cost_cents,
        cost_complete: !incomplete,
        input_tokens,
        output_tokens,
    }
}

#[test]
fn parses_metric_lists() {
    fn assert_parse(input: &str, expected: Result<Vec<Metric>, &str>) {
        match (MetricList::from_str(input), expected) {
            (Ok(actual), Ok(expected)) => assert_eq!(actual.metrics(), &expected),
            (Err(actual), Err(expected)) => assert_eq!(actual.message(), expected),
            (actual, expected) => panic!("{input:?}: got {actual:?}, expected {expected:?}"),
        }
    }

    for (input, expected) in [
        (
            "cost,total-tokens",
            Ok(vec![Metric::Cost, Metric::TotalTokens]),
        ),
        (
            "output-tokens,cost",
            Ok(vec![Metric::OutputTokens, Metric::Cost]),
        ),
        (
            "all",
            Ok(vec![
                Metric::Cost,
                Metric::TotalTokens,
                Metric::InputTokens,
                Metric::OutputTokens,
            ]),
        ),
        ("", Err("title metrics cannot be empty")),
        ("cost,cost", Err("duplicate title metric")),
        ("other", Err("unknown title metric: other")),
        ("all,cost", Err("all cannot be combined")),
    ] {
        assert_parse(input, expected);
    }
}

#[test]
fn composes_bounded_titles() {
    for (width, metrics, title, input, output, cents, incomplete, expected) in [
        (65, "cost,total-tokens", "Task title", 1_200_000, 200_000, 1234, false, Ok("Task title · $12.34 · ⇄1.4M")),
        (65, "cost", "Task title", 1_200_000, 200_000, 1234, true, Ok("Task title · $12.34+")),
        (65, "output-tokens,cost", "Task title", 1_200_000, 200_000, 1234, false, Ok("Task title · ↦200K · $12.34")),
        (65, "cost,total-tokens", "Task title · $0.50", 1_200_000, 200_000, 1234, false, Ok("Task title · $12.34 · ⇄1.4M")),
        (65, "cost,total-tokens", "Task title · $0.50 · ⇥1.2M · ⇄1.4M", 1_200_000, 200_000, 1234, false, Ok("Task title · $12.34 · ⇄1.4M")),
        (65, "cost", "Keep · $0.50 here", 1_200_000, 200_000, 1234, false, Ok("Keep · $0.50 here · $12.34")),
        (65, "cost", "Keep · 12.34", 1_200_000, 200_000, 1234, false, Ok("Keep · 12.34 · $12.34")),
        (65, "cost", "Keep · $0,000.50", 1_200_000, 200_000, 1234, false, Ok("Keep · $0,000.50 · $12.34")),
        (65, "cost", "Keep · ⇄1.0M", 1_200_000, 200_000, 1234, false, Ok("Keep · ⇄1.0M · $12.34")),
        (65, "input-tokens,output-tokens", "Task title", 2_000, 999, 1234, false, Ok("Task title · ⇥2K · ↦999")),
        (65, "total-tokens", "Task title", 1_500_000_000, 0, 1234, false, Ok("Task title · ⇄1.5B")),
        (24, "cost,total-tokens", "🦀 title", 1_200_000, 200_000, 1234, false, Ok("🦀 title · $12.34 · ⇄1.4M")),
        (22, "cost,total-tokens", "Task title", 1_200_000, 200_000, 1234, false, Ok("Task… · $12.34 · ⇄1.4M")),
        (17, "cost,total-tokens", "Task title", 1_200_000, 200_000, 1234, false, Err("title width cannot fit a visible base and metric suffix")),
    ] {
        let format = TitleFormat::new(width, MetricList::from_str(metrics).unwrap());
        let actual = format
            .compose(title, &stats(input, output, cents, incomplete))
            .map_err(|error| error.message());
        assert_eq!(
            actual.as_ref().map(String::as_str).map_err(String::as_str),
            expected,
            "{metrics} on {title:?}"
        );
        if let Ok(actual) = actual {
            assert!(actual.chars().count() <= width);
        }
    }
}

#[test]
fn recognizes_the_requested_canonical_suffix_in_order() {
    let format = TitleFormat::new(65, MetricList::default_list());

    assert!(format.matches_suffix("Task title · $12.34 · ⇄1.4M"));
    assert!(!format.matches_suffix("Task title · ⇄1.4M · $12.34"));
    assert!(!format.matches_suffix("Task title · $12.34"));
}

#[test]
fn composed_titles_recompose_to_themselves() {
    let format = TitleFormat::new(40, MetricList::from_str("cost,total-tokens").unwrap());
    let stats = stats(900, 150, 5, true);
    let first = format.compose("Refactor the parser", &stats).unwrap();
    assert_eq!(first, "Refactor the parser · $0.05+ · ⇄1.1K");
    assert!(format.matches_suffix(&first));
    assert_eq!(format.compose(&first, &stats).unwrap(), first);
}

#[test]
fn compact_and_cost_renderings_are_exact() {
    assert_eq!(compact_tokens(999), "999");
    assert_eq!(compact_tokens(1_000), "1K");
    assert_eq!(compact_tokens(999_950), "1M");
    assert_eq!(compact_tokens(15_133_186_105), "15.1B");
    assert_eq!(format_scaled(1_450, 1_000, 'K'), "1.5K");
    assert_eq!(format_tokens(2_000, '⇥'), "⇥2K");
    assert_eq!(format_cost(123_456_789, false), "$1,234,567.89");
    assert_eq!(format_cost(7, true), "$0.07+");
}

#[test]
fn canonical_segments_are_recognized_strictly() {
    assert_eq!(strip_canonical_suffix("Fix · $1,000.00 · ⇥361.2M · ↦783.6K"), "Fix");
    assert_eq!(strip_canonical_suffix("Keep · $332.5"), "Keep · $332.5");
    assert_eq!(strip_canonical_suffix("Keep · ⇄01"), "Keep · ⇄01");
    assert_eq!(strip_canonical_suffix("Keep · ⇄1.0K"), "Keep · ⇄1.0K");
    assert_eq!(strip_canonical_suffix("Keep · ⇄0K"), "Keep · ⇄0K");
}

#[test]
fn composed_titles_are_recognized_and_stable() {
    let format = TitleFormat::new(40, MetricList::from_str("cost,total-tokens").ok().unwrap());
    let stats = TitleStats { cost_cents: 33_250, cost_complete: false, input_tokens: 361_200_000, output_tokens: 783_600 };
    for title in ["Fix scrolling", "A very long task title that will not fit in forty characters"] {
        let once = format.compose(title, &stats).ok().unwrap();
        assert!(format.matches_suffix(&once));
        assert_eq!(format.compose(&once, &stats).ok().unwrap(), once);
        assert!(once.chars().count() <= 40);
    }
    let once = format.compose("Fix scrolling", &stats).ok().unwrap();
    assert_eq!(once, "Fix scrolling · $332.50+ · ⇄362M");
    assert_eq!(strip_canonical_suffix(&once), "Fix scrolling");
}

#[test]
fn scaling_moves_up_a_unit_at_a_thousand_and_takes_any_divisor() {
    assert_eq!(format_scaled(999_950, 1_000, 'K'), "1M");
    assert_eq!(format_scaled(12, 1, 'x'), "12x");
    assert_eq!(format_scaled(1_250, 1_000, 'K'), "1.3K");
}
