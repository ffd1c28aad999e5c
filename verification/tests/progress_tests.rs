use codex_cost_meter::progress::Progress;

#[test]
fn progress_renders_forced_and_throttled_lines() {
    let mut p = Progress::new(true, false);
    assert_eq!(p.start_indexing(0), "Indexing rollout metadata: 0 files\n");
    assert_eq!(p.indexed_file(1_000), "");
    assert_eq!(p.indexed_file(200_000_000), "Indexing rollout metadata: 2 files\n");
    assert_eq!(p.start_analysis(2, 200_000_001), "Analyzing 0/2 rollouts\n");
    assert_eq!(p.analyzed_rollout(200_000_002), "");
    assert_eq!(p.analyzed_rollout(200_000_003), "Analyzing 2/2 rollouts\n");
    assert_eq!(p.finish(300_000_000), "");
    assert_eq!(p.close(), "");
}

#[test]
fn terminal_progress_rewrites_one_line() {
    let mut p = Progress::new(false, true);
    assert_eq!(p.start_analysis(1, 0), "\rAnalyzing 0/1 rollouts");
    assert_eq!(p.analyzed_rollout(1), "\rAnalyzing 1/1 rollouts");
    assert_eq!(p.close(), "\n");
    assert_eq!(p.finish(2), "\n");
    assert_eq!(p.close(), "");
}

#[test]
fn disabled_progress_shows_nothing() {
    let mut p = Progress::new(false, false);
    assert_eq!(p.start_indexing(0), "");
    assert_eq!(p.analysis_message(), "Analyzing rollouts");
    assert_eq!(p.finish(0), "");
}
