use codex_cost_meter::analysis::Usage;
use codex_cost_meter::pricing::{day_of, uncached_input, Catalog, CatalogError, Pricing, RatePoint};

fn point(effective_day: i64) -> RatePoint {
    RatePoint {
        effective_day,
        negative: false,
        input: true,
        cached_input: true,
        cache_write_input: true,
        output: true,
    }
}

fn usage(input: u64, cached_input: u64, cache_write_input: u64, output: u64) -> Usage {
    Usage { input, cached_input, cache_write_input, output }
}

const DAY: i128 = 86_400_000_000_000;

/// 2026-07-30 is day 20664 after 1970-01-01.
const JULY_30: i64 = 20664;

fn sample() -> Catalog {
    let mut unpublished = point(0);
    unpublished.cached_input = false;
    Catalog::parse(
        vec![
            ("gpt-5.6-terra".to_string(), vec![point(JULY_30 - 100), point(JULY_30)]),
            ("gpt-5.2-pro".to_string(), vec![unpublished]),
        ],
        vec![
            ("gpt-5.6".to_string(), "gpt-5.6-terra".to_string()),
            ("codex-auto-review".to_string(), "gpt-5.6-terra".to_string()),
        ],
        vec!["codex-auto-review".to_string()],
    )
    .ok()
    .unwrap()
}

#[test]
fn rejects_invalid_catalogs() {
    let mut negative = point(20454);
    negative.negative = true;
    let cases: Vec<(&str, Result<Catalog, CatalogError>)> = vec![
        ("negative rate", Catalog::parse(vec![("model".to_string(), vec![negative])], vec![], vec![])),
        (
            "equal effective dates",
            Catalog::parse(vec![("model".to_string(), vec![point(20454), point(20454)])], vec![], vec![]),
        ),
        (
            "unresolved proxy",
            Catalog::parse(vec![], vec![("alias".to_string(), "missing".to_string())], vec![]),
        ),
        ("undated non-proxy", Catalog::parse(vec![], vec![], vec!["alias".to_string()])),
    ];
    let mut kinds = Vec::new();
    for (name, result) in cases {
        let error = result.err().unwrap();
        kinds.push((name, error));
    }
    assert!(matches!(&kinds[0].1, CatalogError::NegativeRate { model, effective_day: 20454 } if model == "model"), "{}", kinds[0].0);
    assert!(
        matches!(&kinds[1].1, CatalogError::NonIncreasingEffectiveDate { model, effective_day: 20454 } if model == "model"),
        "{}",
        kinds[1].0
    );
    assert!(
        matches!(&kinds[2].1, CatalogError::UnresolvedProxy { proxy, target } if proxy == "alias" && target == "missing"),
        "{}",
        kinds[2].0
    );
    assert!(matches!(&kinds[3].1, CatalogError::InvalidUndatedProxy(name) if name == "alias"), "{}", kinds[3].0);
}

#[test]
fn a_sound_catalog_is_kept_whole() {
    let catalog = sample();
    assert_eq!(catalog.histories.len(), 2);
    assert_eq!(catalog.proxies.len(), 2);
    assert_eq!(catalog.undated_proxies, vec!["codex-auto-review".to_string()]);
}

#[test]
fn the_rate_in_effect_on_the_event_day_is_selected() {
    let catalog = sample();
    let out = usage(0, 0, 0, 1_000_000);
    let noon = DAY / 2;
    let before = Some(((JULY_30 as i128) - 1) * DAY + noon);
    let after = Some((JULY_30 as i128) * DAY + noon);
    assert_eq!(catalog.price("gpt-5.6-terra", before, &out).unwrap().point, 0);
    assert_eq!(catalog.price("gpt-5.6-terra", after, &out).unwrap().point, 1);
    assert_eq!(catalog.price("gpt-5.6-terra", None, &out).unwrap().point, 1);
    let long_before = Some(((JULY_30 as i128) - 101) * DAY);
    assert_eq!(catalog.price("gpt-5.6-terra", long_before, &out), None);
}

#[test]
fn a_proxy_is_priced_by_its_target_history() {
    let catalog = sample();
    let out = usage(0, 0, 0, 1);
    let p = catalog.price("gpt-5.6", None, &out).unwrap();
    assert_eq!((p.history, p.point), (0, 1));
    assert!(p.complete);
}

#[test]
fn an_undated_proxy_uses_the_newest_rate() {
    let catalog = sample();
    let before = Some(((JULY_30 as i128) - 1) * DAY);
    let p = catalog.price("codex-auto-review", before, &usage(0, 0, 0, 1)).unwrap();
    assert_eq!(p.point, 1);
    let dated = catalog.price("gpt-5.6", before, &usage(0, 0, 0, 1)).unwrap();
    assert_eq!(dated.point, 0);
}

#[test]
fn unknown_models_and_unpublished_rates() {
    let catalog = sample();
    assert_eq!(catalog.price("unknown", None, &usage(1_000_000, 0, 0, 0)), None);
    let mixed = catalog.price("gpt-5.2-pro", None, &usage(1_000_000, 1, 0, 0)).unwrap();
    assert_eq!(
        mixed,
        Pricing { history: 1, point: 0, uncached_input: 999_999, complete: false }
    );
    let no_cached = catalog.price("gpt-5.2-pro", None, &usage(1_000_000, 0, 0, 5)).unwrap();
    assert!(no_cached.complete);
}

#[test]
fn uncached_input_saturates_at_zero() {
    assert_eq!(uncached_input(&usage(100, 80, 30, 0)), 0);
    assert_eq!(uncached_input(&usage(100, 20, 30, 0)), 50);
    assert_eq!(uncached_input(&usage(5, u64::MAX, u64::MAX, 0)), 0);
    assert_eq!(uncached_input(&usage(u64::MAX, 0, 0, 0)), u64::MAX);
}

#[test]
fn days_are_counted_from_the_epoch_in_utc() {
    assert_eq!(day_of(0), 0);
    assert_eq!(day_of(DAY - 1), 0);
    assert_eq!(day_of(DAY), 1);
    assert_eq!(day_of(-1), -1);
    assert_eq!(day_of(-DAY), -1);
    assert_eq!(day_of(-DAY - 1), -2);
}
