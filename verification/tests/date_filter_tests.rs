use codex_cost_meter::date_filter::{
    filter_error_message, parse_date, CivilDate, Filter, FilterError, GroupDimension, Options,
};

fn date(value: &str) -> CivilDate {
    parse_date(value).unwrap()
}

#[test]
fn rejects_invalid_group_shapes_and_unbounded_empty_rows() {
    assert!(parse_date("2026-13-01").is_err());
    assert!(matches!(
        Filter::try_from(Options {
            since: None,
            through: None,
            group_by: vec![GroupDimension::Model],
            include_empty: false
        }),
        Err(FilterError::TimeDimension)
    ));
    assert!(matches!(
        Filter::try_from(Options {
            since: None,
            through: None,
            group_by: vec![GroupDimension::Day, GroupDimension::Week],
            include_empty: false
        }),
        Err(FilterError::TimeDimension)
    ));
    assert!(matches!(
        Filter::try_from(Options {
            since: None,
            through: None,
            group_by: vec![GroupDimension::Day, GroupDimension::Day],
            include_empty: false
        }),
        Err(FilterError::DuplicateDimension)
    ));
    assert!(matches!(
        Filter::try_from(Options {
            since: Some(date("2026-08-01")),
            through: None,
            group_by: vec![GroupDimension::Day],
            include_empty: true
        }),
        Err(FilterError::EmptyRange)
    ));
}

#[test]
fn rejects_inverted_dates() {
    assert!(matches!(
        Filter::try_from(Options {
            since: Some(date("2026-08-02")),
            through: Some(date("2026-08-01")),
            group_by: vec![],
            include_empty: false
        }),
        Err(FilterError::InvertedRange)
    ));
}

#[test]
fn calendar_buckets_use_monday_weeks_and_local_months() {
    let mut filter = Filter::try_from(Options {
        since: Some(date("2026-08-01")),
        through: Some(date("2026-08-10")),
        group_by: vec![GroupDimension::Week],
        include_empty: true,
    })
    .unwrap();
    assert_eq!(filter.bucket_start(date("2026-08-05")).unwrap(), date("2026-08-03"));
    assert_eq!(
        filter.empty_bucket_starts().unwrap(),
        vec![date("2026-07-27"), date("2026-08-03"), date("2026-08-10")]
    );
    filter.group_by = vec![GroupDimension::Month];
    assert_eq!(filter.bucket_start(date("2026-08-05")).unwrap(), date("2026-08-01"));
}

fn unzoned(since: Option<CivilDate>, through: Option<CivilDate>, group_by: Vec<GroupDimension>, include_empty: bool) -> Filter {
    Filter { since, through, group_by, include_empty, timezone: None }
}

#[test]
fn iso_dates_are_read_as_calendar_dates() {
    assert_eq!(date("2024-02-29"), CivilDate { year: 2024, month: 2, day: 29 });
    let refused = parse_date("2023-02-29").err().unwrap();
    assert_eq!(refused, "must be an ISO date (YYYY-MM-DD)");
}

#[test]
fn day_and_month_periods_walk_to_the_last_bound() {
    let days = unzoned(Some(date("2024-02-27")), Some(date("2024-03-01")), vec![GroupDimension::Day], true);
    assert_eq!(
        days.empty_bucket_starts().unwrap(),
        vec![date("2024-02-27"), date("2024-02-28"), date("2024-02-29"), date("2024-03-01")]
    );
    let months = unzoned(Some(date("2025-11-15")), Some(date("2026-02-03")), vec![GroupDimension::Month], true);
    assert_eq!(
        months.empty_bucket_starts().unwrap(),
        vec![date("2025-11-01"), date("2025-12-01"), date("2026-01-01"), date("2026-02-01")]
    );
    let not_asked = unzoned(Some(date("2025-11-15")), Some(date("2026-02-03")), vec![GroupDimension::Month], false);
    assert!(not_asked.empty_bucket_starts().unwrap().is_empty());
}

#[test]
fn grouping_reads_the_calendar_dimension() {
    let filter = unzoned(None, None, vec![GroupDimension::Model, GroupDimension::Week], false);
    assert_eq!(filter.time_dimension(), Some(GroupDimension::Week));
    assert!(filter.groups_by(GroupDimension::Model));
    assert!(!filter.groups_by(GroupDimension::Day));
    assert!(!filter.is_filtered());
    assert_eq!(filter.bucket_start(CivilDate { year: 2026, month: 13, day: 1 }).is_err(), true);
}

#[test]
fn events_without_a_local_date_are_outside_a_range() {
    let filter = unzoned(Some(date("2026-08-01")), None, vec![], false);
    assert!(matches!(filter.includes(Some(0)), Ok(false)));
    assert!(matches!(unzoned(None, None, vec![], false).includes(None), Ok(true)));
    assert!(filter.retains_rollout(Some(0), Some(0)));
    assert!(matches!(filter.local_date(Some(0)), Ok(None)));
}

#[test]
fn filter_errors_have_their_messages() {
    assert_eq!(filter_error_message(&FilterError::InvertedRange), "--through must not be earlier than --since");
    assert_eq!(filter_error_message(&FilterError::DuplicateDimension), "--group-by cannot repeat a dimension");
}
