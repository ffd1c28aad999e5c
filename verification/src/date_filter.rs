//! Date range and grouping options of project reports.
use vstd::prelude::*;

use crate::text::{chars_are, chars_of, extend_str, string_of};

verus! {

/// A way to group report rows.
#[derive(Clone, Copy, Debug, PartialEq, Eq, Structural)]
pub enum GroupDimension {
    Day,
    Week,
    Month,
    RolloutType,
    Model,
}

/// A calendar date in the host's local time zone.
#[derive(Clone, Copy, Debug, PartialEq, Eq, Structural)]
pub struct CivilDate {
    pub year: i16,
    pub month: i8,
    pub day: i8,
}

/// Calendar order of dates.
pub open spec fn date_le(a: CivilDate, b: CivilDate) -> bool {
    a.year < b.year || (a.year == b.year && (a.month < b.month || (a.month == b.month && a.day
        <= b.day)))
}

/// Whether `a` is on or before `b`.
pub fn date_on_or_before(a: CivilDate, b: CivilDate) -> (r: bool)
    ensures
        r == date_le(a, b),
{
    a.year < b.year || (a.year == b.year && (a.month < b.month || (a.month == b.month && a.day
        <= b.day)))
}

/// The option name of each dimension.
pub open spec fn dimension_name(d: GroupDimension) -> Seq<char> {
    match d {
        GroupDimension::Day => "day"@,
        GroupDimension::Week => "week"@,
        GroupDimension::Month => "month"@,
        GroupDimension::RolloutType => "rollout-type"@,
        GroupDimension::Model => "model"@,
    }
}

/// Whether a dimension is a calendar period.
pub open spec fn is_time_dimension(d: GroupDimension) -> bool {
    d == GroupDimension::Day || d == GroupDimension::Week || d == GroupDimension::Month
}

impl GroupDimension {
    /// The option name of this dimension.
    pub fn as_str(self) -> (r: &'static str)
        ensures
            r@ == dimension_name(self),
    {
        match self {
            GroupDimension::Day => "day",
            GroupDimension::Week => "week",
            GroupDimension::Month => "month",
            GroupDimension::RolloutType => "rollout-type",
            GroupDimension::Model => "model",
        }
    }

    /// Parses a `--group-by` value.
    pub fn from_str(value: &str) -> (r: Result<GroupDimension, String>)
        ensures
            match r {
                Ok(d) => dimension_name(d) == value@,
                Err(e) => e@ == "must be day, week, month, rollout-type, or model"@ && forall|
                    d: GroupDimension,
                | dimension_name(d) != value@,
            },
    {
        let v = crate::text::chars_of(value);
        if chars_are(&v, "day") {
            Ok(GroupDimension::Day)
        } else if chars_are(&v, "week") {
            Ok(GroupDimension::Week)
        } else if chars_are(&v, "month") {
            Ok(GroupDimension::Month)
        } else if chars_are(&v, "rollout-type") {
            Ok(GroupDimension::RolloutType)
        } else if chars_are(&v, "model") {
            Ok(GroupDimension::Model)
        } else {
            proof {
                assert forall|d: GroupDimension| dimension_name(d) != value@ by {
                    match d {
                        GroupDimension::Day => {},
                        GroupDimension::Week => {},
                        GroupDimension::Month => {},
                        GroupDimension::RolloutType => {},
                        GroupDimension::Model => {},
                    }
                }
            }
            Err(String::from_str("must be day, week, month, rollout-type, or model"))
        }
    }
}

/// An error of the calendar and time-zone library.
#[verifier::external_type_specification]
#[verifier::external_body]
pub struct ExJiffError(jiff::Error);

/// A time zone of the calendar and time-zone library.
#[verifier::external_type_specification]
#[verifier::external_body]
pub struct ExTimeZone(jiff::tz::TimeZone);

/// Why date options are refused, or why dates could not be worked out.
#[derive(Debug)]
pub enum FilterError {
    InvertedRange,
    EmptyRange,
    TimeDimension,
    DuplicateDimension,
    /// The host's time zone could not be found, or a date fell outside the
    /// supported calendar.
    Timezone(jiff::Error),
}

/// Date range and grouping options as given on the command line.
#[derive(Clone, Debug)]
pub struct Options {
    pub since: Option<CivilDate>,
    pub through: Option<CivilDate>,
    pub group_by: Vec<GroupDimension>,
    pub include_empty: bool,
}

/// The number of calendar dimensions in a list.
pub open spec fn time_dimension_count(ds: Seq<GroupDimension>) -> nat
    decreases ds.len(),
{
    if ds.len() == 0 {
        0
    } else {
        time_dimension_count(ds.drop_last()) + (if is_time_dimension(ds.last()) {
            1nat
        } else {
            0nat
        })
    }
}

/// Whether some dimension occurs twice.
pub open spec fn has_duplicate(ds: Seq<GroupDimension>) -> bool {
    exists|i: int, j: int| 0 <= i < j < ds.len() && ds[i] == ds[j]
}

/// The first problem with the options, checked in the order the command reports them.
pub open spec fn options_problem(
    since: Option<CivilDate>,
    through: Option<CivilDate>,
    group_by: Seq<GroupDimension>,
    include_empty: bool,
) -> Option<FilterError> {
    if since matches Some(s) && through matches Some(t) && !date_le(s, t) {
        Some(FilterError::InvertedRange)
    } else if include_empty && (since is None || through is None) {
        Some(FilterError::EmptyRange)
    } else if has_duplicate(group_by) {
        Some(FilterError::DuplicateDimension)
    } else if group_by.len() > 0 && time_dimension_count(group_by) != 1 {
        Some(FilterError::TimeDimension)
    } else {
        None
    }
}

/// Checks date range and grouping options.
#[verifier::loop_isolation(false)]
pub fn validate_options(options: &Options) -> (r: Result<(), FilterError>)
    ensures
        match options_problem(
            options.since,
            options.through,
            options.group_by@,
            options.include_empty,
        ) {
            Some(e) => r == Err::<(), FilterError>(e),
            None => r is Ok,
        },
{
    if let (Some(since), Some(through)) = (options.since, options.through) {
        if !date_on_or_before(since, through) {
            return Err(FilterError::InvertedRange);
        }
    }
    if options.include_empty && (options.since.is_none() || options.through.is_none()) {
        return Err(FilterError::EmptyRange);
    }
    let ds = &options.group_by;
    let mut i: usize = 0;
    while i < ds.len()
        invariant
            i <= ds.len(),
            forall|a: int, b: int| 0 <= a < b < i ==> ds@[a] != ds@[b],
        decreases ds.len() - i,
    {
        let mut j: usize = 0;
        while j < i
            invariant
                j <= i < ds.len(),
                forall|a: int| 0 <= a < j ==> ds@[a] != ds@[i as int],
            decreases i - j,
        {
            if ds[j] == ds[i] {
                assert(has_duplicate(ds@));
                return Err(FilterError::DuplicateDimension);
            }
            j += 1;
        }
        i += 1;
    }
    let mut count: usize = 0;
    let mut k: usize = 0;
    while k < ds.len()
        invariant
            k <= ds.len(),
            count <= k,
            count == time_dimension_count(ds@.take(k as int)),
        decreases ds.len() - k,
    {
        assert(ds@.take(k + 1).drop_last() =~= ds@.take(k as int));
        if ds[k] == GroupDimension::Day || ds[k] == GroupDimension::Week || ds[k]
            == GroupDimension::Month {
            count += 1;
        }
        k += 1;
    }
    assert(ds@.take(ds.len() as int) =~= ds@);
    if ds.len() > 0 && count != 1 {
        return Err(FilterError::TimeDimension);
    }
    Ok(())
}

/// The text of an error of the calendar library (its `Display`); nothing
/// is promised of the text.
#[verifier::external_body]
fn jiff_error_text(e: &jiff::Error) -> String {
    format!("{e}")
}

/// The message for each refused option combination; a calendar error's
/// message ends with the calendar library's own text of it.
pub fn filter_error_message(e: &FilterError) -> (r: String)
    ensures
        match e {
            FilterError::InvertedRange => r@ == "--through must not be earlier than --since"@,
            FilterError::EmptyRange => r@ == "--include-empty requires both --since and --through"@,
            FilterError::TimeDimension => r@ == "--group-by requires exactly one of day, week, or month"@,
            FilterError::DuplicateDimension => r@ == "--group-by cannot repeat a dimension"@,
            FilterError::Timezone(_) => r@.len() >= "could not resolve the host local timezone: "@.len()
                && r@.take("could not resolve the host local timezone: "@.len() as int)
                == "could not resolve the host local timezone: "@,
        },
{
    match e {
        FilterError::InvertedRange => String::from_str("--through must not be earlier than --since"),
        FilterError::EmptyRange => String::from_str("--include-empty requires both --since and --through"),
        FilterError::TimeDimension => String::from_str("--group-by requires exactly one of day, week, or month"),
        FilterError::DuplicateDimension => String::from_str("--group-by cannot repeat a dimension"),
        FilterError::Timezone(error) => {
            let prefix = "could not resolve the host local timezone: ";
            let mut out: Vec<char> = chars_of(prefix);
            let detail = jiff_error_text(error);
            extend_str(&mut out, detail.as_str());
            let r = string_of(&out);
            assert(out@.take(prefix@.len() as int) =~= prefix@);
            r
        },
    }
}

/// Whether an event on `date` (its local date, if known) is inside the range.
pub open spec fn includes_date(
    since: Option<CivilDate>,
    through: Option<CivilDate>,
    date: Option<CivilDate>,
) -> bool {
    if since is None && through is None {
        true
    } else {
        match date {
            None => false,
            Some(d) => (match since {
                Some(s) => date_le(s, d),
                None => true,
            }) && (match through {
                Some(t) => date_le(d, t),
                None => true,
            }),
        }
    }
}

/// Whether an event whose local date is `date` passes the date range.
pub fn includes(since: Option<CivilDate>, through: Option<CivilDate>, date: Option<CivilDate>) -> (r:
    bool)
    ensures
        r == includes_date(since, through, date),
        r == in_date_range(since, through, date),
{
    proof {
        lemma_range_bounds(since, through, date);
    }
    if since.is_none() && through.is_none() {
        return true;
    }
    match date {
        None => false,
        Some(d) => {
            let after = match since {
                Some(s) => date_on_or_before(s, d),
                None => true,
            };
            let before = match through {
                Some(t) => date_on_or_before(d, t),
                None => true,
            };
            after && before
        },
    }
}

/// A rollout created and last updated on the given local dates can overlap
/// the range: it was not last updated before `since`, nor created after
/// `through`; an unknown date excludes nothing.
pub open spec fn retains_dates(
    since: Option<CivilDate>,
    through: Option<CivilDate>,
    created: Option<CivilDate>,
    updated: Option<CivilDate>,
) -> bool {
    (match (since, updated) {
        (Some(s), Some(u)) => date_le(s, u),
        _ => true,
    }) && (match (through, created) {
        (Some(t), Some(c)) => date_le(c, t),
        _ => true,
    })
}

/// Whether a rollout created and last updated on the given local dates can
/// overlap the range (unknown dates never exclude it).
pub fn retains_rollout(
    since: Option<CivilDate>,
    through: Option<CivilDate>,
    created: Option<CivilDate>,
    updated: Option<CivilDate>,
) -> (r: bool)
    ensures
        r == retains_dates(since, through, created, updated),
{
    let after = match (since, updated) {
        (Some(s), Some(u)) => date_on_or_before(s, u),
        _ => true,
    };
    let before = match (through, created) {
        (Some(t), Some(c)) => date_on_or_before(c, t),
        _ => true,
    };
    after && before
}

/// `a` is strictly before `b`.
pub open spec fn date_lt(a: CivilDate, b: CivilDate) -> bool {
    date_le(a, b) && a != b
}

/// A leap year of the proleptic Gregorian calendar.
pub open spec fn leap_year(y: int) -> bool {
    (y % 4 == 0 && y % 100 != 0) || y % 400 == 0
}

/// The number of days in month `m` of year `y`.
pub open spec fn days_in_month(y: int, m: int) -> int {
    if m == 2 {
        if leap_year(y) {
            29
        } else {
            28
        }
    } else if m == 4 || m == 6 || m == 9 || m == 11 {
        30
    } else {
        31
    }
}

/// A date the calendar has: a year within ±9999, a month of the year and a
/// day of that month.
pub open spec fn valid_date(d: CivilDate) -> bool {
    &&& -9999 <= d.year <= 9999
    &&& 1 <= d.month <= 12
    &&& 1 <= d.day <= days_in_month(d.year as int, d.month as int)
}

/// A number for each (year, month, day) that orders them as the calendar does.
pub open spec fn date_rank(d: CivilDate) -> int {
    d.year * 65536 + (d.month + 128) * 256 + (d.day + 128)
}

proof fn lemma_rank_orders(a: CivilDate, b: CivilDate)
    ensures
        date_le(a, b) <==> date_rank(a) <= date_rank(b),
        date_lt(a, b) <==> date_rank(a) < date_rank(b),
{
}

/// What `s.parse::<jiff::civil::Date>()` reads from an ISO date, as a date.
pub uninterp spec fn parsed_date(s: Seq<char>) -> Option<CivilDate>;

/// The day of the week of a valid date, counted from Monday as 0.
pub uninterp spec fn monday_offset(d: CivilDate) -> i8;

/// The day after a valid date: the next day of its month, else the first of
/// the next month, else the first of the next year; none after 9999-12-31,
/// the last date the calendar has (what `Date::tomorrow` gives).
pub open spec fn next_day(d: CivilDate) -> Option<CivilDate> {
    if (d.day as int) < days_in_month(d.year as int, d.month as int) {
        Some(CivilDate { year: d.year, month: d.month, day: (d.day + 1) as i8 })
    } else if d.month < 12 {
        Some(CivilDate { year: d.year, month: (d.month + 1) as i8, day: 1 })
    } else if d.year < 9999 {
        Some(CivilDate { year: (d.year + 1) as i16, month: 1, day: 1 })
    } else {
        None
    }
}

/// What `Date::checked_add` gives for a valid date and a span of days or months.
pub uninterp spec fn date_plus(d: CivilDate, step: CalendarStep) -> Option<CivilDate>;

/// What `Date::checked_sub` gives for a valid date and a number of days.
pub uninterp spec fn date_minus_days(d: CivilDate, days: i64) -> Option<CivilDate>;

/// A span of whole days or whole months.
#[derive(Clone, Copy, Debug, PartialEq, Eq, Structural)]
pub enum CalendarStep {
    Days(i64),
    Months(i64),
}

/// `s.parse::<jiff::civil::Date>()`: the date an ISO `YYYY-MM-DD` text
/// names; the result is named by `parsed_date`, and a date the library
/// gives is a valid one.
#[verifier::external_body]
fn parse_iso_date(s: &str) -> (r: Option<CivilDate>)
    ensures
        r == parsed_date(s@),
        r matches Some(d) ==> valid_date(d),
{
    match s.parse::<jiff::civil::Date>() {
        Ok(d) => Some(CivilDate { year: d.year(), month: d.month(), day: d.day() }),
        Err(_) => None,
    }
}

/// `Date::new`: the date with these fields, refused exactly when the
/// calendar has no such date.
#[verifier::external_body]
fn date_new(year: i16, month: i8, day: i8) -> (r: Result<CivilDate, jiff::Error>)
    ensures
        match r {
            Ok(d) => d == (CivilDate { year, month, day }) && valid_date(d),
            Err(_) => !valid_date(CivilDate { year, month, day }),
        },
{
    match jiff::civil::Date::new(year, month, day) {
        Ok(d) => Ok(CivilDate { year: d.year(), month: d.month(), day: d.day() }),
        Err(e) => Err(e),
    }
}

/// `Date::weekday` then `Weekday::to_monday_zero_offset`, for a date made
/// with `Date::new`: Monday is 0 and Sunday 6; the offset is named by
/// `monday_offset`.
#[verifier::external_body]
fn weekday_offset(d: CivilDate) -> (r: Result<i8, jiff::Error>)
    ensures
        match r {
            Ok(k) => valid_date(d) && k == monday_offset(d) && 0 <= k <= 6,
            Err(_) => !valid_date(d),
        },
{
    let date = jiff::civil::Date::new(d.year, d.month, d.day)?;
    Ok(date.weekday().to_monday_zero_offset())
}

/// `Date::tomorrow`, for a date made with `Date::new`: the day after it
/// (see `next_day`), refused after the last date the calendar has.
#[verifier::external_body]
fn tomorrow(d: CivilDate) -> (r: Result<CivilDate, jiff::Error>)
    ensures
        match r {
            Ok(e) => valid_date(d) && next_day(d) == Some(e) && valid_date(e) && date_lt(d, e),
            Err(_) => !valid_date(d) || next_day(d) is None,
        },
{
    let date = jiff::civil::Date::new(d.year, d.month, d.day)?;
    let next = date.tomorrow()?;
    Ok(CivilDate { year: next.year(), month: next.month(), day: next.day() })
}

/// `Date::checked_add` with a span of days or months, for a date made with
/// `Date::new`: named by `date_plus`; a positive span gives a later date.
#[verifier::external_body]
fn checked_add(d: CivilDate, step: CalendarStep) -> (r: Result<CivilDate, jiff::Error>)
    ensures
        match r {
            Ok(e) => {
                &&& valid_date(d)
                &&& date_plus(d, step) == Some(e)
                &&& valid_date(e)
                &&& (match step {
                    CalendarStep::Days(n) => n > 0 ==> date_lt(d, e),
                    CalendarStep::Months(n) => n > 0 ==> date_lt(d, e),
                })
            },
            Err(_) => !valid_date(d) || date_plus(d, step) is None,
        },
{
    let date = jiff::civil::Date::new(d.year, d.month, d.day)?;
    let span = match step {
        CalendarStep::Days(n) => jiff::Span::new().try_days(n)?,
        CalendarStep::Months(n) => jiff::Span::new().try_months(n)?,
    };
    let later = date.checked_add(span)?;
    Ok(CivilDate { year: later.year(), month: later.month(), day: later.day() })
}

/// `Date::checked_sub` with a span of days, for a date made with
/// `Date::new`: named by `date_minus_days`.
#[verifier::external_body]
fn checked_sub_days(d: CivilDate, days: i64) -> (r: Result<CivilDate, jiff::Error>)
    ensures
        match r {
            Ok(e) => valid_date(d) && date_minus_days(d, days) == Some(e) && valid_date(e),
            Err(_) => !valid_date(d) || date_minus_days(d, days) is None,
        },
{
    let date = jiff::civil::Date::new(d.year, d.month, d.day)?;
    let earlier = date.checked_sub(jiff::Span::new().try_days(days)?)?;
    Ok(CivilDate { year: earlier.year(), month: earlier.month(), day: earlier.day() })
}

/// `TimeZone::try_system`: the host's time zone, found from the `TZ`
/// variable or the system's files; nothing is promised of the outcome.
#[verifier::external_body]
fn system_timezone() -> (r: Result<jiff::tz::TimeZone, jiff::Error>) {
    jiff::tz::TimeZone::try_system()
}

/// The seconds that `Timestamp::from_second` accepts: from `Timestamp::MIN`
/// through `Timestamp::MAX`.
pub open spec fn second_in_range(second: i64) -> bool {
    -377_705_023_201 <= second <= 253_402_207_200
}

/// `Timestamp::from_second`, then the civil date of that instant in `tz`:
/// refused exactly when the second is outside the supported range (the
/// library documents that as the only error), else a valid date. Which date
/// it is depends on the time zone's rules, which nothing here names.
#[verifier::external_body]
fn zoned_date(tz: &jiff::tz::TimeZone, second: i64) -> (r: Result<CivilDate, jiff::Error>)
    ensures
        match r {
            Ok(d) => second_in_range(second) && valid_date(d),
            Err(_) => !second_in_range(second),
        },
{
    let instant = jiff::Timestamp::from_second(second)?;
    let date = instant.to_zoned(tz.clone()).date();
    Ok(CivilDate { year: date.year(), month: date.month(), day: date.day() })
}

/// The date an ISO `YYYY-MM-DD` text names, or why it is refused.
pub fn parse_date(value: &str) -> (r: Result<CivilDate, String>)
    ensures
        match parsed_date(value@) {
            Some(d) => r == Ok::<CivilDate, String>(d),
            None => r matches Err(m) && m@ == "must be an ISO date (YYYY-MM-DD)"@,
        },
{
    match parse_iso_date(value) {
        Some(d) => Ok(d),
        None => Err(String::from_str("must be an ISO date (YYYY-MM-DD)")),
    }
}

/// The first calendar dimension of a list.
pub open spec fn first_time_dimension(ds: Seq<GroupDimension>) -> Option<GroupDimension>
    decreases ds.len(),
{
    if ds.len() == 0 {
        None
    } else if is_time_dimension(ds[0]) {
        Some(ds[0])
    } else {
        first_time_dimension(ds.drop_first())
    }
}

proof fn lemma_first_time_dimension(ds: Seq<GroupDimension>)
    ensures
        first_time_dimension(ds) matches Some(d) ==> is_time_dimension(d),
    decreases ds.len(),
{
    if ds.len() > 0 && !is_time_dimension(ds[0]) {
        lemma_first_time_dimension(ds.drop_first());
    }
}

/// The first day of the period of `dimension` that holds `d`: the Monday of
/// its week, the first of its month, else `d` itself.
pub open spec fn bucket_start_of(dimension: Option<GroupDimension>, d: CivilDate) -> Option<CivilDate> {
    match dimension {
        Some(GroupDimension::Week) => if valid_date(d) {
            date_minus_days(d, monday_offset(d) as i64)
        } else {
            None
        },
        Some(GroupDimension::Month) => {
            let first = CivilDate { year: d.year, month: d.month, day: 1 };
            if valid_date(first) {
                Some(first)
            } else {
                None
            }
        },
        _ => Some(d),
    }
}

/// The start of the period after the one starting at `d`.
pub open spec fn next_bucket(dimension: GroupDimension, d: CivilDate) -> Option<CivilDate> {
    if !valid_date(d) {
        None
    } else {
        match dimension {
            GroupDimension::Day => next_day(d),
            GroupDimension::Week => date_plus(d, CalendarStep::Days(7)),
            GroupDimension::Month => date_plus(d, CalendarStep::Months(1)),
            _ => None,
        }
    }
}

/// The period starts from `current` through `end`, each the next after the
/// one before; `None` when a next start cannot be worked out (or does not
/// come later).
pub open spec fn bucket_walk(dimension: GroupDimension, current: CivilDate, end: CivilDate) -> Option<
    Seq<CivilDate>,
>
    decreases date_rank(end) - date_rank(current),
{
    if !date_le(current, end) {
        Some(Seq::empty())
    } else {
        match next_bucket(dimension, current) {
            None => None,
            Some(n) => if !date_lt(current, n) {
                None
            } else if !date_le(n, end) {
                Some(seq![current])
            } else {
                match bucket_walk(dimension, n, end) {
                    Some(rest) => Some(seq![current] + rest),
                    None => None,
                }
            },
        }
    }
}

/// `d` is what placing the instant `at` (seconds since the epoch) in the
/// host's time zone gives: nothing when the instant or the zone is unknown
/// or the instant lies outside the supported range, else a valid date (the
/// one the zone's rules give).
pub open spec fn placed(zone_known: bool, at: Option<i64>, d: Option<CivilDate>) -> bool {
    match at {
        Some(s) if zone_known && second_in_range(s) => d matches Some(x) && valid_date(x),
        _ => d is None,
    }
}

/// Date range and grouping options, checked, with the host's time zone
/// where dates have to be placed in it.
pub struct Filter {
    pub since: Option<CivilDate>,
    pub through: Option<CivilDate>,
    pub group_by: Vec<GroupDimension>,
    pub include_empty: bool,
    pub timezone: Option<jiff::tz::TimeZone>,
}

/// Dates are placed in the host's time zone when a range or a grouping is asked for.
pub open spec fn needs_timezone(options: Options) -> bool {
    options.since is Some || options.through is Some || options.group_by@.len() > 0
}

impl Filter {
    /// Checks the options (see `options_problem`) and, where dates have to
    /// be placed in the host's time zone, finds it.
    pub fn try_from(options: Options) -> (r: Result<Filter, FilterError>)
        ensures
            match options_problem(options.since, options.through, options.group_by@, options.include_empty) {
                Some(e) => r == Err::<Filter, FilterError>(e),
                None => match r {
                    Ok(f) => {
                        &&& f.since == options.since
                        &&& f.through == options.through
                        &&& f.group_by@ == options.group_by@
                        &&& f.include_empty == options.include_empty
                        &&& (f.timezone is Some <==> needs_timezone(options))
                    },
                    Err(e) => needs_timezone(options) && e is Timezone,
                },
            },
    {
        match validate_options(&options) {
            Err(e) => return Err(e),
            Ok(()) => {},
        }
        let needs = options.since.is_some() || options.through.is_some() || options.group_by.len() > 0;
        let timezone = if needs {
            match system_timezone() {
                Ok(tz) => Some(tz),
                Err(e) => return Err(FilterError::Timezone(e)),
            }
        } else {
            None
        };
        Ok(Filter {
            since: options.since,
            through: options.through,
            group_by: options.group_by,
            include_empty: options.include_empty,
            timezone,
        })
    }

    /// Whether a date range is set.
    pub fn is_filtered(&self) -> (r: bool)
        ensures
            r == (self.since is Some || self.through is Some),
    {
        self.since.is_some() || self.through.is_some()
    }

    /// The calendar dimension the rows are grouped by, if any.
    pub fn time_dimension(&self) -> (r: Option<GroupDimension>)
        ensures
            r == first_time_dimension(self.group_by@),
    {
        let ds = &self.group_by;
        let mut i: usize = 0;
        assert(ds@.skip(0) =~= ds@);
        while i < ds.len()
            invariant
                i <= ds.len(),
                ds@ == self.group_by@,
                first_time_dimension(ds@) == first_time_dimension(ds@.skip(i as int)),
            decreases ds.len() - i,
        {
            assert(ds@.skip(i as int)[0] == ds@[i as int]);
            assert(ds@.skip(i as int).drop_first() =~= ds@.skip(i + 1));
            let d = ds[i];
            if d == GroupDimension::Day || d == GroupDimension::Week || d == GroupDimension::Month {
                return Some(d);
            }
            i += 1;
        }
        assert(ds@.skip(i as int).len() == 0);
        None
    }

    /// Whether the rows are grouped by `dimension`.
    pub fn groups_by(&self, dimension: GroupDimension) -> (r: bool)
        ensures
            r == self.group_by@.contains(dimension),
    {
        let ds = &self.group_by;
        let mut i: usize = 0;
        while i < ds.len()
            invariant
                i <= ds.len(),
                ds@ == self.group_by@,
                forall|k: int| 0 <= k < i ==> ds@[k] != dimension,
            decreases ds.len() - i,
        {
            if ds[i] == dimension {
                assert(ds@[i as int] == dimension);
                return true;
            }
            i += 1;
        }
        false
    }

    /// The local date of an instant (seconds since the epoch): none when the
    /// instant or the time zone is unknown.
    pub fn local_date(&self, at: Option<i64>) -> (r: Result<Option<CivilDate>, FilterError>)
        ensures
            (at is None || self.timezone is None) ==> r matches Ok(None),
            at matches Some(s) ==> (self.timezone is Some ==> match r {
                Ok(Some(d)) => second_in_range(s) && valid_date(d),
                Ok(None) => false,
                Err(e) => !second_in_range(s) && e is Timezone,
            }),
    {
        let second = match at {
            Some(s) => s,
            None => return Ok(None),
        };
        match &self.timezone {
            None => Ok(None),
            Some(tz) => match zoned_date(tz, second) {
                Ok(d) => Ok(Some(d)),
                Err(e) => Err(FilterError::Timezone(e)),
            },
        }
    }

    /// Whether an event at `at` (seconds since the epoch) is inside the date
    /// range: always without a range; never when its local date is unknown;
    /// else as `includes_date` says of its local date.
    pub fn includes(&self, at: Option<i64>) -> (r: Result<bool, FilterError>)
        ensures
            !(self.since is Some || self.through is Some) ==> r matches Ok(true),
            (self.since is Some || self.through is Some) && (at is None || self.timezone is None) ==> r matches Ok(
                false,
            ),
            (self.since is Some || self.through is Some) && self.timezone is Some ==> (at matches Some(s) ==> (
            if second_in_range(s) {
                r matches Ok(b) && exists|d: CivilDate|
                    valid_date(d) && b == #[trigger] includes_date(self.since, self.through, Some(d))
            } else {
                r matches Err(e) && e is Timezone
            })),
    {
        if !self.is_filtered() {
            return Ok(true);
        }
        match self.local_date(at) {
            Err(e) => Err(e),
            Ok(None) => Ok(false),
            Ok(Some(d)) => Ok(includes(self.since, self.through, Some(d))),
        }
    }

    /// Whether a rollout created and last updated at the given instants
    /// (seconds since the epoch) can overlap the range: dates that cannot
    /// be placed never exclude it.
    pub fn retains_rollout(&self, created_at: Option<i64>, updated_at: Option<i64>) -> (r: bool)
        ensures
            exists|created: Option<CivilDate>, updated: Option<CivilDate>|
                placed(self.timezone is Some, created_at, created) && placed(self.timezone is Some, updated_at, updated)
                    && r == #[trigger] retains_dates(self.since, self.through, created, updated),
    {
        let created = match self.local_date(created_at) {
            Ok(d) => d,
            Err(_) => None,
        };
        let updated = match self.local_date(updated_at) {
            Ok(d) => d,
            Err(_) => None,
        };
        let r = retains_rollout(self.since, self.through, created, updated);
        assert(placed(self.timezone is Some, created_at, created) && placed(self.timezone is Some, updated_at, updated));
        assert(r == retains_dates(self.since, self.through, created, updated));
        r
    }

    /// The first day of the calendar period (see `bucket_start_of`) that holds `date`.
    pub fn bucket_start(&self, date: CivilDate) -> (r: Result<CivilDate, FilterError>)
        ensures
            match bucket_start_of(first_time_dimension(self.group_by@), date) {
                Some(d) => r == Ok::<CivilDate, FilterError>(d),
                None => r matches Err(e) && e is Timezone,
            },
            r matches Ok(d) ==> (first_time_dimension(self.group_by@) matches Some(GroupDimension::Week)
                || first_time_dimension(self.group_by@) matches Some(GroupDimension::Month)) ==> valid_date(d),
    {
        match self.time_dimension() {
            Some(GroupDimension::Week) => {
                let offset = match weekday_offset(date) {
                    Ok(k) => k,
                    Err(e) => return Err(FilterError::Timezone(e)),
                };
                match checked_sub_days(date, offset as i64) {
                    Ok(d) => Ok(d),
                    Err(e) => Err(FilterError::Timezone(e)),
                }
            },
            Some(GroupDimension::Month) => match date_new(date.year, date.month, 1) {
                Ok(d) => Ok(d),
                Err(e) => Err(FilterError::Timezone(e)),
            },
            _ => Ok(date),
        }
    }

    /// The start of every calendar period from the one holding `since`
    /// through the one holding `through`, for rows that are shown though
    /// empty; none unless empty rows are asked for with both bounds and a
    /// calendar dimension.
    #[verifier::loop_isolation(false)]
    pub fn empty_bucket_starts(&self) -> (r: Result<Vec<CivilDate>, FilterError>)
        ensures
            match (self.include_empty, self.since, self.through, first_time_dimension(self.group_by@)) {
                (true, Some(since), Some(through), Some(dimension)) => match (
                    bucket_start_of(Some(dimension), since),
                    bucket_start_of(Some(dimension), through),
                ) {
                    (Some(start), Some(end)) => match bucket_walk(dimension, start, end) {
                        Some(starts) => r matches Ok(v) && v@ == starts,
                        None => r matches Err(e) && e is Timezone,
                    },
                    _ => r matches Err(e) && e is Timezone,
                },
                _ => r matches Ok(v) && v@.len() == 0,
            },
    {
        if !self.include_empty {
            return Ok(Vec::new());
        }
        let (since, through, dimension) = match (self.since, self.through, self.time_dimension()) {
            (Some(s), Some(t), Some(d)) => (s, t, d),
            _ => return Ok(Vec::new()),
        };
        let mut current = match self.bucket_start(since) {
            Ok(d) => d,
            Err(e) => return Err(e),
        };
        let end = match self.bucket_start(through) {
            Ok(d) => d,
            Err(e) => return Err(e),
        };
        proof {
            lemma_first_time_dimension(self.group_by@);
        }
        let ghost start = current;
        let mut dates: Vec<CivilDate> = Vec::new();
        while date_on_or_before(current, end)
            invariant
                bucket_walk(dimension, start, end) == (match bucket_walk(dimension, current, end) {
                    Some(rest) => Some(dates@ + rest),
                    None => None,
                }),
            decreases (if date_le(current, end) {
                date_rank(end) - date_rank(current) + 1
            } else {
                0
            }),
        {
            proof {
                lemma_rank_orders(current, end);
            }
            let step = match dimension {
                GroupDimension::Day => tomorrow(current),
                GroupDimension::Week => checked_add(current, CalendarStep::Days(7)),
                _ => checked_add(current, CalendarStep::Months(1)),
            };
            let next = match step {
                Ok(n) => n,
                Err(e) => return Err(FilterError::Timezone(e)),
            };
            proof {
                lemma_rank_orders(current, next);
                lemma_rank_orders(next, end);
                assert(next_bucket(dimension, current) == Some(next));
                let ghost before = dates@;
                assert(bucket_walk(dimension, current, end) == match bucket_walk(dimension, next, end) {
                    Some(rest) => Some(seq![current] + rest),
                    None => None::<Seq<CivilDate>>,
                });
                if let Some(rest) = bucket_walk(dimension, next, end) {
                    assert(before + (seq![current] + rest) =~= before.push(current) + rest);
                }
            }
            dates.push(current);
            current = next;
        }
        proof {
            assert(dates@ + Seq::<CivilDate>::empty() =~= dates@);
        }
        Ok(dates)
    }
}

/// An event passes a date range exactly when no bound is set, or its local
/// date is known and lies on or after `since` and on or before `through`, in
/// calendar order (compared by `date_rank`).
pub open spec fn in_date_range(since: Option<CivilDate>, through: Option<CivilDate>, date: Option<CivilDate>) -> bool {
    (since is None && through is None) || (date matches Some(d) && (since matches Some(s) ==> date_rank(s)
        <= date_rank(d)) && (through matches Some(t) ==> date_rank(d) <= date_rank(t)))
}

/// The range test keeps exactly the dates between its bounds: an event on
/// day `d` passes `--through t` alone exactly when `d` is not after `t`,
/// passes `--since s` alone exactly when `d` is not before `s`, and an event
/// without a known date passes only when no bound is set.
pub proof fn lemma_range_bounds(since: Option<CivilDate>, through: Option<CivilDate>, date: Option<CivilDate>)
    ensures
        includes_date(since, through, date) == in_date_range(since, through, date),
        forall|t: CivilDate, d: CivilDate|
            #[trigger] includes_date(None, Some(t), Some(d)) <==> date_rank(d) <= date_rank(t),
        forall|s: CivilDate, d: CivilDate|
            #[trigger] includes_date(Some(s), None, Some(d)) <==> date_rank(s) <= date_rank(d),
        forall|t: CivilDate| #[trigger] includes_date(None, Some(t), Some(t)),
        forall|s: Option<CivilDate>, t: Option<CivilDate>|
            #[trigger] includes_date(s, t, None) <==> (s is None && t is None),
{
    if let Some(d) = date {
        if let Some(s) = since {
            lemma_rank_orders(s, d);
        }
        if let Some(t) = through {
            lemma_rank_orders(d, t);
        }
    }
    assert forall|t: CivilDate, d: CivilDate|
        #[trigger] includes_date(None, Some(t), Some(d)) <==> date_rank(d) <= date_rank(t) by {
        lemma_rank_orders(d, t);
    }
    assert forall|s: CivilDate, d: CivilDate|
        #[trigger] includes_date(Some(s), None, Some(d)) <==> date_rank(s) <= date_rank(d) by {
        lemma_rank_orders(s, d);
    }
    assert forall|t: CivilDate| #[trigger] includes_date(None, Some(t), Some(t)) by {
        lemma_rank_orders(t, t);
    }
}

} // verus!
