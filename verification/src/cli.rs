//! Validation of command-line values.
use vstd::prelude::*;

use crate::session::{parse_rfc3339, rfc3339_nanos};
use crate::platform::runtime_text;
use crate::text::{chars_of, decimal, digit_char, digit_value, is_digit};
use crate::update::{nanos_in_range, now_utc_nanos};
use crate::title::{all_digits, parse_metric_list, MetricList, TitleError};

verus! {

/// The value of a run of ASCII digits.
pub open spec fn digits_value(s: Seq<char>) -> nat
    decreases s.len(),
{
    if s.len() == 0 {
        0
    } else {
        digits_value(s.drop_last()) * 10 + digit_value(s.last())
    }
}

/// `s` without one leading `+`.
pub open spec fn unsigned_digits(s: Seq<char>) -> Seq<char> {
    if s.len() > 0 && s[0] == '+' {
        s.drop_first()
    } else {
        s
    }
}

/// What `u64::from_str` accepts: an optional `+` and one or more ASCII digits
/// whose value fits in 64 bits.
pub open spec fn parsed_u64(s: Seq<char>) -> Option<nat> {
    let digits = unsigned_digits(s);
    if digits.len() > 0 && all_digits(digits) && digits_value(digits) <= u64::MAX {
        Some(digits_value(digits))
    } else {
        None
    }
}

proof fn lemma_digits_value_grows(s: Seq<char>, k: int)
    requires
        0 <= k <= s.len(),
        forall|i: int| 0 <= i < s.len() ==> is_digit(#[trigger] s[i]),
    ensures
        digits_value(s.take(k)) <= digits_value(s),
    decreases s.len() - k,
{
    if k < s.len() {
        lemma_digits_value_grows(s, k + 1);
        assert(s.take(k + 1).drop_last() =~= s.take(k));
    } else {
        assert(s.take(k) =~= s);
    }
}

/// Parses a decimal `u64` as `str::parse` does.
#[verifier::loop_isolation(false)]
pub fn parse_u64(value: &str) -> (r: Option<u64>)
    ensures
        match (r, parsed_u64(value@)) {
            (Some(n), Some(m)) => n as nat == m,
            (None, None) => true,
            _ => false,
        },
{
    let v = chars_of(value);
    let start: usize = if v.len() > 0 && v[0] == '+' {
        1
    } else {
        0
    };
    let ghost digits = unsigned_digits(value@);
    assert(digits =~= v@.skip(start as int));
    if start == v.len() {
        return None;
    }
    let mut total: u64 = 0;
    let mut i = start;
    while i < v.len()
        invariant
            start <= i <= v.len(),
            v@ == value@,
            digits == v@.skip(start as int),
            forall|j: int| start <= j < i ==> is_digit(#[trigger] v@[j]),
            total as nat == digits_value(v@.subrange(start as int, i as int)),
        decreases v.len() - i,
    {
        let c = v[i];
        if !('0' <= c && c <= '9') {
            assert(digits[i - start] == v@[i as int]);
            assert(!is_digit(digits[i - start]));
            return None;
        }
        let d = (c as u32 - 48) as u64;
        assert(v@.subrange(start as int, i + 1).drop_last() =~= v@.subrange(start as int, i as int));
        let next = match total.checked_mul(10) {
            Some(t) => t.checked_add(d),
            None => None,
        };
        match next {
            Some(t) => {
                total = t;
            },
            None => {
                proof {
                    assert(total as nat * 10 + d > u64::MAX);
                    if all_digits(digits) {
                        lemma_digits_value_grows(digits, i + 1 - start);
                        assert(digits.take(i + 1 - start) =~= v@.subrange(start as int, i + 1));
                    }
                }
                return None;
            },
        }
        i += 1;
    }
    assert(v@.subrange(start as int, v.len() as int) =~= digits);
    Some(total)
}

/// The error text for a value that is not a positive integer.
pub open spec fn not_positive_message() -> Seq<char> {
    "must be a positive integer"@
}

/// Parses a positive integer option value such as `--idle-minutes`.
pub fn parse_positive_u64(value: &str) -> (r: Result<u64, String>)
    ensures
        match r {
            Ok(n) => parsed_u64(value@) == Some(n as nat) && n > 0,
            Err(e) => e@ == not_positive_message() && !(parsed_u64(value@) matches Some(n)
                && n > 0),
        },
{
    match parse_u64(value) {
        Some(n) => if n > 0 {
            Ok(n)
        } else {
            Err(String::from_str("must be a positive integer"))
        },
        None => Err(String::from_str("must be a positive integer")),
    }
}

/// Parses a positive `usize` option value such as `--limit` or `--max-width`.
pub fn parse_positive_usize(value: &str) -> (r: Result<usize, String>)
    ensures
        match r {
            Ok(n) => parsed_u64(value@) == Some(n as nat) && n > 0,
            Err(e) => e@ == not_positive_message() && !(parsed_u64(value@) matches Some(n)
                && n > 0 && n <= usize::MAX),
        },
{
    match parse_u64(value) {
        Some(n) => if n > 0 && n <= usize::MAX as u64 {
            Ok(n as usize)
        } else {
            Err(String::from_str("must be a positive integer"))
        },
        None => Err(String::from_str("must be a positive integer")),
    }
}

/// The seconds a runtime text names: a positive number of seconds, or of
/// minutes with an `m` suffix, when the seconds fit in 64 bits.
pub open spec fn runtime_seconds(s: Seq<char>) -> Option<nat> {
    let minutes = s.len() > 0 && s.last() == 'm';
    let number = if minutes {
        s.drop_last()
    } else {
        s
    };
    let multiplier: nat = if minutes {
        60
    } else {
        1
    };
    match parsed_u64(number) {
        Some(n) if n > 0 && n * multiplier <= u64::MAX => Some(n * multiplier),
        _ => None,
    }
}

/// Parses a runtime: a positive number of seconds, or of minutes with an `m`
/// suffix. The result is in seconds.
pub fn parse_runtime(value: &str) -> (r: Result<u64, String>)
    ensures
        match runtime_seconds(value@) {
            Some(x) => r == Ok::<u64, String>(x as u64),
            None => r is Err,
        },
        ({
            let minutes = value@.len() > 0 && value@.last() == 'm';
            let number = if minutes {
                value@.drop_last()
            } else {
                value@
            };
            let multiplier: nat = if minutes {
                60
            } else {
                1
            };
            match parsed_u64(number) {
                Some(n) if n > 0 => if n * multiplier <= u64::MAX {
                    r == Ok::<u64, String>((n * multiplier) as u64)
                } else {
                    r matches Err(e) && e@ == "runtime is too large"@
                },
                _ => r matches Err(e) && e@ == not_positive_message(),
            }
        }),
{
    let v = chars_of(value);
    let n = v.len();
    let minutes = n > 0 && v[n - 1] == 'm';
    let number_chars = if minutes {
        crate::text::slice_chars(&v, 0, n - 1)
    } else {
        crate::text::slice_chars(&v, 0, n)
    };
    assert(minutes ==> number_chars@ =~= value@.drop_last());
    assert(!minutes ==> number_chars@ =~= value@);
    let number = crate::text::string_of(&number_chars);
    let multiplier: u64 = if minutes {
        60
    } else {
        1
    };
    match parse_positive_u64(number.as_str()) {
        Ok(count) => match count.checked_mul(multiplier) {
            Some(seconds) => Ok(seconds),
            None => Err(String::from_str("runtime is too large")),
        },
        Err(e) => Err(e),
    }
}

/// Parses a `--title-metrics` value, reporting failures as their message.
pub fn parse_metrics(value: &str) -> (r: Result<MetricList, String>)
    ensures
        match (r, parse_metric_list(value@)) {
            (Ok(list), Ok(metrics)) => list@ == metrics,
            (Err(e), Err(f)) => e@ == crate::title::failure_message(f),
            _ => false,
        },
{
    match MetricList::from_str(value) {
        Ok(list) => Ok(list),
        Err(error) => Err(error.message()),
    }
}

/// Checks a `--title-metrics` value and keeps its text.
pub fn parse_metric_text(value: &str) -> (r: Result<String, String>)
    ensures
        match (r, parse_metric_list(value@)) {
            (Ok(text), Ok(_)) => text@ == value@,
            (Err(e), Err(f)) => e@ == crate::title::failure_message(f),
            _ => false,
        },
{
    match parse_metrics(value) {
        Ok(_) => Ok(value.to_owned()),
        Err(e) => Err(e),
    }
}

/// An ASCII control byte: 0x00 through 0x1F, and 0x7F.
pub open spec fn is_ascii_control_byte(b: u8) -> bool {
    b < 0x20 || b == 0x7f
}

/// Whether any of the command-line arguments holds an ASCII control byte;
/// such a command line is refused before it is parsed.
pub fn has_control_byte(arguments: &[Vec<u8>]) -> (r: bool)
    ensures
        r == exists|i: int, j: int|
            0 <= i < arguments.len() && 0 <= j < arguments@[i]@.len() && #[trigger] is_ascii_control_byte(
                arguments@[i]@[j],
            ),
{
    let mut i: usize = 0;
    while i < arguments.len()
        invariant
            i <= arguments.len(),
            forall|a: int, b: int|
                0 <= a < i && 0 <= b < arguments@[a]@.len() ==> !#[trigger] is_ascii_control_byte(
                    arguments@[a]@[b],
                ),
        decreases arguments.len() - i,
    {
        let bytes = &arguments[i];
        let mut j: usize = 0;
        while j < bytes.len()
            invariant
                i < arguments.len(),
                bytes@ == arguments@[i as int]@,
                j <= bytes.len(),
                forall|a: int, b: int|
                    0 <= a < i && 0 <= b < arguments@[a]@.len() ==> !#[trigger] is_ascii_control_byte(
                        arguments@[a]@[b],
                    ),
                forall|b: int| 0 <= b < j ==> !#[trigger] is_ascii_control_byte(bytes@[b]),
            decreases bytes.len() - j,
        {
            if bytes[j] < 0x20 || bytes[j] == 0x7f {
                assert(is_ascii_control_byte(arguments@[i as int]@[j as int]));
                return true;
            }
            j += 1;
        }
        proof {
            assert forall|a: int, b: int|
                0 <= a < i + 1 && 0 <= b < arguments@[a]@.len() implies !#[trigger] is_ascii_control_byte(
                arguments@[a]@[b],
            ) by {
                if a == i {
                    assert(!is_ascii_control_byte(bytes@[b]));
                }
            }
        }
        i += 1;
    }
    false
}

/// What `time::Date::parse(s, "[year]-[month]-[day]")` reads, taken as the
/// instant of that date's midnight in UTC (nanoseconds since the epoch).
pub uninterp spec fn iso_midnight_nanos(s: Seq<char>) -> Option<i128>;

/// `time::Date::parse` with the format `[year]-[month]-[day]`, then
/// midnight of that date in UTC as nanoseconds since the epoch; the result
/// is named by `iso_midnight_nanos` and lies within the representable dates.
#[verifier::external_body]
fn date_midnight_utc(value: &str) -> (r: Option<i128>)
    ensures
        r == iso_midnight_nanos(value@),
        r matches Some(n) ==> nanos_in_range(n),
{
    let format = time::format_description::parse_borrowed::<2>("[year]-[month]-[day]").ok()?;
    let date = time::Date::parse(value, &format).ok()?;
    Some(date.with_time(time::Time::MIDNIGHT).assume_utc().unix_timestamp_nanos())
}

/// The instant a `--reprice-before` value names: an RFC 3339 timestamp, or
/// else the midnight (UTC) that starts an ISO date.
pub open spec fn reprice_instant(s: Seq<char>) -> Option<i128> {
    match rfc3339_nanos(s) {
        Some(n) => Some(n),
        None => iso_midnight_nanos(s),
    }
}

/// The error text for a value that names no instant.
pub open spec fn not_an_instant_message() -> Seq<char> {
    "must be an ISO date or RFC 3339 timestamp with a timezone"@
}

/// Reads a `--reprice-before` value given the current time `now`
/// (nanoseconds since the epoch): the instant it names, refused when it
/// names none or lies after `now`.
pub fn reprice_before_at(value: &str, now: i128) -> (r: Result<i128, String>)
    ensures
        match reprice_instant(value@) {
            None => r matches Err(e) && e@ == not_an_instant_message(),
            Some(t) => if t > now {
                r matches Err(e) && e@ == "cannot be in the future"@
            } else {
                r == Ok::<i128, String>(t)
            },
        },
{
    let instant = match parse_rfc3339(value) {
        Some(n) => n,
        None => match date_midnight_utc(value) {
            Some(n) => n,
            None => return Err(String::from_str("must be an ISO date or RFC 3339 timestamp with a timezone")),
        },
    };
    if instant > now {
        return Err(String::from_str("cannot be in the future"));
    }
    Ok(instant)
}

/// Reads a `--reprice-before` value against the system clock (see
/// `reprice_before_at`): a value that names no instant is always refused;
/// one that names an instant is accepted as that instant or refused as
/// being in the future.
pub fn parse_reprice_before(value: &str) -> (r: Result<i128, String>)
    ensures
        match reprice_instant(value@) {
            None => r matches Err(e) && e@ == not_an_instant_message(),
            Some(t) => match r {
                Ok(n) => n == t,
                Err(e) => e@ == "cannot be in the future"@,
            },
        },
{
    reprice_before_at(value, now_utc_nanos())
}

proof fn lemma_digits_value_of_decimal(n: nat)
    ensures
        all_digits(decimal(n)),
        digits_value(decimal(n)) == n,
        decimal(n).len() > 0 && decimal(n)[0] != '+',
    decreases n,
{
    crate::title_laws::lemma_decimal(n);
    if n < 10 {
        crate::title_laws::lemma_digit_char(n);
        assert(decimal(n).drop_last() =~= Seq::<char>::empty());
        assert(digit_value(decimal(n).last()) == n);
        assert(digits_value(Seq::<char>::empty()) == 0);
    } else {
        lemma_digits_value_of_decimal(n / 10);
        crate::title_laws::lemma_digit_char(n % 10);
        assert(decimal(n).drop_last() =~= decimal(n / 10));
        assert(decimal(n).last() == digit_char(n % 10));
        assert(digit_value(digit_char(n % 10)) == n % 10);
        assert(n == (n / 10) * 10 + n % 10) by (nonlinear_arith);
    }
}

/// A runtime written as a `--max-runtime` argument reads back as the same
/// number of seconds.
pub proof fn lemma_runtime_round_trip(seconds: u64)
    requires
        seconds >= 1,
    ensures
        runtime_seconds(runtime_text(seconds as nat)) == Some(seconds as nat),
{
    let t = runtime_text(seconds as nat);
    if seconds % 60 == 0 {
        let m = (seconds / 60) as nat;
        lemma_digits_value_of_decimal(m);
        assert(t.drop_last() =~= decimal(m));
        assert(m * 60 == seconds);
    } else {
        lemma_digits_value_of_decimal(seconds as nat);
        crate::title_laws::lemma_decimal(seconds as nat);
        assert(is_digit(t[t.len() - 1]));
    }
}

} // verus!
