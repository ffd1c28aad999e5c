//! Title metric lists, the canonical metric suffix, and bounded title composition.
use vstd::prelude::*;

use crate::text::{
    chars_are, chars_of, slice_chars, decimal, digit, digit_char, grouped, is_digit, push_decimal, push_grouped,
    string_of,
};
use crate::text::{extend_chars, trim_end_len, trim_end_spec};
use crate::words::{char_pred, join, lemma_join_push, pieces_by, split_on};

verus! {

/// One usage figure that a task title can carry.
#[derive(Clone, Copy, Debug, PartialEq, Eq, Structural)]
pub enum Metric {
    Cost,
    TotalTokens,
    InputTokens,
    OutputTokens,
}

/// The ordered, duplicate-free metrics of a title suffix; never empty.
#[derive(Debug)]
pub struct MetricList(Vec<Metric>);

impl View for MetricList {
    type V = Seq<Metric>;

    closed spec fn view(&self) -> Seq<Metric> {
        self.0@
    }
}

impl MetricList {
    /// The metrics, in order.
    pub fn metrics(&self) -> (r: &Vec<Metric>)
        ensures
            r@ == self@,
            r@.len() >= 1,
    {
        proof {
            use_type_invariant(self);
        }
        &self.0
    }

    /// A metric list always names at least one metric.
    #[verifier::type_invariant]
    spec fn has_a_metric(self) -> bool {
        self.0.len() >= 1
    }
}

impl Clone for MetricList {
    fn clone(&self) -> (r: MetricList)
        ensures
            r@ == self@,
    {
        proof {
            use_type_invariant(self);
        }
        let mut v: Vec<Metric> = Vec::new();
        let mut i: usize = 0;
        while i < self.0.len()
            invariant
                i <= self.0.len(),
                v@ == self.0@.take(i as int),
            decreases self.0.len() - i,
        {
            v.push(self.0[i]);
            assert(self.0@.take(i + 1) =~= self.0@.take(i as int).push(self.0@[i as int]));
            i += 1;
        }
        assert(self.0@.take(self.0.len() as int) =~= self.0@);
        MetricList(v)
    }
}

/// Why a metric list or a title could not be made.
#[derive(Debug)]
pub enum TitleError {
    EmptyMetrics,
    CombinedAll,
    DuplicateMetric,
    UnknownMetric(String),
    TooNarrow,
}

/// The abstract value of a `TitleError`.
pub enum TitleFailure {
    EmptyMetrics,
    CombinedAll,
    DuplicateMetric,
    UnknownMetric(Seq<char>),
    TooNarrow,
}

impl View for TitleError {
    type V = TitleFailure;

    open spec fn view(&self) -> TitleFailure {
        match self {
            TitleError::EmptyMetrics => TitleFailure::EmptyMetrics,
            TitleError::CombinedAll => TitleFailure::CombinedAll,
            TitleError::DuplicateMetric => TitleFailure::DuplicateMetric,
            TitleError::UnknownMetric(name) => TitleFailure::UnknownMetric(name@),
            TitleError::TooNarrow => TitleFailure::TooNarrow,
        }
    }
}

/// The user-facing text of each failure.
pub open spec fn failure_message(f: TitleFailure) -> Seq<char> {
    match f {
        TitleFailure::EmptyMetrics => "title metrics cannot be empty"@,
        TitleFailure::CombinedAll => "all cannot be combined"@,
        TitleFailure::DuplicateMetric => "duplicate title metric"@,
        TitleFailure::UnknownMetric(name) => "unknown title metric: "@ + name,
        TitleFailure::TooNarrow => "title width cannot fit a visible base and metric suffix"@,
    }
}

impl TitleError {
    /// The message shown for this error.
    pub fn message(&self) -> (r: String)
        ensures
            r@ == failure_message(self@),
    {
        match self {
            TitleError::EmptyMetrics => String::from_str("title metrics cannot be empty"),
            TitleError::CombinedAll => String::from_str("all cannot be combined"),
            TitleError::DuplicateMetric => String::from_str("duplicate title metric"),
            TitleError::UnknownMetric(name) => {
                let mut r = String::from_str("unknown title metric: ");
                r.append(name.as_str());
                r
            },
            TitleError::TooNarrow => String::from_str(
                "title width cannot fit a visible base and metric suffix",
            ),
        }
    }
}

/// The metric a list entry names, if any.
pub open spec fn metric_named(name: Seq<char>) -> Option<Metric> {
    if name == "cost"@ {
        Some(Metric::Cost)
    } else if name == "total-tokens"@ {
        Some(Metric::TotalTokens)
    } else if name == "input-tokens"@ {
        Some(Metric::InputTokens)
    } else if name == "output-tokens"@ {
        Some(Metric::OutputTokens)
    } else {
        None
    }
}

/// Every metric, in the order that `all` selects them.
pub open spec fn all_metrics() -> Seq<Metric> {
    seq![Metric::Cost, Metric::TotalTokens, Metric::InputTokens, Metric::OutputTokens]
}

/// One entry of a comma-separated metric list applied to the metrics read so far.
pub open spec fn parse_step(
    value: Seq<char>,
    so_far: Result<Seq<Metric>, TitleFailure>,
    name: Seq<char>,
) -> Result<Seq<Metric>, TitleFailure> {
    match so_far {
        Err(e) => Err(e),
        Ok(metrics) => if name == "all"@ {
            if value == "all"@ {
                Ok(all_metrics())
            } else {
                Err(TitleFailure::CombinedAll)
            }
        } else {
            match metric_named(name) {
                None => Err(TitleFailure::UnknownMetric(name)),
                Some(m) => if metrics.contains(m) {
                    Err(TitleFailure::DuplicateMetric)
                } else {
                    Ok(metrics.push(m))
                },
            }
        },
    }
}

/// The entries `names` read in order.
pub open spec fn parse_names(value: Seq<char>, names: Seq<Seq<char>>) -> Result<
    Seq<Metric>,
    TitleFailure,
>
    decreases names.len(),
{
    if names.len() == 0 {
        Ok(Seq::empty())
    } else {
        parse_step(value, parse_names(value, names.drop_last()), names.last())
    }
}

/// The metric list that a `--title-metrics` value denotes.
pub open spec fn parse_metric_list(value: Seq<char>) -> Result<Seq<Metric>, TitleFailure> {
    if value.len() == 0 {
        Err(TitleFailure::EmptyMetrics)
    } else {
        parse_names(value, pieces_by(value, char_pred(',')))
    }
}

fn metric_of(name: &[char]) -> (r: Option<Metric>)
    ensures
        r == metric_named(name@),
{
    if chars_are(name, "cost") {
        Some(Metric::Cost)
    } else if chars_are(name, "total-tokens") {
        Some(Metric::TotalTokens)
    } else if chars_are(name, "input-tokens") {
        Some(Metric::InputTokens)
    } else if chars_are(name, "output-tokens") {
        Some(Metric::OutputTokens)
    } else {
        None
    }
}

fn contains_metric(metrics: &Vec<Metric>, m: Metric) -> (r: bool)
    ensures
        r == metrics@.contains(m),
{
    let mut i: usize = 0;
    while i < metrics.len()
        invariant
            i <= metrics.len(),
            forall|j: int| 0 <= j < i ==> metrics@[j] != m,
        decreases metrics.len() - i,
    {
        if metrics[i] == m {
            assert(metrics@[i as int] == m);
            return true;
        }
        i += 1;
    }
    false
}

impl MetricList {
    /// The default suffix: cost, then total tokens.
    pub fn default_list() -> (r: MetricList)
        ensures
            r@ == seq![Metric::Cost, Metric::TotalTokens],
    {
        let mut v = Vec::new();
        v.push(Metric::Cost);
        v.push(Metric::TotalTokens);
        MetricList(v)
    }

    /// Parses a comma-separated metric list such as `cost,total-tokens` or `all`.
    pub fn from_str(value: &str) -> (r: Result<MetricList, TitleError>)
        ensures
            match (r, parse_metric_list(value@)) {
                (Ok(list), Ok(metrics)) => list@ == metrics,
                (Err(e), Err(f)) => e@ == f,
                _ => false,
            },
    {
        let chars = chars_of(value);
        if chars.len() == 0 {
            return Err(TitleError::EmptyMetrics);
        }
        let is_all = chars_are(&chars, "all");
        let names = split_on(&chars, ',');
        let ghost all_names = pieces_by(value@, char_pred(','));
        let mut metrics: Vec<Metric> = Vec::new();
        let mut i: usize = 0;
        while i < names.len()
            invariant
                i <= names.len(),
                names.len() == all_names.len(),
                forall|j: int| 0 <= j < names.len() ==> #[trigger] names@[j]@ == all_names[j],
                is_all == (value@ == "all"@),
                value@.len() > 0,
                all_names == pieces_by(value@, char_pred(',')),
                parse_names(value@, all_names.take(i as int)) == Ok::<
                    Seq<Metric>,
                    TitleFailure,
                >(metrics@),
            decreases names.len() - i,
        {
            let name = &names[i];
            assert(all_names.take(i + 1).drop_last() =~= all_names.take(i as int));
            assert(all_names.take(i + 1).last() == name@);
            if chars_are(name, "all") {
                if is_all {
                    let mut all = Vec::new();
                    all.push(Metric::Cost);
                    all.push(Metric::TotalTokens);
                    all.push(Metric::InputTokens);
                    all.push(Metric::OutputTokens);
                    proof {
                        lemma_all_is_single(value@);
                        assert(all_names.len() == 1);
                        assert(i == 0);
                        assert(all_names.take(1) =~= all_names);
                        assert(all@ =~= all_metrics());
                    }
                    return Ok(MetricList(all));
                }
                proof {
                    lemma_error_persists(value@, all_names, i as int + 1);
                }
                return Err(TitleError::CombinedAll);
            }
            match metric_of(name) {
                None => {
                    proof {
                        lemma_error_persists(value@, all_names, i as int + 1);
                    }
                    return Err(TitleError::UnknownMetric(string_of(name)));
                },
                Some(m) => {
                    if contains_metric(&metrics, m) {
                        proof {
                            lemma_error_persists(value@, all_names, i as int + 1);
                        }
                        return Err(TitleError::DuplicateMetric);
                    }
                    metrics.push(m);
                },
            }
            i += 1;
        }
        assert(all_names.take(names.len() as int) =~= all_names);
        Ok(MetricList(metrics))
    }
}

proof fn lemma_error_persists(value: Seq<char>, names: Seq<Seq<char>>, k: int)
    requires
        0 <= k <= names.len(),
        parse_names(value, names.take(k)) is Err,
    ensures
        parse_names(value, names) == parse_names(value, names.take(k)),
    decreases names.len() - k,
{
    if k < names.len() {
        assert(names.take(k + 1).drop_last() =~= names.take(k));
        lemma_error_persists(value, names, k + 1);
    } else {
        assert(names.take(k) =~= names);
    }
}

proof fn lemma_all_is_single(value: Seq<char>)
    requires
        value == "all"@,
    ensures
        pieces_by(value, char_pred(',')).len() == 1,
{
    reveal_strlit("all");
    let p = char_pred(',');
    assert(value.drop_last().drop_last().drop_last() =~= Seq::<char>::empty());
    assert(pieces_by(value.drop_last().drop_last().drop_last(), p).len() == 1);
    assert(pieces_by(value.drop_last().drop_last(), p).len() == 1);
    assert(pieces_by(value.drop_last(), p).len() == 1);
}

/// The unit letter of a scaling level: thousands, millions, billions.
pub open spec fn unit_of(level: nat) -> char {
    if level == 0 {
        'K'
    } else if level == 1 {
        'M'
    } else {
        'B'
    }
}

/// The divisor of a scaling level.
pub open spec fn divisor_of(level: nat) -> nat {
    if level == 0 {
        1_000
    } else if level == 1 {
        1_000_000
    } else {
        1_000_000_000
    }
}

/// `tokens` in tenths of the level's unit, rounded half up.
pub open spec fn tenths_of(tokens: nat, level: nat) -> nat {
    (tokens * 10 + divisor_of(level) / 2) / divisor_of(level)
}

/// A token count scaled to one decimal place of K, M or B, moving to the next
/// unit when the value would reach 1000 of the current one (B never moves on).
pub open spec fn scaled(tokens: nat, level: nat) -> Seq<char>
    decreases 2 - level,
{
    let tenths = tenths_of(tokens, level);
    if tenths >= 10_000 && level < 2 {
        scaled(tokens, level + 1)
    } else {
        let whole = tenths / 10;
        let decimal_part = tenths % 10;
        decimal(whole) + (if decimal_part == 0 {
            Seq::<char>::empty()
        } else {
            seq!['.', digit_char(decimal_part)]
        }) + seq![unit_of(level)]
    }
}

/// The compact rendering of a token count: exact below 1000, else scaled.
pub open spec fn compact(tokens: nat) -> Seq<char> {
    if tokens < 1_000 {
        decimal(tokens)
    } else if tokens >= 1_000_000_000 {
        scaled(tokens, 2)
    } else if tokens >= 1_000_000 {
        scaled(tokens, 1)
    } else {
        scaled(tokens, 0)
    }
}

/// A rounded cost in cents as `$1,234.56`, with `+` when the estimate is incomplete.
pub open spec fn cost_text(cents: nat, incomplete: bool) -> Seq<char> {
    seq!['$'] + grouped(cents / 100) + seq!['.', digit_char((cents % 100) / 10), digit_char(
        cents % 10,
    )] + (if incomplete {
        seq!['+']
    } else {
        Seq::<char>::empty()
    })
}

fn level_of(unit: char) -> (level: u64)
    requires
        unit == 'K' || unit == 'M' || unit == 'B',
    ensures
        level <= 2,
        unit_of(level as nat) == unit,
{
    if unit == 'K' {
        0
    } else if unit == 'M' {
        1
    } else {
        2
    }
}

/// How many more units a scaled rendering can move on to: K to M to B,
/// any other unit straight to B, and B no further.
pub open spec fn unit_rank(unit: char) -> nat {
    if unit == 'K' {
        2
    } else if unit == 'B' {
        0
    } else {
        1
    }
}

/// The unit after `unit`.
pub open spec fn next_unit(unit: char) -> char {
    if unit == 'K' {
        'M'
    } else {
        'B'
    }
}

/// `tokens` in tenths of a unit worth `divisor` tokens, rounded half up.
pub open spec fn tenths_by(tokens: nat, divisor: nat) -> nat {
    (tokens * 10 + divisor / 2) / divisor
}

/// `tokens` scaled to one decimal place of a unit worth `divisor` tokens,
/// moving to the next unit (worth a thousand times more) while the value
/// would reach 1000 and the unit is not B; a zero decimal is dropped.
pub open spec fn scaled_by(tokens: nat, divisor: nat, unit: char) -> Seq<char>
    decreases unit_rank(unit),
{
    let tenths = tenths_by(tokens, divisor);
    if tenths >= 10_000 && unit != 'B' {
        scaled_by(tokens, divisor * 1000, next_unit(unit))
    } else {
        decimal(tenths / 10) + (if tenths % 10 == 0 {
            Seq::<char>::empty()
        } else {
            seq!['.', digit_char(tenths % 10)]
        }) + seq![unit]
    }
}

/// Each move to the next unit keeps the divisor within 64 bits.
pub open spec fn scaling_fits(tokens: nat, divisor: nat, unit: char) -> bool
    decreases unit_rank(unit),
{
    tenths_by(tokens, divisor) >= 10_000 && unit != 'B' ==> divisor * 1000 <= u64::MAX && scaling_fits(
        tokens,
        divisor * 1000,
        next_unit(unit),
    )
}

/// The K, M and B levels are the scaling of `scaled_by` from a thousand.
pub proof fn lemma_scaled_levels(tokens: nat, level: nat)
    requires
        level <= 2,
    ensures
        scaled_by(tokens, divisor_of(level), unit_of(level)) == scaled(tokens, level),
        scaling_fits(tokens, divisor_of(level), unit_of(level)),
    decreases 2 - level,
{
    if level < 2 {
        lemma_scaled_levels(tokens, level + 1);
        assert(divisor_of(level) * 1000 == divisor_of(level + 1));
        assert(next_unit(unit_of(level)) == unit_of(level + 1));
    }
}

/// Renders `tokens` in a unit worth `divisor` tokens (1000 for K, a million
/// for M, a billion for B), one decimal place, dropping a zero decimal, and
/// moving to the next unit where the value would reach 1000 (see `scaled_by`).
pub fn format_scaled(tokens: u64, divisor: u64, unit: char) -> (r: String)
    requires
        divisor > 0,
        scaling_fits(tokens as nat, divisor as nat, unit),
    ensures
        r@ == scaled_by(tokens as nat, divisor as nat, unit),
    decreases unit_rank(unit),
{
    let d: u128 = divisor as u128;
    let t: u128 = tokens as u128;
    let tenths: u128 = (t * 10 + d / 2) / d;
    assert(tenths == tenths_by(tokens as nat, divisor as nat));
    if tenths >= 10_000 && unit != 'B' {
        let next = if unit == 'K' {
            'M'
        } else {
            'B'
        };
        return format_scaled(tokens, divisor * 1000, next);
    }
    proof {
        let ti: int = t as int;
        let di: int = d as int;
        let q: int = tenths as int;
        assert(q == (ti * 10 + di / 2) / di);
        assert(q <= ti * 10) by (nonlinear_arith)
            requires
                di >= 1,
                ti >= 0,
                q == (ti * 10 + di / 2) / di,
        ;
    }
    let whole: u64 = (tenths / 10) as u64;
    let decimal_part: u64 = (tenths % 10) as u64;
    let mut out: Vec<char> = Vec::new();
    push_decimal(&mut out, whole);
    if decimal_part != 0 {
        out.push('.');
        out.push(digit(decimal_part));
    }
    out.push(unit);
    assert(out@ =~= scaled_by(tokens as nat, divisor as nat, unit));
    string_of(&out)
}

fn push_scaled(out: &mut Vec<char>, tokens: u64, level: u64)
    requires
        level <= 2,
    ensures
        final(out)@ == old(out)@ + scaled(tokens as nat, level as nat),
    decreases 2 - level,
{
    let divisor: u128 = if level == 0 {
        1_000
    } else if level == 1 {
        1_000_000
    } else {
        1_000_000_000
    };
    let tenths: u128 = ((tokens as u128) * 10 + divisor / 2) / divisor;
    assert(tenths == tenths_of(tokens as nat, level as nat));
    if tenths >= 10_000 && level < 2 {
        push_scaled(out, tokens, level + 1);
    } else {
        assert(tenths <= (u64::MAX as u128) * 10);
        let whole: u64 = (tenths / 10) as u64;
        let decimal_part: u64 = (tenths % 10) as u64;
        push_decimal(out, whole);
        let ghost mid = out@;
        if decimal_part != 0 {
            out.push('.');
            out.push(digit(decimal_part));
        }
        let unit = if level == 0 {
            'K'
        } else if level == 1 {
            'M'
        } else {
            'B'
        };
        out.push(unit);
        assert(out@ =~= old(out)@ + scaled(tokens as nat, level as nat));
    }
}

/// Appends the compact rendering of a token count.
pub fn push_compact(out: &mut Vec<char>, tokens: u64)
    ensures
        final(out)@ == old(out)@ + compact(tokens as nat),
{
    if tokens < 1_000 {
        push_decimal(out, tokens);
    } else if tokens >= 1_000_000_000 {
        push_scaled(out, tokens, 2);
    } else if tokens >= 1_000_000 {
        push_scaled(out, tokens, 1);
    } else {
        push_scaled(out, tokens, 0);
    }
}

/// The compact rendering of a token count, such as `999`, `1.4M` or `15.1B`.
pub fn compact_tokens(tokens: u64) -> (r: String)
    ensures
        r@ == compact(tokens as nat),
{
    let mut v: Vec<char> = Vec::new();
    push_compact(&mut v, tokens);
    string_of(&v)
}

/// A token count behind its metric marker, such as `⇄1.4M`.
pub fn format_tokens(tokens: u64, prefix: char) -> (r: String)
    ensures
        r@ == seq![prefix] + compact(tokens as nat),
{
    let mut v: Vec<char> = Vec::new();
    v.push(prefix);
    push_compact(&mut v, tokens);
    string_of(&v)
}

/// Appends the rendering of a cost in cents.
pub fn push_cost(out: &mut Vec<char>, cents: u64, incomplete: bool)
    ensures
        final(out)@ == old(out)@ + cost_text(cents as nat, incomplete),
{
    out.push('$');
    push_grouped(out, cents / 100);
    out.push('.');
    out.push(digit((cents % 100) / 10));
    out.push(digit(cents % 10));
    if incomplete {
        out.push('+');
    }
    assert(out@ =~= old(out)@ + cost_text(cents as nat, incomplete));
}

/// A cost given in whole cents as `$12.34`, or `$12.34+` when incomplete.
pub fn format_cost(cents: u64, incomplete: bool) -> (r: String)
    ensures
        r@ == cost_text(cents as nat, incomplete),
{
    let mut v: Vec<char> = Vec::new();
    push_cost(&mut v, cents, incomplete);
    string_of(&v)
}

/// Whether every character is an ASCII digit.
pub open spec fn all_digits(s: Seq<char>) -> bool {
    forall|i: int| 0 <= i < s.len() ==> is_digit(#[trigger] s[i])
}

/// The last position of `c` in `s`.
pub open spec fn last_index(s: Seq<char>, c: char) -> Option<int>
    decreases s.len(),
{
    if s.len() == 0 {
        None
    } else if s.last() == c {
        Some(s.len() - 1)
    } else {
        last_index(s.drop_last(), c)
    }
}

/// The first position of `c` in `s`.
pub open spec fn first_index(s: Seq<char>, c: char) -> Option<int>
    decreases s.len(),
{
    if s.len() == 0 {
        None
    } else if s[0] == c {
        Some(0)
    } else {
        match first_index(s.drop_first(), c) {
            Some(k) => Some(k + 1),
            None => None,
        }
    }
}

pub proof fn lemma_first_index(s: Seq<char>, c: char)
    ensures
        first_index(s, c) matches Some(e) ==> 0 <= e < s.len() && s[e] == c && forall|i: int|
            0 <= i < e ==> s[i] != c,
        first_index(s, c) is None ==> forall|i: int| 0 <= i < s.len() ==> s[i] != c,
    decreases s.len(),
{
    if s.len() > 0 && s[0] != c {
        lemma_first_index(s.drop_first(), c);
        assert forall|i: int| 1 <= i < s.len() implies s[i] == s.drop_first()[i - 1] by {}
    }
}

/// Digits in comma groups of three after a first group of one to three digits
/// without a leading zero, such as `1,234`, `999` or `0`.
pub open spec fn grouped_integer(value: Seq<char>) -> bool {
    let groups = pieces_by(value, char_pred(','));
    &&& first_group(value, groups[0])
    &&& forall|i: int|
        1 <= i < groups.len() ==> (#[trigger] groups[i]).len() == 3 && all_digits(groups[i])
}

/// The leading group of a grouped integer: one to three digits, no leading
/// zero, and not a lone `0` in front of further groups.
pub open spec fn first_group(value: Seq<char>, first: Seq<char>) -> bool {
    &&& first.len() > 0
    &&& first.len() <= 3
    &&& all_digits(first)
    &&& !(first.len() > 1 && first[0] == '0')
    &&& !(first == seq!['0'] && value.contains(','))
}

/// A cost segment such as `$1,234.56` or `$0.50+`.
pub open spec fn cost_segment(seg: Seq<char>) -> bool {
    &&& seg.len() > 0
    &&& seg[0] == '$'
    &&& {
        let v = seg.drop_first();
        let amount = if v.len() > 0 && v.last() == '+' {
            v.drop_last()
        } else {
            v
        };
        match last_index(amount, '.') {
            None => false,
            Some(k) => {
                let cents = amount.skip(k + 1);
                &&& cents.len() == 2
                &&& all_digits(cents)
                &&& grouped_integer(amount.take(k))
            },
        }
    }
}

/// A compact token count such as `999`, `0`, `2K` or `1.4M`.
pub open spec fn compact_token(value: Seq<char>) -> bool {
    let unit = value.len() > 0 && (value.last() == 'K' || value.last() == 'M' || value.last()
        == 'B');
    let number = if unit {
        value.drop_last()
    } else {
        value
    };
    match first_index(number, '.') {
        None => {
            &&& number.len() <= 3
            &&& number.len() > 0
            &&& all_digits(number)
            &&& (number == seq!['0'] || number[0] != '0')
            &&& (!unit || number != seq!['0'])
        },
        Some(k) => {
            let whole = number.take(k);
            let fraction = number.skip(k + 1);
            &&& unit
            &&& whole.len() <= 3
            &&& whole.len() > 0
            &&& all_digits(whole)
            &&& fraction.len() == 1
            &&& all_digits(fraction)
            &&& fraction != seq!['0']
            &&& whole != seq!['0']
            &&& whole[0] != '0'
        },
    }
}

/// The metric that a suffix segment renders, if it is in canonical form.
pub open spec fn canonical(seg: Seq<char>) -> Option<Metric> {
    if cost_segment(seg) {
        Some(Metric::Cost)
    } else if seg.len() > 0 && seg[0] == '⇄' && compact_token(seg.drop_first()) {
        Some(Metric::TotalTokens)
    } else if seg.len() > 0 && seg[0] == '⇥' && compact_token(seg.drop_first()) {
        Some(Metric::InputTokens)
    } else if seg.len() > 0 && seg[0] == '↦' && compact_token(seg.drop_first()) {
        Some(Metric::OutputTokens)
    } else {
        None
    }
}

pub fn all_digits_in(s: &[char], from: usize, to: usize) -> (r: bool)
    requires
        from <= to <= s.len(),
    ensures
        r == all_digits(s@.subrange(from as int, to as int)),
{
    let mut i = from;
    while i < to
        invariant
            from <= i <= to <= s.len(),
            forall|j: int| from <= j < i ==> is_digit(s@[j]),
        decreases to - i,
    {
        if !('0' <= s[i] && s[i] <= '9') {
            assert(!is_digit(s@.subrange(from as int, to as int)[i - from]));
            return false;
        }
        i += 1;
    }
    assert forall|j: int| 0 <= j < to - from implies is_digit(
        #[trigger] s@.subrange(from as int, to as int)[j],
    ) by {
        assert(s@.subrange(from as int, to as int)[j] == s@[from + j]);
    }
    true
}

fn last_index_in(s: &[char], to: usize, c: char) -> (r: Option<usize>)
    requires
        to <= s.len(),
    ensures
        match (r, last_index(s@.take(to as int), c)) {
            (Some(k), Some(j)) => k as int == j && k < to,
            (None, None) => true,
            _ => false,
        },
{
    let mut n = to;
    while n > 0
        invariant
            n <= to <= s.len(),
            last_index(s@.take(to as int), c) == last_index(s@.take(n as int), c),
        decreases n,
    {
        assert(s@.take(n as int).drop_last() =~= s@.take(n - 1));
        if s[n - 1] == c {
            return Some(n - 1);
        }
        n -= 1;
    }
    None
}

pub fn first_index_from(s: &[char], from: usize, c: char) -> (r: Option<usize>)
    requires
        from <= s.len(),
    ensures
        match (r, first_index(s@.skip(from as int), c)) {
            (Some(k), Some(j)) => k as int == j + from && k < s.len(),
            (None, None) => true,
            _ => false,
        },
    decreases s.len() - from,
{
    if from == s.len() {
        assert(s@.skip(from as int).len() == 0);
        None
    } else if s[from] == c {
        Some(from)
    } else {
        assert(s@.skip(from as int).drop_first() =~= s@.skip(from + 1));
        first_index_from(s, from + 1, c)
    }
}

fn contains_char(s: &[char], c: char) -> (r: bool)
    ensures
        r == s@.contains(c),
{
    let mut i: usize = 0;
    while i < s.len()
        invariant
            i <= s.len(),
            forall|j: int| 0 <= j < i ==> s@[j] != c,
        decreases s.len() - i,
    {
        if s[i] == c {
            assert(s@[i as int] == c);
            return true;
        }
        i += 1;
    }
    false
}

/// Whether `value` is an integer written with comma thousands groups.
pub fn is_grouped_integer(value: &[char]) -> (r: bool)
    ensures
        r == grouped_integer(value@),
{
    let groups = split_on(value, ',');
    let ghost gs = pieces_by(value@, char_pred(','));
    let first = &groups[0];
    if first.len() == 0 || first.len() > 3 || !all_digits_in(first, 0, first.len()) || (
    first.len() > 1 && first[0] == '0') || (chars_are(first, "0") && contains_char(value, ',')) {
        proof {
            assert(first@.subrange(0, first.len() as int) =~= first@);
            reveal_strlit("0");
            assert("0"@ =~= seq!['0']);
        }
        return false;
    }
    proof {
        assert(first@.subrange(0, first.len() as int) =~= first@);
        reveal_strlit("0");
        assert("0"@ =~= seq!['0']);
    }
    let mut i: usize = 1;
    while i < groups.len()
        invariant
            1 <= i <= groups.len(),
            gs == pieces_by(value@, char_pred(',')),
            first_group(value@, gs[0]),
            groups.len() == gs.len(),
            forall|j: int| 0 <= j < groups.len() ==> #[trigger] groups@[j]@ == gs[j],
            forall|j: int| 1 <= j < i ==> (#[trigger] gs[j]).len() == 3 && all_digits(gs[j]),
        decreases groups.len() - i,
    {
        let g = &groups[i];
        let ok = g.len() == 3 && all_digits_in(g, 0, g.len());
        assert(g@.subrange(0, g.len() as int) =~= g@);
        if !ok {
            assert(groups@[i as int]@ == gs[i as int]);
            return false;
        }
        i += 1;
    }
    true
}

/// Whether a suffix segment is a canonical cost such as `$12.34` or `$0.50+`.
pub fn is_cost(seg: &[char]) -> (r: bool)
    ensures
        r == cost_segment(seg@),
{
    if seg.len() == 0 || seg[0] != '$' {
        return false;
    }
    let mut end = seg.len();
    if end > 1 && seg[end - 1] == '+' {
        end = end - 1;
    }
    let ghost v = seg@.drop_first();
    let ghost amount = if v.len() > 0 && v.last() == '+' {
        v.drop_last()
    } else {
        v
    };
    assert(amount =~= seg@.subrange(1, end as int));
    let amount_chars = slice_chars(seg, 1, end);
    match last_index_in(&amount_chars, amount_chars.len(), '.') {
        None => {
            assert(amount_chars@.take(amount_chars.len() as int) =~= amount);
            false
        },
        Some(k) => {
            assert(amount_chars@.take(amount_chars.len() as int) =~= amount);
            let n = amount_chars.len();
            let cents_ok = n - (k + 1) == 2 && all_digits_in(&amount_chars, k + 1, n);
            let whole = slice_chars(&amount_chars, 0, k);
            assert(amount.skip(k + 1) =~= amount_chars@.subrange(k + 1, n as int));
            assert(amount.take(k as int) =~= whole@);
            cents_ok && is_grouped_integer(&whole)
        },
    }
}

/// Whether `value` is a compact token count such as `999`, `2K` or `1.4M`.
pub fn is_compact_token(value: &[char]) -> (r: bool)
    ensures
        r == compact_token(value@),
{
    let n = value.len();
    let unit = n > 0 && (value[n - 1] == 'K' || value[n - 1] == 'M' || value[n - 1] == 'B');
    let number = if unit {
        slice_chars(value, 0, n - 1)
    } else {
        slice_chars(value, 0, n)
    };
    assert(unit ==> number@ =~= value@.drop_last());
    assert(!unit ==> number@ =~= value@);
    assert(number@.skip(0) =~= number@);
    let m = number.len();
    match first_index_from(&number, 0, '.') {
        None => {
            let zero = chars_are(&number, "0");
            proof {
                reveal_strlit("0");
                assert("0"@ =~= seq!['0']);
                assert(number@.subrange(0, m as int) =~= number@);
            }
            m <= 3 && m > 0 && all_digits_in(&number, 0, m) && (zero || number[0] != '0') && (!unit
                || !zero)
        },
        Some(k) => {
            let whole = slice_chars(&number, 0, k);
            let fraction = slice_chars(&number, k + 1, m);
            assert(whole@ =~= number@.take(k as int));
            assert(fraction@ =~= number@.skip(k + 1));
            let whole_zero = chars_are(&whole, "0");
            let fraction_zero = chars_are(&fraction, "0");
            proof {
                reveal_strlit("0");
                assert("0"@ =~= seq!['0']);
                assert(whole@.subrange(0, k as int) =~= whole@);
                assert(fraction@.subrange(0, fraction.len() as int) =~= fraction@);
            }
            unit && k <= 3 && k > 0 && all_digits_in(&whole, 0, k) && fraction.len() == 1
                && all_digits_in(&fraction, 0, fraction.len()) && !fraction_zero && !whole_zero
                && whole[0] != '0'
        },
    }
}

/// The metric that a suffix segment renders, if it is in canonical form.
pub fn canonical_metric(seg: &[char]) -> (r: Option<Metric>)
    ensures
        r == canonical(seg@),
{
    if is_cost(seg) {
        return Some(Metric::Cost);
    }
    if seg.len() == 0 {
        return None;
    }
    let rest = slice_chars(seg, 1, seg.len());
    assert(rest@ =~= seg@.drop_first());
    if seg[0] == '⇄' && is_compact_token(&rest) {
        Some(Metric::TotalTokens)
    } else if seg[0] == '⇥' && is_compact_token(&rest) {
        Some(Metric::InputTokens)
    } else if seg[0] == '↦' && is_compact_token(&rest) {
        Some(Metric::OutputTokens)
    } else {
        None
    }
}

/// Whether the title separator ` · ` starts at position `k` of `t`.
pub open spec fn sep_at(t: Seq<char>, k: int) -> bool {
    &&& 0 <= k
    &&& k + 3 <= t.len()
    &&& t[k] == ' '
    &&& t[k + 1] == '·'
    &&& t[k + 2] == ' '
}

/// The start of the last separator that begins before position `n`.
pub open spec fn last_sep(t: Seq<char>, n: int) -> Option<int>
    decreases n,
{
    if n <= 0 {
        None
    } else if sep_at(t, n - 1) {
        Some(n - 1)
    } else {
        last_sep(t, n - 1)
    }
}

pub proof fn lemma_last_sep(t: Seq<char>, n: int)
    ensures
        match last_sep(t, n) {
            Some(k) => 0 <= k < n && sep_at(t, k) && forall|j: int|
                k < j < n ==> !#[trigger] sep_at(t, j),
            None => forall|j: int| 0 <= j < n ==> !#[trigger] sep_at(t, j),
        },
    decreases n,
{
    if n > 0 {
        lemma_last_sep(t, n - 1);
    }
}

/// `t` with every trailing canonical metric segment (and its separator) removed.
pub open spec fn strip_spec(t: Seq<char>) -> Seq<char>
    decreases t.len(),
{
    match last_sep(t, t.len() as int) {
        Some(k) => if canonical(t.skip(k + 3)) is Some {
            proof {
                lemma_last_sep(t, t.len() as int);
            }
            strip_spec(t.take(k))
        } else {
            t
        },
        None => t,
    }
}

/// The metrics of the trailing canonical segments of `t`, left to right.
pub open spec fn trailing_metrics(t: Seq<char>) -> Seq<Metric>
    decreases t.len(),
{
    match last_sep(t, t.len() as int) {
        Some(k) => match canonical(t.skip(k + 3)) {
            Some(m) => {
                proof {
                    lemma_last_sep(t, t.len() as int);
                }
                trailing_metrics(t.take(k)).push(m)
            },
            None => Seq::empty(),
        },
        None => Seq::empty(),
    }
}

fn find_last_sep(v: &[char], end: usize) -> (r: Option<usize>)
    requires
        end <= v.len(),
    ensures
        match (r, last_sep(v@.take(end as int), end as int)) {
            (Some(k), Some(j)) => k as int == j && k + 3 <= end,
            (None, None) => true,
            _ => false,
        },
{
    let ghost t = v@.take(end as int);
    let mut n = end;
    while n > 0
        invariant
            n <= end <= v.len(),
            t == v@.take(end as int),
            last_sep(t, end as int) == last_sep(t, n as int),
        decreases n,
    {
        let k = n - 1;
        if k < end && end - k >= 3 && v[k] == ' ' && v[k + 1] == '·' && v[k + 2] == ' ' {
            assert(sep_at(t, k as int));
            return Some(k);
        }
        assert(!sep_at(t, k as int));
        n -= 1;
    }
    None
}

fn strip_end(v: &[char]) -> (end: usize)
    ensures
        end <= v.len(),
        v@.take(end as int) == strip_spec(v@),
{
    let mut end = v.len();
    let mut done = false;
    assert(v@.take(end as int) =~= v@);
    while !done
        invariant
            end <= v.len(),
            strip_spec(v@) == strip_spec(v@.take(end as int)),
            done ==> strip_spec(v@.take(end as int)) == v@.take(end as int),
        decreases end + (if done {
            0int
        } else {
            1int
        }),
    {
        let ghost t = v@.take(end as int);
        match find_last_sep(v, end) {
            Some(k) => {
                let seg = slice_chars(v, k + 3, end);
                assert(seg@ =~= t.skip(k + 3));
                if canonical_metric(&seg).is_some() {
                    assert(t.take(k as int) =~= v@.take(k as int));
                    end = k;
                } else {
                    done = true;
                }
            },
            None => {
                done = true;
            },
        }
    }
    end
}

/// `title` with its trailing canonical metric segments removed.
pub fn strip_canonical_suffix(title: &str) -> (r: String)
    ensures
        r@ == strip_spec(title@),
{
    let v = chars_of(title);
    let end = strip_end(&v);
    let base = slice_chars(&v, 0, end);
    string_of(&base)
}

fn trailing_of(v: &[char]) -> (r: Vec<Metric>)
    ensures
        r@ == trailing_metrics(v@),
{
    let mut end = v.len();
    let mut done = false;
    let mut found: Vec<Metric> = Vec::new();
    assert(v@.take(end as int) =~= v@);
    while !done
        invariant
            end <= v.len(),
            trailing_metrics(v@) == (if done {
                Seq::<Metric>::empty()
            } else {
                trailing_metrics(v@.take(end as int))
            }) + found@,
        decreases end + (if done {
            0int
        } else {
            1int
        }),
    {
        let ghost t = v@.take(end as int);
        match find_last_sep(v, end) {
            Some(k) => {
                let seg = slice_chars(v, k + 3, end);
                assert(seg@ =~= t.skip(k + 3));
                match canonical_metric(&seg) {
                    Some(m) => {
                        assert(t.take(k as int) =~= v@.take(k as int));
                        let ghost old_found = found@;
                        found.insert(0, m);
                        assert(found@ =~= seq![m] + old_found);
                        assert(trailing_metrics(t) == trailing_metrics(v@.take(k as int)).push(m));
                        assert(trailing_metrics(v@.take(k as int)).push(m) + old_found
                            =~= trailing_metrics(v@.take(k as int)) + found@);
                        end = k;
                    },
                    None => {
                        assert(Seq::<Metric>::empty() + found@ =~= trailing_metrics(t) + found@);
                        done = true;
                    },
                }
            },
            None => {
                assert(Seq::<Metric>::empty() + found@ =~= trailing_metrics(t) + found@);
                done = true;
            },
        }
    }
    assert(Seq::<Metric>::empty() + found@ =~= found@);
    found
}

/// The usage figures a title suffix can show. The cost arrives rounded to
/// whole cents; `cost_complete` is false when some usage could not be priced.
#[derive(Clone, Copy, Debug)]
pub struct TitleStats {
    pub cost_cents: u64,
    pub cost_complete: bool,
    pub input_tokens: u64,
    pub output_tokens: u64,
}

/// `a + b`, saturating at `u64::MAX`.
pub open spec fn saturating_sum(a: u64, b: u64) -> nat {
    if a + b > u64::MAX {
        u64::MAX as nat
    } else {
        (a + b) as nat
    }
}

/// The rendered segment of one metric.
pub open spec fn segment(m: Metric, stats: TitleStats) -> Seq<char> {
    match m {
        Metric::Cost => cost_text(stats.cost_cents as nat, !stats.cost_complete),
        Metric::TotalTokens => seq!['⇄'] + compact(
            saturating_sum(stats.input_tokens, stats.output_tokens),
        ),
        Metric::InputTokens => seq!['⇥'] + compact(stats.input_tokens as nat),
        Metric::OutputTokens => seq!['↦'] + compact(stats.output_tokens as nat),
    }
}

/// The title separator ` · `.
pub open spec fn title_sep() -> Seq<char> {
    seq![' ', '·', ' ']
}

/// The metric suffix: the segments joined by ` · `.
pub open spec fn suffix_of(metrics: Seq<Metric>, stats: TitleStats) -> Seq<char> {
    join(metrics.map_values(|m: Metric| segment(m, stats)), title_sep())
}

/// The title that `compose` makes: the old title without its canonical suffix
/// and trailing whitespace, cut with `…` if needed, then ` · ` and the suffix,
/// all within `width` characters.
pub open spec fn compose_spec(
    width: nat,
    metrics: Seq<Metric>,
    title: Seq<char>,
    stats: TitleStats,
) -> Result<Seq<char>, TitleFailure> {
    let suffix = suffix_of(metrics, stats);
    let reserved = suffix.len() + 3;
    let base = trim_end_spec(strip_spec(title));
    if width < reserved {
        Err(TitleFailure::TooNarrow)
    } else if base.len() == 0 {
        Err(TitleFailure::TooNarrow)
    } else {
        let available = (width - reserved) as nat;
        if base.len() <= available {
            Ok(base + title_sep() + suffix)
        } else if available < 2 {
            Err(TitleFailure::TooNarrow)
        } else {
            let truncated = trim_end_spec(base.take(available - 1));
            if truncated.len() == 0 {
                Err(TitleFailure::TooNarrow)
            } else {
                Ok(truncated + seq!['…'] + title_sep() + suffix)
            }
        }
    }
}

fn push_segment(out: &mut Vec<char>, m: Metric, stats: &TitleStats)
    ensures
        final(out)@ == old(out)@ + segment(m, *stats),
{
    match m {
        Metric::Cost => push_cost(out, stats.cost_cents, !stats.cost_complete),
        Metric::TotalTokens => {
            out.push('⇄');
            push_compact(out, stats.input_tokens.saturating_add(stats.output_tokens));
        },
        Metric::InputTokens => {
            out.push('⇥');
            push_compact(out, stats.input_tokens);
        },
        Metric::OutputTokens => {
            out.push('↦');
            push_compact(out, stats.output_tokens);
        },
    }
    assert(final(out)@ =~= old(out)@ + segment(m, *stats));
}

fn suffix_chars(metrics: &Vec<Metric>, stats: &TitleStats) -> (r: Vec<char>)
    ensures
        r@ == suffix_of(metrics@, *stats),
{
    let ghost f = |m: Metric| segment(m, *stats);
    let mut out: Vec<char> = Vec::new();
    let mut i: usize = 0;
    assert(metrics@.take(0).map_values(f) =~= Seq::<Seq<char>>::empty());
    while i < metrics.len()
        invariant
            i <= metrics.len(),
            f == (|m: Metric| segment(m, *stats)),
            out@ == join(metrics@.take(i as int).map_values(f), title_sep()),
        decreases metrics.len() - i,
    {
        let ghost before = metrics@.take(i as int).map_values(f);
        assert(metrics@.take(i + 1).map_values(f) =~= before.push(f(metrics@[i as int])));
        proof {
            lemma_join_push(before, f(metrics@[i as int]), title_sep());
        }
        if i > 0 {
            out.push(' ');
            out.push('·');
            out.push(' ');
        }
        let ghost mid = out@;
        push_segment(&mut out, metrics[i], stats);
        assert(i > 0 ==> mid == join(before, title_sep()) + title_sep());
        i += 1;
    }
    assert(metrics@.take(metrics.len() as int) =~= metrics@);
    out
}

/// The width bound and metric list of composed task titles.
pub struct TitleFormat {
    pub width: usize,
    pub metrics: MetricList,
}

impl TitleFormat {
    /// A format for titles of at most `width` characters carrying `metrics`.
    pub fn new(width: usize, metrics: MetricList) -> (r: TitleFormat)
        ensures
            r.width == width,
            r.metrics@ == metrics@,
            r.metrics@.len() >= 1,
    {
        proof {
            use_type_invariant(&metrics);
        }
        TitleFormat { width, metrics }
    }

    /// The maximum title width in characters.
    pub fn width(&self) -> (r: usize)
        ensures
            r == self.width,
    {
        self.width
    }

    /// Replaces any canonical metric suffix of `title` with the current metrics,
    /// truncating the base with `…` so the result fits the width.
    pub fn compose(&self, title: &str, stats: &TitleStats) -> (r: Result<String, TitleError>)
        ensures
            match (r, compose_spec(self.width as nat, self.metrics@, title@, *stats)) {
                (Ok(t), Ok(u)) => t@ == u,
                (Err(e), Err(f)) => e@ == f,
                _ => false,
            },
            r matches Ok(t) ==> t@.len() <= self.width,
            self.metrics@.len() >= 1,
    {
        proof {
            use_type_invariant(&self.metrics);
        }
        let suffix = suffix_chars(&self.metrics.0, stats);
        if self.width < 3 || suffix.len() > self.width - 3 {
            return Err(TitleError::TooNarrow);
        }
        let available = self.width - 3 - suffix.len();
        let v = chars_of(title);
        let stripped = strip_end(&v);
        let end = trim_end_len(&v, stripped);
        proof {
            assert(v@.take(stripped as int) == strip_spec(title@));
        }
        let ghost base = v@.take(end as int);
        if end == 0 {
            return Err(TitleError::TooNarrow);
        }
        let mut out: Vec<char>;
        if end <= available {
            out = slice_chars(&v, 0, end);
            assert(out@ =~= base);
        } else {
            if available < 2 {
                return Err(TitleError::TooNarrow);
            }
            let cut = trim_end_len(&v, available - 1);
            assert(v@.take(available - 1) =~= base.take(available - 1));
            if cut == 0 {
                return Err(TitleError::TooNarrow);
            }
            out = slice_chars(&v, 0, cut);
            out.push('…');
        }
        out.push(' ');
        out.push('·');
        out.push(' ');
        extend_chars(&mut out, &suffix);
        assert(out@ =~= match compose_spec(self.width as nat, self.metrics@, title@, *stats) {
            Ok(u) => u,
            Err(_) => Seq::<char>::empty(),
        });
        Ok(string_of(&out))
    }

    /// Whether the trailing canonical segments of `title` are exactly this
    /// format's metrics, in order.
    pub fn matches_suffix(&self, title: &str) -> (r: bool)
        ensures
            r == (trailing_metrics(title@) == self.metrics@),
    {
        let v = chars_of(title);
        let found = trailing_of(&v);
        let wanted = &self.metrics.0;
        if found.len() != wanted.len() {
            return false;
        }
        let mut i: usize = 0;
        while i < found.len()
            invariant
                i <= found.len(),
                found.len() == wanted.len(),
                found@ == trailing_metrics(title@),
                wanted@ == self.metrics@,
                forall|j: int| 0 <= j < i ==> found@[j] == wanted@[j],
            decreases found.len() - i,
        {
            if found[i] != wanted[i] {
                assert(found@[i as int] != wanted@[i as int]);
                return false;
            }
            i += 1;
        }
        assert(found@ =~= wanted@);
        true
    }
}

} // verus!
