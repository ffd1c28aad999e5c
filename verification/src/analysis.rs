//! Token usage records of a rollout: reading them, turning cumulative totals
//! into per-event amounts, and adding them up.
use vstd::prelude::*;

use crate::discovery::{deref_opt, member, text_of, Json, JsonNumber};
use crate::text::str_eq;

verus! {

/// Token counts that pricing distinguishes.
#[derive(Clone, Copy, Debug, PartialEq, Eq, Structural)]
pub struct Usage {
    pub input: u64,
    pub cached_input: u64,
    pub cache_write_input: u64,
    pub output: u64,
}

/// One token-count record: the priced counts, reasoning output, and the total.
#[derive(Clone, Copy, Debug, PartialEq, Eq, Structural)]
pub struct TokenUsage {
    pub usage: Usage,
    pub reasoning_output: u64,
    pub total_tokens: u64,
}

/// `a - b`, or zero when `b` is larger (`u64::saturating_sub`).
pub open spec fn minus(a: u64, b: u64) -> u64 {
    if a >= b {
        (a - b) as u64
    } else {
        0
    }
}

fn saturating_minus(a: u64, b: u64) -> (r: u64)
    ensures
        r == minus(a, b),
{
    if a >= b {
        a - b
    } else {
        0
    }
}

/// `Value::as_u64` on a JSON value.
pub open spec fn as_u64_spec(value: Json) -> Option<u64> {
    match value {
        Json::Number(JsonNumber::Unsigned(n)) => Some(n),
        _ => None,
    }
}

/// A token field of a usage object: zero when absent, `None` when present but
/// not an unsigned integer.
pub open spec fn token_field(value: Json, name: Seq<char>) -> Option<u64> {
    match member(value, name) {
        None => Some(0),
        Some(v) => as_u64_spec(v),
    }
}

/// The usage an object records, if it is an object whose token fields are
/// all unsigned integers or absent.
pub open spec fn usage_of(value: Json) -> Option<TokenUsage> {
    if !(value is Object) {
        None
    } else {
        match (
            token_field(value, "input_tokens"@),
            token_field(value, "cached_input_tokens"@),
            token_field(value, "cache_write_input_tokens"@),
            token_field(value, "output_tokens"@),
            token_field(value, "reasoning_output_tokens"@),
            token_field(value, "total_tokens"@),
        ) {
            (Some(a), Some(b), Some(c), Some(d), Some(e), Some(f)) => Some(
                TokenUsage {
                    usage: Usage { input: a, cached_input: b, cache_write_input: c, output: d },
                    reasoning_output: e,
                    total_tokens: f,
                },
            ),
            _ => None,
        }
    }
}

fn field_u64(value: &Json, name: &str) -> (r: Option<u64>)
    ensures
        r == token_field(*value, name@),
{
    match value.get(name) {
        None => Some(0),
        Some(v) => match v {
            Json::Number(JsonNumber::Unsigned(n)) => Some(*n),
            _ => None,
        },
    }
}

impl TokenUsage {
    /// The usage a JSON object records (see `usage_of`).
    pub fn from_json(value: &Json) -> (r: Option<TokenUsage>)
        ensures
            r == usage_of(*value),
    {
        match value {
            Json::Object(_) => {},
            _ => return None,
        }
        let input = match field_u64(value, "input_tokens") {
            Some(n) => n,
            None => return None,
        };
        let cached_input = match field_u64(value, "cached_input_tokens") {
            Some(n) => n,
            None => return None,
        };
        let cache_write_input = match field_u64(value, "cache_write_input_tokens") {
            Some(n) => n,
            None => return None,
        };
        let output = match field_u64(value, "output_tokens") {
            Some(n) => n,
            None => return None,
        };
        let reasoning_output = match field_u64(value, "reasoning_output_tokens") {
            Some(n) => n,
            None => return None,
        };
        let total_tokens = match field_u64(value, "total_tokens") {
            Some(n) => n,
            None => return None,
        };
        Some(
            TokenUsage {
                usage: Usage { input, cached_input, cache_write_input, output },
                reasoning_output,
                total_tokens,
            },
        )
    }

    /// The field-by-field difference from an earlier cumulative record.
    pub open spec fn delta_spec(self, previous: TokenUsage) -> TokenUsage {
        TokenUsage {
            usage: Usage {
                input: minus(self.usage.input, previous.usage.input),
                cached_input: minus(self.usage.cached_input, previous.usage.cached_input),
                cache_write_input: minus(self.usage.cache_write_input, previous.usage.cache_write_input),
                output: minus(self.usage.output, previous.usage.output),
            },
            reasoning_output: minus(self.reasoning_output, previous.reasoning_output),
            total_tokens: minus(self.total_tokens, previous.total_tokens),
        }
    }

    /// Whether some count went down since an earlier record.
    pub open spec fn reset_spec(self, previous: TokenUsage) -> bool {
        self.usage.input < previous.usage.input || self.usage.cached_input
            < previous.usage.cached_input || self.usage.cache_write_input
            < previous.usage.cache_write_input || self.usage.output < previous.usage.output
            || self.reasoning_output < previous.reasoning_output || self.total_tokens
            < previous.total_tokens
    }

    /// Whether any priced count or the reasoning output is non-zero.
    pub open spec fn has_tokens_spec(self) -> bool {
        self.usage.input > 0 || self.usage.cached_input > 0 || self.usage.cache_write_input > 0
            || self.usage.output > 0 || self.reasoning_output > 0
    }

    /// The field-by-field difference from an earlier cumulative record, each
    /// field at least zero.
    pub fn delta(self, previous: TokenUsage) -> (r: TokenUsage)
        ensures
            r == self.delta_spec(previous),
    {
        TokenUsage {
            usage: Usage {
                input: saturating_minus(self.usage.input, previous.usage.input),
                cached_input: saturating_minus(self.usage.cached_input, previous.usage.cached_input),
                cache_write_input: saturating_minus(
                    self.usage.cache_write_input,
                    previous.usage.cache_write_input,
                ),
                output: saturating_minus(self.usage.output, previous.usage.output),
            },
            reasoning_output: saturating_minus(self.reasoning_output, previous.reasoning_output),
            total_tokens: saturating_minus(self.total_tokens, previous.total_tokens),
        }
    }

    /// Whether some count went down since an earlier record (the totals were reset).
    pub fn reset_from(self, previous: TokenUsage) -> (r: bool)
        ensures
            r == self.reset_spec(previous),
    {
        self.usage.input < previous.usage.input || self.usage.cached_input
            < previous.usage.cached_input || self.usage.cache_write_input
            < previous.usage.cache_write_input || self.usage.output < previous.usage.output
            || self.reasoning_output < previous.reasoning_output || self.total_tokens
            < previous.total_tokens
    }

    /// Whether the record counts any priced or reasoning tokens.
    pub fn has_tokens(self) -> (r: bool)
        ensures
            r == self.has_tokens_spec(),
    {
        self.usage.input > 0 || self.usage.cached_input > 0 || self.usage.cache_write_input > 0
            || self.usage.output > 0 || self.reasoning_output > 0
    }
}

/// Adding `delta` to a cumulative record gives back the later record, when
/// no count went down.
pub proof fn lemma_delta_restores(current: TokenUsage, previous: TokenUsage)
    requires
        !current.reset_spec(previous),
    ensures
        previous.usage.input + current.delta_spec(previous).usage.input == current.usage.input,
        previous.usage.cached_input + current.delta_spec(previous).usage.cached_input
            == current.usage.cached_input,
        previous.usage.cache_write_input + current.delta_spec(previous).usage.cache_write_input
            == current.usage.cache_write_input,
        previous.usage.output + current.delta_spec(previous).usage.output == current.usage.output,
        previous.reasoning_output + current.delta_spec(previous).reasoning_output
            == current.reasoning_output,
        previous.total_tokens + current.delta_spec(previous).total_tokens == current.total_tokens,
{
}

/// A record is never reset from itself, and its delta from itself is empty.
pub proof fn lemma_delta_self(u: TokenUsage)
    ensures
        !u.reset_spec(u),
        !u.delta_spec(u).has_tokens_spec(),
        u.delta_spec(u).total_tokens == 0,
{
}

/// The service tier an event was priced at.
pub enum ServiceTier {
    Standard,
    AssumedStandard,
    Fast,
    Unpriced(String),
}

/// The key a report uses for a service tier.
pub open spec fn service_tier_text(tier: ServiceTier) -> Seq<char> {
    match tier {
        ServiceTier::Standard => "standard"@,
        ServiceTier::AssumedStandard => "assumed_standard"@,
        ServiceTier::Fast => "fast"@,
        ServiceTier::Unpriced(value) => value@,
    }
}

/// The key a report uses for a service tier.
pub fn service_tier_key(tier: &ServiceTier) -> (r: &str)
    ensures
        r@ == service_tier_text(*tier),
{
    match tier {
        ServiceTier::Standard => "standard",
        ServiceTier::AssumedStandard => "assumed_standard",
        ServiceTier::Fast => "fast",
        ServiceTier::Unpriced(value) => value.as_str(),
    }
}

/// The model and reasoning effort of a turn context: `model`, and `effort`
/// (else `reasoning_effort`), each `unknown` when missing or not a string.
pub open spec fn model_context_spec(payload: Json) -> (Seq<char>, Seq<char>) {
    let model = match text_of(member(payload, "model"@)) {
        Some(m) => m@,
        None => "unknown"@,
    };
    let effort_value = match member(payload, "effort"@) {
        Some(v) => Some(v),
        None => member(payload, "reasoning_effort"@),
    };
    let effort = match text_of(effort_value) {
        Some(e) => e@,
        None => "unknown"@,
    };
    (model, effort)
}

fn text_or_unknown(value: Option<&Json>) -> (r: String)
    ensures
        r@ == match text_of(deref_opt(value)) {
            Some(s) => s@,
            None => "unknown"@,
        },
{
    match value {
        Some(Json::Text(s)) => s.clone(),
        _ => String::from_str("unknown"),
    }
}

/// The model and reasoning effort of a turn context (see `model_context_spec`).
pub fn model_context(payload: &Json) -> (r: (String, String))
    ensures
        (r.0@, r.1@) == model_context_spec(*payload),
{
    let model = text_or_unknown(payload.get("model"));
    let effort_value = match payload.get("effort") {
        Some(v) => Some(v),
        None => payload.get("reasoning_effort"),
    };
    let effort = text_or_unknown(effort_value);
    (model, effort)
}

/// The turn an event belongs to: its `turn_id`, else its `id`, when a string.
pub open spec fn event_turn_id_spec(payload: Json) -> Option<Seq<char>> {
    let value = match member(payload, "turn_id"@) {
        Some(v) => Some(v),
        None => member(payload, "id"@),
    };
    match text_of(value) {
        Some(s) => Some(s@),
        None => None,
    }
}

/// The turn an event belongs to (see `event_turn_id_spec`).
pub fn event_turn_id(payload: &Json) -> (r: Option<String>)
    ensures
        match r {
            Some(s) => event_turn_id_spec(*payload) == Some(s@),
            None => event_turn_id_spec(*payload) is None,
        },
{
    let value = match payload.get("turn_id") {
        Some(v) => Some(v),
        None => payload.get("id"),
    };
    match value {
        Some(Json::Text(s)) => Some(s.clone()),
        _ => None,
    }
}

/// Usage counts and whether they are known to be complete.
#[derive(Clone, Copy)]
pub struct UsageTotals {
    pub known_usage: Usage,
    pub reasoning_output: u64,
    pub unattributed_tokens: u64,
    pub incomplete_usage: bool,
}

/// The totals after adding tokens that no model could be named for: on
/// overflow the total stays and the usage is marked incomplete.
pub open spec fn with_unattributed(t: UsageTotals, tokens: u64) -> UsageTotals {
    if t.unattributed_tokens + tokens <= u64::MAX {
        UsageTotals { unattributed_tokens: (t.unattributed_tokens + tokens) as u64, ..t }
    } else {
        UsageTotals { incomplete_usage: true, ..t }
    }
}

/// The totals after adding an event's usage (when `addable`).
pub open spec fn with_usage(t: UsageTotals, u: TokenUsage) -> UsageTotals {
    UsageTotals {
        known_usage: Usage {
            input: (t.known_usage.input + u.usage.input) as u64,
            cached_input: (t.known_usage.cached_input + u.usage.cached_input) as u64,
            cache_write_input: (t.known_usage.cache_write_input + u.usage.cache_write_input) as u64,
            output: (t.known_usage.output + u.usage.output) as u64,
        },
        reasoning_output: (t.reasoning_output + u.reasoning_output) as u64,
        ..t
    }
}

/// Adds tokens that no model could be named for (see `with_unattributed`).
pub fn add_unattributed(stats: &mut UsageTotals, tokens: u64)
    ensures
        *final(stats) == with_unattributed(*old(stats), tokens),
{
    if stats.unattributed_tokens <= u64::MAX - tokens {
        stats.unattributed_tokens = stats.unattributed_tokens + tokens;
    } else {
        stats.incomplete_usage = true;
    }
}

/// Whether adding `u` to the totals overflows none of the counts.
pub open spec fn addable(stats: UsageTotals, u: TokenUsage) -> bool {
    stats.known_usage.input + u.usage.input <= u64::MAX && stats.known_usage.cached_input
        + u.usage.cached_input <= u64::MAX && stats.known_usage.cache_write_input
        + u.usage.cache_write_input <= u64::MAX && stats.known_usage.output + u.usage.output
        <= u64::MAX && stats.reasoning_output + u.reasoning_output <= u64::MAX
}

/// Adds an event's usage to the known totals; returns `false`, changing
/// nothing, when a count would overflow.
pub fn add_known_usage(stats: &mut UsageTotals, u: TokenUsage) -> (r: bool)
    ensures
        r == addable(*old(stats), u),
        r ==> *final(stats) == with_usage(*old(stats), u),
        r ==> final(stats).reasoning_output == old(stats).reasoning_output + u.reasoning_output
            && final(stats).known_usage.input == old(stats).known_usage.input + u.usage.input
            && final(stats).known_usage.cached_input == old(stats).known_usage.cached_input + u.usage.cached_input
            && final(stats).known_usage.cache_write_input == old(stats).known_usage.cache_write_input
            + u.usage.cache_write_input
            && final(stats).known_usage.output == old(stats).known_usage.output + u.usage.output
            && final(stats).unattributed_tokens == old(stats).unattributed_tokens
            && final(stats).incomplete_usage == old(stats).incomplete_usage,
        !r ==> *final(stats) == *old(stats),
{
    if stats.known_usage.input > u64::MAX - u.usage.input {
        return false;
    }
    if stats.known_usage.cached_input > u64::MAX - u.usage.cached_input {
        return false;
    }
    if stats.known_usage.cache_write_input > u64::MAX - u.usage.cache_write_input {
        return false;
    }
    if stats.known_usage.output > u64::MAX - u.usage.output {
        return false;
    }
    if stats.reasoning_output > u64::MAX - u.reasoning_output {
        return false;
    }
    stats.known_usage = Usage {
        input: stats.known_usage.input + u.usage.input,
        cached_input: stats.known_usage.cached_input + u.usage.cached_input,
        cache_write_input: stats.known_usage.cache_write_input + u.usage.cache_write_input,
        output: stats.known_usage.output + u.usage.output,
    };
    stats.reasoning_output = stats.reasoning_output + u.reasoning_output;
    true
}

/// The per-event usage of a token-count record: the difference of the
/// cumulative totals when both this and the previous total are known and
/// none went down, else the record's own `last` usage.
pub open spec fn normalized_usage(last: TokenUsage, total: Option<TokenUsage>, previous: Option<TokenUsage>) -> TokenUsage {
    match (total, previous) {
        (Some(t), Some(p)) => if !t.reset_spec(p) {
            t.delta_spec(p)
        } else {
            last
        },
        _ => last,
    }
}

/// The per-event usage of a token-count record (see `normalized_usage`).
pub fn normalize_usage(last: TokenUsage, total: Option<TokenUsage>, previous: Option<TokenUsage>) -> (r: TokenUsage)
    ensures
        r == normalized_usage(last, total, previous),
{
    match (total, previous) {
        (Some(t), Some(p)) => if !t.reset_from(p) {
            t.delta(p)
        } else {
            last
        },
        _ => last,
    }
}

/// Adding known usage sums: when the counts fit, every known count and the
/// reasoning tokens of the totals grow by exactly the event's counts, and
/// two events added one after the other give the totals of their sum.
pub proof fn lemma_known_usage_sums(t: UsageTotals, u: TokenUsage, w: TokenUsage)
    requires
        addable(t, u),
    ensures
        with_usage(t, u).reasoning_output == t.reasoning_output + u.reasoning_output,
        with_usage(t, u).known_usage.input == t.known_usage.input + u.usage.input,
        with_usage(t, u).known_usage.cached_input == t.known_usage.cached_input + u.usage.cached_input,
        with_usage(t, u).known_usage.cache_write_input == t.known_usage.cache_write_input + u.usage.cache_write_input,
        with_usage(t, u).known_usage.output == t.known_usage.output + u.usage.output,
        addable(with_usage(t, u), w) ==> with_usage(with_usage(t, u), w).reasoning_output == t.reasoning_output
            + u.reasoning_output + w.reasoning_output,
        addable(with_usage(t, u), w) ==> with_usage(with_usage(t, u), w).known_usage.input == t.known_usage.input
            + u.usage.input + w.usage.input,
{
}

} // verus!
