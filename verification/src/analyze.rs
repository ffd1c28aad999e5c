//! Reading a rollout's usage: a first reading finds the turns and their
//! models, a second adds up token usage, turns and turn durations. The caller
//! reads the lines and hands each one over, parsed as JSON (`None` when a line
//! is not JSON).
use vstd::prelude::*;

use crate::analysis::{
    add_known_usage, add_unattributed, addable, event_turn_id, event_turn_id_spec, model_context,
    model_context_spec, normalize_usage, normalized_usage, usage_of, with_unattributed, with_usage,
    TokenUsage, Usage, UsageTotals,
};
use crate::discovery::{deref_opt, member, text_of, Json};
use crate::keyed::{
    assign, find_pair_key, find_text_key, first_key, lemma_first_key_bounds,
    lemma_first_key_same_keys, lookup, pair_keys, remove_key, text_keys,
};
use crate::session::{parse_rfc3339, rfc3339_in_range, rfc3339_nanos};
use crate::text::str_eq;

verus! {

/// The `type` of a JSONL item, when it is a string.
pub open spec fn item_type(item: Json) -> Option<Seq<char>> {
    match text_of(member(item, "type"@)) {
        Some(t) => Some(t@),
        None => None,
    }
}

/// An item's `timestamp`: `Ok(None)` when absent, the instant when it is
/// RFC 3339 text, `Err` when it is anything else.
pub open spec fn timestamp_of(item: Json) -> Result<Option<i128>, ()> {
    match member(item, "timestamp"@) {
        None => Ok(None),
        Some(Json::Text(s)) => match rfc3339_nanos(s@) {
            Some(n) => Ok(Some(n)),
            None => Err(()),
        },
        Some(_) => Err(()),
    }
}

fn type_is(item: &Json, wanted: &str) -> (r: bool)
    ensures
        r == (item_type(*item) == Some(wanted@)),
{
    match item.get("type") {
        Some(Json::Text(t)) => str_eq(t.as_str(), wanted),
        _ => false,
    }
}

fn timestamp(item: &Json) -> (r: Result<Option<i128>, ()>)
    ensures
        r == timestamp_of(*item),
        r matches Ok(Some(n)) ==> rfc3339_in_range(n),
{
    match item.get("timestamp") {
        None => Ok(None),
        Some(Json::Text(s)) => match parse_rfc3339(s.as_str()) {
            Some(n) => Ok(Some(n)),
            None => Err(()),
        },
        Some(_) => Err(()),
    }
}

/// What the first reading learns: how many session metadata lines there
/// were, the time of the last one, whether a timestamp was malformed, and
/// each turn's model and reasoning effort.
pub struct TurnIndex {
    session_meta_count: usize,
    session_at: Option<i128>,
    malformed_timestamp: bool,
    turn_contexts: Vec<(String, (String, String))>,
}

/// The abstract value of a `TurnIndex`.
pub struct TurnIndexView {
    pub session_meta_count: nat,
    pub session_at: Option<i128>,
    pub malformed_timestamp: bool,
    pub turn_contexts: Seq<(Seq<char>, (Seq<char>, Seq<char>))>,
}

/// The viewed entries of a table of turn contexts.
pub open spec fn contexts_view(m: Seq<(String, (String, String))>) -> Seq<(Seq<char>, (Seq<char>, Seq<char>))> {
    m.map_values(|e: (String, (String, String))| (e.0@, (e.1.0@, e.1.1@)))
}

impl View for TurnIndex {
    type V = TurnIndexView;

    closed spec fn view(&self) -> TurnIndexView {
        TurnIndexView {
            session_meta_count: self.session_meta_count as nat,
            session_at: self.session_at,
            malformed_timestamp: self.malformed_timestamp,
            turn_contexts: contexts_view(self.turn_contexts@),
        }
    }
}

/// One line of the first reading: session metadata is counted and its
/// timestamp kept (a malformed one noted); a turn context with a `turn_id`
/// records that turn's model and effort.
pub open spec fn index_step(v: TurnIndexView, item: Option<Json>) -> TurnIndexView {
    match item {
        None => v,
        Some(it) => if item_type(it) == Some("session_meta"@) {
            let counted = TurnIndexView { session_meta_count: v.session_meta_count + 1, ..v };
            match timestamp_of(it) {
                Ok(Some(at)) => TurnIndexView { session_at: Some(at), ..counted },
                Ok(None) => counted,
                Err(()) => TurnIndexView { malformed_timestamp: true, ..counted },
            }
        } else if item_type(it) == Some("turn_context"@) {
            match member(it, "payload"@) {
                Some(Json::Object(entries)) => {
                    let payload = Json::Object(entries);
                    match text_of(member(payload, "turn_id"@)) {
                        Some(turn) => TurnIndexView {
                            turn_contexts: assign(v.turn_contexts, turn@, model_context_spec(payload)),
                            ..v
                        },
                        None => v,
                    }
                },
                _ => v,
            }
        } else {
            v
        },
    }
}

impl TurnIndex {
    /// Nothing read yet.
    pub fn new() -> (r: TurnIndex)
        ensures
            r@ == (TurnIndexView {
                session_meta_count: 0,
                session_at: None,
                malformed_timestamp: false,
                turn_contexts: Seq::empty(),
            }),
    {
        let r = TurnIndex {
            session_meta_count: 0,
            session_at: None,
            malformed_timestamp: false,
            turn_contexts: Vec::new(),
        };
        assert(contexts_view(r.turn_contexts@) =~= Seq::empty());
        r
    }

    /// Whether another session metadata line can be counted.
    pub fn has_room(&self) -> (r: bool)
        ensures
            r == (self@.session_meta_count < usize::MAX),
    {
        self.session_meta_count < usize::MAX
    }

    /// Reads one line (see `index_step`).
    pub fn read_line(&mut self, item: Option<&Json>)
        requires
            old(self)@.session_meta_count < usize::MAX,
        ensures
            final(self)@ == index_step(old(self)@, deref_opt(item)),
    {
        let it = match item {
            Some(it) => it,
            None => return,
        };
        if type_is(it, "session_meta") {
            self.session_meta_count = self.session_meta_count + 1;
            match timestamp(it) {
                Ok(Some(at)) => {
                    self.session_at = Some(at);
                },
                Ok(None) => {},
                Err(()) => {
                    self.malformed_timestamp = true;
                },
            }
            return;
        }
        if !type_is(it, "turn_context") {
            return;
        }
        let payload = match it.get("payload") {
            Some(p) => p,
            None => return,
        };
        match payload {
            Json::Object(_) => {},
            _ => return,
        }
        let turn = match payload.get("turn_id") {
            Some(Json::Text(t)) => t,
            _ => return,
        };
        let context = model_context(payload);
        let ghost before = self.turn_contexts@;
        proof {
            lemma_first_key_same_keys(text_keys(before), contexts_view(before), turn@);
        }
        match find_text_key(&self.turn_contexts, turn.as_str()) {
            Some(i) => {
                self.turn_contexts.set(i, (turn.clone(), context));
                assert(contexts_view(self.turn_contexts@) =~= contexts_view(before).update(
                    i as int,
                    (turn@, (context.0@, context.1@)),
                ));
            },
            None => {
                self.turn_contexts.push((turn.clone(), context));
                assert(contexts_view(self.turn_contexts@) =~= contexts_view(before).push(
                    (turn@, (context.0@, context.1@)),
                ));
            },
        }
    }

    /// The model and effort recorded for a turn.
    pub fn context(&self, turn: &str) -> (r: Option<&(String, String)>)
        ensures
            match r {
                Some(c) => lookup(self@.turn_contexts, turn@) == Some((c.0@, c.1@)),
                None => lookup(self@.turn_contexts, turn@) is None,
            },
    {
        proof {
            lemma_first_key_same_keys(text_keys(self.turn_contexts@), contexts_view(self.turn_contexts@), turn@);
        }
        match find_text_key(&self.turn_contexts, turn) {
            Some(i) => Some(&self.turn_contexts[i].1),
            None => None,
        }
    }

    /// How many session metadata lines the rollout has.
    pub fn session_meta_count(&self) -> (r: usize)
        ensures
            r == self@.session_meta_count,
    {
        self.session_meta_count
    }

    /// The time of the last session metadata line.
    pub fn session_at(&self) -> (r: Option<i128>)
        ensures
            r == self@.session_at,
    {
        self.session_at
    }

    /// Whether a session metadata timestamp was malformed.
    pub fn malformed_timestamp(&self) -> (r: bool)
        ensures
            r == self@.malformed_timestamp,
    {
        self.malformed_timestamp
    }
}


/// One priced usage event: the model, when it happened, and its usage.
pub struct UsageEvent {
    pub model: String,
    pub at: Option<i128>,
    pub usage: Usage,
    pub reasoning_output: u64,
}

/// The abstract value of a `UsageEvent`.
pub struct EventView {
    pub model: Seq<char>,
    pub at: Option<i128>,
    pub usage: Usage,
    pub reasoning_output: u64,
}

/// What a rollout's usage adds up to. Durations are in nanoseconds.
pub struct RolloutStats {
    pub totals: UsageTotals,
    pub events: Vec<UsageEvent>,
    pub turns: usize,
    pub ended_turns: usize,
    pub duration: i128,
    pub turn_durations: Vec<(String, i128)>,
    pub turn_models: Vec<((String, String), usize)>,
    pub malformed_lines: usize,
    pub oversized_lines: usize,
    pub invalid_usage_records: usize,
}

/// The abstract value of `RolloutStats`.
pub struct StatsView {
    pub totals: UsageTotals,
    pub events: Seq<EventView>,
    pub turns: nat,
    pub ended_turns: nat,
    pub duration: int,
    pub turn_durations: Seq<(Seq<char>, int)>,
    pub turn_models: Seq<((Seq<char>, Seq<char>), nat)>,
    pub malformed_lines: nat,
    pub oversized_lines: nat,
    pub invalid_usage_records: nat,
}

pub open spec fn event_view(e: UsageEvent) -> EventView {
    EventView { model: e.model@, at: e.at, usage: e.usage, reasoning_output: e.reasoning_output }
}

pub open spec fn events_view(m: Seq<UsageEvent>) -> Seq<EventView> {
    m.map_values(|e: UsageEvent| event_view(e))
}

pub open spec fn strings_view(m: Seq<String>) -> Seq<Seq<char>> {
    m.map_values(|t: String| t@)
}

pub open spec fn durations_view(m: Seq<(String, i128)>) -> Seq<(Seq<char>, int)> {
    m.map_values(|e: (String, i128)| (e.0@, e.1 as int))
}

pub open spec fn models_view(m: Seq<((String, String), usize)>) -> Seq<((Seq<char>, Seq<char>), nat)> {
    m.map_values(|e: ((String, String), usize)| ((e.0.0@, e.0.1@), e.1 as nat))
}

impl View for RolloutStats {
    type V = StatsView;

    open spec fn view(&self) -> StatsView {
        StatsView {
            totals: self.totals,
            events: events_view(self.events@),
            turns: self.turns as nat,
            ended_turns: self.ended_turns as nat,
            duration: self.duration as int,
            turn_durations: durations_view(self.turn_durations@),
            turn_models: models_view(self.turn_models@),
            malformed_lines: self.malformed_lines as nat,
            oversized_lines: self.oversized_lines as nat,
            invalid_usage_records: self.invalid_usage_records as nat,
        }
    }
}

/// The largest duration total a step may start from, in nanoseconds: the
/// range of a `time::Duration` (`i64::MAX` seconds).
pub open spec fn duration_limit() -> int {
    9_223_372_036_854_775_807_000_000_000
}

/// The state of the second reading.
pub struct UsageReader {
    stats: RolloutStats,
    starts: Vec<(String, i128)>,
    started_turns: Vec<String>,
    active_turn: Option<String>,
    legacy_model: Option<String>,
    previous_total: Option<TokenUsage>,
}

/// The abstract state of the second reading.
pub struct ReaderView {
    pub stats: StatsView,
    pub starts: Seq<(Seq<char>, i128)>,
    pub started_turns: Seq<Seq<char>>,
    pub active_turn: Option<Seq<char>>,
    pub legacy_model: Option<Seq<char>>,
    pub previous_total: Option<TokenUsage>,
}

pub open spec fn opt_view(s: Option<String>) -> Option<Seq<char>> {
    match s {
        Some(x) => Some(x@),
        None => None,
    }
}

impl View for UsageReader {
    type V = ReaderView;

    closed spec fn view(&self) -> ReaderView {
        ReaderView {
            stats: self.stats@,
            starts: text_keys(self.starts@),
            started_turns: strings_view(self.started_turns@),
            active_turn: opt_view(self.active_turn),
            legacy_model: opt_view(self.legacy_model),
            previous_total: self.previous_total,
        }
    }
}

/// Whether every count can take one more and the duration totals are within
/// the range of a `time::Duration`.
pub open spec fn has_room_spec(r: ReaderView) -> bool {
    &&& r.stats.malformed_lines < usize::MAX
    &&& r.stats.invalid_usage_records < usize::MAX
    &&& r.stats.ended_turns < usize::MAX
    &&& r.started_turns.len() < usize::MAX
    &&& -duration_limit() <= r.stats.duration <= duration_limit()
    &&& forall|i: int| 0 <= i < r.stats.turn_durations.len() ==> -duration_limit() <= #[trigger] r.stats.turn_durations[i].1 <= duration_limit()
    &&& forall|i: int| 0 <= i < r.starts.len() ==> rfc3339_in_range(#[trigger] r.starts[i].1)
}

pub open spec fn incomplete(s: StatsView) -> StatsView {
    StatsView { totals: UsageTotals { incomplete_usage: true, ..s.totals }, ..s }
}

/// An item's timestamp, with a malformed one marking the usage incomplete.
pub open spec fn stamp(s: StatsView, item: Json) -> (StatsView, Option<i128>) {
    match timestamp_of(item) {
        Ok(at) => (s, at),
        Err(()) => (incomplete(s), None),
    }
}

pub open spec fn invalid_record(r: ReaderView) -> ReaderView {
    ReaderView {
        stats: incomplete(StatsView { invalid_usage_records: r.stats.invalid_usage_records + 1, ..r.stats }),
        ..r
    }
}

/// A turn starts: when the event names a turn the first reading saw, it
/// becomes the active turn, is counted, and its start time is kept.
pub open spec fn started_step(r: ReaderView, idx: TurnIndexView, item: Json, payload: Json) -> ReaderView {
    let turn = event_turn_id_spec(payload);
    let active = match turn {
        Some(t) => if first_key(idx.turn_contexts, t) is Some { Some(t) } else { None },
        None => None,
    };
    match active {
        None => ReaderView { active_turn: None, ..r },
        Some(t) => {
            let (s, at) = stamp(r.stats, item);
            ReaderView {
                stats: s,
                active_turn: Some(t),
                legacy_model: None,
                started_turns: r.started_turns.push(t),
                starts: match at {
                    Some(a) => assign(r.starts, t, a),
                    None => r.starts,
                },
                ..r
            }
        },
    }
}

/// The stats after a started turn `t` ended at `ended_at`: counted, and
/// when the end is known its duration added to the total and to the turn's
/// model.
pub open spec fn ended_stats(s: StatsView, idx: TurnIndexView, t: Seq<char>, started: i128, ended_at: Option<i128>) -> StatsView {
    let counted = StatsView { ended_turns: s.ended_turns + 1, ..s };
    match ended_at {
        None => counted,
        Some(e) => {
            let d = e - started;
            let timed = StatsView { duration: counted.duration + d, ..counted };
            match lookup(idx.turn_contexts, t) {
                Some(context) => StatsView {
                    turn_durations: assign(
                        timed.turn_durations,
                        context.0,
                        match lookup(timed.turn_durations, context.0) {
                            Some(x) => x + d,
                            None => d,
                        },
                    ),
                    ..timed
                },
                None => timed,
            }
        },
    }
}

/// A turn ends (completed or aborted): the event's turn, else the active
/// one, loses its start time and is counted; the active turn ends when it is
/// that turn, and a turn-less end clears the legacy model.
pub open spec fn ended_step(r: ReaderView, idx: TurnIndexView, item: Json, payload: Json) -> ReaderView {
    let turn = match event_turn_id_spec(payload) {
        Some(t) => Some(t),
        None => r.active_turn,
    };
    let (s1, ended_at) = stamp(r.stats, item);
    let (s2, starts2) = match turn {
        Some(t) => match lookup(r.starts, t) {
            Some(started) => (ended_stats(s1, idx, t, started, ended_at), remove_key(r.starts, t)),
            None => (s1, r.starts),
        },
        None => (s1, r.starts),
    };
    ReaderView {
        stats: s2,
        starts: starts2,
        active_turn: if turn == r.active_turn { None } else { r.active_turn },
        legacy_model: if turn is None { None } else { r.legacy_model },
        ..r
    }
}

/// A token-count event: its per-event usage (see `normalized_usage`) is
/// added for the active turn's model, else the legacy model; without a model
/// it is unattributed (counted only when the rollout has several session
/// metadata lines) and the usage incomplete.
pub open spec fn token_step(r: ReaderView, idx: TurnIndexView, item: Json, payload: Json) -> ReaderView {
    match member(payload, "info"@) {
        Some(Json::Object(entries)) => {
            let info = Json::Object(entries);
            match member(info, "last_token_usage"@) {
                None => r,
                Some(lv) => match usage_of(lv) {
                    None => invalid_record(r),
                    Some(last) => {
                        let total = match member(info, "total_token_usage"@) {
                            Some(tv) => match usage_of(tv) {
                                Some(t) => Ok(Some(t)),
                                None => Err(()),
                            },
                            None => Ok(None),
                        };
                        match total {
                            Err(()) => invalid_record(r),
                            Ok(total) => {
                                let normalized = normalized_usage(last, total, r.previous_total);
                                let r1 = ReaderView {
                                    previous_total: match total {
                                        Some(t) => Some(t),
                                        None => r.previous_total,
                                    },
                                    ..r
                                };
                                if !normalized.has_tokens_spec() {
                                    r1
                                } else {
                                    let model = match r1.active_turn {
                                        Some(t) => match lookup(idx.turn_contexts, t) {
                                            Some(context) => Some(context.0),
                                            None => r1.legacy_model,
                                        },
                                        None => r1.legacy_model,
                                    };
                                    match model {
                                        None => {
                                            let totals = if idx.session_meta_count > 1 {
                                                with_unattributed(r1.stats.totals, normalized.total_tokens)
                                            } else {
                                                r1.stats.totals
                                            };
                                            ReaderView {
                                                stats: incomplete(StatsView { totals, ..r1.stats }),
                                                ..r1
                                            }
                                        },
                                        Some(m) => if !addable(r1.stats.totals, normalized) {
                                            invalid_record(r1)
                                        } else {
                                            let s1 = StatsView {
                                                totals: with_usage(r1.stats.totals, normalized),
                                                ..r1.stats
                                            };
                                            let (s2, at) = stamp(s1, item);
                                            ReaderView {
                                                stats: StatsView {
                                                    events: s2.events.push(
                                                        EventView {
                                                            model: m,
                                                            at: match at {
                                                                Some(a) => Some(a),
                                                                None => idx.session_at,
                                                            },
                                                            usage: normalized.usage,
                                                            reasoning_output: normalized.reasoning_output,
                                                        },
                                                    ),
                                                    ..s2
                                                },
                                                ..r1
                                            }
                                        },
                                    }
                                }
                            },
                        }
                    },
                },
            }
        },
        _ => r,
    }
}

/// One line of the second reading.
pub open spec fn read_step(r: ReaderView, idx: TurnIndexView, item: Option<Json>) -> ReaderView {
    match item {
        None => ReaderView {
            stats: incomplete(StatsView { malformed_lines: r.stats.malformed_lines + 1, ..r.stats }),
            ..r
        },
        Some(it) => match member(it, "payload"@) {
            Some(Json::Object(entries)) => {
                let payload = Json::Object(entries);
                if item_type(it) == Some("turn_context"@) {
                    if text_of(member(payload, "turn_id"@)) is Some {
                        ReaderView { legacy_model: None, ..r }
                    } else if idx.session_meta_count == 1 {
                        ReaderView { legacy_model: Some(model_context_spec(payload).0), ..r }
                    } else {
                        r
                    }
                } else if item_type(it) != Some("event_msg"@) {
                    r
                } else {
                    match text_of(member(payload, "type"@)) {
                        None => r,
                        Some(et) => if et@ == "task_started"@ || et@ == "turn_started"@ {
                            started_step(r, idx, it, payload)
                        } else if et@ == "task_complete"@ || et@ == "turn_complete"@ || et@
                            == "task_aborted"@ || et@ == "turn_aborted"@ {
                            ended_step(r, idx, it, payload)
                        } else if et@ == "token_count"@ {
                            token_step(r, idx, it, payload)
                        } else {
                            r
                        },
                    }
                }
            },
            _ => r,
        },
    }
}


fn stamp_exec(totals: &mut UsageTotals, item: &Json) -> (r: Option<i128>)
    ensures
        match timestamp_of(*item) {
            Ok(at) => r == at && *final(totals) == *old(totals),
            Err(()) => r is None && *final(totals) == (UsageTotals { incomplete_usage: true, ..*old(totals) }),
        },
        r matches Some(n) ==> rfc3339_in_range(n),
{
    match timestamp(item) {
        Ok(at) => at,
        Err(()) => {
            totals.incomplete_usage = true;
            None
        },
    }
}

impl UsageReader {
    /// Nothing read yet; the usage starts out incomplete when the first
    /// reading found a malformed session timestamp.
    pub fn new(idx: &TurnIndex) -> (r: UsageReader)
        ensures
            r@.stats.totals == (UsageTotals {
                known_usage: Usage { input: 0, cached_input: 0, cache_write_input: 0, output: 0 },
                reasoning_output: 0,
                unattributed_tokens: 0,
                incomplete_usage: idx@.malformed_timestamp,
            }),
            r@.stats.events.len() == 0,
            r@.stats.turns == 0,
            r@.stats.ended_turns == 0,
            r@.stats.duration == 0,
            r@.stats.turn_durations.len() == 0,
            r@.stats.turn_models.len() == 0,
            r@.stats.malformed_lines == 0,
            r@.stats.oversized_lines == 0,
            r@.stats.invalid_usage_records == 0,
            r@.starts.len() == 0,
            r@.started_turns.len() == 0,
            r@.active_turn is None,
            r@.legacy_model is None,
            r@.previous_total is None,
    {
        UsageReader {
            stats: RolloutStats {
                totals: UsageTotals {
                    known_usage: Usage { input: 0, cached_input: 0, cache_write_input: 0, output: 0 },
                    reasoning_output: 0,
                    unattributed_tokens: 0,
                    incomplete_usage: idx.malformed_timestamp(),
                },
                events: Vec::new(),
                turns: 0,
                ended_turns: 0,
                duration: 0,
                turn_durations: Vec::new(),
                turn_models: Vec::new(),
                malformed_lines: 0,
                oversized_lines: 0,
                invalid_usage_records: 0,
            },
            starts: Vec::new(),
            started_turns: Vec::new(),
            active_turn: None,
            legacy_model: None,
            previous_total: None,
        }
    }

    /// Whether another line can be read (see `has_room_spec`).
    pub fn has_room(&self) -> (r: bool)
        ensures
            r == has_room_spec(self@),
    {
        let limit: i128 = 9_223_372_036_854_775_807_000_000_000;
        if !(self.stats.malformed_lines < usize::MAX && self.stats.invalid_usage_records < usize::MAX
            && self.stats.ended_turns < usize::MAX && self.started_turns.len() < usize::MAX
            && -limit <= self.stats.duration && self.stats.duration <= limit) {
            return false;
        }
        let mut i: usize = 0;
        while i < self.stats.turn_durations.len()
            invariant
                i <= self.stats.turn_durations.len(),
                limit == duration_limit(),
                forall|j: int| 0 <= j < i ==> -duration_limit() <= #[trigger] durations_view(self.stats.turn_durations@)[j].1 <= duration_limit(),
            decreases self.stats.turn_durations.len() - i,
        {
            let v = self.stats.turn_durations[i].1;
            if v < -limit || v > limit {
                assert(self@.stats.turn_durations[i as int].1 == v as int);
                return false;
            }
            i += 1;
        }
        let mut k: usize = 0;
        while k < self.starts.len()
            invariant
                k <= self.starts.len(),
                forall|j: int| 0 <= j < self.stats.turn_durations@.len() ==> -duration_limit() <= #[trigger] durations_view(self.stats.turn_durations@)[j].1 <= duration_limit(),
                forall|j: int| 0 <= j < k ==> rfc3339_in_range(#[trigger] text_keys(self.starts@)[j].1),
            decreases self.starts.len() - k,
        {
            let v = self.starts[k].1;
            if !(-63_000_000_000_000_000_000i128 <= v && v <= 254_000_000_000_000_000_000i128) {
                assert(self@.starts[k as int].1 == v);
                return false;
            }
            k += 1;
        }
        true
    }

    fn started(&mut self, idx: &TurnIndex, item: &Json, payload: &Json)
        ensures
            final(self)@ == started_step(old(self)@, idx@, *item, *payload),
    {
        let turn = event_turn_id(payload);
        let active = match turn {
            Some(t) => match idx.context(t.as_str()) {
                Some(_) => Some(t),
                None => None,
            },
            None => None,
        };
        match active {
            None => {
                self.active_turn = None;
            },
            Some(t) => {
                let at = stamp_exec(&mut self.stats.totals, item);
                self.legacy_model = None;
                let ghost turns_before = self.started_turns@;
                self.started_turns.push(t.clone());
                assert(strings_view(self.started_turns@) =~= strings_view(turns_before).push(t@));
                match at {
                    Some(a) => {
                        let ghost before = self.starts@;
                        match find_text_key(&self.starts, t.as_str()) {
                            Some(i) => {
                                self.starts.set(i, (t.clone(), a));
                                assert(text_keys(self.starts@) =~= text_keys(before).update(i as int, (t@, a)));
                            },
                            None => {
                                self.starts.push((t.clone(), a));
                                assert(text_keys(self.starts@) =~= text_keys(before).push((t@, a)));
                            },
                        }
                    },
                    None => {},
                }
                self.active_turn = Some(t);
            },
        }
    }

    fn ended(&mut self, idx: &TurnIndex, item: &Json, payload: &Json)
        requires
            has_room_spec(old(self)@),
        ensures
            final(self)@ == ended_step(old(self)@, idx@, *item, *payload),
    {
        let turn: Option<String> = match event_turn_id(payload) {
            Some(t) => Some(t),
            None => match &self.active_turn {
                Some(a) => Some(a.clone()),
                None => None,
            },
        };
        let ended_at = stamp_exec(&mut self.stats.totals, item);
        let ghost s1 = self@.stats;
        match &turn {
            Some(t) => {
                match find_text_key(&self.starts, t.as_str()) {
                    Some(i) => {
                        let started = self.starts[i].1;
                        assert(rfc3339_in_range(old(self)@.starts[i as int].1));
                        let ghost starts_before = self.starts@;
                        self.starts.remove(i);
                        assert(text_keys(self.starts@) =~= text_keys(starts_before).remove(i as int));
                        self.stats.ended_turns = self.stats.ended_turns + 1;
                        match ended_at {
                            Some(e) => {
                                let d = e - started;
                                self.stats.duration = self.stats.duration + d;
                                match idx.context(t.as_str()) {
                                    Some(context) => {
                                        let model = &context.0;
                                        let ghost durations_before = self.stats.turn_durations@;
                                        proof {
                                            lemma_first_key_same_keys(
                                                text_keys(durations_before),
                                                durations_view(durations_before),
                                                model@,
                                            );
                                        }
                                        match find_text_key(&self.stats.turn_durations, model.as_str()) {
                                            Some(j) => {
                                                let previous = self.stats.turn_durations[j].1;
                                                assert(-duration_limit() <= old(self)@.stats.turn_durations[j as int].1 <= duration_limit());
                                                self.stats.turn_durations.set(j, (model.clone(), previous + d));
                                                assert(durations_view(self.stats.turn_durations@) =~= durations_view(
                                                    durations_before,
                                                ).update(j as int, (model@, previous + d)));
                                            },
                                            None => {
                                                self.stats.turn_durations.push((model.clone(), d));
                                                assert(durations_view(self.stats.turn_durations@) =~= durations_view(
                                                    durations_before,
                                                ).push((model@, d as int)));
                                            },
                                        }
                                    },
                                    None => {},
                                }
                            },
                            None => {},
                        }
                    },
                    None => {},
                }
            },
            None => {},
        }
        let same = match (&turn, &self.active_turn) {
            (Some(a), Some(b)) => str_eq(a.as_str(), b.as_str()),
            (None, None) => true,
            _ => false,
        };
        if same {
            self.active_turn = None;
        }
        if turn.is_none() {
            self.legacy_model = None;
        }
    }

    fn invalid(&mut self)
        requires
            old(self)@.stats.invalid_usage_records < usize::MAX,
        ensures
            final(self)@ == invalid_record(old(self)@),
    {
        self.stats.invalid_usage_records = self.stats.invalid_usage_records + 1;
        self.stats.totals.incomplete_usage = true;
    }

    fn token(&mut self, idx: &TurnIndex, item: &Json, payload: &Json)
        requires
            has_room_spec(old(self)@),
        ensures
            final(self)@ == token_step(old(self)@, idx@, *item, *payload),
    {
        let info = match payload.get("info") {
            Some(i) => i,
            None => return ,
        };
        match info {
            Json::Object(_) => {},
            _ => return ,
        }
        let last_value = match info.get("last_token_usage") {
            Some(v) => v,
            None => return ,
        };
        let last = match TokenUsage::from_json(last_value) {
            Some(u) => u,
            None => {
                self.invalid();
                return ;
            },
        };
        let total = match info.get("total_token_usage") {
            Some(tv) => match TokenUsage::from_json(tv) {
                Some(t) => Some(t),
                None => {
                    self.invalid();
                    return ;
                },
            },
            None => None,
        };
        let normalized = normalize_usage(last, total, self.previous_total);
        match total {
            Some(t) => {
                self.previous_total = Some(t);
            },
            None => {},
        }
        if !normalized.has_tokens() {
            return ;
        }
        let legacy: Option<String> = match &self.legacy_model {
            Some(l) => Some(l.clone()),
            None => None,
        };
        let model: Option<String> = match &self.active_turn {
            Some(t) => match idx.context(t.as_str()) {
                Some(c) => Some(c.0.clone()),
                None => legacy,
            },
            None => legacy,
        };
        match model {
            None => {
                if idx.session_meta_count() > 1 {
                    add_unattributed(&mut self.stats.totals, normalized.total_tokens);
                }
                self.stats.totals.incomplete_usage = true;
            },
            Some(m) => {
                if !add_known_usage(&mut self.stats.totals, normalized) {
                    self.invalid();
                    return ;
                }
                let at = stamp_exec(&mut self.stats.totals, item);
                let when = match at {
                    Some(a) => Some(a),
                    None => idx.session_at(),
                };
                let ghost events_before = self.stats.events@;
                let event = UsageEvent {
                    model: m,
                    at: when,
                    usage: normalized.usage,
                    reasoning_output: normalized.reasoning_output,
                };
                let ghost ev = event_view(event);
                self.stats.events.push(event);
                assert(events_view(self.stats.events@) =~= events_view(events_before).push(ev));
            },
        }
    }

    /// Reads one line of the second reading (see `read_step`).
    pub fn read_line(&mut self, idx: &TurnIndex, item: Option<&Json>)
        requires
            has_room_spec(old(self)@),
        ensures
            final(self)@ == read_step(old(self)@, idx@, deref_opt(item)),
    {
        let it = match item {
            Some(it) => it,
            None => {
                self.stats.malformed_lines = self.stats.malformed_lines + 1;
                self.stats.totals.incomplete_usage = true;
                return ;
            },
        };
        let payload = match it.get("payload") {
            Some(p) => p,
            None => return ,
        };
        match payload {
            Json::Object(_) => {},
            _ => return ,
        }
        if type_is(it, "turn_context") {
            let has_turn = match payload.get("turn_id") {
                Some(Json::Text(_)) => true,
                _ => false,
            };
            if has_turn {
                self.legacy_model = None;
            } else if idx.session_meta_count() == 1 {
                let context = model_context(payload);
                self.legacy_model = Some(context.0);
            }
            return ;
        }
        if !type_is(it, "event_msg") {
            return ;
        }
        let event_type = match payload.get("type") {
            Some(Json::Text(t)) => t,
            _ => return ,
        };
        let et = event_type.as_str();
        if str_eq(et, "task_started") || str_eq(et, "turn_started") {
            self.started(idx, it, payload);
        } else if str_eq(et, "task_complete") || str_eq(et, "turn_complete") || str_eq(et, "task_aborted")
            || str_eq(et, "turn_aborted") {
            self.ended(idx, it, payload);
        } else if str_eq(et, "token_count") {
            self.token(idx, it, payload);
        }
    }

    /// The totals, once both readings are done and `oversized_lines` lines
    /// were skipped as too long (see `finish_spec`).
    pub fn finish(self, idx: &TurnIndex, oversized_lines: usize) -> (r: RolloutStats)
        ensures
            r@ == finish_spec(self@, idx@, oversized_lines as nat),
    {
        let mut stats = self.stats;
        stats.oversized_lines = oversized_lines;
        if oversized_lines > 0 {
            stats.totals.incomplete_usage = true;
        }
        stats.turns = self.started_turns.len();
        let ghost all = strings_view(self.started_turns@);
        let ghost ctx = idx@.turn_contexts;
        let mut models: Vec<((String, String), usize)> = Vec::new();
        let mut k: usize = 0;
        assert(all.skip(0) =~= all);
        assert(models_view(models@) =~= Seq::empty());
        while k < self.started_turns.len()
            invariant
                k <= self.started_turns.len(),
                all == strings_view(self.started_turns@),
                ctx == idx@.turn_contexts,
                tally(Seq::empty(), all, ctx) == tally(models_view(models@), all.skip(k as int), ctx),
                forall|q: int| 0 <= q < models@.len() ==> #[trigger] models@[q].1 <= k,
            decreases self.started_turns.len() - k,
        {
            let turn = &self.started_turns[k];
            let (model, effort) = match idx.context(turn.as_str()) {
                Some(c) => (c.0.clone(), c.1.clone()),
                None => (String::from_str("unknown"), String::from_str("unknown")),
            };
            let ghost before = models@;
            let ghost key = (model@, effort@);
            proof {
                assert(all.skip(k as int).drop_first() =~= all.skip(k + 1));
                assert(all.skip(k as int)[0] == turn@);
                lemma_first_key_same_keys(pair_keys(before), models_view(before), key);
            }
            match find_pair_key(&models, model.as_str(), effort.as_str()) {
                Some(j) => {
                    let count = models[j].1;
                    models.set(j, ((model, effort), count + 1));
                    assert(models_view(models@) =~= models_view(before).update(j as int, (key, (count + 1) as nat)));
                },
                None => {
                    models.push(((model, effort), 1));
                    assert(models_view(models@) =~= models_view(before).push((key, 1nat)));
                },
            }
            k += 1;
        }
        assert(all.skip(k as int).len() == 0);
        stats.turn_models = models;
        stats
    }

}


/// The turn models counted over the started turns: each turn's model and
/// effort, `unknown` for both when the first reading saw no context for it.
pub open spec fn tally(
    counts: Seq<((Seq<char>, Seq<char>), nat)>,
    turns: Seq<Seq<char>>,
    contexts: Seq<(Seq<char>, (Seq<char>, Seq<char>))>,
) -> Seq<((Seq<char>, Seq<char>), nat)>
    decreases turns.len(),
{
    if turns.len() == 0 {
        counts
    } else {
        let key = match lookup(contexts, turns[0]) {
            Some(c) => c,
            None => ("unknown"@, "unknown"@),
        };
        tally(
            assign(
                counts,
                key,
                match lookup(counts, key) {
                    Some(n) => n + 1,
                    None => 1,
                },
            ),
            turns.drop_first(),
            contexts,
        )
    }
}

/// The stats once both readings are done: lines skipped as too long make the
/// usage incomplete, every started turn is counted, and the turn models are
/// tallied.
pub open spec fn finish_spec(r: ReaderView, idx: TurnIndexView, oversized_lines: nat) -> StatsView {
    StatsView {
        oversized_lines,
        totals: if oversized_lines > 0 {
            UsageTotals { incomplete_usage: true, ..r.stats.totals }
        } else {
            r.stats.totals
        },
        turns: r.started_turns.len(),
        turn_models: tally(Seq::empty(), r.started_turns, idx.turn_contexts),
        ..r.stats
    }
}

} // verus!
