//! The token and turn counts of a report, summed over the rollouts it
//! covers, with the counts kept per model.
use vstd::prelude::*;

use crate::analysis::Usage;
use crate::sort::{lemma_lex_antisymmetric, lemma_lex_total, lemma_lex_transitive, lex_le, str_less};
use crate::text::str_eq;
use crate::analyze::{event_view, events_view, models_view, durations_view, EventView, RolloutStats, StatsView};
use crate::keyed::{
    assign, distinct_keys, find_pair_key, lemma_assign_distinct, find_text_key, first_key, lemma_first_key_at, lemma_first_key_bounds,
    lemma_first_key_none, lookup, pair_keys, text_keys,
};

verus! {

/// The counts kept for one model.
#[derive(Clone, Copy, Debug, PartialEq, Eq, Structural)]
pub struct ModelTally {
    pub usage: Usage,
    pub reasoning_output: u64,
    pub turns: usize,
    /// Some of the model's usage could not be priced.
    pub incomplete: bool,
}

/// A model with nothing counted yet.
pub open spec fn zero_model() -> ModelTally {
    ModelTally {
        usage: Usage { input: 0, cached_input: 0, cache_write_input: 0, output: 0 },
        reasoning_output: 0,
        turns: 0,
        incomplete: false,
    }
}

/// The value under `k`, or `zero` when there is none.
pub open spec fn value_or<K, V>(m: Seq<(K, V)>, k: K, zero: V) -> V {
    match lookup(m, k) {
        Some(v) => v,
        None => zero,
    }
}

/// The table with an entry for `k`: unchanged when it has one, else with
/// `(k, zero)` appended.
pub open spec fn touch<K, V>(m: Seq<(K, V)>, k: K, zero: V) -> Seq<(K, V)> {
    match first_key(m, k) {
        Some(_) => m,
        None => m.push((k, zero)),
    }
}

/// Token counts added field by field, each saturating.
pub open spec fn usage_plus(a: Usage, b: Usage) -> Usage {
    Usage {
        input: a.input.saturating_add(b.input),
        cached_input: a.cached_input.saturating_add(b.cached_input),
        cache_write_input: a.cache_write_input.saturating_add(b.cache_write_input),
        output: a.output.saturating_add(b.output),
    }
}

/// `a + b`, saturating at `usize::MAX`.
pub open spec fn count_plus(a: usize, b: nat) -> usize {
    if a + b > usize::MAX {
        usize::MAX
    } else {
        (a + b) as usize
    }
}

/// The models table with an entry for each of the first `n` models that
/// spent time in turns.
pub open spec fn touched(m: Seq<(Seq<char>, ModelTally)>, durations: Seq<(Seq<char>, int)>, n: int) -> Seq<
    (Seq<char>, ModelTally),
>
    decreases n,
{
    if n <= 0 {
        m
    } else {
        touch(touched(m, durations, n - 1), durations[n - 1].0, zero_model())
    }
}

/// Counting one (model, effort) turn count: the pair's count and the
/// model's turns grow by it.
pub open spec fn count_step(
    t: (Seq<((Seq<char>, Seq<char>), usize)>, Seq<(Seq<char>, ModelTally)>),
    e: ((Seq<char>, Seq<char>), nat),
) -> (Seq<((Seq<char>, Seq<char>), usize)>, Seq<(Seq<char>, ModelTally)>) {
    let mt = value_or(t.1, e.0.0, zero_model());
    (
        assign(t.0, e.0, count_plus(value_or(t.0, e.0, 0usize), e.1)),
        assign(t.1, e.0.0, ModelTally { turns: count_plus(mt.turns, e.1), ..mt }),
    )
}

/// The first `n` turn counts counted.
pub open spec fn counted(
    t: (Seq<((Seq<char>, Seq<char>), usize)>, Seq<(Seq<char>, ModelTally)>),
    add: Seq<((Seq<char>, Seq<char>), nat)>,
    n: int,
) -> (Seq<((Seq<char>, Seq<char>), usize)>, Seq<(Seq<char>, ModelTally)>)
    decreases n,
{
    if n <= 0 {
        t
    } else {
        count_step(counted(t, add, n - 1), add[n - 1])
    }
}

/// Counting one usage event, given whether its cost could be priced: its
/// model's counts grow; an unpriced event's tokens (input and output) are
/// counted against its model, and make the model and the whole incomplete.
pub open spec fn event_step(
    t: (Seq<(Seq<char>, ModelTally)>, Seq<(Seq<char>, u64)>, bool),
    e: EventView,
    priced: bool,
) -> (Seq<(Seq<char>, ModelTally)>, Seq<(Seq<char>, u64)>, bool) {
    let mt = value_or(t.0, e.model, zero_model());
    let next = ModelTally {
        usage: usage_plus(mt.usage, e.usage),
        reasoning_output: mt.reasoning_output.saturating_add(e.reasoning_output),
        turns: mt.turns,
        incomplete: mt.incomplete || !priced,
    };
    let tokens = e.usage.input.saturating_add(e.usage.output);
    if priced {
        (assign(t.0, e.model, next), t.1, t.2)
    } else {
        (
            assign(t.0, e.model, next),
            assign(t.1, e.model, value_or(t.1, e.model, 0u64).saturating_add(tokens)),
            true,
        )
    }
}

/// The first `n` events counted.
pub open spec fn evented(
    t: (Seq<(Seq<char>, ModelTally)>, Seq<(Seq<char>, u64)>, bool),
    events: Seq<EventView>,
    priced: Seq<bool>,
    n: int,
) -> (Seq<(Seq<char>, ModelTally)>, Seq<(Seq<char>, u64)>, bool)
    decreases n,
{
    if n <= 0 {
        t
    } else {
        event_step(evented(t, events, priced, n - 1), events[n - 1], priced[n - 1])
    }
}

/// The counts of a report, summed over its rollouts.
pub struct Tally {
    pub rollout_count: usize,
    pub usage: Usage,
    pub reasoning_output: u64,
    pub turns: usize,
    pub ended_turns: usize,
    pub unattributed_tokens: u64,
    pub incomplete: bool,
    pub turn_models: Vec<((String, String), usize)>,
    pub models: Vec<(String, ModelTally)>,
    pub unpriced_models: Vec<(String, u64)>,
}

/// The abstract value of a `Tally`.
pub struct TallyView {
    pub rollout_count: usize,
    pub usage: Usage,
    pub reasoning_output: u64,
    pub turns: usize,
    pub ended_turns: usize,
    pub unattributed_tokens: u64,
    pub incomplete: bool,
    pub turn_models: Seq<((Seq<char>, Seq<char>), usize)>,
    pub models: Seq<(Seq<char>, ModelTally)>,
    pub unpriced_models: Seq<(Seq<char>, u64)>,
}

impl View for Tally {
    type V = TallyView;

    open spec fn view(&self) -> TallyView {
        TallyView {
            rollout_count: self.rollout_count,
            usage: self.usage,
            reasoning_output: self.reasoning_output,
            turns: self.turns,
            ended_turns: self.ended_turns,
            unattributed_tokens: self.unattributed_tokens,
            incomplete: self.incomplete,
            turn_models: pair_keys(self.turn_models@),
            models: text_keys(self.models@),
            unpriced_models: text_keys(self.unpriced_models@),
        }
    }
}

/// The counts after one more rollout, given for each of its usage events
/// whether its cost could be priced: every count grows, saturating; usage
/// that no model could be named for, or that was recorded incompletely,
/// makes the whole incomplete; each model that spent time in turns gets an
/// entry; then the turn counts and the events are counted in order.
pub open spec fn add_spec(t: TallyView, s: StatsView, priced: Seq<bool>) -> TallyView {
    let models = touched(t.models, s.turn_durations, s.turn_durations.len() as int);
    let c = counted((t.turn_models, models), s.turn_models, s.turn_models.len() as int);
    let e = evented(
        (c.1, t.unpriced_models, t.incomplete || s.totals.incomplete_usage || s.totals.unattributed_tokens > 0),
        s.events,
        priced,
        s.events.len() as int,
    );
    TallyView {
        rollout_count: t.rollout_count.saturating_add(1),
        usage: usage_plus(t.usage, s.totals.known_usage),
        reasoning_output: t.reasoning_output.saturating_add(s.totals.reasoning_output),
        turns: count_plus(t.turns, s.turns),
        ended_turns: count_plus(t.ended_turns, s.ended_turns),
        unattributed_tokens: t.unattributed_tokens.saturating_add(s.totals.unattributed_tokens),
        incomplete: e.2,
        turn_models: c.0,
        models: e.0,
        unpriced_models: e.1,
    }
}

proof fn lemma_push_absent<K, V>(m: Seq<(K, V)>, k: K, v: V)
    requires
        first_key(m, k) is None,
    ensures
        first_key(m.push((k, v)), k) == Some(m.len() as int),
{
    lemma_first_key_bounds(m, k);
    let p = m.push((k, v));
    assert forall|j: int| 0 <= j < m.len() implies #[trigger] p[j].0 != k by {
        assert(p[j] == m[j]);
    }
    lemma_first_key_at(p, k, m.len() as int);
}

/// Writing under `k` into a table that was given an entry for `k` is
/// writing under `k`; the entry's value is the one looked up before.
pub(crate) proof fn lemma_touch<K, V>(m: Seq<(K, V)>, k: K, zero: V, v: V)
    ensures
        assign(touch(m, k, zero), k, v) == assign(m, k, v),
        value_or(touch(m, k, zero), k, zero) == value_or(m, k, zero),
        first_key(touch(m, k, zero), k) is Some,
{
    if first_key(m, k) is None {
        lemma_push_absent(m, k, zero);
        assert(m.push((k, zero)).update(m.len() as int, (k, v)) =~= m.push((k, v)));
    }
}

/// The position of the entry for `k` in a table of text keys, added with
/// value `zero` when there is none.
pub(crate) fn text_slot<V: Copy>(m: &mut Vec<(String, V)>, k: &str, zero: V) -> (i: usize)
    ensures
        text_keys(final(m)@) == touch(text_keys(old(m)@), k@, zero),
        first_key(text_keys(final(m)@), k@) == Some(i as int),
        i < final(m).len(),
        final(m)@[i as int].0@ == k@,
        final(m)@[i as int].1 == value_or(text_keys(old(m)@), k@, zero),
{
    let ghost before = text_keys(m@);
    match find_text_key(m, k) {
        Some(i) => {
            proof {
                lemma_first_key_bounds(before, k@);
            }
            assert(before[i as int] == (m@[i as int].0@, m@[i as int].1));
            i
        },
        None => {
            let i = m.len();
            m.push((String::from_str(k), zero));
            assert(text_keys(m@) =~= before.push((k@, zero)));
            proof {
                lemma_push_absent(before, k@, zero);
            }
            i
        },
    }
}

/// The position of the entry for the pair `(a, b)`, added with value `zero`
/// when there is none.
fn pair_slot<V: Copy>(m: &mut Vec<((String, String), V)>, a: &str, b: &str, zero: V) -> (i: usize)
    ensures
        pair_keys(final(m)@) == touch(pair_keys(old(m)@), (a@, b@), zero),
        first_key(pair_keys(final(m)@), (a@, b@)) == Some(i as int),
        i < final(m).len(),
        final(m)@[i as int].0.0@ == a@,
        final(m)@[i as int].0.1@ == b@,
        final(m)@[i as int].1 == value_or(pair_keys(old(m)@), (a@, b@), zero),
{
    let ghost before = pair_keys(m@);
    match find_pair_key(m, a, b) {
        Some(i) => {
            proof {
                lemma_first_key_bounds(before, (a@, b@));
            }
            assert(before[i as int] == ((m@[i as int].0.0@, m@[i as int].0.1@), m@[i as int].1));
            i
        },
        None => {
            let i = m.len();
            m.push(((String::from_str(a), String::from_str(b)), zero));
            assert(pair_keys(m@) =~= before.push(((a@, b@), zero)));
            proof {
                lemma_push_absent(before, (a@, b@), zero);
            }
            i
        },
    }
}

pub(crate) fn usage_add(a: Usage, b: Usage) -> (r: Usage)
    ensures
        r == usage_plus(a, b),
{
    Usage {
        input: a.input.saturating_add(b.input),
        cached_input: a.cached_input.saturating_add(b.cached_input),
        cache_write_input: a.cache_write_input.saturating_add(b.cache_write_input),
        output: a.output.saturating_add(b.output),
    }
}

fn zero_tally() -> (r: ModelTally)
    ensures
        r == zero_model(),
{
    ModelTally {
        usage: Usage { input: 0, cached_input: 0, cache_write_input: 0, output: 0 },
        reasoning_output: 0,
        turns: 0,
        incomplete: false,
    }
}

impl Tally {
    /// Nothing counted.
    pub fn new() -> (r: Tally)
        ensures
            r@ == (TallyView {
                rollout_count: 0,
                usage: Usage { input: 0, cached_input: 0, cache_write_input: 0, output: 0 },
                reasoning_output: 0,
                turns: 0,
                ended_turns: 0,
                unattributed_tokens: 0,
                incomplete: false,
                turn_models: Seq::empty(),
                models: Seq::empty(),
                unpriced_models: Seq::empty(),
            }),
    {
        let r = Tally {
            rollout_count: 0,
            usage: Usage { input: 0, cached_input: 0, cache_write_input: 0, output: 0 },
            reasoning_output: 0,
            turns: 0,
            ended_turns: 0,
            unattributed_tokens: 0,
            incomplete: false,
            turn_models: Vec::new(),
            models: Vec::new(),
            unpriced_models: Vec::new(),
        };
        assert(pair_keys(r.turn_models@) =~= Seq::empty());
        assert(text_keys(r.models@) =~= Seq::empty());
        assert(text_keys(r.unpriced_models@) =~= Seq::empty());
        r
    }

    /// Counts a rollout that could not be read: one more rollout, and the
    /// whole is incomplete.
    pub fn add_unreadable(&mut self)
        ensures
            final(self)@ == (TallyView {
                rollout_count: old(self)@.rollout_count.saturating_add(1),
                incomplete: true,
                ..old(self)@
            }),
    {
        self.rollout_count = self.rollout_count.saturating_add(1);
        self.incomplete = true;
    }

    /// Counts one more rollout (see `add_spec`); `priced` says for each of
    /// its usage events whether its cost could be priced.
    pub fn add(&mut self, stats: &RolloutStats, priced: &[bool])
        requires
            priced.len() == stats.events.len(),
        ensures
            final(self)@ == add_spec(old(self)@, stats@, priced@),
    {
        let ghost s = stats@;
        let ghost t0 = self@;
        self.rollout_count = self.rollout_count.saturating_add(1);
        self.usage = usage_add(self.usage, stats.totals.known_usage);
        self.reasoning_output = self.reasoning_output.saturating_add(stats.totals.reasoning_output);
        self.turns = self.turns.saturating_add(stats.turns);
        self.ended_turns = self.ended_turns.saturating_add(stats.ended_turns);
        self.unattributed_tokens = self.unattributed_tokens.saturating_add(stats.totals.unattributed_tokens);
        self.incomplete = self.incomplete || stats.totals.incomplete_usage || stats.totals.unattributed_tokens > 0;
        let ghost incomplete1 = self.incomplete;
        let ghost t1 = self@;

        let mut k: usize = 0;
        while k < stats.turn_durations.len()
            invariant
                k <= stats.turn_durations.len(),
                s == stats@,
                self.rollout_count == t1.rollout_count,
                self.usage == t1.usage,
                self.reasoning_output == t1.reasoning_output,
                self.turns == t1.turns,
                self.ended_turns == t1.ended_turns,
                self.unattributed_tokens == t1.unattributed_tokens,
                text_keys(self.models@) == touched(t0.models, s.turn_durations, k as int),
                pair_keys(self.turn_models@) == t0.turn_models,
                text_keys(self.unpriced_models@) == t0.unpriced_models,
                self.incomplete == incomplete1,
            decreases stats.turn_durations.len() - k,
        {
            assert(s.turn_durations[k as int].0 == stats.turn_durations@[k as int].0@);
            let _ = text_slot(&mut self.models, stats.turn_durations[k].0.as_str(), zero_tally());
            k += 1;
        }
        let ghost models1 = text_keys(self.models@);

        let mut k: usize = 0;
        while k < stats.turn_models.len()
            invariant
                k <= stats.turn_models.len(),
                s == stats@,
                self.rollout_count == t1.rollout_count,
                self.usage == t1.usage,
                self.reasoning_output == t1.reasoning_output,
                self.turns == t1.turns,
                self.ended_turns == t1.ended_turns,
                self.unattributed_tokens == t1.unattributed_tokens,
                (pair_keys(self.turn_models@), text_keys(self.models@)) == counted(
                    (t0.turn_models, models1),
                    s.turn_models,
                    k as int,
                ),
                text_keys(self.unpriced_models@) == t0.unpriced_models,
                self.incomplete == incomplete1,
            decreases stats.turn_models.len() - k,
        {
            let entry = &stats.turn_models[k];
            let model = entry.0.0.as_str();
            let effort = entry.0.1.as_str();
            let count = entry.1;
            assert(s.turn_models[k as int] == ((model@, effort@), count as nat));
            let ghost tm = pair_keys(self.turn_models@);
            let ghost ms = text_keys(self.models@);
            let j = pair_slot(&mut self.turn_models, model, effort, 0usize);
            let prev = self.turn_models[j].1;
            let pair = (self.turn_models[j].0.0.clone(), self.turn_models[j].0.1.clone());
            self.turn_models.set(j, (pair, prev.saturating_add(count)));
            proof {
                lemma_touch(tm, (model@, effort@), 0usize, count_plus(prev, count as nat));
                assert(pair_keys(self.turn_models@) =~= touch(tm, (model@, effort@), 0usize).update(
                    j as int,
                    ((model@, effort@), count_plus(prev, count as nat)),
                ));
            }
            let i = text_slot(&mut self.models, model, zero_tally());
            let mt = self.models[i].1;
            let name = self.models[i].0.clone();
            self.models.set(i, (name, ModelTally { turns: mt.turns.saturating_add(count), ..mt }));
            proof {
                let next = ModelTally { turns: count_plus(mt.turns, count as nat), ..mt };
                lemma_touch(ms, model@, zero_model(), next);
                assert(text_keys(self.models@) =~= touch(ms, model@, zero_model()).update(i as int, (model@, next)));
            }
            k += 1;
        }
        let ghost models2 = text_keys(self.models@);
        let ghost tm2 = pair_keys(self.turn_models@);

        let mut k: usize = 0;
        while k < stats.events.len()
            invariant
                k <= stats.events.len(),
                priced.len() == stats.events.len(),
                s == stats@,
                pair_keys(self.turn_models@) == tm2,
                self.rollout_count == t1.rollout_count,
                self.usage == t1.usage,
                self.reasoning_output == t1.reasoning_output,
                self.turns == t1.turns,
                self.ended_turns == t1.ended_turns,
                self.unattributed_tokens == t1.unattributed_tokens,
                (text_keys(self.models@), text_keys(self.unpriced_models@), self.incomplete) == evented(
                    (models2, t0.unpriced_models, incomplete1),
                    s.events,
                    priced@,
                    k as int,
                ),
            decreases stats.events.len() - k,
        {
            let e = &stats.events[k];
            assert(s.events[k as int] == event_view(*e));
            let ghost ms = text_keys(self.models@);
            let ghost un = text_keys(self.unpriced_models@);
            let i = text_slot(&mut self.models, e.model.as_str(), zero_tally());
            let mt = self.models[i].1;
            let next = ModelTally {
                usage: usage_add(mt.usage, e.usage),
                reasoning_output: mt.reasoning_output.saturating_add(e.reasoning_output),
                turns: mt.turns,
                incomplete: mt.incomplete || !priced[k],
            };
            let name = self.models[i].0.clone();
            self.models.set(i, (name, next));
            proof {
                lemma_touch(ms, e.model@, zero_model(), next);
                assert(text_keys(self.models@) =~= touch(ms, e.model@, zero_model()).update(i as int, (e.model@, next)));
            }
            if !priced[k] {
                let tokens = e.usage.input.saturating_add(e.usage.output);
                let j = text_slot(&mut self.unpriced_models, e.model.as_str(), 0u64);
                let prev = self.unpriced_models[j].1;
                let key = self.unpriced_models[j].0.clone();
                self.unpriced_models.set(j, (key, prev.saturating_add(tokens)));
                proof {
                    lemma_touch(un, e.model@, 0u64, prev.saturating_add(tokens));
                    assert(text_keys(self.unpriced_models@) =~= touch(un, e.model@, 0u64).update(
                        j as int,
                        (e.model@, prev.saturating_add(tokens)),
                    ));
                }
                self.incomplete = true;
            }
            k += 1;
        }
    }
}

/// The order of (model, effort) pairs: by model, then by effort.
pub open spec fn pair_le(a: (Seq<char>, Seq<char>), b: (Seq<char>, Seq<char>)) -> bool {
    (lex_le(a.0, b.0) && a.0 != b.0) || (a.0 == b.0 && lex_le(a.1, b.1))
}

proof fn lemma_lex_reflexive(a: Seq<char>)
    ensures
        lex_le(a, a),
    decreases a.len(),
{
    if a.len() > 0 {
        lemma_lex_reflexive(a.drop_first());
    }
}

proof fn lemma_pair_reflexive(a: (Seq<char>, Seq<char>))
    ensures
        pair_le(a, a),
{
    lemma_lex_reflexive(a.1);
}

proof fn lemma_pair_total(a: (Seq<char>, Seq<char>), b: (Seq<char>, Seq<char>))
    ensures
        pair_le(a, b) || pair_le(b, a),
{
    lemma_lex_total(a.0, b.0);
    lemma_lex_total(a.1, b.1);
}

proof fn lemma_pair_transitive(a: (Seq<char>, Seq<char>), b: (Seq<char>, Seq<char>), c: (Seq<char>, Seq<char>))
    requires
        pair_le(a, b),
        pair_le(b, c),
    ensures
        pair_le(a, c),
{
    lemma_lex_reflexive(a.0);
    lemma_lex_reflexive(b.0);
    if a.0 == b.0 && b.0 == c.0 {
        lemma_lex_transitive(a.1, b.1, c.1);
    } else {
        lemma_lex_transitive(a.0, b.0, c.0);
        if a.0 == c.0 {
            lemma_lex_antisymmetric(a.0, b.0);
        }
    }
}

/// The entry at `i` has the most turns, and among those with as many, the
/// first (model, effort) pair.
pub open spec fn majority_at(tm: Seq<((Seq<char>, Seq<char>), usize)>, i: int) -> bool {
    0 <= i < tm.len() && forall|j: int| 0 <= j < tm.len() ==> #[trigger] tm[j].1 < tm[i].1 || (tm[j].1 == tm[i].1
        && pair_le(tm[i].0, tm[j].0))
}

impl Tally {
    /// The (model, effort) pair with the most turns, the first in order
    /// among those with as many; none when no turn was counted.
    pub fn majority(&self) -> (r: Option<(String, String)>)
        ensures
            match r {
                None => self@.turn_models.len() == 0,
                Some(p) => exists|i: int| #[trigger] majority_at(self@.turn_models, i) && self@.turn_models[i].0 == (p.0@, p.1@),
            },
    {
        let tm = &self.turn_models;
        let ghost v = pair_keys(tm@);
        if tm.len() == 0 {
            assert(v.len() == 0);
            return None;
        }
        assert(v[0] == ((tm@[0].0.0@, tm@[0].0.1@), tm@[0].1));
        let mut best: usize = 0;
        let mut k: usize = 1;
        proof {
            lemma_pair_reflexive(v[0].0);
        }
        while k < tm.len()
            invariant
                1 <= k <= tm.len(),
                best < k,
                v == pair_keys(tm@),
                forall|j: int| 0 <= j < k ==> #[trigger] v[j].1 < v[best as int].1 || (v[j].1 == v[best as int].1
                    && pair_le(v[best as int].0, v[j].0)),
            decreases tm.len() - k,
        {
            let ghost kb = v[best as int];
            let ghost kk = v[k as int];
            assert(kb == ((tm@[best as int].0.0@, tm@[best as int].0.1@), tm@[best as int].1));
            assert(kk == ((tm@[k as int].0.0@, tm@[k as int].0.1@), tm@[k as int].1));
            let a = &tm[k];
            let b = &tm[best];
            let earlier = str_less(a.0.0.as_str(), b.0.0.as_str()) || (str_eq(a.0.0.as_str(), b.0.0.as_str())
                && (str_less(a.0.1.as_str(), b.0.1.as_str()) || str_eq(a.0.1.as_str(), b.0.1.as_str())));
            assert(earlier == pair_le(kk.0, kb.0)) by {
                if a.0.1@ == b.0.1@ {
                    assert(lex_le(kk.0.1, kb.0.1)) by {
                        lemma_lex_total(kk.0.1, kb.0.1);
                    }
                }
            }
            if a.1 > b.1 || (a.1 == b.1 && earlier && !(str_eq(a.0.0.as_str(), b.0.0.as_str()) && str_eq(a.0.1.as_str(), b.0.1.as_str()))) {
                proof {
                    assert forall|j: int| 0 <= j <= k implies #[trigger] v[j].1 < kk.1 || (v[j].1 == kk.1
                        && pair_le(kk.0, v[j].0)) by {
                        if j < k {
                            if v[j].1 == kk.1 {
                                assert(v[j].1 == kb.1);
                                lemma_pair_transitive(kk.0, kb.0, v[j].0);
                            }
                        } else {
                            lemma_pair_reflexive(kk.0);
                        }
                    }
                }
                best = k;
            } else {
                proof {
                    if kk.1 == kb.1 {
                        lemma_pair_total(kk.0, kb.0);
                        if pair_le(kk.0, kb.0) {
                            assert(kk.0 == kb.0 || !pair_le(kk.0, kb.0));
                            if kk.0 == kb.0 {
                                lemma_lex_total(kb.0.1, kb.0.1);
                            }
                        }
                    }
                }
            }
            k += 1;
        }
        assert(majority_at(v, best as int));
        let e = &tm[best];
        assert(v[best as int] == ((e.0.0@, e.0.1@), e.1));
        assert(majority_at(self@.turn_models, best as int) && self@.turn_models[best as int].0 == (e.0.0@, e.0.1@));
        Some((e.0.0.clone(), e.0.1.clone()))
    }
}

/// Every table of a tally lists each key once.
pub open spec fn tally_distinct(t: TallyView) -> bool {
    &&& distinct_keys(t.turn_models)
    &&& distinct_keys(t.models)
    &&& distinct_keys(t.unpriced_models)
}

proof fn lemma_touch_distinct<K, V>(m: Seq<(K, V)>, k: K, zero: V)
    requires
        distinct_keys(m),
    ensures
        distinct_keys(touch(m, k, zero)),
{
    if first_key(m, k) is None {
        lemma_assign_distinct(m, k, zero);
        assert(assign(m, k, zero) == m.push((k, zero)));
    }
}

proof fn lemma_touched_distinct(m: Seq<(Seq<char>, ModelTally)>, durations: Seq<(Seq<char>, int)>, n: int)
    requires
        distinct_keys(m),
    ensures
        distinct_keys(touched(m, durations, n)),
    decreases n,
{
    if n > 0 {
        lemma_touched_distinct(m, durations, n - 1);
        lemma_touch_distinct(touched(m, durations, n - 1), durations[n - 1].0, zero_model());
    }
}

proof fn lemma_counted_distinct(
    t: (Seq<((Seq<char>, Seq<char>), usize)>, Seq<(Seq<char>, ModelTally)>),
    add: Seq<((Seq<char>, Seq<char>), nat)>,
    n: int,
)
    requires
        distinct_keys(t.0),
        distinct_keys(t.1),
    ensures
        distinct_keys(counted(t, add, n).0),
        distinct_keys(counted(t, add, n).1),
    decreases n,
{
    if n > 0 {
        lemma_counted_distinct(t, add, n - 1);
        let c = counted(t, add, n - 1);
        let e = add[n - 1];
        let mt = value_or(c.1, e.0.0, zero_model());
        lemma_assign_distinct(c.0, e.0, count_plus(value_or(c.0, e.0, 0usize), e.1));
        lemma_assign_distinct(c.1, e.0.0, ModelTally { turns: count_plus(mt.turns, e.1), ..mt });
    }
}

proof fn lemma_evented_distinct(
    t: (Seq<(Seq<char>, ModelTally)>, Seq<(Seq<char>, u64)>, bool),
    events: Seq<EventView>,
    priced: Seq<bool>,
    n: int,
)
    requires
        distinct_keys(t.0),
        distinct_keys(t.1),
    ensures
        distinct_keys(evented(t, events, priced, n).0),
        distinct_keys(evented(t, events, priced, n).1),
    decreases n,
{
    if n > 0 {
        lemma_evented_distinct(t, events, priced, n - 1);
        let c = evented(t, events, priced, n - 1);
        let e = events[n - 1];
        let mt = value_or(c.0, e.model, zero_model());
        let next = ModelTally {
            usage: usage_plus(mt.usage, e.usage),
            reasoning_output: mt.reasoning_output.saturating_add(e.reasoning_output),
            turns: mt.turns,
            incomplete: mt.incomplete || !priced[n - 1],
        };
        let tokens = e.usage.input.saturating_add(e.usage.output);
        lemma_assign_distinct(c.0, e.model, next);
        lemma_assign_distinct(c.1, e.model, value_or(c.1, e.model, 0u64).saturating_add(tokens));
    }
}

/// Counting a rollout keeps every table listing each key once: a model,
/// a (model, effort) pair or an unpriced model is never listed twice.
pub proof fn lemma_add_keeps_distinct(t: TallyView, s: StatsView, priced: Seq<bool>)
    requires
        tally_distinct(t),
    ensures
        tally_distinct(add_spec(t, s, priced)),
{
    let models = touched(t.models, s.turn_durations, s.turn_durations.len() as int);
    lemma_touched_distinct(t.models, s.turn_durations, s.turn_durations.len() as int);
    let c = counted((t.turn_models, models), s.turn_models, s.turn_models.len() as int);
    lemma_counted_distinct((t.turn_models, models), s.turn_models, s.turn_models.len() as int);
    lemma_evented_distinct(
        (c.1, t.unpriced_models, t.incomplete || s.totals.incomplete_usage || s.totals.unattributed_tokens > 0),
        s.events,
        priced,
        s.events.len() as int,
    );
}

} // verus!
