//! The counts that a finished report shows, and how a project sums the
//! reports on its root tasks.
use vstd::prelude::*;

use crate::analysis::Usage;
use crate::keyed::{assign, distinct_keys, first_key, lemma_assign_distinct, lemma_first_key_none, text_keys};
use crate::tally::{lemma_touch, text_slot, touch, usage_add, usage_plus, value_or, ModelTally, Tally, TallyView};

verus! {

/// The counts of a report on a task tree or a project.
pub struct ReportCounts {
    pub rollout_count: usize,
    pub usage: Usage,
    pub reasoning_output: u64,
    pub turns: usize,
    pub ended_turns: usize,
    pub incomplete_turns: usize,
    /// Tokens of usage that could not be priced, by model.
    pub unpriced_models: Vec<(String, u64)>,
    /// Tokens that no model could be named for, when there are any.
    pub unattributed_tokens: Option<u64>,
    pub incomplete: bool,
}

/// The abstract value of `ReportCounts`.
pub struct ReportCountsView {
    pub rollout_count: usize,
    pub usage: Usage,
    pub reasoning_output: u64,
    pub turns: usize,
    pub ended_turns: usize,
    pub incomplete_turns: usize,
    pub unpriced_models: Seq<(Seq<char>, u64)>,
    pub unattributed_tokens: Option<u64>,
    pub incomplete: bool,
}

impl View for ReportCounts {
    type V = ReportCountsView;

    open spec fn view(&self) -> ReportCountsView {
        ReportCountsView {
            rollout_count: self.rollout_count,
            usage: self.usage,
            reasoning_output: self.reasoning_output,
            turns: self.turns,
            ended_turns: self.ended_turns,
            incomplete_turns: self.incomplete_turns,
            unpriced_models: text_keys(self.unpriced_models@),
            unattributed_tokens: self.unattributed_tokens,
            incomplete: self.incomplete,
        }
    }
}

/// No usage at all.
pub open spec fn zero_usage() -> Usage {
    Usage { input: 0, cached_input: 0, cache_write_input: 0, output: 0 }
}

/// The counts of a report that covers nothing.
pub open spec fn empty_counts() -> ReportCountsView {
    ReportCountsView {
        rollout_count: 0,
        usage: zero_usage(),
        reasoning_output: 0,
        turns: 0,
        ended_turns: 0,
        incomplete_turns: 0,
        unpriced_models: Seq::empty(),
        unattributed_tokens: None,
        incomplete: false,
    }
}

/// The counts a report shows of a tally: the turns not ended are the turns
/// less the ended ones (never below zero), and unattributed tokens are shown
/// only when there are some.
pub open spec fn counts_of(t: TallyView) -> ReportCountsView {
    ReportCountsView {
        rollout_count: t.rollout_count,
        usage: t.usage,
        reasoning_output: t.reasoning_output,
        turns: t.turns,
        ended_turns: t.ended_turns,
        incomplete_turns: if t.ended_turns <= t.turns {
            (t.turns - t.ended_turns) as usize
        } else {
            0
        },
        unpriced_models: t.unpriced_models,
        unattributed_tokens: if t.unattributed_tokens > 0 {
            Some(t.unattributed_tokens)
        } else {
            None
        },
        incomplete: t.incomplete,
    }
}

/// The first `n` entries of `add` summed into the table `m`, by model,
/// each sum saturating.
pub open spec fn tokens_merged(m: Seq<(Seq<char>, u64)>, add: Seq<(Seq<char>, u64)>, n: int) -> Seq<
    (Seq<char>, u64),
>
    decreases n,
{
    if n <= 0 {
        m
    } else {
        let prev = tokens_merged(m, add, n - 1);
        assign(prev, add[n - 1].0, value_or(prev, add[n - 1].0, 0u64).saturating_add(add[n - 1].1))
    }
}

/// Two optional token counts summed: absent only when both are.
pub open spec fn optional_plus(a: Option<u64>, b: Option<u64>) -> Option<u64> {
    match (a, b) {
        (None, None) => None,
        _ => {
            let x: u64 = match a {
                Some(v) => v,
                None => 0,
            };
            let y: u64 = match b {
                Some(v) => v,
                None => 0,
            };
            Some(x.saturating_add(y))
        },
    }
}

/// The counts of two reports summed: every count added (saturating), the
/// unpriced tokens summed by model, and incomplete when either is.
pub open spec fn merged(a: ReportCountsView, b: ReportCountsView) -> ReportCountsView {
    ReportCountsView {
        rollout_count: a.rollout_count.saturating_add(b.rollout_count),
        usage: usage_plus(a.usage, b.usage),
        reasoning_output: a.reasoning_output.saturating_add(b.reasoning_output),
        turns: a.turns.saturating_add(b.turns),
        ended_turns: a.ended_turns.saturating_add(b.ended_turns),
        incomplete_turns: a.incomplete_turns.saturating_add(b.incomplete_turns),
        unpriced_models: tokens_merged(a.unpriced_models, b.unpriced_models, b.unpriced_models.len() as int),
        unattributed_tokens: optional_plus(a.unattributed_tokens, b.unattributed_tokens),
        incomplete: a.incomplete || b.incomplete,
    }
}

/// The counts of one model's entry in two reports summed; the sum is
/// incomplete when either is.
pub open spec fn model_merged(a: ModelTally, b: ModelTally) -> ModelTally {
    ModelTally {
        usage: usage_plus(a.usage, b.usage),
        reasoning_output: a.reasoning_output.saturating_add(b.reasoning_output),
        turns: a.turns.saturating_add(b.turns),
        incomplete: a.incomplete || b.incomplete,
    }
}

/// A copy of a table of token counts by model.
fn copy_tokens(m: &Vec<(String, u64)>) -> (r: Vec<(String, u64)>)
    ensures
        text_keys(r@) == text_keys(m@),
{
    let mut r: Vec<(String, u64)> = Vec::new();
    let mut i: usize = 0;
    while i < m.len()
        invariant
            i <= m.len(),
            text_keys(r@) == text_keys(m@).take(i as int),
        decreases m.len() - i,
    {
        let ghost before = text_keys(r@);
        r.push((m[i].0.clone(), m[i].1));
        assert(text_keys(r@) =~= before.push(text_keys(m@)[i as int]));
        assert(text_keys(m@).take(i + 1) =~= text_keys(m@).take(i as int).push(text_keys(m@)[i as int]));
        i += 1;
    }
    assert(text_keys(m@).take(m.len() as int) =~= text_keys(m@));
    r
}

/// Sums the entries of `add` into the table `m`, by model.
fn merge_tokens(m: &mut Vec<(String, u64)>, add: &Vec<(String, u64)>)
    ensures
        text_keys(final(m)@) == tokens_merged(text_keys(old(m)@), text_keys(add@), add.len() as int),
{
    let ghost m0 = text_keys(m@);
    let ghost a = text_keys(add@);
    let mut k: usize = 0;
    while k < add.len()
        invariant
            k <= add.len(),
            a == text_keys(add@),
            text_keys(m@) == tokens_merged(m0, a, k as int),
        decreases add.len() - k,
    {
        let name = add[k].0.as_str();
        let tokens = add[k].1;
        assert(a[k as int] == (name@, tokens));
        let ghost before = text_keys(m@);
        let j = text_slot(m, name, 0u64);
        let prev = m[j].1;
        let key = m[j].0.clone();
        m.set(j, (key, prev.saturating_add(tokens)));
        proof {
            lemma_touch(before, name@, 0u64, prev.saturating_add(tokens));
            assert(text_keys(m@) =~= touch(before, name@, 0u64).update(j as int, (name@, prev.saturating_add(tokens))));
        }
        k += 1;
    }
}

impl ReportCounts {
    /// The counts of a report that covers nothing.
    pub fn empty() -> (r: ReportCounts)
        ensures
            r@ == empty_counts(),
    {
        let r = ReportCounts {
            rollout_count: 0,
            usage: Usage { input: 0, cached_input: 0, cache_write_input: 0, output: 0 },
            reasoning_output: 0,
            turns: 0,
            ended_turns: 0,
            incomplete_turns: 0,
            unpriced_models: Vec::new(),
            unattributed_tokens: None,
            incomplete: false,
        };
        assert(text_keys(r.unpriced_models@) =~= Seq::empty());
        r
    }

    /// Adds the counts of another report to these (see `merged`).
    pub fn merge(&mut self, next: &ReportCounts)
        ensures
            final(self)@ == merged(old(self)@, next@),
    {
        self.rollout_count = self.rollout_count.saturating_add(next.rollout_count);
        self.usage = usage_add(self.usage, next.usage);
        self.reasoning_output = self.reasoning_output.saturating_add(next.reasoning_output);
        self.turns = self.turns.saturating_add(next.turns);
        self.ended_turns = self.ended_turns.saturating_add(next.ended_turns);
        self.incomplete_turns = self.incomplete_turns.saturating_add(next.incomplete_turns);
        merge_tokens(&mut self.unpriced_models, &next.unpriced_models);
        self.unattributed_tokens = match (self.unattributed_tokens, next.unattributed_tokens) {
            (None, None) => None,
            (left, right) => {
                let x: u64 = match left {
                    Some(v) => v,
                    None => 0,
                };
                let y: u64 = match right {
                    Some(v) => v,
                    None => 0,
                };
                Some(x.saturating_add(y))
            },
        };
        self.incomplete = self.incomplete || next.incomplete;
    }
}

impl Tally {
    /// The counts a report shows of this tally (see `counts_of`).
    pub fn counts(&self) -> (r: ReportCounts)
        ensures
            r@ == counts_of(self@),
    {
        ReportCounts {
            rollout_count: self.rollout_count,
            usage: self.usage,
            reasoning_output: self.reasoning_output,
            turns: self.turns,
            ended_turns: self.ended_turns,
            incomplete_turns: self.turns.saturating_sub(self.ended_turns),
            unpriced_models: copy_tokens(&self.unpriced_models),
            unattributed_tokens: if self.unattributed_tokens > 0 {
                Some(self.unattributed_tokens)
            } else {
                None
            },
            incomplete: self.incomplete,
        }
    }
}

/// Adds one model's counts from another report to its running sum (see
/// `model_merged`).
pub fn merge_model(total: &mut ModelTally, next: &ModelTally)
    ensures
        *final(total) == model_merged(*old(total), *next),
{
    *total = ModelTally {
        usage: usage_add(total.usage, next.usage),
        reasoning_output: total.reasoning_output.saturating_add(next.reasoning_output),
        turns: total.turns.saturating_add(next.turns),
        incomplete: total.incomplete || next.incomplete,
    };
}

proof fn lemma_tokens_merged_into_nothing(add: Seq<(Seq<char>, u64)>, n: int)
    requires
        0 <= n <= add.len(),
        distinct_keys(add),
    ensures
        tokens_merged(Seq::empty(), add, n) == add.take(n),
    decreases n,
{
    if n > 0 {
        lemma_tokens_merged_into_nothing(add, n - 1);
        let prev = add.take(n - 1);
        assert forall|j: int| 0 <= j < prev.len() implies #[trigger] prev[j].0 != add[n - 1].0 by {
            assert(prev[j] == add[j]);
        }
        lemma_first_key_none(prev, add[n - 1].0);
        assert(add.take(n) =~= prev.push(add[n - 1]));
    }
}

/// A project with one report shows that report's counts: summing a
/// report into nothing gives it back, when no model is listed twice in it.
pub proof fn lemma_merge_into_nothing(x: ReportCountsView)
    requires
        distinct_keys(x.unpriced_models),
    ensures
        merged(empty_counts(), x) == x,
{
    lemma_tokens_merged_into_nothing(x.unpriced_models, x.unpriced_models.len() as int);
    assert(x.unpriced_models.take(x.unpriced_models.len() as int) =~= x.unpriced_models);
}

proof fn lemma_tokens_merged_distinct(m: Seq<(Seq<char>, u64)>, add: Seq<(Seq<char>, u64)>, n: int)
    requires
        distinct_keys(m),
    ensures
        distinct_keys(tokens_merged(m, add, n)),
    decreases n,
{
    if n > 0 {
        lemma_tokens_merged_distinct(m, add, n - 1);
        let prev = tokens_merged(m, add, n - 1);
        lemma_assign_distinct(prev, add[n - 1].0, value_or(prev, add[n - 1].0, 0u64).saturating_add(add[n - 1].1));
    }
}

/// Summing reports keeps each model listed once among the unpriced ones.
pub proof fn lemma_merge_keeps_distinct(a: ReportCountsView, b: ReportCountsView)
    requires
        distinct_keys(a.unpriced_models),
    ensures
        distinct_keys(merged(a, b).unpriced_models),
{
    lemma_tokens_merged_distinct(a.unpriced_models, b.unpriced_models, b.unpriced_models.len() as int);
}

} // verus!
