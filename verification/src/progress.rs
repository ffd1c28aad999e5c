//! Progress lines for long indexing and analysis runs. The methods decide
//! what to show and return the text to write; the caller writes it.
use vstd::prelude::*;

use crate::text::{decimal, extend_str, push_decimal, str_eq, string_of};

verus! {

/// Nanoseconds that must pass between two unforced progress lines.
pub const RENDER_INTERVAL_NANOS: u64 = 125_000_000;

/// The state of a progress display.
pub struct Progress {
    enabled: bool,
    terminal: bool,
    indexed_files: usize,
    analyzed_rollouts: usize,
    total_rollouts: Option<usize>,
    last_render: Option<u64>,
    last_message: Option<String>,
    rendered_terminal_line: bool,
}

/// The abstract state of a progress display. Times are nanoseconds on a
/// monotonic clock.
pub struct ProgressView {
    pub enabled: bool,
    pub terminal: bool,
    pub indexed_files: nat,
    pub analyzed_rollouts: nat,
    pub total_rollouts: Option<nat>,
    pub last_render: Option<nat>,
    pub last_message: Option<Seq<char>>,
    pub rendered_terminal_line: bool,
}

impl View for Progress {
    type V = ProgressView;

    closed spec fn view(&self) -> ProgressView {
        ProgressView {
            enabled: self.enabled,
            terminal: self.terminal,
            indexed_files: self.indexed_files as nat,
            analyzed_rollouts: self.analyzed_rollouts as nat,
            total_rollouts: match self.total_rollouts {
                Some(t) => Some(t as nat),
                None => None,
            },
            last_render: match self.last_render {
                Some(t) => Some(t as nat),
                None => None,
            },
            last_message: match self.last_message {
                Some(m) => Some(m@),
                None => None,
            },
            rendered_terminal_line: self.rendered_terminal_line,
        }
    }
}

/// Whether `now` is within the render interval of the last line shown (a
/// clock that went backwards counts as no time passed).
pub open spec fn too_soon(last_render: Option<nat>, now: nat) -> bool {
    match last_render {
        Some(last) => (if now >= last {
            now - last
        } else {
            0
        }) < RENDER_INTERVAL_NANOS,
        None => false,
    }
}

/// What showing `message` at time `now` does: nothing when disabled, when the
/// message is the one last shown, or (unless forced) within the render
/// interval of the last line; otherwise the line is shown, on a terminal by
/// rewriting the current line, elsewhere as a line of its own.
pub open spec fn render_spec(p: ProgressView, message: Seq<char>, force: bool, now: nat) -> (ProgressView, Seq<char>) {
    if !p.enabled || p.last_message == Some(message) || (!force && too_soon(p.last_render, now)) {
        (p, Seq::<char>::empty())
    } else if p.terminal {
        (
            ProgressView {
                last_render: Some(now),
                last_message: Some(message),
                rendered_terminal_line: true,
                ..p
            },
            seq!['\r'] + message,
        )
    } else {
        (ProgressView { last_render: Some(now), last_message: Some(message), ..p }, message + seq!['\n'])
    }
}

/// The analysis line for a state.
pub open spec fn analysis_message_spec(p: ProgressView) -> Seq<char> {
    match p.total_rollouts {
        Some(total) => "Analyzing "@ + decimal(p.analyzed_rollouts) + seq!['/'] + decimal(total)
            + " rollouts"@,
        None => "Analyzing rollouts"@,
    }
}

/// The indexing line after `n` files.
pub open spec fn indexing_message(n: nat) -> Seq<char> {
    "Indexing rollout metadata: "@ + decimal(n) + " files"@
}

/// What finishing does: show the analysis line once more (forced) when an
/// analysis was started, then end a terminal line that was written.
pub open spec fn finish_spec(p: ProgressView, now: nat) -> (ProgressView, Seq<char>) {
    if !p.enabled {
        (p, Seq::<char>::empty())
    } else {
        let (q, shown) = if p.total_rollouts is Some {
            render_spec(p, analysis_message_spec(p), true, now)
        } else {
            (p, Seq::<char>::empty())
        };
        if q.terminal && q.rendered_terminal_line {
            (ProgressView { rendered_terminal_line: false, ..q }, shown + seq!['\n'])
        } else {
            (q, shown)
        }
    }
}

impl Progress {
    /// A display that shows lines when forced to or when writing to a terminal.
    pub fn new(force: bool, terminal: bool) -> (r: Progress)
        ensures
            r@ == (ProgressView {
                enabled: force || terminal,
                terminal,
                indexed_files: 0,
                analyzed_rollouts: 0,
                total_rollouts: None,
                last_render: None,
                last_message: None,
                rendered_terminal_line: false,
            }),
    {
        Progress {
            enabled: force || terminal,
            terminal,
            indexed_files: 0,
            analyzed_rollouts: 0,
            total_rollouts: None,
            last_render: None,
            last_message: None,
            rendered_terminal_line: false,
        }
    }

    /// Shows `message` at time `now` (see `render_spec`); returns the text to write.
    pub fn render(&mut self, message: &str, force: bool, now: u64) -> (r: String)
        ensures
            (final(self)@, r@) == render_spec(old(self)@, message@, force, now as nat),
    {
        if !self.enabled {
            return String::new();
        }
        let repeated = match &self.last_message {
            Some(last) => str_eq(last.as_str(), message),
            None => false,
        };
        if repeated {
            return String::new();
        }
        if !force {
            if let Some(last) = self.last_render {
                let elapsed = if now >= last {
                    now - last
                } else {
                    0
                };
                if elapsed < RENDER_INTERVAL_NANOS {
                    return String::new();
                }
            }
        }
        self.last_render = Some(now);
        self.last_message = Some(String::from_str(message));
        let mut out: Vec<char> = Vec::new();
        if self.terminal {
            out.push('\r');
            extend_str(&mut out, message);
            self.rendered_terminal_line = true;
        } else {
            extend_str(&mut out, message);
            out.push('\n');
        }
        proof {
            if self.terminal {
                assert(out@ =~= seq!['\r'] + message@);
            } else {
                assert(out@ =~= message@ + seq!['\n']);
            }
        }
        string_of(&out)
    }

    /// The line describing the analysis so far.
    pub fn analysis_message(&self) -> (r: String)
        ensures
            r@ == analysis_message_spec(self@),
    {
        match self.total_rollouts {
            Some(total) => {
                let mut out: Vec<char> = Vec::new();
                extend_str(&mut out, "Analyzing ");
                push_decimal(&mut out, self.analyzed_rollouts as u64);
                out.push('/');
                push_decimal(&mut out, total as u64);
                extend_str(&mut out, " rollouts");
                string_of(&out)
            },
            None => String::from_str("Analyzing rollouts"),
        }
    }

    /// Starts the indexing display.
    pub fn start_indexing(&mut self, now: u64) -> (r: String)
        ensures
            (final(self)@, r@) == render_spec(old(self)@, indexing_message(0), true, now as nat),
    {
        let mut out: Vec<char> = Vec::new();
        extend_str(&mut out, "Indexing rollout metadata: ");
        push_decimal(&mut out, 0);
        extend_str(&mut out, " files");
        let message = string_of(&out);
        self.render(message.as_str(), true, now)
    }

    /// Whether another indexed file can be counted.
    pub fn can_count_file(&self) -> (r: bool)
        ensures
            r == (self@.indexed_files < usize::MAX),
    {
        self.indexed_files < usize::MAX
    }

    /// Whether another analysed rollout can be counted.
    pub fn can_count_rollout(&self) -> (r: bool)
        ensures
            r == (self@.analyzed_rollouts < usize::MAX),
    {
        self.analyzed_rollouts < usize::MAX
    }

    /// Counts one more indexed file and shows the count, at most once per interval.
    pub fn indexed_file(&mut self, now: u64) -> (r: String)
        requires
            old(self)@.indexed_files < usize::MAX,
        ensures
            ({
                let counted = ProgressView { indexed_files: old(self)@.indexed_files + 1, ..old(self)@ };
                (final(self)@, r@) == render_spec(counted, indexing_message(counted.indexed_files), false, now as nat)
            }),
    {
        self.indexed_files = self.indexed_files + 1;
        let mut out: Vec<char> = Vec::new();
        extend_str(&mut out, "Indexing rollout metadata: ");
        push_decimal(&mut out, self.indexed_files as u64);
        extend_str(&mut out, " files");
        let message = string_of(&out);
        self.render(message.as_str(), false, now)
    }

    /// Starts the analysis display for `total_rollouts` rollouts.
    pub fn start_analysis(&mut self, total_rollouts: usize, now: u64) -> (r: String)
        ensures
            ({
                let started = ProgressView {
                    analyzed_rollouts: 0,
                    total_rollouts: Some(total_rollouts as nat),
                    ..old(self)@
                };
                (final(self)@, r@) == render_spec(started, analysis_message_spec(started), true, now as nat)
            }),
    {
        self.analyzed_rollouts = 0;
        self.total_rollouts = Some(total_rollouts);
        let message = self.analysis_message();
        self.render(message.as_str(), true, now)
    }

    /// Counts one more analysed rollout and shows the count, forced when it
    /// is the last one.
    pub fn analyzed_rollout(&mut self, now: u64) -> (r: String)
        requires
            old(self)@.analyzed_rollouts < usize::MAX,
        ensures
            ({
                let counted = ProgressView { analyzed_rollouts: old(self)@.analyzed_rollouts + 1, ..old(self)@ };
                (final(self)@, r@) == render_spec(
                    counted,
                    analysis_message_spec(counted),
                    counted.total_rollouts == Some(counted.analyzed_rollouts),
                    now as nat,
                )
            }),
    {
        self.analyzed_rollouts = self.analyzed_rollouts + 1;
        let complete = match self.total_rollouts {
            Some(total) => total == self.analyzed_rollouts,
            None => false,
        };
        let message = self.analysis_message();
        self.render(message.as_str(), complete, now)
    }

    /// Ends the display (see `finish_spec`).
    pub fn finish(&mut self, now: u64) -> (r: String)
        ensures
            (final(self)@, r@) == finish_spec(old(self)@, now as nat),
    {
        if !self.enabled {
            return String::new();
        }
        let mut out: Vec<char> = Vec::new();
        if self.total_rollouts.is_some() {
            let message = self.analysis_message();
            let shown = self.render(message.as_str(), true, now);
            extend_str(&mut out, shown.as_str());
        }
        if self.terminal && self.rendered_terminal_line {
            out.push('\n');
            self.rendered_terminal_line = false;
        }
        string_of(&out)
    }

    /// What is left to write when the display is dropped: the end of a
    /// terminal line that was written.
    pub fn close(&self) -> (r: String)
        ensures
            r@ == if self@.terminal && self@.rendered_terminal_line {
                seq!['\n']
            } else {
                Seq::<char>::empty()
            },
    {
        if self.terminal && self.rendered_terminal_line {
            let mut out: Vec<char> = Vec::new();
            out.push('\n');
            string_of(&out)
        } else {
            String::new()
        }
    }
}

/// One call on a progress display, with the clock reading it is given.
pub enum ProgressCall {
    StartIndexing(nat),
    IndexedFile(nat),
    StartAnalysis(nat, nat),
    AnalyzedRollout(nat),
    Finish(nat),
}

/// What one call does (see the method of the same name): the new state and
/// the text it returns for writing.
pub open spec fn call_spec(p: ProgressView, call: ProgressCall) -> (ProgressView, Seq<char>) {
    match call {
        ProgressCall::StartIndexing(now) => render_spec(p, indexing_message(0), true, now),
        ProgressCall::IndexedFile(now) => {
            let counted = ProgressView { indexed_files: p.indexed_files + 1, ..p };
            render_spec(counted, indexing_message(counted.indexed_files), false, now)
        },
        ProgressCall::StartAnalysis(total, now) => {
            let started = ProgressView { analyzed_rollouts: 0, total_rollouts: Some(total), ..p };
            render_spec(started, analysis_message_spec(started), true, now)
        },
        ProgressCall::AnalyzedRollout(now) => {
            let counted = ProgressView { analyzed_rollouts: p.analyzed_rollouts + 1, ..p };
            render_spec(
                counted,
                analysis_message_spec(counted),
                counted.total_rollouts == Some(counted.analyzed_rollouts),
                now,
            )
        },
        ProgressCall::Finish(now) => finish_spec(p, now),
    }
}

/// The state after a sequence of calls, and all the text they return, in order.
pub open spec fn calls_spec(p: ProgressView, calls: Seq<ProgressCall>) -> (ProgressView, Seq<char>)
    decreases calls.len(),
{
    if calls.len() == 0 {
        (p, Seq::empty())
    } else {
        let (q, before) = calls_spec(p, calls.drop_last());
        let (r, text) = call_spec(q, calls.last());
        (r, before + text)
    }
}

/// A display that is neither forced nor on a terminal writes nothing: over
/// any sequence of calls the text returned is empty, the display stays
/// disabled, and closing it writes nothing either.
pub proof fn lemma_disabled_is_silent(force: bool, terminal: bool, p: ProgressView, calls: Seq<ProgressCall>)
    requires
        !force,
        !terminal,
        p == (ProgressView {
            enabled: force || terminal,
            terminal,
            indexed_files: 0,
            analyzed_rollouts: 0,
            total_rollouts: None,
            last_render: None,
            last_message: None,
            rendered_terminal_line: false,
        }),
    ensures
        calls_spec(p, calls).1 == Seq::<char>::empty(),
        !calls_spec(p, calls).0.enabled,
        !calls_spec(p, calls).0.rendered_terminal_line,
{
    lemma_disabled_stays_silent(p, calls);
}

proof fn lemma_disabled_stays_silent(p: ProgressView, calls: Seq<ProgressCall>)
    requires
        !p.enabled,
        !p.rendered_terminal_line,
    ensures
        calls_spec(p, calls).1 == Seq::<char>::empty(),
        !calls_spec(p, calls).0.enabled,
        !calls_spec(p, calls).0.rendered_terminal_line,
    decreases calls.len(),
{
    if calls.len() > 0 {
        lemma_disabled_stays_silent(p, calls.drop_last());
        let (q, before) = calls_spec(p, calls.drop_last());
        assert(before + Seq::<char>::empty() =~= Seq::<char>::empty());
    }
}

} // verus!
