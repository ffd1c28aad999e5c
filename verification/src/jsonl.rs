//! Splitting a JSONL byte stream into records as it is read, skipping
//! records that are too long to hold.
use vstd::prelude::*;

verus! {

/// The longest record kept, in bytes (16 MiB).
pub const MAX_JSONL_RECORD_BYTES: usize = 16_777_216;

/// What one step of reading produced.
pub enum JsonlEvent {
    /// Nothing complete yet.
    Nothing,
    /// A complete record (without its newline).
    Record(Vec<u8>),
    /// A record was skipped because it was too long.
    Oversized,
}

/// The state of a JSONL reader: the record read so far, and whether it has
/// already grown too long (its bytes are then dropped).
pub struct JsonlReader {
    line: Vec<u8>,
    oversized: bool,
}

/// The abstract state of a reader.
pub struct JsonlState {
    pub line: Seq<u8>,
    pub oversized: bool,
}

/// The position of the first newline in `bytes`.
pub open spec fn first_newline(bytes: Seq<u8>) -> Option<int>
    decreases bytes.len(),
{
    if bytes.len() == 0 {
        None
    } else if bytes[0] == 10 {
        Some(0)
    } else {
        match first_newline(bytes.drop_first()) {
            Some(i) => Some(i + 1),
            None => None,
        }
    }
}

/// The state after `part` is added to the record: the record is dropped, and
/// stays dropped, once it would grow beyond the limit.
pub open spec fn grown_state(s: JsonlState, part: Seq<u8>) -> JsonlState {
    if s.oversized {
        s
    } else if s.line.len() + part.len() > MAX_JSONL_RECORD_BYTES {
        JsonlState { line: Seq::empty(), oversized: true }
    } else {
        JsonlState { line: s.line + part, oversized: false }
    }
}

/// One step over a non-empty buffer: the bytes before its first newline
/// (all of it when there is none) join the record unless that makes it too
/// long, which drops the record; a newline ends the record, which is handed
/// over or reported as skipped. Gives the new state, how many bytes were
/// used, and what was produced.
pub open spec fn chunk_step(s: JsonlState, buffer: Seq<u8>) -> (JsonlState, nat, JsonlEventView) {
    let newline = first_newline(buffer);
    let bytes = match newline {
        Some(i) => i,
        None => buffer.len() as int,
    };
    let grown = grown_state(s, buffer.take(bytes));
    match newline {
        None => (grown, buffer.len(), JsonlEventView::Nothing),
        Some(i) => (
            JsonlState { line: Seq::empty(), oversized: false },
            (i + 1) as nat,
            if grown.oversized {
                JsonlEventView::Oversized
            } else {
                JsonlEventView::Record(grown.line)
            },
        ),
    }
}

/// The abstract value of an event.
pub enum JsonlEventView {
    Nothing,
    Record(Seq<u8>),
    Oversized,
}

/// What the end of the stream produces: a last record without a newline
/// when there is one, or the report of a skipped one.
pub open spec fn end_step(s: JsonlState) -> JsonlEventView {
    if s.oversized {
        JsonlEventView::Oversized
    } else if s.line.len() > 0 {
        JsonlEventView::Record(s.line)
    } else {
        JsonlEventView::Nothing
    }
}

pub open spec fn event_view(e: JsonlEvent) -> JsonlEventView {
    match e {
        JsonlEvent::Nothing => JsonlEventView::Nothing,
        JsonlEvent::Record(v) => JsonlEventView::Record(v@),
        JsonlEvent::Oversized => JsonlEventView::Oversized,
    }
}

impl JsonlReader {
    /// The reader's abstract state.
    pub closed spec fn state(&self) -> JsonlState {
        JsonlState { line: self.line@, oversized: self.oversized }
    }

    /// A reader at the start of a stream.
    pub fn new() -> (r: JsonlReader)
        ensures
            r.state() == (JsonlState { line: Seq::empty(), oversized: false }),
    {
        JsonlReader { line: Vec::new(), oversized: false }
    }

    /// Reads from a non-empty buffer (see `chunk_step`); returns how many
    /// bytes were used and what was produced.
    #[verifier::loop_isolation(false)]
    pub fn chunk(&mut self, buffer: &[u8]) -> (r: (usize, JsonlEvent))
        requires
            buffer.len() > 0,
            old(self).state().line.len() <= MAX_JSONL_RECORD_BYTES,
        ensures
            final(self).state() == chunk_step(old(self).state(), buffer@).0,
            r.0 as nat == chunk_step(old(self).state(), buffer@).1,
            event_view(r.1) == chunk_step(old(self).state(), buffer@).2,
            final(self).state().line.len() <= MAX_JSONL_RECORD_BYTES,
    {
        let mut i: usize = 0;
        let ghost b = buffer@;
        assert(b.skip(0) =~= b);
        while i < buffer.len() && buffer[i] != 10
            invariant
                i <= buffer.len(),
                b == buffer@,
                forall|j: int| 0 <= j < i ==> buffer@[j] != 10,
                first_newline(b) == match first_newline(b.skip(i as int)) {
                    Some(k) => Some(k + i),
                    None => None,
                },
            decreases buffer.len() - i,
        {
            assert(b.skip(i as int).drop_first() =~= b.skip(i + 1));
            i += 1;
        }
        let newline = i < buffer.len();
        proof {
            if newline {
                assert(b.skip(i as int)[0] == 10);
            } else {
                assert(b.skip(i as int).len() == 0);
            }
        }
        if !self.oversized {
            if i > MAX_JSONL_RECORD_BYTES - self.line.len() {
                self.line = Vec::new();
                self.oversized = true;
            } else {
                let mut k: usize = 0;
                let ghost start = self.line@;
                while k < i
                    invariant
                        k <= i,
                        i <= buffer.len(),
                        !self.oversized,
                        self.line@ == start + buffer@.take(k as int),
                    decreases i - k,
                {
                    self.line.push(buffer[k]);
                    assert(buffer@.take(k + 1) =~= buffer@.take(k as int).push(buffer@[k as int]));
                    k += 1;
                }
            }
        }
        let ghost grown = self.state();
        proof {
            if !old(self).oversized && old(self).line@.len() + i <= MAX_JSONL_RECORD_BYTES {
                assert(grown.line =~= old(self).line@ + buffer@.take(i as int));
            }
            assert(buffer@.take(i as int).len() == i);
            if old(self).oversized {
                assert(grown == old(self).state());
            } else if old(self).line@.len() + i > MAX_JSONL_RECORD_BYTES {
                assert(grown.line =~= Seq::<u8>::empty());
                assert(grown.oversized);
            } else {
                assert(!grown.oversized);
            }
            assert(grown == grown_state(old(self).state(), buffer@.take(i as int)));
        }
        if !newline {
            assert(first_newline(buffer@) is None);
            return (buffer.len(), JsonlEvent::Nothing);
        }
        let event = if self.oversized {
            JsonlEvent::Oversized
        } else {
            let mut done: Vec<u8> = Vec::new();
            std::mem::swap(&mut done, &mut self.line);
            JsonlEvent::Record(done)
        };
        self.line = Vec::new();
        self.oversized = false;
        (i + 1, event)
    }

    /// Ends the stream (see `end_step`).
    pub fn end(self) -> (r: JsonlEvent)
        ensures
            event_view(r) == end_step(self.state()),
    {
        if self.oversized {
            JsonlEvent::Oversized
        } else if self.line.len() > 0 {
            JsonlEvent::Record(self.line)
        } else {
            JsonlEvent::Nothing
        }
    }
}

pub proof fn lemma_first_newline(x: Seq<u8>)
    ensures
        match first_newline(x) {
            Some(i) => 0 <= i < x.len() && x[i] == 10 && forall|j: int| 0 <= j < i ==> x[j] != 10,
            None => forall|j: int| 0 <= j < x.len() ==> x[j] != 10,
        },
    decreases x.len(),
{
    if x.len() > 0 && x[0] != 10 {
        lemma_first_newline(x.drop_first());
        assert forall|j: int| 1 <= j < x.len() implies x[j] == x.drop_first()[j - 1] by {}
    }
}

proof fn lemma_first_newline_at(x: Seq<u8>, i: int)
    requires
        0 <= i < x.len(),
        x[i] == 10,
        forall|j: int| 0 <= j < i ==> x[j] != 10,
    ensures
        first_newline(x) == Some(i),
    decreases i,
{
    if i > 0 {
        assert forall|j: int| 0 <= j < i - 1 implies x.drop_first()[j] != 10 by {
            assert(x.drop_first()[j] == x[j + 1]);
        }
        lemma_first_newline_at(x.drop_first(), i - 1);
    }
}

proof fn lemma_first_newline_none(x: Seq<u8>)
    requires
        forall|j: int| 0 <= j < x.len() ==> x[j] != 10,
    ensures
        first_newline(x) is None,
    decreases x.len(),
{
    if x.len() > 0 {
        assert forall|j: int| 0 <= j < x.len() - 1 implies x.drop_first()[j] != 10 by {
            assert(x.drop_first()[j] == x[j + 1]);
        }
        lemma_first_newline_none(x.drop_first());
    }
}

/// What a complete line gives: the record, or the report of a skipped one
/// when it is longer than the limit.
pub open spec fn line_event(line: Seq<u8>) -> JsonlEventView {
    if line.len() > MAX_JSONL_RECORD_BYTES {
        JsonlEventView::Oversized
    } else {
        JsonlEventView::Record(line)
    }
}

/// The reader's state when the bytes read since the last newline are `p`.
pub open spec fn pending_state(p: Seq<u8>) -> JsonlState {
    if p.len() > MAX_JSONL_RECORD_BYTES {
        JsonlState { line: Seq::empty(), oversized: true }
    } else {
        JsonlState { line: p, oversized: false }
    }
}

/// The lines of `x` read after the unfinished line `p`: the events of the
/// lines that a newline completes, in order, and what is left unfinished.
pub open spec fn lines_split(p: Seq<u8>, x: Seq<u8>) -> (Seq<JsonlEventView>, Seq<u8>)
    decreases x.len(),
{
    match first_newline(x) {
        None => (Seq::empty(), p + x),
        Some(i) => {
            proof {
                lemma_first_newline(x);
            }
            let rest = lines_split(Seq::empty(), x.skip(i + 1));
            (seq![line_event(p + x.take(i))] + rest.0, rest.1)
        },
    }
}

/// Reading one buffer to its end with the reader, as a stream offers it
/// again after each step until it is used up: the state after it and the
/// events produced (steps that complete nothing produce none).
pub open spec fn buffer_run(s: JsonlState, b: Seq<u8>) -> (JsonlState, Seq<JsonlEventView>)
    decreases b.len(),
{
    if b.len() == 0 {
        (s, Seq::empty())
    } else {
        let (s1, used, e) = chunk_step(s, b);
        if used == 0 || used > b.len() {
            (s1, Seq::empty())
        } else {
            let (s2, es) = buffer_run(s1, b.skip(used as int));
            (s2, if e is Nothing { es } else { seq![e] + es })
        }
    }
}

/// The bytes of several buffers, one after another.
pub open spec fn joined(bufs: Seq<Seq<u8>>) -> Seq<u8>
    decreases bufs.len(),
{
    if bufs.len() == 0 {
        Seq::empty()
    } else {
        joined(bufs.drop_last()) + bufs.last()
    }
}

/// Reading a stream that arrives in the given buffers, then ending it: the
/// events produced, the end's included when it produces something.
pub open spec fn stream_events(bufs: Seq<Seq<u8>>) -> Seq<JsonlEventView> {
    let (s, es) = stream_run(JsonlState { line: Seq::empty(), oversized: false }, bufs);
    let last = end_step(s);
    if last is Nothing { es } else { es.push(last) }
}

/// Reading the buffers in turn.
pub open spec fn stream_run(s: JsonlState, bufs: Seq<Seq<u8>>) -> (JsonlState, Seq<JsonlEventView>)
    decreases bufs.len(),
{
    if bufs.len() == 0 {
        (s, Seq::empty())
    } else {
        let (s1, es1) = stream_run(s, bufs.drop_last());
        let (s2, es2) = buffer_run(s1, bufs.last());
        (s2, es1 + es2)
    }
}

/// The records of a whole input: one per newline-ended line (the report of
/// a skipped one for a line over the limit), then the unfinished last line
/// when it is not empty.
pub open spec fn input_events(x: Seq<u8>) -> Seq<JsonlEventView> {
    let (es, rest) = lines_split(Seq::empty(), x);
    if rest.len() == 0 { es } else { es.push(line_event(rest)) }
}

proof fn lemma_grown_pending(p: Seq<u8>, q: Seq<u8>)
    ensures
        grown_state(pending_state(p), q) == pending_state(p + q),
{
    if !(p.len() > MAX_JSONL_RECORD_BYTES) && p.len() + q.len() <= MAX_JSONL_RECORD_BYTES {
        assert((p + q).len() == p.len() + q.len());
    }
}

proof fn lemma_buffer_run(p: Seq<u8>, b: Seq<u8>)
    ensures
        buffer_run(pending_state(p), b) == (pending_state(lines_split(p, b).1), lines_split(p, b).0),
    decreases b.len(),
{
    lemma_first_newline(b);
    if b.len() == 0 {
        assert(p + b =~= p);
    } else {
        match first_newline(b) {
            Some(i) => {
                lemma_grown_pending(p, b.take(i));
                let empty = JsonlState { line: Seq::<u8>::empty(), oversized: false };
                assert(pending_state(Seq::<u8>::empty()) == empty);
                lemma_buffer_run(Seq::empty(), b.skip(i + 1));
                let step = chunk_step(pending_state(p), b);
                assert(step.0 == empty);
                assert(step.1 == i + 1);
                assert(step.2 == line_event(p + b.take(i)));
                assert(!(step.2 is Nothing));
                let rest = lines_split(Seq::<u8>::empty(), b.skip(i + 1));
                assert(lines_split(p, b) == (seq![line_event(p + b.take(i))] + rest.0, rest.1));
            },
            None => {
                lemma_grown_pending(p, b.take(b.len() as int));
                assert(b.take(b.len() as int) =~= b);
                let step = chunk_step(pending_state(p), b);
                assert(step.0 == pending_state(p + b));
                assert(step.1 == b.len());
                assert(step.2 is Nothing);
                assert(b.skip(b.len() as int) =~= Seq::<u8>::empty());
                assert(buffer_run(step.0, Seq::<u8>::empty()) == (step.0, Seq::<JsonlEventView>::empty()));
                assert(lines_split(p, b) == (Seq::<JsonlEventView>::empty(), p + b));
            },
        }
    }
}

proof fn lemma_lines_split_add(p: Seq<u8>, a: Seq<u8>, b: Seq<u8>)
    ensures
        lines_split(p, a + b) == ({
            let first = lines_split(p, a);
            let second = lines_split(first.1, b);
            (first.0 + second.0, second.1)
        }),
    decreases a.len(),
{
    lemma_first_newline(a);
    lemma_first_newline(b);
    match first_newline(a) {
        Some(i) => {
            lemma_first_newline_at(a + b, i);
            assert((a + b).take(i) =~= a.take(i));
            assert((a + b).skip(i + 1) =~= a.skip(i + 1) + b);
            lemma_lines_split_add(Seq::empty(), a.skip(i + 1), b);
            let first = lines_split(p, a);
            let inner = lines_split(Seq::<u8>::empty(), a.skip(i + 1));
            let second = lines_split(inner.1, b);
            assert(seq![line_event(p + a.take(i))] + (inner.0 + second.0) =~= (seq![line_event(p + a.take(i))]
                + inner.0) + second.0);
        },
        None => {
            match first_newline(b) {
                Some(j) => {
                    lemma_first_newline_at(a + b, a.len() + j);
                    assert((a + b).take(a.len() + j) =~= a + b.take(j));
                    assert(p + (a + b.take(j)) =~= (p + a) + b.take(j));
                    assert((a + b).skip(a.len() + j + 1) =~= b.skip(j + 1));
                    assert(Seq::<JsonlEventView>::empty() + lines_split(p + a, b).0 =~= lines_split(p + a, b).0);
                },
                None => {
                    lemma_first_newline_none(a + b);
                    assert(p + (a + b) =~= (p + a) + b);
                    assert(Seq::<JsonlEventView>::empty() + Seq::<JsonlEventView>::empty() =~= Seq::<JsonlEventView>::empty());
                },
            }
        },
    }
}

proof fn lemma_stream_run(bufs: Seq<Seq<u8>>)
    ensures
        stream_run(JsonlState { line: Seq::empty(), oversized: false }, bufs) == (
            pending_state(lines_split(Seq::empty(), joined(bufs)).1),
            lines_split(Seq::empty(), joined(bufs)).0,
        ),
    decreases bufs.len(),
{
    let init = JsonlState { line: Seq::empty(), oversized: false };
    assert(init == pending_state(Seq::empty()));
    if bufs.len() == 0 {
        lemma_first_newline(Seq::<u8>::empty());
        assert(Seq::<u8>::empty() + Seq::<u8>::empty() =~= Seq::<u8>::empty());
    } else {
        lemma_stream_run(bufs.drop_last());
        let first = lines_split(Seq::empty(), joined(bufs.drop_last()));
        lemma_buffer_run(first.1, bufs.last());
        lemma_lines_split_add(Seq::empty(), joined(bufs.drop_last()), bufs.last());
    }
}

/// However a stream is cut into buffers, reading it gives one event per
/// line: each newline-ended line as a record, or as a skipped one when it is
/// over the limit, then the unfinished last line when it is not empty.
pub proof fn lemma_stream_reads_lines(bufs: Seq<Seq<u8>>)
    ensures
        stream_events(bufs) == input_events(joined(bufs)),
{
    lemma_stream_run(bufs);
}

} // verus!
