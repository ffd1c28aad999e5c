//! The session index: the latest name recorded for each thread.
use vstd::prelude::*;

use crate::discovery::{deref_opt, member, text_of, Json};
use crate::keyed::{first_key, lemma_first_key_at, lemma_first_key_none, lookup};
use crate::text::str_eq;

verus! {

/// What `OffsetDateTime::parse` with the RFC 3339 format gives for a text, as
/// nanoseconds since the Unix epoch.
pub uninterp spec fn rfc3339_nanos(text: Seq<char>) -> Option<i128>;

/// The earliest and latest instants (nanoseconds since the epoch) that RFC 3339
/// text can name: the format has four-digit years and offsets below 24 hours.
pub open spec fn rfc3339_in_range(n: i128) -> bool {
    -63_000_000_000_000_000_000 <= n <= 254_000_000_000_000_000_000
}

/// `OffsetDateTime::parse(text, &Rfc3339)`, taken as the instant in
/// nanoseconds since the Unix epoch; the result is named by `rfc3339_nanos`.
/// The parser reads a four-digit year and an offset of at most 23:59, so a
/// parsed instant lies between years 0000 and 9999 give or take a day.
#[verifier::external_body]
pub(crate) fn parse_rfc3339(text: &str) -> (r: Option<i128>)
    ensures
        r == rfc3339_nanos(text@),
        r matches Some(n) ==> rfc3339_in_range(n),
{
    match time::OffsetDateTime::parse(text, &time::format_description::well_known::Rfc3339) {
        Ok(t) => Some(t.unix_timestamp_nanos()),
        Err(_) => None,
    }
}

/// One thread's entry: its latest name and when that name was written.
pub struct SessionEntry {
    pub id: String,
    pub name: String,
    pub updated_at: i128,
}

/// The entries of the session index, with what could not be read of it.
pub struct Snapshot {
    entries: Vec<SessionEntry>,
    malformed_records: usize,
    oversized_records: usize,
    read_error: Option<std::io::ErrorKind>,
}

/// The entries keyed by their ids.
pub open spec fn session_keys(entries: Seq<SessionEntry>) -> Seq<(Seq<char>, SessionEntry)> {
    entries.map_values(|e: SessionEntry| (e.id@, e))
}

/// The entry for `id` among `entries`, the first one with that id.
pub open spec fn entry_for(entries: Seq<SessionEntry>, id: Seq<char>) -> Option<SessionEntry> {
    lookup(session_keys(entries), id)
}

/// What one line of the session index says.
pub enum IndexLine {
    /// Not JSON, not an object, or with a missing or invalid `updated_at`.
    Malformed,
    /// Without an id or a non-empty name.
    Ignored,
    /// A thread's name and when it was written.
    Entry(Seq<char>, Seq<char>, i128),
}

/// What one line of the session index says: an object with string `id`
/// and non-empty `thread_name` is an entry when its `updated_at` is RFC 3339
/// text, malformed when it is not; other objects are ignored, and anything
/// else is malformed.
pub open spec fn index_line(item: Option<Json>) -> IndexLine {
    match item {
        Some(Json::Object(entries)) => {
            let v = Json::Object(entries);
            match (text_of(member(v, "id"@)), text_of(member(v, "thread_name"@))) {
                (Some(id), Some(name)) => if name@.len() == 0 {
                    IndexLine::Ignored
                } else {
                    match text_of(member(v, "updated_at"@)) {
                        None => IndexLine::Malformed,
                        Some(at) => match rfc3339_nanos(at@) {
                            Some(n) => IndexLine::Entry(id@, name@, n),
                            None => IndexLine::Malformed,
                        },
                    }
                },
                _ => IndexLine::Ignored,
            }
        },
        _ => IndexLine::Malformed,
    }
}

/// `new` is `old` with the entry for `id` set to `name` at `at`: the first
/// entry with that id replaced, or a new entry appended.
pub open spec fn entry_set(old: Seq<SessionEntry>, new: Seq<SessionEntry>, id: Seq<char>, name: Seq<char>, at: i128) -> bool {
    match first_key(session_keys(old), id) {
        Some(i) => new.len() == old.len() && new[i].id@ == id && new[i].name@ == name
            && new[i].updated_at == at && forall|j: int| 0 <= j < old.len() && j != i ==> #[trigger] new[j] == old[j],
        None => new.len() == old.len() + 1 && new.last().id@ == id && new.last().name@ == name
            && new.last().updated_at == at && forall|j: int| 0 <= j < old.len() ==> #[trigger] new[j] == old[j],
    }
}

impl Snapshot {
    /// The entries, in the order their ids first appeared.
    pub closed spec fn entries(&self) -> Seq<SessionEntry> {
        self.entries@
    }

    /// The malformed and the oversized record counts.
    pub closed spec fn counts(&self) -> (usize, usize) {
        (self.malformed_records, self.oversized_records)
    }

    /// The kind of error that stopped reading the index, if any.
    pub closed spec fn failure(&self) -> Option<std::io::ErrorKind> {
        self.read_error
    }

    /// An empty snapshot, before any line is read.
    pub fn new() -> (r: Snapshot)
        ensures
            r.entries().len() == 0,
            r.counts() == (0usize, 0usize),
            r.failure() is None,
    {
        Snapshot { entries: Vec::new(), malformed_records: 0, oversized_records: 0, read_error: None }
    }

    fn position(&self, id: &str) -> (r: Option<usize>)
        ensures
            match r {
                Some(i) => i < self.entries@.len() && first_key(session_keys(self.entries@), id@) == Some(i as int),
                None => first_key(session_keys(self.entries@), id@) is None,
            },
    {
        let ghost t = session_keys(self.entries@);
        let mut i: usize = 0;
        while i < self.entries.len()
            invariant
                i <= self.entries.len(),
                t == session_keys(self.entries@),
                forall|j: int| 0 <= j < i ==> #[trigger] t[j].0 != id@,
            decreases self.entries.len() - i,
        {
            assert(t[i as int].0 == self.entries@[i as int].id@);
            if str_eq(self.entries[i].id.as_str(), id) {
                proof {
                    lemma_first_key_at(t, id@, i as int);
                }
                return Some(i);
            }
            i += 1;
        }
        proof {
            lemma_first_key_none(t, id@);
        }
        None
    }

    /// The entry for a thread.
    pub fn entry(&self, id: &str) -> (r: Option<&SessionEntry>)
        ensures
            match r {
                Some(e) => entry_for(self.entries(), id@) == Some(*e),
                None => entry_for(self.entries(), id@) is None,
            },
    {
        match self.position(id) {
            Some(i) => Some(&self.entries[i]),
            None => None,
        }
    }

    /// Reads one line of the session index, given what parsing it as JSON
    /// gave (see `index_line`): an entry is kept unless the thread already
    /// has a newer one; a malformed line is counted.
    pub fn record_line(&mut self, item: Option<&Json>)
        requires
            old(self).counts().0 < usize::MAX,
        ensures
            final(self).failure() == old(self).failure(),
            final(self).counts().1 == old(self).counts().1,
            match index_line(deref_opt(item)) {
                IndexLine::Malformed => final(self).counts().0 == old(self).counts().0 + 1
                    && final(self).entries() == old(self).entries(),
                IndexLine::Ignored => final(self).counts() == old(self).counts()
                    && final(self).entries() == old(self).entries(),
                IndexLine::Entry(id, name, at) => final(self).counts() == old(self).counts() && if (
                entry_for(old(self).entries(), id) matches Some(e) && at < e.updated_at) {
                    final(self).entries() == old(self).entries()
                } else {
                    entry_set(old(self).entries(), final(self).entries(), id, name, at)
                },
            },
    {
        let value = match item {
            Some(v) => v,
            None => {
                self.malformed_records = self.malformed_records + 1;
                return;
            },
        };
        match value {
            Json::Object(_) => {},
            _ => {
                self.malformed_records = self.malformed_records + 1;
                return;
            },
        }
        let id = match value.get("id") {
            Some(Json::Text(id)) => id,
            _ => return,
        };
        let name = match value.get("thread_name") {
            Some(Json::Text(name)) => name,
            _ => return,
        };
        if name.as_str().is_empty() {
            return;
        }
        let updated = match value.get("updated_at") {
            Some(Json::Text(u)) => u,
            _ => {
                self.malformed_records = self.malformed_records + 1;
                return;
            },
        };
        let at = match parse_rfc3339(updated.as_str()) {
            Some(at) => at,
            None => {
                self.malformed_records = self.malformed_records + 1;
                return;
            },
        };
        let entry = SessionEntry { id: id.clone(), name: name.clone(), updated_at: at };
        match self.position(id.as_str()) {
            Some(i) => {
                if at >= self.entries[i].updated_at {
                    self.entries.set(i, entry);
                }
            },
            None => {
                self.entries.push(entry);
            },
        }
    }

    /// Notes how many lines were skipped as too long, once reading is done.
    pub fn finish_reading(&mut self, oversized_records: usize)
        ensures
            final(self).entries() == old(self).entries(),
            final(self).counts() == (old(self).counts().0, oversized_records),
            final(self).failure() == old(self).failure(),
    {
        self.oversized_records = oversized_records;
    }

    /// Notes the error that stopped reading the index.
    pub fn fail_reading(&mut self, kind: std::io::ErrorKind)
        ensures
            final(self).entries() == old(self).entries(),
            final(self).counts() == old(self).counts(),
            final(self).failure() == Some(kind),
    {
        self.read_error = Some(kind);
    }

    /// Whether every record of the index was read.
    pub fn is_complete(&self) -> (r: bool)
        ensures
            r == (self.counts() == (0usize, 0usize) && self.failure() is None),
    {
        self.malformed_records == 0 && self.oversized_records == 0 && self.read_error.is_none()
    }

    /// How many records were not JSON objects or had a bad `updated_at`.
    pub fn malformed_records(&self) -> (r: usize)
        ensures
            r == self.counts().0,
    {
        self.malformed_records
    }

    /// How many records were too long to read.
    pub fn oversized_records(&self) -> (r: usize)
        ensures
            r == self.counts().1,
    {
        self.oversized_records
    }

    /// The kind of error that stopped reading the index, if any.
    pub fn read_error(&self) -> (r: Option<std::io::ErrorKind>)
        ensures
            r == self.failure(),
    {
        self.read_error
    }
}

} // verus!
