//! Choosing which tasks get a new title, what their base title is, and what
//! the updater prints.
use vstd::prelude::*;

use crate::discovery::{deref_opt, kind_of, source_is_root, Json};
use crate::platform::{find_chars, find_from, occurs_at};
use crate::project::contains_chars;
use crate::session::{entry_for, SessionEntry, Snapshot};
use crate::text::{
    chars_of, decimal, extend_chars, extend_str, lowercase_str, push_decimal, str_eq,
    str_lowercase, string_of, trim_chars, trim_spec,
};
use crate::title::{trailing_metrics, TitleFormat};
use crate::words::{collapse, collapsed, join, lemma_join_push};
use crate::schedule::FailureClass;

verus! {

/// A row of the `threads` table, as the updater reads it. `source` holds what
/// parsing the `source` column as JSON gave: `None` without the column or for
/// SQL `NULL`, `Some(None)` for text that is not JSON.
pub struct ThreadRow {
    pub id: String,
    pub title: Option<String>,
    pub name: Option<String>,
    pub history_mode: Option<String>,
    pub updated_at: i64,
    pub first_user_message: Option<String>,
    pub source: Option<Option<Json>>,
}

impl ThreadRow {
    /// Whether the row is a root task: it has a `source` and that source names
    /// a root rollout (text that is not JSON counts as one).
    pub fn is_root(&self) -> (r: bool)
        ensures
            r == match self.source {
                None => false,
                Some(None) => true,
                Some(Some(v)) => kind_of(Some(v)) is Root,
            },
    {
        match &self.source {
            None => false,
            Some(parsed) => match parsed {
                Some(v) => source_is_root(Some(v)),
                None => source_is_root(None),
            },
        }
    }
}

/// The trimmed text of an optional value, when it is not empty.
pub open spec fn nonblank_spec(value: Option<Seq<char>>) -> Option<Seq<char>> {
    match value {
        Some(v) => if trim_spec(v).len() > 0 {
            Some(trim_spec(v))
        } else {
            None
        },
        None => None,
    }
}

/// An optional string's view.
pub open spec fn view_opt(value: Option<String>) -> Option<Seq<char>> {
    match value {
        Some(s) => Some(s@),
        None => None,
    }
}

/// The trimmed text of `value`, unless it is absent or blank.
pub fn nonblank(value: Option<&str>) -> (r: Option<String>)
    ensures
        view_opt(r) == nonblank_spec(
            match value {
                Some(v) => Some(v@),
                None => None,
            },
        ),
{
    match value {
        None => None,
        Some(v) => {
            let chars = chars_of(v);
            let trimmed = trim_chars(&chars);
            if trimmed.len() == 0 {
                None
            } else {
                Some(string_of(&trimmed))
            }
        },
    }
}

/// The words of `value` joined by single spaces.
pub fn normalize_whitespace(value: &str) -> (r: String)
    ensures
        r@ == collapsed(value@, false),
{
    let chars = chars_of(value);
    let out = collapse(&chars, false);
    string_of(&out)
}

fn nonblank_of(value: &Option<String>) -> (r: Option<String>)
    ensures
        view_opt(r) == nonblank_spec(view_opt(*value)),
{
    match value {
        Some(s) => nonblank(Some(s.as_str())),
        None => nonblank(None),
    }
}

/// The base title of a task, before any metric suffix: for a paginated task
/// its name, else its prompt or title with whitespace normalised; for others
/// its title when that differs from the prompt, else the session index name,
/// else the prompt or title, else `Untitled`.
pub open spec fn base_name_spec(row: ThreadRow, entry: Option<SessionEntry>) -> Seq<char> {
    let title = nonblank_spec(view_opt(row.title));
    let prompt = nonblank_spec(view_opt(row.first_user_message));
    let fallback = match prompt {
        Some(p) => p,
        None => match title {
            Some(t) => t,
            None => "Untitled"@,
        },
    };
    if view_opt(row.history_mode) == Some("paginated"@) {
        match nonblank_spec(view_opt(row.name)) {
            Some(name) => name,
            None => collapsed(fallback, false),
        }
    } else if title is Some && title != prompt {
        title.unwrap()
    } else {
        match entry {
            Some(e) if nonblank_spec(Some(e.name@)) is Some => nonblank_spec(Some(e.name@)).unwrap(),
            _ => collapsed(fallback, false),
        }
    }
}

/// The base title of a task (see `base_name_spec`).
pub fn base_name(row: &ThreadRow, snapshot: &Snapshot) -> (r: String)
    ensures
        r@ == base_name_spec(*row, entry_for(snapshot.entries(), row.id@)),
{
    let title = nonblank_of(&row.title);
    let prompt = nonblank_of(&row.first_user_message);
    let paginated = match &row.history_mode {
        Some(mode) => str_eq(mode.as_str(), "paginated"),
        None => false,
    };
    let fallback: String = match &prompt {
        Some(p) => p.clone(),
        None => match &title {
            Some(t) => t.clone(),
            None => String::from_str("Untitled"),
        },
    };
    if paginated {
        if let Some(name) = nonblank_of(&row.name) {
            return name;
        }
        return normalize_whitespace(fallback.as_str());
    }
    let same = match (&title, &prompt) {
        (Some(t), Some(p)) => str_eq(t.as_str(), p.as_str()),
        _ => false,
    };
    if let Some(t) = title {
        if !same {
            return t;
        }
    }
    if let Some(entry) = snapshot.entry(row.id.as_str()) {
        if let Some(name) = nonblank(Some(entry.name.as_str())) {
            return name;
        }
    }
    normalize_whitespace(fallback.as_str())
}

/// Whether `query` occurs, ignoring case, in the task's title, name or
/// session index name (each lowercased by `str::to_lowercase`).
pub open spec fn matches_title_spec(row: ThreadRow, entry: Option<SessionEntry>, query: Seq<char>) -> bool {
    let q = lowercase_str(query);
    ||| (row.title matches Some(t) && contains_chars(lowercase_str(t@), q))
    ||| (row.name matches Some(n) && contains_chars(lowercase_str(n@), q))
    ||| (entry matches Some(e) && contains_chars(lowercase_str(e.name@), q))
}

proof fn lemma_find_found(hay: Seq<char>, pat: Seq<char>, from: int)
    ensures
        find_from(hay, pat, from) matches Some(k) ==> occurs_at(hay, pat, k),
        from >= 0 && find_from(hay, pat, from) is None ==> forall|p: int|
            from <= p ==> !occurs_at(hay, pat, p),
    decreases hay.len() + 1 - from,
{
    if !(from < 0 || from + pat.len() > hay.len()) && !occurs_at(hay, pat, from) {
        lemma_find_found(hay, pat, from + 1);
    }
}

/// Whether `pat` occurs in the lowercased `value`.
fn lower_contains(value: &str, pat: &Vec<char>) -> (r: bool)
    ensures
        r == contains_chars(lowercase_str(value@), pat@),
{
    let lower = str_lowercase(value);
    let chars = chars_of(lower.as_str());
    let found = find_chars(&chars, pat, 0);
    proof {
        lemma_find_found(chars@, pat@, 0);
    }
    found.is_some()
}

/// Whether a title query selects the task (see `matches_title_spec`).
pub fn matches_title(row: &ThreadRow, snapshot: &Snapshot, query: &str) -> (r: bool)
    ensures
        r == matches_title_spec(*row, entry_for(snapshot.entries(), row.id@), query@),
{
    let q = str_lowercase(query);
    let pat = chars_of(q.as_str());
    let in_title = match &row.title {
        Some(t) => lower_contains(t.as_str(), &pat),
        None => false,
    };
    if in_title {
        return true;
    }
    let in_name = match &row.name {
        Some(n) => lower_contains(n.as_str(), &pat),
        None => false,
    };
    if in_name {
        return true;
    }
    match snapshot.entry(row.id.as_str()) {
        Some(e) => lower_contains(e.name.as_str(), &pat),
        None => false,
    }
}

/// The first and last Unix timestamps that `OffsetDateTime` can represent:
/// the start of -9999-01-01 and the end of 9999-12-31.
pub open spec fn timestamp_in_range(seconds: i64) -> bool {
    -377_705_116_800 <= seconds <= 253_402_300_799
}

/// `OffsetDateTime::from_unix_timestamp`, as nanoseconds since the epoch:
/// `None` outside the representable dates.
#[verifier::external_body]
fn instant_from_unix_timestamp(seconds: i64) -> (r: Option<i128>)
    ensures
        r == if timestamp_in_range(seconds) {
            Some(((seconds as int) * 1_000_000_000) as i128)
        } else {
            None
        },
{
    match time::OffsetDateTime::from_unix_timestamp(seconds) {
        Ok(t) => Some(t.unix_timestamp_nanos()),
        Err(_) => None,
    }
}

/// Whether a task's title is stale: it has no index entry, its update time
/// is out of range, or the entry's name lacks the current suffix, is too
/// wide, is older than the task, or older than the repricing cutoff.
pub open spec fn needs_update_spec(
    row: ThreadRow,
    entry: Option<SessionEntry>,
    format: TitleFormat,
    reprice_before: Option<i128>,
) -> bool {
    match entry {
        None => true,
        Some(e) => if !timestamp_in_range(row.updated_at) {
            true
        } else {
            !(trailing_metrics(e.name@) == format.metrics@ && e.name@.len() <= format.width
                && e.updated_at >= (row.updated_at as int) * 1_000_000_000 && match reprice_before {
                None => true,
                Some(cutoff) => e.updated_at >= cutoff,
            })
        },
    }
}

/// Whether a task needs a new title (see `needs_update_spec`).
pub fn needs_update(
    row: &ThreadRow,
    snapshot: &Snapshot,
    format: &TitleFormat,
    reprice_before: Option<i128>,
) -> (r: bool)
    ensures
        r == needs_update_spec(*row, entry_for(snapshot.entries(), row.id@), *format, reprice_before),
{
    let entry = match snapshot.entry(row.id.as_str()) {
        Some(e) => e,
        None => return true,
    };
    let task_updated_at = match instant_from_unix_timestamp(row.updated_at) {
        Some(t) => t,
        None => return true,
    };
    let name_chars = chars_of(entry.name.as_str());
    let fresh = format.matches_suffix(entry.name.as_str()) && name_chars.len() <= format.width()
        && entry.updated_at >= task_updated_at && match reprice_before {
        None => true,
        Some(cutoff) => entry.updated_at >= cutoff,
    };
    !fresh
}


/// What the updater is asked to do.
pub struct UpdateOptions {
    pub thread_ids: Vec<String>,
    pub title_matches: Vec<String>,
    pub idle_minutes: Option<u64>,
    pub limit: usize,
    /// Entries written before this instant (nanoseconds since the epoch) are stale.
    pub reprice_before: Option<i128>,
    pub apply: bool,
    pub title_format: TitleFormat,
}

/// Why a task could not be selected, as the rules see it.
pub enum SelectionFailure {
    RootNotFound(Seq<char>),
    TitleMatch(Seq<char>, Seq<char>),
}

/// The last position of a root with the given id.
pub open spec fn last_with_id(roots: Seq<ThreadRow>, id: Seq<char>, n: int) -> Option<int>
    decreases n,
{
    if n <= 0 {
        None
    } else if roots[n - 1].id@ == id {
        Some(n - 1)
    } else {
        last_with_id(roots, id, n - 1)
    }
}

/// Whether a root with the id of root `i` was already picked.
pub open spec fn seen(roots: Seq<ThreadRow>, picked: Seq<int>, i: int) -> bool {
    exists|k: int| 0 <= k < picked.len() && #[trigger] roots[picked[k]].id@ == roots[i].id@
}

/// `picked` with root `i` added unless a root with its id is there already.
pub open spec fn add_once(roots: Seq<ThreadRow>, picked: Seq<int>, i: int) -> Seq<int> {
    if seen(roots, picked, i) {
        picked
    } else {
        picked.push(i)
    }
}

/// The roots named by thread ids, each once, in order; the first unknown id
/// is the failure.
pub open spec fn pick_ids(roots: Seq<ThreadRow>, ids: Seq<Seq<char>>, picked: Seq<int>) -> Result<
    Seq<int>,
    SelectionFailure,
>
    decreases ids.len(),
{
    if ids.len() == 0 {
        Ok(picked)
    } else {
        match last_with_id(roots, ids[0], roots.len() as int) {
            None => Err(SelectionFailure::RootNotFound(ids[0])),
            Some(i) => pick_ids(roots, ids.drop_first(), add_once(roots, picked, i)),
        }
    }
}

/// The positions of the roots that a title query selects, in order.
pub open spec fn title_hits(roots: Seq<ThreadRow>, entries: Seq<SessionEntry>, query: Seq<char>, n: int) -> Seq<int>
    decreases n,
{
    if n <= 0 {
        Seq::<int>::empty()
    } else if matches_title_spec(roots[n - 1], entry_for(entries, roots[n - 1].id@), query) {
        title_hits(roots, entries, query, n - 1).push(n - 1)
    } else {
        title_hits(roots, entries, query, n - 1)
    }
}

/// The ids of some roots.
pub open spec fn ids_at(roots: Seq<ThreadRow>, at: Seq<int>) -> Seq<Seq<char>> {
    at.map_values(|i: int| roots[i].id@)
}

/// The roots that title queries select, each once; a query that selects no
/// root or several is the failure, with the ids it selected (or `none`).
pub open spec fn pick_titles(
    roots: Seq<ThreadRow>,
    entries: Seq<SessionEntry>,
    queries: Seq<Seq<char>>,
    picked: Seq<int>,
) -> Result<Seq<int>, SelectionFailure>
    decreases queries.len(),
{
    if queries.len() == 0 {
        Ok(picked)
    } else {
        let hits = title_hits(roots, entries, queries[0], roots.len() as int);
        if hits.len() != 1 {
            Err(
                SelectionFailure::TitleMatch(
                    queries[0],
                    if hits.len() == 0 {
                        "none"@
                    } else {
                        join(ids_at(roots, hits), ", "@)
                    },
                ),
            )
        } else {
            pick_titles(roots, entries, queries.drop_first(), add_once(roots, picked, hits[0]))
        }
    }
}

/// The roots that explicit thread ids and title queries select.
pub open spec fn explicit_selection(
    roots: Seq<ThreadRow>,
    entries: Seq<SessionEntry>,
    ids: Seq<Seq<char>>,
    queries: Seq<Seq<char>>,
) -> Result<Seq<int>, SelectionFailure> {
    match pick_ids(roots, ids, Seq::<int>::empty()) {
        Err(f) => Err(f),
        Ok(picked) => pick_titles(roots, entries, queries, picked),
    }
}

/// A proposed new title for a task.
pub struct ProposedUpdate {
    pub id: String,
    pub old_title: String,
    pub new_title: String,
}

/// The titles the updater proposes (and, when applying, writes).
pub struct UpdateResult {
    pub proposals: Vec<ProposedUpdate>,
}

/// Kinds of I/O failure that the failure classes tell apart.
#[derive(Clone, Copy, PartialEq, Eq, Structural)]
pub enum IoFault {
    PermissionDenied,
    Other,
}

/// SQLite result codes that the failure classes tell apart.
#[derive(Clone, Copy, PartialEq, Eq, Structural)]
pub enum SqliteFault {
    DiskFull,
    CannotOpen,
    PermissionDenied,
    ReadOnly,
    Other,
}

/// How appending to the session index failed.
#[derive(Clone, Copy, PartialEq, Eq, Structural)]
pub enum AppendFault {
    /// Opening, seeking, reading, writing, flushing or syncing failed.
    Io(IoFault),
    DiskFull,
    Other,
}

/// Why an update run failed.
pub enum UpdateError {
    LockBusy,
    Lock { path: String, source: IoFault },
    DatabaseNotFound { home: String },
    /// A database error; `Some` for an SQLite failure with its result code.
    Database { code: Option<SqliteFault> },
    Schema { column: String },
    SessionIndexUnreadable { kind: IoFault },
    RootNotFound { id: String },
    TitleMatch { query: String, matches: String },
    AffectedRows { id: String, affected: usize },
    SessionIndex(AppendFault),
    /// A pricing, report or title failure, with its message.
    Other(String),
}

impl UpdateError {
    /// How the scheduler counts this failure towards its circuit breaker.
    pub open spec fn class_of(&self) -> FailureClass {
        match self {
            UpdateError::Schema { .. } => FailureClass::IncompatibleSchema,
            UpdateError::Database { code: Some(SqliteFault::DiskFull) } => FailureClass::DiskFull,
            UpdateError::Database { code: Some(SqliteFault::CannotOpen) } => FailureClass::PermissionDenied,
            UpdateError::Database { code: Some(SqliteFault::PermissionDenied) } => FailureClass::PermissionDenied,
            UpdateError::Database { code: Some(SqliteFault::ReadOnly) } => FailureClass::PermissionDenied,
            UpdateError::SessionIndexUnreadable { kind: IoFault::PermissionDenied } => FailureClass::PermissionDenied,
            UpdateError::Lock { source: IoFault::PermissionDenied, .. } => FailureClass::PermissionDenied,
            UpdateError::SessionIndex(AppendFault::Io(IoFault::PermissionDenied)) => FailureClass::PermissionDenied,
            UpdateError::SessionIndex(AppendFault::DiskFull) => FailureClass::DiskFull,
            _ => FailureClass::Ordinary,
        }
    }

    /// How the scheduler counts this failure towards its circuit breaker.
    pub fn failure_class(&self) -> (r: FailureClass)
        ensures
            r == self.class_of(),
    {
        match self {
            UpdateError::Schema { .. } => FailureClass::IncompatibleSchema,
            UpdateError::Database { code: Some(code) } => match code {
                SqliteFault::DiskFull => FailureClass::DiskFull,
                SqliteFault::CannotOpen | SqliteFault::PermissionDenied | SqliteFault::ReadOnly => FailureClass::PermissionDenied,
                SqliteFault::Other => FailureClass::Ordinary,
            },
            UpdateError::SessionIndexUnreadable { kind: IoFault::PermissionDenied } => FailureClass::PermissionDenied,
            UpdateError::Lock { source: IoFault::PermissionDenied, .. } => FailureClass::PermissionDenied,
            UpdateError::SessionIndex(AppendFault::Io(IoFault::PermissionDenied)) => FailureClass::PermissionDenied,
            UpdateError::SessionIndex(AppendFault::DiskFull) => FailureClass::DiskFull,
            _ => FailureClass::Ordinary,
        }
    }
}

fn last_position(roots: &[ThreadRow], id: &str) -> (r: Option<usize>)
    ensures
        match r {
            Some(i) => i < roots.len() && last_with_id(roots@, id@, roots.len() as int) == Some(i as int),
            None => last_with_id(roots@, id@, roots.len() as int) is None,
        },
{
    let mut n: usize = roots.len();
    while n > 0
        invariant
            n <= roots.len(),
            last_with_id(roots@, id@, roots.len() as int) == last_with_id(roots@, id@, n as int),
        decreases n,
    {
        if str_eq(roots[n - 1].id.as_str(), id) {
            return Some(n - 1);
        }
        n -= 1;
    }
    None
}

fn add_once_exec(roots: &[ThreadRow], picked: &mut Vec<usize>, i: usize)
    requires
        i < roots.len(),
        forall|k: int| 0 <= k < old(picked).len() ==> #[trigger] old(picked)@[k] < roots.len(),
    ensures
        ints(final(picked)@) == add_once(roots@, ints(old(picked)@), i as int),
        forall|k: int| 0 <= k < final(picked).len() ==> #[trigger] final(picked)@[k] < roots.len(),
{
    let mut k: usize = 0;
    while k < picked.len()
        invariant
            k <= picked.len(),
            i < roots.len(),
            forall|q: int| 0 <= q < picked.len() ==> #[trigger] picked@[q] < roots.len(),
            forall|q: int| 0 <= q < k ==> roots@[#[trigger] picked@[q] as int].id@ != roots@[i as int].id@,
            picked@ == old(picked)@,
        decreases picked.len() - k,
    {
        if str_eq(roots[picked[k]].id.as_str(), roots[i].id.as_str()) {
            proof {
                assert(ints(picked@)[k as int] == picked@[k as int]);
                assert(seen(roots@, ints(picked@), i as int));
            }
            return;
        }
        k += 1;
    }
    proof {
        assert forall|q: int| 0 <= q < ints(picked@).len() implies #[trigger] roots@[ints(picked@)[q]].id@ != roots@[i as int].id@ by {
            assert(ints(picked@)[q] == picked@[q]);
        }
    }
    picked.push(i);
    proof {
        assert(ints(picked@) =~= ints(old(picked)@).push(i as int));
    }
}

/// Positions as integers.
pub open spec fn ints(v: Seq<usize>) -> Seq<int> {
    v.map_values(|x: usize| x as int)
}

/// Roots selected by explicit thread ids and title queries, as positions in
/// `roots` (see `explicit_selection`); the failure says which id or query
/// could not be resolved.
pub fn select_explicit(roots: &[ThreadRow], snapshot: &Snapshot, options: &UpdateOptions) -> (r: Result<Vec<usize>, UpdateError>)
    ensures
        match (r, explicit_selection(
            roots@,
            snapshot.entries(),
            options.thread_ids@.map_values(|s: String| s@),
            options.title_matches@.map_values(|s: String| s@),
        )) {
            (Ok(v), Ok(s)) => ints(v@) == s,
            (Err(UpdateError::RootNotFound { id }), Err(SelectionFailure::RootNotFound(x))) => id@ == x,
            (Err(UpdateError::TitleMatch { query, matches }), Err(SelectionFailure::TitleMatch(q, m))) => query@ == q && matches@ == m,
            _ => false,
        },
{
    let ghost roots_v = roots@;
    let ghost ids = options.thread_ids@.map_values(|s: String| s@);
    let ghost queries = options.title_matches@.map_values(|s: String| s@);
    let mut picked: Vec<usize> = Vec::new();
    let mut t: usize = 0;
    assert(ids.skip(0) =~= ids);
    assert(ints(picked@) =~= Seq::<int>::empty());
    while t < options.thread_ids.len()
        invariant
            t <= options.thread_ids.len(),
            ids == options.thread_ids@.map_values(|s: String| s@),
            forall|k: int| 0 <= k < picked.len() ==> #[trigger] picked@[k] < roots.len(),
            pick_ids(roots@, ids, Seq::<int>::empty()) == pick_ids(roots@, ids.skip(t as int), ints(picked@)),
        decreases options.thread_ids.len() - t,
    {
        assert(ids.skip(t as int).drop_first() =~= ids.skip(t + 1));
        assert(ids.skip(t as int)[0] == options.thread_ids@[t as int]@);
        match last_position(roots, options.thread_ids[t].as_str()) {
            None => {
                return Err(UpdateError::RootNotFound { id: options.thread_ids[t].clone() });
            },
            Some(i) => {
                add_once_exec(roots, &mut picked, i);
            },
        }
        t += 1;
    }
    assert(ids.skip(options.thread_ids.len() as int).len() == 0);
    let mut q: usize = 0;
    assert(queries.skip(0) =~= queries);
    while q < options.title_matches.len()
        invariant
            q <= options.title_matches.len(),
            queries == options.title_matches@.map_values(|s: String| s@),
            ids == options.thread_ids@.map_values(|s: String| s@),
            forall|k: int| 0 <= k < picked.len() ==> #[trigger] picked@[k] < roots.len(),
            explicit_selection(roots@, snapshot.entries(), ids, queries) == pick_titles(
                roots@,
                snapshot.entries(),
                queries.skip(q as int),
                ints(picked@),
            ),
        decreases options.title_matches.len() - q,
    {
        let query = options.title_matches[q].as_str();
        assert(queries.skip(q as int).drop_first() =~= queries.skip(q + 1));
        assert(queries.skip(q as int)[0] == query@);
        let mut hits: Vec<usize> = Vec::new();
        let mut j: usize = 0;
        while j < roots.len()
            invariant
                j <= roots.len(),
                ints(hits@) == title_hits(roots@, snapshot.entries(), query@, j as int),
                forall|k: int| 0 <= k < hits.len() ==> #[trigger] hits@[k] < j,
            decreases roots.len() - j,
        {
            if matches_title(&roots[j], snapshot, query) {
                hits.push(j);
                assert(ints(hits@) =~= title_hits(roots@, snapshot.entries(), query@, j as int).push(j as int));
            }
            j += 1;
        }
        assert(queries.skip(q as int).len() > 0);
        assert(ints(hits@) == title_hits(roots@, snapshot.entries(), queries.skip(q as int)[0], roots@.len() as int));
        if hits.len() != 1 {
            let matches = if hits.len() == 0 {
                String::from_str("none")
            } else {
                let mut out: Vec<char> = Vec::new();
                let mut k: usize = 0;
                while k < hits.len()
                    invariant
                        k <= hits.len(),
                        forall|z: int| 0 <= z < hits.len() ==> #[trigger] hits@[z] < roots.len(),
                        out@ == join(ids_at(roots@, ints(hits@)).take(k as int), ", "@),
                    decreases hits.len() - k,
                {
                    let ghost ws = ids_at(roots@, ints(hits@));
                    proof {
                        lemma_join_push(ws.take(k as int), ws[k as int], ", "@);
                        assert(ws.take(k as int).push(ws[k as int]) =~= ws.take(k + 1));
                        assert(ws[k as int] == roots@[hits@[k as int] as int].id@);
                    }
                    if k > 0 {
                        extend_str(&mut out, ", ");
                    }
                    extend_str(&mut out, roots[hits[k]].id.as_str());
                    k += 1;
                }
                assert(ids_at(roots@, ints(hits@)).take(hits.len() as int) =~= ids_at(roots@, ints(hits@)));
                string_of(&out)
            };
            assert(matches@ == (if ints(hits@).len() == 0 {
                "none"@
            } else {
                join(ids_at(roots@, ints(hits@)), ", "@)
            }));
            assert(options.title_matches@[q as int]@ == queries.skip(q as int)[0]);
            return Err(UpdateError::TitleMatch { query: options.title_matches[q].clone(), matches });
        }
        assert(ints(hits@)[0] == hits@[0]);
        add_once_exec(roots, &mut picked, hits[0]);
        q += 1;
    }
    Ok(picked)
}


/// The newest update time that an idle task may have: `now` less the idle
/// minutes in seconds (saturating, and at most `i64::MAX`).
pub open spec fn idle_cutoff(now: i64, idle_minutes: u64) -> int {
    let seconds = if idle_minutes * 60 > u64::MAX { u64::MAX as int } else { idle_minutes * 60 };
    now - (if seconds > i64::MAX { i64::MAX as int } else { seconds })
}

/// Root `i` comes before root `j` in the idle order: newer first, and in
/// their original order on equal update times.
pub open spec fn idle_before(roots: Seq<ThreadRow>, i: int, j: int) -> bool {
    roots[i].updated_at > roots[j].updated_at || (roots[i].updated_at == roots[j].updated_at && i < j)
}

/// Root `i` is idle and needs a new title.
pub open spec fn idle_candidate(
    roots: Seq<ThreadRow>,
    entries: Seq<SessionEntry>,
    format: TitleFormat,
    reprice_before: Option<i128>,
    cutoff: int,
    i: int,
) -> bool {
    &&& 0 <= i < roots.len()
    &&& roots[i].updated_at <= cutoff
    &&& needs_update_spec(roots[i], entry_for(entries, roots[i].id@), format, reprice_before)
}

/// The idle tasks chosen at time `now` (Unix seconds): the roots updated at
/// or before the cutoff that need a new title, newest first (ties in their
/// original order), at most `options.limit` of them. The result is sorted in
/// that order, holds only candidates, and either holds `limit` of them or
/// all; every candidate left out comes after every one chosen.
pub fn select_idle_at(roots: &[ThreadRow], snapshot: &Snapshot, options: &UpdateOptions, now: i64) -> (r: Vec<usize>)
    requires
        idle_cutoff(now, idle_minutes_of(options)) >= i64::MIN,
    ensures
        idle_choice(roots@, snapshot, options, idle_cutoff(now, idle_minutes_of(options)), r@),
{
    let minutes: u64 = match options.idle_minutes {
        Some(m) => m,
        None => 0,
    };
    let seconds: u64 = if minutes > u64::MAX / 60 {
        u64::MAX
    } else {
        minutes * 60
    };
    let span: i64 = if seconds > i64::MAX as u64 {
        i64::MAX
    } else {
        seconds as i64
    };
    let cutoff: i64 = now - span;
    let ghost cutoff_i: int = cutoff as int;
    let n = roots.len();
    let mut qual: Vec<bool> = Vec::new();
    let mut i: usize = 0;
    while i < n
        invariant
            i <= n,
            n == roots.len(),
            cutoff_i == cutoff as int,
            qual.len() == i,
            forall|k: int| 0 <= k < i ==> (#[trigger] qual@[k] <==> idle_candidate(roots@, snapshot.entries(), options.title_format, options.reprice_before, cutoff_i, k)),
        decreases n - i,
    {
        let q = roots[i].updated_at <= cutoff && needs_update(
            &roots[i],
            snapshot,
            &options.title_format,
            options.reprice_before,
        );
        qual.push(q);
        i += 1;
    }
    let mut chosen: Vec<bool> = Vec::new();
    let mut k: usize = 0;
    while k < n
        invariant
            k <= n,
            chosen.len() == k,
            forall|z: int| 0 <= z < k ==> !#[trigger] chosen@[z],
        decreases n - k,
    {
        chosen.push(false);
        k += 1;
    }
    let mut r: Vec<usize> = Vec::new();
    while r.len() < options.limit
        invariant
            n == roots.len(),
            qual.len() == n,
            chosen.len() == n,
            r.len() <= options.limit,
            forall|z: int| 0 <= z < n ==> (#[trigger] qual@[z] <==> idle_candidate(roots@, snapshot.entries(), options.title_format, options.reprice_before, cutoff_i, z)),
            forall|z: int| 0 <= z < n ==> (#[trigger] chosen@[z] <==> r@.contains(z as usize)),
            forall|a: int| 0 <= a < r.len() ==> #[trigger] r@[a] < n && idle_candidate(roots@, snapshot.entries(), options.title_format, options.reprice_before, cutoff_i, r@[a] as int),
            forall|a: int, b: int| 0 <= a < b < r.len() ==> idle_before(roots@, #[trigger] r@[a] as int, #[trigger] r@[b] as int),
            forall|z: int| 0 <= z < n && qual@[z] && !#[trigger] chosen@[z] ==> forall|a: int| 0 <= a < r.len() ==> idle_before(roots@, #[trigger] r@[a] as int, z),
        ensures
            n == roots.len(),
            chosen.len() == n,
            qual.len() == n,
            r.len() <= options.limit,
            forall|z: int| 0 <= z < n ==> (#[trigger] qual@[z] <==> idle_candidate(roots@, snapshot.entries(), options.title_format, options.reprice_before, cutoff_i, z)),
            forall|z: int| 0 <= z < n ==> (#[trigger] chosen@[z] <==> r@.contains(z as usize)),
            forall|a: int| 0 <= a < r.len() ==> #[trigger] r@[a] < n && idle_candidate(roots@, snapshot.entries(), options.title_format, options.reprice_before, cutoff_i, r@[a] as int),
            forall|a: int, b: int| 0 <= a < b < r.len() ==> idle_before(roots@, #[trigger] r@[a] as int, #[trigger] r@[b] as int),
            forall|z: int| 0 <= z < n && qual@[z] && !#[trigger] chosen@[z] ==> r.len() == options.limit && forall|a: int| 0 <= a < r.len() ==> idle_before(roots@, #[trigger] r@[a] as int, z),
        decreases options.limit - r.len(),
    {
        let mut best: Option<usize> = None;
        let mut j: usize = 0;
        while j < n
            invariant
                j <= n,
                n == roots.len(),
                qual.len() == n,
                chosen.len() == n,
                match best {
                    Some(b) => b < j && qual@[b as int] && !chosen@[b as int] && forall|z: int|
                        0 <= z < j && qual@[z] && !#[trigger] chosen@[z] && z != b ==> idle_before(roots@, b as int, z),
                    None => forall|z: int| 0 <= z < j ==> !(#[trigger] qual@[z] && !chosen@[z]),
                },
            decreases n - j,
        {
            if qual[j] && !chosen[j] {
                let better = match best {
                    None => true,
                    Some(b) => roots[j].updated_at > roots[b].updated_at,
                };
                if better {
                    best = Some(j);
                }
            }
            j += 1;
        }
        match best {
            None => {
                break;
            },
            Some(b) => {
                let ghost before_r = r@;
                let ghost before_chosen = chosen@;
                chosen.set(b, true);
                r.push(b);
                proof {
                    assert forall|z: int| 0 <= z < n implies (#[trigger] chosen@[z] <==> r@.contains(z as usize)) by {
                        if z == b as int {
                            assert(r@[before_r.len() as int] == b);
                        } else {
                            if r@.contains(z as usize) {
                                let a = choose|a: int| 0 <= a < r@.len() && r@[a] == z as usize;
                                assert(a < before_r.len());
                                assert(before_r[a] == z as usize);
                            }
                            if before_chosen[z] {
                                assert(before_r.contains(z as usize));
                                let a = choose|a: int| 0 <= a < before_r.len() && before_r[a] == z as usize;
                                assert(r@[a] == z as usize);
                            }
                        }
                    }
                    assert forall|a: int, c: int| 0 <= a < c < r.len() implies idle_before(roots@, #[trigger] r@[a] as int, #[trigger] r@[c] as int) by {
                        if c == before_r.len() {
                            assert(r@[a] == before_r[a]);
                            assert(qual@[b as int] && !before_chosen[b as int]);
                        } else {
                            assert(r@[a] == before_r[a] && r@[c] == before_r[c]);
                        }
                    }
                    assert forall|z: int| 0 <= z < n && qual@[z] && !#[trigger] chosen@[z] implies forall|a: int| 0 <= a < r.len() ==> idle_before(roots@, #[trigger] r@[a] as int, z) by {
                        assert(z != b as int);
                        assert(!before_chosen[z]);
                        assert forall|a: int| 0 <= a < r.len() implies idle_before(roots@, #[trigger] r@[a] as int, z) by {
                            if a < before_r.len() {
                                assert(r@[a] == before_r[a]);
                            } else {
                                assert(r@[a] == b);
                            }
                        }
                    }
                }
            },
        }
    }
    proof {
        assert forall|z: int| #[trigger] idle_candidate(roots@, snapshot.entries(), options.title_format, options.reprice_before, cutoff_i, z) && !r@.contains(z as usize) implies r.len() == options.limit
            && forall|a: int| 0 <= a < r.len() ==> idle_before(roots@, #[trigger] r@[a] as int, z) by {
            assert(qual@[z]);
            assert(!chosen@[z]);
        }
    }
    r
}


/// Nanoseconds from 1970 to the first and to the last instant that
/// `OffsetDateTime` can represent (years -9999 through 9999).
pub open spec fn nanos_in_range(n: i128) -> bool {
    -377_705_116_800_000_000_000 <= n <= 253_402_300_799_999_999_999
}

/// `OffsetDateTime::now_utc()`, as nanoseconds since the epoch. The value
/// comes from the system clock; all that is promised of it is that it lies
/// within the dates the type can represent.
#[verifier::external_body]
pub(crate) fn now_utc_nanos() -> (r: i128)
    ensures
        nanos_in_range(r),
{
    time::OffsetDateTime::now_utc().unix_timestamp_nanos()
}

/// The whole seconds since the epoch of an instant given in nanoseconds,
/// rounded down (`OffsetDateTime::unix_timestamp`).
pub fn whole_seconds(nanos: i128) -> (s: i64)
    requires
        nanos_in_range(nanos),
    ensures
        s * 1_000_000_000 <= nanos < (s + 1) * 1_000_000_000,
{
    let per_second: i128 = 1_000_000_000;
    if nanos >= 0 {
        let q: i128 = nanos / per_second;
        assert(q * per_second <= nanos < (q + 1) * per_second) by (nonlinear_arith)
            requires
                nanos >= 0,
                q == nanos / per_second,
                per_second == 1_000_000_000,
        ;
        assert(q <= 253_402_300_799) by (nonlinear_arith)
            requires
                q * per_second <= nanos,
                nanos <= 253_402_300_799_999_999_999,
                per_second == 1_000_000_000,
        ;
        q as i64
    } else {
        let m: i128 = -(nanos + 1);
        let q: i128 = m / per_second;
        assert(q * per_second <= m < (q + 1) * per_second) by (nonlinear_arith)
            requires
                m >= 0,
                q == m / per_second,
                per_second == 1_000_000_000,
        ;
        assert(q <= 377_705_116_800) by (nonlinear_arith)
            requires
                q * per_second <= m,
                m <= 377_705_116_800_000_000_000,
                per_second == 1_000_000_000,
        ;
        let s: i128 = -q - 1;
        assert(s * per_second == -(q * per_second) - per_second) by (nonlinear_arith)
            requires
                s == -q - 1,
        ;
        assert((s + 1) * per_second == -(q * per_second)) by (nonlinear_arith)
            requires
                s == -q - 1,
        ;
        s as i64
    }
}

/// `r` is a choice of idle tasks at `cutoff` as `select_idle_at` makes it:
/// at most `limit` candidates, newest first, and every candidate left out
/// comes after all of them, which are then `limit` in number.
pub open spec fn idle_choice(
    roots: Seq<ThreadRow>,
    snapshot: &Snapshot,
    options: &UpdateOptions,
    cutoff: int,
    r: Seq<usize>,
) -> bool {
    &&& r.len() <= options.limit
    &&& forall|a: int| 0 <= a < r.len() ==> (#[trigger] r[a] as int) < roots.len()
    &&& forall|a: int| 0 <= a < r.len() ==> #[trigger] idle_candidate(roots, snapshot.entries(), options.title_format, options.reprice_before, cutoff, r[a] as int)
    &&& forall|a: int, b: int| 0 <= a < b < r.len() ==> idle_before(roots, #[trigger] r[a] as int, #[trigger] r[b] as int)
    &&& forall|i: int| #[trigger] idle_candidate(roots, snapshot.entries(), options.title_format, options.reprice_before, cutoff, i) && !r.contains(i as usize) ==> r.len() == options.limit
        && forall|a: int| 0 <= a < r.len() ==> idle_before(roots, #[trigger] r[a] as int, i)
}

/// The idle span of the options in minutes (none counts as zero).
pub open spec fn idle_minutes_of(options: &UpdateOptions) -> u64 {
    match options.idle_minutes {
        Some(m) => m,
        None => 0,
    }
}

/// The idle tasks chosen now (see `select_idle_at`): the choice made at some
/// instant the clock can read. `None` only where the clock read so far before
/// 1970 that the cutoff would fall below `i64::MIN`, which cannot happen when
/// the idle span leaves room for the earliest representable instant.
pub fn select_idle(roots: &[ThreadRow], snapshot: &Snapshot, options: &UpdateOptions) -> (r: Option<Vec<usize>>)
    ensures
        match r {
            Some(v) => exists|now: i64|
                timestamp_in_range(now) && #[trigger] idle_cutoff(now, idle_minutes_of(options)) >= i64::MIN
                    && idle_choice(roots@, snapshot, options, idle_cutoff(now, idle_minutes_of(options)), v@),
            None => exists|now: i64|
                timestamp_in_range(now) && #[trigger] idle_cutoff(now, idle_minutes_of(options)) < i64::MIN,
        },
        idle_cutoff(-377_705_116_800i64, idle_minutes_of(options)) >= i64::MIN ==> r is Some,
{
    let nanos_now = now_utc_nanos();
    let now = whole_seconds(nanos_now);
    let minutes: u64 = match options.idle_minutes {
        Some(m) => m,
        None => 0,
    };
    let seconds: u64 = if minutes > u64::MAX / 60 {
        u64::MAX
    } else {
        minutes * 60
    };
    let span: i64 = if seconds > i64::MAX as u64 {
        i64::MAX
    } else {
        seconds as i64
    };
    proof {
        assert(timestamp_in_range(now)) by (nonlinear_arith)
            requires
                now * 1_000_000_000 <= nanos_now,
                nanos_now < (now + 1) * 1_000_000_000,
                nanos_in_range(nanos_now),
        ;
    }
    if now < 0 && now < i64::MIN + span {
        assert(idle_cutoff(now, idle_minutes_of(options)) < i64::MIN);
        return None;
    }
    let r = select_idle_at(roots, snapshot, options, now);
    assert(idle_cutoff(now, idle_minutes_of(options)) >= i64::MIN);
    assert(idle_choice(roots@, snapshot, options, idle_cutoff(now, idle_minutes_of(options)), r@));
    Some(r)
}

/// The tasks to retitle: the idle ones when an idle span is given, else the
/// ones named by thread ids and title queries (see `select_explicit`).
pub fn select_rows(roots: &[ThreadRow], snapshot: &Snapshot, options: &UpdateOptions) -> (r: Result<Vec<usize>, UpdateError>)
    ensures
        options.idle_minutes is None ==> match (r, explicit_selection(
            roots@,
            snapshot.entries(),
            options.thread_ids@.map_values(|s: String| s@),
            options.title_matches@.map_values(|s: String| s@),
        )) {
            (Ok(v), Ok(s)) => ints(v@) == s,
            (Err(UpdateError::RootNotFound { id }), Err(SelectionFailure::RootNotFound(x))) => id@ == x,
            (Err(UpdateError::TitleMatch { query, matches }), Err(SelectionFailure::TitleMatch(q, m))) => query@ == q && matches@ == m,
            _ => false,
        },
        options.idle_minutes is Some ==> (r matches Ok(v) && ((exists|now: i64|
            timestamp_in_range(now) && #[trigger] idle_cutoff(now, idle_minutes_of(options)) >= i64::MIN
                && idle_choice(roots@, snapshot, options, idle_cutoff(now, idle_minutes_of(options)), v@))
            || (v@.len() == 0 && exists|now: i64|
            timestamp_in_range(now) && #[trigger] idle_cutoff(now, idle_minutes_of(options)) < i64::MIN))),
{
    if options.idle_minutes.is_some() {
        return match select_idle(roots, snapshot, options) {
            Some(v) => Ok(v),
            None => Ok(Vec::new()),
        };
    }
    select_explicit(roots, snapshot, options)
}

/// One line of the updater's report: `id: old -> new`, each part sanitised.
pub open spec fn proposal_line(p: ProposedUpdate) -> Seq<char> {
    collapsed(p.id@, true) + ": "@ + collapsed(p.old_title@, true) + " -> "@ + collapsed(p.new_title@, true) + seq!['\n']
}

/// The report lines of some proposals, in order.
pub open spec fn proposal_lines(ps: Seq<ProposedUpdate>) -> Seq<char>
    decreases ps.len(),
{
    if ps.len() == 0 {
        Seq::<char>::empty()
    } else {
        proposal_lines(ps.drop_last()) + proposal_line(ps.last())
    }
}

/// What the updater prints: a line per proposal, then the count of updated
/// tasks when applying, or a dry-run note.
pub open spec fn update_output_spec(ps: Seq<ProposedUpdate>, apply: bool) -> Seq<char> {
    proposal_lines(ps) + if apply {
        "updated "@ + decimal(ps.len()) + " task(s)\n"@
    } else {
        "dry run; pass --apply to write\n"@
    }
}

/// The updater's report (see `update_output_spec`).
pub fn update_output(result: &UpdateResult, apply: bool) -> (r: String)
    ensures
        r@ == update_output_spec(result.proposals@, apply),
{
    let ps = &result.proposals;
    let mut out: Vec<char> = Vec::new();
    let mut i: usize = 0;
    while i < ps.len()
        invariant
            i <= ps.len(),
            out@ == proposal_lines(ps@.take(i as int)),
        decreases ps.len() - i,
    {
        let ghost before = out@;
        assert(ps@.take(i + 1).drop_last() =~= ps@.take(i as int));
        let id = crate::output::safe_text(ps[i].id.as_str());
        let old_title = crate::output::safe_text(ps[i].old_title.as_str());
        let new_title = crate::output::safe_text(ps[i].new_title.as_str());
        extend_str(&mut out, id.as_str());
        extend_str(&mut out, ": ");
        extend_str(&mut out, old_title.as_str());
        extend_str(&mut out, " -> ");
        extend_str(&mut out, new_title.as_str());
        out.push('\n');
        assert(out@ =~= before + proposal_line(ps@[i as int]));
        i += 1;
    }
    assert(ps@.take(ps.len() as int) =~= ps@);
    let ghost lines = out@;
    if apply {
        extend_str(&mut out, "updated ");
        push_decimal(&mut out, ps.len() as u64);
        extend_str(&mut out, " task(s)\n");
        assert(out@ =~= lines + ("updated "@ + decimal(ps.len() as nat) + " task(s)\n"@));
    } else {
        extend_str(&mut out, "dry run; pass --apply to write\n");
    }
    string_of(&out)
}

/// The error reported when the updater's report cannot be written.
pub enum OutputError {
    WriteUpdateOutput,
    UpdateOutputAfterApply { updated: usize },
}

impl OutputError {
    /// The error's message.
    pub open spec fn message_spec(&self) -> Seq<char> {
        match self {
            OutputError::WriteUpdateOutput => "could not write update output"@,
            OutputError::UpdateOutputAfterApply { updated } => "update applied successfully to "@
                + decimal(*updated as nat) + " task(s), but could not write update output"@,
        }
    }

    /// The error's message.
    pub fn message(&self) -> (r: String)
        ensures
            r@ == self.message_spec(),
    {
        match self {
            OutputError::WriteUpdateOutput => String::from_str("could not write update output"),
            OutputError::UpdateOutputAfterApply { updated } => {
                let mut out: Vec<char> = Vec::new();
                extend_str(&mut out, "update applied successfully to ");
                push_decimal(&mut out, *updated as u64);
                extend_str(&mut out, " task(s), but could not write update output");
                string_of(&out)
            },
        }
    }
}

/// The report to write and the error to give if writing it fails: after an
/// applied update the error says how many tasks were already updated.
pub fn write_update_output(result: &UpdateResult, apply: bool) -> (r: (String, OutputError))
    ensures
        r.0@ == update_output_spec(result.proposals@, apply),
        r.1 == if apply {
            OutputError::UpdateOutputAfterApply { updated: result.proposals.len() }
        } else {
            OutputError::WriteUpdateOutput
        },
{
    let text = update_output(result, apply);
    let error = if apply {
        OutputError::UpdateOutputAfterApply { updated: result.proposals.len() }
    } else {
        OutputError::WriteUpdateOutput
    };
    (text, error)
}

} // verus!
