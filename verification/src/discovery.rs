//! Rollout metadata: the JSON values a rollout starts with, the kind of
//! rollout they describe, and the index of rollouts by id.
use vstd::prelude::*;

use crate::sort::{
    lemma_lex_antisymmetric, lemma_lex_total, lemma_lex_transitive, lex_le, lex_less,
    sort_strings, sorted_views, views,
};
use crate::text::{chars_equal, chars_of, str_eq};
use crate::words::{char_pred, pieces_by, split_on};

verus! {

/// A JSON number as far as the rules read it.
pub enum JsonNumber {
    /// A non-negative integer.
    Unsigned(u64),
    /// A negative integer.
    Negative(i64),
    /// A number with a fraction or exponent; the rules never read its value.
    Fractional,
}

/// A JSON value. Object members keep the order of the parsed text's map
/// (sorted by key, each key once).
pub enum Json {
    Null,
    Bool(bool),
    Number(JsonNumber),
    Text(String),
    List(Vec<Json>),
    Object(Vec<(String, Json)>),
}

/// The value of the first member named `key`.
pub open spec fn entry_value(entries: Seq<(String, Json)>, key: Seq<char>) -> Option<Json>
    decreases entries.len(),
{
    if entries.len() == 0 {
        None
    } else if entries[0].0@ == key {
        Some(entries[0].1)
    } else {
        entry_value(entries.drop_first(), key)
    }
}

/// `Value::get` with a string key: the member of an object, `None` otherwise.
pub open spec fn member(value: Json, key: Seq<char>) -> Option<Json> {
    match value {
        Json::Object(entries) => entry_value(entries@, key),
        _ => None,
    }
}

/// `Value::as_str` on an optional value.
pub open spec fn text_of(value: Option<Json>) -> Option<String> {
    match value {
        Some(Json::Text(s)) => Some(s),
        _ => None,
    }
}

/// An optional reference, read as an optional value.
pub open spec fn deref_opt(value: Option<&Json>) -> Option<Json> {
    match value {
        Some(v) => Some(*v),
        None => None,
    }
}

impl Json {
    /// The member named `key` of an object; `None` for anything else.
    pub fn get(&self, key: &str) -> (r: Option<&Json>)
        ensures
            deref_opt(r) == member(*self, key@),
    {
        match self {
            Json::Object(entries) => {
                let mut i: usize = 0;
                assert(entries@.skip(0) =~= entries@);
                while i < entries.len()
                    invariant
                        i <= entries.len(),
                        *self == Json::Object(*entries),
                        entry_value(entries@, key@) == entry_value(entries@.skip(i as int), key@),
                    decreases entries.len() - i,
                {
                    assert(entries@.skip(i as int).drop_first() =~= entries@.skip(i + 1));
                    if str_eq(entries[i].0.as_str(), key) {
                        assert(entries@.skip(i as int)[0] == entries@[i as int]);
                        return Some(&entries[i].1);
                    }
                    i += 1;
                }
                None
            },
            _ => None,
        }
    }

    /// The text of a JSON string.
    pub fn as_text(&self) -> (r: Option<&String>)
        ensures
            match r {
                Some(s) => *self == Json::Text(*s),
                None => !(*self is Text),
            },
    {
        match self {
            Json::Text(s) => Some(s),
            _ => None,
        }
    }
}

/// The text of an optional JSON value that is a string.
fn text_in(value: Option<&Json>) -> (r: Option<&String>)
    ensures
        match r {
            Some(s) => text_of(deref_opt(value)) == Some(*s),
            None => text_of(deref_opt(value)) is None,
        },
{
    match value {
        Some(v) => v.as_text(),
        None => None,
    }
}

/// The kind of a rollout, from its `source` metadata.
pub enum RolloutKind {
    Root,
    Subagent,
    CodeReview,
    Compaction,
    MemoryConsolidation,
    SecurityReview,
    Internal(String),
    OtherSubagent(String),
}

/// The kind named by a subagent entry and its optional label.
pub open spec fn subagent_kind(kind: String, label: Option<String>) -> RolloutKind {
    if kind@ == "thread_spawn"@ {
        RolloutKind::Subagent
    } else if kind@ == "review"@ {
        RolloutKind::CodeReview
    } else if kind@ == "compact"@ {
        RolloutKind::Compaction
    } else if kind@ == "memory_consolidation"@ {
        RolloutKind::MemoryConsolidation
    } else if kind@ == "other"@ && (label matches Some(l) && l@ == "guardian"@) {
        RolloutKind::SecurityReview
    } else {
        RolloutKind::OtherSubagent(
            match label {
                Some(l) => l,
                None => kind,
            },
        )
    }
}

/// The kind of rollout that a `source` value describes: an object with an
/// `internal` string is internal work, one with a `subagent` entry is a
/// subagent (by the entry's text, or its first member's name and label), and
/// anything else is a root rollout.
pub open spec fn kind_of(source: Option<Json>) -> RolloutKind {
    match source {
        Some(Json::Object(entries)) => match text_of(entry_value(entries@, "internal"@)) {
            Some(internal) => if internal@ == "memory_consolidation"@ {
                RolloutKind::MemoryConsolidation
            } else {
                RolloutKind::Internal(internal)
            },
            None => match entry_value(entries@, "subagent"@) {
                None => RolloutKind::Root,
                Some(Json::Text(kind)) => subagent_kind(kind, None),
                Some(Json::Object(members)) => if members@.len() == 0 {
                    RolloutKind::Subagent
                } else {
                    subagent_kind(members@[0].0, text_of(Some(members@[0].1)))
                },
                Some(_) => RolloutKind::Subagent,
            },
        },
        _ => RolloutKind::Root,
    }
}

fn kind_for_subagent(kind: &String, label: Option<&String>) -> (r: RolloutKind)
    ensures
        r == subagent_kind(
            *kind,
            match label {
                Some(l) => Some(*l),
                None => None,
            },
        ),
{
    if str_eq(kind.as_str(), "thread_spawn") {
        RolloutKind::Subagent
    } else if str_eq(kind.as_str(), "review") {
        RolloutKind::CodeReview
    } else if str_eq(kind.as_str(), "compact") {
        RolloutKind::Compaction
    } else if str_eq(kind.as_str(), "memory_consolidation") {
        RolloutKind::MemoryConsolidation
    } else if str_eq(kind.as_str(), "other") && match label {
        Some(l) => str_eq(l.as_str(), "guardian"),
        None => false,
    } {
        RolloutKind::SecurityReview
    } else {
        match label {
            Some(l) => RolloutKind::OtherSubagent(l.clone()),
            None => RolloutKind::OtherSubagent(kind.clone()),
        }
    }
}

/// The kind of rollout that a `source` value describes (see `kind_of`).
pub fn rollout_kind(source: Option<&Json>) -> (r: RolloutKind)
    ensures
        r == kind_of(deref_opt(source)),
{
    let source = match source {
        Some(v) => v,
        None => return RolloutKind::Root,
    };
    let entries = match source {
        Json::Object(entries) => entries,
        _ => return RolloutKind::Root,
    };
    if let Some(internal) = text_in(source.get("internal")) {
        if str_eq(internal.as_str(), "memory_consolidation") {
            return RolloutKind::MemoryConsolidation;
        }
        return RolloutKind::Internal(internal.clone());
    }
    let subagent = match source.get("subagent") {
        Some(s) => s,
        None => return RolloutKind::Root,
    };
    match subagent {
        Json::Text(kind) => kind_for_subagent(kind, None),
        Json::Object(members) => {
            if members.len() == 0 {
                RolloutKind::Subagent
            } else {
                let label = members[0].1.as_text();
                kind_for_subagent(&members[0].0, label)
            }
        },
        _ => RolloutKind::Subagent,
    }
}

/// Whether a thread's `source` column names a root rollout, given what parsing
/// it as JSON gave (`None` where it is not JSON, which counts as a root).
pub fn source_is_root(parsed: Option<&Json>) -> (r: bool)
    ensures
        r == match deref_opt(parsed) {
            None => true,
            Some(v) => kind_of(Some(v)) is Root,
        },
{
    match parsed {
        None => true,
        Some(v) => {
            let kind = rollout_kind(Some(v));
            match kind {
                RolloutKind::Root => true,
                _ => false,
            }
        },
    }
}

impl RolloutKind {
    /// The name a report uses for the kind.
    pub open spec fn report_type_spec(self) -> Seq<char> {
        match self {
            RolloutKind::Root => "root"@,
            RolloutKind::Subagent => "subagent"@,
            RolloutKind::CodeReview => "code_review"@,
            RolloutKind::Compaction => "compaction"@,
            RolloutKind::MemoryConsolidation => "memory_consolidation"@,
            RolloutKind::SecurityReview => "security_review"@,
            RolloutKind::Internal(kind) => "internal:"@ + kind@,
            RolloutKind::OtherSubagent(kind) => "subagent:"@ + kind@,
        }
    }

    /// The name a report uses for the kind.
    pub fn report_type(&self) -> (r: String)
        ensures
            r@ == self.report_type_spec(),
    {
        match self {
            RolloutKind::Root => String::from_str("root"),
            RolloutKind::Subagent => String::from_str("subagent"),
            RolloutKind::CodeReview => String::from_str("code_review"),
            RolloutKind::Compaction => String::from_str("compaction"),
            RolloutKind::MemoryConsolidation => String::from_str("memory_consolidation"),
            RolloutKind::SecurityReview => String::from_str("security_review"),
            RolloutKind::Internal(kind) => {
                let mut s = String::from_str("internal:");
                s.append(kind.as_str());
                s
            },
            RolloutKind::OtherSubagent(kind) => {
                let mut s = String::from_str("subagent:");
                s.append(kind.as_str());
                s
            },
        }
    }

    /// A copy of the kind.
    pub fn duplicate(&self) -> (r: RolloutKind)
        ensures
            r == *self,
    {
        match self {
            RolloutKind::Root => RolloutKind::Root,
            RolloutKind::Subagent => RolloutKind::Subagent,
            RolloutKind::CodeReview => RolloutKind::CodeReview,
            RolloutKind::Compaction => RolloutKind::Compaction,
            RolloutKind::MemoryConsolidation => RolloutKind::MemoryConsolidation,
            RolloutKind::SecurityReview => RolloutKind::SecurityReview,
            RolloutKind::Internal(kind) => RolloutKind::Internal(kind.clone()),
            RolloutKind::OtherSubagent(kind) => RolloutKind::OtherSubagent(kind.clone()),
        }
    }
}


/// Where a rollout was found, and what its metadata says of it.
pub struct RolloutRecord {
    pub id: String,
    pub parent_id: Option<String>,
    pub kind: RolloutKind,
    pub cwd: Option<String>,
    pub path: String,
}

impl RolloutRecord {
    /// A copy of the record.
    pub fn duplicate(&self) -> (r: RolloutRecord)
        ensures
            r == *self,
    {
        RolloutRecord {
            id: self.id.clone(),
            parent_id: self.parent_id.clone(),
            kind: self.kind.duplicate(),
            cwd: self.cwd.clone(),
            path: self.path.clone(),
        }
    }
}

/// The member at `key` of an optional value.
pub open spec fn member_in(value: Option<Json>, key: Seq<char>) -> Option<Json> {
    match value {
        Some(v) => member(v, key),
        None => None,
    }
}

/// What a `session_meta` line says of its rollout: the id (`id`, else
/// `session_id`), the parent (`parent_thread_id`, else the parent named by a
/// `thread_spawn` subagent source), the kind and the starting directory.
pub open spec fn record_fields(value: Json) -> Option<
    (String, Option<String>, RolloutKind, Option<String>),
> {
    let line_type = text_of(member(value, "type"@));
    if !(line_type matches Some(t) && t@ == "session_meta"@) {
        None
    } else {
        match member(value, "payload"@) {
            Some(Json::Object(entries)) => {
                let payload = Json::Object(entries);
                let id_value = match member(payload, "id"@) {
                    Some(v) => Some(v),
                    None => member(payload, "session_id"@),
                };
                match text_of(id_value) {
                    None => None,
                    Some(id) => {
                        let source = member(payload, "source"@);
                        let parent = match text_of(member(payload, "parent_thread_id"@)) {
                            Some(p) => Some(p),
                            None => text_of(
                                member_in(
                                    member_in(member_in(source, "subagent"@), "thread_spawn"@),
                                    "parent_thread_id"@,
                                ),
                            ),
                        };
                        Some((id, parent, kind_of(source), text_of(member(payload, "cwd"@))))
                    },
                }
            },
            _ => None,
        }
    }
}

fn get_in<'a>(value: Option<&'a Json>, key: &str) -> (r: Option<&'a Json>)
    ensures
        deref_opt(r) == member_in(deref_opt(value), key@),
{
    match value {
        Some(v) => v.get(key),
        None => None,
    }
}

fn copy_text(value: Option<&String>) -> (r: Option<String>)
    ensures
        r == match value {
            Some(s) => Some(*s),
            None => None,
        },
{
    match value {
        Some(s) => Some(s.clone()),
        None => None,
    }
}

/// The rollout record that a JSONL line describes, if it is the session
/// metadata line (see `record_fields`); the record keeps `path`.
pub fn record_from_value(value: &Json, path: &str) -> (r: Option<RolloutRecord>)
    ensures
        match (r, record_fields(*value)) {
            (Some(rec), Some(f)) => rec.id == f.0 && rec.parent_id == f.1 && rec.kind == f.2
                && rec.cwd == f.3 && rec.path@ == path@,
            (None, None) => true,
            _ => false,
        },
{
    let line_type = match text_in(value.get("type")) {
        Some(t) => t,
        None => return None,
    };
    if !str_eq(line_type.as_str(), "session_meta") {
        return None;
    }
    let payload = match value.get("payload") {
        Some(p) => p,
        None => return None,
    };
    match payload {
        Json::Object(_) => {},
        _ => return None,
    }
    let id_value = match payload.get("id") {
        Some(v) => Some(v),
        None => payload.get("session_id"),
    };
    let id = match text_in(id_value) {
        Some(id) => id.clone(),
        None => return None,
    };
    let source = payload.get("source");
    let parent_id = match text_in(payload.get("parent_thread_id")) {
        Some(p) => Some(p.clone()),
        None => copy_text(
            text_in(get_in(get_in(get_in(source, "subagent"), "thread_spawn"), "parent_thread_id")),
        ),
    };
    let kind = rollout_kind(source);
    let cwd = copy_text(text_in(payload.get("cwd")));
    Some(RolloutRecord { id, parent_id, kind, cwd, path: String::from_str(path) })
}

/// The members of `ws` that name a directory entry: not empty and not `.`.
pub open spec fn named_parts(ws: Seq<Seq<char>>) -> Seq<Seq<char>>
    decreases ws.len(),
{
    if ws.len() == 0 {
        Seq::<Seq<char>>::empty()
    } else if ws.last().len() > 0 && ws.last() != seq!['.'] {
        named_parts(ws.drop_last()).push(ws.last())
    } else {
        named_parts(ws.drop_last())
    }
}

/// The components of a `/`-separated path as `Path` orders them: the root
/// (an empty component, which sorts first) when the path starts with `/`,
/// then every named part; empty and `.` parts are skipped.
pub open spec fn path_components(p: Seq<char>) -> Seq<Seq<char>> {
    let parts = named_parts(pieces_by(p, char_pred('/')));
    if p.len() > 0 && p[0] == '/' {
        seq![Seq::<char>::empty()] + parts
    } else {
        parts
    }
}

/// Lexicographic order of component lists, each component by code point.
pub open spec fn parts_less(a: Seq<Seq<char>>, b: Seq<Seq<char>>) -> bool
    decreases a.len(),
{
    if b.len() == 0 {
        false
    } else if a.len() == 0 {
        true
    } else if a[0] == b[0] {
        parts_less(a.drop_first(), b.drop_first())
    } else {
        lex_le(a[0], b[0])
    }
}

pub proof fn lemma_parts_trichotomy(a: Seq<Seq<char>>, b: Seq<Seq<char>>)
    ensures
        parts_less(a, b) || parts_less(b, a) || a == b,
        !(parts_less(a, b) && parts_less(b, a)),
        !parts_less(a, a),
    decreases a.len(),
{
    if a.len() > 0 && b.len() > 0 {
        if a[0] == b[0] {
            lemma_parts_trichotomy(a.drop_first(), b.drop_first());
            if a.drop_first() == b.drop_first() {
                assert(a =~= seq![a[0]] + a.drop_first());
                assert(b =~= seq![b[0]] + b.drop_first());
            }
        } else {
            lemma_lex_total(a[0], b[0]);
            if lex_le(a[0], b[0]) && lex_le(b[0], a[0]) {
                lemma_lex_antisymmetric(a[0], b[0]);
            }
        }
    }
    if a.len() > 0 {
        lemma_parts_trichotomy(a.drop_first(), a.drop_first());
    }
}

pub proof fn lemma_parts_transitive(a: Seq<Seq<char>>, b: Seq<Seq<char>>, c: Seq<Seq<char>>)
    requires
        parts_less(a, b),
        parts_less(b, c),
    ensures
        parts_less(a, c),
    decreases a.len(),
{
    if a.len() > 0 && b.len() > 0 && c.len() > 0 {
        if a[0] == b[0] && b[0] == c[0] {
            lemma_parts_transitive(a.drop_first(), b.drop_first(), c.drop_first());
        } else if a[0] == b[0] {
        } else if b[0] == c[0] {
        } else {
            lemma_lex_transitive(a[0], b[0], c[0]);
            if a[0] == c[0] {
                lemma_lex_antisymmetric(a[0], b[0]);
            }
        }
    }
}

fn named_parts_of(ws: &Vec<Vec<char>>) -> (r: Vec<Vec<char>>)
    ensures
        views_of(r@) == named_parts(views_of(ws@)),
{
    let mut r: Vec<Vec<char>> = Vec::new();
    let mut i: usize = 0;
    while i < ws.len()
        invariant
            i <= ws.len(),
            views_of(r@) == named_parts(views_of(ws@).take(i as int)),
        decreases ws.len() - i,
    {
        let ghost before = views_of(ws@).take(i as int);
        assert(views_of(ws@).take(i + 1).drop_last() =~= before);
        assert(views_of(ws@).take(i + 1).last() == ws@[i as int]@);
        let w = &ws[i];
        let dot = w.len() == 1 && w[0] == '.';
        if w.len() > 0 && !dot {
            proof {
                assert(w@ != seq!['.']);
            }
            r.push(w.clone());
            assert(views_of(r@) =~= named_parts(before).push(ws@[i as int]@));
        } else {
            proof {
                if w.len() == 1 {
                    assert(w@ =~= seq!['.']);
                }
            }
        }
        i += 1;
    }
    assert(views_of(ws@).take(ws.len() as int) =~= views_of(ws@));
    r
}

/// The character views of a list of character vectors.
pub open spec fn views_of(v: Seq<Vec<char>>) -> Seq<Seq<char>> {
    v.map_values(|w: Vec<char>| w@)
}

pub(crate) fn components_of(p: &str) -> (r: Vec<Vec<char>>)
    ensures
        views_of(r@) == path_components(p@),
{
    let chars = chars_of(p);
    let pieces = split_on(&chars, '/');
    assert(views_of(pieces@) =~= pieces_by(p@, char_pred('/')));
    let parts = named_parts_of(&pieces);
    if chars.len() > 0 && chars[0] == '/' {
        let mut r: Vec<Vec<char>> = Vec::new();
        r.push(Vec::new());
        let mut i: usize = 0;
        while i < parts.len()
            invariant
                i <= parts.len(),
                views_of(r@) == seq![Seq::<char>::empty()] + views_of(parts@).take(i as int),
            decreases parts.len() - i,
        {
            let ghost before_r = views_of(r@);
            assert(parts@[i as int]@.subrange(0, parts@[i as int]@.len() as int) =~= parts@[i as int]@);
            r.push(crate::text::slice_chars(&parts[i], 0, parts[i].len()));
            assert(views_of(r@) =~= before_r.push(parts@[i as int]@));
            assert(views_of(parts@).take(i + 1) =~= views_of(parts@).take(i as int).push(
                parts@[i as int]@,
            ));
            assert(views_of(r@) =~= seq![Seq::<char>::empty()] + views_of(parts@).take(i + 1));
            i += 1;
        }
        assert(views_of(parts@).take(parts.len() as int) =~= views_of(parts@));
        r
    } else {
        parts
    }
}

/// Whether path `a` sorts before path `b` (`Path`'s order, see `path_components`).
pub fn path_less(a: &str, b: &str) -> (r: bool)
    ensures
        r == parts_less(path_components(a@), path_components(b@)),
{
    let x = components_of(a);
    let y = components_of(b);
    let ghost xa = views_of(x@);
    let ghost yb = views_of(y@);
    let mut i: usize = 0;
    assert(xa.skip(0) =~= xa);
    assert(yb.skip(0) =~= yb);
    while i < x.len() && i < y.len()
        invariant
            i <= x.len(),
            i <= y.len(),
            xa == views_of(x@),
            yb == views_of(y@),
            xa == path_components(a@),
            yb == path_components(b@),
            parts_less(xa, yb) == parts_less(xa.skip(i as int), yb.skip(i as int)),
        decreases x.len() - i,
    {
        assert(xa.skip(i as int).drop_first() =~= xa.skip(i + 1));
        assert(yb.skip(i as int).drop_first() =~= yb.skip(i + 1));
        assert(xa.skip(i as int)[0] == x@[i as int]@);
        assert(yb.skip(i as int)[0] == y@[i as int]@);
        assert(xa.skip(i as int).len() > 0 && yb.skip(i as int).len() > 0);
        if !chars_equal(&x[i], &y[i]) {
            assert(xa.skip(i as int)[0] != yb.skip(i as int)[0]);
            let less = lex_less(&x[i], &y[i]);
            return less;
        }
        i += 1;
    }
    i < y.len()
}

/// The order in which a candidate replaces another for the same id: a later
/// modification time wins, and on equal times the later path.
pub open spec fn key_less(a: (RolloutRecord, i128), b: (RolloutRecord, i128)) -> bool {
    a.1 < b.1 || (a.1 == b.1 && parts_less(path_components(a.0.path@), path_components(b.0.path@)))
}

pub proof fn lemma_key_order(a: (RolloutRecord, i128), b: (RolloutRecord, i128), c: (RolloutRecord, i128))
    ensures
        key_less(a, b) && key_less(b, c) ==> key_less(a, c),
        !key_less(b, a) && key_less(b, c) ==> key_less(a, c),
        !key_less(a, a),
{
    let pa = path_components(a.0.path@);
    let pb = path_components(b.0.path@);
    let pc = path_components(c.0.path@);
    lemma_parts_trichotomy(pa, pb);
    lemma_parts_trichotomy(pb, pc);
    lemma_parts_trichotomy(pa, pc);
    if parts_less(pa, pb) && parts_less(pb, pc) {
        lemma_parts_transitive(pa, pb, pc);
    }
}

/// Candidate `j` is the one kept for its id: every earlier candidate with the
/// same id sorts before it, and no later one sorts after it.
pub open spec fn kept(candidates: Seq<(RolloutRecord, i128)>, j: int) -> bool {
    0 <= j < candidates.len() && forall|k: int|
        0 <= k < candidates.len() && #[trigger] candidates[k].0.id@ == candidates[j].0.id@ ==> (k
            < j ==> key_less(candidates[k], candidates[j])) && (j < k ==> !key_less(
            candidates[j],
            candidates[k],
        ))
}

/// Record `rec` is candidate `j`, the one kept for its id.
pub open spec fn kept_as(candidates: Seq<(RolloutRecord, i128)>, j: int, rec: RolloutRecord) -> bool {
    kept(candidates, j) && candidates[j].0 == rec
}

/// Record `rec` is the candidate kept for its id.
pub open spec fn is_kept_record(candidates: Seq<(RolloutRecord, i128)>, rec: RolloutRecord) -> bool {
    exists|j: int| #[trigger] kept_as(candidates, j, rec)
}

/// No two candidates share an id.
pub open spec fn candidate_ids_unique(c: Seq<(RolloutRecord, i128)>) -> bool {
    forall|i: int, j: int| 0 <= i < j < c.len() ==> #[trigger] c[i].0.id@ != #[trigger] c[j].0.id@
}

/// No two records share an id.
pub open spec fn ids_unique(records: Seq<RolloutRecord>) -> bool {
    forall|i: int, j: int|
        0 <= i < j < records.len() ==> #[trigger] records[i].id@ != #[trigger] records[j].id@
}

/// Keeps one record per id: the one with the latest modification time, and of
/// those the one with the greatest path (the first of equals). Ids keep the
/// order in which they first occur.
pub fn resolve_duplicates(candidates: Vec<(RolloutRecord, i128)>) -> (r: Vec<RolloutRecord>)
    ensures
        ids_unique(r@),
        forall|i: int| 0 <= i < r.len() ==> #[trigger] is_kept_record(candidates@, r@[i]),
        forall|k: int|
            #![trigger candidates@[k]]
            0 <= k < candidates.len() ==> exists|i: int|
                #![trigger r@[i]]
                0 <= i < r.len() && r@[i].id@ == candidates@[k].0.id@,
{
    let ghost c = candidates@;
    let mut selected: Vec<(RolloutRecord, i128)> = Vec::new();
    let ghost mut origin: Seq<int> = Seq::empty();
    let mut n: usize = 0;
    while n < candidates.len()
        invariant
            n <= candidates.len(),
            c == candidates@,
            origin.len() == selected.len(),
            candidate_ids_unique(selected@),
            forall|i: int|
                0 <= i < selected.len() ==> 0 <= #[trigger] origin[i] < n && c[origin[i]]
                    == selected@[i] && (forall|k: int|
                    0 <= k < n && #[trigger] c[k].0.id@ == c[origin[i]].0.id@ ==> (k < origin[i]
                        ==> key_less(c[k], c[origin[i]])) && (origin[i] < k ==> !key_less(
                        c[origin[i]],
                        c[k],
                    ))),
            forall|k: int|
                #![trigger c[k]]
                0 <= k < n ==> exists|i: int|
                    #![trigger selected@[i]]
                    0 <= i < selected.len() && selected@[i].0.id@ == c[k].0.id@,
        decreases candidates.len() - n,
    {
        let cand_record = candidates[n].0.duplicate();
        let cand_time = candidates[n].1;
        let mut pos: usize = 0;
        while pos < selected.len() && !str_eq(selected[pos].0.id.as_str(), cand_record.id.as_str())
            invariant
                pos <= selected.len(),
                forall|i: int| 0 <= i < pos ==> selected@[i].0.id@ != cand_record.id@,
            decreases selected.len() - pos,
        {
            pos += 1;
        }
        let ghost sel_before = selected@;
        let ghost origin_before = origin;
        if pos == selected.len() {
            selected.push((cand_record, cand_time));
            proof {
                origin = origin.push(n as int);
                assert forall|i: int| 0 <= i < selected.len() implies 0 <= #[trigger] origin[i] < n + 1
                    && c[origin[i]] == selected@[i] && (forall|k: int|
                    0 <= k < n + 1 && #[trigger] c[k].0.id@ == c[origin[i]].0.id@ ==> (k < origin[i]
                        ==> key_less(c[k], c[origin[i]])) && (origin[i] < k ==> !key_less(
                        c[origin[i]],
                        c[k],
                    ))) by {
                    if i < sel_before.len() {
                        assert(origin[i] == origin_before[i]);
                        assert(selected@[i] == sel_before[i]);
                        assert(c[n as int].0.id@ != c[origin[i]].0.id@);
                    } else {
                        assert forall|k: int|
                            0 <= k < n + 1 && #[trigger] c[k].0.id@ == c[origin[i]].0.id@ implies (k
                            < origin[i] ==> key_less(c[k], c[origin[i]])) by {
                            if k < n {
                                let w = choose|w: int|
                                    0 <= w < sel_before.len() && sel_before[w].0.id@ == c[k].0.id@;
                                assert(sel_before[w].0.id@ == c[n as int].0.id@);
                            }
                        }
                    }
                }
                assert forall|k: int| #![trigger c[k]] 0 <= k < n + 1 implies exists|i: int|
                    #![trigger selected@[i]]
                    0 <= i < selected.len() && selected@[i].0.id@ == c[k].0.id@ by {
                    if k == n {
                        assert(selected@[sel_before.len() as int].0.id@ == c[k].0.id@);
                    } else {
                        let w = choose|w: int|
                            0 <= w < sel_before.len() && sel_before[w].0.id@ == c[k].0.id@;
                        assert(selected@[w].0.id@ == c[k].0.id@);
                    }
                }
            }
        } else {
            let replace = cand_time > selected[pos].1 || (cand_time == selected[pos].1 && path_less(
                selected[pos].0.path.as_str(),
                cand_record.path.as_str(),
            ));
            if replace {
                selected.set(pos, (cand_record, cand_time));
                proof {
                    origin = origin.update(pos as int, n as int);
                }
            }
            proof {
                let p = pos as int;
                let w = origin_before[p];
                assert(sel_before[p].0.id@ == c[n as int].0.id@);
                assert(replace == key_less(c[w], c[n as int]));
                assert forall|i: int| 0 <= i < selected.len() implies 0 <= #[trigger] origin[i] < n + 1
                    && c[origin[i]] == selected@[i] && (forall|k: int|
                    0 <= k < n + 1 && #[trigger] c[k].0.id@ == c[origin[i]].0.id@ ==> (k < origin[i]
                        ==> key_less(c[k], c[origin[i]])) && (origin[i] < k ==> !key_less(
                        c[origin[i]],
                        c[k],
                    ))) by {
                    if i != p {
                        assert(origin[i] == origin_before[i]);
                        assert(selected@[i] == sel_before[i]);
                        assert(sel_before[i].0.id@ != sel_before[p].0.id@);
                    } else if replace {
                        assert(origin[i] == n);
                        assert forall|k: int|
                            0 <= k < n + 1 && #[trigger] c[k].0.id@ == c[origin[i]].0.id@ implies (k
                            < origin[i] ==> key_less(c[k], c[origin[i]])) by {
                            if k < w {
                                lemma_key_order(c[k], c[w], c[n as int]);
                            } else if w < k && k < n {
                                lemma_key_order(c[k], c[w], c[n as int]);
                            }
                        }
                    } else {
                        assert(origin[i] == w);
                    }
                }
                assert forall|k: int| #![trigger c[k]] 0 <= k < n + 1 implies exists|i: int|
                    #![trigger selected@[i]]
                    0 <= i < selected.len() && selected@[i].0.id@ == c[k].0.id@ by {
                    if k == n {
                        assert(selected@[p].0.id@ == c[k].0.id@);
                    } else {
                        let v = choose|v: int|
                            0 <= v < sel_before.len() && sel_before[v].0.id@ == c[k].0.id@;
                        assert(selected@[v].0.id@ == c[k].0.id@);
                    }
                }
            }
        }
        n += 1;
    }
    let mut r: Vec<RolloutRecord> = Vec::new();
    let mut i: usize = 0;
    while i < selected.len()
        invariant
            i <= selected.len(),
            r@ == selected@.map_values(|e: (RolloutRecord, i128)| e.0).take(i as int),
        decreases selected.len() - i,
    {
        r.push(selected[i].0.duplicate());
        assert(selected@.map_values(|e: (RolloutRecord, i128)| e.0).take(i + 1) =~= selected@.map_values(
            |e: (RolloutRecord, i128)| e.0,
        ).take(i as int).push(selected@[i as int].0));
        i += 1;
    }
    proof {
        let m = selected@.map_values(|e: (RolloutRecord, i128)| e.0);
        assert(m.take(selected.len() as int) =~= m);
        assert forall|i: int| #![trigger r@[i]] 0 <= i < r.len() implies kept(candidates@, origin[i])
            && candidates@[origin[i]].0 == r@[i] by {
            let j = origin[i];
            assert(c[origin[i]] == selected@[i]);
            assert(r@[i] == selected@[i].0);
            assert forall|k: int|
                0 <= k < candidates.len() && #[trigger] candidates@[k].0.id@ == candidates@[j].0.id@ implies (k
                    < j ==> key_less(candidates@[k], candidates@[j])) && (j < k ==> !key_less(
                    candidates@[j],
                    candidates@[k],
                )) by {
                assert(c[k].0.id@ == c[origin[i]].0.id@);
            }
        }
        assert forall|k: int| #![trigger candidates@[k]] 0 <= k < candidates.len() implies exists|i: int|
            #![trigger r@[i]]
            0 <= i < r.len() && r@[i].id@ == candidates@[k].0.id@ by {
            let v = choose|v: int|
                0 <= v < selected.len() && selected@[v].0.id@ == c[k].0.id@;
            assert(r@[v].id@ == candidates@[k].0.id@);
        }
        assert forall|i: int| 0 <= i < r.len() implies #[trigger] is_kept_record(candidates@, r@[i]) by {
            let j = origin[i];
            assert(c[origin[i]] == selected@[i]);
            assert(r@[i] == selected@[i].0);
            assert forall|k: int|
                0 <= k < candidates.len() && #[trigger] candidates@[k].0.id@ == candidates@[j].0.id@ implies (k
                    < j ==> key_less(candidates@[k], candidates@[j])) && (j < k ==> !key_less(
                    candidates@[j],
                    candidates@[k],
                )) by {
                assert(c[k].0.id@ == c[origin[i]].0.id@);
            }
            assert(kept_as(candidates@, j, r@[i]));
        }
        assert(ids_unique(r@));
    }
    r
}


/// The kind of I/O failure that a discovery warning reports.
#[verifier::external_type_specification]
#[verifier::external_body]
pub struct ExIoErrorKind(std::io::ErrorKind);

/// A directory or file that could not be read while discovering rollouts.
pub struct DiscoveryWarning {
    pub path: String,
    pub error: std::io::ErrorKind,
}

/// Whether `rec` names `parent` as its parent.
pub open spec fn parent_is(rec: RolloutRecord, parent: Seq<char>) -> bool {
    rec.parent_id matches Some(p) && p@ == parent
}

/// The records at chain positions `k` and `k + 1` are parent and child.
pub open spec fn linked(records: Seq<RolloutRecord>, c: Seq<int>, k: int) -> bool {
    parent_is(records[c[k + 1]], records[c[k]].id@)
}

/// `c` lists record positions from a child of `root` down a line of children.
pub open spec fn is_chain(records: Seq<RolloutRecord>, root: Seq<char>, c: Seq<int>) -> bool {
    &&& c.len() > 0
    &&& forall|k: int| 0 <= k < c.len() ==> 0 <= #[trigger] c[k] < records.len()
    &&& parent_is(records[c[0]], root)
    &&& forall|k: int| 0 <= k < c.len() - 1 ==> #[trigger] linked(records, c, k)
}

/// Record `i` descends from `root` (and is not the root itself).
pub open spec fn is_descendant(records: Seq<RolloutRecord>, root: Seq<char>, i: int) -> bool {
    &&& 0 <= i < records.len()
    &&& records[i].id@ != root
    &&& exists|c: Seq<int>| #[trigger] is_chain(records, root, c) && c.last() == i
}

/// The records of root kind, in order.
pub open spec fn roots_of(records: Seq<RolloutRecord>) -> Seq<RolloutRecord>
    decreases records.len(),
{
    if records.len() == 0 {
        Seq::<RolloutRecord>::empty()
    } else if records.last().kind is Root {
        roots_of(records.drop_last()).push(records.last())
    } else {
        roots_of(records.drop_last())
    }
}

/// No two entries of a list of strings are equal.
pub open spec fn distinct(s: Seq<Seq<char>>) -> bool {
    forall|i: int, j: int| 0 <= i < j < s.len() ==> #[trigger] s[i] != #[trigger] s[j]
}

/// The number of `true` entries.
pub open spec fn count_true(s: Seq<bool>) -> nat
    decreases s.len(),
{
    if s.len() == 0 {
        0
    } else {
        count_true(s.drop_last()) + if s.last() {
            1nat
        } else {
            0nat
        }
    }
}

pub(crate) proof fn lemma_count_true_bound(s: Seq<bool>)
    ensures
        count_true(s) <= s.len(),
    decreases s.len(),
{
    if s.len() > 0 {
        lemma_count_true_bound(s.drop_last());
    }
}

pub(crate) proof fn lemma_count_true_set(s: Seq<bool>, i: int)
    requires
        0 <= i < s.len(),
        !s[i],
    ensures
        count_true(s.update(i, true)) == count_true(s) + 1,
    decreases s.len(),
{
    let t = s.update(i, true);
    if i == s.len() - 1 {
        assert(t.drop_last() =~= s.drop_last());
    } else {
        lemma_count_true_set(s.drop_last(), i);
        assert(t.drop_last() =~= s.drop_last().update(i, true));
    }
}

/// Rollout records by id, with what discovery could not read.
pub struct RolloutIndex {
    records: Vec<RolloutRecord>,
    warnings: Vec<DiscoveryWarning>,
    oversized_lines_skipped: usize,
    malformed_lines_skipped: usize,
}

impl RolloutIndex {
    #[verifier::type_invariant]
    spec fn unique_ids(&self) -> bool {
        ids_unique(self.records@)
    }

    /// The records of the index.
    pub closed spec fn entries(&self) -> Seq<RolloutRecord> {
        self.records@
    }

    /// The warnings of the index.
    pub closed spec fn warning_list(&self) -> Seq<DiscoveryWarning> {
        self.warnings@
    }

    /// The lines skipped because they were too long, and because they were not JSON.
    pub closed spec fn skipped(&self) -> (usize, usize) {
        (self.oversized_lines_skipped, self.malformed_lines_skipped)
    }

    /// An index over records with distinct ids.
    pub fn from_records(
        records: Vec<RolloutRecord>,
        warnings: Vec<DiscoveryWarning>,
        oversized_lines_skipped: usize,
        malformed_lines_skipped: usize,
    ) -> (r: RolloutIndex)
        requires
            ids_unique(records@),
        ensures
            r.entries() == records@,
            r.skipped() == (oversized_lines_skipped, malformed_lines_skipped),
            r.warning_list() == warnings@,
    {
        RolloutIndex { records, warnings, oversized_lines_skipped, malformed_lines_skipped }
    }

    /// The warnings recorded while discovering.
    pub fn warnings(&self) -> (r: &[DiscoveryWarning])
        ensures
            r@ == self.warning_list(),
    {
        self.warnings.as_slice()
    }

    /// How many lines were skipped because they were too long.
    pub fn oversized_lines_skipped(&self) -> (r: usize)
        ensures
            r == self.skipped().0,
    {
        self.oversized_lines_skipped
    }

    /// How many lines were skipped because they were not JSON.
    pub fn malformed_lines_skipped(&self) -> (r: usize)
        ensures
            r == self.skipped().1,
    {
        self.malformed_lines_skipped
    }

    fn position(&self, id: &str) -> (r: Option<usize>)
        ensures
            match r {
                Some(i) => i < self.entries().len() && self.entries()[i as int].id@ == id@,
                None => forall|i: int|
                    0 <= i < self.entries().len() ==> #[trigger] self.entries()[i].id@ != id@,
            },
    {
        let mut i: usize = 0;
        while i < self.records.len()
            invariant
                i <= self.records.len(),
                forall|k: int| 0 <= k < i ==> #[trigger] self.records@[k].id@ != id@,
            decreases self.records.len() - i,
        {
            if str_eq(self.records[i].id.as_str(), id) {
                return Some(i);
            }
            i += 1;
        }
        None
    }

    /// The record with the given id.
    pub fn record(&self, id: &str) -> (r: Option<&RolloutRecord>)
        ensures
            match r {
                Some(rec) => exists|i: int|
                    0 <= i < self.entries().len() && #[trigger] self.entries()[i] == *rec
                        && rec.id@ == id@,
                None => forall|i: int|
                    0 <= i < self.entries().len() ==> #[trigger] self.entries()[i].id@ != id@,
            },
    {
        match self.position(id) {
            Some(i) => {
                assert(self.entries()[i as int] == self.records@[i as int]);
                Some(&self.records[i])
            },
            None => None,
        }
    }

    /// Whether the record with the given id is a root rollout.
    pub fn is_root(&self, id: &str) -> (r: bool)
        ensures
            r == exists|i: int|
                0 <= i < self.entries().len() && #[trigger] self.entries()[i].id@ == id@
                    && self.entries()[i].kind is Root,
    {
        proof {
            use_type_invariant(self);
        }
        match self.position(id) {
            Some(i) => {
                let root = match self.records[i].kind {
                    RolloutKind::Root => true,
                    _ => false,
                };
                proof {
                    if !root {
                        assert forall|k: int|
                            0 <= k < self.entries().len() && #[trigger] self.entries()[k].id@ == id@ implies !(
                            self.entries()[k].kind is Root) by {
                            if k != i {
                                if k < i {
                                    assert(self.records@[k].id@ != self.records@[i as int].id@);
                                } else {
                                    assert(self.records@[i as int].id@ != self.records@[k].id@);
                                }
                            }
                        }
                    }
                }
                root
            },
            None => false,
        }
    }

    /// The root records, in the order of the index.
    pub fn roots(&self) -> (r: Vec<RolloutRecord>)
        ensures
            r@ == roots_of(self.entries()),
    {
        let mut r: Vec<RolloutRecord> = Vec::new();
        let mut i: usize = 0;
        while i < self.records.len()
            invariant
                i <= self.records.len(),
                r@ == roots_of(self.records@.take(i as int)),
            decreases self.records.len() - i,
        {
            assert(self.records@.take(i + 1).drop_last() =~= self.records@.take(i as int));
            match self.records[i].kind {
                RolloutKind::Root => {
                    r.push(self.records[i].duplicate());
                },
                _ => {},
            }
            i += 1;
        }
        assert(self.records@.take(self.records.len() as int) =~= self.records@);
        r
    }

    /// Whether some marked record has the id `parent`.
    fn marked_with_id(&self, marked: &Vec<bool>, parent: &str) -> (r: bool)
        requires
            marked.len() == self.entries().len(),
        ensures
            r == exists|j: int|
                0 <= j < marked.len() && #[trigger] marked@[j] && self.entries()[j].id@ == parent@,
    {
        let mut j: usize = 0;
        while j < marked.len()
            invariant
                j <= marked.len(),
                marked.len() == self.records.len(),
                forall|k: int| 0 <= k < j ==> !(#[trigger] marked@[k] && self.records@[k].id@ == parent@),
            decreases marked.len() - j,
        {
            if marked[j] && str_eq(self.records[j].id.as_str(), parent) {
                return true;
            }
            j += 1;
        }
        false
    }

    /// The ids of every rollout descending from `root_id` through parent links,
    /// sorted and without repeats; `None` when no record has that id.
    pub fn descendants(&self, root_id: &str) -> (r: Option<Vec<String>>)
        ensures
            r is None <==> forall|i: int|
                0 <= i < self.entries().len() ==> #[trigger] self.entries()[i].id@ != root_id@,
            r matches Some(v) ==> sorted_views(views(v@)) && distinct(views(v@)),
            r matches Some(v) ==> forall|x: Seq<char>|
                #[trigger] views(v@).contains(x) <==> exists|i: int|
                    #[trigger] is_descendant(self.entries(), root_id@, i)
                        && self.entries()[i].id@ == x,
    {
        proof {
            use_type_invariant(self);
        }
        let n = self.records.len();
        let found = self.position(root_id);
        match found {
            None => return None,
            Some(_) => {},
        }
        let ghost root_pos: int = match found { Some(p) => p as int, None => 0 };
        let ghost recs = self.records@;
        let ghost root = root_id@;
        let mut marked: Vec<bool> = Vec::new();
        let mut i: usize = 0;
        while i < n
            invariant
                i <= n,
                n == self.records.len(),
                marked.len() == i,
                forall|k: int| 0 <= k < i ==> !#[trigger] marked@[k],
            decreases n - i,
        {
            marked.push(false);
            i += 1;
        }
        proof {
            assert(count_true(marked@) == 0) by {
                assert forall|m: nat| m <= n implies count_true(#[trigger] marked@.take(m as int)) == 0 by {
                    lemma_count_prefix_zero(marked@, m);
                }
                assert(marked@.take(n as int) =~= marked@);
            }
        }
        let mut count: usize = 0;
        loop
            invariant
                n == self.records.len(),
                recs == self.records@,
                root == root_id@,
                marked.len() == n,
                count == count_true(marked@),
                count <= n,
                forall|k: int| 0 <= k < n && #[trigger] marked@[k] ==> is_descendant(recs, root, k),
            ensures
                marked.len() == n,
                forall|i: int| 0 <= i < n ==> (#[trigger] marked@[i] <==> is_descendant(recs, root, i)),
            decreases n - count,
        {
            let mut changed = false;
            let ghost start = marked@;
            let mut k: usize = 0;
            while k < n
                invariant
                    k <= n,
                    n == self.records.len(),
                    recs == self.records@,
                    root == root_id@,
                    marked.len() == n,
                    count == count_true(marked@),
                    count <= n,
                    count_true(start) <= count,
                    changed ==> count_true(start) < count,
                    !changed ==> marked@ == start,
                    forall|q: int| 0 <= q < n && #[trigger] marked@[q] ==> is_descendant(recs, root, q),
                    !changed ==> forall|q: int|
                        0 <= q < k ==> #[trigger] marked@[q] || !(recs[q].id@ != root && (parent_is(recs[q], root)
                            || exists|j: int|
                            0 <= j < n && marked@[j] && parent_is(recs[q], #[trigger] recs[j].id@))),
                decreases n - k,
            {
                if !marked[k] && !str_eq(self.records[k].id.as_str(), root_id) {
                    let reached = match &self.records[k].parent_id {
                        Some(parent) => str_eq(parent.as_str(), root_id) || self.marked_with_id(
                            &marked,
                            parent.as_str(),
                        ),
                        None => false,
                    };
                    if reached {
                        proof {
                            lemma_mark_descendant(recs, root, marked@, k as int);
                            lemma_count_true_set(marked@, k as int);
                            lemma_count_true_bound(marked@.update(k as int, true));
                        }
                        marked.set(k, true);
                        count = count + 1;
                        changed = true;
                    } else {
                        proof {
                            if !changed {
                                assert forall|j: int|
                                    0 <= j < n && marked@[j] implies !parent_is(recs[k as int], #[trigger] recs[j].id@) by {
                                }
                            }
                        }
                    }
                }
                k += 1;
            }
            if !changed {
                proof {
                    lemma_closed_marks_cover(recs, root, marked@);
                    assert forall|i: int| 0 <= i < n implies (#[trigger] marked@[i] <==> is_descendant(recs, root, i)) by {
                        if is_descendant(recs, root, i) {
                        }
                    }
                }
                break;
            }
        }
        let ghost marks = marked@;
        proof {
            assert(self.entries()[root_pos].id@ == root_id@);
        }
        let mut ids: Vec<String> = Vec::new();
        let mut k: usize = 0;
        while k < n
            invariant
                k <= n,
                n == self.records.len(),
                recs == self.records@,
                ids_unique(recs),
                marked@ == marks,
                marked.len() == n,
                distinct(views(ids@)),
                forall|x: Seq<char>|
                    #[trigger] views(ids@).contains(x) <==> exists|i: int|
                        0 <= i < k && #[trigger] marked@[i] && recs[i].id@ == x,
            decreases n - k,
        {
            if marked[k] {
                let ghost before = views(ids@);
                ids.push(self.records[k].id.clone());
                proof {
                    let after = views(ids@);
                    let a = recs[k as int].id@;
                    assert(after =~= before.push(a));
                    if before.contains(a) {
                        let i = choose|i: int| 0 <= i < k && #[trigger] marked@[i] && recs[i].id@ == a;
                        assert(recs[i].id@ != recs[k as int].id@);
                    }
                    assert forall|p: int, q: int| 0 <= p < q < after.len() implies #[trigger] after[p] != #[trigger] after[q] by {
                        if q == before.len() {
                            assert(before.contains(before[p]));
                        } else {
                            assert(after[p] == before[p] && after[q] == before[q]);
                        }
                    }
                    assert forall|x: Seq<char>| #[trigger] after.contains(x) <==> exists|i: int|
                        0 <= i < k + 1 && #[trigger] marked@[i] && recs[i].id@ == x by {
                        if after.contains(x) {
                            let p = choose|p: int| 0 <= p < after.len() && after[p] == x;
                            if p < before.len() {
                                assert(before.contains(x));
                            }
                        }
                        if exists|i: int| 0 <= i < k + 1 && #[trigger] marked@[i] && recs[i].id@ == x {
                            let i = choose|i: int| 0 <= i < k + 1 && #[trigger] marked@[i] && recs[i].id@ == x;
                            if i < k {
                                assert(before.contains(x));
                                let p = choose|p: int| 0 <= p < before.len() && before[p] == x;
                                assert(after[p] == x);
                            } else {
                                assert(after[before.len() as int] == x);
                            }
                        }
                    }
                }
            } else {
                proof {
                    assert forall|x: Seq<char>| #[trigger] views(ids@).contains(x) <==> exists|i: int|
                        0 <= i < k + 1 && #[trigger] marked@[i] && recs[i].id@ == x by {
                        if exists|i: int| 0 <= i < k + 1 && #[trigger] marked@[i] && recs[i].id@ == x {
                            let i = choose|i: int| 0 <= i < k + 1 && #[trigger] marked@[i] && recs[i].id@ == x;
                            assert(i < k);
                        }
                    }
                }
            }
            k += 1;
        }
        let ghost unsorted = views(ids@);
        sort_strings(&mut ids);
        let ghost vv = views(ids@);
        proof {
            let sorted = views(ids@);
            lemma_distinct_counts(unsorted);
            lemma_distinct_counts(sorted);
            assert(sorted.to_multiset() == unsorted.to_multiset());
            assert forall|x: Seq<char>| #[trigger] sorted.to_multiset().count(x) <= 1 by {
                assert(unsorted.to_multiset().count(x) <= 1);
            }
            assert forall|x: Seq<char>| #[trigger] sorted.contains(x) <==> unsorted.contains(x) by {
                vstd::seq_lib::to_multiset_contains(sorted, x);
                vstd::seq_lib::to_multiset_contains(unsorted, x);
            }
            assert forall|x: Seq<char>| #[trigger] sorted.contains(x) <==> exists|i: int|
                #[trigger] is_descendant(self.entries(), root_id@, i) && self.entries()[i].id@ == x by {
                if sorted.contains(x) {
                    assert(unsorted.contains(x));
                    let i = choose|i: int| 0 <= i < n && #[trigger] marks[i] && recs[i].id@ == x;
                    assert(is_descendant(recs, root, i));
                }
                if exists|i: int| #[trigger] is_descendant(self.entries(), root_id@, i) && self.entries()[i].id@ == x {
                    let i = choose|i: int| #[trigger] is_descendant(self.entries(), root_id@, i) && self.entries()[i].id@ == x;
                    assert(marks[i]);
                    assert(unsorted.contains(x));
                }
            }
        }
        Some(ids)
    }
}

proof fn lemma_distinct_counts(s: Seq<Seq<char>>)
    ensures
        distinct(s) <==> forall|x: Seq<char>| #[trigger] s.to_multiset().count(x) <= 1,
    decreases s.len(),
{
    broadcast use vstd::seq_lib::group_to_multiset_ensures;

    if s.len() > 0 {
        let t = s.drop_last();
        let a = s.last();
        lemma_distinct_counts(t);
        assert(s =~= t.push(a));
        if distinct(s) {
            assert(distinct(t)) by {
                assert forall|i: int, j: int| 0 <= i < j < t.len() implies #[trigger] t[i] != #[trigger] t[j] by {
                    assert(s[i] == t[i] && s[j] == t[j]);
                }
            }
            if t.contains(a) {
                let i = choose|i: int| 0 <= i < t.len() && t[i] == a;
                assert(s[i] == s[s.len() - 1]);
            }
            assert(t.to_multiset().count(a) == 0);
        } else {
            let (i, j) = choose|i: int, j: int| 0 <= i < j < s.len() && #[trigger] s[i] == #[trigger] s[j];
            if j == s.len() - 1 {
                assert(t[i] == a);
                assert(t.contains(a));
                assert(s.to_multiset().count(a) >= 2);
            } else {
                assert(t[i] == t[j]);
                assert(!distinct(t));
                let x = choose|x: Seq<char>| t.to_multiset().count(x) > 1;
                assert(s.to_multiset().count(x) > 1);
            }
        }
    } else {
        assert(s.to_multiset() =~= vstd::multiset::Multiset::empty());
    }
}

proof fn lemma_count_prefix_zero(s: Seq<bool>, m: nat)
    requires
        m <= s.len(),
        forall|k: int| 0 <= k < s.len() ==> !#[trigger] s[k],
    ensures
        count_true(s.take(m as int)) == 0,
    decreases m,
{
    if m > 0 {
        lemma_count_prefix_zero(s, (m - 1) as nat);
        assert(s.take(m as int).drop_last() =~= s.take(m - 1));
    }
}

proof fn lemma_mark_descendant(recs: Seq<RolloutRecord>, root: Seq<char>, marked: Seq<bool>, k: int)
    requires
        0 <= k < recs.len(),
        marked.len() == recs.len(),
        recs[k].id@ != root,
        parent_is(recs[k], root) || exists|j: int|
            0 <= j < marked.len() && marked[j] && parent_is(recs[k], #[trigger] recs[j].id@),
        forall|q: int| 0 <= q < recs.len() && #[trigger] marked[q] ==> is_descendant(recs, root, q),
    ensures
        is_descendant(recs, root, k),
{
    if parent_is(recs[k], root) {
        let c = seq![k];
        assert(is_chain(recs, root, c));
    } else {
        let j = choose|j: int|
            0 <= j < marked.len() && marked[j] && parent_is(recs[k], #[trigger] recs[j].id@);
        assert(is_descendant(recs, root, j));
        let c = choose|c: Seq<int>| #[trigger] is_chain(recs, root, c) && c.last() == j;
        let d = c.push(k);
        assert forall|q: int| 0 <= q < d.len() - 1 implies #[trigger] linked(recs, d, q) by {
            if q < c.len() - 1 {
                assert(linked(recs, c, q));
                assert(d[q] == c[q] && d[q + 1] == c[q + 1]);
            } else {
                assert(d[q] == j && d[q + 1] == k);
            }
        }
        assert forall|q: int| 0 <= q < d.len() implies 0 <= #[trigger] d[q] < recs.len() by {
            if q < c.len() {
                assert(d[q] == c[q]);
            }
        }
        assert(is_chain(recs, root, d));
        assert(d.last() == k);
    }
}

/// When no unmarked record has the root or a marked record as its parent,
/// every descendant is marked.
proof fn lemma_closed_marks_cover(recs: Seq<RolloutRecord>, root: Seq<char>, marked: Seq<bool>)
    requires
        marked.len() == recs.len(),
        forall|q: int|
            0 <= q < recs.len() ==> #[trigger] marked[q] || !(recs[q].id@ != root && (parent_is(recs[q], root)
                || exists|j: int|
                0 <= j < recs.len() && marked[j] && parent_is(recs[q], #[trigger] recs[j].id@))),
    ensures
        forall|i: int| #[trigger] is_descendant(recs, root, i) ==> marked[i],
{
    assert forall|i: int| #[trigger] is_descendant(recs, root, i) implies marked[i] by {
        let c = choose|c: Seq<int>| #[trigger] is_chain(recs, root, c) && c.last() == i;
        lemma_chain_marked(recs, root, marked, c, c.len() - 1);
    }
}

proof fn lemma_chain_marked(recs: Seq<RolloutRecord>, root: Seq<char>, marked: Seq<bool>, c: Seq<int>, k: int)
    requires
        marked.len() == recs.len(),
        is_chain(recs, root, c),
        0 <= k < c.len(),
        forall|q: int|
            0 <= q < recs.len() ==> #[trigger] marked[q] || !(recs[q].id@ != root && (parent_is(recs[q], root)
                || exists|j: int|
                0 <= j < recs.len() && marked[j] && parent_is(recs[q], #[trigger] recs[j].id@))),
    ensures
        recs[c[k]].id@ == root || marked[c[k]],
    decreases k,
{
    let q = c[k];
    assert(0 <= q < recs.len());
    if k == 0 {
        assert(parent_is(recs[q], root));
    } else {
        lemma_chain_marked(recs, root, marked, c, k - 1);
        assert(linked(recs, c, k - 1));
        let p = c[k - 1];
        assert(0 <= p < recs.len());
        if recs[p].id@ != root {
            assert(marked[p]);
            assert(parent_is(recs[q], recs[p].id@));
        }
    }
}

} // verus!
