//! What the state database's thread table says about root tasks, and
//! whether an index built from chosen files found every task asked for.
use vstd::prelude::*;

use crate::discovery::{deref_opt, ids_unique, kind_of, source_is_root, Json, RolloutKind, RolloutRecord};
use crate::project::find_text;
use crate::sort::{sort_strings, sorted_views, views};
use crate::text::str_eq;

verus! {

broadcast use vstd::seq_lib::group_to_multiset_ensures;

/// One row of the thread table: the thread's id, its rollout file (made
/// absolute), its `source` column as parsed JSON (`None` where it is not
/// JSON), its starting directory, and when its file was last modified.
pub struct StateRow {
    pub id: String,
    pub path: String,
    pub source: Option<Json>,
    pub cwd: Option<String>,
    pub modified: i128,
}

/// A starting directory, kept only when it is not empty.
pub open spec fn nonempty(c: Option<String>) -> Option<String> {
    match c {
        Some(s) => if s@.len() > 0 {
            Some(s)
        } else {
            None
        },
        None => None,
    }
}

/// Whether a row's `source` names a root task (a `source` that is not JSON
/// does).
pub open spec fn is_root_row(r: StateRow) -> bool {
    match r.source {
        None => true,
        Some(v) => kind_of(Some(v)) is Root,
    }
}

/// The root record a row describes, with its modification time.
pub open spec fn row_candidate(r: StateRow) -> (RolloutRecord, i128) {
    (RolloutRecord { id: r.id, parent_id: None, kind: RolloutKind::Root, cwd: nonempty(r.cwd), path: r.path }, r.modified)
}

/// The root records that the first `n` rows describe, in order.
pub open spec fn root_candidates_spec(rows: Seq<StateRow>, n: int) -> Seq<(RolloutRecord, i128)>
    decreases n,
{
    if n <= 0 {
        Seq::<(RolloutRecord, i128)>::empty()
    } else if is_root_row(rows[n - 1]) {
        root_candidates_spec(rows, n - 1).push(row_candidate(rows[n - 1]))
    } else {
        root_candidates_spec(rows, n - 1)
    }
}

/// The root records that the thread table describes, each with the time its
/// file was last modified (see `row_candidate`).
pub fn root_candidates(rows: &[StateRow]) -> (r: Vec<(RolloutRecord, i128)>)
    ensures
        r@ == root_candidates_spec(rows@, rows.len() as int),
{
    let mut r: Vec<(RolloutRecord, i128)> = Vec::new();
    let mut i: usize = 0;
    while i < rows.len()
        invariant
            i <= rows.len(),
            r@ == root_candidates_spec(rows@, i as int),
        decreases rows.len() - i,
    {
        let row = &rows[i];
        let source = row.source.as_ref();
        assert(deref_opt(source) == row.source);
        let root = source_is_root(source);
        if root {
            let cwd = match &row.cwd {
                Some(c) => if c.as_str().is_empty() {
                    None
                } else {
                    Some(c.clone())
                },
                None => None,
            };
            let record = RolloutRecord {
                id: row.id.clone(),
                parent_id: None,
                kind: RolloutKind::Root,
                cwd,
                path: row.path.clone(),
            };
            r.push((record, row.modified));
        }
        i += 1;
    }
    r
}

/// The ids of records.
pub open spec fn record_ids(records: Seq<RolloutRecord>) -> Seq<Seq<char>> {
    records.map_values(|r: RolloutRecord| r.id@)
}

/// The ids of the root records among the first `n`, in order.
pub open spec fn root_ids(records: Seq<RolloutRecord>, n: int) -> Seq<Seq<char>>
    decreases n,
{
    if n <= 0 {
        Seq::<Seq<char>>::empty()
    } else if records[n - 1].kind is Root {
        root_ids(records, n - 1).push(records[n - 1].id@)
    } else {
        root_ids(records, n - 1)
    }
}

proof fn lemma_root_ids(records: Seq<RolloutRecord>, n: int)
    requires
        0 <= n <= records.len(),
        ids_unique(records),
    ensures
        forall|x: Seq<char>| #[trigger] root_ids(records, n).contains(x) <==> exists|j: int|
            0 <= j < n && #[trigger] records[j].id@ == x && records[j].kind is Root,
        root_ids(records, n).no_duplicates(),
    decreases n,
{
    if n > 0 {
        lemma_root_ids(records, n - 1);
        let prev = root_ids(records, n - 1);
        let cur = root_ids(records, n);
        assert forall|x: Seq<char>| #[trigger] cur.contains(x) <==> exists|j: int|
            0 <= j < n && #[trigger] records[j].id@ == x && records[j].kind is Root by {
            if records[n - 1].kind is Root {
                if cur.contains(x) && x != records[n - 1].id@ {
                    let q = choose|q: int| 0 <= q < cur.len() && cur[q] == x;
                    assert(prev[q] == x);
                    assert(prev.contains(x));
                }
                if x == records[n - 1].id@ {
                    assert(cur[cur.len() - 1] == x);
                }
                if exists|j: int| 0 <= j < n && #[trigger] records[j].id@ == x && records[j].kind is Root {
                    let j = choose|j: int| 0 <= j < n && #[trigger] records[j].id@ == x && records[j].kind is Root;
                    if j < n - 1 {
                        assert(prev.contains(x));
                        let q = choose|q: int| 0 <= q < prev.len() && prev[q] == x;
                        assert(cur[q] == x);
                    } else {
                        assert(cur[cur.len() - 1] == x);
                    }
                }
            } else {
                assert(cur == prev);
                if exists|j: int| 0 <= j < n && #[trigger] records[j].id@ == x && records[j].kind is Root {
                    let j = choose|j: int| 0 <= j < n && #[trigger] records[j].id@ == x && records[j].kind is Root;
                    assert(j < n - 1);
                    assert(prev.contains(x));
                }
            }
        }
        if records[n - 1].kind is Root {
            assert(!prev.contains(records[n - 1].id@)) by {
                if prev.contains(records[n - 1].id@) {
                    let j = choose|j: int| 0 <= j < n - 1 && #[trigger] records[j].id@ == records[n - 1].id@ && records[j].kind is Root;
                    assert(records[j].id@ != records[n - 1].id@);
                }
            }
            assert forall|a: int, b: int| 0 <= a < cur.len() && 0 <= b < cur.len() && a != b implies cur[a] != cur[b] by {
                if a < prev.len() && b < prev.len() {
                    assert(cur[a] == prev[a] && cur[b] == prev[b]);
                } else if a < prev.len() {
                    assert(cur[a] == prev[a]);
                    assert(prev.contains(prev[a]));
                } else if b < prev.len() {
                    assert(cur[b] == prev[b]);
                    assert(prev.contains(prev[b]));
                }
            }
        }
    }
}

/// The root records among `records`, sorted by id.
pub fn roots_by_id(records: &[RolloutRecord]) -> (r: Vec<RolloutRecord>)
    requires
        ids_unique(records@),
    ensures
        sorted_views(record_ids(r@)),
        ids_unique(r@),
        forall|x: RolloutRecord| #[trigger] r@.contains(x) <==> (records@.contains(x) && x.kind is Root),
{
    let mut ids: Vec<String> = Vec::new();
    let mut i: usize = 0;
    while i < records.len()
        invariant
            i <= records.len(),
            views(ids@) == root_ids(records@, i as int),
        decreases records.len() - i,
    {
        if matches!(records[i].kind, RolloutKind::Root) {
            ids.push(records[i].id.clone());
            assert(views(ids@) =~= root_ids(records@, i as int).push(records@[i as int].id@));
        }
        i += 1;
    }
    let ghost unsorted = views(ids@);
    proof {
        lemma_root_ids(records@, records.len() as int);
    }
    sort_strings(&mut ids);
    let ghost sorted = views(ids@);
    proof {
        unsorted.lemma_multiset_has_no_duplicates();
        sorted.lemma_multiset_has_no_duplicates_conv();
        assert forall|x: Seq<char>| #[trigger] sorted.contains(x) <==> exists|j: int|
            0 <= j < records.len() && #[trigger] records@[j].id@ == x && records@[j].kind is Root by {
            sorted.to_multiset_ensures();
            unsorted.to_multiset_ensures();
            assert(sorted.to_multiset().count(x) == unsorted.to_multiset().count(x));
            assert(sorted.contains(x) == unsorted.contains(x));
        }
    }
    let mut r: Vec<RolloutRecord> = Vec::new();
    let mut k: usize = 0;
    while k < ids.len()
        invariant
            k <= ids.len(),
            ids_unique(records@),
            sorted == views(ids@),
            forall|x: Seq<char>| #[trigger] sorted.contains(x) <==> exists|j: int|
                0 <= j < records.len() && #[trigger] records@[j].id@ == x && records@[j].kind is Root,
            r.len() == k,
            forall|q: int| 0 <= q < k ==> #[trigger] r@[q].id@ == sorted[q],
            forall|q: int| 0 <= q < k ==> records@.contains(#[trigger] r@[q]) && r@[q].kind is Root,
        decreases ids.len() - k,
    {
        let ghost want = sorted[k as int];
        assert(want == ids@[k as int]@);
        assert(sorted.contains(want));
        let ghost w = choose|j: int|
            0 <= j < records.len() && #[trigger] records@[j].id@ == want && records@[j].kind is Root;
        let mut j: usize = 0;
        while j < records.len() && !str_eq(records[j].id.as_str(), ids[k].as_str())
            invariant
                j <= records.len(),
                k < ids.len(),
                want == ids@[k as int]@,
                0 <= w < records.len(),
                records@[w].id@ == want,
                forall|q: int| 0 <= q < j ==> #[trigger] records@[q].id@ != want,
            decreases records.len() - j,
        {
            j += 1;
        }
        if j == records.len() {
            assert(records@[w].id@ != want);
        }
        proof {
            if j != w {
                if (j as int) < w {
                    assert(records@[j as int].id@ != records@[w].id@);
                } else {
                    assert(records@[w].id@ != records@[j as int].id@);
                }
            }
        }
        r.push(records[j].duplicate());
        assert(records@.contains(records@[j as int]));
        k += 1;
    }
    proof {
        assert(record_ids(r@) =~= sorted);
        assert forall|a: int, b: int| 0 <= a < b < r@.len() implies #[trigger] r@[a].id@ != #[trigger] r@[b].id@ by {
            assert(sorted[a] != sorted[b]);
        }
        assert forall|x: RolloutRecord| #[trigger] r@.contains(x) <==> (records@.contains(x) && x.kind is Root) by {
            if records@.contains(x) && x.kind is Root {
                let j = choose|j: int| 0 <= j < records.len() && records@[j] == x;
                assert(records@[j].id@ == x.id@);
                assert(sorted.contains(x.id@));
                let q = choose|q: int| 0 <= q < sorted.len() && sorted[q] == x.id@;
                assert(r@[q].id@ == x.id@);
                assert(records@.contains(r@[q]));
                let p = choose|p: int| 0 <= p < records.len() && records@[p] == r@[q];
                if p != j {
                    if p < j {
                        assert(records@[p].id@ != records@[j].id@);
                    } else {
                        assert(records@[j].id@ != records@[p].id@);
                    }
                }
                assert(r@[q] == x);
            }
        }
    }
    r
}

/// Whether some record has id `x`.
pub open spec fn has_id(records: Seq<RolloutRecord>, x: Seq<char>) -> bool {
    exists|j: int| 0 <= j < records.len() && #[trigger] records[j].id@ == x
}

/// Whether an index built from chosen files is complete: no file failed,
/// every file gave a distinct task, and every task asked for was found.
pub fn targeted_complete(records: &[RolloutRecord], warnings: usize, paths: usize, ids: &[String]) -> (r: bool)
    ensures
        r == (warnings == 0 && records.len() == paths && forall|i: int|
            0 <= i < ids.len() ==> #[trigger] has_id(records@, ids@[i]@)),
{
    if warnings != 0 || records.len() != paths {
        return false;
    }
    let mut i: usize = 0;
    while i < ids.len()
        invariant
            i <= ids.len(),
            warnings == 0,
            records.len() == paths,
            forall|q: int| 0 <= q < i ==> #[trigger] has_id(records@, ids@[q]@),
        decreases ids.len() - i,
    {
        let mut j: usize = 0;
        while j < records.len() && !str_eq(records[j].id.as_str(), ids[i].as_str())
            invariant
                j <= records.len(),
                i < ids.len(),
                forall|q: int| 0 <= q < j ==> #[trigger] records@[q].id@ != ids@[i as int]@,
            decreases records.len() - j,
        {
            j += 1;
        }
        if j == records.len() {
            assert(!has_id(records@, ids@[i as int]@));
            return false;
        }
        assert(records@[j as int].id@ == ids@[i as int]@);
        assert(has_id(records@, ids@[i as int]@));
        i += 1;
    }
    true
}

} // verus!
