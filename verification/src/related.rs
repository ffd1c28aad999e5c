//! Which cached rollouts belong to a chosen set of tasks: the closure of the
//! set under "is a child of", over what the discovery cache remembers.
use vstd::prelude::*;

use crate::discovery::{count_true, lemma_count_true_bound, lemma_count_true_set};
use crate::project::{contains_text, positions};
use crate::sort::views;

verus! {

/// What the discovery cache remembers of a rollout file: its path, the id of
/// its task, the id of its parent when it has one, and whether it is a root
/// task.
pub struct CachedEntry {
    pub path: String,
    pub id: String,
    pub parent_id: Option<String>,
    pub root: bool,
}

/// Whether an entry belongs with the tasks `ids`: a child of one of them; a
/// root task among them; or a task with no parent that is not a root.
pub open spec fn belongs(e: CachedEntry, ids: Seq<Seq<char>>) -> bool {
    match e.parent_id {
        Some(p) => ids.contains(p@),
        None => if e.root {
            ids.contains(e.id@)
        } else {
            true
        },
    }
}

/// The ids of the entries at the given positions, in order.
pub open spec fn ids_at(cached: Seq<CachedEntry>, at: Seq<int>) -> Seq<Seq<char>> {
    at.map_values(|i: int| cached[i].id@)
}

/// The paths of the entries at the given positions, in order.
pub open spec fn paths_at(cached: Seq<CachedEntry>, at: Seq<int>) -> Seq<Seq<char>> {
    at.map_values(|i: int| cached[i].path@)
}

/// `at` lists distinct positions of `cached`, each of which belongs with the
/// chosen ids and the ids of the entries listed before it; no other entry
/// belongs with the chosen ids and the ids of all those listed.
pub open spec fn closure_of(cached: Seq<CachedEntry>, chosen: Seq<Seq<char>>, at: Seq<int>) -> bool {
    &&& forall|k: int| 0 <= k < at.len() ==> 0 <= #[trigger] at[k] < cached.len()
    &&& forall|a: int, b: int| 0 <= a < b < at.len() ==> #[trigger] at[a] != #[trigger] at[b]
    &&& forall|k: int| 0 <= k < at.len() ==> belongs(cached[#[trigger] at[k]], chosen + ids_at(cached, at.take(k)))
    &&& forall|i: int| 0 <= i < cached.len() && !at.contains(i) ==> !belongs(#[trigger] cached[i], chosen + ids_at(cached, at))
}

/// The positions of the cached entries that belong with the tasks `chosen`,
/// directly or through entries that do (see `closure_of`), in the order they
/// were found.
pub fn related_entries(cached: &[CachedEntry], chosen: &[String]) -> (r: Vec<usize>)
    ensures
        closure_of(cached@, views(chosen@), positions(r@)),
{
    let n = cached.len();
    let mut ids: Vec<String> = Vec::new();
    let mut k: usize = 0;
    while k < chosen.len()
        invariant
            k <= chosen.len(),
            views(ids@) == views(chosen@).take(k as int),
        decreases chosen.len() - k,
    {
        let ghost before = ids@;
        let id = chosen[k].clone();
        ids.push(id);
        assert(ids@ =~= before.push(chosen@[k as int]));
        assert(views(ids@) =~= views(before).push(chosen@[k as int]@));
        assert(views(chosen@).take(k + 1) =~= views(chosen@).take(k as int).push(chosen@[k as int]@));
        k += 1;
    }
    assert(views(chosen@).take(chosen.len() as int) =~= views(chosen@));
    let ghost base = views(chosen@);
    let mut done: Vec<bool> = Vec::new();
    let mut k: usize = 0;
    while k < n
        invariant
            k <= n,
            n == cached.len(),
            done.len() == k,
            forall|q: int| 0 <= q < k ==> !#[trigger] done@[q],
        decreases n - k,
    {
        done.push(false);
        k += 1;
    }
    assert(count_true(done@) == 0) by {
        lemma_count_false(done@);
    }
    let mut found: Vec<usize> = Vec::new();
    loop
        invariant
            n == cached.len(),
            done.len() == n,
            base == views(chosen@),
            views(ids@) == base + ids_at(cached@, positions(found@)),
            found.len() == count_true(done@),
            forall|q: int| 0 <= q < n ==> (#[trigger] done@[q] <==> positions(found@).contains(q)),
            forall|k: int| 0 <= k < found.len() ==> (#[trigger] found@[k] as int) < n,
            forall|a: int, b: int| 0 <= a < b < found.len() ==> #[trigger] found@[a] != #[trigger] found@[b],
            forall|k: int| 0 <= k < found.len() ==> belongs(
                cached@[#[trigger] found@[k] as int],
                base + ids_at(cached@, positions(found@).take(k)),
            ),
        ensures
            n == cached.len(),
            views(ids@) == base + ids_at(cached@, positions(found@)),
            forall|q: int| 0 <= q < n ==> (#[trigger] done@[q] <==> positions(found@).contains(q)),
            forall|k: int| 0 <= k < found.len() ==> (#[trigger] found@[k] as int) < n,
            forall|a: int, b: int| 0 <= a < b < found.len() ==> #[trigger] found@[a] != #[trigger] found@[b],
            forall|k: int| 0 <= k < found.len() ==> belongs(
                cached@[#[trigger] found@[k] as int],
                base + ids_at(cached@, positions(found@).take(k)),
            ),
            forall|q: int| 0 <= q < n && !done@[q] ==> !belongs(#[trigger] cached@[q], views(ids@)),
        decreases n - found.len(),
    {
        proof {
            lemma_count_true_bound(done@);
        }
        let ghost start = found.len();
        let mut added = false;
        let mut i: usize = 0;
        while i < n
            invariant
                n == cached.len(),
                done.len() == n,
                i <= n,
                base == views(chosen@),
                views(ids@) == base + ids_at(cached@, positions(found@)),
                found.len() == count_true(done@),
                forall|q: int| 0 <= q < n ==> (#[trigger] done@[q] <==> positions(found@).contains(q)),
                forall|k: int| 0 <= k < found.len() ==> (#[trigger] found@[k] as int) < n,
                forall|a: int, b: int| 0 <= a < b < found.len() ==> #[trigger] found@[a] != #[trigger] found@[b],
                forall|k: int| 0 <= k < found.len() ==> belongs(
                    cached@[#[trigger] found@[k] as int],
                    base + ids_at(cached@, positions(found@).take(k)),
                ),
                added == (found.len() > start),
                found.len() >= start,
                !added ==> forall|q: int| 0 <= q < i && !done@[q] ==> !belongs(#[trigger] cached@[q], views(ids@)),
            decreases n - i,
        {
            if !done[i] {
                let e = &cached[i];
                let fits = match &e.parent_id {
                    Some(p) => contains_text(&ids, p.as_str()),
                    None => if e.root {
                        contains_text(&ids, e.id.as_str())
                    } else {
                        true
                    },
                };
                if fits {
                    let ghost before = positions(found@);
                    let ghost done_before = done@;
                    proof {
                        lemma_count_true_set(done@, i as int);
                        lemma_count_true_bound(done@.update(i as int, true));
                    }
                    done.set(i, true);
                    let ghost ids_before = ids@;
                    let id = e.id.clone();
                    ids.push(id);
                    assert(ids@ =~= ids_before.push(cached@[i as int].id));
                    assert(views(ids@) =~= views(ids_before).push(cached@[i as int].id@));
                    found.push(i);
                    proof {
                        let after = positions(found@);
                        assert(after =~= before.push(i as int));
                        assert(after.take(before.len() as int) =~= before);
                        assert(ids_at(cached@, after) =~= ids_at(cached@, before).push(cached@[i as int].id@));
                        assert(views(ids@) =~= base + ids_at(cached@, after));
                        assert forall|k: int| 0 <= k < found.len() implies belongs(
                            cached@[#[trigger] found@[k] as int],
                            base + ids_at(cached@, after.take(k)),
                        ) by {
                            if k < before.len() {
                                assert(after.take(k) =~= before.take(k));
                            }
                        }
                        assert forall|q: int| 0 <= q < n implies (#[trigger] done@[q] <==> after.contains(q)) by {
                            if q != i {
                                assert(done@[q] == done_before[q]);
                                if after.contains(q) {
                                    let w = choose|w: int| 0 <= w < after.len() && after[w] == q;
                                    assert(before[w] == q);
                                }
                                if before.contains(q) {
                                    let w = choose|w: int| 0 <= w < before.len() && before[w] == q;
                                    assert(after[w] == q);
                                }
                            } else {
                                assert(after[before.len() as int] == q);
                            }
                        }
                        assert forall|a: int, b: int| 0 <= a < b < found.len() implies #[trigger] found@[a] != #[trigger] found@[b] by {
                            if b == found.len() - 1 {
                                assert(before[a] == found@[a] as int);
                                if found@[a] == i {
                                    assert(before.contains(i as int));
                                    assert(done_before[i as int]);
                                }
                            }
                        }
                    }
                    added = true;
                }
            }
            i += 1;
        }
        proof {
            lemma_count_true_bound(done@);
        }
        if !added {
            break;
        }
    }
    proof {
        let at = positions(found@);
        assert forall|k: int| 0 <= k < at.len() implies 0 <= #[trigger] at[k] < cached@.len() by {
            assert(at[k] == found@[k] as int);
        }
        assert forall|a: int, b: int| 0 <= a < b < at.len() implies #[trigger] at[a] != #[trigger] at[b] by {
            assert(at[a] == found@[a] as int && at[b] == found@[b] as int);
        }
        assert forall|k: int| 0 <= k < at.len() implies belongs(cached@[#[trigger] at[k]], base + ids_at(cached@, at.take(k))) by {
            assert(at[k] == found@[k] as int);
        }
        assert forall|q: int| 0 <= q < cached@.len() && !at.contains(q) implies !belongs(#[trigger] cached@[q], base + ids_at(cached@, at)) by {
            assert(!done@[q]);
        }
    }
    found
}

proof fn lemma_count_false(s: Seq<bool>)
    requires
        forall|q: int| 0 <= q < s.len() ==> !#[trigger] s[q],
    ensures
        count_true(s) == 0,
    decreases s.len(),
{
    if s.len() > 0 {
        lemma_count_false(s.drop_last());
    }
}

/// The paths among `paths` that the cache does not know, in order.
pub open spec fn uncached_spec(paths: Seq<Seq<char>>, cached: Seq<CachedEntry>, n: int) -> Seq<Seq<char>>
    decreases n,
{
    if n <= 0 {
        Seq::<Seq<char>>::empty()
    } else if (exists|i: int| 0 <= i < cached.len() && #[trigger] cached[i].path@ == paths[n - 1]) {
        uncached_spec(paths, cached, n - 1)
    } else {
        uncached_spec(paths, cached, n - 1).push(paths[n - 1])
    }
}

/// The cache entries of the paths in `paths`, in the cache's order.
pub open spec fn entries_for(paths: Seq<Seq<char>>, cached: Seq<CachedEntry>) -> Seq<CachedEntry>
    decreases cached.len(),
{
    if cached.len() == 0 {
        Seq::empty()
    } else {
        let rest = entries_for(paths, cached.drop_last());
        if paths.contains(cached.last().path@) {
            rest.push(cached.last())
        } else {
            rest
        }
    }
}

fn copy_entry(e: &CachedEntry) -> (r: CachedEntry)
    ensures
        r == *e,
{
    CachedEntry {
        path: e.path.clone(),
        id: e.id.clone(),
        parent_id: match &e.parent_id {
            Some(p) => Some(p.clone()),
            None => None,
        },
        root: e.root,
    }
}

/// The cache entries of the given paths (see `entries_for`).
fn select_entries(paths: &[String], cached: &[CachedEntry]) -> (r: Vec<CachedEntry>)
    ensures
        r@ == entries_for(views(paths@), cached@),
{
    let mut r: Vec<CachedEntry> = Vec::new();
    let mut k: usize = 0;
    while k < cached.len()
        invariant
            k <= cached.len(),
            r@ == entries_for(views(paths@), cached@.take(k as int)),
        decreases cached.len() - k,
    {
        assert(cached@.take(k + 1).drop_last() =~= cached@.take(k as int));
        assert(cached@.take(k + 1).last() == cached@[k as int]);
        if contains_text(paths, cached[k].path.as_str()) {
            r.push(copy_entry(&cached[k]));
        }
        k += 1;
    }
    assert(cached@.take(cached.len() as int) =~= cached@);
    r
}

/// The paths that belong with the tasks `chosen`, among the paths to be
/// reconciled: those the cache does not know (which must be read), then
/// those whose cached entries belong (see `related_entries`). Only the cache
/// entries of these paths are consulted.
pub fn related_paths(paths: &[String], cached: &[CachedEntry], chosen: &[String]) -> (r: Vec<String>)
    ensures
        exists|at: Seq<int>| #[trigger] closure_of(entries_for(views(paths@), cached@), views(chosen@), at)
            && views(r@) == uncached_spec(views(paths@), entries_for(views(paths@), cached@), paths.len() as int)
            + paths_at(entries_for(views(paths@), cached@), at),
{
    let own = select_entries(paths, cached);
    let cached: &[CachedEntry] = own.as_slice();
    let mut cached_paths: Vec<String> = Vec::new();
    let mut k: usize = 0;
    while k < cached.len()
        invariant
            k <= cached.len(),
            cached_paths.len() == k,
            forall|q: int| 0 <= q < k ==> #[trigger] cached_paths@[q]@ == cached@[q].path@,
        decreases cached.len() - k,
    {
        cached_paths.push(cached[k].path.clone());
        k += 1;
    }
    let mut r: Vec<String> = Vec::new();
    let mut k: usize = 0;
    while k < paths.len()
        invariant
            k <= paths.len(),
            cached_paths.len() == cached.len(),
            forall|q: int| 0 <= q < cached.len() ==> #[trigger] cached_paths@[q]@ == cached@[q].path@,
            views(r@) == uncached_spec(views(paths@), cached@, k as int),
        decreases paths.len() - k,
    {
        let known = contains_text(&cached_paths, paths[k].as_str());
        proof {
            let p = views(paths@)[k as int];
            assert(p == paths@[k as int]@);
            if known {
                let q = choose|q: int| 0 <= q < views(cached_paths@).len() && views(cached_paths@)[q] == p;
                assert(cached@[q].path@ == p);
            } else {
                assert forall|i: int| 0 <= i < cached.len() implies #[trigger] cached@[i].path@ != p by {
                    assert(views(cached_paths@)[i] == cached@[i].path@);
                }
            }
        }
        if !known {
            r.push(paths[k].clone());
            assert(views(r@) =~= uncached_spec(views(paths@), cached@, k as int).push(views(paths@)[k as int]));
        }
        k += 1;
    }
    let found = related_entries(cached, chosen);
    let ghost at = positions(found@);
    let ghost front = views(r@);
    let mut k: usize = 0;
    while k < found.len()
        invariant
            k <= found.len(),
            at == positions(found@),
            closure_of(cached@, views(chosen@), at),
            views(r@) == front + paths_at(cached@, at.take(k as int)),
        decreases found.len() - k,
    {
        assert(at[k as int] == found@[k as int] as int);
        let ghost r_before = r@;
        let p = cached[found[k]].path.clone();
        r.push(p);
        assert(r@ =~= r_before.push(cached@[at[k as int]].path));
        assert(views(r@) =~= views(r_before).push(cached@[at[k as int]].path@));
        assert(paths_at(cached@, at.take(k + 1)) =~= paths_at(cached@, at.take(k as int)).push(cached@[at[k as int]].path@));
        assert(views(r@) =~= front + paths_at(cached@, at.take(k + 1)));
        k += 1;
    }
    assert(at.take(found.len() as int) =~= at);
    r
}

} // verus!
