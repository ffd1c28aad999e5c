//! Small keyed tables: lists of entries looked up by the first entry with a
//! key, updated in place or extended at the end.
use vstd::prelude::*;

use crate::text::str_eq;

verus! {

/// The position of the first entry with key `k`.
pub open spec fn first_key<K, V>(m: Seq<(K, V)>, k: K) -> Option<int>
    decreases m.len(),
{
    if m.len() == 0 {
        None
    } else if m[0].0 == k {
        Some(0)
    } else {
        match first_key(m.drop_first(), k) {
            Some(i) => Some(i + 1),
            None => None,
        }
    }
}

/// The value of the first entry with key `k`.
pub open spec fn lookup<K, V>(m: Seq<(K, V)>, k: K) -> Option<V> {
    match first_key(m, k) {
        Some(i) => Some(m[i].1),
        None => None,
    }
}

/// The table with the first entry for `k` set to `v`, or `(k, v)` appended.
pub open spec fn assign<K, V>(m: Seq<(K, V)>, k: K, v: V) -> Seq<(K, V)> {
    match first_key(m, k) {
        Some(i) => m.update(i, (k, v)),
        None => m.push((k, v)),
    }
}

/// The table without the first entry for `k`.
pub open spec fn remove_key<K, V>(m: Seq<(K, V)>, k: K) -> Seq<(K, V)> {
    match first_key(m, k) {
        Some(i) => m.remove(i),
        None => m,
    }
}

pub proof fn lemma_first_key_bounds<K, V>(m: Seq<(K, V)>, k: K)
    ensures
        first_key(m, k) matches Some(i) ==> 0 <= i < m.len() && m[i].0 == k,
        first_key(m, k) is None ==> forall|j: int| 0 <= j < m.len() ==> #[trigger] m[j].0 != k,
    decreases m.len(),
{
    if m.len() > 0 && m[0].0 != k {
        lemma_first_key_bounds(m.drop_first(), k);
        if first_key(m.drop_first(), k) is None {
            assert forall|j: int| 0 <= j < m.len() implies #[trigger] m[j].0 != k by {
                if j > 0 {
                    assert(m[j] == m.drop_first()[j - 1]);
                }
            }
        }
    }
}

/// When no entry before `i` has key `k` and entry `i` does, the first entry
/// for `k` is `i`.
pub proof fn lemma_first_key_at<K, V>(m: Seq<(K, V)>, k: K, i: int)
    requires
        0 <= i < m.len(),
        m[i].0 == k,
        forall|j: int| 0 <= j < i ==> #[trigger] m[j].0 != k,
    ensures
        first_key(m, k) == Some(i),
    decreases i,
{
    if i > 0 {
        assert forall|j: int| 0 <= j < i - 1 implies #[trigger] m.drop_first()[j].0 != k by {
            assert(m.drop_first()[j] == m[j + 1]);
        }
        lemma_first_key_at(m.drop_first(), k, i - 1);
    }
}

/// When no entry has key `k`, there is no first entry for it.
pub proof fn lemma_first_key_none<K, V>(m: Seq<(K, V)>, k: K)
    requires
        forall|j: int| 0 <= j < m.len() ==> #[trigger] m[j].0 != k,
    ensures
        first_key(m, k) is None,
    decreases m.len(),
{
    if m.len() > 0 {
        assert forall|j: int| 0 <= j < m.len() - 1 implies #[trigger] m.drop_first()[j].0 != k by {
            assert(m.drop_first()[j] == m[j + 1]);
        }
        lemma_first_key_none(m.drop_first(), k);
    }
}

/// The keys of a table of strings, viewed.
pub open spec fn text_keys<V>(m: Seq<(String, V)>) -> Seq<(Seq<char>, V)> {
    m.map_values(|e: (String, V)| (e.0@, e.1))
}

/// The position of the first entry whose key spells `k`.
pub fn find_text_key<V>(m: &Vec<(String, V)>, k: &str) -> (r: Option<usize>)
    ensures
        match r {
            Some(i) => first_key(text_keys(m@), k@) == Some(i as int) && i < m.len(),
            None => first_key(text_keys(m@), k@) is None,
        },
{
    let ghost t = text_keys(m@);
    let mut i: usize = 0;
    while i < m.len()
        invariant
            i <= m.len(),
            t == text_keys(m@),
            forall|j: int| 0 <= j < i ==> #[trigger] t[j].0 != k@,
        decreases m.len() - i,
    {
        assert(t[i as int].0 == m@[i as int].0@);
        if str_eq(m[i].0.as_str(), k) {
            proof {
                lemma_first_key_at(t, k@, i as int);
            }
            return Some(i);
        }
        i += 1;
    }
    proof {
        lemma_first_key_none(t, k@);
    }
    None
}


/// Tables with the same keys in the same places find the same first entry.
pub proof fn lemma_first_key_same_keys<K, V, W>(a: Seq<(K, V)>, b: Seq<(K, W)>, k: K)
    requires
        a.len() == b.len(),
        forall|i: int| 0 <= i < a.len() ==> #[trigger] a[i].0 == b[i].0,
    ensures
        first_key(a, k) == first_key(b, k),
    decreases a.len(),
{
    if a.len() > 0 {
        assert forall|i: int| 0 <= i < a.len() - 1 implies #[trigger] a.drop_first()[i].0 == b.drop_first()[i].0 by {
            assert(a.drop_first()[i] == a[i + 1]);
            assert(b.drop_first()[i] == b[i + 1]);
        }
        lemma_first_key_same_keys(a.drop_first(), b.drop_first(), k);
        assert(a[0].0 == b[0].0);
    }
}

/// The keys of a table keyed by pairs of strings, viewed.
pub open spec fn pair_keys<V>(m: Seq<((String, String), V)>) -> Seq<((Seq<char>, Seq<char>), V)> {
    m.map_values(|e: ((String, String), V)| ((e.0.0@, e.0.1@), e.1))
}

/// The position of the first entry whose key spells the pair `(a, b)`.
pub fn find_pair_key<V>(m: &Vec<((String, String), V)>, a: &str, b: &str) -> (r: Option<usize>)
    ensures
        match r {
            Some(i) => first_key(pair_keys(m@), (a@, b@)) == Some(i as int) && i < m.len(),
            None => first_key(pair_keys(m@), (a@, b@)) is None,
        },
{
    let ghost t = pair_keys(m@);
    let mut i: usize = 0;
    while i < m.len()
        invariant
            i <= m.len(),
            t == pair_keys(m@),
            forall|j: int| 0 <= j < i ==> #[trigger] t[j].0 != (a@, b@),
        decreases m.len() - i,
    {
        assert(t[i as int].0 == (m@[i as int].0.0@, m@[i as int].0.1@));
        if str_eq(m[i].0.0.as_str(), a) && str_eq(m[i].0.1.as_str(), b) {
            proof {
                lemma_first_key_at(t, (a@, b@), i as int);
            }
            return Some(i);
        }
        i += 1;
    }
    proof {
        lemma_first_key_none(t, (a@, b@));
    }
    None
}

/// No key occurs twice.
pub open spec fn distinct_keys<K, V>(m: Seq<(K, V)>) -> bool {
    forall|i: int, j: int| 0 <= i < j < m.len() ==> #[trigger] m[i].0 != #[trigger] m[j].0
}

/// Setting or adding an entry keeps the keys distinct.
pub proof fn lemma_assign_distinct<K, V>(m: Seq<(K, V)>, k: K, v: V)
    requires
        distinct_keys(m),
    ensures
        distinct_keys(assign(m, k, v)),
{
    lemma_first_key_bounds(m, k);
    let r = assign(m, k, v);
    match first_key(m, k) {
        Some(i) => {
            assert forall|a: int, b: int| 0 <= a < b < r.len() implies #[trigger] r[a].0 != #[trigger] r[b].0 by {
                assert(r[a].0 == m[a].0);
                assert(r[b].0 == m[b].0);
            }
        },
        None => {
            assert forall|a: int, b: int| 0 <= a < b < r.len() implies #[trigger] r[a].0 != #[trigger] r[b].0 by {
                if b < m.len() {
                    assert(r[a] == m[a] && r[b] == m[b]);
                } else {
                    assert(r[a] == m[a]);
                }
            }
        },
    }
}

} // verus!
