//! Ordering and sorting of strings as `str`'s `Ord` does (by code point).
use vstd::prelude::*;

use crate::text::chars_of;
use vstd::seq_lib::{to_multiset_insert, to_multiset_remove};

verus! {

broadcast use vstd::seq_lib::group_to_multiset_ensures;

/// Lexicographic order of character sequences by code point, which is the
/// byte order of their UTF-8 encodings.
pub open spec fn lex_le(a: Seq<char>, b: Seq<char>) -> bool
    decreases a.len(),
{
    if a.len() == 0 {
        true
    } else if b.len() == 0 {
        false
    } else if (a[0] as int) < (b[0] as int) {
        true
    } else if (a[0] as int) > (b[0] as int) {
        false
    } else {
        lex_le(a.drop_first(), b.drop_first())
    }
}

pub proof fn lemma_lex_total(a: Seq<char>, b: Seq<char>)
    ensures
        lex_le(a, b) || lex_le(b, a),
    decreases a.len(),
{
    if a.len() > 0 && b.len() > 0 && a[0] == b[0] {
        lemma_lex_total(a.drop_first(), b.drop_first());
    }
}

pub proof fn lemma_lex_antisymmetric(a: Seq<char>, b: Seq<char>)
    requires
        lex_le(a, b),
        lex_le(b, a),
    ensures
        a == b,
    decreases a.len(),
{
    if a.len() > 0 && b.len() > 0 {
        lemma_lex_antisymmetric(a.drop_first(), b.drop_first());
        assert(a =~= seq![a[0]] + a.drop_first());
        assert(b =~= seq![b[0]] + b.drop_first());
    }
}

pub proof fn lemma_lex_transitive(a: Seq<char>, b: Seq<char>, c: Seq<char>)
    requires
        lex_le(a, b),
        lex_le(b, c),
    ensures
        lex_le(a, c),
    decreases a.len(),
{
    if a.len() > 0 && b.len() > 0 && c.len() > 0 && a[0] == b[0] && b[0] == c[0] {
        lemma_lex_transitive(a.drop_first(), b.drop_first(), c.drop_first());
    }
}

/// Whether `a` sorts strictly before `b`.
pub fn lex_less(a: &[char], b: &[char]) -> (r: bool)
    ensures
        r == (lex_le(a@, b@) && a@ != b@),
{
    let mut i: usize = 0;
    assert(a@.skip(0) =~= a@);
    assert(b@.skip(0) =~= b@);
    while i < a.len() && i < b.len()
        invariant
            i <= a.len(),
            i <= b.len(),
            forall|j: int| 0 <= j < i ==> a@[j] == b@[j],
            lex_le(a@, b@) == lex_le(a@.skip(i as int), b@.skip(i as int)),
        decreases a.len() - i,
    {
        assert(a@.skip(i as int).drop_first() =~= a@.skip(i + 1));
        assert(b@.skip(i as int).drop_first() =~= b@.skip(i + 1));
        if a[i] < b[i] {
            assert(a@[i as int] != b@[i as int]);
            return true;
        }
        if a[i] > b[i] {
            assert(a@[i as int] != b@[i as int]);
            return false;
        }
        i += 1;
    }
    if i == a.len() && i == b.len() {
        assert(a@ =~= b@);
    }
    if i == a.len() && i < b.len() {
        assert(a@.len() != b@.len());
    }
    i == a.len() && i < b.len()
}

/// Whether string `a` sorts strictly before string `b`.
pub fn str_less(a: &str, b: &str) -> (r: bool)
    ensures
        r == (lex_le(a@, b@) && a@ != b@),
{
    let x = chars_of(a);
    let y = chars_of(b);
    lex_less(&x, &y)
}

/// The character views of a list of strings.
pub open spec fn views(v: Seq<String>) -> Seq<Seq<char>> {
    v.map_values(|s: String| s@)
}

/// Whether the views are in non-decreasing order.
pub open spec fn sorted_views(s: Seq<Seq<char>>) -> bool {
    forall|i: int, j: int| 0 <= i < j < s.len() ==> lex_le(#[trigger] s[i], #[trigger] s[j])
}

/// Sorts strings in ascending order (`slice::sort` on `String`).
pub fn sort_strings(v: &mut Vec<String>)
    ensures
        sorted_views(views(final(v)@)),
        views(final(v)@).to_multiset() == views(old(v)@).to_multiset(),
        final(v)@.len() == old(v)@.len(),
{
    let n = v.len();
    let mut i: usize = 1;
    if n == 0 {
        return;
    }
    while i < n
        invariant
            1 <= i <= n,
            v@.len() == n,
            sorted_views(views(v@).take(i as int)),
            views(v@).to_multiset() == views(old(v)@).to_multiset(),
        decreases n - i,
    {
        let ghost before = views(v@);
        let x = v.remove(i);
        let ghost removed = views(v@);
        assert(removed =~= before.remove(i as int));
        proof {
            to_multiset_remove(before, i as int);
        }
        let mut p: usize = 0;
        while p < i && !str_less(x.as_str(), v[p].as_str())
            invariant
                p <= i,
                i < n,
                v@.len() == n - 1,
                views(v@) == removed,
                sorted_views(removed.take(i as int)),
                forall|k: int| 0 <= k < p ==> lex_le(#[trigger] removed[k], x@),
            decreases i - p,
        {
            proof {
                lemma_lex_total(x@, removed[p as int]);
            }
            p += 1;
        }
        let ghost xv = x@;
        v.insert(p, x);
        proof {
            let after = views(v@);
            assert(after =~= removed.insert(p as int, xv));
            to_multiset_insert(removed, p as int, xv);
            assert(before.remove(i as int).insert(p as int, xv).to_multiset() =~= before.to_multiset())
                by {
                assert(before[i as int] == xv);
            }
            assert forall|a: int, b: int| 0 <= a < b < i + 1 implies lex_le(
                #[trigger] after.take(i + 1)[a],
                #[trigger] after.take(i + 1)[b],
            ) by {
                let s = removed.take(i as int);
                if a < p as int && b < p as int {
                    assert(after[a] == s[a] && after[b] == s[b]);
                } else if a < p as int && b == p as int {
                    assert(after[a] == removed[a]);
                } else if a < p as int {
                    assert(after[a] == s[a] && after[b] == s[b - 1]);
                } else if a == p as int {
                    assert(after[b] == removed[b - 1]);
                    if b - 1 > p as int {
                        assert(lex_le(s[p as int], s[b - 1]));
                        lemma_lex_transitive(xv, removed[p as int], removed[b - 1]);
                    }
                } else {
                    assert(after[a] == s[a - 1] && after[b] == s[b - 1]);
                }
            }
        }
        i += 1;
    }
    assert(views(v@).take(n as int) =~= views(v@));
}

} // verus!
