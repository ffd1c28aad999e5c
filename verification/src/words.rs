//! Splitting character sequences into words and joining them back.
use vstd::prelude::*;

use crate::text::{char_is_control, char_is_whitespace, is_control_char, is_whitespace_char};

verus! {

/// Whether `c` separates words: whitespace, and control characters when asked.
pub open spec fn is_separator(c: char, control_too: bool) -> bool {
    is_whitespace_char(c) || (control_too && is_control_char(c))
}

/// The word-separator test as a predicate.
pub open spec fn separator_pred(control_too: bool) -> spec_fn(char) -> bool {
    |c: char| is_separator(c, control_too)
}

/// The pieces of `s` between characters satisfying `sep`, empty pieces included
/// (`str::split` with a character predicate).
pub open spec fn pieces_by(s: Seq<char>, sep: spec_fn(char) -> bool) -> Seq<Seq<char>>
    decreases s.len(),
{
    if s.len() == 0 {
        seq![Seq::<char>::empty()]
    } else {
        let init = pieces_by(s.drop_last(), sep);
        if sep(s.last()) {
            init.push(Seq::<char>::empty())
        } else {
            init.update(init.len() - 1, init.last().push(s.last()))
        }
    }
}

/// The pieces of `s` between word separators.
pub open spec fn pieces(s: Seq<char>, control_too: bool) -> Seq<Seq<char>> {
    pieces_by(s, separator_pred(control_too))
}

/// The non-empty members of a list of pieces.
pub open spec fn nonempty(ws: Seq<Seq<char>>) -> Seq<Seq<char>> {
    ws.filter(|w: Seq<char>| w.len() > 0)
}

/// The members of `ws` joined with the separator `sep` between neighbours.
pub open spec fn join(ws: Seq<Seq<char>>, sep: Seq<char>) -> Seq<char>
    decreases ws.len(),
{
    if ws.len() == 0 {
        Seq::<char>::empty()
    } else if ws.len() == 1 {
        ws[0]
    } else {
        join(ws.drop_last(), sep) + sep + ws.last()
    }
}

/// The words of `s` joined by single spaces.
pub open spec fn collapsed(s: Seq<char>, control_too: bool) -> Seq<char> {
    join(nonempty(pieces(s, control_too)), seq![' '])
}

pub proof fn lemma_pieces_nonempty(s: Seq<char>, sep: spec_fn(char) -> bool)
    ensures
        pieces_by(s, sep).len() >= 1,
    decreases s.len(),
{
    if s.len() > 0 {
        lemma_pieces_nonempty(s.drop_last(), sep);
    }
}

proof fn lemma_join_empty_iff(ws: Seq<Seq<char>>, sep: Seq<char>)
    requires
        forall|i: int| 0 <= i < ws.len() ==> #[trigger] ws[i].len() > 0,
    ensures
        (join(ws, sep).len() == 0) == (ws.len() == 0),
    decreases ws.len(),
{
    if ws.len() > 1 {
        lemma_join_empty_iff(ws.drop_last(), sep);
    }
}

pub proof fn lemma_join_push(ws: Seq<Seq<char>>, w: Seq<char>, sep: Seq<char>)
    ensures
        join(ws.push(w), sep) == (if ws.len() == 0 {
            w
        } else {
            join(ws, sep) + sep + w
        }),
{
    assert(ws.push(w).drop_last() =~= ws);
}

proof fn lemma_nonempty_all(ws: Seq<Seq<char>>)
    ensures
        forall|i: int| 0 <= i < nonempty(ws).len() ==> #[trigger] nonempty(ws)[i].len() > 0,
{
    let p = |w: Seq<char>| w.len() > 0;
    assert forall|i: int| 0 <= i < nonempty(ws).len() implies #[trigger] nonempty(ws)[i].len()
        > 0 by {
        ws.lemma_filter_pred(p, i);
    }
}

proof fn lemma_nonempty_push(ws: Seq<Seq<char>>, w: Seq<char>)
    ensures
        nonempty(ws.push(w)) == (if w.len() > 0 {
            nonempty(ws).push(w)
        } else {
            nonempty(ws)
        }),
{
    reveal(Seq::filter);
    let p = |w: Seq<char>| w.len() > 0;
    let t = ws.push(w);
    assert(t.drop_last() =~= ws);
    assert(t.last() == w);
    assert(t.filter(p) == (if p(t.last()) {
        t.drop_last().filter(p).push(t.last())
    } else {
        t.drop_last().filter(p)
    }));
}

/// `s` with separator runs collapsed to single spaces and the ends trimmed.
pub fn collapse(s: &[char], control_too: bool) -> (r: Vec<char>)
    ensures
        r@ == collapsed(s@, control_too),
{
    let mut out: Vec<char> = Vec::new();
    let mut cur: Vec<char> = Vec::new();
    let mut i: usize = 0;
    while i < s.len()
        invariant
            i <= s.len(),
            pieces(s@.take(i as int), control_too).len() >= 1,
            cur@ == pieces(s@.take(i as int), control_too).last(),
            out@ == join(nonempty(pieces(s@.take(i as int), control_too).drop_last()), seq![' ']),
        decreases s.len() - i,
    {
        let ghost before = pieces(s@.take(i as int), control_too);
        let c = s[i];
        assert(s@.take(i + 1).drop_last() =~= s@.take(i as int));
        let sep = char_is_whitespace(c) || (control_too && char_is_control(c));
        if sep {
            proof {
                lemma_nonempty_push(before.drop_last(), before.last());
                assert(before.drop_last().push(before.last()) =~= before);
                lemma_nonempty_all(before.drop_last());
                lemma_join_empty_iff(nonempty(before.drop_last()), seq![' ']);
                lemma_join_push(nonempty(before.drop_last()), before.last(), seq![' ']);
                assert(pieces(s@.take(i + 1), control_too).drop_last() =~= before);
            }
            if cur.len() > 0 {
                if out.len() > 0 {
                    out.push(' ');
                }
                crate::text::extend_chars(&mut out, &cur);
            }
            cur = Vec::new();
        } else {
            cur.push(c);
            proof {
                let after = pieces(s@.take(i + 1), control_too);
                assert(after.drop_last() =~= before.drop_last());
            }
        }
        i += 1;
    }
    assert(s@.take(s.len() as int) =~= s@);
    let ghost all = pieces(s@, control_too);
    proof {
        lemma_nonempty_push(all.drop_last(), all.last());
        assert(all.drop_last().push(all.last()) =~= all);
        lemma_nonempty_all(all.drop_last());
        lemma_join_empty_iff(nonempty(all.drop_last()), seq![' ']);
        lemma_join_push(nonempty(all.drop_last()), all.last(), seq![' ']);
    }
    if cur.len() > 0 {
        if out.len() > 0 {
            out.push(' ');
        }
        crate::text::extend_chars(&mut out, &cur);
    }
    out
}

/// The test "is the character `sep`" as a predicate.
pub open spec fn char_pred(sep: char) -> spec_fn(char) -> bool {
    |c: char| c == sep
}

/// The pieces of `s` between occurrences of `sep` (`str::split` with a character).
pub fn split_on(s: &[char], sep: char) -> (r: Vec<Vec<char>>)
    ensures
        r.len() == pieces_by(s@, char_pred(sep)).len(),
        forall|j: int| 0 <= j < r.len() ==> #[trigger] r@[j]@ == pieces_by(s@, char_pred(sep))[j],
        r.len() >= 1,
{
    let mut done: Vec<Vec<char>> = Vec::new();
    let mut cur: Vec<char> = Vec::new();
    let mut i: usize = 0;
    assert(pieces_by(s@.take(0), char_pred(sep)) =~= seq![Seq::<char>::empty()]);
    while i < s.len()
        invariant
            i <= s.len(),
            done.len() + 1 == pieces_by(s@.take(i as int), char_pred(sep)).len(),
            forall|j: int|
                0 <= j < done.len() ==> #[trigger] done@[j]@ == pieces_by(
                    s@.take(i as int),
                    char_pred(sep),
                )[j],
            cur@ == pieces_by(s@.take(i as int), char_pred(sep)).last(),
        decreases s.len() - i,
    {
        let ghost before = pieces_by(s@.take(i as int), char_pred(sep));
        assert(s@.take(i + 1).drop_last() =~= s@.take(i as int));
        if s[i] == sep {
            done.push(cur);
            cur = Vec::new();
        } else {
            cur.push(s[i]);
        }
        i += 1;
    }
    assert(s@.take(s.len() as int) =~= s@);
    done.push(cur);
    done
}

/// No character of `w` separates words.
pub open spec fn has_no_separator(w: Seq<char>, control_too: bool) -> bool {
    forall|i: int| 0 <= i < w.len() ==> !is_separator(#[trigger] w[i], control_too)
}

proof fn lemma_pieces_have_no_separator(s: Seq<char>, control_too: bool)
    ensures
        forall|k: int| 0 <= k < pieces(s, control_too).len() ==> has_no_separator(#[trigger] pieces(s, control_too)[k], control_too),
    decreases s.len(),
{
    lemma_pieces_nonempty(s, separator_pred(control_too));
    if s.len() > 0 {
        lemma_pieces_have_no_separator(s.drop_last(), control_too);
        let init = pieces(s.drop_last(), control_too);
        lemma_pieces_nonempty(s.drop_last(), separator_pred(control_too));
        if !is_separator(s.last(), control_too) {
            let w = init.last().push(s.last());
            assert forall|i: int| 0 <= i < w.len() implies !is_separator(#[trigger] w[i], control_too) by {
                if i < w.len() - 1 {
                    assert(w[i] == init.last()[i]);
                    assert(has_no_separator(init[init.len() - 1], control_too));
                }
            }
        }
    }
}

proof fn lemma_pieces_append_word(t: Seq<char>, w: Seq<char>, control_too: bool)
    requires
        has_no_separator(w, control_too),
    ensures
        pieces(t + w, control_too) == ({
            let p = pieces(t, control_too);
            p.update(p.len() - 1, p.last() + w)
        }),
    decreases w.len(),
{
    lemma_pieces_nonempty(t, separator_pred(control_too));
    if w.len() == 0 {
        assert(t + w =~= t);
        let p = pieces(t, control_too);
        assert(p.last() + w =~= p.last());
        assert(p.update(p.len() - 1, p.last()) =~= p);
    } else {
        let v = w.drop_last();
        assert(has_no_separator(v, control_too)) by {
            assert forall|i: int| 0 <= i < v.len() implies !is_separator(#[trigger] v[i], control_too) by {
                assert(v[i] == w[i]);
            }
        }
        lemma_pieces_append_word(t, v, control_too);
        assert((t + w).drop_last() =~= t + v);
        assert((t + w).last() == w.last());
        assert(!is_separator(w[w.len() - 1], control_too));
        let p = pieces(t, control_too);
        assert((p.last() + v).push(w.last()) =~= p.last() + w);
    }
}

proof fn lemma_words_of_joined(ws: Seq<Seq<char>>, control_too: bool)
    requires
        forall|k: int| 0 <= k < ws.len() ==> #[trigger] ws[k].len() > 0 && has_no_separator(ws[k], control_too),
    ensures
        nonempty(pieces(join(ws, seq![' ']), control_too)) == ws,
    decreases ws.len(),
{
    let sp = seq![' '];
    if ws.len() == 0 {
        reveal(Seq::filter);
        assert(pieces(Seq::<char>::empty(), control_too) == seq![Seq::<char>::empty()]);
        lemma_nonempty_push(Seq::<Seq<char>>::empty(), Seq::<char>::empty());
        assert(Seq::<Seq<char>>::empty().push(Seq::<char>::empty()) =~= seq![Seq::<char>::empty()]);
        assert(nonempty(Seq::<Seq<char>>::empty()) =~= Seq::<Seq<char>>::empty());
    } else if ws.len() == 1 {
        lemma_pieces_append_word(Seq::<char>::empty(), ws[0], control_too);
        assert(Seq::<char>::empty() + ws[0] =~= ws[0]);
        let p = pieces(Seq::<char>::empty(), control_too);
        assert(p == seq![Seq::<char>::empty()]);
        assert(p.update(0, Seq::<char>::empty() + ws[0]) =~= Seq::<Seq<char>>::empty().push(ws[0]));
        lemma_nonempty_push(Seq::<Seq<char>>::empty(), ws[0]);
        reveal(Seq::filter);
        assert(nonempty(Seq::<Seq<char>>::empty()) =~= Seq::<Seq<char>>::empty());
        assert(Seq::<Seq<char>>::empty().push(ws[0]) =~= ws);
    } else {
        let init = ws.drop_last();
        let w = ws.last();
        lemma_words_of_joined(init, control_too);
        let t = join(init, sp);
        let u = t.push(' ');
        assert(join(ws, sp) == t + sp + w);
        assert(t + sp =~= u);
        lemma_pieces_append_word(u, w, control_too);
        let pt = pieces(t, control_too);
        assert(pieces(u, control_too) == pt.push(Seq::<char>::empty())) by {
            assert(u.drop_last() =~= t);
            assert(is_separator(u.last(), control_too));
        }
        let pu = pt.push(Seq::<char>::empty());
        assert(pu.update(pu.len() - 1, pu.last() + w) =~= pt.push(w));
        lemma_nonempty_push(pt, w);
        assert(init.push(w) =~= ws);
    }
}

proof fn lemma_nonempty_keeps_no_separator(ws: Seq<Seq<char>>, control_too: bool)
    requires
        forall|k: int| 0 <= k < ws.len() ==> has_no_separator(#[trigger] ws[k], control_too),
    ensures
        forall|k: int| 0 <= k < nonempty(ws).len() ==> #[trigger] nonempty(ws)[k].len() > 0 && has_no_separator(nonempty(ws)[k], control_too),
    decreases ws.len(),
{
    if ws.len() == 0 {
        reveal(Seq::filter);
        assert(nonempty(ws) =~= Seq::<Seq<char>>::empty());
    } else {
        let init = ws.drop_last();
        assert forall|k: int| 0 <= k < init.len() implies has_no_separator(#[trigger] init[k], control_too) by {
            assert(init[k] == ws[k]);
        }
        lemma_nonempty_keeps_no_separator(init, control_too);
        lemma_nonempty_push(init, ws.last());
        assert(init.push(ws.last()) =~= ws);
        assert(has_no_separator(ws[ws.len() - 1], control_too));
    }
}

/// Collapsing is idempotent: the words of a collapsed text are the words it
/// was made of, so collapsing it again changes nothing.
pub proof fn lemma_collapsed_idempotent(s: Seq<char>, control_too: bool)
    ensures
        collapsed(collapsed(s, control_too), control_too) == collapsed(s, control_too),
{
    let ws = nonempty(pieces(s, control_too));
    lemma_pieces_have_no_separator(s, control_too);
    lemma_nonempty_all(pieces(s, control_too));
    lemma_nonempty_keeps_no_separator(pieces(s, control_too), control_too);
    lemma_words_of_joined(ws, control_too);
}

/// A text of words separated by single spaces: no separator but the space,
/// and no space at either end or next to another.
pub open spec fn single_spaced(t: Seq<char>, control_too: bool) -> bool {
    &&& forall|i: int| 0 <= i < t.len() ==> #[trigger] t[i] == ' ' || !is_separator(t[i], control_too)
    &&& t.len() > 0 ==> t[0] != ' ' && t[t.len() - 1] != ' '
    &&& forall|i: int| 0 <= i < t.len() - 1 && #[trigger] t[i] == ' ' ==> t[i + 1] != ' '
}

proof fn lemma_join_single_spaced(ws: Seq<Seq<char>>, control_too: bool)
    requires
        forall|k: int| 0 <= k < ws.len() ==> #[trigger] ws[k].len() > 0 && has_no_separator(ws[k], control_too),
    ensures
        single_spaced(join(ws, seq![' ']), control_too),
    decreases ws.len(),
{
    let sp = seq![' '];
    assert(is_separator(' ', control_too));
    if ws.len() == 1 {
        let w = ws[0];
        assert(has_no_separator(w, control_too));
        assert(!is_separator(w[0], control_too));
        assert(!is_separator(w[w.len() - 1], control_too));
    } else if ws.len() > 1 {
        let init = ws.drop_last();
        let w = ws.last();
        assert(has_no_separator(ws[ws.len() - 1], control_too));
        assert forall|k: int| 0 <= k < init.len() implies #[trigger] init[k].len() > 0 && has_no_separator(init[k], control_too) by {
            assert(init[k] == ws[k]);
        }
        lemma_join_single_spaced(init, control_too);
        let a = join(init, sp);
        lemma_join_empty_iff(init, sp);
        let t = join(ws, sp);
        assert(t == a + sp + w);
        let n = a.len();
        assert forall|i: int| 0 <= i < t.len() implies #[trigger] t[i] == ' ' || !is_separator(t[i], control_too) by {
            if i < n {
                assert(t[i] == a[i]);
            } else if i > n {
                assert(t[i] == w[i - n - 1]);
            }
        }
        assert(t[0] == a[0]);
        assert(t[t.len() - 1] == w[w.len() - 1]);
        assert forall|i: int| 0 <= i < t.len() - 1 && #[trigger] t[i] == ' ' implies t[i + 1] != ' ' by {
            if i < n - 1 {
                assert(t[i] == a[i] && t[i + 1] == a[i + 1]);
            } else if i == n - 1 {
                assert(t[i] == a[n - 1]);
            } else if i == n {
                assert(t[i + 1] == w[0]);
                assert(!is_separator(w[0], control_too));
            } else {
                assert(t[i] == w[i - n - 1]);
                assert(!is_separator(w[i - n - 1], control_too));
            }
        }
    }
}

/// A collapsed text is single-spaced: its words, which hold no separator,
/// joined by single spaces.
pub proof fn lemma_collapsed_single_spaced(s: Seq<char>, control_too: bool)
    ensures
        single_spaced(collapsed(s, control_too), control_too),
{
    lemma_pieces_have_no_separator(s, control_too);
    lemma_nonempty_keeps_no_separator(pieces(s, control_too), control_too);
    lemma_join_single_spaced(nonempty(pieces(s, control_too)), control_too);
}

} // verus!
