//! Matching of project references against Desktop project names and recorded
//! starting directories.
use vstd::prelude::*;
use vstd::utf8::{encode_scalar, encode_utf8, is_scalar};

use crate::platform::{find_chars, find_from, occurs_at};
use crate::sort::{lex_le, sort_strings, sorted_views, views};
use crate::text::{
    alphanumeric, char_is_alphanumeric, char_lowercase, chars_of, extend_str, lowercase_of,
    string_of,
};
use crate::words::join;
use crate::text::{chars_equal, str_eq};
use crate::discovery::{distinct, RolloutRecord};
use crate::report::{count_decision, included_ids, tally_scope, ScopeDecision, ScopeRoot, ScopeTally};
use crate::keyed::{find_text_key, first_key, lemma_first_key_bounds, lookup, text_keys};
use crate::sort::{lemma_lex_antisymmetric, str_less};

verus! {

/// The alphanumeric characters of `s`, in order.
pub open spec fn alnum_only(s: Seq<char>) -> Seq<char>
    decreases s.len(),
{
    if s.len() == 0 {
        Seq::<char>::empty()
    } else if alphanumeric(s.last()) {
        alnum_only(s.drop_last()).push(s.last())
    } else {
        alnum_only(s.drop_last())
    }
}

/// Every character lowercased, then only the alphanumeric ones kept.
pub open spec fn normalized_spec(s: Seq<char>) -> Seq<char>
    decreases s.len(),
{
    if s.len() == 0 {
        Seq::<char>::empty()
    } else {
        normalized_spec(s.drop_last()) + alnum_only(lowercase_of(s.last()))
    }
}

/// The number of UTF-8 bytes of a character sequence (`str::len`).
pub open spec fn byte_len(s: Seq<char>) -> nat {
    encode_utf8(s).len()
}

pub proof fn lemma_byte_len_at_least_chars(s: Seq<char>)
    ensures
        byte_len(s) >= s.len(),
    decreases s.len(),
{
    if s.len() > 0 {
        lemma_byte_len_at_least_chars(s.drop_first());
        assert(encode_scalar(s[0] as u32).len() >= 1);
    }
}

pub open spec fn min2(a: nat, b: nat) -> nat {
    if a <= b {
        a
    } else {
        b
    }
}

pub open spec fn max2(a: nat, b: nat) -> nat {
    if a >= b {
        a
    } else {
        b
    }
}

/// The edit distance between two character sequences (insertions, deletions
/// and substitutions of one character each).
pub open spec fn edit_distance(a: Seq<char>, b: Seq<char>) -> nat
    decreases a.len() + b.len(),
{
    if a.len() == 0 {
        b.len()
    } else if b.len() == 0 {
        a.len()
    } else {
        min2(
            min2(edit_distance(a.drop_last(), b) + 1, edit_distance(a, b.drop_last()) + 1),
            edit_distance(a.drop_last(), b.drop_last()) + (if a.last() == b.last() {
                0nat
            } else {
                1nat
            }),
        )
    }
}

/// What the distance computation answers. Its table has one cell per byte
/// of `right` (plus one) but is filled one character at a time, so when every
/// character of `right` is one byte long the answer is the edit distance, and
/// otherwise the last cell is never written and keeps its start value,
/// `byte_len(right)`.
pub open spec fn levenshtein_spec(left: Seq<char>, right: Seq<char>) -> nat {
    if byte_len(right) == right.len() {
        edit_distance(left, right)
    } else {
        byte_len(right)
    }
}

pub proof fn lemma_edit_distance_bound(a: Seq<char>, b: Seq<char>)
    ensures
        edit_distance(a, b) <= max2(a.len(), b.len()),
    decreases a.len() + b.len(),
{
    if a.len() > 0 && b.len() > 0 {
        lemma_edit_distance_bound(a.drop_last(), b.drop_last());
    }
}

/// The lowercase alphanumeric characters of `value`.
pub fn normalized(value: &str) -> (r: String)
    ensures
        r@ == normalized_spec(value@),
{
    let chars = chars_of(value);
    let mut out: Vec<char> = Vec::new();
    let mut i: usize = 0;
    while i < chars.len()
        invariant
            i <= chars.len(),
            chars@ == value@,
            out@ == normalized_spec(value@.take(i as int)),
        decreases chars.len() - i,
    {
        let lower = char_lowercase(chars[i]);
        let ghost base = out@;
        let mut k: usize = 0;
        while k < lower.len()
            invariant
                k <= lower.len(),
                out@ == base + alnum_only(lower@.take(k as int)),
            decreases lower.len() - k,
        {
            assert(lower@.take(k + 1).drop_last() =~= lower@.take(k as int));
            if char_is_alphanumeric(lower[k]) {
                out.push(lower[k]);
            }
            k += 1;
        }
        assert(lower@.take(lower.len() as int) =~= lower@);
        assert(value@.take(i + 1).drop_last() =~= value@.take(i as int));
        i += 1;
    }
    assert(value@.take(chars.len() as int) =~= value@);
    string_of(&out)
}

/// The distance table computation between `left` and `right`, with a row
/// as long as `right` has bytes; see `levenshtein_spec` for what it answers.
pub fn levenshtein(left: &str, right: &str) -> (d: usize)
    requires
        left@.len() < usize::MAX,
        byte_len(right@) < usize::MAX,
    ensures
        d == levenshtein_spec(left@, right@),
{
    let lc = chars_of(left);
    let rc = chars_of(right);
    let bytes = right.len();
    let m = rc.len();
    proof {
        lemma_byte_len_at_least_chars(right@);
    }
    let ghost l = lc@;
    let ghost r = rc@;
    let mut row: Vec<usize> = Vec::new();
    let mut j: usize = 0;
    while j <= bytes
        invariant
            j <= bytes + 1,
            bytes < usize::MAX,
            row@.len() == j,
            forall|k: int| 0 <= k < j ==> row@[k] == k,
        decreases bytes + 1 - j,
    {
        row.push(j);
        j += 1;
    }
    proof {
        assert forall|k: int| 0 <= k <= m implies row@[k] == edit_distance(
            l.take(0),
            #[trigger] r.take(k),
        ) by {
            assert(l.take(0).len() == 0);
        }
    }
    let mut i: usize = 0;
    while i < lc.len()
        invariant
            i <= lc.len(),
            lc@ == l,
            rc@ == r,
            l.len() < usize::MAX,
            m == r.len(),
            m <= bytes,
            bytes < usize::MAX,
            row@.len() == bytes + 1,
            forall|k: int| 0 <= k <= m ==> row@[k] == edit_distance(l.take(i as int), #[trigger] r.take(k)),
            forall|k: int| m < k <= bytes ==> #[trigger] row@[k] == k,
        decreases lc.len() - i,
    {
        let ghost old_row = row@;
        let mut diagonal = row[0];
        row.set(0, i + 1);
        proof {
            assert(l.take(i + 1).len() == i + 1);
            assert(r.take(0).len() == 0);
        }
        let mut j: usize = 0;
        while j < m
            invariant
                i < lc.len(),
                lc@ == l,
                rc@ == r,
                l.len() < usize::MAX,
                m == r.len(),
                m <= bytes,
                bytes < usize::MAX,
                j <= m,
                row@.len() == bytes + 1,
                forall|k: int| 0 <= k <= j ==> row@[k] == edit_distance(l.take(i + 1), #[trigger] r.take(k)),
                forall|k: int| j < k <= m ==> #[trigger] row@[k] == old_row[k],
                forall|k: int| 0 <= k <= m ==> old_row[k] == edit_distance(l.take(i as int), #[trigger] r.take(k)),
                forall|k: int| m < k <= bytes ==> #[trigger] row@[k] == k,
                diagonal == edit_distance(l.take(i as int), r.take(j as int)),
            decreases m - j,
        {
            let previous = row[j + 1];
            let ghost a = l.take(i + 1);
            let ghost b = r.take(j + 1);
            proof {
                assert(a.drop_last() =~= l.take(i as int));
                assert(b.drop_last() =~= r.take(j as int));
                assert(a.last() == l[i as int]);
                assert(b.last() == r[j as int]);
                lemma_edit_distance_bound(l.take(i as int), b);
                lemma_edit_distance_bound(a, r.take(j as int));
                lemma_edit_distance_bound(l.take(i as int), r.take(j as int));
            }
            let del = row[j + 1] + 1;
            let ins = row[j] + 1;
            let sub = if lc[i] != rc[j] {
                diagonal + 1
            } else {
                diagonal
            };
            let best0 = if del <= ins {
                del
            } else {
                ins
            };
            let best = if best0 <= sub {
                best0
            } else {
                sub
            };
            row.set(j + 1, best);
            diagonal = previous;
            j += 1;
        }
        i += 1;
    }
    proof {
        assert(l.take(l.len() as int) =~= l);
        assert(r.take(m as int) =~= r);
        assert(l == left@);
        assert(r == right@);
    }
    row[bytes]
}

/// The UTF-8 length of a character sequence, or `None` where it exceeds `usize::MAX`.
fn checked_byte_len(chars: &[char]) -> (r: Option<usize>)
    ensures
        match r {
            Some(n) => n == byte_len(chars@),
            None => byte_len(chars@) > usize::MAX,
        },
{
    let mut total: usize = 0;
    let mut i: usize = chars.len();
    assert(chars@.skip(chars.len() as int).len() == 0);
    while i > 0
        invariant
            i <= chars.len(),
            total == byte_len(chars@.skip(i as int)),
        decreases i,
    {
        let c = chars[i - 1];
        let u = c as u32;
        let width: usize = if u < 0x80 {
            1
        } else if u < 0x800 {
            2
        } else if u < 0x10000 {
            3
        } else {
            4
        };
        proof {
            let s = chars@.skip(i - 1);
            assert(s.drop_first() =~= chars@.skip(i as int));
            assert(s[0] == c);
            vstd::utf8::char_is_scalar(c);
            assert(encode_scalar(c as u32).len() == width);
        }
        if total > usize::MAX - width {
            proof {
                lemma_byte_len_suffix_grows(chars@, 0, i - 1);
                assert(chars@.skip(0) =~= chars@);
            }
            return None;
        }
        total = total + width;
        i -= 1;
    }
    assert(chars@.skip(0) =~= chars@);
    Some(total)
}

proof fn lemma_byte_len_suffix_grows(s: Seq<char>, a: int, b: int)
    requires
        0 <= a <= b <= s.len(),
    ensures
        byte_len(s.skip(a)) >= byte_len(s.skip(b)),
    decreases b - a,
{
    if a < b {
        lemma_byte_len_suffix_grows(s, a + 1, b);
        assert(s.skip(a).drop_first() =~= s.skip(a + 1));
    }
}

/// Whether `pat` occurs somewhere in `hay`.
pub open spec fn contains_chars(hay: Seq<char>, pat: Seq<char>) -> bool {
    exists|p: int| occurs_at(hay, pat, p)
}

proof fn lemma_find_from_none(hay: Seq<char>, pat: Seq<char>, from: int)
    requires
        from >= 0,
        find_from(hay, pat, from) is None,
    ensures
        forall|p: int| from <= p ==> !occurs_at(hay, pat, p),
    decreases hay.len() + 1 - from,
{
    if from + pat.len() <= hay.len() {
        lemma_find_from_none(hay, pat, from + 1);
    }
}

proof fn lemma_find_from_some(hay: Seq<char>, pat: Seq<char>, from: int)
    ensures
        find_from(hay, pat, from) matches Some(k) ==> occurs_at(hay, pat, k),
    decreases hay.len() + 1 - from,
{
    if !(from < 0 || from + pat.len() > hay.len()) && !occurs_at(hay, pat, from) {
        lemma_find_from_some(hay, pat, from + 1);
    }
}

/// The threshold of edits below which two names count as the same.
pub open spec fn edit_threshold(reference: Seq<char>, candidate: Seq<char>) -> nat {
    max2(max2(byte_len(reference), byte_len(candidate)) / 5, 1)
}

/// Whether a normalised reference matches a normalised candidate with high
/// confidence. The distance is only computed for lengths below `usize::MAX`.
pub open spec fn confident_match(reference: Seq<char>, candidate: Seq<char>) -> bool {
    reference.len() > 0 && (contains_chars(candidate, reference) || (byte_len(reference)
        < usize::MAX && byte_len(candidate) < usize::MAX && levenshtein_spec(reference, candidate)
        <= edit_threshold(reference, candidate)))
}

/// Whether `reference` names `candidate` with high confidence: after both are
/// normalised, the reference is non-empty and either occurs in the candidate
/// or is within a fifth of the longer length (at least one) of edits of it.
pub fn high_confidence_match(reference: &str, candidate: &str) -> (r: bool)
    ensures
        r == confident_match(normalized_spec(reference@), normalized_spec(candidate@)),
        ({
            let a = normalized_spec(reference@);
            let b = normalized_spec(candidate@);
            let longer = if byte_len(a) >= byte_len(b) { byte_len(a) } else { byte_len(b) };
            let d = levenshtein_spec(a, b);
            a.len() > 0 && !contains_chars(b, a) && byte_len(a) < usize::MAX && byte_len(b) < usize::MAX ==> (r
                <==> (d <= 1 || 5 * d <= longer))
        }),
{
    proof {
        lemma_fifth_of_longer(normalized_spec(reference@), normalized_spec(candidate@));
    }
    let reference = normalized(reference);
    let candidate = normalized(candidate);
    let rs = reference.as_str();
    let cs = candidate.as_str();
    let rchars = chars_of(rs);
    let cchars = chars_of(cs);
    if rchars.len() == 0 {
        return false;
    }
    let found = find_chars(&cchars, &rchars, 0);
    proof {
        lemma_find_from_some(cs@, rs@, 0);
        if found is None {
            lemma_find_from_none(cs@, rs@, 0);
        }
    }
    if found.is_some() {
        return true;
    }
    let rb = match checked_byte_len(&rchars) {
        Some(n) => n,
        None => return false,
    };
    let cb = match checked_byte_len(&cchars) {
        Some(n) => n,
        None => return false,
    };
    if rb == usize::MAX || cb == usize::MAX {
        return false;
    }
    proof {
        lemma_byte_len_at_least_chars(rs@);
        lemma_byte_len_at_least_chars(cs@);
    }
    let distance = levenshtein(rs, cs);
    let longest = if rb >= cb {
        rb
    } else {
        cb
    };
    let threshold = if longest / 5 >= 1 {
        longest / 5
    } else {
        1
    };
    distance <= threshold
}

/// The first (at most) five values joined by ", ", followed by ", ..." when
/// there were more.
pub open spec fn short_list_spec(values: Seq<Seq<char>>) -> Seq<char> {
    join(values.take(if values.len() < 5 { values.len() as int } else { 5 }), seq![',', ' '])
        + (if values.len() > 5 {
        seq![',', ' ', '.', '.', '.']
    } else {
        Seq::<char>::empty()
    })
}

/// A short list of values for an error message.
pub fn short_list(values: &[String]) -> (r: String)
    ensures
        r@ == short_list_spec(views(values@)),
{
    let ghost vs = views(values@);
    let n = if values.len() < 5 {
        values.len()
    } else {
        5
    };
    let mut out: Vec<char> = Vec::new();
    let mut i: usize = 0;
    while i < n
        invariant
            i <= n,
            n <= values.len(),
            vs == views(values@),
            out@ == join(vs.take(i as int), seq![',', ' ']),
        decreases n - i,
    {
        proof {
            crate::words::lemma_join_push(vs.take(i as int), vs[i as int], seq![',', ' ']);
            assert(vs.take(i as int).push(vs[i as int]) =~= vs.take(i + 1));
        }
        if i > 0 {
            extend_str(&mut out, ", ");
            proof {
                reveal_strlit(", ");
            }
        }
        extend_str(&mut out, values[i].as_str());
        i += 1;
    }
    if values.len() > 5 {
        extend_str(&mut out, ", ...");
        proof {
            reveal_strlit(", ...");
        }
    }
    string_of(&out)
}

/// The names of some projects.
pub open spec fn project_name_list(projects: Seq<DesktopProject>) -> Seq<Seq<char>> {
    projects.map_values(|p: DesktopProject| p.name@)
}

/// The names of the projects at some positions.
pub open spec fn names_at_positions(projects: Seq<DesktopProject>, at: Seq<int>) -> Seq<Seq<char>> {
    at.map_values(|i: int| projects[i].name@)
}

/// A Desktop project: its id, display name and configured source roots.
pub struct DesktopProject {
    pub id: String,
    pub name: String,
    pub root_paths: Vec<String>,
}

/// The names of some projects, sorted, as a short list.
pub fn project_names(projects: &[DesktopProject]) -> (r: String)
    ensures
        exists|names: Seq<Seq<char>>|
            #![trigger sorted_views(names)]
            sorted_views(names) && names.to_multiset() == project_name_list(projects@).to_multiset()
                && r@ == short_list_spec(names),
{
    let mut names: Vec<String> = Vec::new();
    let mut i: usize = 0;
    while i < projects.len()
        invariant
            i <= projects.len(),
            views(names@) == project_name_list(projects@.take(i as int)),
        decreases projects.len() - i,
    {
        names.push(projects[i].name.clone());
        assert(project_name_list(projects@.take(i + 1)) =~= project_name_list(projects@.take(i as int)).push(
            projects@[i as int].name@,
        ));
        assert(views(names@) =~= project_name_list(projects@.take(i as int)).push(projects@[i as int].name@));
        i += 1;
    }
    assert(projects@.take(projects.len() as int) =~= projects@);
    sort_strings(&mut names);
    let r = short_list(&names);
    assert(sorted_views(views(names@)));
    r
}


/// The code point of a character with ASCII capitals lowered; other
/// characters unchanged.
pub open spec fn ascii_lower(c: char) -> u32 {
    if 65 <= (c as u32) && (c as u32) <= 90 {
        ((c as u32) + 32) as u32
    } else {
        c as u32
    }
}

/// Equality ignoring ASCII case (`str::eq_ignore_ascii_case`).
pub open spec fn same_ignoring_ascii_case(a: Seq<char>, b: Seq<char>) -> bool {
    a.len() == b.len() && forall|i: int| 0 <= i < a.len() ==> ascii_lower(#[trigger] a[i]) == ascii_lower(b[i])
}

fn lower_ascii(c: char) -> (r: u32)
    ensures
        r == ascii_lower(c),
{
    proof {
        vstd::utf8::char_is_scalar(c);
    }
    let u = c as u32;
    if 65 <= u && u <= 90 {
        u + 32
    } else {
        u
    }
}

/// Whether two strings are equal ignoring ASCII case.
pub fn eq_ignore_ascii_case(a: &str, b: &str) -> (r: bool)
    ensures
        r == same_ignoring_ascii_case(a@, b@),
{
    let x = chars_of(a);
    let y = chars_of(b);
    if x.len() != y.len() {
        return false;
    }
    let mut i: usize = 0;
    while i < x.len()
        invariant
            i <= x.len(),
            x.len() == y.len(),
            x@ == a@,
            y@ == b@,
            forall|j: int| 0 <= j < i ==> ascii_lower(#[trigger] x@[j]) == ascii_lower(y@[j]),
        decreases x.len() - i,
    {
        if lower_ascii(x[i]) != lower_ascii(y[i]) {
            return false;
        }
        i += 1;
    }
    true
}

/// The positions of the projects whose name equals `reference` ignoring
/// ASCII case, in order.
pub open spec fn named_positions(projects: Seq<DesktopProject>, reference: Seq<char>, n: int) -> Seq<int>
    decreases n,
{
    if n <= 0 {
        Seq::<int>::empty()
    } else if same_ignoring_ascii_case(projects[n - 1].name@, reference) {
        named_positions(projects, reference, n - 1).push(n - 1)
    } else {
        named_positions(projects, reference, n - 1)
    }
}

/// The positions of the projects whose name the reference matches with high
/// confidence, in order.
pub open spec fn confident_positions(projects: Seq<DesktopProject>, reference: Seq<char>, n: int) -> Seq<int>
    decreases n,
{
    if n <= 0 {
        Seq::<int>::empty()
    } else if confident_match(normalized_spec(reference), normalized_spec(projects[n - 1].name@)) {
        confident_positions(projects, reference, n - 1).push(n - 1)
    } else {
        confident_positions(projects, reference, n - 1)
    }
}

/// Positions as integers.
pub open spec fn positions(v: Seq<usize>) -> Seq<int> {
    v.map_values(|x: usize| x as int)
}

/// The projects named by `reference`, ignoring ASCII case.
pub fn named_projects(projects: &[DesktopProject], reference: &str) -> (r: Vec<usize>)
    ensures
        positions(r@) == named_positions(projects@, reference@, projects.len() as int),
        forall|k: int| 0 <= k < r.len() ==> #[trigger] r@[k] < projects.len(),
{
    let mut r: Vec<usize> = Vec::new();
    let mut i: usize = 0;
    while i < projects.len()
        invariant
            i <= projects.len(),
            positions(r@) == named_positions(projects@, reference@, i as int),
            forall|k: int| 0 <= k < r.len() ==> #[trigger] r@[k] < i,
        decreases projects.len() - i,
    {
        if eq_ignore_ascii_case(projects[i].name.as_str(), reference) {
            r.push(i);
            assert(positions(r@) =~= named_positions(projects@, reference@, i as int).push(i as int));
        }
        i += 1;
    }
    r
}

/// The projects whose name `reference` matches with high confidence.
pub fn confident_projects(projects: &[DesktopProject], reference: &str) -> (r: Vec<usize>)
    ensures
        positions(r@) == confident_positions(projects@, reference@, projects.len() as int),
        forall|k: int| 0 <= k < r.len() ==> #[trigger] r@[k] < projects.len(),
{
    let mut r: Vec<usize> = Vec::new();
    let mut i: usize = 0;
    while i < projects.len()
        invariant
            i <= projects.len(),
            positions(r@) == confident_positions(projects@, reference@, i as int),
            forall|k: int| 0 <= k < r.len() ==> #[trigger] r@[k] < i,
        decreases projects.len() - i,
    {
        if high_confidence_match(reference, projects[i].name.as_str()) {
            r.push(i);
            assert(positions(r@) =~= confident_positions(projects@, reference@, i as int).push(i as int));
        }
        i += 1;
    }
    r
}


/// The recorded starting directories (among the first `n` roots) that
/// `reference` matches with high confidence, in order.
pub open spec fn cwd_candidates(cwds: Seq<Option<String>>, reference: Seq<char>, n: int) -> Seq<Seq<char>>
    decreases n,
{
    if n <= 0 {
        Seq::<Seq<char>>::empty()
    } else {
        let rest = cwd_candidates(cwds, reference, n - 1);
        match cwds[n - 1] {
            Some(c) => if confident_match(normalized_spec(reference), normalized_spec(c@)) {
                rest.push(c@)
            } else {
                rest
            },
            None => rest,
        }
    }
}

/// A sorted list without repeats, keeping one of each run of equal values.
fn dedup_sorted(v: Vec<String>) -> (r: Vec<String>)
    requires
        sorted_views(views(v@)),
    ensures
        sorted_views(views(r@)),
        distinct(views(r@)),
        forall|x: Seq<char>| #[trigger] views(r@).contains(x) <==> views(v@).contains(x),
{
    let ghost vv = views(v@);
    let mut r: Vec<String> = Vec::new();
    let mut i: usize = 0;
    while i < v.len()
        invariant
            i <= v.len(),
            vv == views(v@),
            sorted_views(vv),
            sorted_views(views(r@)),
            distinct(views(r@)),
            r.len() > 0 ==> i > 0 && views(r@).last() == vv[i - 1],
            i > 0 ==> r.len() > 0,
            forall|x: Seq<char>| #[trigger] views(r@).contains(x) <==> vv.take(i as int).contains(x),
        decreases v.len() - i,
    {
        let ghost before = views(r@);
        let keep = r.len() == 0 || !str_eq(r[r.len() - 1].as_str(), v[i].as_str());
        if keep {
            r.push(v[i].clone());
            proof {
                let after = views(r@);
                assert(after =~= before.push(vv[i as int]));
                if before.len() > 0 {
                    let last = before.last();
                    assert(last == vv[i - 1]);
                    assert(lex_le(vv[i - 1], vv[i as int]));
                    assert forall|p: int| 0 <= p < before.len() implies lex_le(#[trigger] before[p], vv[i as int]) && before[p] != vv[i as int] by {
                        if p < before.len() - 1 {
                            assert(lex_le(before[p], last));
                            crate::sort::lemma_lex_transitive(before[p], last, vv[i as int]);
                            if before[p] == vv[i as int] {
                                lemma_lex_antisymmetric(last, vv[i as int]);
                            }
                        }
                    }
                }
                assert forall|p: int, q: int| 0 <= p < q < after.len() implies lex_le(#[trigger] after[p], #[trigger] after[q]) by {
                    if q < before.len() {
                        assert(after[p] == before[p] && after[q] == before[q]);
                    } else {
                        assert(after[p] == before[p]);
                    }
                }
                assert forall|p: int, q: int| 0 <= p < q < after.len() implies #[trigger] after[p] != #[trigger] after[q] by {
                    if q < before.len() {
                        assert(after[p] == before[p] && after[q] == before[q]);
                    } else {
                        assert(after[p] == before[p]);
                    }
                }
                assert forall|x: Seq<char>| #[trigger] after.contains(x) <==> vv.take(i + 1).contains(x) by {
                    let t = vv.take(i as int);
                    let t1 = vv.take(i + 1);
                    assert(t1 =~= t.push(vv[i as int]));
                    if after.contains(x) {
                        let p = choose|p: int| 0 <= p < after.len() && after[p] == x;
                        if p < before.len() {
                            assert(before.contains(x));
                            assert(t.contains(x));
                            let q = choose|q: int| 0 <= q < t.len() && t[q] == x;
                            assert(t1[q] == x);
                        } else {
                            assert(t1[i as int] == x);
                        }
                    }
                    if t1.contains(x) {
                        let q = choose|q: int| 0 <= q < t1.len() && t1[q] == x;
                        if q < i {
                            assert(t[q] == x);
                            assert(t.contains(x));
                            assert(before.contains(x));
                            let p = choose|p: int| 0 <= p < before.len() && before[p] == x;
                            assert(after[p] == x);
                        } else {
                            assert(after[before.len() as int] == x);
                        }
                    }
                }
            }
        } else {
            proof {
                assert(before.last() == vv[i as int]);
                assert forall|x: Seq<char>| #[trigger] before.contains(x) <==> vv.take(i + 1).contains(x) by {
                    assert(vv.take(i + 1) =~= vv.take(i as int).push(vv[i as int]));
                    if x == vv[i as int] {
                        assert(before[before.len() - 1] == x);
                    }
                }
            }
        }
        i += 1;
    }
    assert(vv.take(v.len() as int) =~= vv);
    r
}

/// The recorded starting directories that `reference` matches with high
/// confidence, sorted and without repeats.
pub fn historical_cwd_matches(cwds: &[Option<String>], reference: &str) -> (r: Vec<String>)
    ensures
        sorted_views(views(r@)),
        distinct(views(r@)),
        forall|x: Seq<char>| #[trigger] views(r@).contains(x) <==> cwd_candidates(cwds@, reference@, cwds.len() as int).contains(x),
{
    let mut found: Vec<String> = Vec::new();
    let mut i: usize = 0;
    while i < cwds.len()
        invariant
            i <= cwds.len(),
            views(found@) == cwd_candidates(cwds@, reference@, i as int),
        decreases cwds.len() - i,
    {
        match &cwds[i] {
            Some(c) => {
                if high_confidence_match(reference, c.as_str()) {
                    found.push(c.clone());
                    assert(views(found@) =~= cwd_candidates(cwds@, reference@, i as int).push(c@));
                }
            },
            None => {},
        }
        i += 1;
    }
    let ghost unsorted = views(found@);
    sort_strings(&mut found);
    proof {
        assert forall|x: Seq<char>| #[trigger] views(found@).contains(x) <==> unsorted.contains(x) by {
            vstd::seq_lib::to_multiset_contains(views(found@), x);
            vstd::seq_lib::to_multiset_contains(unsorted, x);
        }
    }
    dedup_sorted(found)
}

/// Where a project reference that is not a path leads.
pub enum FuzzyTarget {
    /// The project at this position.
    Project(usize),
    /// A recorded starting directory.
    Cwd(String),
}

/// Why a project reference could not be resolved.
pub enum ProjectError {
    PathMissing(String),
    AmbiguousSourceRoot { path: String, matches: String },
    AmbiguousProjectName { reference: String, matches: String },
    AmbiguousProjectRef { reference: String, matches: String },
    AmbiguousHistoricalCwd { reference: String, matches: String },
    ProjectRefNotFound(String),
    MetadataUnavailable,
    ThreadNotRoot(String),
    ThreadCwdMissing(String),
    ThreadOutsideProject { thread_id: String, target: String },
}

/// `matches` lists the names of the projects at `at`, sorted, as a short list.
pub open spec fn names_listed(projects: Seq<DesktopProject>, at: Seq<int>, matches: Seq<char>) -> bool {
    exists|names: Seq<Seq<char>>|
        #![trigger sorted_views(names)]
        sorted_views(names) && names.to_multiset() == names_at_positions(projects, at).to_multiset()
            && matches == short_list_spec(names)
}

/// `matches` lists the given directories, sorted and without repeats, as a
/// short list.
pub open spec fn cwds_listed(cwds: Seq<Seq<char>>, matches: Seq<char>) -> bool {
    exists|list: Seq<Seq<char>>|
        #![trigger sorted_views(list)]
        sorted_views(list) && distinct(list) && (forall|x: Seq<char>| #[trigger] list.contains(x) <==> cwds.contains(x))
            && matches == short_list_spec(list)
}

fn names_at(projects: &[DesktopProject], at: &Vec<usize>) -> (r: String)
    requires
        forall|k: int| 0 <= k < at.len() ==> #[trigger] at@[k] < projects.len(),
    ensures
        names_listed(projects@, positions(at@), r@),
{
    let mut chosen: Vec<DesktopProject> = Vec::new();
    let mut k: usize = 0;
    while k < at.len()
        invariant
            k <= at.len(),
            forall|q: int| 0 <= q < at.len() ==> #[trigger] at@[q] < projects.len(),
            chosen.len() == k,
            project_name_list(chosen@) == names_at_positions(projects@, positions(at@).take(k as int)),
        decreases at.len() - k,
    {
        let ghost before = chosen@;
        let p = &projects[at[k]];
        let name = p.name.clone();
        chosen.push(DesktopProject { id: p.id.clone(), name, root_paths: Vec::new() });
        proof {
            let at_k: int = at@[k as int] as int;
            assert(chosen@ =~= before.push(chosen@[k as int]));
            assert(chosen@[k as int].name@ == projects@[at_k].name@);
            assert(project_name_list(chosen@) =~= project_name_list(before).push(projects@[at_k].name@));
            assert(positions(at@).take(k + 1) =~= positions(at@).take(k as int).push(at_k));
            assert(names_at_positions(projects@, positions(at@).take(k + 1)) =~= names_at_positions(
                projects@,
                positions(at@).take(k as int),
            ).push(projects@[at_k].name@));
        }
        k += 1;
    }
    assert(positions(at@).take(at.len() as int) =~= positions(at@));
    assert(project_name_list(chosen@) == names_at_positions(projects@, positions(at@)));
    project_names(&chosen)
}

/// What a project reference that is not a path resolves to: with Desktop
/// metadata, the one project it matches with high confidence, an ambiguity
/// error when several match, else the recorded directories; without
/// metadata, only the recorded directories, where finding none means the
/// metadata is unavailable. Among the recorded directories, one match is the
/// target, several are an ambiguity error, and none means nothing was found.
pub fn fuzzy_target(
    projects: &[DesktopProject],
    cwds: &[Option<String>],
    reference: &str,
    metadata_available: bool,
) -> (r: Result<FuzzyTarget, ProjectError>)
    ensures
        ({
            let confident = confident_positions(projects@, reference@, projects.len() as int);
            let cands = cwd_candidates(cwds@, reference@, cwds.len() as int);
            let by_projects = metadata_available && confident.len() > 0;
            &&& by_projects && confident.len() == 1 ==> (r matches Ok(FuzzyTarget::Project(i)) && i == confident[0])
            &&& by_projects && confident.len() > 1 ==> (r matches Err(ProjectError::AmbiguousProjectRef { reference: rr, matches })
                && rr@ == reference@ && names_listed(projects@, confident, matches@))
            &&& !by_projects ==> match r {
                Ok(FuzzyTarget::Cwd(c)) => forall|x: Seq<char>| #[trigger] cands.contains(x) <==> x == c@,
                Err(ProjectError::AmbiguousHistoricalCwd { reference: rr, matches }) => rr@ == reference@
                    && cwds_listed(cands, matches@) && exists|x: Seq<char>, y: Seq<char>| #![trigger cands.contains(x), cands.contains(y)] cands.contains(x) && cands.contains(y) && x != y,
                Err(ProjectError::ProjectRefNotFound(rr)) => metadata_available && rr@ == reference@ && cands.len() == 0,
                Err(ProjectError::MetadataUnavailable) => !metadata_available && cands.len() == 0,
                _ => false,
            }
        }),
{
    if metadata_available {
        let confident = confident_projects(projects, reference);
        if confident.len() == 1 {
            return Ok(FuzzyTarget::Project(confident[0]));
        }
        if confident.len() > 1 {
            let matches = names_at(projects, &confident);
            return Err(ProjectError::AmbiguousProjectRef { reference: String::from_str(reference), matches });
        }
    }
    let ghost cands = cwd_candidates(cwds@, reference@, cwds.len() as int);
    let matches = historical_cwd_matches(cwds, reference);
    if matches.len() == 0 {
        proof {
            if cands.len() > 0 {
                assert(cands.contains(cands[0]));
                assert(views(matches@).contains(cands[0]));
            }
        }
        if metadata_available {
            return Err(ProjectError::ProjectRefNotFound(String::from_str(reference)));
        }
        return Err(ProjectError::MetadataUnavailable);
    }
    if matches.len() == 1 {
        proof {
            assert forall|x: Seq<char>| #[trigger] cands.contains(x) <==> x == matches@[0]@ by {
                assert(views(matches@)[0] == matches@[0]@);
                if views(matches@).contains(x) {
                    let p = choose|p: int| 0 <= p < views(matches@).len() && views(matches@)[p] == x;
                    assert(p == 0);
                }
                if x == matches@[0]@ {
                    assert(views(matches@).contains(x));
                }
            }
        }
        let only = matches[0].clone();
        return Ok(FuzzyTarget::Cwd(only));
    }
    let text = short_list(&matches);
    proof {
        let list = views(matches@);
        assert(sorted_views(list));
        assert(list[0] != list[1]);
        assert(list.contains(list[0]) && list.contains(list[1]));
        assert(cands.contains(list[0]) && cands.contains(list[1]));
    }
    Err(ProjectError::AmbiguousHistoricalCwd { reference: String::from_str(reference), matches: text })
}

/// What the Desktop application records about projects: the projects, each
/// beside the key it is stored under, which project each thread is assigned
/// to, and the threads marked as belonging to no project.
pub struct DesktopState {
    pub projects: Vec<DesktopProject>,
    pub project_keys: Vec<String>,
    pub assignments: Vec<(String, String)>,
    pub projectless: Vec<String>,
}

impl DesktopState {
    /// Each project has its key.
    pub open spec fn wf(&self) -> bool {
        self.projects.len() == self.project_keys.len()
    }
}

/// `j` is the first position in `keys` that holds `k`.
pub open spec fn first_position(keys: Seq<Seq<char>>, k: Seq<char>, j: int) -> bool {
    0 <= j < keys.len() && keys[j] == k && forall|q: int| 0 <= q < j ==> #[trigger] keys[q] != k
}

/// The position of the first string in `keys` that spells `k`.
pub fn find_text(keys: &[String], k: &str) -> (r: Option<usize>)
    ensures
        match r {
            Some(j) => first_position(views(keys@), k@, j as int),
            None => !views(keys@).contains(k@),
        },
{
    let mut i: usize = 0;
    while i < keys.len()
        invariant
            i <= keys.len(),
            forall|q: int| 0 <= q < i ==> #[trigger] views(keys@)[q] != k@,
        decreases keys.len() - i,
    {
        assert(views(keys@)[i as int] == keys@[i as int]@);
        if str_eq(keys[i].as_str(), k) {
            return Some(i);
        }
        i += 1;
    }
    proof {
        if views(keys@).contains(k@) {
            let q = choose|q: int| 0 <= q < views(keys@).len() && views(keys@)[q] == k@;
            assert(views(keys@)[q] != k@);
        }
    }
    None
}

/// How a project report's target was found, as its report names it.
#[derive(Clone, Copy, Debug, PartialEq, Eq, Structural)]
pub enum Resolver {
    ProjectName,
    ThreadAssignment,
    ThreadCwd,
    FuzzyProjectName,
    FuzzyHistoricalCwd,
    SourceRootPath,
    CurrentDirectory,
    Path,
}

/// The name a report gives to a resolver.
pub open spec fn resolver_text(r: Resolver) -> Seq<char> {
    match r {
        Resolver::ProjectName => "project_name"@,
        Resolver::ThreadAssignment => "thread_assignment"@,
        Resolver::ThreadCwd => "thread_cwd"@,
        Resolver::FuzzyProjectName => "fuzzy_project_name"@,
        Resolver::FuzzyHistoricalCwd => "fuzzy_historical_cwd"@,
        Resolver::SourceRootPath => "source_root_path"@,
        Resolver::CurrentDirectory => "current_directory"@,
        Resolver::Path => "path"@,
    }
}

/// The name a report gives to a resolver (see `resolver_text`).
pub fn resolver_name(r: Resolver) -> (s: &'static str)
    ensures
        s@ == resolver_text(r),
{
    let s = match r {
        Resolver::ProjectName => "project_name",
        Resolver::ThreadAssignment => "thread_assignment",
        Resolver::ThreadCwd => "thread_cwd",
        Resolver::FuzzyProjectName => "fuzzy_project_name",
        Resolver::FuzzyHistoricalCwd => "fuzzy_historical_cwd",
        Resolver::SourceRootPath => "source_root_path",
        Resolver::CurrentDirectory => "current_directory",
        Resolver::Path => "path",
    };
    proof {
        reveal_strlit("project_name");
        reveal_strlit("thread_assignment");
        reveal_strlit("thread_cwd");
        reveal_strlit("fuzzy_project_name");
        reveal_strlit("fuzzy_historical_cwd");
        reveal_strlit("source_root_path");
        reveal_strlit("current_directory");
        reveal_strlit("path");
    }
    s
}

/// Where a project report goes before any path is looked at.
pub enum ProjectRoute {
    /// A scope over the project at this position, found by `resolver`; the
    /// thread named must then belong to it.
    Project { index: usize, resolver: Resolver, required_thread: Option<String> },
    /// A scope over the tasks started in this directory.
    ThreadCwd(String),
    /// The reference is to be resolved as a path (the current directory
    /// when the reference is empty).
    Path,
}

/// A string slice, when there is one, by its characters.
pub open spec fn text_opt(o: Option<&str>) -> Option<Seq<char>> {
    match o {
        Some(t) => Some(t@),
        None => None,
    }
}

/// A string, when there is one, by its characters.
pub open spec fn string_opt(o: Option<String>) -> Option<Seq<char>> {
    match o {
        Some(t) => Some(t@),
        None => None,
    }
}

/// `j` is the first root task with id `id`.
pub open spec fn first_root(roots: Seq<RolloutRecord>, id: Seq<char>, j: int) -> bool {
    0 <= j < roots.len() && roots[j].id@ == id && forall|q: int| 0 <= q < j ==> #[trigger] roots[q].id@ != id
}

/// The route of a thread's report when no reference is given, from the
/// first root task with its id: the project the thread is assigned to (by
/// key), else the directory it started in.
pub open spec fn thread_route_ok(state: DesktopState, root: RolloutRecord, r: Result<ProjectRoute, ProjectError>, tid: Seq<char>) -> bool {
    let keys = views(state.project_keys@);
    match lookup(text_keys(state.assignments@), root.id@) {
        Some(pid) if keys.contains(pid@) => r matches Ok(ProjectRoute::Project { index, resolver, required_thread })
            && first_position(keys, pid@, index as int) && resolver == Resolver::ThreadAssignment
            && required_thread is None,
        _ => match root.cwd {
            Some(c) => r matches Ok(ProjectRoute::ThreadCwd(d)) && d@ == c@,
            None => r matches Err(ProjectError::ThreadCwdMissing(t)) && t@ == tid,
        },
    }
}

/// Where a project report goes, before any path is resolved. With a
/// reference and Desktop metadata, a project whose name equals it ignoring
/// ASCII case is the target (several are an ambiguity error). Without a
/// reference but with a thread, the thread must be a root task; then its
/// assigned project, else its starting directory, is the target, and
/// without metadata nothing can be said. Otherwise the reference is a path.
pub fn resolve_route(
    state: &DesktopState,
    metadata_available: bool,
    roots: &[RolloutRecord],
    project_ref: &str,
    thread_id: Option<&str>,
) -> (r: Result<ProjectRoute, ProjectError>)
    requires
        state.wf(),
    ensures
        ({
            let named = named_positions(state.projects@, project_ref@, state.projects.len() as int);
            let by_name = project_ref@.len() > 0 && metadata_available && named.len() > 0;
            &&& by_name && named.len() > 1 ==> (r matches Err(ProjectError::AmbiguousProjectName { reference, matches })
                && reference@ == project_ref@ && names_listed(state.projects@, named, matches@))
            &&& by_name && named.len() == 1 ==> (r matches Ok(ProjectRoute::Project { index, resolver, required_thread })
                && index == named[0] && resolver == Resolver::ProjectName
                && string_opt(required_thread) == text_opt(thread_id))
            &&& !by_name && project_ref@.len() == 0 && thread_id is Some ==> {
                let tid = thread_id->0@;
                &&& !metadata_available ==> (r matches Err(ProjectError::MetadataUnavailable))
                &&& metadata_available && (forall|j: int| 0 <= j < roots.len() ==> #[trigger] roots@[j].id@ != tid)
                    ==> (r matches Err(ProjectError::ThreadNotRoot(t)) && t@ == tid)
                &&& metadata_available ==> forall|j: int| #[trigger] first_root(roots@, tid, j)
                    ==> thread_route_ok(*state, roots@[j], r, tid)
            }
            &&& !by_name && !(project_ref@.len() == 0 && thread_id is Some) ==> (r matches Ok(ProjectRoute::Path))
            &&& (r matches Ok(ProjectRoute::Project { index, .. }) ==> index < state.projects.len())
        }),
{
    if !project_ref.is_empty() && metadata_available {
        let named = named_projects(&state.projects, project_ref);
        if named.len() > 1 {
            let matches = names_at(&state.projects, &named);
            return Err(ProjectError::AmbiguousProjectName { reference: String::from_str(project_ref), matches });
        }
        if named.len() == 1 {
            let required_thread = match thread_id {
                Some(t) => Some(String::from_str(t)),
                None => None,
            };
            return Ok(ProjectRoute::Project { index: named[0], resolver: Resolver::ProjectName, required_thread });
        }
    }
    if project_ref.is_empty() {
        if let Some(tid) = thread_id {
            if !metadata_available {
                return Err(ProjectError::MetadataUnavailable);
            }
            let mut j: usize = 0;
            while j < roots.len()
                invariant
                    j <= roots.len(),
                    forall|q: int| 0 <= q < j ==> #[trigger] roots@[q].id@ != tid@,
                ensures
                    j <= roots.len(),
                    forall|q: int| 0 <= q < j ==> #[trigger] roots@[q].id@ != tid@,
                    j < roots.len() ==> roots@[j as int].id@ == tid@,
                decreases roots.len() - j,
            {
                if str_eq(roots[j].id.as_str(), tid) {
                    break;
                }
                j += 1;
            }
            if j == roots.len() {
                return Err(ProjectError::ThreadNotRoot(String::from_str(tid)));
            }
            assert(first_root(roots@, tid@, j as int));
            proof {
                assert forall|q: int| #[trigger] first_root(roots@, tid@, q) implies q == j by {
                    if q < j {
                    } else if q > j {
                        assert(roots@[j as int].id@ != tid@);
                    }
                }
            }
            let root = &roots[j];
            let ghost keys = views(state.project_keys@);
            if let Some(a) = find_text_key(&state.assignments, root.id.as_str()) {
                proof {
                    lemma_first_key_bounds(text_keys(state.assignments@), root.id@);
                }
                let pid = &state.assignments[a].1;
                assert(text_keys(state.assignments@)[a as int].1 == *pid);
                if let Some(p) = find_text(&state.project_keys, pid.as_str()) {
                    return Ok(ProjectRoute::Project { index: p, resolver: Resolver::ThreadAssignment, required_thread: None });
                }
            }
            return match &root.cwd {
                Some(c) => Ok(ProjectRoute::ThreadCwd(c.clone())),
                None => Err(ProjectError::ThreadCwdMissing(String::from_str(tid))),
            };
        }
    }
    Ok(ProjectRoute::Path)
}

/// The positions that are marked, among the first `n`.
pub open spec fn marked_positions(marks: Seq<bool>, n: int) -> Seq<int>
    decreases n,
{
    if n <= 0 {
        Seq::<int>::empty()
    } else if marks[n - 1] {
        marked_positions(marks, n - 1).push(n - 1)
    } else {
        marked_positions(marks, n - 1)
    }
}

/// The target of a report on a resolved path: the project at a position
/// when one owns the path, the text of the target, and how it was found.
pub struct PathTarget {
    pub project: Option<usize>,
    pub target: String,
    pub resolver: Resolver,
}

/// The target of a report on a resolved path, given which projects have a
/// source root at that path: one such project is the target; several are an
/// ambiguity error; with none, the path itself is the target.
pub fn path_target(state: &DesktopState, owns: &[bool], path: &str, current_directory: bool) -> (r: Result<
    PathTarget,
    ProjectError,
>)
    requires
        owns.len() == state.projects.len(),
    ensures
        ({
            let owners = marked_positions(owns@, owns.len() as int);
            &&& owners.len() > 1 ==> (r matches Err(ProjectError::AmbiguousSourceRoot { path: p, matches })
                && p@ == path@ && names_listed(state.projects@, owners, matches@))
            &&& owners.len() == 1 ==> (r matches Ok(t) && t.project == Some(owners[0] as usize)
                && t.target@ == state.projects@[owners[0]].name@ && t.resolver == Resolver::SourceRootPath)
            &&& owners.len() == 0 ==> (r matches Ok(t) && t.project is None && t.target@ == path@
                && t.resolver == if current_directory { Resolver::CurrentDirectory } else { Resolver::Path })
        }),
{
    let mut owners: Vec<usize> = Vec::new();
    let mut i: usize = 0;
    while i < owns.len()
        invariant
            i <= owns.len(),
            owns.len() == state.projects.len(),
            positions(owners@) == marked_positions(owns@, i as int),
            forall|k: int| 0 <= k < owners.len() ==> #[trigger] owners@[k] < i,
        decreases owns.len() - i,
    {
        if owns[i] {
            owners.push(i);
            assert(positions(owners@) =~= marked_positions(owns@, i as int).push(i as int));
        }
        i += 1;
    }
    if owners.len() > 1 {
        let matches = names_at(&state.projects, &owners);
        return Err(ProjectError::AmbiguousSourceRoot { path: String::from_str(path), matches });
    }
    if owners.len() == 1 {
        let p = owners[0];
        assert(positions(owners@)[0] == p as int);
        let target = state.projects[p].name.clone();
        return Ok(PathTarget { project: Some(p), target, resolver: Resolver::SourceRootPath });
    }
    let resolver = if current_directory {
        Resolver::CurrentDirectory
    } else {
        Resolver::Path
    };
    Ok(PathTarget { project: None, target: String::from_str(path), resolver })
}

/// Whether `s` is among `list`.
pub fn contains_text(list: &[String], s: &str) -> (r: bool)
    ensures
        r == views(list@).contains(s@),
{
    match find_text(list, s) {
        Some(j) => true,
        None => false,
    }
}

/// A copy of an optional string.
fn copy_opt(o: &Option<String>) -> (r: Option<String>)
    ensures
        r == *o,
{
    match o {
        Some(s) => Some(s.clone()),
        None => None,
    }
}

/// How a project scope sees a root task: its id, whether its directory lies
/// beneath the scope's paths, the project it is assigned to, and whether it
/// is marked projectless.
pub open spec fn scope_root_of(state: DesktopState, root: RolloutRecord, beneath: bool) -> ScopeRoot {
    ScopeRoot {
        id: root.id,
        beneath,
        assignment: lookup(text_keys(state.assignments@), root.id@),
        projectless: views(state.projectless@).contains(root.id@),
    }
}

/// The root tasks, among the first `n`, that recorded a starting directory,
/// as a project scope sees them.
pub open spec fn scope_roots_spec(state: DesktopState, roots: Seq<RolloutRecord>, beneath: Seq<bool>, n: int) -> Seq<
    ScopeRoot,
>
    decreases n,
{
    if n <= 0 {
        Seq::<ScopeRoot>::empty()
    } else if roots[n - 1].cwd is Some {
        scope_roots_spec(state, roots, beneath, n - 1).push(scope_root_of(state, roots[n - 1], beneath[n - 1]))
    } else {
        scope_roots_spec(state, roots, beneath, n - 1)
    }
}

/// The root tasks that recorded a starting directory, as a project scope
/// sees them (see `scope_root_of`); `beneath` says, for each root task,
/// whether its directory lies beneath the scope's paths.
pub fn scope_roots(state: &DesktopState, roots: &[RolloutRecord], beneath: &[bool]) -> (r: Vec<ScopeRoot>)
    requires
        beneath.len() == roots.len(),
    ensures
        r@ == scope_roots_spec(*state, roots@, beneath@, roots.len() as int),
{
    let mut r: Vec<ScopeRoot> = Vec::new();
    let mut i: usize = 0;
    while i < roots.len()
        invariant
            i <= roots.len(),
            beneath.len() == roots.len(),
            r@ == scope_roots_spec(*state, roots@, beneath@, i as int),
        decreases roots.len() - i,
    {
        let root = &roots[i];
        if root.cwd.is_some() {
            let assignment = match find_text_key(&state.assignments, root.id.as_str()) {
                Some(a) => Some(state.assignments[a].1.clone()),
                None => None,
            };
            proof {
                lemma_first_key_bounds(text_keys(state.assignments@), root.id@);
                if let Some(a) = first_key(text_keys(state.assignments@), root.id@) {
                    assert(text_keys(state.assignments@)[a].1 == state.assignments@[a].1);
                }
            }
            let projectless = contains_text(&state.projectless, root.id.as_str());
            r.push(ScopeRoot { id: root.id.clone(), beneath: beneath[i], assignment, projectless });
        }
        i += 1;
    }
    r
}

/// Tallies a project scope (see `tally_scope`) over the root tasks that
/// recorded a starting directory; when a thread is required, it must be
/// among those included, or the thread lies outside the project.
pub fn project_scope(
    state: &DesktopState,
    roots: &[RolloutRecord],
    beneath: &[bool],
    selected_project: Option<&str>,
    required_thread: Option<&str>,
    target: &str,
) -> (r: Result<ScopeTally, ProjectError>)
    requires
        beneath.len() == roots.len(),
    ensures
        ({
            let scoped = scope_roots_spec(*state, roots@, beneath@, roots.len() as int);
            let p = text_opt(selected_project);
            let n = scoped.len() as int;
            let included = included_ids(scoped, p, n);
            match r {
                Ok(t) => {
                    &&& t.direct_assignments == count_decision(scoped, p, ScopeDecision::Direct, n)
                    &&& t.workspace_fallbacks == count_decision(scoped, p, ScopeDecision::WorkspaceFallback, n)
                    &&& t.projectless_exclusions == count_decision(scoped, p, ScopeDecision::ProjectlessExclusion, n)
                    &&& t.other_project_exclusions == count_decision(scoped, p, ScopeDecision::OtherProjectExclusion, n)
                    &&& sorted_views(views(t.thread_ids@))
                    &&& views(t.thread_ids@).to_multiset() == included.to_multiset()
                    &&& required_thread matches Some(q) ==> included.contains(q@)
                },
                Err(ProjectError::ThreadOutsideProject { thread_id, target: t }) => required_thread matches Some(q)
                    && !included.contains(q@) && thread_id@ == q@ && t@ == target@,
                _ => false,
            }
        }),
{
    let scoped = scope_roots(state, roots, beneath);
    let tally = tally_scope(&scoped, selected_project);
    let ghost p = text_opt(selected_project);
    let ghost included = included_ids(scoped@, p, scoped.len() as int);
    assert(p == match selected_project {
        Some(p) => Some(p@),
        None => None,
    });
    if let Some(q) = required_thread {
        let found = contains_text(&tally.thread_ids, q);
        proof {
            let ids = views(tally.thread_ids@);
            ids.to_multiset_ensures();
            included.to_multiset_ensures();
            assert(ids.contains(q@) == (ids.to_multiset().count(q@) > 0));
            assert(included.contains(q@) == (included.to_multiset().count(q@) > 0));
        }
        if !found {
            return Err(ProjectError::ThreadOutsideProject {
                thread_id: String::from_str(q),
                target: String::from_str(target),
            });
        }
    }
    Ok(tally)
}

/// How a report on one starting directory treats a root task.
#[derive(Clone, Copy, Debug, PartialEq, Eq, Structural)]
pub enum CwdDecision {
    /// Started there, but assigned to a project: excluded.
    OtherProject,
    /// Started there and marked projectless: included.
    Projectless,
    /// Started there, unassigned: included.
    Workspace,
    /// Started elsewhere.
    Elsewhere,
}

/// How a report on directory `cwd` treats a root task.
pub open spec fn cwd_decision(state: DesktopState, root: RolloutRecord, cwd: Seq<char>) -> CwdDecision {
    if !(root.cwd matches Some(c) && c@ == cwd) {
        CwdDecision::Elsewhere
    } else if first_key(text_keys(state.assignments@), root.id@) is Some {
        CwdDecision::OtherProject
    } else if views(state.projectless@).contains(root.id@) {
        CwdDecision::Projectless
    } else {
        CwdDecision::Workspace
    }
}

/// How many of the first `n` root tasks get decision `d`.
pub open spec fn count_cwd(state: DesktopState, roots: Seq<RolloutRecord>, cwd: Seq<char>, d: CwdDecision, n: int) -> nat
    decreases n,
{
    if n <= 0 {
        0
    } else {
        count_cwd(state, roots, cwd, d, n - 1) + if cwd_decision(state, roots[n - 1], cwd) == d {
            1nat
        } else {
            0nat
        }
    }
}

/// The ids of the first `n` root tasks that a report on directory `cwd`
/// includes, in order.
pub open spec fn cwd_included(state: DesktopState, roots: Seq<RolloutRecord>, cwd: Seq<char>, n: int) -> Seq<Seq<char>>
    decreases n,
{
    if n <= 0 {
        Seq::<Seq<char>>::empty()
    } else {
        let d = cwd_decision(state, roots[n - 1], cwd);
        if d == CwdDecision::Projectless || d == CwdDecision::Workspace {
            cwd_included(state, roots, cwd, n - 1).push(roots[n - 1].id@)
        } else {
            cwd_included(state, roots, cwd, n - 1)
        }
    }
}

proof fn lemma_count_cwd_bound(state: DesktopState, roots: Seq<RolloutRecord>, cwd: Seq<char>, d: CwdDecision, n: int)
    requires
        0 <= n,
    ensures
        count_cwd(state, roots, cwd, d, n) <= n,
    decreases n,
{
    if n > 0 {
        lemma_count_cwd_bound(state, roots, cwd, d, n - 1);
    }
}

/// The tallies of a report on one starting directory, and the ids of the
/// tasks it includes, sorted.
pub struct CwdTally {
    pub other_project_exclusions: usize,
    pub projectless_threads: usize,
    pub workspace_fallbacks: usize,
    pub thread_ids: Vec<String>,
}

/// Tallies a report on the tasks started in directory `cwd` (see
/// `cwd_decision`).
pub fn tally_cwd_scope(state: &DesktopState, roots: &[RolloutRecord], cwd: &str) -> (r: CwdTally)
    ensures
        ({
            let n = roots.len() as int;
            &&& r.other_project_exclusions == count_cwd(*state, roots@, cwd@, CwdDecision::OtherProject, n)
            &&& r.projectless_threads == count_cwd(*state, roots@, cwd@, CwdDecision::Projectless, n)
            &&& r.workspace_fallbacks == count_cwd(*state, roots@, cwd@, CwdDecision::Workspace, n)
            &&& sorted_views(views(r.thread_ids@))
            &&& views(r.thread_ids@).to_multiset() == cwd_included(*state, roots@, cwd@, n).to_multiset()
        }),
{
    let mut other: usize = 0;
    let mut projectless: usize = 0;
    let mut workspace: usize = 0;
    let mut ids: Vec<String> = Vec::new();
    let mut i: usize = 0;
    while i < roots.len()
        invariant
            i <= roots.len(),
            other == count_cwd(*state, roots@, cwd@, CwdDecision::OtherProject, i as int),
            projectless == count_cwd(*state, roots@, cwd@, CwdDecision::Projectless, i as int),
            workspace == count_cwd(*state, roots@, cwd@, CwdDecision::Workspace, i as int),
            views(ids@) == cwd_included(*state, roots@, cwd@, i as int),
        decreases roots.len() - i,
    {
        proof {
            lemma_count_cwd_bound(*state, roots@, cwd@, CwdDecision::OtherProject, i as int);
            lemma_count_cwd_bound(*state, roots@, cwd@, CwdDecision::Projectless, i as int);
            lemma_count_cwd_bound(*state, roots@, cwd@, CwdDecision::Workspace, i as int);
        }
        let root = &roots[i];
        let same = match &root.cwd {
            Some(c) => str_eq(c.as_str(), cwd),
            None => false,
        };
        if same {
            let assigned = find_text_key(&state.assignments, root.id.as_str()).is_some();
            if assigned {
                other = other + 1;
            } else if contains_text(&state.projectless, root.id.as_str()) {
                projectless = projectless + 1;
                ids.push(root.id.clone());
                assert(views(ids@) =~= cwd_included(*state, roots@, cwd@, i as int).push(roots@[i as int].id@));
            } else {
                workspace = workspace + 1;
                ids.push(root.id.clone());
                assert(views(ids@) =~= cwd_included(*state, roots@, cwd@, i as int).push(roots@[i as int].id@));
            }
        }
        i += 1;
    }
    sort_strings(&mut ids);
    CwdTally {
        other_project_exclusions: other,
        projectless_threads: projectless,
        workspace_fallbacks: workspace,
        thread_ids: ids,
    }
}

/// A name that does not contain the reference matches it only when the
/// edit distance is at most one, or at most a fifth of the longer byte
/// length: five times the distance may not exceed the longer length.
pub proof fn lemma_fifth_of_longer(reference: Seq<char>, candidate: Seq<char>)
    ensures
        ({
            let longer = if byte_len(reference) >= byte_len(candidate) {
                byte_len(reference)
            } else {
                byte_len(candidate)
            };
            let d = levenshtein_spec(reference, candidate);
            reference.len() > 0 && !contains_chars(candidate, reference) && byte_len(reference) < usize::MAX
                && byte_len(candidate) < usize::MAX ==> (confident_match(reference, candidate) <==> (d <= 1 || 5
                * d <= longer))
        }),
{
    let longer = if byte_len(reference) >= byte_len(candidate) {
        byte_len(reference)
    } else {
        byte_len(candidate)
    };
    let d = levenshtein_spec(reference, candidate);
    assert(d <= longer / 5 <==> 5 * d <= longer) by (nonlinear_arith);
}

/// A name that contains the whole (non-empty) reference always matches it,
/// wherever the reference stands in the name; an empty reference matches
/// nothing.
pub proof fn lemma_contained_reference_matches(reference: Seq<char>, before: Seq<char>, after: Seq<char>)
    ensures
        reference.len() > 0 ==> confident_match(reference, before + reference + after),
        !confident_match(Seq::empty(), before),
{
    let name = before + reference + after;
    assert(name.subrange(before.len() as int, (before.len() + reference.len()) as int) =~= reference);
    assert(occurs_at(name, reference, before.len() as int));
}

} // verus!
