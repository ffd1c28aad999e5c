//! Character-level helpers shared by the renderers and parsers.
use vstd::prelude::*;

verus! {

/// Appends one character to a string (`String::push`).
#[verifier::external_body]
pub(crate) fn push_char(s: &mut String, c: char)
    ensures
        final(s)@ == old(s)@.push(c),
{
    s.push(c);
}

/// Unicode general category Cc: U+0000..=U+001F and U+007F..=U+009F.
pub open spec fn is_control_char(c: char) -> bool {
    (c as u32) < 0x20 || (0x7f <= (c as u32) && (c as u32) <= 0x9f)
}

/// The Unicode `White_Space` property.
pub open spec fn is_whitespace_char(c: char) -> bool {
    let u = c as u32;
    (0x09 <= u && u <= 0x0d) || u == 0x20 || u == 0x85 || u == 0xa0 || u == 0x1680 || (0x2000 <= u
        && u <= 0x200a) || u == 0x2028 || u == 0x2029 || u == 0x202f || u == 0x205f || u == 0x3000
}

/// Whether `c` is a control character (`char::is_control`, the general
/// category Cc).
pub(crate) fn char_is_control(c: char) -> (r: bool)
    ensures
        r == is_control_char(c),
{
    let u = c as u32;
    u < 0x20 || (0x7f <= u && u <= 0x9f)
}

/// Whether `c` is whitespace (`char::is_whitespace`, the `White_Space`
/// property).
pub(crate) fn char_is_whitespace(c: char) -> (r: bool)
    ensures
        r == is_whitespace_char(c),
{
    let u = c as u32;
    (0x09 <= u && u <= 0x0d) || u == 0x20 || u == 0x85 || u == 0xa0 || u == 0x1680 || (0x2000 <= u
        && u <= 0x200a) || u == 0x2028 || u == 0x2029 || u == 0x202f || u == 0x205f || u == 0x3000
}

/// An ASCII character.
pub open spec fn is_ascii_char(c: char) -> bool {
    (c as u32) < 0x80
}

/// An ASCII capital letter.
pub open spec fn is_ascii_upper(c: char) -> bool {
    'A' <= c && c <= 'Z'
}

/// An ASCII small letter.
pub open spec fn is_ascii_lower(c: char) -> bool {
    'a' <= c && c <= 'z'
}

/// The ASCII lowercase of a character: capitals become small letters, and
/// every other character stays.
pub open spec fn ascii_lower(c: char) -> char {
    if is_ascii_upper(c) {
        ((c as u32) + 32) as char
    } else {
        c
    }
}

/// The ASCII uppercase of a character: small letters become capitals, and
/// every other character stays.
pub open spec fn ascii_upper(c: char) -> char {
    if is_ascii_lower(c) {
        ((c as u32) - 32) as char
    } else {
        c
    }
}

/// What `char::to_lowercase` yields for a character.
pub uninterp spec fn lowercase_of(c: char) -> Seq<char>;

/// What `char::to_uppercase` yields for a character.
pub uninterp spec fn uppercase_of(c: char) -> Seq<char>;

/// What `char::is_alphanumeric` answers for a character.
pub uninterp spec fn alphanumeric(c: char) -> bool;

/// What `str::to_lowercase` returns for a whole string.
pub uninterp spec fn lowercase_str(s: Seq<char>) -> Seq<char>;

/// `char::to_lowercase`, collected; the result is named by `lowercase_of`.
/// An ASCII character maps to its ASCII lowercase alone (Unicode's mapping
/// there, as std documents for `to_ascii_lowercase`).
#[verifier::external_body]
pub(crate) fn char_lowercase(c: char) -> (v: Vec<char>)
    ensures
        v@ == lowercase_of(c),
        is_ascii_char(c) ==> v@ == seq![ascii_lower(c)],
{
    c.to_lowercase().collect()
}

/// `char::to_uppercase`, collected; the result is named by `uppercase_of`.
/// An ASCII character maps to its ASCII uppercase alone.
#[verifier::external_body]
pub(crate) fn char_uppercase(c: char) -> (v: Vec<char>)
    ensures
        v@ == uppercase_of(c),
        is_ascii_char(c) ==> v@ == seq![ascii_upper(c)],
{
    c.to_uppercase().collect()
}

/// `char::is_alphanumeric`; the answer is named by `alphanumeric`. Among
/// ASCII characters exactly the letters and the digits are alphanumeric.
#[verifier::external_body]
pub(crate) fn char_is_alphanumeric(c: char) -> (r: bool)
    ensures
        r == alphanumeric(c),
        is_ascii_char(c) ==> r == (is_ascii_upper(c) || is_ascii_lower(c) || ('0' <= c && c <= '9')),
{
    c.is_alphanumeric()
}

/// `str::to_lowercase`; the result is named by `lowercase_str`. An ASCII
/// text maps character by character to its ASCII lowercase.
#[verifier::external_body]
pub(crate) fn str_lowercase(s: &str) -> (r: String)
    ensures
        r@ == lowercase_str(s@),
        (forall|i: int| 0 <= i < s@.len() ==> is_ascii_char(#[trigger] s@[i])) ==> r@ == s@.map_values(
            |c: char| ascii_lower(c),
        ),
{
    s.to_lowercase()
}

/// The characters of a string slice, in order.
pub fn chars_of(s: &str) -> (v: Vec<char>)
    ensures
        v@ == s@,
{
    let mut v: Vec<char> = Vec::new();
    for c in it: s.chars()
        invariant
            v@ == it.seq().take(it.index() as int),
    {
        v.push(c);
    }
    v
}

/// A string holding exactly the given characters.
pub fn string_of(v: &[char]) -> (s: String)
    ensures
        s@ == v@,
{
    let mut s = String::new();
    let mut i: usize = 0;
    while i < v.len()
        invariant
            i <= v.len(),
            s@ == v@.take(i as int),
        decreases v.len() - i,
    {
        push_char(&mut s, v[i]);
        assert(v@.take(i as int).push(v@[i as int]) =~= v@.take(i + 1));
        i += 1;
    }
    assert(v@.take(v.len() as int) =~= v@);
    s
}

/// Appends all characters of `extra` to `out`.
pub fn extend_chars(out: &mut Vec<char>, extra: &[char])
    ensures
        final(out)@ == old(out)@ + extra@,
{
    let mut i: usize = 0;
    while i < extra.len()
        invariant
            i <= extra.len(),
            out@ == old(out)@ + extra@.take(i as int),
        decreases extra.len() - i,
    {
        out.push(extra[i]);
        assert(extra@.take(i as int).push(extra@[i as int]) =~= extra@.take(i + 1));
        i += 1;
    }
    assert(extra@.take(extra.len() as int) =~= extra@);
}

/// Appends all characters of a string slice to `out`.
pub fn extend_str(out: &mut Vec<char>, extra: &str)
    ensures
        final(out)@ == old(out)@ + extra@,
{
    let chars = chars_of(extra);
    extend_chars(out, &chars);
}

/// Whether two character sequences are equal.
pub fn chars_equal(a: &[char], b: &[char]) -> (r: bool)
    ensures
        r == (a@ == b@),
{
    if a.len() != b.len() {
        return false;
    }
    let mut i: usize = 0;
    while i < a.len()
        invariant
            i <= a.len(),
            a.len() == b.len(),
            forall|j: int| 0 <= j < i ==> a@[j] == b@[j],
        decreases a.len() - i,
    {
        if a[i] != b[i] {
            return false;
        }
        i += 1;
    }
    assert(a@ =~= b@);
    true
}

/// Whether a character sequence spells the given string slice.
pub fn chars_are(a: &[char], s: &str) -> (r: bool)
    ensures
        r == (a@ == s@),
{
    let b = chars_of(s);
    chars_equal(a, &b)
}

/// The text between replacements for an empty pattern: each character
/// followed by the replacement.
pub open spec fn each_followed(s: Seq<char>, rep: Seq<char>) -> Seq<char>
    decreases s.len(),
{
    if s.len() == 0 {
        Seq::<char>::empty()
    } else {
        seq![s[0]] + rep + each_followed(s.drop_first(), rep)
    }
}

/// `s` with each occurrence of `pat` replaced by `rep`, matches taken from
/// the left without overlap (`str::replace`); an empty pattern matches
/// before every character and at the end.
pub open spec fn replaced(s: Seq<char>, pat: Seq<char>, rep: Seq<char>) -> Seq<char>
    decreases s.len(),
{
    if pat.len() == 0 {
        rep + each_followed(s, rep)
    } else if s.len() < pat.len() {
        s
    } else if s.take(pat.len() as int) == pat {
        rep + replaced(s.skip(pat.len() as int), pat, rep)
    } else {
        seq![s[0]] + replaced(s.drop_first(), pat, rep)
    }
}

/// Replaces every occurrence of `pat` in `s` by `rep` (see `replaced`).
pub fn replace_text(s: &str, pat: &str, rep: &str) -> (r: String)
    ensures
        r@ == replaced(s@, pat@, rep@),
{
    let v = chars_of(s);
    let p = chars_of(pat);
    let n = v.len();
    let m = p.len();
    let mut out: Vec<char> = Vec::new();
    if m == 0 {
        extend_str(&mut out, rep);
        let mut i: usize = 0;
        assert(v@.skip(0) =~= v@);
        while i < n
            invariant
                i <= n,
                n == v.len(),
                v@ == s@,
                rep@ + each_followed(s@, rep@) == out@ + each_followed(v@.skip(i as int), rep@),
            decreases n - i,
        {
            assert(v@.skip(i as int).drop_first() =~= v@.skip(i + 1));
            let ghost before = out@;
            out.push(v[i]);
            extend_str(&mut out, rep);
            assert(out@ =~= before + (seq![v@[i as int]] + rep@));
            i += 1;
        }
        assert(v@.skip(n as int).len() == 0);
        assert(out@ =~= rep@ + each_followed(s@, rep@));
        return string_of(&out);
    }
    let mut i: usize = 0;
    assert(v@.skip(0) =~= v@);
    while i < n
        invariant
            i <= n,
            n == v.len(),
            m == p.len(),
            m > 0,
            v@ == s@,
            p@ == pat@,
            replaced(s@, pat@, rep@) == out@ + replaced(v@.skip(i as int), pat@, rep@),
        decreases n - i,
    {
        let ghost rest = v@.skip(i as int);
        let ghost before = out@;
        if n - i < m {
            extend_chars(&mut out, &slice_chars(&v, i, n));
            assert(v@.subrange(i as int, n as int) =~= rest);
            assert(out@ + replaced(v@.skip(n as int), pat@, rep@) =~= before + replaced(rest, pat@, rep@)) by {
                assert(v@.skip(n as int).len() == 0);
            }
            i = n;
        } else {
            let window = slice_chars(&v, i, i + m);
            assert(window@ =~= rest.take(m as int));
            if chars_equal(&window, &p) {
                extend_str(&mut out, rep);
                assert(rest.skip(m as int) =~= v@.skip(i + m));
                assert(out@ + replaced(v@.skip(i + m), pat@, rep@) =~= before + replaced(rest, pat@, rep@));
                i = i + m;
            } else {
                out.push(v[i]);
                assert(rest.drop_first() =~= v@.skip(i + 1));
                assert(out@ + replaced(v@.skip(i + 1), pat@, rep@) =~= before + replaced(rest, pat@, rep@));
                i = i + 1;
            }
        }
    }
    assert(v@.skip(n as int).len() == 0);
    assert(out@ =~= replaced(s@, pat@, rep@));
    string_of(&out)
}

/// Whether two string slices hold the same characters.
pub fn str_eq(a: &str, b: &str) -> (r: bool)
    ensures
        r == (a@ == b@),
{
    let x = chars_of(a);
    let y = chars_of(b);
    chars_equal(&x, &y)
}

/// The subsequence `v[from..to]`.
pub fn slice_chars(v: &[char], from: usize, to: usize) -> (r: Vec<char>)
    requires
        from <= to <= v.len(),
    ensures
        r@ == v@.subrange(from as int, to as int),
{
    let mut r: Vec<char> = Vec::new();
    let mut i = from;
    while i < to
        invariant
            from <= i <= to,
            to <= v.len(),
            r@ == v@.subrange(from as int, i as int),
        decreases to - i,
    {
        r.push(v[i]);
        assert(v@.subrange(from as int, i as int).push(v@[i as int]) =~= v@.subrange(
            from as int,
            i + 1,
        ));
        i += 1;
    }
    r
}

/// The decimal digit character for `d < 10`.
pub open spec fn digit_char(d: nat) -> char {
    ((d + 48) as u32) as char
}

/// Whether a character is an ASCII decimal digit.
pub open spec fn is_digit(c: char) -> bool {
    '0' <= c && c <= '9'
}

/// The value of an ASCII digit character.
pub open spec fn digit_value(c: char) -> nat {
    ((c as u32) - 48) as nat
}

/// The decimal rendering of a natural number, without leading zeros.
pub open spec fn decimal(n: nat) -> Seq<char>
    decreases n,
{
    if n < 10 {
        seq![digit_char(n)]
    } else {
        decimal(n / 10).push(digit_char(n % 10))
    }
}

/// The exact three-digit rendering of `n < 1000`.
pub open spec fn three_digits(n: nat) -> Seq<char> {
    seq![digit_char(n / 100), digit_char((n / 10) % 10), digit_char(n % 10)]
}

/// The decimal rendering with a comma between groups of three digits.
pub open spec fn grouped(n: nat) -> Seq<char>
    decreases n,
{
    if n < 1000 {
        decimal(n)
    } else {
        grouped(n / 1000) + seq![','] + three_digits(n % 1000)
    }
}

/// The character for a digit value below ten.
pub fn digit(d: u64) -> (c: char)
    requires
        d < 10,
    ensures
        c == digit_char(d as nat),
        is_digit(c),
{
    let u: u32 = (d as u32) + 48;
    assert(u == 48 || u == 49 || u == 50 || u == 51 || u == 52 || u == 53 || u == 54 || u == 55
        || u == 56 || u == 57);
    if d == 0 {
        '0'
    } else if d == 1 {
        '1'
    } else if d == 2 {
        '2'
    } else if d == 3 {
        '3'
    } else if d == 4 {
        '4'
    } else if d == 5 {
        '5'
    } else if d == 6 {
        '6'
    } else if d == 7 {
        '7'
    } else if d == 8 {
        '8'
    } else {
        '9'
    }
}

/// Appends the decimal rendering of `n` to `out` (`u64::to_string`).
pub fn push_decimal(out: &mut Vec<char>, n: u64)
    ensures
        final(out)@ == old(out)@ + decimal(n as nat),
    decreases n,
{
    if n >= 10 {
        push_decimal(out, n / 10);
    }
    let c = digit(n % 10);
    out.push(c);
    assert(old(out)@ + decimal(n as nat) =~= (if n >= 10 {
        old(out)@ + decimal((n / 10) as nat)
    } else {
        old(out)@
    }).push(c));
}

/// The decimal rendering of `n`.
pub fn decimal_string(n: u64) -> (s: String)
    ensures
        s@ == decimal(n as nat),
{
    let mut v: Vec<char> = Vec::new();
    push_decimal(&mut v, n);
    assert(v@ =~= decimal(n as nat));
    string_of(&v)
}

/// Appends `n` with thousands separators to `out`.
pub fn push_grouped(out: &mut Vec<char>, n: u64)
    ensures
        final(out)@ == old(out)@ + grouped(n as nat),
    decreases n,
{
    if n < 1000 {
        push_decimal(out, n);
    } else {
        push_grouped(out, n / 1000);
        let r = n % 1000;
        out.push(',');
        out.push(digit(r / 100));
        out.push(digit((r / 10) % 10));
        out.push(digit(r % 10));
        assert(grouped(n as nat) == grouped((n / 1000) as nat) + seq![','] + three_digits(
            (n % 1000) as nat,
        ));
        assert(old(out)@ + grouped(n as nat) =~= old(out)@ + grouped((n / 1000) as nat)
            + seq![','] + three_digits((n % 1000) as nat));
    }
}

/// A sequence with trailing `White_Space` characters removed (`str::trim_end`).
pub open spec fn trim_end_spec(s: Seq<char>) -> Seq<char>
    decreases s.len(),
{
    if s.len() > 0 && is_whitespace_char(s.last()) {
        trim_end_spec(s.drop_last())
    } else {
        s
    }
}

/// A sequence with leading `White_Space` characters removed (`str::trim_start`).
pub open spec fn trim_start_spec(s: Seq<char>) -> Seq<char>
    decreases s.len(),
{
    if s.len() > 0 && is_whitespace_char(s[0]) {
        trim_start_spec(s.drop_first())
    } else {
        s
    }
}

/// A sequence with leading and trailing `White_Space` removed (`str::trim`).
pub open spec fn trim_spec(s: Seq<char>) -> Seq<char> {
    trim_end_spec(trim_start_spec(s))
}

/// Length of `s` once trailing whitespace is removed.
pub fn trim_end_len(s: &[char], n: usize) -> (k: usize)
    requires
        n <= s.len(),
    ensures
        k <= n,
        s@.take(k as int) == trim_end_spec(s@.take(n as int)),
    decreases n,
{
    if n > 0 && char_is_whitespace(s[n - 1]) {
        assert(s@.take(n as int).drop_last() =~= s@.take(n - 1));
        trim_end_len(s, n - 1)
    } else {
        n
    }
}

/// Number of leading whitespace characters of `s[from..]`.
pub fn trim_start_from(s: &[char], from: usize) -> (k: usize)
    requires
        from <= s.len(),
    ensures
        from <= k <= s.len(),
        s@.skip(k as int) == trim_start_spec(s@.skip(from as int)),
    decreases s.len() - from,
{
    if from < s.len() && char_is_whitespace(s[from]) {
        assert(s@.skip(from as int).drop_first() =~= s@.skip(from + 1));
        trim_start_from(s, from + 1)
    } else {
        if from == s.len() {
            assert(s@.skip(from as int).len() == 0);
        }
        from
    }
}

/// `s` without trailing whitespace.
pub fn trim_end_chars(s: &[char]) -> (r: Vec<char>)
    ensures
        r@ == trim_end_spec(s@),
{
    let k = trim_end_len(s, s.len());
    assert(s@.take(s.len() as int) =~= s@);
    slice_chars(s, 0, k)
}

/// `s` without leading or trailing whitespace.
pub fn trim_chars(s: &[char]) -> (r: Vec<char>)
    ensures
        r@ == trim_spec(s@),
{
    let start = trim_start_from(s, 0);
    assert(s@.skip(0) =~= s@);
    let rest = slice_chars(s, start, s.len());
    assert(rest@ =~= s@.skip(start as int));
    trim_end_chars(&rest)
}

} // verus!
