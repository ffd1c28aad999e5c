//! Text that the platform schedulers receive: quoting, escaping and identifiers.
use vstd::prelude::*;

use crate::title::{all_digits, first_index};
use crate::words::{char_pred, pieces_by, split_on};
use crate::text::{replaced, chars_of, slice_chars, digit, digit_char, decimal, is_control_char, push_decimal, string_of};

verus! {

/// `value` with `&`, `<` and `>` replaced by XML entities.
pub open spec fn xml_escaped(value: Seq<char>) -> Seq<char>
    decreases value.len(),
{
    if value.len() == 0 {
        Seq::empty()
    } else {
        let c = value.last();
        xml_escaped(value.drop_last()) + (if c == '&' {
            "&amp;"@
        } else if c == '<' {
            "&lt;"@
        } else if c == '>' {
            "&gt;"@
        } else {
            seq![c]
        })
    }
}

/// Escapes the characters that XML text cannot hold literally.
pub fn xml_text(value: &str) -> (r: String)
    ensures
        r@ == xml_escaped(value@),
{
    let v = chars_of(value);
    let mut out = String::new();
    let mut i: usize = 0;
    while i < v.len()
        invariant
            i <= v.len(),
            v@ == value@,
            out@ == xml_escaped(v@.take(i as int)),
        decreases v.len() - i,
    {
        assert(v@.take(i + 1).drop_last() =~= v@.take(i as int));
        let c = v[i];
        if c == '&' {
            out.append("&amp;");
        } else if c == '<' {
            out.append("&lt;");
        } else if c == '>' {
            out.append("&gt;");
        } else {
            crate::text::push_char(&mut out, c);
        }
        i += 1;
    }
    assert(v@.take(v.len() as int) =~= value@);
    out
}

/// A runtime as command-line text: whole minutes as `4m`, otherwise seconds.
pub open spec fn runtime_text(seconds: nat) -> Seq<char> {
    if seconds % 60 == 0 {
        decimal(seconds / 60) + seq!['m']
    } else {
        decimal(seconds)
    }
}

/// The `--max-runtime` argument for a runtime in seconds.
pub fn runtime_argument(seconds: u64) -> (r: String)
    ensures
        r@ == runtime_text(seconds as nat),
{
    let mut v: Vec<char> = Vec::new();
    if seconds % 60 == 0 {
        push_decimal(&mut v, seconds / 60);
        v.push('m');
    } else {
        push_decimal(&mut v, seconds);
    }
    assert(v@ =~= runtime_text(seconds as nat));
    string_of(&v)
}

/// The launchd label of the scheduled job.
pub open spec fn launchd_label() -> Seq<char> {
    "io.github.deinspanjer.codex-cost-meter"@
}

/// The launchctl service target for a user id.
pub fn job_target(uid: &str) -> (r: String)
    ensures
        r@ == "gui/"@ + uid@ + seq!['/'] + launchd_label(),
{
    let mut r = String::from_str("gui/");
    r.append(uid);
    r.append("/");
    r.append("io.github.deinspanjer.codex-cost-meter");
    proof {
        reveal_strlit("/");
    }
    r
}

/// The systemd timer unit that runs the service every five minutes.
pub open spec fn timer_unit_text() -> Seq<char> {
    "[Unit]\nDescription=Run Codex Cost Meter every five minutes\n\n[Timer]\nOnActiveSec=0\nOnUnitActiveSec=5min\nUnit=io.github.deinspanjer.codex-cost-meter.service\n\n[Install]\nWantedBy=timers.target\n"@
}

/// The systemd timer unit text.
pub fn timer_unit() -> (r: String)
    ensures
        r@ == timer_unit_text(),
{
    String::from_str(
        "[Unit]\nDescription=Run Codex Cost Meter every five minutes\n\n[Timer]\nOnActiveSec=0\nOnUnitActiveSec=5min\nUnit=io.github.deinspanjer.codex-cost-meter.service\n\n[Install]\nWantedBy=timers.target\n",
    )
}

/// A lower-case hexadecimal digit.
pub open spec fn hex_char(d: nat) -> char {
    if d < 10 {
        digit_char(d)
    } else {
        ((d - 10 + 97) as u32) as char
    }
}

/// `\xNN` for one byte.
pub open spec fn hex_escape(b: nat) -> Seq<char> {
    seq!['\\', 'x', hex_char(b / 16), hex_char(b % 16)]
}

/// The UTF-8 escape of a control character: one byte below U+0080, else C2 and one more.
pub open spec fn control_escape(c: char) -> Seq<char> {
    if (c as u32) < 0x80 {
        hex_escape(c as u32 as nat)
    } else {
        hex_escape(0xc2) + hex_escape(c as u32 as nat)
    }
}

/// How one character is written inside a double-quoted systemd word.
pub open spec fn systemd_char(c: char) -> Seq<char> {
    if c == '\\' {
        seq!['\\', '\\']
    } else if c == '"' {
        seq!['\\', '"']
    } else if c == '$' {
        seq!['$', '$']
    } else if c == '\n' {
        seq!['\\', 'n']
    } else if c == '\r' {
        seq!['\\', 'r']
    } else if c == '\t' {
        seq!['\\', 't']
    } else if is_control_char(c) {
        control_escape(c)
    } else {
        seq![c]
    }
}

/// The escaped body of a systemd double-quoted word.
pub open spec fn systemd_body(value: Seq<char>) -> Seq<char>
    decreases value.len(),
{
    if value.len() == 0 {
        Seq::empty()
    } else {
        systemd_body(value.drop_last()) + systemd_char(value.last())
    }
}

fn hex(d: u32) -> (c: char)
    requires
        d < 16,
    ensures
        c == hex_char(d as nat),
{
    if d < 10 {
        digit(d as u64)
    } else if d == 10 {
        'a'
    } else if d == 11 {
        'b'
    } else if d == 12 {
        'c'
    } else if d == 13 {
        'd'
    } else if d == 14 {
        'e'
    } else {
        'f'
    }
}

fn push_hex_escape(out: &mut Vec<char>, b: u32)
    requires
        b < 256,
    ensures
        final(out)@ == old(out)@ + hex_escape(b as nat),
{
    out.push('\\');
    out.push('x');
    out.push(hex(b / 16));
    out.push(hex(b % 16));
    assert(final(out)@ =~= old(out)@ + hex_escape(b as nat));
}

/// Quotes a value as one systemd `ExecStart=` word.
pub fn systemd_quote(value: &str) -> (r: String)
    ensures
        r@ == seq!['"'] + systemd_body(value@) + seq!['"'],
{
    let v = chars_of(value);
    let mut out: Vec<char> = Vec::new();
    out.push('"');
    let mut i: usize = 0;
    while i < v.len()
        invariant
            i <= v.len(),
            v@ == value@,
            out@ == seq!['"'] + systemd_body(v@.take(i as int)),
        decreases v.len() - i,
    {
        assert(v@.take(i + 1).drop_last() =~= v@.take(i as int));
        let c = v[i];
        let ghost before = out@;
        if c == '\\' {
            out.push('\\');
            out.push('\\');
        } else if c == '"' {
            out.push('\\');
            out.push('"');
        } else if c == '$' {
            out.push('$');
            out.push('$');
        } else if c == '\n' {
            out.push('\\');
            out.push('n');
        } else if c == '\r' {
            out.push('\\');
            out.push('r');
        } else if c == '\t' {
            out.push('\\');
            out.push('t');
        } else if crate::text::char_is_control(c) {
            let u = c as u32;
            if u < 0x80 {
                push_hex_escape(&mut out, u);
            } else {
                push_hex_escape(&mut out, 0xc2);
                push_hex_escape(&mut out, u);
            }
        } else {
            out.push(c);
        }
        assert(out@ =~= before + systemd_char(c));
        i += 1;
    }
    out.push('"');
    assert(v@.take(v.len() as int) =~= value@);
    string_of(&out)
}

/// The text and pending backslash count after quoting `s` for the Windows C runtime.
pub open spec fn quote_state(s: Seq<char>) -> (Seq<char>, nat)
    decreases s.len(),
{
    if s.len() == 0 {
        (Seq::empty(), 0)
    } else {
        let (out, backslashes) = quote_state(s.drop_last());
        let c = s.last();
        if c == '\\' {
            (out, backslashes + 1)
        } else if c == '"' {
            (out + Seq::new(backslashes * 2 + 1, |_i: int| '\\') + seq!['"'], 0)
        } else {
            (out + Seq::new(backslashes, |_i: int| '\\') + seq![c], 0)
        }
    }
}

/// `s` quoted as one argument under the Windows C runtime rules: embedded quotes
/// escaped, backslashes doubled only before a quote or the closing quote.
pub open spec fn windows_quoted(s: Seq<char>) -> Seq<char> {
    let (out, backslashes) = quote_state(s);
    seq!['"'] + out + Seq::new(backslashes * 2, |_i: int| '\\') + seq!['"']
}

fn push_backslashes(out: &mut Vec<char>, n: usize)
    ensures
        final(out)@ == old(out)@ + Seq::new(n as nat, |_i: int| '\\'),
{
    let mut i: usize = 0;
    while i < n
        invariant
            i <= n,
            out@ == old(out)@ + Seq::new(i as nat, |_i: int| '\\'),
        decreases n - i,
    {
        out.push('\\');
        i += 1;
        assert(out@ =~= old(out)@ + Seq::new(i as nat, |_i: int| '\\'));
    }
}

/// Quotes one command-line argument for the Windows C runtime.
pub fn quote_argument(argument: &str) -> (r: String)
    ensures
        r@ == windows_quoted(argument@),
{
    let v = chars_of(argument);
    let mut out: Vec<char> = Vec::new();
    let mut backslashes: usize = 0;
    let mut i: usize = 0;
    while i < v.len()
        invariant
            i <= v.len(),
            v@ == argument@,
            backslashes <= i,
            (out@, backslashes as nat) == quote_state(v@.take(i as int)),
        decreases v.len() - i,
    {
        assert(v@.take(i + 1).drop_last() =~= v@.take(i as int));
        let c = v[i];
        if c == '\\' {
            backslashes += 1;
        } else if c == '"' {
            let ghost before = out@;
            push_backslashes(&mut out, backslashes);
            push_backslashes(&mut out, backslashes);
            out.push('\\');
            out.push('"');
            assert(out@ =~= before + Seq::new(backslashes as nat * 2 + 1, |_i: int| '\\') + seq![
                '"',
            ]);
            backslashes = 0;
        } else {
            push_backslashes(&mut out, backslashes);
            out.push(c);
            backslashes = 0;
        }
        i += 1;
    }
    assert(v@.take(v.len() as int) =~= argument@);
    let mut quoted: Vec<char> = Vec::new();
    quoted.push('"');
    crate::text::extend_chars(&mut quoted, &out);
    let ghost before = quoted@;
    push_backslashes(&mut quoted, backslashes);
    push_backslashes(&mut quoted, backslashes);
    assert(quoted@ =~= before + Seq::new(backslashes as nat * 2, |_i: int| '\\'));
    quoted.push('"');
    string_of(&quoted)
}

/// Bytes read one-to-one as the characters U+0000..=U+00FF.
pub open spec fn latin1(bytes: Seq<u8>) -> Seq<char> {
    bytes.map_values(|b: u8| (b as u32) as char)
}

/// Whether `pat` occurs in `hay` at position `p`.
pub open spec fn occurs_at(hay: Seq<char>, pat: Seq<char>, p: int) -> bool {
    0 <= p && p + pat.len() <= hay.len() && hay.subrange(p, p + pat.len()) == pat
}

/// The first position at which `pat` occurs in `hay`, searching from `from`.
pub open spec fn find_from(hay: Seq<char>, pat: Seq<char>, from: int) -> Option<int>
    decreases hay.len() + 1 - from,
{
    if from < 0 || from + pat.len() > hay.len() {
        None
    } else if occurs_at(hay, pat, from) {
        Some(from)
    } else {
        find_from(hay, pat, from + 1)
    }
}

/// The marker that opens the SID field of `whoami /user /fo csv /nh` output.
pub open spec fn sid_marker() -> Seq<char> {
    seq![',', '"', 'S', '-', '1', '-']
}

/// The SID in the last CSV field of `whoami` output: the quoted field that
/// starts `S-1-`, followed only by line breaks, at most 184 bytes, with every
/// dash-separated part after the first a non-empty run of ASCII digits.
pub open spec fn sid_of(output: Seq<char>) -> Option<Seq<char>> {
    match find_from(output, sid_marker(), 0) {
        None => None,
        Some(p) => {
            let rest = output.skip(p + 2);
            match first_index(rest, '"') {
                None => None,
                Some(e) => {
                    let sid = rest.take(e);
                    let parts = pieces_by(sid, char_pred('-'));
                    if (forall|i: int|
                        e + 1 <= i < rest.len() ==> #[trigger] rest[i] == '\r' || rest[i] == '\n')
                        && sid.len() <= 184 && sid.take(4) == seq!['S', '-', '1', '-'] && (
                    forall|j: int|
                        1 <= j < parts.len() ==> (#[trigger] parts[j]).len() > 0 && all_digits(
                            parts[j],
                        )) {
                        Some(sid)
                    } else {
                        None
                    }
                },
            }
        },
    }
}

fn latin1_chars(bytes: &[u8]) -> (r: Vec<char>)
    ensures
        r@ == latin1(bytes@),
{
    let mut r: Vec<char> = Vec::new();
    let mut i: usize = 0;
    while i < bytes.len()
        invariant
            i <= bytes.len(),
            r@ == latin1(bytes@.take(i as int)),
        decreases bytes.len() - i,
    {
        let c = bytes[i] as char;
        r.push(c);
        assert(latin1(bytes@.take(i + 1)) =~= latin1(bytes@.take(i as int)).push(c));
        i += 1;
    }
    assert(bytes@.take(bytes.len() as int) =~= bytes@);
    r
}

fn occurs_here(hay: &[char], pat: &[char], p: usize) -> (r: bool)
    ensures
        r == occurs_at(hay@, pat@, p as int),
{
    if p > hay.len() || pat.len() > hay.len() - p {
        return false;
    }
    let mut i: usize = 0;
    while i < pat.len()
        invariant
            i <= pat.len(),
            p + pat.len() <= hay.len(),
            forall|j: int| 0 <= j < i ==> hay@[p + j] == pat@[j],
        decreases pat.len() - i,
    {
        if hay[p + i] != pat[i] {
            assert(hay@.subrange(p as int, p + pat.len())[i as int] != pat@[i as int]);
            return false;
        }
        i += 1;
    }
    assert(hay@.subrange(p as int, p + pat.len()) =~= pat@);
    true
}

proof fn lemma_find_from(hay: Seq<char>, pat: Seq<char>, from: int)
    ensures
        find_from(hay, pat, from) matches Some(k) ==> from <= k && occurs_at(hay, pat, k),
    decreases hay.len() + 1 - from,
{
    if !(from < 0 || from + pat.len() > hay.len()) && !occurs_at(hay, pat, from) {
        lemma_find_from(hay, pat, from + 1);
    }
}

/// The first occurrence of `pat` in `hay` at or after `from`.
pub fn find_chars(hay: &[char], pat: &[char], from: usize) -> (r: Option<usize>)
    ensures
        match (r, find_from(hay@, pat@, from as int)) {
            (Some(k), Some(j)) => k as int == j,
            (None, None) => true,
            _ => false,
        },
{
    let mut p = from;
    while p <= hay.len() && pat.len() <= hay.len() - p
        invariant
            from <= p,
            find_from(hay@, pat@, from as int) == find_from(hay@, pat@, p as int),
        decreases hay.len() + 1 - p,
    {
        if occurs_here(hay, pat, p) {
            return Some(p);
        }
        if p == hay.len() {
            assert(find_from(hay@, pat@, p + 1) is None);
            return None;
        }
        p += 1;
    }
    None
}

/// Extracts the current user's SID from `whoami /user /fo csv /nh` output.
#[verifier::loop_isolation(false)]
pub fn extract_sid(output: &[u8]) -> (r: Option<String>)
    ensures
        match (r, sid_of(latin1(output@))) {
            (Some(s), Some(t)) => s@ == t,
            (None, None) => true,
            _ => false,
        },
{
    let hay = latin1_chars(output);
    let mut marker: Vec<char> = Vec::new();
    marker.push(',');
    marker.push('"');
    marker.push('S');
    marker.push('-');
    marker.push('1');
    marker.push('-');
    assert(marker@ =~= sid_marker());
    let p = match find_chars(&hay, &marker, 0) {
        Some(p) => p,
        None => return None,
    };
    proof {
        lemma_find_from(hay@, marker@, 0);
        assert(occurs_at(hay@, marker@, p as int));
        assert(hay@.subrange(p as int, p + 6) == marker@);
        assert(hay@[p + 2] == 'S' && hay@[p + 3] == '-' && hay@[p + 4] == '1' && hay@[p + 5]
            == '-') by {
            assert(hay@.subrange(p as int, p + 6)[2] == hay@[p + 2]);
            assert(hay@.subrange(p as int, p + 6)[3] == hay@[p + 3]);
            assert(hay@.subrange(p as int, p + 6)[4] == hay@[p + 4]);
            assert(hay@.subrange(p as int, p + 6)[5] == hay@[p + 5]);
        }
    }
    let n = hay.len();
    let rest = slice_chars(&hay, p + 2, n);
    assert(rest@ =~= hay@.skip(p + 2));
    let e = match crate::title::first_index_from(&rest, 0, '"') {
        Some(e) => e,
        None => {
            assert(rest@.skip(0) =~= rest@);
            return None;
        },
    };
    assert(rest@.skip(0) =~= rest@);
    proof {
        crate::title::lemma_first_index(rest@, '"');
        assert(rest@[0] == 'S' && rest@[1] == '-' && rest@[2] == '1' && rest@[3] == '-');
        assert(e >= 4);
    }
    let sid = slice_chars(&rest, 0, e);
    assert(sid@ =~= rest@.take(e as int));
    let mut j = e + 1;
    while j < rest.len()
        invariant
            e + 1 <= j <= rest.len(),
            forall|i: int| e + 1 <= i < j ==> #[trigger] rest@[i] == '\r' || rest@[i] == '\n',
        decreases rest.len() - j,
    {
        if rest[j] != '\r' && rest[j] != '\n' {
            return None;
        }
        j += 1;
    }
    if sid.len() > 184 || sid.len() < 4 || sid[0] != 'S' || sid[1] != '-' || sid[2] != '1' || sid[3]
        != '-' {
        assert(sid.len() >= 4 ==> sid@.take(4) == seq![sid@[0], sid@[1], sid@[2], sid@[3]]);
        return None;
    }
    assert(sid@.take(4) =~= seq!['S', '-', '1', '-']);
    let parts = split_on(&sid, '-');
    let mut k: usize = 1;
    while k < parts.len()
        invariant
            1 <= k <= parts.len(),
            parts.len() == pieces_by(sid@, char_pred('-')).len(),
            forall|m: int|
                0 <= m < parts.len() ==> #[trigger] parts@[m]@ == pieces_by(sid@, char_pred('-'))[m],
            forall|m: int|
                1 <= m < k ==> (#[trigger] pieces_by(sid@, char_pred('-'))[m]).len() > 0
                    && all_digits(pieces_by(sid@, char_pred('-'))[m]),
        decreases parts.len() - k,
    {
        let part = &parts[k];
        let ok = part.len() > 0 && crate::title::all_digits_in(part, 0, part.len());
        assert(part@.subrange(0, part.len() as int) =~= part@);
        if !ok {
            assert(parts@[k as int]@ == pieces_by(sid@, char_pred('-'))[k as int]);
            return None;
        }
        k += 1;
    }
    Some(string_of(&sid))
}

/// Reading escaped XML text back: each `&amp;`, `&lt;` and `&gt;` taken
/// from the left stands for `&`, `<` and `>`; any other character for itself.
pub open spec fn xml_unescaped(x: Seq<char>) -> Seq<char>
    decreases x.len(),
{
    if x.len() == 0 {
        x
    } else if x.len() >= 5 && x.take(5) == "&amp;"@ {
        seq!['&'] + xml_unescaped(x.skip(5))
    } else if x.len() >= 4 && x.take(4) == "&lt;"@ {
        seq!['<'] + xml_unescaped(x.skip(4))
    } else if x.len() >= 4 && x.take(4) == "&gt;"@ {
        seq!['>'] + xml_unescaped(x.skip(4))
    } else {
        seq![x[0]] + xml_unescaped(x.drop_first())
    }
}

/// The escape of one character.
pub open spec fn xml_char(c: char) -> Seq<char> {
    if c == '&' {
        "&amp;"@
    } else if c == '<' {
        "&lt;"@
    } else if c == '>' {
        "&gt;"@
    } else {
        seq![c]
    }
}

proof fn lemma_xml_escaped_front(s: Seq<char>)
    requires
        s.len() > 0,
    ensures
        xml_escaped(s) == xml_char(s[0]) + xml_escaped(s.drop_first()),
    decreases s.len(),
{
    if s.len() == 1 {
        assert(s.drop_last() =~= Seq::<char>::empty());
        assert(s.drop_first() =~= Seq::<char>::empty());
        assert(xml_char(s[0]) + Seq::<char>::empty() =~= xml_char(s[0]));
    } else {
        lemma_xml_escaped_front(s.drop_last());
        assert(s.drop_last().drop_first() =~= s.drop_first().drop_last());
        assert(s.drop_first().last() == s.last());
        assert(s.drop_last()[0] == s[0]);
        let c = s.last();
        assert(xml_char(s[0]) + xml_escaped(s.drop_first().drop_last()) + xml_char(c) =~= xml_char(s[0])
            + (xml_escaped(s.drop_first().drop_last()) + xml_char(c)));
    }
}

/// Escaped XML text holds no `<` or `>`, and reading it back gives the
/// original text.
pub proof fn lemma_xml_round_trip(s: Seq<char>)
    ensures
        xml_unescaped(xml_escaped(s)) == s,
        forall|i: int| 0 <= i < xml_escaped(s).len() ==> #[trigger] xml_escaped(s)[i] != '<' && xml_escaped(s)[i] != '>',
    decreases s.len(),
{
    if s.len() == 0 {
        assert(xml_escaped(s) == Seq::<char>::empty());
    } else {
        lemma_xml_escaped_front(s);
        lemma_xml_round_trip(s.drop_first());
        let c = s[0];
        let rest = xml_escaped(s.drop_first());
        let x = xml_char(c) + rest;
        reveal_strlit("&amp;");
        reveal_strlit("&lt;");
        reveal_strlit("&gt;");
        if c == '&' {
            assert(x.take(5) =~= "&amp;"@);
            assert(x.skip(5) =~= rest);
        } else if c == '<' {
            assert(!(x.len() >= 5 && x.take(5) == "&amp;"@)) by {
                if x.len() >= 5 && x.take(5) == "&amp;"@ {
                    assert(x.take(5)[1] == x[1]);
                }
            }
            assert(x.take(4) =~= "&lt;"@);
            assert(x.skip(4) =~= rest);
        } else if c == '>' {
            assert(!(x.len() >= 5 && x.take(5) == "&amp;"@)) by {
                if x.len() >= 5 && x.take(5) == "&amp;"@ {
                    assert(x.take(5)[1] == x[1]);
                }
            }
            assert(!(x.len() >= 4 && x.take(4) == "&lt;"@)) by {
                if x.len() >= 4 && x.take(4) == "&lt;"@ {
                    assert(x.take(4)[1] == x[1]);
                }
            }
            assert(x.take(4) =~= "&gt;"@);
            assert(x.skip(4) =~= rest);
        } else {
            assert(x[0] == c);
            assert(!(x.len() >= 5 && x.take(5) == "&amp;"@)) by {
                if x.len() >= 5 && x.take(5) == "&amp;"@ {
                    assert(x.take(5)[0] == x[0]);
                }
            }
            assert(!(x.len() >= 4 && x.take(4) == "&lt;"@)) by {
                if x.len() >= 4 && x.take(4) == "&lt;"@ {
                    assert(x.take(4)[0] == x[0]);
                }
            }
            assert(!(x.len() >= 4 && x.take(4) == "&gt;"@)) by {
                if x.len() >= 4 && x.take(4) == "&gt;"@ {
                    assert(x.take(4)[0] == x[0]);
                }
            }
            assert(x.drop_first() =~= rest);
        }
        assert(seq![c] + s.drop_first() =~= s);
        assert forall|i: int| 0 <= i < x.len() implies #[trigger] x[i] != '<' && x[i] != '>' by {
            if i >= xml_char(c).len() {
                assert(x[i] == rest[i - xml_char(c).len()]);
            }
        }
    }
}

/// The text of each character of `s` under `f`, one after another.
pub open spec fn char_map(s: Seq<char>, f: spec_fn(char) -> Seq<char>) -> Seq<char>
    decreases s.len(),
{
    if s.len() == 0 {
        Seq::empty()
    } else {
        f(s[0]) + char_map(s.drop_first(), f)
    }
}

/// A character's escape after `&gt;` has been read back.
pub open spec fn xml_char_lt(c: char) -> Seq<char> {
    if c == '&' {
        "&amp;"@
    } else if c == '<' {
        "&lt;"@
    } else {
        seq![c]
    }
}

/// A character's escape after `&gt;` and `&lt;` have been read back.
pub open spec fn xml_char_amp(c: char) -> Seq<char> {
    if c == '&' {
        "&amp;"@
    } else {
        seq![c]
    }
}

proof fn lemma_xml_escaped_map(s: Seq<char>)
    ensures
        xml_escaped(s) == char_map(s, |c: char| xml_char(c)),
    decreases s.len(),
{
    if s.len() > 0 {
        lemma_xml_escaped_front(s);
        lemma_xml_escaped_map(s.drop_first());
    }
}

proof fn lemma_replaced_plain(v: Seq<char>, rest: Seq<char>, pat: Seq<char>, rep: Seq<char>)
    requires
        pat.len() > 0,
        pat[0] == '&',
        forall|i: int| 0 <= i < v.len() ==> v[i] != '&',
    ensures
        replaced(v + rest, pat, rep) == v + replaced(rest, pat, rep),
    decreases v.len(),
{
    if v.len() == 0 {
        assert(v + rest =~= rest);
        assert(v + replaced(rest, pat, rep) =~= replaced(rest, pat, rep));
    } else {
        let x = v + rest;
        let t = v.drop_first();
        assert forall|i: int| 0 <= i < t.len() implies t[i] != '&' by {
            assert(t[i] == v[i + 1]);
        }
        lemma_replaced_plain(t, rest, pat, rep);
        assert(x.drop_first() =~= t + rest);
        assert(x[0] == v[0]);
        if x.len() < pat.len() {
            assert(rest.len() < pat.len());
            assert(replaced(rest, pat, rep) == rest);
            assert(replaced(t + rest, pat, rep) == t + rest);
            assert(x =~= v + rest);
        } else {
            assert(x.take(pat.len() as int)[0] == x[0]);
            assert(x.take(pat.len() as int) != pat);
            assert(seq![v[0]] + (t + replaced(rest, pat, rep)) =~= v + replaced(rest, pat, rep));
        }
    }
}

proof fn lemma_replaced_word(w: Seq<char>, rest: Seq<char>, pat: Seq<char>, rep: Seq<char>)
    requires
        pat.len() >= 2,
        pat[0] == '&',
        w.len() >= 2,
        w[0] == '&',
        w[1] != pat[1],
        forall|i: int| 1 <= i < w.len() ==> w[i] != '&',
    ensures
        replaced(w + rest, pat, rep) == w + replaced(rest, pat, rep),
{
    let x = w + rest;
    let t = w.drop_first();
    assert forall|i: int| 0 <= i < t.len() implies t[i] != '&' by {
        assert(t[i] == w[i + 1]);
    }
    lemma_replaced_plain(t, rest, pat, rep);
    assert(x.drop_first() =~= t + rest);
    if x.len() < pat.len() {
        assert(rest.len() < pat.len());
        assert(replaced(rest, pat, rep) == rest);
    } else {
        assert(x.take(pat.len() as int)[1] == x[1]);
        assert(x.take(pat.len() as int) != pat);
        assert(seq![w[0]] + (t + replaced(rest, pat, rep)) =~= w + replaced(rest, pat, rep));
    }
}

proof fn lemma_replaced_match(rest: Seq<char>, pat: Seq<char>, rep: Seq<char>)
    requires
        pat.len() > 0,
    ensures
        replaced(pat + rest, pat, rep) == rep + replaced(rest, pat, rep),
{
    let x = pat + rest;
    assert(x.take(pat.len() as int) =~= pat);
    assert(x.skip(pat.len() as int) =~= rest);
}

proof fn lemma_read_back_gt(s: Seq<char>)
    ensures
        replaced(char_map(s, |c: char| xml_char(c)), "&gt;"@, ">"@) == char_map(s, |c: char| xml_char_lt(c)),
    decreases s.len(),
{
    reveal_strlit("&gt;");
    reveal_strlit(">");
    reveal_strlit("&amp;");
    reveal_strlit("&lt;");
    if s.len() == 0 {
        assert(replaced(Seq::<char>::empty(), "&gt;"@, ">"@) == Seq::<char>::empty());
    } else {
        lemma_read_back_gt(s.drop_first());
        let c = s[0];
        let rest = char_map(s.drop_first(), |c: char| xml_char(c));
        if c == '&' {
            lemma_replaced_word("&amp;"@, rest, "&gt;"@, ">"@);
        } else if c == '<' {
            lemma_replaced_word("&lt;"@, rest, "&gt;"@, ">"@);
        } else if c == '>' {
            lemma_replaced_match(rest, "&gt;"@, ">"@);
        } else {
            lemma_replaced_plain(seq![c], rest, "&gt;"@, ">"@);
        }
    }
}

proof fn lemma_read_back_lt(s: Seq<char>)
    ensures
        replaced(char_map(s, |c: char| xml_char_lt(c)), "&lt;"@, "<"@) == char_map(s, |c: char| xml_char_amp(c)),
    decreases s.len(),
{
    reveal_strlit("&lt;");
    reveal_strlit("<");
    reveal_strlit("&amp;");
    if s.len() == 0 {
        assert(replaced(Seq::<char>::empty(), "&lt;"@, "<"@) == Seq::<char>::empty());
    } else {
        lemma_read_back_lt(s.drop_first());
        let c = s[0];
        let rest = char_map(s.drop_first(), |c: char| xml_char_lt(c));
        if c == '&' {
            lemma_replaced_word("&amp;"@, rest, "&lt;"@, "<"@);
        } else if c == '<' {
            lemma_replaced_match(rest, "&lt;"@, "<"@);
        } else {
            lemma_replaced_plain(seq![c], rest, "&lt;"@, "<"@);
        }
    }
}

proof fn lemma_read_back_amp(s: Seq<char>)
    ensures
        replaced(char_map(s, |c: char| xml_char_amp(c)), "&amp;"@, "&"@) == s,
    decreases s.len(),
{
    reveal_strlit("&amp;");
    reveal_strlit("&");
    if s.len() == 0 {
        assert(replaced(Seq::<char>::empty(), "&amp;"@, "&"@) == Seq::<char>::empty());
    } else {
        lemma_read_back_amp(s.drop_first());
        let c = s[0];
        let rest = char_map(s.drop_first(), |c: char| xml_char_amp(c));
        if c == '&' {
            lemma_replaced_match(rest, "&amp;"@, "&"@);
        } else {
            lemma_replaced_plain(seq![c], rest, "&amp;"@, "&"@);
        }
        assert(seq![c] + s.drop_first() =~= s);
    }
}

/// Replacing `&gt;` by `>`, then `&lt;` by `<`, then `&amp;` by `&` in
/// escaped XML text (as `str::replace` does) gives the original text back.
pub proof fn lemma_xml_replace_round_trip(s: Seq<char>)
    ensures
        replaced(replaced(replaced(xml_escaped(s), "&gt;"@, ">"@), "&lt;"@, "<"@), "&amp;"@, "&"@) == s,
{
    lemma_xml_escaped_map(s);
    lemma_read_back_gt(s);
    lemma_read_back_lt(s);
    lemma_read_back_amp(s);
}

/// Every `&` in escaped XML text begins `&amp;`, `&lt;` or `&gt;`.
pub proof fn lemma_xml_ampersands(s: Seq<char>)
    ensures
        forall|i: int| 0 <= i < xml_escaped(s).len() && #[trigger] xml_escaped(s)[i] == '&' ==> {
            let rest = xml_escaped(s).skip(i);
            (rest.len() >= 5 && rest.take(5) == "&amp;"@) || (rest.len() >= 4 && rest.take(4) == "&lt;"@)
                || (rest.len() >= 4 && rest.take(4) == "&gt;"@)
        },
    decreases s.len(),
{
    reveal_strlit("&amp;");
    reveal_strlit("&lt;");
    reveal_strlit("&gt;");
    if s.len() > 0 {
        lemma_xml_escaped_front(s);
        lemma_xml_ampersands(s.drop_first());
        let c = s[0];
        let head = xml_char(c);
        let rest = xml_escaped(s.drop_first());
        let x = head + rest;
        assert forall|i: int| 0 <= i < x.len() && #[trigger] x[i] == '&' implies {
            let r = x.skip(i);
            (r.len() >= 5 && r.take(5) == "&amp;"@) || (r.len() >= 4 && r.take(4) == "&lt;"@) || (r.len() >= 4
                && r.take(4) == "&gt;"@)
        } by {
            if i >= head.len() {
                let j = i - head.len();
                assert(x[i] == rest[j]);
                assert(x.skip(i) =~= rest.skip(j));
            } else {
                assert(x[i] == head[i]);
                assert(i == 0);
                if c == '&' {
                    assert(x.skip(0).take(5) =~= "&amp;"@);
                } else if c == '<' {
                    assert(x.skip(0).take(4) =~= "&lt;"@);
                } else {
                    assert(x.skip(0).take(4) =~= "&gt;"@);
                }
            }
        }
    }
}

} // verus!
