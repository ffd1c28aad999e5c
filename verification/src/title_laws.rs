//! What the title rules promise across calls: the suffix that `compose`
//! writes is the one `strip_canonical_suffix` and `matches_suffix` read back,
//! and composing a composed title again changes nothing.
use vstd::prelude::*;

use crate::text::{decimal, digit_char, grouped, is_digit, is_whitespace_char, three_digits, trim_end_spec};
use crate::words::{char_pred, join, pieces_by};
use crate::title::{
    compose_spec, TitleFailure,
    last_sep, lemma_last_sep, sep_at, strip_spec, suffix_of, title_sep, trailing_metrics,
    canonical, saturating_sum, segment, Metric, TitleStats,
    cost_segment, cost_text, first_group, grouped_integer, last_index,
    all_digits, compact, compact_token, divisor_of, first_index, lemma_first_index, scaled, tenths_of, unit_of,
};

verus! {

/// Every digit value renders as an ASCII digit, and no two values share one.
pub proof fn lemma_digit_char(d: nat)
    requires
        d < 10,
    ensures
        is_digit(digit_char(d)),
        digit_char(d) as u32 == d + 48,
        digit_char(d) != '.' && digit_char(d) != ',' && digit_char(d) != '·' && digit_char(d) != '+',
        digit_char(d) != 'K' && digit_char(d) != 'M' && digit_char(d) != 'B',
        (digit_char(d) == '0') == (d == 0),
{
}

/// Whether `c` can stand in a rendered number: a digit, a comma or a point.
pub open spec fn number_char(c: char) -> bool {
    is_digit(c) || c == ',' || c == '.'
}

/// What a decimal rendering looks like: digits only, at least one, the
/// first not zero unless the value is, and as long as the value is large.
pub proof fn lemma_decimal(n: nat)
    ensures
        decimal(n).len() >= 1,
        forall|i: int| 0 <= i < decimal(n).len() ==> is_digit(#[trigger] decimal(n)[i]),
        (decimal(n)[0] == '0') == (n == 0),
        n == 0 ==> decimal(n) == seq!['0'],
        n < 10 ==> decimal(n).len() == 1,
        n < 100 ==> decimal(n).len() <= 2,
        n < 1000 ==> decimal(n).len() <= 3,
    decreases n,
{
    if n < 10 {
        lemma_digit_char(n);
    } else {
        lemma_decimal(n / 10);
        lemma_digit_char(n % 10);
        let d = decimal(n / 10);
        assert(decimal(n) == d.push(digit_char(n % 10)));
        assert forall|i: int| 0 <= i < decimal(n).len() implies is_digit(#[trigger] decimal(n)[i]) by {
            if i < d.len() {
                assert(decimal(n)[i] == d[i]);
            }
        }
        assert(decimal(n)[0] == d[0]);
    }
}

/// What a grouped rendering looks like: digits and commas only, at least
/// one character, and the first not zero unless the value is.
pub proof fn lemma_grouped(n: nat)
    ensures
        grouped(n).len() >= 1,
        forall|i: int| 0 <= i < grouped(n).len() ==> #[trigger] grouped(n)[i] == ',' || is_digit(grouped(n)[i]),
        (grouped(n)[0] == '0') == (n == 0),
    decreases n,
{
    if n < 1000 {
        lemma_decimal(n);
    } else {
        lemma_grouped(n / 1000);
        let g = grouped(n / 1000);
        let t = three_digits(n % 1000);
        lemma_digit_char((n % 1000) / 100);
        lemma_digit_char(((n % 1000) / 10) % 10);
        lemma_digit_char((n % 1000) % 10);
        assert(grouped(n) == g + seq![','] + t);
        assert forall|i: int| 0 <= i < grouped(n).len() implies #[trigger] grouped(n)[i] == ',' || is_digit(
            grouped(n)[i],
        ) by {
            if i < g.len() {
                assert(grouped(n)[i] == g[i]);
            } else if i > g.len() {
                assert(grouped(n)[i] == t[i - g.len() - 1]);
            }
        }
        assert(grouped(n)[0] == g[0]);
    }
}

/// The largest token count below which every compact rendering reads back:
/// from 999.95 billion on, the billions take four digits.
pub open spec fn compact_limit() -> nat {
    999_950_000_000
}

/// A character that occurs at `e` and nowhere before is found there first.
proof fn lemma_first_at(s: Seq<char>, c: char, e: int)
    requires
        0 <= e < s.len(),
        s[e] == c,
        forall|i: int| 0 <= i < e ==> s[i] != c,
    ensures
        first_index(s, c) == Some(e),
{
    lemma_first_index(s, c);
    if let Some(f) = first_index(s, c) {
        if f < e {
            assert(s[f] != c);
        } else if f > e {
            assert(s[e] != c);
        }
    }
}

/// A scaled rendering whose tenths stay below ten thousand at its level
/// reads back as a compact token.
proof fn lemma_scaled_token(tokens: nat, level: nat)
    requires
        level <= 2,
        10 <= tenths_of(tokens, level) < 10_000,
    ensures
        scaled(tokens, level) == ({
            let tenths = tenths_of(tokens, level);
            decimal(tenths / 10) + (if tenths % 10 == 0 {
                Seq::<char>::empty()
            } else {
                seq!['.', digit_char(tenths % 10)]
            }) + seq![unit_of(level)]
        }),
        compact_token(scaled(tokens, level)),
{
    let tenths = tenths_of(tokens, level);
    let whole = tenths / 10;
    let part = tenths % 10;
    let d = decimal(whole);
    lemma_decimal(whole);
    let value = scaled(tokens, level);
    let number = value.drop_last();
    assert(value.last() == unit_of(level));
    if part == 0 {
        assert(number =~= d);
        lemma_first_index(number, '.');
        if let Some(k) = first_index(number, '.') {
            assert(is_digit(number[k]));
        }
        assert(all_digits(number));
    } else {
        lemma_digit_char(part);
        assert(number =~= d + seq!['.', digit_char(part)]);
        assert forall|i: int| 0 <= i < d.len() implies number[i] != '.' by {
            assert(number[i] == d[i]);
            assert(is_digit(d[i]));
        }
        lemma_first_at(number, '.', d.len() as int);
        assert(number.take(d.len() as int) =~= d);
        assert(number.skip(d.len() as int + 1) =~= seq![digit_char(part)]);
        assert(all_digits(d));
        assert(d != seq!['0']);
        assert(seq![digit_char(part)][0] != seq!['0'][0]);
    }
}

/// Every compact rendering below the limit reads back as a compact token.
pub proof fn lemma_compact_token(tokens: nat)
    requires
        tokens < compact_limit(),
    ensures
        compact_token(compact(tokens)),
{
    if tokens < 1_000 {
        let d = decimal(tokens);
        lemma_decimal(tokens);
        lemma_first_index(d, '.');
        if let Some(k) = first_index(d, '.') {
            assert(is_digit(d[k]));
        }
        assert(all_digits(d));
        assert(!(d.len() > 0 && (d.last() == 'K' || d.last() == 'M' || d.last() == 'B'))) by {
            assert(is_digit(d[d.len() - 1]));
        }
        if tokens != 0 {
            assert(d != seq!['0']);
        }
    } else if tokens >= 1_000_000_000 {
        assert(10 <= tenths_of(tokens, 2) < 10_000);
        lemma_scaled_token(tokens, 2);
    } else if tokens >= 1_000_000 {
        if tenths_of(tokens, 1) >= 10_000 {
            assert(tokens * 10 + 500_000 >= 10_000_000_000) by (nonlinear_arith)
                requires
                    (tokens * 10 + 500_000) / 1_000_000 >= 10_000,
            ;
            assert(10 <= tenths_of(tokens, 2) < 10_000);
            lemma_scaled_token(tokens, 2);
        } else {
            lemma_scaled_token(tokens, 1);
        }
    } else {
        if tenths_of(tokens, 0) >= 10_000 {
            assert(10 <= tenths_of(tokens, 1) < 10_000);
            lemma_scaled_token(tokens, 1);
        } else {
            lemma_scaled_token(tokens, 0);
        }
    }
}

/// Splitting text that ends in a piece without separators extends the last
/// piece by it.
proof fn lemma_pieces_append(s: Seq<char>, t: Seq<char>, sep: spec_fn(char) -> bool)
    requires
        forall|i: int| 0 <= i < t.len() ==> !sep(#[trigger] t[i]),
    ensures
        ({
            let p = pieces_by(s, sep);
            pieces_by(s + t, sep) == p.update(p.len() - 1, p.last() + t)
        }),
    decreases t.len(),
{
    crate::words::lemma_pieces_nonempty(s, sep);
    let p = pieces_by(s, sep);
    if t.len() == 0 {
        assert(s + t =~= s);
        assert(p.last() + t =~= p.last());
        assert(p.update(p.len() - 1, p.last()) =~= p);
    } else {
        let u = t.drop_last();
        assert forall|i: int| 0 <= i < u.len() implies !sep(#[trigger] u[i]) by {
            assert(u[i] == t[i]);
        }
        lemma_pieces_append(s, u, sep);
        assert((s + t).drop_last() =~= s + u);
        assert((s + t).last() == t.last());
        assert(!sep(t[t.len() - 1]));
        let q = pieces_by(s + u, sep);
        assert(q == p.update(p.len() - 1, p.last() + u));
        assert(q.last() == p.last() + u);
        assert(q.update(q.len() - 1, q.last().push(t.last())) =~= p.update(p.len() - 1, p.last() + t)) by {
            assert((p.last() + u).push(t.last()) =~= p.last() + t);
        }
    }
}

/// The leading group of a grouped rendering: the value itself below a
/// thousand, else the leading group of its thousands.
pub open spec fn leading_group(n: nat) -> nat
    decreases n,
{
    if n < 1000 {
        n
    } else {
        leading_group(n / 1000)
    }
}

/// How a grouped rendering splits at its commas: the leading group first,
/// then groups of three digits.
proof fn lemma_grouped_pieces(n: nat)
    ensures
        ({
            let g = pieces_by(grouped(n), char_pred(','));
            &&& g.len() >= 1
            &&& g[0] == decimal(leading_group(n))
            &&& leading_group(n) < 1000
            &&& (leading_group(n) == 0) == (n == 0)
            &&& forall|i: int| 1 <= i < g.len() ==> (#[trigger] g[i]).len() == 3 && all_digits(g[i])
        }),
    decreases n,
{
    let sep = char_pred(',');
    if n < 1000 {
        let d = decimal(n);
        lemma_decimal(n);
        assert forall|i: int| 0 <= i < d.len() implies !sep(#[trigger] d[i]) by {
            assert(is_digit(d[i]));
        }
        lemma_pieces_append(Seq::<char>::empty(), d, sep);
        assert(Seq::<char>::empty() + d =~= d);
        assert(pieces_by(Seq::<char>::empty(), sep) == seq![Seq::<char>::empty()]);
        assert(seq![Seq::<char>::empty()].update(0, Seq::<char>::empty() + d) =~= seq![d]);
    } else {
        lemma_grouped_pieces(n / 1000);
        let g = grouped(n / 1000);
        let r = n % 1000;
        let t = three_digits(r);
        lemma_digit_char(r / 100);
        lemma_digit_char((r / 10) % 10);
        lemma_digit_char(r % 10);
        let p = pieces_by(g, sep);
        let with_comma = g.push(',');
        assert(with_comma.drop_last() =~= g);
        let q = pieces_by(with_comma, sep);
        assert(q == p.push(Seq::<char>::empty()));
        assert forall|i: int| 0 <= i < t.len() implies !sep(#[trigger] t[i]) by {}
        lemma_pieces_append(with_comma, t, sep);
        assert(grouped(n) =~= with_comma + t);
        let all = pieces_by(grouped(n), sep);
        assert(all =~= p.push(t)) by {
            assert(q.update(q.len() - 1, q.last() + t) =~= p.push(t)) by {
                assert(Seq::<char>::empty() + t =~= t);
            }
        }
        assert(all[0] == p[0]);
        assert forall|i: int| 1 <= i < all.len() implies (#[trigger] all[i]).len() == 3 && all_digits(all[i]) by {
            if i < p.len() {
                assert(all[i] == p[i]);
            } else {
                assert(all[i] == t);
            }
        }
    }
}

/// Every grouped rendering reads back as a grouped integer.
pub proof fn lemma_grouped_integer(n: nat)
    ensures
        grouped_integer(grouped(n)),
{
    lemma_grouped_pieces(n);
    let lead = leading_group(n);
    lemma_decimal(lead);
    lemma_grouped(n);
    let g = pieces_by(grouped(n), char_pred(','));
    let first = g[0];
    assert(all_digits(first));
    if first == seq!['0'] {
        assert(decimal(lead)[0] == '0');
        assert(n == 0);
        assert(grouped(0) == decimal(0));
        assert(!grouped(n).contains(',')) by {
            if grouped(n).contains(',') {
                let i = choose|i: int| 0 <= i < grouped(n).len() && grouped(n)[i] == ',';
                assert(grouped(n) == seq!['0']);
            }
        }
    }
    assert(first_group(grouped(n), first));
}

/// Every rendered cost reads back as a cost segment.
pub proof fn lemma_cost_segment(cents: nat, incomplete: bool)
    ensures
        cost_segment(cost_text(cents, incomplete)),
{
    let w = cents / 100;
    let g = grouped(w);
    let d1 = digit_char((cents % 100) / 10);
    let d2 = digit_char(cents % 10);
    lemma_digit_char((cents % 100) / 10);
    lemma_digit_char(cents % 10);
    lemma_grouped(w);
    lemma_grouped_integer(w);
    let seg = cost_text(cents, incomplete);
    let amount = g + seq!['.', d1, d2];
    let v = seg.drop_first();
    if incomplete {
        assert(v =~= amount.push('+'));
        assert(v.drop_last() =~= amount);
    } else {
        assert(v =~= amount);
    }
    assert(amount.drop_last() =~= g + seq!['.', d1]);
    assert(amount.drop_last().drop_last() =~= g + seq!['.']);
    assert(last_index(amount.drop_last().drop_last(), '.') == Some(g.len() as int));
    assert(last_index(amount.drop_last(), '.') == Some(g.len() as int));
    assert(last_index(amount, '.') == Some(g.len() as int));
    assert(amount.skip(g.len() as int + 1) =~= seq![d1, d2]);
    assert(amount.take(g.len() as int) =~= g);
    assert(all_digits(seq![d1, d2]));
}

/// Token counts small enough that every token segment reads back.
pub open spec fn stats_in_range(stats: TitleStats) -> bool {
    stats.input_tokens + stats.output_tokens < compact_limit()
}

/// Whether `c` can stand in a rendered segment.
pub open spec fn segment_char(c: char) -> bool {
    number_char(c) || c == '$' || c == '+' || c == 'K' || c == 'M' || c == 'B' || c == '⇄' || c == '⇥' || c == '↦'
}

proof fn lemma_compact_chars(tokens: nat)
    requires
        tokens < compact_limit(),
    ensures
        compact(tokens).len() >= 1,
        forall|i: int| 0 <= i < compact(tokens).len() ==> segment_char(#[trigger] compact(tokens)[i]),
{
    if tokens < 1_000 {
        lemma_decimal(tokens);
    } else {
        let level: nat = if tokens >= 1_000_000_000 {
            2
        } else if tokens >= 1_000_000 {
            if tenths_of(tokens, 1) >= 10_000 {
                assert(tokens * 10 + 500_000 >= 10_000_000_000) by (nonlinear_arith)
                    requires
                        (tokens * 10 + 500_000) / 1_000_000 >= 10_000,
                ;
                2
            } else {
                1
            }
        } else if tenths_of(tokens, 0) >= 10_000 {
            1
        } else {
            0
        };
        assert(10 <= tenths_of(tokens, level) < 10_000);
        assert(compact(tokens) == scaled(tokens, level));
        lemma_scaled_token(tokens, level);
        let tenths = tenths_of(tokens, level);
        let d = decimal(tenths / 10);
        lemma_decimal(tenths / 10);
        lemma_digit_char(tenths % 10);
        let c = compact(tokens);
        assert forall|i: int| 0 <= i < c.len() implies segment_char(#[trigger] c[i]) by {
            if i < d.len() {
                assert(c[i] == d[i]);
            }
        }
    }
}

/// Every metric's segment reads back as that metric, is not empty, and is
/// made of segment characters only.
pub proof fn lemma_segment(m: Metric, stats: TitleStats)
    requires
        stats_in_range(stats),
    ensures
        canonical(segment(m, stats)) == Some(m),
        segment(m, stats).len() >= 1,
        forall|i: int| 0 <= i < segment(m, stats).len() ==> segment_char(#[trigger] segment(m, stats)[i]),
{
    let seg = segment(m, stats);
    match m {
        Metric::Cost => {
            lemma_cost_segment(stats.cost_cents as nat, !stats.cost_complete);
            let w = stats.cost_cents as nat / 100;
            lemma_grouped(w);
            lemma_digit_char(((stats.cost_cents as nat) % 100) / 10);
            lemma_digit_char((stats.cost_cents as nat) % 10);
            let g = grouped(w);
            assert forall|i: int| 0 <= i < seg.len() implies segment_char(#[trigger] seg[i]) by {
                if 1 <= i < g.len() + 1 {
                    assert(seg[i] == g[i - 1]);
                }
            }
        },
        _ => {
            let tokens: nat = match m {
                Metric::TotalTokens => saturating_sum(stats.input_tokens, stats.output_tokens),
                Metric::InputTokens => stats.input_tokens as nat,
                _ => stats.output_tokens as nat,
            };
            let mark = seg[0];
            lemma_compact_token(tokens);
            lemma_compact_chars(tokens);
            let c = compact(tokens);
            assert(seg == seq![mark] + c);
            assert(seg.drop_first() =~= c);
            assert(!cost_segment(seg));
            assert forall|i: int| 0 <= i < seg.len() implies segment_char(#[trigger] seg[i]) by {
                if i >= 1 {
                    assert(seg[i] == c[i - 1]);
                }
            }
        },
    }
}

/// The separator at `p` is the last one before `n` when none follows it.
proof fn lemma_last_sep_is(t: Seq<char>, p: int, n: int)
    requires
        0 <= p < n <= t.len(),
        sep_at(t, p),
        forall|j: int| p < j < n ==> !#[trigger] sep_at(t, j),
    ensures
        last_sep(t, n) == Some(p),
    decreases n - p,
{
    if n - 1 > p {
        lemma_last_sep_is(t, p, n - 1);
    }
}

/// A canonical segment after a separator is stripped, and its metric read.
proof fn lemma_strip_one(p: Seq<char>, seg: Seq<char>, m: Metric)
    requires
        canonical(seg) == Some(m),
        forall|i: int| 0 <= i < seg.len() ==> segment_char(#[trigger] seg[i]),
    ensures
        strip_spec(p + title_sep() + seg) == strip_spec(p),
        trailing_metrics(p + title_sep() + seg) == trailing_metrics(p).push(m),
{
    let t = p + title_sep() + seg;
    let q = p.len() as int;
    assert(sep_at(t, q));
    assert forall|j: int| q < j < t.len() implies !#[trigger] sep_at(t, j) by {
        if sep_at(t, j) {
            if j + 1 == q + 2 {
                assert(t[j + 1] == ' ');
            } else {
                assert(t[j + 1] == seg[j + 1 - q - 3]);
                assert(segment_char(seg[j + 1 - q - 3]));
            }
        }
    }
    lemma_last_sep_is(t, q, t.len() as int);
    assert(t.skip(q + 3) =~= seg);
    assert(t.take(q) =~= p);
}

/// Stripping text followed by ` · ` and canonical segments gives back what
/// stripping the text gives, and the segments' metrics are read after the
/// text's own.
pub proof fn lemma_strip_join(x: Seq<char>, segs: Seq<Seq<char>>, ms: Seq<Metric>)
    requires
        segs.len() == ms.len(),
        segs.len() >= 1,
        forall|i: int| 0 <= i < segs.len() ==> canonical(#[trigger] segs[i]) == Some(ms[i]),
        forall|i: int, j: int| 0 <= i < segs.len() && 0 <= j < segs[i].len() ==> segment_char(#[trigger] segs[i][j]),
    ensures
        strip_spec(x + title_sep() + join(segs, title_sep())) == strip_spec(x),
        trailing_metrics(x + title_sep() + join(segs, title_sep())) == trailing_metrics(x) + ms,
    decreases segs.len(),
{
    let n = segs.len() as int;
    let last = segs[n - 1];
    assert(canonical(last) == Some(ms[n - 1]));
    assert forall|i: int| 0 <= i < last.len() implies segment_char(#[trigger] last[i]) by {
        assert(segment_char(segs[n - 1][i]));
    }
    if n == 1 {
        assert(join(segs, title_sep()) == segs[0]);
        lemma_strip_one(x, last, ms[0]);
        assert(trailing_metrics(x) + ms =~= trailing_metrics(x).push(ms[0]));
    } else {
        let init = segs.drop_last();
        let mi = ms.drop_last();
        assert forall|i: int| 0 <= i < init.len() implies canonical(#[trigger] init[i]) == Some(mi[i]) by {
            assert(init[i] == segs[i]);
        }
        assert forall|i: int, j: int| 0 <= i < init.len() && 0 <= j < init[i].len() implies segment_char(
            #[trigger] init[i][j],
        ) by {
            assert(init[i] == segs[i]);
        }
        lemma_strip_join(x, init, mi);
        let p = x + title_sep() + join(init, title_sep());
        assert(join(segs, title_sep()) == join(init, title_sep()) + title_sep() + last);
        assert(x + title_sep() + join(segs, title_sep()) =~= p + title_sep() + last);
        lemma_strip_one(p, last, ms[n - 1]);
        assert(trailing_metrics(x) + ms =~= (trailing_metrics(x) + mi).push(ms[n - 1]));
    }
}

/// The suffix that `compose` writes is the one that is read back: after any
/// text, ` · ` and the suffix of a non-empty metric list are stripped
/// entirely, and read as exactly those metrics after the text's own.
pub proof fn lemma_suffix_round_trip(x: Seq<char>, metrics: Seq<Metric>, stats: TitleStats)
    requires
        metrics.len() >= 1,
        stats_in_range(stats),
    ensures
        strip_spec(x + title_sep() + suffix_of(metrics, stats)) == strip_spec(x),
        trailing_metrics(x + title_sep() + suffix_of(metrics, stats)) == trailing_metrics(x) + metrics,
{
    let segs = metrics.map_values(|m: Metric| segment(m, stats));
    assert(suffix_of(metrics, stats) == join(segs, title_sep()));
    assert forall|i: int| 0 <= i < segs.len() implies canonical(#[trigger] segs[i]) == Some(metrics[i]) by {
        lemma_segment(metrics[i], stats);
    }
    assert forall|i: int, j: int| 0 <= i < segs.len() && 0 <= j < segs[i].len() implies segment_char(
        #[trigger] segs[i][j],
    ) by {
        lemma_segment(metrics[i], stats);
    }
    lemma_strip_join(x, segs, metrics);
}

/// Trimming the end twice trims no more, and never lengthens.
proof fn lemma_trim_end(s: Seq<char>)
    ensures
        trim_end_spec(trim_end_spec(s)) == trim_end_spec(s),
        trim_end_spec(s).len() <= s.len(),
        trim_end_spec(s).len() > 0 ==> !is_whitespace_char(trim_end_spec(s).last()),
    decreases s.len(),
{
    if s.len() > 0 && is_whitespace_char(s.last()) {
        lemma_trim_end(s.drop_last());
    }
}

/// Where the last occurrence of a character is.
proof fn lemma_last_index(s: Seq<char>, c: char)
    ensures
        last_index(s, c) matches Some(e) ==> 0 <= e < s.len() && s[e] == c && forall|i: int|
            e < i < s.len() ==> s[i] != c,
        last_index(s, c) is None ==> forall|i: int| 0 <= i < s.len() ==> s[i] != c,
    decreases s.len(),
{
    if s.len() > 0 && s.last() != c {
        lemma_last_index(s.drop_last(), c);
        assert forall|i: int| 0 <= i < s.len() - 1 implies s[i] == s.drop_last()[i] by {}
    }
}

/// No segment that reads back ends in `…`.
proof fn lemma_canonical_end(seg: Seq<char>)
    requires
        seg.len() == 0 || seg.last() == '…',
    ensures
        canonical(seg) is None,
{
    if seg.len() > 0 {
        let v = seg.drop_first();
        if v.len() > 0 {
            assert(v.last() == '…');
            lemma_last_index(v, '.');
            if let Some(k) = last_index(v, '.') {
                let cents = v.skip(k + 1);
                if cents.len() == 2 {
                    assert(cents[1] == v.last());
                    assert(!is_digit(cents[1]));
                }
            }
            lemma_first_index(v, '.');
            if first_index(v, '.') is None && v.len() > 0 {
                assert(!is_digit(v[v.len() - 1]));
            }
        }
    }
}

/// Composing a title that compose made, with the same metrics and counts,
/// gives it back unchanged, so rerunning an update changes no title. This
/// holds whenever the base kept from the first title does not itself end in
/// a metric segment (it can, when whitespace hid one from stripping).
pub proof fn lemma_compose_idempotent(width: nat, metrics: Seq<Metric>, title: Seq<char>, stats: TitleStats)
    requires
        metrics.len() >= 1,
        stats_in_range(stats),
        compose_spec(width, metrics, title, stats) is Ok,
        strip_spec(trim_end_spec(strip_spec(title))) == trim_end_spec(strip_spec(title)),
    ensures
        compose_spec(width, metrics, compose_spec(width, metrics, title, stats)->Ok_0, stats) == compose_spec(
            width,
            metrics,
            title,
            stats,
        ),
{
    let c = compose_spec(width, metrics, title, stats)->Ok_0;
    let suffix = suffix_of(metrics, stats);
    let reserved = suffix.len() + 3;
    let base = trim_end_spec(strip_spec(title));
    let available = (width - reserved) as nat;
    lemma_trim_end(strip_spec(title));
    if base.len() <= available {
        assert(c == base + title_sep() + suffix);
        lemma_suffix_round_trip(base, metrics, stats);
        assert(trim_end_spec(strip_spec(c)) == base);
    } else {
        let truncated = trim_end_spec(base.take(available - 1));
        lemma_trim_end(base.take(available - 1));
        let kept = truncated + seq!['…'];
        assert(c == kept + title_sep() + suffix);
        lemma_suffix_round_trip(kept, metrics, stats);
        lemma_last_sep(kept, kept.len() as int);
        if let Some(k) = last_sep(kept, kept.len() as int) {
            let seg = kept.skip(k + 3);
            if seg.len() > 0 {
                assert(seg.last() == kept.last());
            }
            lemma_canonical_end(seg);
        }
        assert(strip_spec(kept) == kept);
        assert(!is_whitespace_char('…'));
        assert(kept.drop_last() =~= truncated);
        assert(trim_end_spec(kept) == kept);
    }
}

/// Stripping never lengthens a title.
proof fn lemma_strip_len(t: Seq<char>)
    ensures
        strip_spec(t).len() <= t.len(),
    decreases t.len(),
{
    lemma_last_sep(t, t.len() as int);
    if let Some(k) = last_sep(t, t.len() as int) {
        if canonical(t.skip(k + 3)) is Some {
            lemma_strip_len(t.take(k));
        }
    }
}

/// A title that stripping leaves alone carries no metric segments.
proof fn lemma_unstripped(t: Seq<char>)
    requires
        strip_spec(t) == t,
    ensures
        trailing_metrics(t) == Seq::<Metric>::empty(),
{
    lemma_last_sep(t, t.len() as int);
    if let Some(k) = last_sep(t, t.len() as int) {
        if canonical(t.skip(k + 3)) is Some {
            lemma_strip_len(t.take(k));
            assert(strip_spec(t) == strip_spec(t.take(k)));
        }
    }
}

/// A title that compose made carries exactly the format's metrics, so the
/// next update recognizes it as current; under the same condition as
/// `lemma_compose_idempotent`.
pub proof fn lemma_compose_recognized(width: nat, metrics: Seq<Metric>, title: Seq<char>, stats: TitleStats)
    requires
        metrics.len() >= 1,
        stats_in_range(stats),
        compose_spec(width, metrics, title, stats) is Ok,
        strip_spec(trim_end_spec(strip_spec(title))) == trim_end_spec(strip_spec(title)),
    ensures
        trailing_metrics(compose_spec(width, metrics, title, stats)->Ok_0) == metrics,
{
    let c = compose_spec(width, metrics, title, stats)->Ok_0;
    let suffix = suffix_of(metrics, stats);
    let reserved = suffix.len() + 3;
    let base = trim_end_spec(strip_spec(title));
    let available = (width - reserved) as nat;
    if base.len() <= available {
        lemma_suffix_round_trip(base, metrics, stats);
        lemma_unstripped(base);
        assert(Seq::<Metric>::empty() + metrics =~= metrics);
    } else {
        let truncated = trim_end_spec(base.take(available - 1));
        let kept = truncated + seq!['…'];
        lemma_suffix_round_trip(kept, metrics, stats);
        lemma_last_sep(kept, kept.len() as int);
        if let Some(k) = last_sep(kept, kept.len() as int) {
            let seg = kept.skip(k + 3);
            if seg.len() > 0 {
                assert(seg.last() == kept.last());
            }
            lemma_canonical_end(seg);
        }
        assert(trailing_metrics(kept) == Seq::<Metric>::empty());
        assert(Seq::<Metric>::empty() + metrics =~= metrics);
    }
}

/// `s` with its commas removed.
pub open spec fn without_commas(s: Seq<char>) -> Seq<char>
    decreases s.len(),
{
    if s.len() == 0 {
        s
    } else if s.last() == ',' {
        without_commas(s.drop_last())
    } else {
        without_commas(s.drop_last()).push(s.last())
    }
}

proof fn lemma_without_commas_add(a: Seq<char>, b: Seq<char>)
    ensures
        without_commas(a + b) == without_commas(a) + without_commas(b),
    decreases b.len(),
{
    if b.len() == 0 {
        assert(a + b =~= a);
        assert(without_commas(a) + without_commas(b) =~= without_commas(a));
    } else {
        lemma_without_commas_add(a, b.drop_last());
        assert((a + b).drop_last() =~= a + b.drop_last());
        assert((a + b).last() == b.last());
        if b.last() != ',' {
            assert(without_commas(a) + without_commas(b.drop_last()).push(b.last()) =~= (without_commas(a)
                + without_commas(b.drop_last())).push(b.last()));
        }
    }
}

proof fn lemma_without_commas_digits(s: Seq<char>)
    requires
        forall|i: int| 0 <= i < s.len() ==> is_digit(#[trigger] s[i]),
    ensures
        without_commas(s) == s,
    decreases s.len(),
{
    if s.len() > 0 {
        assert(is_digit(s[s.len() - 1]));
        lemma_without_commas_digits(s.drop_last());
        assert(s.drop_last().push(s.last()) =~= s);
    }
}

proof fn lemma_decimal_split(n: nat)
    requires
        n >= 1000,
    ensures
        decimal(n) == decimal(n / 1000) + three_digits(n % 1000),
{
    assert(n / 10 >= 10 && n / 100 >= 10) by (nonlinear_arith)
        requires
            n >= 1000,
    ;
    assert((n / 10) / 10 == n / 100 && (n / 100) / 10 == n / 1000) by (nonlinear_arith);
    assert((n % 1000) / 100 == (n / 100) % 10 && ((n % 1000) / 10) % 10 == (n / 10) % 10 && (n % 1000) % 10
        == n % 10) by (nonlinear_arith);
    assert(decimal(n) == decimal(n / 10).push(digit_char(n % 10)));
    assert(decimal(n / 10) == decimal(n / 100).push(digit_char((n / 10) % 10)));
    assert(decimal(n / 100) == decimal(n / 1000).push(digit_char((n / 100) % 10)));
    assert(decimal(n) =~= decimal(n / 1000) + three_digits(n % 1000));
}

/// Removing the commas from a count with thousands separators gives its
/// plain decimal text.
pub proof fn lemma_grouped_without_commas(n: nat)
    ensures
        without_commas(grouped(n)) == decimal(n),
    decreases n,
{
    lemma_decimal(n);
    if n < 1000 {
        lemma_without_commas_digits(decimal(n));
    } else {
        lemma_grouped_without_commas(n / 1000);
        let t = three_digits(n % 1000);
        lemma_digit_char((n % 1000) / 100);
        lemma_digit_char(((n % 1000) / 10) % 10);
        lemma_digit_char((n % 1000) % 10);
        assert forall|i: int| 0 <= i < t.len() implies is_digit(#[trigger] t[i]) by {}
        lemma_without_commas_digits(t);
        lemma_without_commas_add(grouped(n / 1000) + seq![','], t);
        lemma_without_commas_add(grouped(n / 1000), seq![',']);
        assert(seq![','].drop_last() =~= Seq::<char>::empty());
        assert(seq![','].last() == ',');
        assert(without_commas(Seq::<char>::empty()) == Seq::<char>::empty());
        assert(without_commas(seq![',']) == without_commas(seq![','].drop_last()));
        assert(without_commas(seq![',']) =~= Seq::<char>::empty());
        assert(without_commas(grouped(n / 1000)) + Seq::<char>::empty() =~= without_commas(grouped(n / 1000)));
        lemma_decimal_split(n);
    }
}

/// A title with no trailing whitespace and no whitespace just before any
/// ` · ` separator.
pub open spec fn plain_title(t: Seq<char>) -> bool {
    &&& t.len() == 0 || !is_whitespace_char(t.last())
    &&& forall|k: int| #[trigger] sep_at(t, k) && k > 0 ==> !is_whitespace_char(t[k - 1])
}

proof fn lemma_strip_is_prefix(t: Seq<char>) -> (j: int)
    ensures
        0 <= j <= t.len(),
        strip_spec(t) == t.take(j),
        j == t.len() || sep_at(t, j),
    decreases t.len(),
{
    lemma_last_sep(t, t.len() as int);
    match last_sep(t, t.len() as int) {
        Some(k) => if canonical(t.skip(k + 3)) is Some {
            let u = t.take(k);
            let j = lemma_strip_is_prefix(u);
            assert(u.take(j) =~= t.take(j));
            if j < u.len() {
                assert(sep_at(t, j));
            } else {
                assert(sep_at(t, k));
            }
            j
        } else {
            assert(t.take(t.len() as int) =~= t);
            t.len() as int
        },
        None => {
            assert(t.take(t.len() as int) =~= t);
            t.len() as int
        },
    }
}

proof fn lemma_strip_idempotent(t: Seq<char>)
    ensures
        strip_spec(strip_spec(t)) == strip_spec(t),
    decreases t.len(),
{
    lemma_last_sep(t, t.len() as int);
    if let Some(k) = last_sep(t, t.len() as int) {
        if canonical(t.skip(k + 3)) is Some {
            lemma_strip_idempotent(t.take(k));
        }
    }
}

/// Composing a composed title again gives it back, for every base title
/// with no trailing whitespace and no whitespace just before a ` · `. The
/// metrics are those of a `TitleFormat`, which always has at least one (its
/// `MetricList` cannot be empty, and `compose` says so).
pub proof fn lemma_compose_idempotent_plain(width: nat, metrics: Seq<Metric>, title: Seq<char>, stats: TitleStats)
    requires
        metrics.len() >= 1,
        stats_in_range(stats),
        compose_spec(width, metrics, title, stats) is Ok,
        plain_title(title),
    ensures
        compose_spec(width, metrics, compose_spec(width, metrics, title, stats)->Ok_0, stats) == compose_spec(
            width,
            metrics,
            title,
            stats,
        ),
        trailing_metrics(compose_spec(width, metrics, title, stats)->Ok_0) == metrics,
{
    let j = lemma_strip_is_prefix(title);
    let st = strip_spec(title);
    if st.len() > 0 {
        if j == title.len() {
            assert(st =~= title);
        } else {
            assert(sep_at(title, j));
            assert(st.last() == title[j - 1]);
        }
        assert(!is_whitespace_char(st.last()));
    }
    assert(trim_end_spec(st) == st);
    lemma_strip_idempotent(title);
    lemma_compose_idempotent(width, metrics, title, stats);
    lemma_compose_recognized(width, metrics, title, stats);
}

} // verus!
