//! Plain-text rendering helpers for human reports and command output.
use vstd::prelude::*;

use crate::text::{
    char_uppercase, chars_of, extend_chars, extend_str, grouped, push_grouped, string_of,
    uppercase_of,
};
use crate::title::{compact, push_compact, strip_canonical_suffix, strip_spec};
use crate::text::{trim_chars, trim_spec};
use crate::discovery::{components_of, path_components, views_of};
use crate::words::{collapse, collapsed, join, lemma_join_push};

verus! {

/// The last named component of a path (`Path::file_name`): none for an empty
/// path, a root, or a path that ends in `..`.
pub open spec fn file_name_spec(p: Seq<char>) -> Option<Seq<char>> {
    let c = path_components(p);
    if c.len() == 0 || c.last().len() == 0 || c.last() == seq!['.', '.'] {
        None
    } else {
        Some(c.last())
    }
}

/// How a project path is shown: its last component, else the whole value,
/// sanitised.
pub fn project_display(value: &str) -> (r: String)
    ensures
        r@ == match file_name_spec(value@) {
            Some(name) => collapsed(name, true),
            None => collapsed(value@, true),
        },
{
    let parts = components_of(value);
    if parts.len() == 0 {
        return safe_text(value);
    }
    let last = &parts[parts.len() - 1];
    let parent_dir = last.len() == 2 && last[0] == '.' && last[1] == '.';
    if last.len() == 0 || parent_dir {
        proof {
            assert(views_of(parts@).last() == last@);
            if parent_dir {
                assert(last@ =~= seq!['.', '.']);
            }
        }
        return safe_text(value);
    }
    proof {
        assert(views_of(parts@).last() == last@);
        assert(last@ != seq!['.', '.']);
    }
    let name = string_of(last);
    safe_text(name.as_str())
}

/// `value` as one safe line: control and whitespace runs become single spaces,
/// and the ends are trimmed.
pub fn sanitize(value: String) -> (r: String)
    ensures
        r@ == collapsed(value@, true),
{
    safe_text(value.as_str())
}

/// `value` as one safe line (see `sanitize`).
pub fn safe_text(value: &str) -> (r: String)
    ensures
        r@ == collapsed(value@, true),
{
    let v = chars_of(value);
    let out = collapse(&v, true);
    string_of(&out)
}

/// A count with thousands separators, such as `15,133`.
pub fn human_number(value: u64) -> (r: String)
    ensures
        r@ == grouped(value as nat),
{
    let mut v: Vec<char> = Vec::new();
    push_grouped(&mut v, value);
    assert(v@ =~= grouped(value as nat));
    string_of(&v)
}

/// A count followed by the singular or plural noun, such as `1 task` or `2 tasks`.
pub fn counted(value: usize, singular: &str, plural: &str) -> (r: String)
    ensures
        r@ == grouped(value as nat) + seq![' '] + (if value == 1 {
            singular@
        } else {
            plural@
        }),
{
    let mut v: Vec<char> = Vec::new();
    push_grouped(&mut v, value as u64);
    v.push(' ');
    if value == 1 {
        extend_str(&mut v, singular);
    } else {
        extend_str(&mut v, plural);
    }
    assert(v@ =~= grouped(value as nat) + seq![' '] + (if value == 1 {
        singular@
    } else {
        plural@
    }));
    string_of(&v)
}

/// `value` with every `_` replaced by a space.
pub open spec fn underscores_spaced(value: Seq<char>) -> Seq<char> {
    value.map_values(|c: char| if c == '_' { ' ' } else { c })
}

/// A rollout type for display: underscores spaced and the first character
/// upper-cased, or `Rollout` for an empty type.
pub open spec fn display_kind_text(value: Seq<char>) -> Seq<char> {
    let spaced = underscores_spaced(value);
    if spaced.len() == 0 {
        "Rollout"@
    } else {
        uppercase_of(spaced[0]) + spaced.drop_first()
    }
}

/// A rollout type as a heading label, such as `Code review`.
pub fn display_kind(value: &str) -> (r: String)
    ensures
        r@ == display_kind_text(value@),
{
    let v = chars_of(value);
    if v.len() == 0 {
        assert(underscores_spaced(value@).len() == 0);
        return String::from_str("Rollout");
    }
    let first = if v[0] == '_' {
        ' '
    } else {
        v[0]
    };
    let mut out = char_uppercase(first);
    let mut i: usize = 1;
    while i < v.len()
        invariant
            1 <= i <= v.len(),
            v@ == value@,
            out@ == uppercase_of(first) + underscores_spaced(v@).subrange(1, i as int),
        decreases v.len() - i,
    {
        let c = if v[i] == '_' {
            ' '
        } else {
            v[i]
        };
        out.push(c);
        assert(underscores_spaced(v@).subrange(1, i + 1) =~= underscores_spaced(v@).subrange(
            1,
            i as int,
        ).push(c));
        i += 1;
    }
    assert(underscores_spaced(v@).subrange(1, v.len() as int) =~= underscores_spaced(
        v@,
    ).drop_first());
    string_of(&out)
}

/// The first eight characters of the safe form of an identifier.
pub fn short_identifier(value: &str) -> (r: String)
    ensures
        r@ == (if collapsed(value@, true).len() <= 8 {
            collapsed(value@, true)
        } else {
            collapsed(value@, true).take(8)
        }),
{
    let v = chars_of(value);
    let safe = collapse(&v, true);
    let n = if safe.len() <= 8 {
        safe.len()
    } else {
        8
    };
    let cut = crate::text::slice_chars(&safe, 0, n);
    assert(safe.len() <= 8 ==> cut@ =~= safe@);
    string_of(&cut)
}

/// The display width of a table cell: its number of characters.
pub fn cell_width(value: &str) -> (r: usize)
    ensures
        r == value@.len(),
{
    chars_of(value).len()
}

/// `yes` or `no`.
pub fn yes_no(value: bool) -> (r: &'static str)
    ensures
        r@ == (if value {
            "yes"@
        } else {
            "no"@
        }),
{
    if value {
        "yes"
    } else {
        "no"
    }
}

/// The compact total with its component in parentheses, such as `12K (2K)`.
pub fn nested_tokens(total: u64, component: u64) -> (r: String)
    ensures
        r@ == compact(total as nat) + seq![' ', '('] + compact(component as nat) + seq![')'],
{
    let mut v: Vec<char> = Vec::new();
    push_compact(&mut v, total);
    v.push(' ');
    v.push('(');
    push_compact(&mut v, component);
    v.push(')');
    assert(v@ =~= compact(total as nat) + seq![' ', '('] + compact(component as nat) + seq![')']);
    string_of(&v)
}

/// A turn count, with the incomplete turns called out when there are any.
pub fn human_turns(turns: usize, incomplete_turns: usize) -> (r: String)
    ensures
        r@ == grouped(turns as nat) + (if incomplete_turns == 0 {
            Seq::<char>::empty()
        } else {
            " ("@ + grouped(incomplete_turns as nat) + " incomplete)"@
        }),
{
    let mut v: Vec<char> = Vec::new();
    push_grouped(&mut v, turns as u64);
    if incomplete_turns != 0 {
        extend_str(&mut v, " (");
        push_grouped(&mut v, incomplete_turns as u64);
        extend_str(&mut v, " incomplete)");
    }
    assert(v@ =~= grouped(turns as nat) + (if incomplete_turns == 0 {
        Seq::<char>::empty()
    } else {
        " ("@ + grouped(incomplete_turns as nat) + " incomplete)"@
    }));
    string_of(&v)
}

/// The header row of a usage table whose first column is `label`.
pub fn stats_headers(label: &str) -> (r: Vec<String>)
    ensures
        r@.len() == 6,
        r@[0]@ == label@,
        r@[1]@ == "Turns"@,
        r@[2]@ == "Input (cached)"@,
        r@[3]@ == "Output (reasoning)"@,
        r@[4]@ == "Turn time"@,
        r@[5]@ == "Est. cost"@,
{
    let mut r: Vec<String> = Vec::new();
    r.push(String::from_str(label));
    r.push(String::from_str("Turns"));
    r.push(String::from_str("Input (cached)"));
    r.push(String::from_str("Output (reasoning)"));
    r.push(String::from_str("Turn time"));
    r.push(String::from_str("Est. cost"));
    r
}

/// The header row of the per-model table.
pub fn model_headers() -> (r: Vec<String>)
    ensures
        r@.len() == 6,
        r@[0]@ == "Model"@,
        r@[1]@ == "Turns"@,
        r@[2]@ == "Input"@,
        r@[3]@ == "Output"@,
        r@[4]@ == "Turn time"@,
        r@[5]@ == "Est. cost"@,
{
    let mut r: Vec<String> = Vec::new();
    r.push(String::from_str("Model"));
    r.push(String::from_str("Turns"));
    r.push(String::from_str("Input"));
    r.push(String::from_str("Output"));
    r.push(String::from_str("Turn time"));
    r.push(String::from_str("Est. cost"));
    r
}

/// The character views of a table's cells.
pub open spec fn cells_of(rows: Seq<Vec<String>>) -> Seq<Seq<Seq<char>>> {
    rows.map_values(|row: Vec<String>| row@.map_values(|cell: String| cell@))
}

/// The widest cell of column `c` among the first `n` rows.
pub open spec fn column_width(cells: Seq<Seq<Seq<char>>>, c: int, n: int) -> nat
    decreases n,
{
    if n <= 0 {
        0
    } else {
        let rest = column_width(cells, c, n - 1);
        let w = cells[n - 1][c].len();
        if w > rest {
            w
        } else {
            rest
        }
    }
}

/// `n` copies of one character.
pub open spec fn repeated(c: char, n: nat) -> Seq<char> {
    Seq::new(n, |_i: int| c)
}

/// A cell padded with spaces to `width` characters.
pub open spec fn padded(cell: Seq<char>, width: nat) -> Seq<char> {
    cell + repeated(' ', if width > cell.len() {
        (width - cell.len()) as nat
    } else {
        0
    })
}

/// Row `r` of a table with `ncols` columns, cells padded and separated by two spaces.
pub open spec fn table_line(cells: Seq<Seq<Seq<char>>>, r: int, ncols: nat) -> Seq<char> {
    join(
        Seq::new(ncols, |c: int| padded(cells[r][c], column_width(cells, c, cells.len() as int))),
        "  "@,
    )
}

/// The dashed rule under the header row.
pub open spec fn table_rule(cells: Seq<Seq<Seq<char>>>, ncols: nat) -> Seq<char> {
    join(Seq::new(ncols, |c: int| repeated('-', column_width(cells, c, cells.len() as int))), "  "@)
}

/// A text table: the first row as a header underlined with dashes, every
/// column padded to its widest cell, each line ending in a newline.
pub open spec fn table_text(cells: Seq<Seq<Seq<char>>>) -> Seq<char> {
    let ncols = if cells.len() == 0 {
        0
    } else {
        cells[0].len()
    };
    join(
        Seq::new(
            cells.len(),
            |r: int|
                if r == 0 {
                    table_line(cells, 0, ncols) + seq!['\n'] + table_rule(cells, ncols)
                } else {
                    table_line(cells, r, ncols)
                },
        ),
        seq!['\n'],
    ) + seq!['\n']
}

fn push_repeated(out: &mut Vec<char>, c: char, n: usize)
    ensures
        final(out)@ == old(out)@ + repeated(c, n as nat),
{
    let mut i: usize = 0;
    while i < n
        invariant
            i <= n,
            out@ == old(out)@ + repeated(c, i as nat),
        decreases n - i,
    {
        out.push(c);
        i += 1;
        assert(out@ =~= old(out)@ + repeated(c, i as nat));
    }
}

fn column_widths(rows: &[Vec<String>], ncols: usize) -> (widths: Vec<usize>)
    requires
        forall|r: int| 0 <= r < rows@.len() ==> #[trigger] rows@[r]@.len() == ncols,
    ensures
        widths@.len() == ncols,
        forall|c: int|
            0 <= c < ncols ==> #[trigger] widths@[c] == column_width(
                cells_of(rows@),
                c,
                rows@.len() as int,
            ),
{
    let ghost cells = cells_of(rows@);
    let mut widths: Vec<usize> = Vec::new();
    let mut c: usize = 0;
    while c < ncols
        invariant
            c <= ncols,
            cells == cells_of(rows@),
            forall|r: int| 0 <= r < rows@.len() ==> #[trigger] rows@[r]@.len() == ncols,
            widths@.len() == c,
            forall|k: int|
                0 <= k < c ==> #[trigger] widths@[k] == column_width(cells, k, rows@.len() as int),
        decreases ncols - c,
    {
        let mut w: usize = 0;
        let mut r: usize = 0;
        while r < rows.len()
            invariant
                r <= rows.len(),
                c < ncols,
                cells == cells_of(rows@),
                forall|q: int| 0 <= q < rows@.len() ==> #[trigger] rows@[q]@.len() == ncols,
                w == column_width(cells, c as int, r as int),
            decreases rows.len() - r,
        {
            let cw = cell_width(rows[r][c].as_str());
            assert(cells[r as int][c as int] == rows@[r as int]@[c as int]@);
            if cw > w {
                w = cw;
            }
            r += 1;
        }
        widths.push(w);
        c += 1;
    }
    widths
}

fn table_line_chars(rows: &[Vec<String>], widths: &Vec<usize>, r: usize, ncols: usize) -> (out:
    Vec<char>)
    requires
        r < rows@.len(),
        rows@[r as int]@.len() == ncols,
        widths@.len() == ncols,
        forall|c: int|
            0 <= c < ncols ==> #[trigger] widths@[c] == column_width(
                cells_of(rows@),
                c,
                rows@.len() as int,
            ),
    ensures
        out@ == table_line(cells_of(rows@), r as int, ncols as nat),
{
    let ghost cells = cells_of(rows@);
    let ghost f = |c: int| padded(cells[r as int][c], column_width(cells, c, cells.len() as int));
    let mut out: Vec<char> = Vec::new();
    let mut c: usize = 0;
    assert(Seq::new(0, f) =~= Seq::<Seq<char>>::empty());
    while c < ncols
        invariant
            c <= ncols,
            r < rows@.len(),
            rows@[r as int]@.len() == ncols,
            widths@.len() == ncols,
            cells == cells_of(rows@),
            f == (|c: int| padded(cells[r as int][c], column_width(cells, c, cells.len() as int))),
            forall|k: int|
                0 <= k < ncols ==> #[trigger] widths@[k] == column_width(
                    cells,
                    k,
                    rows@.len() as int,
                ),
            out@ == join(Seq::new(c as nat, f), "  "@),
        decreases ncols - c,
    {
        let ghost before = Seq::new(c as nat, f);
        assert(Seq::new(c as nat + 1, f) =~= before.push(f(c as int)));
        proof {
            lemma_join_push(before, f(c as int), "  "@);
        }
        if c > 0 {
            extend_str(&mut out, "  ");
        }
        let cell = rows[r][c].as_str();
        let w = cell_width(cell);
        extend_str(&mut out, cell);
        let pad = if widths[c] > w {
            widths[c] - w
        } else {
            0
        };
        push_repeated(&mut out, ' ', pad);
        assert(cells[r as int][c as int] == cell@);
        c += 1;
    }
    out
}

/// Renders rows as an aligned text table; the first row is the header.
pub fn text_table(rows: &[Vec<String>]) -> (r: String)
    requires
        forall|i: int| 0 <= i < rows@.len() ==> #[trigger] rows@[i]@.len() == rows@[0]@.len(),
    ensures
        r@ == table_text(cells_of(rows@)),
{
    let ghost cells = cells_of(rows@);
    let ncols = if rows.len() == 0 {
        0
    } else {
        rows[0].len()
    };
    let widths = column_widths(rows, ncols);
    let ghost g = |i: int|
        if i == 0 {
            table_line(cells, 0, ncols as nat) + seq!['\n'] + table_rule(cells, ncols as nat)
        } else {
            table_line(cells, i, ncols as nat)
        };
    let mut out: Vec<char> = Vec::new();
    let mut i: usize = 0;
    assert(Seq::new(0, g) =~= Seq::<Seq<char>>::empty());
    while i < rows.len()
        invariant
            i <= rows.len(),
            cells == cells_of(rows@),
            ncols == (if rows@.len() == 0 {
                0
            } else {
                rows@[0]@.len()
            }),
            forall|q: int| 0 <= q < rows@.len() ==> #[trigger] rows@[q]@.len() == ncols,
            widths@.len() == ncols,
            forall|c: int|
                0 <= c < ncols ==> #[trigger] widths@[c] == column_width(
                    cells,
                    c,
                    rows@.len() as int,
                ),
            g == (|i: int|
                if i == 0 {
                    table_line(cells, 0, ncols as nat) + seq!['\n'] + table_rule(
                        cells,
                        ncols as nat,
                    )
                } else {
                    table_line(cells, i, ncols as nat)
                }),
            out@ == join(Seq::new(i as nat, g), seq!['\n']),
        decreases rows.len() - i,
    {
        let ghost before = Seq::new(i as nat, g);
        assert(Seq::new(i as nat + 1, g) =~= before.push(g(i as int)));
        proof {
            lemma_join_push(before, g(i as int), seq!['\n']);
        }
        if i > 0 {
            out.push('\n');
        }
        let line = table_line_chars(rows, &widths, i, ncols);
        extend_chars(&mut out, &line);
        if i == 0 {
            out.push('\n');
            let ghost rule_f = |c: int| repeated('-', column_width(cells, c, cells.len() as int));
            let mut c: usize = 0;
            let ghost base = out@;
            assert(Seq::new(0, rule_f) =~= Seq::<Seq<char>>::empty());
            while c < ncols
                invariant
                    c <= ncols,
                    widths@.len() == ncols,
                    cells == cells_of(rows@),
                    rule_f == (|c: int|
                        repeated('-', column_width(cells, c, cells.len() as int))),
                    forall|k: int|
                        0 <= k < ncols ==> #[trigger] widths@[k] == column_width(
                            cells,
                            k,
                            rows@.len() as int,
                        ),
                    out@ == base + join(Seq::new(c as nat, rule_f), "  "@),
                decreases ncols - c,
            {
                let ghost before_rule = Seq::new(c as nat, rule_f);
                assert(Seq::new(c as nat + 1, rule_f) =~= before_rule.push(rule_f(c as int)));
                proof {
                    lemma_join_push(before_rule, rule_f(c as int), "  "@);
                }
                let ghost mid = out@;
                if c > 0 {
                    extend_str(&mut out, "  ");
                }
                push_repeated(&mut out, '-', widths[c]);
                assert(out@ =~= base + join(Seq::new(c as nat + 1, rule_f), "  "@));
                c += 1;
            }
        }
        i += 1;
    }
    out.push('\n');
    string_of(&out)
}

/// How a project path is shown (see `project_display`).
pub open spec fn project_display_text(value: Seq<char>) -> Seq<char> {
    match file_name_spec(value) {
        Some(name) => collapsed(name, true),
        None => collapsed(value, true),
    }
}

/// The name a task report shows: the thread's name without its metrics
/// suffix, sanitised, unless that is blank.
pub open spec fn shown_name(thread_name: Option<Seq<char>>) -> Option<Seq<char>> {
    match thread_name {
        Some(n) => if trim_spec(strip_spec(n)).len() > 0 {
            Some(collapsed(strip_spec(n), true))
        } else {
            None
        },
        None => None,
    }
}

/// The title of a task report: the task's name, else "Unnamed task" for a
/// root task; a task of another kind shows its kind, after its name when
/// it has one.
pub open spec fn report_title_text(kind: Seq<char>, thread_name: Option<Seq<char>>) -> Seq<char> {
    if kind == "root"@ {
        match shown_name(thread_name) {
            Some(n) => n,
            None => "Unnamed task"@,
        }
    } else {
        match shown_name(thread_name) {
            Some(n) => n + " · "@ + display_kind_text(kind),
            None => display_kind_text(kind),
        }
    }
}

/// The second line of a task report: its project, how many rollouts the
/// tree holds, and the model and effort of most turns.
pub open spec fn report_summary_text(
    root: bool,
    project: Option<Seq<char>>,
    model: Option<Seq<char>>,
    effort: Option<Seq<char>>,
    rollout_count: usize,
) -> Seq<char> {
    let place = match project {
        Some(p) => project_display_text(p),
        None => "unknown project"@,
    };
    let m = match model {
        Some(v) => collapsed(v, true),
        None => "unknown"@,
    };
    let e = match effort {
        Some(v) => collapsed(v, true),
        None => "unknown"@,
    };
    place + " · "@ + grouped(rollout_count as nat) + seq![' '] + (if rollout_count == 1 {
        "rollout"@
    } else {
        "rollouts"@
    }) + " · "@ + (if root {
        "Most root turns"@
    } else {
        "Most turns"@
    }) + ": "@ + m + seq!['/'] + e
}

/// The first lines of a task report: its title and short identifier, then
/// its summary line, then a blank line.
pub open spec fn report_heading_text(
    rollout_type: Seq<char>,
    thread_name: Option<Seq<char>>,
    rollout_id: Seq<char>,
    project: Option<Seq<char>>,
    model: Option<Seq<char>>,
    effort: Option<Seq<char>>,
    rollout_count: usize,
) -> Seq<char> {
    let kind = collapsed(rollout_type, true);
    let id = collapsed(rollout_id, true);
    let short = if id.len() <= 8 {
        id
    } else {
        id.take(8)
    };
    report_title_text(kind, thread_name) + " · "@ + short + seq!['\n'] + report_summary_text(
        kind == "root"@,
        project,
        model,
        effort,
        rollout_count,
    ) + seq!['\n', '\n']
}

fn report_title(kind: &str, thread_name: Option<&str>) -> (r: String)
    ensures
        r@ == report_title_text(
            kind@,
            match thread_name {
                Some(t) => Some(t@),
                None => None,
            },
        ),
{
    let root = crate::text::str_eq(kind, "root");
    let name = match thread_name {
        Some(t) => {
            let stripped = strip_canonical_suffix(t);
            let chars = chars_of(stripped.as_str());
            let trimmed = trim_chars(&chars);
            if trimmed.len() > 0 {
                Some(safe_text(stripped.as_str()))
            } else {
                None
            }
        },
        None => None,
    };
    let mut out: Vec<char> = Vec::new();
    if root {
        match &name {
            Some(n) => extend_str(&mut out, n.as_str()),
            None => extend_str(&mut out, "Unnamed task"),
        }
    } else {
        let k = display_kind(kind);
        match &name {
            Some(n) => {
                extend_str(&mut out, n.as_str());
                extend_str(&mut out, " · ");
                extend_str(&mut out, k.as_str());
            },
            None => {
                extend_str(&mut out, k.as_str());
            },
        }
    }
    string_of(&out)
}

#[verifier::rlimit(40)]
fn report_summary(
    root: bool,
    project: Option<&str>,
    model: Option<&str>,
    effort: Option<&str>,
    rollout_count: usize,
) -> (r: String)
    ensures
        r@ == report_summary_text(
            root,
            match project {
                Some(t) => Some(t@),
                None => None,
            },
            match model {
                Some(t) => Some(t@),
                None => None,
            },
            match effort {
                Some(t) => Some(t@),
                None => None,
            },
            rollout_count,
        ),
{
    let mut out: Vec<char> = Vec::new();
    match project {
        Some(p) => {
            let shown = project_display(p);
            extend_str(&mut out, shown.as_str());
        },
        None => extend_str(&mut out, "unknown project"),
    }
    extend_str(&mut out, " · ");
    let count = counted(rollout_count, "rollout", "rollouts");
    extend_str(&mut out, count.as_str());
    extend_str(&mut out, " · ");
    if root {
        extend_str(&mut out, "Most root turns");
    } else {
        extend_str(&mut out, "Most turns");
    }
    extend_str(&mut out, ": ");
    match model {
        Some(m) => {
            let shown = safe_text(m);
            extend_str(&mut out, shown.as_str());
        },
        None => extend_str(&mut out, "unknown"),
    }
    out.push('/');
    match effort {
        Some(e) => {
            let shown = safe_text(e);
            extend_str(&mut out, shown.as_str());
        },
        None => extend_str(&mut out, "unknown"),
    }
    string_of(&out)
}

/// The first lines of a task report (see `report_heading_text`).
pub fn report_heading(
    rollout_type: &str,
    thread_name: Option<&str>,
    rollout_id: &str,
    project: Option<&str>,
    model: Option<&str>,
    effort: Option<&str>,
    rollout_count: usize,
) -> (r: String)
    ensures
        r@ == report_heading_text(
            rollout_type@,
            match thread_name {
                Some(t) => Some(t@),
                None => None,
            },
            rollout_id@,
            match project {
                Some(t) => Some(t@),
                None => None,
            },
            match model {
                Some(t) => Some(t@),
                None => None,
            },
            match effort {
                Some(t) => Some(t@),
                None => None,
            },
            rollout_count,
        ),
{
    let kind = safe_text(rollout_type);
    let root = crate::text::str_eq(kind.as_str(), "root");
    let title = report_title(kind.as_str(), thread_name);
    let short = short_identifier(rollout_id);
    let summary = report_summary(root, project, model, effort, rollout_count);
    let mut out: Vec<char> = Vec::new();
    extend_str(&mut out, title.as_str());
    extend_str(&mut out, " · ");
    extend_str(&mut out, short.as_str());
    out.push('\n');
    extend_str(&mut out, summary.as_str());
    out.push('\n');
    out.push('\n');
    string_of(&out)
}

} // verus!
