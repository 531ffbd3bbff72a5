//! Table formatting: turns flattened pipe-delimited row text into a bordered
//! grid. Each column is as wide as its widest cell; shorter cells are padded
//! with spaces; a separator line follows the header row and stands between
//! consecutive data rows, but not after the last row.

use vstd::prelude::*;
use crate::boundary::find_pat_from;
use crate::boundary::lemma_find_pat_props;
use crate::boundary::find_pat;
use crate::chars::chars_to_string;
use crate::chars::push_all;
use crate::chars::push_repeat;
use crate::chars::repeat_char;
use crate::chars::str_to_chars;
use crate::chars::trim_chars;
use crate::chars::trim_spec;
use crate::chars::vec_subrange;
use crate::sanitize::lines_spec;
use crate::sanitize::split_lines;

verus! {

/// The cells of one flattened row from index `i` on: split at every pipe,
/// each cell trimmed.
pub open spec fn cells_from(l: Seq<char>, i: int) -> Seq<Seq<char>>
    decreases l.len() - i,
    when 0 <= i <= l.len()
    via cells_from_dec
{
    match find_pat_from(l, seq!['|'], i) {
        Some(e) => seq![trim_spec(l.subrange(i, e))] + cells_from(l, e + 1),
        None => seq![trim_spec(l.subrange(i, l.len() as int))],
    }
}

#[via_fn]
proof fn cells_from_dec(l: Seq<char>, i: int) {
    lemma_find_pat_props(l, seq!['|'], i);
}

/// The cells of one flattened row.
pub open spec fn split_cells(l: Seq<char>) -> Seq<Seq<char>> {
    cells_from(l, 0)
}

/// The table's rows from line `i` on: blank lines are skipped, every other
/// line is split into trimmed cells.
pub open spec fn rows_from(ls: Seq<Seq<char>>, i: int) -> Seq<Seq<Seq<char>>>
    decreases ls.len() - i,
    when 0 <= i
{
    if i >= ls.len() {
        Seq::empty()
    } else if trim_spec(ls[i]).len() == 0 {
        rows_from(ls, i + 1)
    } else {
        seq![split_cells(ls[i])] + rows_from(ls, i + 1)
    }
}

/// The width of column `c`: the length of the widest cell in that column,
/// or zero where no row reaches it.
pub open spec fn col_width(rows: Seq<Seq<Seq<char>>>, c: int) -> int
    decreases rows.len(),
{
    if rows.len() == 0 {
        0
    } else {
        let rest = col_width(rows.drop_last(), c);
        let own: int = if 0 <= c < rows.last().len() {
            rows.last()[c].len() as int
        } else {
            0
        };
        if own > rest {
            own
        } else {
            rest
        }
    }
}

/// The number of columns: the cell count of the widest row.
pub open spec fn num_cols(rows: Seq<Seq<Seq<char>>>) -> int
    decreases rows.len(),
{
    if rows.len() == 0 {
        0
    } else {
        let rest = num_cols(rows.drop_last());
        if rows.last().len() > rest {
            rows.last().len() as int
        } else {
            rest
        }
    }
}

pub proof fn lemma_num_cols_nonneg(rows: Seq<Seq<Seq<char>>>)
    ensures
        num_cols(rows) >= 0,
    decreases rows.len(),
{
    if rows.len() > 0 {
        lemma_num_cols_nonneg(rows.drop_last());
    }
}

pub proof fn lemma_col_width_nonneg(rows: Seq<Seq<Seq<char>>>, c: int)
    ensures
        col_width(rows, c) >= 0,
    decreases rows.len(),
{
    if rows.len() > 0 {
        lemma_col_width_nonneg(rows.drop_last(), c);
    }
}

pub proof fn lemma_col_width_beyond(rows: Seq<Seq<Seq<char>>>, c: int)
    requires
        c >= num_cols(rows),
    ensures
        col_width(rows, c) == 0,
    decreases rows.len(),
{
    if rows.len() > 0 {
        lemma_num_cols_nonneg(rows.drop_last());
        lemma_col_width_beyond(rows.drop_last(), c);
    }
}

/// The widths of all columns, in order.
pub open spec fn widths_of(rows: Seq<Seq<Seq<char>>>) -> Seq<int> {
    Seq::new(num_cols(rows) as nat, |c: int| col_width(rows, c))
}

/// The number of dashes a border draws over a column: its width plus one
/// space of padding on either side.
pub open spec fn dash_count(w: int) -> nat {
    if w >= 0 {
        (w + 2) as nat
    } else {
        2
    }
}

/// The inner part of a border line: a dash run per column, joined by `m`.
pub open spec fn border_mid(widths: Seq<int>, m: char) -> Seq<char>
    decreases widths.len(),
{
    if widths.len() == 0 {
        Seq::empty()
    } else if widths.len() == 1 {
        repeat_char('\u{2500}', dash_count(widths[0]))
    } else {
        border_mid(widths.drop_last(), m) + seq![m] + repeat_char(
            '\u{2500}',
            dash_count(widths.last()),
        )
    }
}

/// A full border line with its corner characters and closing newline.
pub open spec fn border_line(widths: Seq<int>, l: char, m: char, r: char) -> Seq<char> {
    seq![l] + border_mid(widths, m) + seq![r, '\n']
}

/// The width looked up for column `c`, zero where the column is absent.
pub open spec fn width_at(widths: Seq<int>, c: int) -> int {
    if 0 <= c < widths.len() {
        widths[c]
    } else {
        0
    }
}

/// The right padding of a cell rendered at width `w`.
pub open spec fn cell_pad(cell: Seq<char>, w: int) -> nat {
    if w > cell.len() {
        (w - cell.len()) as nat
    } else {
        0
    }
}

/// One rendered cell: a space, the cell text padded to the column width,
/// and a space.
pub open spec fn cell_text(cell: Seq<char>, w: int) -> Seq<char> {
    seq![' '] + cell + repeat_char(' ', cell_pad(cell, w)) + seq![' ']
}

/// The inner part of a data row: rendered cells joined by vertical bars.
pub open spec fn row_mid(row: Seq<Seq<char>>, widths: Seq<int>) -> Seq<char>
    decreases row.len(),
{
    if row.len() == 0 {
        Seq::empty()
    } else if row.len() == 1 {
        cell_text(row[0], width_at(widths, 0))
    } else {
        row_mid(row.drop_last(), widths) + seq!['\u{2502}'] + cell_text(
            row.last(),
            width_at(widths, row.len() - 1),
        )
    }
}

/// A full data-row line.
pub open spec fn row_line(row: Seq<Seq<char>>, widths: Seq<int>) -> Seq<char> {
    seq!['\u{2502}'] + row_mid(row, widths) + seq!['\u{2502}', '\n']
}

/// The separator line drawn after the header and between data rows.
pub open spec fn sep_line(widths: Seq<int>) -> Seq<char> {
    border_line(widths, '\u{251c}', '\u{253c}', '\u{2524}')
}

/// The rendered rows from index `i` on, each followed by a separator when it
/// is the header row or any row but the last.
pub open spec fn rows_out(rows: Seq<Seq<Seq<char>>>, widths: Seq<int>, i: int) -> Seq<char>
    decreases rows.len() - i,
    when 0 <= i
{
    if i >= rows.len() {
        Seq::empty()
    } else {
        row_line(rows[i], widths) + (if i == 0 || i < rows.len() - 1 {
            sep_line(widths)
        } else {
            Seq::empty()
        }) + rows_out(rows, widths, i + 1)
    }
}

/// The whole bordered grid for flattened table text, empty when the text
/// holds no rows.
pub open spec fn table_grid_spec(s: Seq<char>) -> Seq<char> {
    let rows = rows_from(lines_spec(s), 0);
    if rows.len() == 0 {
        Seq::empty()
    } else {
        let widths = widths_of(rows);
        border_line(widths, '\u{250c}', '\u{252c}', '\u{2510}') + rows_out(rows, widths, 0)
            + border_line(widths, '\u{2514}', '\u{2534}', '\u{2518}')
    }
}

pub(crate) fn split_cells_exec(l: &Vec<char>) -> (r: Vec<Vec<char>>)
    ensures
        r.deep_view() == split_cells(l@),
{
    let mut out: Vec<Vec<char>> = Vec::new();
    let mut i: usize = 0;
    let pipe = vec!['|'];
    proof {
        assert(pipe@ =~= seq!['|']);
        assert(out.deep_view() + cells_from(l@, 0) =~= cells_from(l@, 0));
    }
    loop
        invariant
            i <= l.len(),
            pipe@ == seq!['|'],
            split_cells(l@) == out.deep_view() + cells_from(l@, i as int),
        decreases l.len() - i,
    {
        proof {
            lemma_find_pat_props(l@, seq!['|'], i as int);
        }
        let ghost prev = out.deep_view();
        match find_pat(l, &pipe, i) {
            Some(e) => {
                let raw = vec_subrange(l, i, e);
                let cell = trim_chars(&raw);
                out.push(cell);
                proof {
                    assert(out.deep_view() =~~= prev.push(cell@));
                    assert(prev.push(cell@) + cells_from(l@, e + 1 as int) =~= prev + (seq![cell@]
                        + cells_from(l@, e + 1 as int)));
                }
                i = e + 1;
            },
            None => {
                let raw = vec_subrange(l, i, l.len());
                let cell = trim_chars(&raw);
                out.push(cell);
                proof {
                    assert(out.deep_view() =~~= prev.push(cell@));
                    assert(cells_from(l@, i as int) =~= seq![cell@]);
                    assert(prev.push(cell@) =~= prev + seq![cell@]);
                }
                return out;
            },
        }
    }
}

fn collect_rows(lines: &Vec<Vec<char>>) -> (r: Vec<Vec<Vec<char>>>)
    ensures
        r.deep_view() == rows_from(lines.deep_view(), 0),
{
    let ghost all = lines.deep_view();
    let mut out: Vec<Vec<Vec<char>>> = Vec::new();
    let mut i: usize = 0;
    proof {
        assert(out.deep_view() + rows_from(all, 0) =~= rows_from(all, 0));
    }
    while i < lines.len()
        invariant
            i <= lines.len(),
            all == lines.deep_view(),
            rows_from(all, 0) == out.deep_view() + rows_from(all, i as int),
        decreases lines.len() - i,
    {
        proof {
            assert(all[i as int] =~= lines@[i as int]@);
        }
        let ghost prev = out.deep_view();
        let trimmed = trim_chars(&lines[i]);
        if trimmed.len() > 0 {
            let cells = split_cells_exec(&lines[i]);
            out.push(cells);
            proof {
                assert(out.deep_view() =~~= prev.push(cells.deep_view()));
                assert(prev.push(cells.deep_view()) + rows_from(all, i + 1 as int) =~= prev + (seq![
                    cells.deep_view(),
                ] + rows_from(all, i + 1 as int)));
            }
        }
        i += 1;
    }
    proof {
        assert(out.deep_view() + rows_from(all, i as int) =~= out.deep_view());
    }
    out
}

proof fn lemma_col_width_step(rows: Seq<Seq<Seq<char>>>, r: int, c: int)
    requires
        0 <= r < rows.len(),
    ensures
        col_width(rows.take(r + 1), c) == ({
            let rest = col_width(rows.take(r), c);
            let own: int = if 0 <= c < rows[r].len() {
                rows[r][c].len() as int
            } else {
                0
            };
            if own > rest {
                own
            } else {
                rest
            }
        }),
        num_cols(rows.take(r + 1)) == ({
            let rest = num_cols(rows.take(r));
            if rows[r].len() > rest {
                rows[r].len() as int
            } else {
                rest
            }
        }),
{
    assert(rows.take(r + 1).drop_last() =~= rows.take(r));
    assert(rows.take(r + 1).last() == rows[r]);
}

fn compute_widths(rows: &Vec<Vec<Vec<char>>>) -> (w: Vec<usize>)
    ensures
        w@.len() == num_cols(rows.deep_view()),
        forall|c: int| 0 <= c < w@.len() ==> w@[c] as int == col_width(rows.deep_view(), c),
{
    let ghost all = rows.deep_view();
    let mut w: Vec<usize> = Vec::new();
    let mut r: usize = 0;
    proof {
        assert(all.take(0) =~= Seq::<Seq<Seq<char>>>::empty());
    }
    while r < rows.len()
        invariant
            r <= rows.len(),
            all == rows.deep_view(),
            w@.len() == num_cols(all.take(r as int)),
            forall|c: int| 0 <= c < w@.len() ==> w@[c] as int == col_width(all.take(r as int), c),
        decreases rows.len() - r,
    {
        proof {
            assert(all[r as int] =~~= rows@[r as int].deep_view());
            lemma_col_width_step(all, r as int, 0);
        }
        let row = &rows[r];
        let ghost oldw = w@;
        let ghost oldlen = num_cols(all.take(r as int));
        while w.len() < row.len()
            invariant
                all == rows.deep_view(),
                r < rows.len(),
                row@ == rows@[r as int]@,
                oldlen == num_cols(all.take(r as int)),
                forall|t: int| 0 <= t < oldw.len() ==> oldw[t] as int == col_width(
                    all.take(r as int),
                    t,
                ),
                w@.len() >= oldlen,
                w@.len() <= oldlen || w@.len() <= row@.len(),
                oldw.len() == oldlen,
                forall|c: int| 0 <= c < oldw.len() ==> w@[c] == oldw[c],
                forall|c: int| oldw.len() <= c < w@.len() ==> w@[c] == 0,
            decreases row.len() - w.len(),
        {
            w.push(0);
        }
        proof {
            lemma_num_cols_nonneg(all.take(r as int));
            if row@.len() > oldlen {
                assert(w@.len() == row@.len());
            } else {
                assert(w@.len() == oldlen);
            }
        }
        let mut c: usize = 0;
        while c < row.len()
            invariant
                c <= row@.len(),
                row@.len() <= w@.len(),
                all == rows.deep_view(),
                r < rows.len(),
                row@ == rows@[r as int]@,
                oldlen == num_cols(all.take(r as int)),
                forall|t: int| 0 <= t < oldw.len() ==> oldw[t] as int == col_width(
                    all.take(r as int),
                    t,
                ),
                w@.len() == (if row@.len() > oldlen {
                    row@.len() as int
                } else {
                    oldlen
                }),
                oldw.len() == oldlen,
                forall|t: int| 0 <= t < c ==> w@[t] as int == ({
                    let rest = if t < oldlen {
                        oldw[t] as int
                    } else {
                        0
                    };
                    let own: int = if t < all[r as int].len() {
                        all[r as int][t].len() as int
                    } else {
                        0
                    };
                    if own > rest {
                        own
                    } else {
                        rest
                    }
                }),
                forall|t: int| c <= t < oldw.len() ==> w@[t] == oldw[t],
                forall|t: int| c <= t < w@.len() && t >= oldlen ==> w@[t] == 0,
            decreases row.len() - c,
        {
            proof {
                assert(all[r as int] =~~= rows@[r as int].deep_view());
                assert(all[r as int][c as int] =~= row@[c as int]@);
            }
            let cl = row[c].len();
            if cl > w[c] {
                w.set(c, cl);
            }
            c += 1;
        }
        proof {
            let now = all.take(r + 1 as int);
            let before = all.take(r as int);
            assert(all[r as int] =~~= rows@[r as int].deep_view());
            assert(all[r as int].len() == row@.len());
            lemma_num_cols_nonneg(before);
            assert forall|t: int| 0 <= t < w@.len() implies w@[t] as int == col_width(now, t) by {
                lemma_col_width_step(all, r as int, t);
                lemma_col_width_nonneg(before, t);
                let rest = col_width(before, t);
                let own: int = if 0 <= t < all[r as int].len() {
                    all[r as int][t].len() as int
                } else {
                    0
                };
                assert(col_width(now, t) == if own > rest {
                    own
                } else {
                    rest
                });
                if t < oldlen {
                    assert(oldw[t] as int == rest);
                } else {
                    lemma_col_width_beyond(before, t);
                    assert(rest == 0);
                }
                if t < row@.len() {
                    assert(w@[t] as int == ({
                        let rst = if t < oldlen {
                            oldw[t] as int
                        } else {
                            0
                        };
                        let ow: int = if t < all[r as int].len() {
                            all[r as int][t].len() as int
                        } else {
                            0
                        };
                        if ow > rst {
                            ow
                        } else {
                            rst
                        }
                    }));
                } else {
                    assert(own == 0);
                    if t < oldlen {
                        assert(w@[t] == oldw[t]);
                    } else {
                        assert(w@[t] == 0);
                    }
                }
            }
            lemma_col_width_step(all, r as int, 0);
        }
        r += 1;
    }
    proof {
        assert(all.take(all.len() as int) =~= all);
    }
    w
}

fn push_border(
    out: &mut Vec<char>,
    w: &Vec<usize>,
    Ghost(wi): Ghost<Seq<int>>,
    l: char,
    m: char,
    r: char,
)
    requires
        wi.len() == w@.len(),
        forall|c: int| 0 <= c < wi.len() ==> wi[c] == w@[c] as int,
    ensures
        final(out)@ == old(out)@ + border_line(wi, l, m, r),
{
    out.push(l);
    let mut i: usize = 0;
    proof {
        assert(out@ =~= old(out)@ + seq![l] + border_mid(wi.take(0), m));
    }
    while i < w.len()
        invariant
            i <= w.len(),
            wi.len() == w@.len(),
            forall|c: int| 0 <= c < wi.len() ==> wi[c] == w@[c] as int,
            out@ == old(out)@ + seq![l] + border_mid(wi.take(i as int), m),
        decreases w.len() - i,
    {
        let ghost prev = out@;
        if i > 0 {
            out.push(m);
        }
        push_repeat(out, '\u{2500}', w[i]);
        out.push('\u{2500}');
        out.push('\u{2500}');
        proof {
            let dashes = repeat_char('\u{2500}', dash_count(wi[i as int]));
            assert(repeat_char('\u{2500}', w@[i as int] as nat) + seq!['\u{2500}', '\u{2500}'] =~= (
            repeat_char('\u{2500}', w@[i as int] as nat).push('\u{2500}')).push('\u{2500}'));
            assert(dashes =~= repeat_char('\u{2500}', w@[i as int] as nat) + seq![
                '\u{2500}',
                '\u{2500}',
            ]);
            assert(wi.take(i + 1 as int).drop_last() =~= wi.take(i as int));
            assert(wi.take(i + 1 as int).last() == wi[i as int]);
            if i > 0 {
                assert(border_mid(wi.take(i + 1 as int), m) == border_mid(wi.take(i as int), m)
                    + seq![m] + dashes);
                assert(out@ =~= prev + seq![m] + dashes);
                assert(out@ =~= old(out)@ + seq![l] + border_mid(wi.take(i + 1 as int), m));
            } else {
                assert(wi.take(1).len() == 1);
                assert(border_mid(wi.take(1), m) == repeat_char('\u{2500}', dash_count(wi.take(1)[0])));
                assert(out@ =~= prev + dashes);
                assert(border_mid(wi.take(0), m) =~= Seq::<char>::empty());
                assert(out@ =~= old(out)@ + seq![l] + border_mid(wi.take(i + 1 as int), m));
            }
        }
        i += 1;
    }
    out.push(r);
    out.push('\n');
    proof {
        assert(wi.take(wi.len() as int) =~= wi);
        assert(out@ =~= old(out)@ + (seq![l] + border_mid(wi, m) + seq![r, '\n']));
    }
}

fn push_row(out: &mut Vec<char>, row: &Vec<Vec<char>>, w: &Vec<usize>, Ghost(wi): Ghost<Seq<int>>)
    requires
        wi.len() == w@.len(),
        forall|c: int| 0 <= c < wi.len() ==> wi[c] == w@[c] as int,
    ensures
        final(out)@ == old(out)@ + row_line(row.deep_view(), wi),
{
    let ghost rv = row.deep_view();
    out.push('\u{2502}');
    let mut i: usize = 0;
    proof {
        assert(out@ =~= old(out)@ + seq!['\u{2502}'] + row_mid(rv.take(0), wi));
    }
    while i < row.len()
        invariant
            i <= row.len(),
            rv == row.deep_view(),
            wi.len() == w@.len(),
            forall|c: int| 0 <= c < wi.len() ==> wi[c] == w@[c] as int,
            out@ == old(out)@ + seq!['\u{2502}'] + row_mid(rv.take(i as int), wi),
        decreases row.len() - i,
    {
        let ghost prev = out@;
        proof {
            assert(rv[i as int] =~= row@[i as int]@);
        }
        if i > 0 {
            out.push('\u{2502}');
        }
        let cell = &row[i];
        let wc = if i < w.len() {
            w[i]
        } else {
            0
        };
        let pad = if wc > cell.len() {
            wc - cell.len()
        } else {
            0
        };
        out.push(' ');
        push_all(out, cell);
        push_repeat(out, ' ', pad);
        out.push(' ');
        proof {
            let ct = cell_text(rv[i as int], width_at(wi, i as int));
            assert(pad as nat == cell_pad(rv[i as int], width_at(wi, i as int)));
            assert(ct =~= seq![' '] + cell@ + repeat_char(' ', pad as nat) + seq![' ']);
            assert(rv.take(i + 1 as int).drop_last() =~= rv.take(i as int));
            assert(rv.take(i + 1 as int).last() == rv[i as int]);
            if i > 0 {
                assert(row_mid(rv.take(i + 1 as int), wi) == row_mid(rv.take(i as int), wi) + seq![
                    '\u{2502}',
                ] + cell_text(rv[i as int], width_at(wi, i as int)));
                assert(out@ =~= prev + seq!['\u{2502}'] + ct);
                assert(out@ =~= old(out)@ + seq!['\u{2502}'] + row_mid(rv.take(i + 1 as int), wi));
            } else {
                assert(rv.take(1).len() == 1);
                assert(row_mid(rv.take(1), wi) == cell_text(rv.take(1)[0], width_at(wi, 0)));
                assert(out@ =~= prev + ct);
                assert(row_mid(rv.take(0), wi) =~= Seq::<char>::empty());
                assert(out@ =~= old(out)@ + seq!['\u{2502}'] + row_mid(rv.take(i + 1 as int), wi));
            }
        }
        i += 1;
    }
    out.push('\u{2502}');
    out.push('\n');
    proof {
        assert(rv.take(rv.len() as int) =~= rv);
        assert(out@ =~= old(out)@ + (seq!['\u{2502}'] + row_mid(rv, wi) + seq!['\u{2502}', '\n']));
    }
}

/// Table rendering.
pub struct TableRenderer;

impl TableRenderer {
    /// Renders flattened pipe-delimited table text as a bordered grid.
    pub fn render_table(table_md: &str) -> (r: String)
        ensures
            r@ == table_grid_spec(table_md@),
    {
        let chars = str_to_chars(table_md);
        let lines = split_lines(&chars);
        let rows = collect_rows(&lines);
        let ghost rs = rows.deep_view();
        if rows.len() == 0 {
            let empty_out: Vec<char> = Vec::new();
            return chars_to_string(&empty_out);
        }
        let w = compute_widths(&rows);
        let ghost wi = widths_of(rs);
        proof {
            lemma_num_cols_nonneg(rs);
            assert(wi.len() == w@.len());
            assert(forall|c: int| 0 <= c < wi.len() ==> wi[c] == w@[c] as int);
        }
        let mut out: Vec<char> = Vec::new();
        push_border(&mut out, &w, Ghost(wi), '\u{250c}', '\u{252c}', '\u{2510}');
        let ghost top = border_line(wi, '\u{250c}', '\u{252c}', '\u{2510}');
        proof {
            assert(out@ =~= Seq::<char>::empty() + top);
            assert(out@ + rows_out(rs, wi, 0) =~= top + rows_out(rs, wi, 0));
        }
        let mut i: usize = 0;
        while i < rows.len()
            invariant
                i <= rows.len(),
                rs == rows.deep_view(),
                wi.len() == w@.len(),
                forall|c: int| 0 <= c < wi.len() ==> wi[c] == w@[c] as int,
                out@ + rows_out(rs, wi, i as int) == top + rows_out(rs, wi, 0),
            decreases rows.len() - i,
        {
            let ghost prev = out@;
            proof {
                assert(rs[i as int] =~~= rows@[i as int].deep_view());
            }
            push_row(&mut out, &rows[i], &w, Ghost(wi));
            let sep_needed = i == 0 || i < rows.len() - 1;
            if sep_needed {
                push_border(&mut out, &w, Ghost(wi), '\u{251c}', '\u{253c}', '\u{2524}');
            }
            proof {
                let head = row_line(rs[i as int], wi) + (if i == 0 || i < rs.len() - 1 {
                    sep_line(wi)
                } else {
                    Seq::<char>::empty()
                });
                assert(rows_out(rs, wi, i as int) == row_line(rs[i as int], wi) + (if i == 0 || i
                    < rs.len() - 1 {
                    sep_line(wi)
                } else {
                    Seq::<char>::empty()
                }) + rows_out(rs, wi, i + 1 as int));
                assert(out@ =~= prev + head);
                assert(out@ + rows_out(rs, wi, i + 1 as int) =~= prev + rows_out(rs, wi, i as int));
            }
            i += 1;
        }
        push_border(&mut out, &w, Ghost(wi), '\u{2514}', '\u{2534}', '\u{2518}');
        proof {
            assert(rows_out(rs, wi, rs.len() as int) =~= Seq::<char>::empty());
            assert(top + rows_out(rs, wi, 0) + border_line(wi, '\u{2514}', '\u{2534}', '\u{2518}')
                =~= out@);
        }
        chars_to_string(&out)
    }
}

} // verus!
