//! Buffer sanitization, applied before boundary search on every append:
//! ANSI escape sequences are stripped; stray Unicode box-drawing glyphs are
//! removed unconditionally; when box stripping is enabled, three-line
//! box-drawing banners are additionally converted to level-3 headings;
//! `$$...$$` math spans are replaced with a plain-text placeholder before
//! Markdown parsing.

use vstd::prelude::*;
use crate::boundary::find_pat_from;
use crate::boundary::lemma_find_pat_props;
use crate::boundary::find_pat;
use crate::chars::trim_spec;
use crate::chars::trim_chars;
use crate::chars::push_all;
use crate::chars::vec_subrange;

verus! {

/// A parameter byte of an ANSI escape sequence, `0`..=`?`.
pub open spec fn is_ansi_param(c: char) -> bool {
    '0' <= c && c <= '?'
}

/// An intermediate byte of an ANSI escape sequence, space..=`/`.
pub open spec fn is_ansi_inter(c: char) -> bool {
    ' ' <= c && c <= '/'
}

/// A final byte of an ANSI escape sequence, `@`..=`~`.
pub open spec fn is_ansi_final(c: char) -> bool {
    '@' <= c && c <= '~'
}

/// The first index at or after `i` holding no parameter byte.
pub open spec fn skip_params(s: Seq<char>, i: int) -> int
    decreases s.len() - i,
    when 0 <= i <= s.len()
{
    if i < s.len() && is_ansi_param(s[i]) {
        skip_params(s, i + 1)
    } else {
        i
    }
}

/// The first index at or after `i` holding no intermediate byte.
pub open spec fn skip_inters(s: Seq<char>, i: int) -> int
    decreases s.len() - i,
    when 0 <= i <= s.len()
{
    if i < s.len() && is_ansi_inter(s[i]) {
        skip_inters(s, i + 1)
    } else {
        i
    }
}

pub proof fn lemma_skip_params_props(s: Seq<char>, i: int)
    requires
        0 <= i <= s.len(),
    ensures
        i <= skip_params(s, i) <= s.len(),
    decreases s.len() - i,
{
    if i < s.len() && is_ansi_param(s[i]) {
        lemma_skip_params_props(s, i + 1);
    }
}

pub proof fn lemma_skip_inters_props(s: Seq<char>, i: int)
    requires
        0 <= i <= s.len(),
    ensures
        i <= skip_inters(s, i) <= s.len(),
    decreases s.len() - i,
{
    if i < s.len() && is_ansi_inter(s[i]) {
        lemma_skip_inters_props(s, i + 1);
    }
}

/// The length of the ANSI escape sequence starting at `i`, if one starts
/// there: ESC, `[`, parameter bytes, intermediate bytes, one final byte.
pub open spec fn ansi_len_at(s: Seq<char>, i: int) -> Option<int>
    recommends
        0 <= i <= s.len(),
{
    if i + 2 <= s.len() && s[i] == '\u{1b}' && s[i + 1] == '[' {
        let q = skip_inters(s, skip_params(s, i + 2));
        if q < s.len() && is_ansi_final(s[q]) {
            Some(q + 1 - i)
        } else {
            None
        }
    } else {
        None
    }
}

/// `s` from index `i` on, with every ANSI escape sequence removed.
pub open spec fn strip_ansi_from(s: Seq<char>, i: int) -> Seq<char>
    decreases s.len() - i,
    when 0 <= i <= s.len()
    via strip_ansi_dec
{
    if i >= s.len() {
        Seq::empty()
    } else {
        match ansi_len_at(s, i) {
            Some(m) => strip_ansi_from(s, i + m),
            None => seq![s[i]] + strip_ansi_from(s, i + 1),
        }
    }
}

#[via_fn]
proof fn strip_ansi_dec(s: Seq<char>, i: int) {
    if i + 2 <= s.len() {
        lemma_skip_params_props(s, i + 2);
        lemma_skip_inters_props(s, skip_params(s, i + 2));
    }
}

/// `s` with every ANSI escape sequence removed.
pub open spec fn strip_ansi_spec(s: Seq<char>) -> Seq<char> {
    strip_ansi_from(s, 0)
}

fn ansi_len_here(v: &Vec<char>, i: usize) -> (r: Option<usize>)
    requires
        i <= v.len(),
    ensures
        match r {
            Some(m) => ansi_len_at(v@, i as int) == Some(m as int) && 1 <= m && i + m <= v.len(),
            None => ansi_len_at(v@, i as int) is None,
        },
{
    if v.len() - i < 2 {
        return None;
    }
    if v[i] != '\u{1b}' || v[i + 1] != '[' {
        return None;
    }
    let mut q = i + 2;
    while q < v.len() && '0' <= v[q] && v[q] <= '?'
        invariant
            i + 2 <= q <= v.len(),
            skip_params(v@, i + 2 as int) == skip_params(v@, q as int),
        decreases v.len() - q,
    {
        q += 1;
    }
    proof {
        assert(skip_params(v@, i + 2 as int) == q);
    }
    while q < v.len() && ' ' <= v[q] && v[q] <= '/'
        invariant
            i + 2 <= q <= v.len(),
            skip_inters(v@, skip_params(v@, i + 2 as int)) == skip_inters(v@, q as int),
        decreases v.len() - q,
    {
        q += 1;
    }
    proof {
        assert(skip_inters(v@, skip_params(v@, i + 2 as int)) == q);
    }
    if q < v.len() && '@' <= v[q] && v[q] <= '~' {
        Some(q + 1 - i)
    } else {
        None
    }
}

/// Removes every ANSI escape sequence from the buffer.
pub fn strip_ansi(v: &Vec<char>) -> (r: Vec<char>)
    ensures
        r@ == strip_ansi_spec(v@),
{
    let mut out: Vec<char> = Vec::new();
    let mut i: usize = 0;
    proof {
        assert(Seq::<char>::empty() + strip_ansi_from(v@, 0) =~= strip_ansi_from(v@, 0));
    }
    while i < v.len()
        invariant
            i <= v.len(),
            out@ + strip_ansi_from(v@, i as int) == strip_ansi_spec(v@),
        decreases v.len() - i,
    {
        match ansi_len_here(v, i) {
            Some(m) => {
                i += m;
            },
            None => {
                out.push(v[i]);
                proof {
                    assert(out@ + strip_ansi_from(v@, i + 1 as int) =~= (out@.drop_last() + (seq![
                        v@[i as int],
                    ] + strip_ansi_from(v@, i + 1 as int))));
                }
                i += 1;
            },
        }
    }
    proof {
        assert(out@ + strip_ansi_from(v@, i as int) =~= out@);
    }
    out
}

/// A character that opens or fills a box's top border.
pub open spec fn is_top_border_char(c: char) -> bool {
    c == '\u{250f}' || c == '\u{250c}' || c == '\u{2554}' || c == '\u{2501}' || c == '\u{2500}'
        || c == '\u{2550}' || c == '-' || c == '+'
}

/// A character that draws a box's vertical bar.
pub open spec fn is_mid_bar_char(c: char) -> bool {
    c == '\u{2503}' || c == '\u{2502}' || c == '|'
}

/// A character that closes or fills a box's bottom border.
pub open spec fn is_bottom_border_char(c: char) -> bool {
    c == '\u{2517}' || c == '\u{2514}' || c == '\u{255a}' || c == '\u{2501}' || c == '\u{2500}'
        || c == '\u{2550}' || c == '-' || c == '+'
}

/// A Unicode box-drawing character, stripped from lines outside a box
/// pattern.
pub open spec fn is_box_drawing_char(c: char) -> bool {
    c == '\u{250f}' || c == '\u{2513}' || c == '\u{2517}' || c == '\u{251b}' || c == '\u{2503}'
        || c == '\u{2501}' || c == '\u{2500}' || c == '\u{250c}' || c == '\u{2510}'
        || c == '\u{2514}' || c == '\u{2518}' || c == '\u{2502}' || c == '\u{2554}'
        || c == '\u{2557}' || c == '\u{255a}' || c == '\u{255d}' || c == '\u{2550}'
}

pub open spec fn line_is_top(l: Seq<char>) -> bool {
    exists|k: int| 0 <= k < l.len() && is_top_border_char(l[k])
}

pub open spec fn line_is_mid(l: Seq<char>) -> bool {
    exists|k: int| 0 <= k < l.len() && is_mid_bar_char(l[k])
}

pub open spec fn line_is_bottom(l: Seq<char>) -> bool {
    exists|k: int| 0 <= k < l.len() && is_bottom_border_char(l[k])
}

/// `l` from `i` on, with vertical-bar characters removed.
pub open spec fn strip_bars_from(l: Seq<char>, i: int) -> Seq<char>
    decreases l.len() - i,
    when 0 <= i <= l.len()
{
    if i >= l.len() {
        Seq::empty()
    } else if is_mid_bar_char(l[i]) {
        strip_bars_from(l, i + 1)
    } else {
        seq![l[i]] + strip_bars_from(l, i + 1)
    }
}

/// `l` from `i` on, with Unicode box-drawing characters removed.
pub open spec fn clean_line_from(l: Seq<char>, i: int) -> Seq<char>
    decreases l.len() - i,
    when 0 <= i <= l.len()
{
    if i >= l.len() {
        Seq::empty()
    } else if is_box_drawing_char(l[i]) {
        clean_line_from(l, i + 1)
    } else {
        seq![l[i]] + clean_line_from(l, i + 1)
    }
}

/// The heading text a box banner is replaced with.
pub open spec fn box_heading(mid: Seq<char>) -> Seq<char> {
    seq!['#', '#', '#', ' '] + trim_spec(strip_bars_from(mid, 0))
}

/// One line of `s` ends before `\n`, with a trailing carriage return dropped.
pub open spec fn chop_cr(l: Seq<char>) -> Seq<char> {
    if l.len() > 0 && l.last() == '\r' {
        l.drop_last()
    } else {
        l
    }
}

/// The lines of `s` from index `i` on, as `str::lines` yields them.
pub open spec fn lines_from(s: Seq<char>, i: int) -> Seq<Seq<char>>
    decreases s.len() - i,
    when 0 <= i <= s.len()
    via lines_from_dec
{
    if i >= s.len() {
        Seq::empty()
    } else {
        match find_pat_from(s, seq!['\n'], i) {
            Some(e) => seq![chop_cr(s.subrange(i, e))] + lines_from(s, e + 1),
            None => seq![s.subrange(i, s.len() as int)],
        }
    }
}

#[via_fn]
proof fn lines_from_dec(s: Seq<char>, i: int) {
    if i < s.len() {
        lemma_find_pat_props(s, seq!['\n'], i);
    }
}

/// The lines of `s`.
pub open spec fn lines_spec(s: Seq<char>) -> Seq<Seq<char>> {
    lines_from(s, 0)
}

/// Lines joined with single newlines, as `join("\n")` produces them.
pub open spec fn join_lines(ls: Seq<Seq<char>>) -> Seq<char>
    decreases ls.len(),
{
    if ls.len() == 0 {
        Seq::empty()
    } else if ls.len() == 1 {
        ls[0]
    } else {
        join_lines(ls.drop_last()) + seq!['\n'] + ls.last()
    }
}

/// The box conversion over the lines from index `i` on: a three-line box
/// pattern becomes a blank line, a level-3 heading holding the middle line's
/// inner text, and a blank line (or vanishes when the inner text is empty);
/// every other line has its stray box-drawing characters removed.
pub open spec fn boxes_from(ls: Seq<Seq<char>>, i: int) -> Seq<Seq<char>>
    decreases ls.len() - i,
    when 0 <= i
{
    if i >= ls.len() {
        Seq::empty()
    } else if i + 2 < ls.len() && line_is_top(ls[i]) && line_is_mid(ls[i + 1]) && line_is_bottom(
        ls[i + 2],
    ) {
        let inner = trim_spec(strip_bars_from(ls[i + 1], 0));
        (if inner.len() == 0 {
            Seq::<Seq<char>>::empty()
        } else {
            seq![Seq::<char>::empty(), box_heading(ls[i + 1]), Seq::<char>::empty()]
        }) + boxes_from(ls, i + 3)
    } else {
        seq![clean_line_from(ls[i], 0)] + boxes_from(ls, i + 1)
    }
}

/// The full box conversion of a buffer.
pub open spec fn sanitize_boxes_spec(s: Seq<char>) -> Seq<char> {
    join_lines(boxes_from(lines_spec(s), 0))
}

fn is_top_border(c: char) -> (r: bool)
    ensures
        r == is_top_border_char(c),
{
    c == '\u{250f}' || c == '\u{250c}' || c == '\u{2554}' || c == '\u{2501}' || c == '\u{2500}'
        || c == '\u{2550}' || c == '-' || c == '+'
}

fn is_mid_bar(c: char) -> (r: bool)
    ensures
        r == is_mid_bar_char(c),
{
    c == '\u{2503}' || c == '\u{2502}' || c == '|'
}

fn is_bottom_border(c: char) -> (r: bool)
    ensures
        r == is_bottom_border_char(c),
{
    c == '\u{2517}' || c == '\u{2514}' || c == '\u{255a}' || c == '\u{2501}' || c == '\u{2500}'
        || c == '\u{2550}' || c == '-' || c == '+'
}

fn is_box_drawing(c: char) -> (r: bool)
    ensures
        r == is_box_drawing_char(c),
{
    c == '\u{250f}' || c == '\u{2513}' || c == '\u{2517}' || c == '\u{251b}' || c == '\u{2503}'
        || c == '\u{2501}' || c == '\u{2500}' || c == '\u{250c}' || c == '\u{2510}'
        || c == '\u{2514}' || c == '\u{2518}' || c == '\u{2502}' || c == '\u{2554}'
        || c == '\u{2557}' || c == '\u{255a}' || c == '\u{255d}' || c == '\u{2550}'
}

fn line_has_top(l: &Vec<char>) -> (r: bool)
    ensures
        r == line_is_top(l@),
{
    let mut k: usize = 0;
    while k < l.len()
        invariant
            k <= l.len(),
            forall|t: int| 0 <= t < k ==> !is_top_border_char(l@[t]),
        decreases l.len() - k,
    {
        if is_top_border(l[k]) {
            return true;
        }
        k += 1;
    }
    false
}

fn line_has_mid(l: &Vec<char>) -> (r: bool)
    ensures
        r == line_is_mid(l@),
{
    let mut k: usize = 0;
    while k < l.len()
        invariant
            k <= l.len(),
            forall|t: int| 0 <= t < k ==> !is_mid_bar_char(l@[t]),
        decreases l.len() - k,
    {
        if is_mid_bar(l[k]) {
            return true;
        }
        k += 1;
    }
    false
}

fn line_has_bottom(l: &Vec<char>) -> (r: bool)
    ensures
        r == line_is_bottom(l@),
{
    let mut k: usize = 0;
    while k < l.len()
        invariant
            k <= l.len(),
            forall|t: int| 0 <= t < k ==> !is_bottom_border_char(l@[t]),
        decreases l.len() - k,
    {
        if is_bottom_border(l[k]) {
            return true;
        }
        k += 1;
    }
    false
}

fn strip_bars(l: &Vec<char>) -> (r: Vec<char>)
    ensures
        r@ == strip_bars_from(l@, 0),
{
    let mut out: Vec<char> = Vec::new();
    let mut i: usize = 0;
    proof {
        assert(Seq::<char>::empty() + strip_bars_from(l@, 0) =~= strip_bars_from(l@, 0));
    }
    while i < l.len()
        invariant
            i <= l.len(),
            out@ + strip_bars_from(l@, i as int) == strip_bars_from(l@, 0),
        decreases l.len() - i,
    {
        if !is_mid_bar(l[i]) {
            out.push(l[i]);
            proof {
                assert(out@ + strip_bars_from(l@, i + 1 as int) =~= (out@.drop_last() + (seq![
                    l@[i as int],
                ] + strip_bars_from(l@, i + 1 as int))));
            }
        }
        i += 1;
    }
    proof {
        assert(out@ + strip_bars_from(l@, i as int) =~= out@);
    }
    out
}

/// Removes every Unicode box-drawing glyph, keeping all other text: the
/// clean-line rule. It applies to whole buffers too, since newlines are not
/// box-drawing characters; this stripping is unconditional, while the
/// box-to-heading conversion stays behind the strip-boxes flag.
pub fn strip_box_glyphs(l: &Vec<char>) -> (r: Vec<char>)
    ensures
        r@ == clean_line_from(l@, 0),
{
    let mut out: Vec<char> = Vec::new();
    let mut i: usize = 0;
    proof {
        assert(Seq::<char>::empty() + clean_line_from(l@, 0) =~= clean_line_from(l@, 0));
    }
    while i < l.len()
        invariant
            i <= l.len(),
            out@ + clean_line_from(l@, i as int) == clean_line_from(l@, 0),
        decreases l.len() - i,
    {
        if !is_box_drawing(l[i]) {
            out.push(l[i]);
            proof {
                assert(out@ + clean_line_from(l@, i + 1 as int) =~= (out@.drop_last() + (seq![
                    l@[i as int],
                ] + clean_line_from(l@, i + 1 as int))));
            }
        }
        i += 1;
    }
    proof {
        assert(out@ + clean_line_from(l@, i as int) =~= out@);
    }
    out
}

/// Splits a buffer into its lines.
pub(crate) fn split_lines(v: &Vec<char>) -> (r: Vec<Vec<char>>)
    ensures
        r.deep_view() == lines_spec(v@),
{
    let mut out: Vec<Vec<char>> = Vec::new();
    let mut i: usize = 0;
    let nl = vec!['\n'];
    proof {
        assert(nl@ =~= seq!['\n']);
        assert(out.deep_view() + lines_from(v@, 0) =~= lines_from(v@, 0));
    }
    while i < v.len()
        invariant
            i <= v.len(),
            nl@ == seq!['\n'],
            lines_spec(v@) == out.deep_view() + lines_from(v@, i as int),
        decreases v.len() - i,
    {
        proof {
            lemma_find_pat_props(v@, seq!['\n'], i as int);
        }
        let ghost prev = out.deep_view();
        match find_pat(v, &nl, i) {
            Some(e) => {
                let mut line = vec_subrange(v, i, e);
                if line.len() > 0 && line[line.len() - 1] == '\r' {
                    line.pop();
                }
                proof {
                    assert(line@ == chop_cr(v@.subrange(i as int, e as int)));
                }
                out.push(line);
                proof {
                    assert(out.deep_view() =~~= prev.push(line@));
                    assert(prev.push(line@) + lines_from(v@, e + 1 as int) =~= prev + (seq![line@]
                        + lines_from(v@, e + 1 as int)));
                }
                i = e + 1;
            },
            None => {
                let line = vec_subrange(v, i, v.len());
                out.push(line);
                proof {
                    assert(out.deep_view() =~~= prev.push(line@));
                    assert(prev.push(line@) + lines_from(v@, v@.len() as int) =~= prev + seq![
                        line@,
                    ]);
                    assert(lines_from(v@, i as int) =~= seq![line@]);
                }
                i = v.len();
            },
        }
    }
    proof {
        assert(out.deep_view() + lines_from(v@, i as int) =~= out.deep_view());
    }
    out
}

/// Joins lines with single newlines.
fn join_lines_exec(ls: &Vec<Vec<char>>) -> (r: Vec<char>)
    ensures
        r@ == join_lines(ls.deep_view()),
{
    let mut out: Vec<char> = Vec::new();
    let mut i: usize = 0;
    while i < ls.len()
        invariant
            i <= ls.len(),
            out@ == join_lines(ls.deep_view().take(i as int)),
        decreases ls.len() - i,
    {
        if i > 0 {
            out.push('\n');
        }
        let line = &ls[i];
        let mut j: usize = 0;
        while j < line.len()
            invariant
                j <= line.len(),
                i < ls.len(),
                i > 0 ==> out@ == join_lines(ls.deep_view().take(i as int)) + seq!['\n']
                    + line@.subrange(0, j as int),
                i == 0 ==> out@ == join_lines(ls.deep_view().take(i as int)) + line@.subrange(
                    0,
                    j as int,
                ),
            decreases line.len() - j,
        {
            out.push(line[j]);
            proof {
                assert(line@.subrange(0, j + 1 as int) =~= line@.subrange(0, j as int).push(
                    line@[j as int],
                ));
                assert((out@.drop_last()).push(line@[j as int]) =~= out@);
            }
            j += 1;
        }
        proof {
            let dv = ls.deep_view();
            assert(line@ =~= line@.subrange(0, line@.len() as int));
            assert(dv.take(i + 1 as int).drop_last() =~= dv.take(i as int));
            assert(dv.take(i + 1 as int).last() == dv[i as int]);
            assert(dv[i as int] =~= line@);
            if i > 0 {
                assert(join_lines(dv.take(i + 1 as int)) == join_lines(dv.take(i as int)) + seq![
                    '\n',
                ] + line@);
            } else {
                assert(dv.take(1).len() == 1);
                assert(join_lines(dv.take(1)) == dv.take(1)[0]);
                assert(join_lines(dv.take(i as int)) + line@ =~= line@);
            }
        }
        i += 1;
    }
    proof {
        assert(ls.deep_view().take(ls.deep_view().len() as int) =~= ls.deep_view());
    }
    out
}

/// Converts three-line box banners to level-3 headings and strips stray
/// box-drawing characters elsewhere.
pub fn sanitize_boxes(v: &Vec<char>) -> (r: Vec<char>)
    ensures
        r@ == sanitize_boxes_spec(v@),
{
    let lines = split_lines(v);
    let ghost all = lines.deep_view();
    let mut out: Vec<Vec<char>> = Vec::new();
    let mut i: usize = 0;
    proof {
        assert(out.deep_view() + boxes_from(all, 0) =~= boxes_from(all, 0));
    }
    while i < lines.len()
        invariant
            i <= lines.len(),
            all == lines.deep_view(),
            boxes_from(all, 0) == out.deep_view() + boxes_from(all, i as int),
        decreases lines.len() - i,
    {
        let ghost prev = out.deep_view();
        proof {
            assert(all[i as int] =~= lines@[i as int]@);
            if lines.len() - i > 2 {
                assert(all[i + 1 as int] =~= lines@[i + 1 as int]@);
                assert(all[i + 2 as int] =~= lines@[i + 2 as int]@);
            }
        }
        if lines.len() - i > 2 && line_has_top(&lines[i]) && line_has_mid(&lines[i + 1])
            && line_has_bottom(&lines[i + 2]) {
            let bars = strip_bars(&lines[i + 1]);
            let inner = trim_chars(&bars);
            if inner.len() > 0 {
                out.push(Vec::new());
                let mut heading: Vec<char> = Vec::new();
                heading.push('#');
                heading.push('#');
                heading.push('#');
                heading.push(' ');
                push_all(&mut heading, &inner);
                proof {
                    assert(heading@ =~= seq!['#', '#', '#', ' '] + inner@);
                }
                out.push(heading);
                out.push(Vec::new());
                proof {
                    let three = seq![
                        Seq::<char>::empty(),
                        seq!['#', '#', '#', ' '] + inner@,
                        Seq::<char>::empty(),
                    ];
                    assert(out.deep_view() =~~= prev + three);
                    assert(prev + (three + boxes_from(all, i + 3 as int)) =~= (prev + three)
                        + boxes_from(all, i + 3 as int));
                }
            } else {
                proof {
                    assert(Seq::<Seq<char>>::empty() + boxes_from(all, i + 3 as int) =~= boxes_from(
                        all,
                        i + 3 as int,
                    ));
                }
            }
            i += 3;
        } else {
            let cleaned = strip_box_glyphs(&lines[i]);
            out.push(cleaned);
            proof {
                assert(out.deep_view() =~~= prev.push(cleaned@));
                assert(prev.push(cleaned@) + boxes_from(all, i + 1 as int) =~= prev + (seq![
                    cleaned@,
                ] + boxes_from(all, i + 1 as int)));
            }
            i += 1;
        }
    }
    proof {
        assert(out.deep_view() + boxes_from(all, i as int) =~= out.deep_view());
    }
    join_lines_exec(&out)
}

/// The end of the `$$...$$` math span starting at `i`, if one starts there:
/// two dollar signs, at least one character other than a dollar sign, and
/// two dollar signs again.
pub open spec fn math_match_at(s: Seq<char>, i: int) -> Option<int>
    recommends
        0 <= i <= s.len(),
{
    if i + 2 <= s.len() && s[i] == '$' && s[i + 1] == '$' {
        match find_pat_from(s, seq!['$'], i + 2) {
            Some(j) => if j > i + 2 && j + 2 <= s.len() && s[j + 1] == '$' {
                Some(j + 2)
            } else {
                None
            },
            None => None,
        }
    } else {
        None
    }
}

/// The plain-text placeholder a math span is rendered as.
pub open spec fn math_placeholder(inner: Seq<char>) -> Seq<char> {
    seq!['[', 'M', 'a', 't', 'h', ':', ' '] + trim_spec(inner) + seq![']']
}

/// `s` from `i` on, with every math span replaced by its placeholder.
pub open spec fn preprocess_math_from(s: Seq<char>, i: int) -> Seq<char>
    decreases s.len() - i,
    when 0 <= i <= s.len()
    via preprocess_math_dec
{
    if i >= s.len() {
        Seq::empty()
    } else {
        match math_match_at(s, i) {
            Some(end) => math_placeholder(s.subrange(i + 2, end - 2)) + preprocess_math_from(
                s,
                end,
            ),
            None => seq![s[i]] + preprocess_math_from(s, i + 1),
        }
    }
}

#[via_fn]
proof fn preprocess_math_dec(s: Seq<char>, i: int) {
    if 0 <= i && i < s.len() {
        lemma_find_pat_props(s, seq!['$'], i + 2);
    }
}

/// `s` with every `$$...$$` span replaced by `[Math: ...]`.
pub open spec fn preprocess_math_spec(s: Seq<char>) -> Seq<char> {
    preprocess_math_from(s, 0)
}

fn math_match_here(v: &Vec<char>, i: usize) -> (r: Option<usize>)
    requires
        i <= v.len(),
    ensures
        match r {
            Some(end) => math_match_at(v@, i as int) == Some(end as int) && i + 4 < end && end
                <= v.len(),
            None => math_match_at(v@, i as int) is None,
        },
{
    if v.len() - i < 2 {
        return None;
    }
    if v[i] != '$' || v[i + 1] != '$' {
        return None;
    }
    let dollar = vec!['$'];
    proof {
        assert(dollar@ =~= seq!['$']);
        lemma_find_pat_props(v@, seq!['$'], i + 2 as int);
    }
    match find_pat(v, &dollar, i + 2) {
        Some(j) => {
            if j > i + 2 && v.len() - j >= 2 && v[j + 1] == '$' {
                Some(j + 2)
            } else {
                None
            }
        },
        None => None,
    }
}

/// Replaces every `$$...$$` span with `[Math: ...]`, the inner text trimmed.
pub fn preprocess_math(v: &Vec<char>) -> (r: Vec<char>)
    ensures
        r@ == preprocess_math_spec(v@),
{
    let mut out: Vec<char> = Vec::new();
    let mut i: usize = 0;
    proof {
        assert(Seq::<char>::empty() + preprocess_math_from(v@, 0) =~= preprocess_math_from(v@, 0));
    }
    while i < v.len()
        invariant
            i <= v.len(),
            out@ + preprocess_math_from(v@, i as int) == preprocess_math_spec(v@),
        decreases v.len() - i,
    {
        let ghost before = out@;
        match math_match_here(v, i) {
            Some(end) => {
                let inner = vec_subrange(v, i + 2, end - 2);
                let trimmed = trim_chars(&inner);
                out.push('[');
                out.push('M');
                out.push('a');
                out.push('t');
                out.push('h');
                out.push(':');
                out.push(' ');
                push_all(&mut out, &trimmed);
                out.push(']');
                proof {
                    assert(out@ =~= before + math_placeholder(v@.subrange(i + 2, end - 2)));
                    assert(before + (math_placeholder(v@.subrange(i + 2, end - 2))
                        + preprocess_math_from(v@, end as int)) =~= out@ + preprocess_math_from(
                        v@,
                        end as int,
                    ));
                }
                i = end;
            },
            None => {
                out.push(v[i]);
                proof {
                    assert(before + (seq![v@[i as int]] + preprocess_math_from(v@, i + 1 as int))
                        =~= out@ + preprocess_math_from(v@, i + 1 as int));
                }
                i += 1;
            },
        }
    }
    proof {
        assert(out@ + preprocess_math_from(v@, i as int) =~= out@);
    }
    out
}

} // verus!
