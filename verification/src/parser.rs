//! A line-oriented Markdown event parser for the constructs the renderer
//! handles: fenced code blocks, headings, pipe tables, nested lists,
//! block quotes, horizontal rules, paragraphs with soft breaks, and
//! emphasis/strong spans. The format is permissive by design: anything
//! unrecognized passes through as plain text.
//!
//! Emphasis markers toggle: `**` opens or closes a strong span, a single
//! `*` an emphasis span; spans still open at the end of a line are closed
//! there. An inline link degrades to its text: the brackets and the
//! parenthesized target are dropped, the link text passes through.

use vstd::prelude::*;
use crate::boundary::find_pat_from;
use crate::boundary::lemma_find_pat_props;
use crate::boundary::find_pat;
use crate::chars::all_ws;
use crate::chars::is_ws_char;
use crate::chars::trim_spec;
use crate::chars::trim_chars;
use crate::chars::vec_subrange;
use crate::chars::chars_to_string;
use crate::render::EventSpec;
use crate::render::MdEvent;
use crate::sanitize::lines_spec;
use crate::sanitize::split_lines;
use crate::table::split_cells;
use crate::table::split_cells_exec;

verus! {

/// The parser's own running state between lines.
#[verifier::ext_equal]
pub struct ParseSt {
    pub in_para: bool,
    pub lists: Seq<Option<u64>>,
    pub in_code: bool,
    pub in_table: bool,
}

/// The line opens or closes a fenced code block.
pub open spec fn starts_fence(l: Seq<char>) -> bool {
    l.len() >= 3 && l[0] == '`' && l[1] == '`' && l[2] == '`'
}

/// The language named after an opening fence.
pub open spec fn fence_lang(l: Seq<char>) -> Seq<char> {
    trim_spec(l.skip(3))
}

/// The number of leading `#` characters.
pub open spec fn lead_hashes(l: Seq<char>, i: int) -> int
    decreases l.len() - i,
    when 0 <= i <= l.len()
{
    if i < l.len() && l[i] == '#' {
        lead_hashes(l, i + 1)
    } else {
        i
    }
}

/// The line is a heading: one to six `#`, a space, then the heading text.
pub open spec fn is_heading(l: Seq<char>) -> bool {
    let k = lead_hashes(l, 0);
    1 <= k <= 6 && k < l.len() && l[k] == ' '
}

pub open spec fn heading_level(l: Seq<char>) -> int {
    lead_hashes(l, 0)
}

pub open spec fn heading_text(l: Seq<char>) -> Seq<char> {
    l.skip(lead_hashes(l, 0) + 1)
}

/// The line is a horizontal rule: three or more dashes and nothing else.
pub open spec fn is_rule_line(l: Seq<char>) -> bool {
    l.len() >= 3 && forall|k: int| 0 <= k < l.len() ==> l[k] == '-'
}

pub open spec fn has_pipe(l: Seq<char>) -> bool {
    find_pat_from(l, seq!['|'], 0) is Some
}

/// A table separator line: only dashes, pipes, colons and spaces, with at
/// least one dash. It aligns columns and yields no row.
pub open spec fn is_table_sep(l: Seq<char>) -> bool {
    &&& forall|k: int| 0 <= k < l.len() ==> (l[k] == '-' || l[k] == '|' || l[k] == ':' || l[k]
        == ' ')
    &&& exists|k: int| 0 <= k < l.len() && l[k] == '-'
}

/// The number of leading spaces.
pub open spec fn lead_spaces(l: Seq<char>, i: int) -> int
    decreases l.len() - i,
    when 0 <= i <= l.len()
{
    if i < l.len() && l[i] == ' ' {
        lead_spaces(l, i + 1)
    } else {
        i
    }
}

pub open spec fn is_digit(c: char) -> bool {
    '0' <= c && c <= '9'
}

/// The number of leading digits.
pub open spec fn lead_digits(l: Seq<char>, i: int) -> int
    decreases l.len() - i,
    when 0 <= i <= l.len()
{
    if i < l.len() && is_digit(l[i]) {
        lead_digits(l, i + 1)
    } else {
        i
    }
}

/// The value of a run of decimal digits.
pub open spec fn digits_val(s: Seq<char>) -> int
    decreases s.len(),
{
    if s.len() == 0 {
        0
    } else {
        digits_val(s.drop_last()) * 10 + (s.last() as int - '0' as int)
    }
}

pub open spec fn pow10(n: int) -> int
    decreases n,
{
    if n <= 0 {
        1
    } else {
        10 * pow10(n - 1)
    }
}

pub proof fn lemma_digits_val_bound(s: Seq<char>)
    requires
        forall|k: int| 0 <= k < s.len() ==> is_digit(s[k]),
    ensures
        0 <= digits_val(s) < pow10(s.len() as int),
    decreases s.len(),
{
    if s.len() > 0 {
        assert(is_digit(s.last()));
        assert(forall|k: int| 0 <= k < s.drop_last().len() ==> is_digit(s.drop_last()[k]));
        lemma_digits_val_bound(s.drop_last());
    }
}

pub proof fn lemma_pow10_pos(n: int)
    ensures
        pow10(n) >= 1,
    decreases n,
{
    if n > 0 {
        lemma_pow10_pos(n - 1);
    }
}

pub proof fn lemma_pow10_mono(a: int, b: int)
    requires
        a <= b,
    ensures
        pow10(a) <= pow10(b),
    decreases b - a,
{
    if a < b {
        lemma_pow10_mono(a, b - 1);
        lemma_pow10_pos(b - 1);
    }
}

pub proof fn lemma_pow10_18()
    ensures
        pow10(18) == 1_000_000_000_000_000_000,
{
    assert(pow10(0) == 1);
    assert(pow10(1) == 10);
    assert(pow10(2) == 100);
    assert(pow10(3) == 1000);
    assert(pow10(4) == 10000);
    assert(pow10(5) == 100000);
    assert(pow10(6) == 1000000);
    assert(pow10(7) == 10000000);
    assert(pow10(8) == 100000000);
    assert(pow10(9) == 1000000000);
    assert(pow10(10) == 10000000000);
    assert(pow10(11) == 100000000000);
    assert(pow10(12) == 1000000000000);
    assert(pow10(13) == 10000000000000);
    assert(pow10(14) == 100000000000000);
    assert(pow10(15) == 1000000000000000);
    assert(pow10(16) == 10000000000000000);
    assert(pow10(17) == 100000000000000000);
    assert(pow10(18) == 1000000000000000000);
}

/// The list marker of a line, if it carries one: the nesting depth from its
/// indent, the start number of an ordered item, and the item's content.
pub open spec fn line_marker(l: Seq<char>) -> Option<(int, Option<u64>, Seq<char>)> {
    let ind = lead_spaces(l, 0);
    let rest = l.skip(ind);
    if rest.len() >= 2 && (rest[0] == '-' || rest[0] == '*' || rest[0] == '+') && rest[1] == ' ' {
        Some((ind / 2 + 1, None, rest.skip(2)))
    } else {
        let d = lead_digits(rest, 0);
        if 1 <= d <= 19 && d + 2 <= rest.len() && rest[d] == '.' && rest[d + 1] == ' ' {
            Some((ind / 2 + 1, Some(digits_val(rest.take(d)) as u64), rest.skip(d + 2)))
        } else {
            None
        }
    }
}

/// The line opens a block quote.
pub open spec fn is_quote(l: Seq<char>) -> bool {
    l.len() >= 1 && l[0] == '>'
}

pub open spec fn quote_content(l: Seq<char>) -> Seq<char> {
    if l.len() >= 2 && l[1] == ' ' {
        l.skip(2)
    } else {
        l.skip(1)
    }
}

/// The inline link starting at `i`, if one starts there: `[text](url)`.
/// The result gives the index of the closing bracket (the link text runs
/// from `i + 1` to it) and the index right after the closing parenthesis.
pub open spec fn link_at(l: Seq<char>, i: int) -> Option<(int, int)>
    recommends
        0 <= i <= l.len(),
{
    if i < l.len() && l[i] == '[' {
        match find_pat_from(l, seq![']'], i + 1) {
            Some(j) => if j + 1 < l.len() && l[j + 1] == '(' {
                match find_pat_from(l, seq![')'], j + 2) {
                    Some(k) => Some((j, k + 1)),
                    None => None,
                }
            } else {
                None
            },
            None => None,
        }
    } else {
        None
    }
}

/// The first emphasis or link marker at or after `i`.
pub open spec fn find_inline_marker(l: Seq<char>, i: int) -> Option<int>
    decreases l.len() - i,
    when 0 <= i
{
    if i >= l.len() {
        None
    } else if l[i] == '*' || l[i] == '[' {
        Some(i)
    } else {
        find_inline_marker(l, i + 1)
    }
}

pub proof fn lemma_find_inline_marker_props(l: Seq<char>, i: int)
    requires
        i >= 0,
    ensures
        find_inline_marker(l, i) matches Some(j) ==> i <= j < l.len() && (l[j] == '*' || l[j]
            == '['),
    decreases l.len() - i,
{
    if 0 <= i < l.len() && !(l[i] == '*' || l[i] == '[') {
        lemma_find_inline_marker_props(l, i + 1);
    }
}

/// Inline events of a line from index `i` on, with the current emphasis and
/// strong toggles; spans still open at the end are closed. An inline link
/// degrades to its text: the brackets and the parenthesized target are
/// dropped, the link text passes through as plain text.
pub open spec fn inline_from(l: Seq<char>, i: int, em: bool, st: bool) -> Seq<EventSpec>
    decreases l.len() - i,
    when 0 <= i <= l.len()
    via inline_from_dec
{
    if i >= l.len() {
        (if st {
            seq![EventSpec::StrongEnd]
        } else {
            Seq::empty()
        }) + (if em {
            seq![EventSpec::EmphasisEnd]
        } else {
            Seq::empty()
        })
    } else if l[i] == '*' {
        if i + 1 < l.len() && l[i + 1] == '*' {
            seq![
                if st {
                    EventSpec::StrongEnd
                } else {
                    EventSpec::StrongStart
                },
            ] + inline_from(l, i + 2, em, !st)
        } else {
            seq![
                if em {
                    EventSpec::EmphasisEnd
                } else {
                    EventSpec::EmphasisStart
                },
            ] + inline_from(l, i + 1, !em, st)
        }
    } else if l[i] == '[' {
        match link_at(l, i) {
            Some(le) => seq![EventSpec::Text(l.subrange(i + 1, le.0))] + inline_from(
                l,
                le.1,
                em,
                st,
            ),
            None => seq![EventSpec::Text(l.subrange(i, i + 1))] + inline_from(l, i + 1, em, st),
        }
    } else {
        match find_inline_marker(l, i) {
            Some(j) => seq![EventSpec::Text(l.subrange(i, j))] + inline_from(l, j, em, st),
            None => seq![EventSpec::Text(l.subrange(i, l.len() as int))] + inline_from(
                l,
                l.len() as int,
                em,
                st,
            ),
        }
    }
}

#[via_fn]
proof fn inline_from_dec(l: Seq<char>, i: int, em: bool, st: bool) {
    if 0 <= i < l.len() {
        if l[i] == '[' {
            lemma_find_pat_props(l, seq![']'], i + 1);
            if let Some(j) = find_pat_from(l, seq![']'], i + 1) {
                if j + 1 < l.len() && l[j + 1] == '(' {
                    lemma_find_pat_props(l, seq![')'], j + 2);
                }
            }
        } else if l[i] != '*' {
            lemma_find_inline_marker_props(l, i);
        }
    }
}

pub open spec fn inline_events(l: Seq<char>) -> Seq<EventSpec> {
    inline_from(l, 0, false, false)
}

/// The events closing an open paragraph.
pub open spec fn close_para(st: ParseSt) -> Seq<EventSpec> {
    if st.in_para {
        seq![EventSpec::ParagraphEnd]
    } else {
        Seq::empty()
    }
}

/// `n` list-end events.
pub open spec fn list_ends(n: int) -> Seq<EventSpec>
    decreases n,
{
    if n <= 0 {
        Seq::empty()
    } else {
        seq![EventSpec::ListEnd] + list_ends(n - 1)
    }
}

/// `n` list-start events for the given type.
pub open spec fn list_opens(ty: Option<u64>, n: int) -> Seq<EventSpec>
    decreases n,
{
    if n <= 0 {
        Seq::empty()
    } else {
        seq![EventSpec::ListStart(ty)] + list_opens(ty, n - 1)
    }
}

/// The list-stack adjustment events to reach depth `d`.
pub open spec fn adjust_events(lists: Seq<Option<u64>>, ty: Option<u64>, d: int) -> Seq<
    EventSpec,
> {
    if lists.len() > d {
        list_ends(lists.len() - d)
    } else {
        list_opens(ty, d - lists.len())
    }
}

/// The list stack after adjusting to depth `d`.
pub open spec fn stack_after(lists: Seq<Option<u64>>, ty: Option<u64>, d: int) -> Seq<
    Option<u64>,
> {
    if lists.len() >= d {
        lists.take(d)
    } else {
        lists + Seq::new((d - lists.len()) as nat, |k: int| ty)
    }
}

/// The cells of a table row: split at pipes and trimmed, with empty edge
/// cells from leading or trailing pipes dropped.
pub open spec fn row_cells(l: Seq<char>) -> Seq<Seq<char>> {
    let cs = split_cells(l);
    let cs1 = if cs.len() > 0 && cs[0].len() == 0 {
        cs.drop_first()
    } else {
        cs
    };
    if cs1.len() > 0 && cs1.last().len() == 0 {
        cs1.drop_last()
    } else {
        cs1
    }
}

pub open spec fn cell_events(cs: Seq<Seq<char>>, k: int) -> Seq<EventSpec>
    decreases cs.len() - k,
    when 0 <= k
{
    if k >= cs.len() {
        Seq::empty()
    } else {
        seq![EventSpec::TableCellStart, EventSpec::Text(cs[k])] + cell_events(cs, k + 1)
    }
}

/// The events of one table row.
pub open spec fn row_events(l: Seq<char>) -> Seq<EventSpec> {
    seq![EventSpec::TableRowStart] + cell_events(row_cells(l), 0) + seq![EventSpec::TableRowEnd]
}

/// The events of the lines from `i` on, given the parser state.
pub open spec fn parse_lines(ls: Seq<Seq<char>>, i: int, st: ParseSt) -> Seq<EventSpec>
    decreases ls.len() - i, (if st.in_table { 1int } else { 0int }),
    when 0 <= i
{
    if i >= ls.len() {
        close_para(st) + (if st.in_table {
            seq![EventSpec::TableEnd]
        } else {
            Seq::empty()
        }) + list_ends(st.lists.len() as int) + (if st.in_code {
            seq![EventSpec::CodeBlockEnd]
        } else {
            Seq::empty()
        })
    } else {
        let l = ls[i];
        if st.in_code {
            if starts_fence(l) {
                seq![EventSpec::CodeBlockEnd] + parse_lines(
                    ls,
                    i + 1,
                    ParseSt { in_code: false, ..st },
                )
            } else {
                seq![EventSpec::Text(l.push('\n'))] + parse_lines(ls, i + 1, st)
            }
        } else if st.in_table {
            if has_pipe(l) {
                (if is_table_sep(l) {
                    Seq::empty()
                } else {
                    row_events(l)
                }) + parse_lines(ls, i + 1, st)
            } else {
                seq![EventSpec::TableEnd] + parse_lines(ls, i, ParseSt { in_table: false, ..st })
            }
        } else if all_ws(l) {
            close_para(st) + list_ends(st.lists.len() as int) + parse_lines(
                ls,
                i + 1,
                ParseSt { in_para: false, lists: Seq::empty(), ..st },
            )
        } else if starts_fence(l) {
            close_para(st) + list_ends(st.lists.len() as int) + seq![
                EventSpec::CodeBlockStart(fence_lang(l)),
            ] + parse_lines(
                ls,
                i + 1,
                ParseSt { in_para: false, lists: Seq::empty(), in_code: true, ..st },
            )
        } else if is_heading(l) {
            close_para(st) + list_ends(st.lists.len() as int) + seq![
                EventSpec::HeadingStart(heading_level(l) as u32),
            ] + inline_events(heading_text(l)) + seq![EventSpec::HeadingEnd] + parse_lines(
                ls,
                i + 1,
                ParseSt { in_para: false, lists: Seq::empty(), ..st },
            )
        } else if is_rule_line(l) {
            close_para(st) + list_ends(st.lists.len() as int) + seq![EventSpec::HorizontalRule]
                + parse_lines(ls, i + 1, ParseSt { in_para: false, lists: Seq::empty(), ..st })
        } else if has_pipe(l) {
            close_para(st) + list_ends(st.lists.len() as int) + seq![EventSpec::TableStart] + (
            if is_table_sep(l) {
                Seq::empty()
            } else {
                row_events(l)
            }) + parse_lines(
                ls,
                i + 1,
                ParseSt { in_para: false, lists: Seq::empty(), in_table: true, ..st },
            )
        } else if line_marker(l) is Some {
            let m = line_marker(l)->Some_0;
            close_para(st) + adjust_events(st.lists, m.1, m.0) + seq![EventSpec::ItemStart]
                + inline_events(m.2) + seq![EventSpec::ItemEnd] + parse_lines(
                ls,
                i + 1,
                ParseSt { in_para: false, lists: stack_after(st.lists, m.1, m.0), ..st },
            )
        } else if is_quote(l) {
            close_para(st) + seq![EventSpec::BlockQuoteStart] + inline_events(quote_content(l))
                + seq![EventSpec::BlockQuoteEnd] + parse_lines(
                ls,
                i + 1,
                ParseSt { in_para: false, ..st },
            )
        } else {
            (if st.in_para {
                seq![EventSpec::SoftBreak]
            } else {
                list_ends(st.lists.len() as int) + seq![EventSpec::ParagraphStart]
            }) + inline_events(l) + parse_lines(
                ls,
                i + 1,
                ParseSt {
                    in_para: true,
                    lists: if st.in_para {
                        st.lists
                    } else {
                        Seq::empty()
                    },
                    ..st
                },
            )
        }
    }
}

/// The events of a whole segment.
pub open spec fn parse_events_spec(s: Seq<char>) -> Seq<EventSpec> {
    parse_lines(
        lines_spec(s),
        0,
        ParseSt { in_para: false, lists: Seq::empty(), in_code: false, in_table: false },
    )
}

fn starts_fence_exec(l: &Vec<char>) -> (r: bool)
    ensures
        r == starts_fence(l@),
{
    l.len() >= 3 && l[0] == '`' && l[1] == '`' && l[2] == '`'
}

fn all_ws_exec(l: &Vec<char>) -> (r: bool)
    ensures
        r == all_ws(l@),
{
    let mut k: usize = 0;
    while k < l.len()
        invariant
            k <= l.len(),
            forall|t: int| 0 <= t < k ==> crate::chars::is_ws(l@[t]),
        decreases l.len() - k,
    {
        if !is_ws_char(l[k]) {
            return false;
        }
        k += 1;
    }
    true
}

fn lead_hashes_exec(l: &Vec<char>) -> (r: usize)
    ensures
        r as int == lead_hashes(l@, 0),
        r <= l.len(),
{
    let mut k: usize = 0;
    while k < l.len() && l[k] == '#'
        invariant
            k <= l.len(),
            lead_hashes(l@, 0) == lead_hashes(l@, k as int),
        decreases l.len() - k,
    {
        k += 1;
    }
    k
}

fn is_rule_line_exec(l: &Vec<char>) -> (r: bool)
    ensures
        r == is_rule_line(l@),
{
    if l.len() < 3 {
        return false;
    }
    let mut k: usize = 0;
    while k < l.len()
        invariant
            k <= l.len(),
            l.len() >= 3,
            forall|t: int| 0 <= t < k ==> l@[t] == '-',
        decreases l.len() - k,
    {
        if l[k] != '-' {
            return false;
        }
        k += 1;
    }
    true
}

fn has_pipe_exec(l: &Vec<char>) -> (r: bool)
    ensures
        r == has_pipe(l@),
{
    let pipe = vec!['|'];
    proof {
        assert(pipe@ =~= seq!['|']);
    }
    match find_pat(l, &pipe, 0) {
        Some(_) => true,
        None => false,
    }
}

fn is_table_sep_exec(l: &Vec<char>) -> (r: bool)
    ensures
        r == is_table_sep(l@),
{
    let mut k: usize = 0;
    let mut saw_dash = false;
    while k < l.len()
        invariant
            k <= l.len(),
            forall|t: int|
                0 <= t < k ==> (l@[t] == '-' || l@[t] == '|' || l@[t] == ':' || l@[t] == ' '),
            saw_dash == (exists|t: int| 0 <= t < k && l@[t] == '-'),
        decreases l.len() - k,
    {
        let c = l[k];
        if c == '-' {
            saw_dash = true;
            proof {
                assert(l@[k as int] == '-');
            }
        } else if c != '|' && c != ':' && c != ' ' {
            proof {
                assert(!(l@[k as int] == '-' || l@[k as int] == '|' || l@[k as int] == ':'
                    || l@[k as int] == ' '));
            }
            return false;
        }
        k += 1;
    }
    saw_dash
}

fn lead_spaces_exec(l: &Vec<char>) -> (r: usize)
    ensures
        r as int == lead_spaces(l@, 0),
        r <= l.len(),
{
    let mut k: usize = 0;
    while k < l.len() && l[k] == ' '
        invariant
            k <= l.len(),
            lead_spaces(l@, 0) == lead_spaces(l@, k as int),
        decreases l.len() - k,
    {
        k += 1;
    }
    k
}

fn lead_digits_exec(l: &Vec<char>, start: usize) -> (r: usize)
    requires
        start <= l.len(),
    ensures
        r as int == lead_digits(l@, start as int),
        start <= r <= l.len(),
{
    let mut k = start;
    while k < l.len() && '0' <= l[k] && l[k] <= '9'
        invariant
            start <= k <= l.len(),
            lead_digits(l@, start as int) == lead_digits(l@, k as int),
        decreases l.len() - k,
    {
        k += 1;
    }
    k
}

/// Parses the value of `count` digits starting the character buffer.
fn digits_value_exec(l: &Vec<char>, count: usize) -> (r: u64)
    requires
        count <= l.len(),
        count <= 19,
        forall|t: int| 0 <= t < count ==> is_digit(l@[t]),
    ensures
        r as int == digits_val(l@.take(count as int)),
{
    let mut acc: u64 = 0;
    let mut k: usize = 0;
    proof {
        assert(l@.take(0) =~= Seq::<char>::empty());
    }
    while k < count
        invariant
            k <= count <= l.len(),
            count <= 19,
            forall|t: int| 0 <= t < count ==> is_digit(l@[t]),
            acc as int == digits_val(l@.take(k as int)),
        decreases count - k,
    {
        proof {
            assert(forall|t: int| 0 <= t < l@.take(k as int).len() ==> is_digit(
                l@.take(k as int)[t],
            ));
            lemma_digits_val_bound(l@.take(k as int));
            lemma_pow10_mono(k as int, 18);
            lemma_pow10_18();
            assert(acc <= 999_999_999_999_999_999u64);
            assert(is_digit(l@[k as int]));
            assert(l@.take(k + 1 as int).drop_last() =~= l@.take(k as int));
            assert(l@.take(k + 1 as int).last() == l@[k as int]);
        }
        let d = (l[k] as u8) - ('0' as u8);
        acc = acc * 10 + (d as u64);
        k += 1;
    }
    acc
}

/// The exec mirror of [`line_marker`].
#[allow(unused_parens)]
fn line_marker_exec(l: &Vec<char>) -> (r: Option<(usize, Option<u64>, Vec<char>)>)
    ensures
        match r {
            Some(m) => line_marker(l@) matches Some(sm) && sm.0 == m.0 as int && sm.1 == m.1
                && sm.2 == m.2@,
            None => line_marker(l@) is None,
        },
{
    let ind = lead_spaces_exec(l);
    let ghost rest = l@.skip(ind as int);
    if l.len() - ind >= 2 && (l[ind] == '-' || l[ind] == '*' || l[ind] == '+') && l[ind + 1]
        == ' ' {
        proof {
            assert(rest[0] == l@[ind as int]);
            assert(rest[1] == l@[ind + 1]);
        }
        let content = vec_subrange(l, ind + 2, l.len());
        proof {
            assert(content@ =~= rest.skip(2));
        }
        return Some((ind / 2 + 1, None, content));
    }
    proof {
        if rest.len() >= 2 {
            assert(rest[0] == l@[ind as int]);
            assert(rest[1] == l@[ind + 1]);
        }
    }
    let dend = lead_digits_exec(l, ind);
    let d = dend - ind;
    proof {
        lemma_lead_digits_shift(l@, ind as int, dend as int);
    }
    if 1 <= d && d <= 19 && d + 2 <= l.len() - ind && l[dend] == '.' && l[dend + 1] == ' ' {
        proof {
            assert(rest[d as int] == l@[dend as int]);
            assert(rest[d + 1] == l@[dend + 1]);
            assert(forall|t: int| 0 <= t < d ==> rest[t] == l@[ind + t]);
        }
        let digits = vec_subrange(l, ind, dend);
        proof {
            assert(digits@ =~= rest.take(d as int));
            assert(forall|t: int| 0 <= t < d ==> is_digit(digits@[t])) by {
                lemma_lead_digits_props(l@, ind as int);
            }
        }
        let value = digits_value_exec(&digits, d);
        proof {
            assert(digits@.take(d as int) =~= digits@);
        }
        let content = vec_subrange(l, dend + 2, l.len());
        proof {
            assert(content@ =~= rest.skip(d + 2));
        }
        return Some((ind / 2 + 1, Some(value), content));
    }
    proof {
        if rest.len() >= 2 && (rest[0] == '-' || rest[0] == '*' || rest[0] == '+') && rest[1]
            == ' ' {
            assert(false);
        }
        let sd = lead_digits(rest, 0);
        assert(sd == dend - ind);
        if 1 <= sd <= 19 && sd + 2 <= rest.len() && rest[sd] == '.' && rest[sd + 1] == ' ' {
            assert(rest[sd] == l@[dend as int]);
            assert(rest[sd + 1] == l@[dend + 1]);
            assert(false);
        }
    }
    None
}

/// Leading digits counted from an offset agree with counting in the
/// shifted suffix.
proof fn lemma_lead_digits_shift(l: Seq<char>, ind: int, dend: int)
    requires
        0 <= ind <= dend <= l.len(),
        dend == lead_digits(l, ind),
    ensures
        lead_digits(l.skip(ind), 0) == dend - ind,
{
    lemma_lead_digits_shift_aux(l, ind, ind);
}

proof fn lemma_lead_digits_shift_aux(l: Seq<char>, ind: int, i: int)
    requires
        0 <= ind <= i <= l.len(),
    ensures
        lead_digits(l, i) - ind == lead_digits(l.skip(ind), i - ind),
    decreases l.len() - i,
{
    let rest = l.skip(ind);
    if i < l.len() && is_digit(l[i]) {
        assert(rest[i - ind] == l[i]);
        lemma_lead_digits_shift_aux(l, ind, i + 1);
    } else {
        if i - ind < rest.len() {
            assert(rest[i - ind] == l[i]);
        }
    }
}

/// Every character inside the leading digit run is a digit.
proof fn lemma_lead_digits_props(l: Seq<char>, i: int)
    requires
        0 <= i <= l.len(),
    ensures
        i <= lead_digits(l, i) <= l.len(),
        forall|t: int| i <= t < lead_digits(l, i) ==> is_digit(l[t]),
    decreases l.len() - i,
{
    if i < l.len() && is_digit(l[i]) {
        lemma_lead_digits_props(l, i + 1);
    }
}

fn is_quote_exec(l: &Vec<char>) -> (r: bool)
    ensures
        r == is_quote(l@),
{
    l.len() >= 1 && l[0] == '>'
}

/// Appends the inline events of `l`, toggling emphasis and strong spans.
fn find_inline_marker_exec(l: &Vec<char>, start: usize) -> (r: Option<usize>)
    requires
        start <= l.len(),
    ensures
        match r {
            Some(j) => find_inline_marker(l@, start as int) == Some(j as int),
            None => find_inline_marker(l@, start as int) is None,
        },
{
    let mut i = start;
    while i < l.len()
        invariant
            start <= i <= l.len(),
            find_inline_marker(l@, start as int) == find_inline_marker(l@, i as int),
        decreases l.len() - i,
    {
        if l[i] == '*' || l[i] == '[' {
            return Some(i);
        }
        i += 1;
    }
    None
}

#[verifier::rlimit(100)]
fn push_inline(l: &Vec<char>, out: &mut Vec<MdEvent>)
    ensures
        final(out).deep_view() == old(out).deep_view() + inline_events(l@),
{
    let ghost base = out.deep_view();
    let mut i: usize = 0;
    let mut em = false;
    let mut st = false;
    proof {
        assert(base + inline_from(l@, 0, false, false) =~= base + inline_events(l@));
    }
    while i < l.len()
        invariant
            i <= l.len(),
            base + inline_events(l@) == out.deep_view() + inline_from(l@, i as int, em, st),
        decreases l.len() - i,
    {
        let ghost prev = out.deep_view();
        if l[i] == '*' {
            if i + 1 < l.len() && l[i + 1] == '*' {
                if st {
                    out.push(MdEvent::StrongEnd);
                } else {
                    out.push(MdEvent::StrongStart);
                }
                st = !st;
                i += 2;
            } else {
                if em {
                    out.push(MdEvent::EmphasisEnd);
                } else {
                    out.push(MdEvent::EmphasisStart);
                }
                em = !em;
                i += 1;
            }
            proof {
                assert(base + inline_events(l@) =~= out.deep_view() + inline_from(
                    l@,
                    i as int,
                    em,
                    st,
                ));
            }
        } else if l[i] == '[' {
            proof {
                lemma_find_pat_props(l@, seq![']'], i + 1 as int);
            }
            let bracket = vec![']'];
            proof {
                assert(bracket@ =~= seq![']']);
            }
            let mut linked = false;
            match find_pat(l, &bracket, i + 1) {
                Some(j) => {
                    if j + 1 < l.len() && l[j + 1] == '(' {
                        proof {
                            lemma_find_pat_props(l@, seq![')'], j + 2 as int);
                        }
                        let paren = vec![')'];
                        proof {
                            assert(paren@ =~= seq![')']);
                        }
                        match find_pat(l, &paren, j + 2) {
                            Some(k) => {
                                let text = vec_subrange(l, i + 1, j);
                                out.push(MdEvent::Text(chars_to_string(&text)));
                                proof {
                                    assert(link_at(l@, i as int) == Some((j as int, k + 1 as int)));
                                    assert(base + inline_events(l@) =~= out.deep_view()
                                        + inline_from(l@, k + 1 as int, em, st));
                                }
                                i = k + 1;
                                linked = true;
                            },
                            None => {},
                        }
                    }
                },
                None => {},
            }
            if !linked {
                let literal = vec_subrange(l, i, i + 1);
                out.push(MdEvent::Text(chars_to_string(&literal)));
                proof {
                    assert(link_at(l@, i as int) is None);
                    assert(base + inline_events(l@) =~= out.deep_view() + inline_from(
                        l@,
                        i + 1 as int,
                        em,
                        st,
                    ));
                }
                i += 1;
            }
        } else {
            proof {
                lemma_find_inline_marker_props(l@, i as int);
            }
            match find_inline_marker_exec(l, i) {
                Some(j) => {
                    let chunk = vec_subrange(l, i, j);
                    out.push(MdEvent::Text(chars_to_string(&chunk)));
                    proof {
                        assert(base + inline_events(l@) =~= out.deep_view() + inline_from(
                            l@,
                            j as int,
                            em,
                            st,
                        ));
                    }
                    i = j;
                },
                None => {
                    let chunk = vec_subrange(l, i, l.len());
                    out.push(MdEvent::Text(chars_to_string(&chunk)));
                    proof {
                        assert(base + inline_events(l@) =~= out.deep_view() + inline_from(
                            l@,
                            l@.len() as int,
                            em,
                            st,
                        ));
                    }
                    i = l.len();
                },
            }
        }
    }
    if st {
        out.push(MdEvent::StrongEnd);
    }
    if em {
        out.push(MdEvent::EmphasisEnd);
    }
    proof {
        assert(final(out).deep_view() =~= out.deep_view());
        assert(out.deep_view() =~= base + inline_events(l@));
    }
}

/// Appends the events of one table row.
fn push_row_events(l: &Vec<char>, out: &mut Vec<MdEvent>)
    ensures
        final(out).deep_view() == old(out).deep_view() + row_events(l@),
{
    let ghost base = out.deep_view();
    let mut cells = split_cells_exec(l);
    let ghost cs0 = cells.deep_view();
    if cells.len() > 0 && cells[0].len() == 0 {
        let first = cells.remove(0);
        proof {
            assert(cells.deep_view() =~= cs0.drop_first());
        }
    }
    let ghost cs1 = cells.deep_view();
    if cells.len() > 0 && cells[cells.len() - 1].len() == 0 {
        cells.pop();
        proof {
            assert(cells.deep_view() =~= cs1.drop_last());
        }
    }
    proof {
        assert(cells.deep_view() == row_cells(l@));
    }
    let ghost cs = cells.deep_view();
    out.push(MdEvent::TableRowStart);
    let mut k: usize = 0;
    proof {
        assert(out.deep_view() =~= base + seq![EventSpec::TableRowStart] + cell_events(cs, 0).take(
            0,
        ));
    }
    while k < cells.len()
        invariant
            k <= cells.len(),
            cs == cells.deep_view(),
            base + seq![EventSpec::TableRowStart] + cell_events(cs, 0) == out.deep_view()
                + cell_events(cs, k as int),
        decreases cells.len() - k,
    {
        let ghost prev = out.deep_view();
        proof {
            assert(cs[k as int] =~= cells@[k as int]@);
        }
        out.push(MdEvent::TableCellStart);
        let text = chars_to_string(&cells[k]);
        out.push(MdEvent::Text(text));
        proof {
            assert(out.deep_view() =~= prev + seq![
                EventSpec::TableCellStart,
                EventSpec::Text(cs[k as int]),
            ]);
            assert(base + seq![EventSpec::TableRowStart] + cell_events(cs, 0) =~= out.deep_view()
                + cell_events(cs, k + 1 as int));
        }
        k += 1;
    }
    let ghost pre_end = out.deep_view();
    out.push(MdEvent::TableRowEnd);
    proof {
        assert(cell_events(cs, cs.len() as int) =~= Seq::<EventSpec>::empty());
        assert(pre_end =~= base + seq![EventSpec::TableRowStart] + cell_events(cs, 0));
        assert(out.deep_view() =~= pre_end.push(EventSpec::TableRowEnd));
        assert(pre_end.push(EventSpec::TableRowEnd) =~= base + (seq![EventSpec::TableRowStart]
            + cell_events(cs, 0) + seq![EventSpec::TableRowEnd]));
    }
}

/// Appends `n` list-end events.
fn push_list_ends(n: usize, out: &mut Vec<MdEvent>)
    ensures
        final(out).deep_view() == old(out).deep_view() + list_ends(n as int),
{
    let ghost base = out.deep_view();
    let mut k: usize = 0;
    while k < n
        invariant
            k <= n,
            out.deep_view() + list_ends(n - k as int) == base + list_ends(n as int),
        decreases n - k,
    {
        let ghost prev = out.deep_view();
        out.push(MdEvent::ListEnd);
        proof {
            assert(prev + (seq![EventSpec::ListEnd] + list_ends(n - k - 1 as int)) =~= out
                .deep_view() + list_ends(n - k - 1 as int));
        }
        k += 1;
    }
    proof {
        assert(out.deep_view() + list_ends(0) =~= out.deep_view());
    }
}

/// Appends `n` list-start events of the given type.
fn push_list_opens(ty: Option<u64>, n: usize, out: &mut Vec<MdEvent>)
    ensures
        final(out).deep_view() == old(out).deep_view() + list_opens(ty, n as int),
{
    let ghost base = out.deep_view();
    let mut k: usize = 0;
    while k < n
        invariant
            k <= n,
            out.deep_view() + list_opens(ty, n - k as int) == base + list_opens(ty, n as int),
        decreases n - k,
    {
        let ghost prev = out.deep_view();
        out.push(MdEvent::ListStart(ty));
        proof {
            assert(prev + (seq![EventSpec::ListStart(ty)] + list_opens(ty, n - k - 1 as int)) =~=
                out.deep_view() + list_opens(ty, n - k - 1 as int));
        }
        k += 1;
    }
    proof {
        assert(out.deep_view() + list_opens(ty, 0) =~= out.deep_view());
    }
}

/// The parser's running state carried between lines.
pub struct ParserState {
    pub in_para: bool,
    pub in_code: bool,
    pub in_table: bool,
    pub lists: Vec<Option<u64>>,
}

impl View for ParserState {
    type V = ParseSt;

    open spec fn view(&self) -> ParseSt {
        ParseSt {
            in_para: self.in_para,
            lists: self.lists@,
            in_code: self.in_code,
            in_table: self.in_table,
        }
    }
}

proof fn lemma_evs_assoc(a: Seq<EventSpec>, b: Seq<EventSpec>, c: Seq<EventSpec>)
    ensures
        a + b + c == a + (b + c),
{
    assert(a + b + c =~= a + (b + c));
}

/// Closes an open paragraph and all open lists before a block construct.
fn close_para_and_lists(ps: &mut ParserState, out: &mut Vec<MdEvent>)
    ensures
        final(out).deep_view() == old(out).deep_view() + close_para(old(ps)@) + list_ends(
            old(ps)@.lists.len() as int,
        ),
        final(ps)@ == (ParseSt { in_para: false, lists: Seq::empty(), ..old(ps)@ }),
{
    let ghost prev = out.deep_view();
    let ghost st = ps@;
    if ps.in_para {
        out.push(MdEvent::ParagraphEnd);
        ps.in_para = false;
    }
    proof {
        assert(out.deep_view() =~= prev + close_para(st));
    }
    push_list_ends(ps.lists.len(), out);
    ps.lists.clear();
    proof {
        assert(ps@ =~= (ParseSt { in_para: false, lists: Seq::empty(), ..st }));
    }
}

fn handle_code_line(lines: &Vec<Vec<char>>, i: usize, ps: &mut ParserState, out: &mut Vec<MdEvent>)
    requires
        i < lines.len(),
        old(ps).in_code,
    ensures
        final(out).deep_view() + parse_lines(lines.deep_view(), i + 1 as int, final(ps)@) == old(
            out,
        ).deep_view() + parse_lines(lines.deep_view(), i as int, old(ps)@),
{
    let ghost all = lines.deep_view();
    let ghost st = ps@;
    let ghost l = all[i as int];
    proof {
        assert(l =~= lines@[i as int]@);
    }
    let line = &lines[i];
    let ghost prev = out.deep_view();
    if starts_fence_exec(line) {
        out.push(MdEvent::CodeBlockEnd);
        ps.in_code = false;
        proof {
            assert(out.deep_view() =~= prev + seq![EventSpec::CodeBlockEnd]);
            assert(ps@ =~= (ParseSt { in_code: false, ..st }));
            lemma_evs_assoc(prev, seq![EventSpec::CodeBlockEnd], parse_lines(all, i + 1, ps@));
        }
    } else {
        let mut content = vec_subrange(line, 0, line.len());
        content.push('\n');
        proof {
            assert(content@ =~= l.push('\n'));
        }
        out.push(MdEvent::Text(chars_to_string(&content)));
        proof {
            assert(out.deep_view() =~= prev + seq![EventSpec::Text(l.push('\n'))]);
            lemma_evs_assoc(prev, seq![EventSpec::Text(l.push('\n'))], parse_lines(all, i + 1, ps@));
        }
    }
}

fn handle_table_row(lines: &Vec<Vec<char>>, i: usize, ps: &mut ParserState, out: &mut Vec<MdEvent>)
    requires
        i < lines.len(),
        !old(ps).in_code,
        old(ps).in_table,
        has_pipe(lines.deep_view()[i as int]),
    ensures
        final(out).deep_view() + parse_lines(lines.deep_view(), i + 1 as int, final(ps)@) == old(
            out,
        ).deep_view() + parse_lines(lines.deep_view(), i as int, old(ps)@),
{
    let ghost all = lines.deep_view();
    let ghost st = ps@;
    let ghost l = all[i as int];
    proof {
        assert(l =~= lines@[i as int]@);
    }
    let line = &lines[i];
    let ghost prev = out.deep_view();
    if is_table_sep_exec(line) {
        proof {
            assert(out.deep_view() =~= prev + Seq::<EventSpec>::empty());
            lemma_evs_assoc(prev, Seq::<EventSpec>::empty(), parse_lines(all, i + 1, ps@));
        }
    } else {
        push_row_events(line, out);
        proof {
            lemma_evs_assoc(prev, row_events(l), parse_lines(all, i + 1, ps@));
        }
    }
}

fn handle_blank(lines: &Vec<Vec<char>>, i: usize, ps: &mut ParserState, out: &mut Vec<MdEvent>)
    requires
        i < lines.len(),
        !old(ps).in_code,
        !old(ps).in_table,
        all_ws(lines.deep_view()[i as int]),
    ensures
        final(out).deep_view() + parse_lines(lines.deep_view(), i + 1 as int, final(ps)@) == old(
            out,
        ).deep_view() + parse_lines(lines.deep_view(), i as int, old(ps)@),
{
    let ghost all = lines.deep_view();
    let ghost st = ps@;
    let ghost prev = out.deep_view();
    close_para_and_lists(ps, out);
    proof {
        lemma_evs_assoc(
            prev,
            close_para(st) + list_ends(st.lists.len() as int),
            parse_lines(all, i + 1, ps@),
        );
    }
}

fn handle_fence_open(
    lines: &Vec<Vec<char>>,
    i: usize,
    ps: &mut ParserState,
    out: &mut Vec<MdEvent>,
)
    requires
        i < lines.len(),
        !old(ps).in_code,
        !old(ps).in_table,
        !all_ws(lines.deep_view()[i as int]),
        starts_fence(lines.deep_view()[i as int]),
    ensures
        final(out).deep_view() + parse_lines(lines.deep_view(), i + 1 as int, final(ps)@) == old(
            out,
        ).deep_view() + parse_lines(lines.deep_view(), i as int, old(ps)@),
{
    let ghost all = lines.deep_view();
    let ghost st = ps@;
    let ghost l = all[i as int];
    proof {
        assert(l =~= lines@[i as int]@);
    }
    let line = &lines[i];
    let ghost prev = out.deep_view();
    close_para_and_lists(ps, out);
    let tail = vec_subrange(line, 3, line.len());
    let lang = trim_chars(&tail);
    proof {
        assert(lang@ == fence_lang(l));
    }
    let ghost mid = out.deep_view();
    out.push(MdEvent::CodeBlockStart(chars_to_string(&lang)));
    ps.in_code = true;
    proof {
        assert(out.deep_view() =~= mid.push(EventSpec::CodeBlockStart(fence_lang(l))));
        let e = close_para(st) + list_ends(st.lists.len() as int) + seq![
            EventSpec::CodeBlockStart(fence_lang(l)),
        ];
        assert(out.deep_view() =~= prev + e);
        assert(ps@ =~= (ParseSt { in_para: false, lists: Seq::empty(), in_code: true, ..st }));
        lemma_evs_assoc(prev, e, parse_lines(all, i + 1, ps@));
    }
}

fn handle_heading(lines: &Vec<Vec<char>>, i: usize, ps: &mut ParserState, out: &mut Vec<MdEvent>)
    requires
        i < lines.len(),
        !old(ps).in_code,
        !old(ps).in_table,
        !all_ws(lines.deep_view()[i as int]),
        !starts_fence(lines.deep_view()[i as int]),
        is_heading(lines.deep_view()[i as int]),
    ensures
        final(out).deep_view() + parse_lines(lines.deep_view(), i + 1 as int, final(ps)@) == old(
            out,
        ).deep_view() + parse_lines(lines.deep_view(), i as int, old(ps)@),
{
    let ghost all = lines.deep_view();
    let ghost st = ps@;
    let ghost l = all[i as int];
    proof {
        assert(l =~= lines@[i as int]@);
    }
    let line = &lines[i];
    let ghost prev = out.deep_view();
    close_para_and_lists(ps, out);
    let hashes = lead_hashes_exec(line);
    let ghost mid0 = out.deep_view();
    out.push(MdEvent::HeadingStart(hashes as u32));
    let ghost mid1 = out.deep_view();
    let text_part = vec_subrange(line, hashes + 1, line.len());
    proof {
        assert(text_part@ =~= heading_text(l));
    }
    push_inline(&text_part, out);
    let ghost mid2 = out.deep_view();
    out.push(MdEvent::HeadingEnd);
    proof {
        assert(mid1 =~= mid0.push(EventSpec::HeadingStart(heading_level(l) as u32)));
        assert(mid2 == mid1 + inline_events(heading_text(l)));
        assert(out.deep_view() =~= mid2.push(EventSpec::HeadingEnd));
        let e = close_para(st) + list_ends(st.lists.len() as int) + seq![
            EventSpec::HeadingStart(heading_level(l) as u32),
        ] + inline_events(heading_text(l)) + seq![EventSpec::HeadingEnd];
        assert(out.deep_view() =~= prev + e);
        assert(ps@ =~= (ParseSt { in_para: false, lists: Seq::empty(), ..st }));
        lemma_evs_assoc(prev, e, parse_lines(all, i + 1, ps@));
    }
}

fn handle_rule(lines: &Vec<Vec<char>>, i: usize, ps: &mut ParserState, out: &mut Vec<MdEvent>)
    requires
        i < lines.len(),
        !old(ps).in_code,
        !old(ps).in_table,
        !all_ws(lines.deep_view()[i as int]),
        !starts_fence(lines.deep_view()[i as int]),
        !is_heading(lines.deep_view()[i as int]),
        is_rule_line(lines.deep_view()[i as int]),
    ensures
        final(out).deep_view() + parse_lines(lines.deep_view(), i + 1 as int, final(ps)@) == old(
            out,
        ).deep_view() + parse_lines(lines.deep_view(), i as int, old(ps)@),
{
    let ghost all = lines.deep_view();
    let ghost st = ps@;
    let ghost prev = out.deep_view();
    close_para_and_lists(ps, out);
    let ghost mid = out.deep_view();
    out.push(MdEvent::HorizontalRule);
    proof {
        assert(out.deep_view() =~= mid.push(EventSpec::HorizontalRule));
        let e = close_para(st) + list_ends(st.lists.len() as int) + seq![
            EventSpec::HorizontalRule,
        ];
        assert(out.deep_view() =~= prev + e);
        assert(ps@ =~= (ParseSt { in_para: false, lists: Seq::empty(), ..st }));
        lemma_evs_assoc(prev, e, parse_lines(all, i + 1, ps@));
    }
}

fn handle_table_open(
    lines: &Vec<Vec<char>>,
    i: usize,
    ps: &mut ParserState,
    out: &mut Vec<MdEvent>,
)
    requires
        i < lines.len(),
        !old(ps).in_code,
        !old(ps).in_table,
        !all_ws(lines.deep_view()[i as int]),
        !starts_fence(lines.deep_view()[i as int]),
        !is_heading(lines.deep_view()[i as int]),
        !is_rule_line(lines.deep_view()[i as int]),
        has_pipe(lines.deep_view()[i as int]),
    ensures
        final(out).deep_view() + parse_lines(lines.deep_view(), i + 1 as int, final(ps)@) == old(
            out,
        ).deep_view() + parse_lines(lines.deep_view(), i as int, old(ps)@),
{
    let ghost all = lines.deep_view();
    let ghost st = ps@;
    let ghost l = all[i as int];
    proof {
        assert(l =~= lines@[i as int]@);
    }
    let line = &lines[i];
    let ghost prev = out.deep_view();
    close_para_and_lists(ps, out);
    let ghost mid0 = out.deep_view();
    out.push(MdEvent::TableStart);
    let ghost mid = out.deep_view();
    proof {
        assert(mid =~= mid0.push(EventSpec::TableStart));
    }
    if is_table_sep_exec(line) {
        proof {
            assert(out.deep_view() =~= mid + Seq::<EventSpec>::empty());
        }
    } else {
        push_row_events(line, out);
    }
    ps.in_table = true;
    proof {
        let e = close_para(st) + list_ends(st.lists.len() as int) + seq![EventSpec::TableStart]
            + (if is_table_sep(l) {
            Seq::<EventSpec>::empty()
        } else {
            row_events(l)
        });
        assert(out.deep_view() =~= prev + e);
        assert(ps@ =~= (ParseSt {
            in_para: false,
            lists: Seq::empty(),
            in_table: true,
            ..st
        }));
        lemma_evs_assoc(prev, e, parse_lines(all, i + 1, ps@));
    }
}

fn handle_marker(
    lines: &Vec<Vec<char>>,
    i: usize,
    depth: usize,
    ty: Option<u64>,
    content: Vec<char>,
    ps: &mut ParserState,
    out: &mut Vec<MdEvent>,
)
    requires
        i < lines.len(),
        !old(ps).in_code,
        !old(ps).in_table,
        !all_ws(lines.deep_view()[i as int]),
        !starts_fence(lines.deep_view()[i as int]),
        !is_heading(lines.deep_view()[i as int]),
        !is_rule_line(lines.deep_view()[i as int]),
        !has_pipe(lines.deep_view()[i as int]),
        line_marker(lines.deep_view()[i as int]) == Some(
            (depth as int, ty, content@),
        ),
    ensures
        final(out).deep_view() + parse_lines(lines.deep_view(), i + 1 as int, final(ps)@) == old(
            out,
        ).deep_view() + parse_lines(lines.deep_view(), i as int, old(ps)@),
{
    let ghost all = lines.deep_view();
    let ghost st = ps@;
    let ghost l = all[i as int];
    proof {
        assert(l =~= lines@[i as int]@);
    }
    let ghost prev = out.deep_view();
    if ps.in_para {
        out.push(MdEvent::ParagraphEnd);
        ps.in_para = false;
    }
    proof {
        assert(out.deep_view() =~= prev + close_para(st));
    }
    if ps.lists.len() > depth {
        push_list_ends(ps.lists.len() - depth, out);
        ps.lists.truncate(depth);
        proof {
            assert(ps.lists@ =~= stack_after(st.lists, ty, depth as int));
        }
    } else {
        let opens = depth - ps.lists.len();
        push_list_opens(ty, opens, out);
        let mut added: usize = 0;
        let ghost lists0 = ps.lists@;
        while added < opens
            invariant
                added <= opens,
                ps.lists@ == lists0 + Seq::new(added as nat, |k: int| ty),
                !ps.in_para,
                ps.in_code == st.in_code,
                ps.in_table == st.in_table,
            decreases opens - added,
        {
            ps.lists.push(ty);
            proof {
                assert(ps.lists@ =~= lists0 + Seq::new((added + 1) as nat, |k: int| ty));
            }
            added += 1;
        }
        proof {
            assert(ps.lists@ =~= stack_after(st.lists, ty, depth as int));
        }
    }
    let ghost mid0 = out.deep_view();
    out.push(MdEvent::ItemStart);
    let ghost mid1 = out.deep_view();
    push_inline(&content, out);
    let ghost mid2 = out.deep_view();
    out.push(MdEvent::ItemEnd);
    proof {
        assert(mid0 =~= prev + close_para(st) + adjust_events(st.lists, ty, depth as int));
        assert(mid1 =~= mid0.push(EventSpec::ItemStart));
        assert(mid2 == mid1 + inline_events(content@));
        assert(out.deep_view() =~= mid2.push(EventSpec::ItemEnd));
        let e = close_para(st) + adjust_events(st.lists, ty, depth as int) + seq![
            EventSpec::ItemStart,
        ] + inline_events(content@) + seq![EventSpec::ItemEnd];
        assert(out.deep_view() =~= prev + e);
        assert(ps.lists@ =~= stack_after(st.lists, ty, depth as int));
        assert(!ps.in_para);
        assert(ps.in_code == st.in_code && ps.in_table == st.in_table);
        assert(ps@ =~= (ParseSt {
            in_para: false,
            lists: stack_after(st.lists, ty, depth as int),
            ..st
        }));
        lemma_evs_assoc(prev, e, parse_lines(all, i + 1, ps@));
    }
}

fn handle_quote(lines: &Vec<Vec<char>>, i: usize, ps: &mut ParserState, out: &mut Vec<MdEvent>)
    requires
        i < lines.len(),
        !old(ps).in_code,
        !old(ps).in_table,
        !all_ws(lines.deep_view()[i as int]),
        !starts_fence(lines.deep_view()[i as int]),
        !is_heading(lines.deep_view()[i as int]),
        !is_rule_line(lines.deep_view()[i as int]),
        !has_pipe(lines.deep_view()[i as int]),
        line_marker(lines.deep_view()[i as int]) is None,
        is_quote(lines.deep_view()[i as int]),
    ensures
        final(out).deep_view() + parse_lines(lines.deep_view(), i + 1 as int, final(ps)@) == old(
            out,
        ).deep_view() + parse_lines(lines.deep_view(), i as int, old(ps)@),
{
    let ghost all = lines.deep_view();
    let ghost st = ps@;
    let ghost l = all[i as int];
    proof {
        assert(l =~= lines@[i as int]@);
    }
    let line = &lines[i];
    let ghost prev = out.deep_view();
    if ps.in_para {
        out.push(MdEvent::ParagraphEnd);
        ps.in_para = false;
    }
    proof {
        assert(out.deep_view() =~= prev + close_para(st));
    }
    let ghost mid0 = out.deep_view();
    out.push(MdEvent::BlockQuoteStart);
    let ghost mid1 = out.deep_view();
    let content = if line.len() >= 2 && line[1] == ' ' {
        vec_subrange(line, 2, line.len())
    } else {
        vec_subrange(line, 1, line.len())
    };
    proof {
        assert(content@ =~= quote_content(l));
    }
    push_inline(&content, out);
    let ghost mid2 = out.deep_view();
    out.push(MdEvent::BlockQuoteEnd);
    proof {
        assert(mid1 =~= mid0.push(EventSpec::BlockQuoteStart));
        assert(mid2 == mid1 + inline_events(quote_content(l)));
        assert(out.deep_view() =~= mid2.push(EventSpec::BlockQuoteEnd));
        let e = close_para(st) + seq![EventSpec::BlockQuoteStart] + inline_events(
            quote_content(l),
        ) + seq![EventSpec::BlockQuoteEnd];
        assert(out.deep_view() =~= prev + e);
        assert(ps@ =~= (ParseSt { in_para: false, ..st }));
        lemma_evs_assoc(prev, e, parse_lines(all, i + 1, ps@));
    }
}

fn handle_text(lines: &Vec<Vec<char>>, i: usize, ps: &mut ParserState, out: &mut Vec<MdEvent>)
    requires
        i < lines.len(),
        !old(ps).in_code,
        !old(ps).in_table,
        !all_ws(lines.deep_view()[i as int]),
        !starts_fence(lines.deep_view()[i as int]),
        !is_heading(lines.deep_view()[i as int]),
        !is_rule_line(lines.deep_view()[i as int]),
        !has_pipe(lines.deep_view()[i as int]),
        line_marker(lines.deep_view()[i as int]) is None,
        !is_quote(lines.deep_view()[i as int]),
    ensures
        final(out).deep_view() + parse_lines(lines.deep_view(), i + 1 as int, final(ps)@) == old(
            out,
        ).deep_view() + parse_lines(lines.deep_view(), i as int, old(ps)@),
{
    let ghost all = lines.deep_view();
    let ghost st = ps@;
    let ghost l = all[i as int];
    proof {
        assert(l =~= lines@[i as int]@);
    }
    let line = &lines[i];
    let ghost prev = out.deep_view();
    if ps.in_para {
        out.push(MdEvent::SoftBreak);
        proof {
            assert(out.deep_view() =~= prev + seq![EventSpec::SoftBreak]);
        }
    } else {
        push_list_ends(ps.lists.len(), out);
        ps.lists.clear();
        let ghost mid0 = out.deep_view();
        out.push(MdEvent::ParagraphStart);
        proof {
            assert(mid0 == prev + list_ends(st.lists.len() as int));
            assert(out.deep_view() =~= mid0.push(EventSpec::ParagraphStart));
            assert(out.deep_view() =~= prev + (list_ends(st.lists.len() as int) + seq![
                EventSpec::ParagraphStart,
            ]));
        }
    }
    push_inline(line, out);
    ps.in_para = true;
    proof {
        let opener = if st.in_para {
            seq![EventSpec::SoftBreak]
        } else {
            list_ends(st.lists.len() as int) + seq![EventSpec::ParagraphStart]
        };
        let e = opener + inline_events(l);
        assert(out.deep_view() =~= prev + e);
        assert(ps@ =~= (ParseSt {
            in_para: true,
            lists: if st.in_para {
                st.lists
            } else {
                Seq::empty()
            },
            ..st
        }));
        lemma_evs_assoc(prev, e, parse_lines(all, i + 1, ps@));
    }
}

/// Handles one line: appends its events, updates the parser state, and says
/// whether the line was consumed (a line that ends an open table is looked
/// at again).
fn parse_one(
    lines: &Vec<Vec<char>>,
    i: usize,
    ps: &mut ParserState,
    out: &mut Vec<MdEvent>,
) -> (adv: bool)
    requires
        i < lines.len(),
    ensures
        final(out).deep_view() + parse_lines(
            lines.deep_view(),
            if adv {
                i + 1 as int
            } else {
                i as int
            },
            final(ps)@,
        ) == old(out).deep_view() + parse_lines(lines.deep_view(), i as int, old(ps)@),
        !adv ==> old(ps).in_table && !final(ps).in_table,
{
    let ghost all = lines.deep_view();
    let ghost st = ps@;
    let ghost l = all[i as int];
    proof {
        assert(l =~= lines@[i as int]@);
    }
    let line = &lines[i];
    if ps.in_code {
        handle_code_line(lines, i, ps, out);
        return true;
    }
    if ps.in_table {
        if has_pipe_exec(line) {
            handle_table_row(lines, i, ps, out);
            return true;
        } else {
            let ghost prev = out.deep_view();
            out.push(MdEvent::TableEnd);
            ps.in_table = false;
            proof {
                assert(out.deep_view() =~= prev + seq![EventSpec::TableEnd]);
                assert(ps@ =~= (ParseSt { in_table: false, ..st }));
                lemma_evs_assoc(prev, seq![EventSpec::TableEnd], parse_lines(all, i as int, ps@));
            }
            return false;
        }
    }
    if all_ws_exec(line) {
        handle_blank(lines, i, ps, out);
        return true;
    }
    if starts_fence_exec(line) {
        handle_fence_open(lines, i, ps, out);
        return true;
    }
    let hashes = lead_hashes_exec(line);
    if 1 <= hashes && hashes <= 6 && hashes < line.len() && line[hashes] == ' ' {
        handle_heading(lines, i, ps, out);
        return true;
    }
    if is_rule_line_exec(line) {
        handle_rule(lines, i, ps, out);
        return true;
    }
    if has_pipe_exec(line) {
        handle_table_open(lines, i, ps, out);
        return true;
    }
    match line_marker_exec(line) {
        Some((depth, ty, content)) => {
            handle_marker(lines, i, depth, ty, content, ps, out);
            true
        },
        None => {
            if is_quote_exec(line) {
                handle_quote(lines, i, ps, out);
                true
            } else {
                handle_text(lines, i, ps, out);
                true
            }
        },
    }
}

/// Parses one segment of sanitized text into Markdown events.
pub fn parse_events(text: &Vec<char>) -> (evs: Vec<MdEvent>)
    ensures
        evs.deep_view() == parse_events_spec(text@),
{
    let lines = split_lines(text);
    let ghost all = lines.deep_view();
    let mut out: Vec<MdEvent> = Vec::new();
    let mut i: usize = 0;
    let mut ps = ParserState { in_para: false, in_code: false, in_table: false, lists: Vec::new() };
    proof {
        assert(ps@ =~= (ParseSt {
            in_para: false,
            lists: Seq::empty(),
            in_code: false,
            in_table: false,
        }));
        assert(out.deep_view() + parse_lines(all, 0, ps@) =~= parse_lines(all, 0, ps@));
    }
    while i < lines.len()
        invariant
            i <= lines.len(),
            all == lines.deep_view(),
            parse_events_spec(text@) == out.deep_view() + parse_lines(all, i as int, ps@),
        decreases lines.len() - i, (if ps.in_table {
            1int
        } else {
            0int
        }),
    {
        let adv = parse_one(&lines, i, &mut ps, &mut out);
        if adv {
            i += 1;
        }
    }
    let ghost st_end = ps@;
    let ghost prev = out.deep_view();
    if ps.in_para {
        out.push(MdEvent::ParagraphEnd);
    }
    let ghost d1 = out.deep_view();
    if ps.in_table {
        out.push(MdEvent::TableEnd);
    }
    let ghost d2 = out.deep_view();
    push_list_ends(ps.lists.len(), &mut out);
    let ghost d3 = out.deep_view();
    if ps.in_code {
        out.push(MdEvent::CodeBlockEnd);
    }
    proof {
        assert(d1 =~= prev + close_para(st_end));
        assert(d2 =~= d1 + (if st_end.in_table {
            seq![EventSpec::TableEnd]
        } else {
            Seq::<EventSpec>::empty()
        }));
        assert(d3 == d2 + list_ends(st_end.lists.len() as int));
        assert(out.deep_view() =~= d3 + (if st_end.in_code {
            seq![EventSpec::CodeBlockEnd]
        } else {
            Seq::<EventSpec>::empty()
        }));
        assert(out.deep_view() =~= prev + (close_para(st_end) + (if st_end.in_table {
            seq![EventSpec::TableEnd]
        } else {
            Seq::<EventSpec>::empty()
        }) + list_ends(st_end.lists.len() as int) + (if st_end.in_code {
            seq![EventSpec::CodeBlockEnd]
        } else {
            Seq::<EventSpec>::empty()
        })));
        assert(out.deep_view() =~= parse_events_spec(text@));
    }
    out
}

} // verus!
