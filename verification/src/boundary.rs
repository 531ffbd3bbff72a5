//! Flush-boundary selection: given the not-yet-rendered buffer, decide the
//! longest prefix that is safe to hand to the renderer without splitting a
//! fenced code block, a table row, or a paragraph.
//!
//! The rules form a priority-ordered decision table; the first that matches
//! wins:
//! 1. a complete fenced code block is flushed whole, through its closing
//!    fence (and a newline right after it);
//! 2. a finished table row followed by a line that starts no new row is
//!    flushed through that row's newline;
//! 3. a paragraph break (a blank line) is flushed through the whole run of
//!    consecutive newlines;
//! 4. once the buffer has reached the configured chunk size, a sentence end,
//!    other terminal punctuation before whitespace, a comma, a dash, or a
//!    late word boundary is preferred, and failing all of those the cut is
//!    made exactly at the chunk size;
//! 5. otherwise no cut is made.

use vstd::prelude::*;
use crate::chars::is_ws;
use crate::chars::is_ws_char;

verus! {

/// Pattern `pat` occurs in `s` starting at index `i`.
pub open spec fn match_at(s: Seq<char>, pat: Seq<char>, i: int) -> bool {
    0 <= i && i + pat.len() <= s.len() && s.subrange(i, i + pat.len()) == pat
}

/// The leftmost occurrence of `pat` in `s` at or after index `i`.
pub open spec fn find_pat_from(s: Seq<char>, pat: Seq<char>, i: int) -> Option<int>
    decreases s.len() - i,
    when i >= 0 && pat.len() >= 1
{
    if i + pat.len() > s.len() {
        None
    } else if match_at(s, pat, i) {
        Some(i)
    } else {
        find_pat_from(s, pat, i + 1)
    }
}

/// The rightmost occurrence of `pat` that lies wholly inside the first `w`
/// characters of `s`.
pub open spec fn rfind_pat_upto(s: Seq<char>, pat: Seq<char>, w: int) -> Option<int>
    decreases w,
    when w <= s.len() && pat.len() >= 1
{
    if w < pat.len() {
        None
    } else if match_at(s, pat, w - pat.len()) {
        Some(w - pat.len())
    } else {
        rfind_pat_upto(s, pat, w - 1)
    }
}

/// Sentence-terminal punctuation.
pub open spec fn is_sentence_punct(c: char) -> bool {
    c == '.' || c == '!' || c == '?' || c == ':'
}

/// The rightmost sentence-terminal punctuation character among the first `w`
/// characters of `s`.
pub open spec fn rfind_punct_upto(s: Seq<char>, w: int) -> Option<int>
    decreases w,
    when w <= s.len()
{
    if w <= 0 {
        None
    } else if is_sentence_punct(s[w - 1]) {
        Some(w - 1)
    } else {
        rfind_punct_upto(s, w - 1)
    }
}

/// The rightmost whitespace character among the first `w` characters of `s`.
pub open spec fn rfind_ws_upto(s: Seq<char>, w: int) -> Option<int>
    decreases w,
    when w <= s.len()
{
    if w <= 0 {
        None
    } else if is_ws(s[w - 1]) {
        Some(w - 1)
    } else {
        rfind_ws_upto(s, w - 1)
    }
}

/// The first index at or after `i` holding no newline.
pub open spec fn skip_newlines(s: Seq<char>, i: int) -> int
    decreases s.len() - i,
    when 0 <= i <= s.len()
{
    if i < s.len() && s[i] == '\n' {
        skip_newlines(s, i + 1)
    } else {
        i
    }
}

/// A triple-backtick fence marker.
pub open spec fn fence_pat() -> Seq<char> {
    seq!['`', '`', '`']
}

/// The first two non-overlapping fence markers in `s`, if the buffer holds a
/// complete fenced code block.
pub open spec fn complete_fence(s: Seq<char>) -> Option<(int, int)> {
    match find_pat_from(s, fence_pat(), 0) {
        None => None,
        Some(j1) => match find_pat_from(s, fence_pat(), j1 + 3) {
            None => None,
            Some(j2) => Some((j1, j2)),
        },
    }
}

/// Rule 1: cut right after a complete fenced code block, including a newline
/// that follows the closing fence.
pub open spec fn fence_rule(s: Seq<char>) -> Option<int> {
    match complete_fence(s) {
        None => None,
        Some(p) => Some(
            if p.1 + 3 < s.len() && s[p.1 + 3] == '\n' {
                p.1 + 4
            } else {
                p.1 + 3
            },
        ),
    }
}

/// Rule 2: cut after a finished table row whose following line starts no new
/// pipe-delimited row.
pub open spec fn table_rule(s: Seq<char>) -> Option<int> {
    match find_pat_from(s, seq!['|'], 0) {
        None => None,
        Some(p) => match find_pat_from(s, seq!['\n'], p) {
            None => None,
            Some(e) => if e + 1 < s.len() && s[e + 1] != '|' {
                Some(e + 1)
            } else {
                None
            },
        },
    }
}

/// Rule 3: cut after a paragraph break, keeping the whole run of consecutive
/// newlines.
pub open spec fn para_rule(s: Seq<char>) -> Option<int> {
    match find_pat_from(s, seq!['\n', '\n'], 0) {
        None => None,
        Some(i) => Some(skip_newlines(s, i + 2)),
    }
}

/// Rule 4, evaluated only once the buffer holds at least `cs` characters:
/// prefer a sentence end, then other terminal punctuation followed by
/// whitespace, then a comma, then a dash boundary, then a whitespace boundary
/// past three quarters of the chunk size, and cut at `cs` as the last resort.
pub open spec fn size_rule(s: Seq<char>, cs: int) -> int {
    match rfind_pat_upto(s, seq!['.', ' '], cs) {
        Some(p) => p + 2,
        None => match rfind_punct_upto(s, cs) {
            Some(q) if q + 1 < s.len() && is_ws(s[q + 1]) => q + 2,
            _ => match rfind_pat_upto(s, seq![',', ' '], cs) {
                Some(r) => r + 2,
                None => match rfind_pat_upto(s, seq![' ', '-', ' '], cs) {
                    Some(d) => d + 3,
                    None => match rfind_ws_upto(s, cs) {
                        Some(w) if w > cs * 3 / 4 => skip_newlines(s, w + 1),
                        _ => cs,
                    },
                },
            },
        },
    }
}

/// The flush boundary for a buffer: the length of the longest safe-to-render
/// prefix, or `0` when nothing can be cut yet.
pub open spec fn boundary_spec(s: Seq<char>, cs: int) -> int {
    match fence_rule(s) {
        Some(b) => b,
        None => match table_rule(s) {
            Some(b) => b,
            None => match para_rule(s) {
                Some(b) => b,
                None => if s.len() >= cs {
                    size_rule(s, cs)
                } else {
                    0
                },
            },
        },
    }
}

pub proof fn lemma_find_pat_props(s: Seq<char>, pat: Seq<char>, i: int)
    requires
        i >= 0,
        pat.len() >= 1,
    ensures
        find_pat_from(s, pat, i) matches Some(j) ==> i <= j && j + pat.len() <= s.len()
            && match_at(s, pat, j),
    decreases s.len() - i,
{
    if i + pat.len() > s.len() {
    } else if match_at(s, pat, i) {
    } else {
        lemma_find_pat_props(s, pat, i + 1);
    }
}

pub proof fn lemma_rfind_pat_props(s: Seq<char>, pat: Seq<char>, w: int)
    requires
        0 <= w <= s.len(),
        pat.len() >= 1,
    ensures
        rfind_pat_upto(s, pat, w) matches Some(p) ==> 0 <= p && p + pat.len() <= w && match_at(
            s,
            pat,
            p,
        ),
    decreases w,
{
    if w < pat.len() {
    } else if match_at(s, pat, w - pat.len()) {
    } else {
        lemma_rfind_pat_props(s, pat, w - 1);
    }
}

pub proof fn lemma_rfind_punct_props(s: Seq<char>, w: int)
    requires
        0 <= w <= s.len(),
    ensures
        rfind_punct_upto(s, w) matches Some(q) ==> 0 <= q < w && is_sentence_punct(s[q]),
    decreases w,
{
    if w <= 0 {
    } else if is_sentence_punct(s[w - 1]) {
    } else {
        lemma_rfind_punct_props(s, w - 1);
    }
}

pub proof fn lemma_rfind_ws_props(s: Seq<char>, w: int)
    requires
        0 <= w <= s.len(),
    ensures
        rfind_ws_upto(s, w) matches Some(q) ==> 0 <= q < w && is_ws(s[q]),
    decreases w,
{
    if w <= 0 {
    } else if is_ws(s[w - 1]) {
    } else {
        lemma_rfind_ws_props(s, w - 1);
    }
}

pub proof fn lemma_skip_newlines_props(s: Seq<char>, i: int)
    requires
        0 <= i <= s.len(),
    ensures
        i <= skip_newlines(s, i) <= s.len(),
    decreases s.len() - i,
{
    if i < s.len() && s[i] == '\n' {
        lemma_skip_newlines_props(s, i + 1);
    }
}

/// The boundary never lies past the end of the buffer, and an empty buffer
/// yields no boundary: re-running the selection on a fully flushed buffer is
/// a no-op.
pub proof fn lemma_boundary_in_range(s: Seq<char>, cs: int)
    requires
        cs >= 0,
    ensures
        0 <= boundary_spec(s, cs) <= s.len(),
        s.len() == 0 ==> boundary_spec(s, cs) == 0,
{
    lemma_find_pat_props(s, fence_pat(), 0);
    if let Some(j1) = find_pat_from(s, fence_pat(), 0) {
        lemma_find_pat_props(s, fence_pat(), j1 + 3);
    }
    lemma_find_pat_props(s, seq!['|'], 0);
    if let Some(p) = find_pat_from(s, seq!['|'], 0) {
        lemma_find_pat_props(s, seq!['\n'], p);
    }
    lemma_find_pat_props(s, seq!['\n', '\n'], 0);
    if let Some(i) = find_pat_from(s, seq!['\n', '\n'], 0) {
        lemma_skip_newlines_props(s, i + 2);
    }
    if s.len() >= cs {
        lemma_rfind_pat_props(s, seq!['.', ' '], cs);
        lemma_rfind_punct_props(s, cs);
        lemma_rfind_pat_props(s, seq![',', ' '], cs);
        lemma_rfind_pat_props(s, seq![' ', '-', ' '], cs);
        lemma_rfind_ws_props(s, cs);
        if let Some(w) = rfind_ws_upto(s, cs) {
            lemma_skip_newlines_props(s, w + 1);
        }
    }
}

/// A buffer holding a complete fenced code block is always cut at or after
/// the end of the closing fence, so the opening and the closing fence stand
/// in the same render segment, whatever follows them.
pub proof fn lemma_complete_fence_not_split(s: Seq<char>, cs: int)
    requires
        cs >= 0,
    ensures
        complete_fence(s) matches Some(p) ==> {
            let b = boundary_spec(s, cs);
            &&& p.1 + 3 <= b <= s.len()
            &&& b > 0
            &&& match_at(s.take(b), fence_pat(), p.0)
            &&& match_at(s.take(b), fence_pat(), p.1)
        },
{
    lemma_boundary_in_range(s, cs);
    if let Some(p) = complete_fence(s) {
        let b = boundary_spec(s, cs);
        lemma_find_pat_props(s, fence_pat(), 0);
        lemma_find_pat_props(s, fence_pat(), p.0 + 3);
        assert(b == fence_rule(s)->Some_0);
        assert(s.take(b).subrange(p.0, p.0 + 3) =~= s.subrange(p.0, p.0 + 3));
        assert(s.take(b).subrange(p.1, p.1 + 3) =~= s.subrange(p.1, p.1 + 3));
    }
}

pub(crate) fn pat_match_here(v: &Vec<char>, pat: &Vec<char>, i: usize) -> (r: bool)
    requires
        i + pat.len() <= v.len(),
    ensures
        r == match_at(v@, pat@, i as int),
{
    let mut k: usize = 0;
    while k < pat.len()
        invariant
            k <= pat.len(),
            i + pat.len() <= v.len(),
            forall|t: int| 0 <= t < k ==> v@[i + t] == pat@[t],
        decreases pat.len() - k,
    {
        if v[i + k] != pat[k] {
            proof {
                assert(v@.subrange(i as int, i + pat@.len())[k as int] == v@[i + k]);
            }
            return false;
        }
        k += 1;
    }
    proof {
        assert(v@.subrange(i as int, i + pat@.len()) =~= pat@);
    }
    true
}

/// The leftmost occurrence of `pat` in `v` at or after `start`.
pub(crate) fn find_pat(v: &Vec<char>, pat: &Vec<char>, start: usize) -> (r: Option<usize>)
    requires
        pat.len() >= 1,
        start <= v.len(),
    ensures
        match r {
            Some(j) => find_pat_from(v@, pat@, start as int) == Some(j as int),
            None => find_pat_from(v@, pat@, start as int) is None,
        },
{
    let mut i = start;
    loop
        invariant
            start <= i <= v.len(),
            pat.len() >= 1,
            find_pat_from(v@, pat@, start as int) == find_pat_from(v@, pat@, i as int),
        decreases v.len() - i,
    {
        if pat.len() > v.len() - i {
            return None;
        }
        if pat_match_here(v, pat, i) {
            return Some(i);
        }
        i += 1;
    }
}

/// The rightmost occurrence of `pat` wholly inside the first `w` characters.
fn rfind_pat(v: &Vec<char>, pat: &Vec<char>, w: usize) -> (r: Option<usize>)
    requires
        w <= v.len(),
        pat.len() >= 1,
    ensures
        match r {
            Some(p) => rfind_pat_upto(v@, pat@, w as int) == Some(p as int),
            None => rfind_pat_upto(v@, pat@, w as int) is None,
        },
{
    let mut x = w;
    loop
        invariant
            x <= w <= v.len(),
            pat.len() >= 1,
            rfind_pat_upto(v@, pat@, w as int) == rfind_pat_upto(v@, pat@, x as int),
        decreases x,
    {
        if x < pat.len() {
            return None;
        }
        if pat_match_here(v, pat, x - pat.len()) {
            return Some(x - pat.len());
        }
        x -= 1;
    }
}

fn is_sentence_punct_char(c: char) -> (r: bool)
    ensures
        r == is_sentence_punct(c),
{
    c == '.' || c == '!' || c == '?' || c == ':'
}

/// The rightmost sentence-terminal punctuation among the first `w` characters.
fn rfind_punct(v: &Vec<char>, w: usize) -> (r: Option<usize>)
    requires
        w <= v.len(),
    ensures
        match r {
            Some(q) => rfind_punct_upto(v@, w as int) == Some(q as int),
            None => rfind_punct_upto(v@, w as int) is None,
        },
{
    let mut x = w;
    loop
        invariant
            x <= w <= v.len(),
            rfind_punct_upto(v@, w as int) == rfind_punct_upto(v@, x as int),
        decreases x,
    {
        if x == 0 {
            return None;
        }
        if is_sentence_punct_char(v[x - 1]) {
            return Some(x - 1);
        }
        x -= 1;
    }
}

/// The rightmost whitespace character among the first `w` characters.
fn rfind_ws(v: &Vec<char>, w: usize) -> (r: Option<usize>)
    requires
        w <= v.len(),
    ensures
        match r {
            Some(q) => rfind_ws_upto(v@, w as int) == Some(q as int),
            None => rfind_ws_upto(v@, w as int) is None,
        },
{
    let mut x = w;
    loop
        invariant
            x <= w <= v.len(),
            rfind_ws_upto(v@, w as int) == rfind_ws_upto(v@, x as int),
        decreases x,
    {
        if x == 0 {
            return None;
        }
        if is_ws_char(v[x - 1]) {
            return Some(x - 1);
        }
        x -= 1;
    }
}

/// Advances past a run of consecutive newlines.
fn skip_nl(v: &Vec<char>, i: usize) -> (r: usize)
    requires
        i <= v.len(),
    ensures
        r as int == skip_newlines(v@, i as int),
        i <= r <= v.len(),
{
    let mut x = i;
    while x < v.len() && v[x] == '\n'
        invariant
            i <= x <= v.len(),
            skip_newlines(v@, i as int) == skip_newlines(v@, x as int),
        decreases v.len() - x,
    {
        x += 1;
    }
    x
}

/// The flush boundary for the current buffer: the length of the longest
/// safe-to-render prefix, or `0` when no cut should be made yet.
pub fn find_flush_boundary(v: &Vec<char>, chunk_size: usize) -> (b: usize)
    ensures
        b as int == boundary_spec(v@, chunk_size as int),
        b <= v.len(),
{
    proof {
        lemma_boundary_in_range(v@, chunk_size as int);
    }
    let fence = vec!['`', '`', '`'];
    proof {
        assert(fence@ =~= fence_pat());
        lemma_find_pat_props(v@, fence_pat(), 0);
    }
    if let Some(j1) = find_pat(v, &fence, 0) {
        proof {
            lemma_find_pat_props(v@, fence_pat(), j1 + 3);
        }
        if let Some(j2) = find_pat(v, &fence, j1 + 3) {
            let mut b = j2 + 3;
            if b < v.len() && v[b] == '\n' {
                b += 1;
            }
            return b;
        }
    }
    let pipe = vec!['|'];
    proof {
        assert(pipe@ =~= seq!['|']);
        lemma_find_pat_props(v@, seq!['|'], 0);
    }
    let newline = vec!['\n'];
    proof {
        assert(newline@ =~= seq!['\n']);
    }
    if let Some(p) = find_pat(v, &pipe, 0) {
        proof {
            lemma_find_pat_props(v@, seq!['\n'], p as int);
        }
        if let Some(e) = find_pat(v, &newline, p) {
            let cut = e + 1;
            if cut < v.len() && v[cut] != '|' {
                return cut;
            }
        }
    }
    let blank = vec!['\n', '\n'];
    proof {
        assert(blank@ =~= seq!['\n', '\n']);
        lemma_find_pat_props(v@, seq!['\n', '\n'], 0);
    }
    if let Some(i) = find_pat(v, &blank, 0) {
        return skip_nl(v, i + 2);
    }
    if v.len() >= chunk_size {
        let cs = chunk_size;
        proof {
            lemma_rfind_pat_props(v@, seq!['.', ' '], cs as int);
            lemma_rfind_punct_props(v@, cs as int);
            lemma_rfind_pat_props(v@, seq![',', ' '], cs as int);
            lemma_rfind_pat_props(v@, seq![' ', '-', ' '], cs as int);
            lemma_rfind_ws_props(v@, cs as int);
        }
        let sentence = vec!['.', ' '];
        proof {
            assert(sentence@ =~= seq!['.', ' ']);
        }
        if let Some(p) = rfind_pat(v, &sentence, cs) {
            return p + 2;
        }
        if let Some(q) = rfind_punct(v, cs) {
            if q + 1 < v.len() && is_ws_char(v[q + 1]) {
                return q + 2;
            }
        }
        let comma = vec![',', ' '];
        proof {
            assert(comma@ =~= seq![',', ' ']);
        }
        if let Some(r) = rfind_pat(v, &comma, cs) {
            return r + 2;
        }
        let dash = vec![' ', '-', ' '];
        proof {
            assert(dash@ =~= seq![' ', '-', ' ']);
        }
        if let Some(d) = rfind_pat(v, &dash, cs) {
            return d + 3;
        }
        if let Some(w) = rfind_ws(v, cs) {
            if (w as u128) > (cs as u128) * 3 / 4 {
                return skip_nl(v, w + 1);
            }
        }
        return cs;
    }
    0
}

} // verus!
