//! The incremental Markdown renderer: a state machine that consumes one
//! Markdown event at a time and emits styled-output operations, carrying
//! structural state (open table, heading, code block, list nesting) across
//! segment boundaries so a construct is rendered once its closing boundary
//! arrives.
//!
//! The terminal itself is an outside concern: the renderer returns
//! [`RenderOp`] values describing what to write, and the caller performs
//! them.

use vstd::prelude::*;
use vstd::string::StringExecFns;
use crate::chars::dec_str;
use crate::chars::repeat_char;
use crate::chars::push_all;
use crate::chars::push_repeat;
use crate::chars::chars_to_string;
use crate::chars::str_to_chars;
use crate::chars::u64_digits;
use crate::boundary::match_at;
use crate::boundary::pat_match_here;
use crate::table::table_grid_spec;
use crate::table::TableRenderer;

verus! {

/// One event of the conceptual Markdown event stream.
pub enum MdEvent {
    Text(String),
    SoftBreak,
    HardBreak,
    HorizontalRule,
    HeadingStart(u32),
    HeadingEnd,
    ListStart(Option<u64>),
    ListEnd,
    ItemStart,
    ItemEnd,
    TableStart,
    TableEnd,
    TableRowStart,
    TableRowEnd,
    TableCellStart,
    CodeBlockStart(String),
    CodeBlockEnd,
    EmphasisStart,
    EmphasisEnd,
    StrongStart,
    StrongEnd,
    BlockQuoteStart,
    BlockQuoteEnd,
    ParagraphStart,
    ParagraphEnd,
}

/// The mathematical value of an event: the same shape over character
/// sequences.
pub enum EventSpec {
    Text(Seq<char>),
    SoftBreak,
    HardBreak,
    HorizontalRule,
    HeadingStart(u32),
    HeadingEnd,
    ListStart(Option<u64>),
    ListEnd,
    ItemStart,
    ItemEnd,
    TableStart,
    TableEnd,
    TableRowStart,
    TableRowEnd,
    TableCellStart,
    CodeBlockStart(Seq<char>),
    CodeBlockEnd,
    EmphasisStart,
    EmphasisEnd,
    StrongStart,
    StrongEnd,
    BlockQuoteStart,
    BlockQuoteEnd,
    ParagraphStart,
    ParagraphEnd,
}

impl View for MdEvent {
    type V = EventSpec;

    open spec fn view(&self) -> EventSpec {
        match self {
            MdEvent::Text(t) => EventSpec::Text(t@),
            MdEvent::SoftBreak => EventSpec::SoftBreak,
            MdEvent::HardBreak => EventSpec::HardBreak,
            MdEvent::HorizontalRule => EventSpec::HorizontalRule,
            MdEvent::HeadingStart(l) => EventSpec::HeadingStart(*l),
            MdEvent::HeadingEnd => EventSpec::HeadingEnd,
            MdEvent::ListStart(t) => EventSpec::ListStart(*t),
            MdEvent::ListEnd => EventSpec::ListEnd,
            MdEvent::ItemStart => EventSpec::ItemStart,
            MdEvent::ItemEnd => EventSpec::ItemEnd,
            MdEvent::TableStart => EventSpec::TableStart,
            MdEvent::TableEnd => EventSpec::TableEnd,
            MdEvent::TableRowStart => EventSpec::TableRowStart,
            MdEvent::TableRowEnd => EventSpec::TableRowEnd,
            MdEvent::TableCellStart => EventSpec::TableCellStart,
            MdEvent::CodeBlockStart(l) => EventSpec::CodeBlockStart(l@),
            MdEvent::CodeBlockEnd => EventSpec::CodeBlockEnd,
            MdEvent::EmphasisStart => EventSpec::EmphasisStart,
            MdEvent::EmphasisEnd => EventSpec::EmphasisEnd,
            MdEvent::StrongStart => EventSpec::StrongStart,
            MdEvent::StrongEnd => EventSpec::StrongEnd,
            MdEvent::BlockQuoteStart => EventSpec::BlockQuoteStart,
            MdEvent::BlockQuoteEnd => EventSpec::BlockQuoteEnd,
            MdEvent::ParagraphStart => EventSpec::ParagraphStart,
            MdEvent::ParagraphEnd => EventSpec::ParagraphEnd,
        }
    }
}

impl DeepView for MdEvent {
    type V = EventSpec;

    open spec fn deep_view(&self) -> EventSpec {
        self.view()
    }
}

/// The theme role a live style span draws its color from.
#[derive(Clone, Copy, Debug, PartialEq, Eq, Structural)]
pub enum StyleRole {
    Bold,
    Italic,
}

/// One styled-output operation for the caller to perform on the terminal.
pub enum RenderOp {
    /// Write raw text.
    Plain(String),
    /// Render Markdown text as one themed unit (headings, lists, code
    /// blocks).
    Styled(String),
    /// Begin a live attribute and color span for the given role.
    StyleOn(StyleRole),
    /// Reset live colors and attributes.
    StyleOff,
    /// Begin a block quote: quote color and a quote prefix.
    QuoteStart,
    /// End a block quote: reset color, newline.
    QuoteEnd,
    /// Draw a horizontal rule across the terminal.
    Rule,
    /// Suspend for the configured inter-chunk delay.
    Pause,
}

/// The mathematical value of an operation.
pub enum OpSpec {
    Plain(Seq<char>),
    Styled(Seq<char>),
    StyleOn(StyleRole),
    StyleOff,
    QuoteStart,
    QuoteEnd,
    Rule,
    Pause,
}

impl View for RenderOp {
    type V = OpSpec;

    open spec fn view(&self) -> OpSpec {
        match self {
            RenderOp::Plain(t) => OpSpec::Plain(t@),
            RenderOp::Styled(t) => OpSpec::Styled(t@),
            RenderOp::StyleOn(r) => OpSpec::StyleOn(*r),
            RenderOp::StyleOff => OpSpec::StyleOff,
            RenderOp::QuoteStart => OpSpec::QuoteStart,
            RenderOp::QuoteEnd => OpSpec::QuoteEnd,
            RenderOp::Rule => OpSpec::Rule,
            RenderOp::Pause => OpSpec::Pause,
        }
    }
}

impl DeepView for RenderOp {
    type V = OpSpec;

    open spec fn deep_view(&self) -> OpSpec {
        self.view()
    }
}

/// The renderer's structural state, as mathematical values.
#[verifier::ext_equal]
pub struct StateView {
    pub in_table: bool,
    pub table_buffer: Seq<char>,
    pub cell_count: u64,
    pub in_header: bool,
    pub header_buffer: Seq<char>,
    pub in_list: bool,
    pub list_buffer: Seq<char>,
    pub list_types: Seq<Option<u64>>,
    pub item_numbers: Seq<u64>,
    pub in_code: bool,
    pub code_buffer: Seq<char>,
    pub in_paragraph: bool,
}

/// The renderer's structural state: at most one of the table, heading and
/// code-block accumulators is open at a time, while list state may persist
/// alongside.
pub struct RenderState {
    pub in_table: bool,
    pub table_buffer: Vec<char>,
    pub cell_count: u64,
    pub in_header: bool,
    pub header_buffer: Vec<char>,
    pub in_list: bool,
    pub list_buffer: Vec<char>,
    pub list_types: Vec<Option<u64>>,
    pub item_numbers: Vec<u64>,
    pub in_code: bool,
    pub code_buffer: Vec<char>,
    pub in_paragraph: bool,
}

impl View for RenderState {
    type V = StateView;

    open spec fn view(&self) -> StateView {
        StateView {
            in_table: self.in_table,
            table_buffer: self.table_buffer@,
            cell_count: self.cell_count,
            in_header: self.in_header,
            header_buffer: self.header_buffer@,
            in_list: self.in_list,
            list_buffer: self.list_buffer@,
            list_types: self.list_types@,
            item_numbers: self.item_numbers@,
            in_code: self.in_code,
            code_buffer: self.code_buffer@,
            in_paragraph: self.in_paragraph,
        }
    }
}

/// Well-formedness: the two list stacks run in step, at most one of the
/// three block accumulators is open, and an open heading always holds its
/// marker prefix.
pub open spec fn wf_state(s: StateView) -> bool {
    &&& s.list_types.len() == s.item_numbers.len()
    &&& !(s.in_table && s.in_header)
    &&& !(s.in_table && s.in_code)
    &&& !(s.in_header && s.in_code)
    &&& (s.in_header ==> s.header_buffer.len() > 0)
}

/// A counter bumped without overflow: sticks at the maximum.
pub open spec fn add_sat_spec(c: u64) -> u64 {
    if c == u64::MAX {
        c
    } else {
        (c + 1) as u64
    }
}

/// Wrapping 64-bit addition, for ordered-list numbering.
pub open spec fn add_wrap_spec(a: u64, b: u64) -> u64 {
    ((a + b) % 0x1_0000_0000_0000_0000) as u64
}

/// The item indent: two spaces per nesting level beyond the first, capped
/// at three.
pub open spec fn indent_count(depth: int) -> nat {
    if depth <= 1 {
        0
    } else if depth == 2 {
        2
    } else {
        3
    }
}

/// `s` with every trailing occurrence of `pat` removed.
pub open spec fn trim_end_matches_spec(s: Seq<char>, pat: Seq<char>) -> Seq<char>
    decreases s.len(),
    when pat.len() >= 1
{
    if s.len() >= pat.len() && s.subrange(s.len() - pat.len(), s.len() as int) == pat {
        trim_end_matches_spec(s.take(s.len() - pat.len()), pat)
    } else {
        s
    }
}

/// The flattened table text rendered at table end: the accumulator with a
/// trailing dangling separator removed.
pub open spec fn table_md_of(buf: Seq<char>) -> Seq<char> {
    trim_end_matches_spec(trim_end_matches_spec(buf, seq![' ', '|', ' ']), seq!['|', ' '])
}

/// Flushing a pending open heading: emits it as one styled unit.
pub open spec fn flush_header_spec(s: StateView) -> (StateView, Seq<OpSpec>) {
    if s.in_header && s.header_buffer.len() > 0 {
        (
            StateView { in_header: false, header_buffer: Seq::empty(), ..s },
            seq![OpSpec::Styled(s.header_buffer)],
        )
    } else {
        (s, Seq::empty())
    }
}

/// Flushing a pending list buffer: emits it as one styled unit.
pub open spec fn flush_list_spec(s: StateView) -> (StateView, Seq<OpSpec>) {
    if s.in_list && s.list_buffer.len() > 0 {
        (
            StateView { in_list: false, list_buffer: Seq::empty(), ..s },
            seq![OpSpec::Styled(s.list_buffer)],
        )
    } else {
        (s, Seq::empty())
    }
}

/// Event handling while a table is open: every event feeds the table
/// accumulator until the table ends, at which point the formatted grid is
/// emitted.
pub open spec fn step_table_spec(s: StateView, e: EventSpec) -> (StateView, Seq<OpSpec>) {
    match e {
        EventSpec::TableEnd => {
            let md = table_md_of(s.table_buffer);
            (
                StateView { in_table: false, table_buffer: Seq::empty(), ..s },
                if md.len() > 0 {
                    seq![OpSpec::Plain(table_grid_spec(md))]
                } else {
                    Seq::empty()
                },
            )
        },
        EventSpec::TableRowStart => (StateView { cell_count: 0, ..s }, Seq::empty()),
        EventSpec::TableRowEnd => (
            if s.cell_count > 0 {
                StateView { table_buffer: s.table_buffer.push('\n'), ..s }
            } else {
                s
            },
            Seq::empty(),
        ),
        EventSpec::TableCellStart => (
            StateView {
                table_buffer: if s.cell_count > 0 {
                    s.table_buffer + seq![' ', '|', ' ']
                } else {
                    s.table_buffer
                },
                cell_count: add_sat_spec(s.cell_count),
                ..s
            },
            Seq::empty(),
        ),
        EventSpec::Text(t) => (StateView { table_buffer: s.table_buffer + t, ..s }, Seq::empty()),
        _ => (s, Seq::empty()),
    }
}

/// Event handling while a code block is open: text accumulates raw, and the
/// closing fence renders the whole block as one unit.
pub open spec fn step_code_spec(s: StateView, e: EventSpec) -> (StateView, Seq<OpSpec>) {
    match e {
        EventSpec::CodeBlockEnd => (
            StateView { in_code: false, code_buffer: Seq::empty(), ..s },
            seq![OpSpec::Styled(s.code_buffer + seq!['\n', '`', '`', '`'])],
        ),
        EventSpec::Text(t) => (StateView { code_buffer: s.code_buffer + t, ..s }, Seq::empty()),
        _ => (s, Seq::empty()),
    }
}

/// Event handling outside tables and code blocks.
pub open spec fn step_main_spec(s: StateView, e: EventSpec) -> (StateView, Seq<OpSpec>) {
    match e {
        EventSpec::TableStart => {
            let (s1, o1) = flush_header_spec(s);
            let (s2, o2) = flush_list_spec(s1);
            (
                StateView { in_table: true, table_buffer: Seq::empty(), cell_count: 0, ..s2 },
                o1 + o2,
            )
        },
        EventSpec::HeadingStart(lev) => {
            let (s1, o1) = flush_list_spec(s);
            (
                StateView {
                    in_header: true,
                    header_buffer: repeat_char('#', lev as nat).push(' '),
                    ..s1
                },
                o1,
            )
        },
        EventSpec::HeadingEnd => {
            if s.in_header {
                (
                    StateView { in_header: false, header_buffer: Seq::empty(), ..s },
                    seq![OpSpec::Styled(s.header_buffer)],
                )
            } else {
                (s, Seq::empty())
            }
        },
        EventSpec::ListStart(ty) => {
            let (s1, o1) = if !s.in_list {
                let (sf, of) = flush_header_spec(s);
                (
                    StateView {
                        in_list: true,
                        list_buffer: Seq::empty(),
                        list_types: Seq::empty(),
                        item_numbers: Seq::empty(),
                        ..sf
                    },
                    of,
                )
            } else {
                (s, Seq::empty())
            };
            (
                StateView {
                    list_types: s1.list_types.push(ty),
                    item_numbers: s1.item_numbers.push(0),
                    list_buffer: if s1.list_types.len() + 1 > 1 {
                        s1.list_buffer.push('\n')
                    } else {
                        s1.list_buffer
                    },
                    ..s1
                },
                o1,
            )
        },
        EventSpec::ListEnd => {
            if s.list_types.len() > 0 {
                let s1 = StateView {
                    list_types: s.list_types.drop_last(),
                    item_numbers: if s.item_numbers.len() > 0 {
                        s.item_numbers.drop_last()
                    } else {
                        s.item_numbers
                    },
                    ..s
                };
                if s1.list_types.len() == 0 && s.in_list {
                    (
                        StateView { in_list: false, list_buffer: Seq::empty(), ..s1 },
                        seq![OpSpec::Styled(s.list_buffer)],
                    )
                } else {
                    (s1, Seq::empty())
                }
            } else {
                (s, Seq::empty())
            }
        },
        EventSpec::ItemStart => {
            if s.in_list && s.list_types.len() > 0 && s.item_numbers.len() == s.list_types.len() {
                let depth = s.list_types.len() as int;
                let lvl = depth - 1;
                let n = s.item_numbers[lvl];
                let marker = match s.list_types[lvl] {
                    Some(start) => dec_str(add_wrap_spec(start, n) as nat) + seq!['.', ' '],
                    None => seq!['-', ' '],
                };
                (
                    StateView {
                        item_numbers: s.item_numbers.update(lvl, add_sat_spec(n)),
                        list_buffer: s.list_buffer + repeat_char(' ', indent_count(depth))
                            + marker,
                        ..s
                    },
                    Seq::empty(),
                )
            } else {
                (s, Seq::empty())
            }
        },
        EventSpec::ItemEnd => (
            if s.in_list {
                StateView { list_buffer: s.list_buffer.push('\n'), ..s }
            } else {
                s
            },
            Seq::empty(),
        ),
        EventSpec::CodeBlockStart(lang) => {
            let (s1, o1) = flush_header_spec(s);
            let (s2, o2) = flush_list_spec(s1);
            (
                StateView {
                    in_code: true,
                    code_buffer: seq!['`', '`', '`'] + lang + seq!['\n'],
                    ..s2
                },
                o1 + o2,
            )
        },
        EventSpec::EmphasisStart => {
            if s.in_header {
                (StateView { header_buffer: s.header_buffer.push('*'), ..s }, Seq::empty())
            } else if s.in_list {
                (StateView { list_buffer: s.list_buffer.push('*'), ..s }, Seq::empty())
            } else {
                (s, seq![OpSpec::StyleOn(StyleRole::Italic)])
            }
        },
        EventSpec::EmphasisEnd => {
            if s.in_header {
                (StateView { header_buffer: s.header_buffer.push('*'), ..s }, Seq::empty())
            } else if s.in_list {
                (StateView { list_buffer: s.list_buffer.push('*'), ..s }, Seq::empty())
            } else {
                (s, seq![OpSpec::StyleOff])
            }
        },
        EventSpec::StrongStart => {
            if s.in_header {
                (StateView { header_buffer: s.header_buffer + seq!['*', '*'], ..s }, Seq::empty())
            } else if s.in_list {
                (StateView { list_buffer: s.list_buffer + seq!['*', '*'], ..s }, Seq::empty())
            } else {
                (s, seq![OpSpec::StyleOn(StyleRole::Bold)])
            }
        },
        EventSpec::StrongEnd => {
            if s.in_header {
                (StateView { header_buffer: s.header_buffer + seq!['*', '*'], ..s }, Seq::empty())
            } else if s.in_list {
                (StateView { list_buffer: s.list_buffer + seq!['*', '*'], ..s }, Seq::empty())
            } else {
                (s, seq![OpSpec::StyleOff])
            }
        },
        EventSpec::Text(t) => {
            if s.in_header {
                (StateView { header_buffer: s.header_buffer + t, ..s }, Seq::empty())
            } else if s.in_list {
                (StateView { list_buffer: s.list_buffer + t, ..s }, Seq::empty())
            } else {
                (s, seq![OpSpec::Plain(t)])
            }
        },
        EventSpec::SoftBreak => {
            if s.in_list {
                (StateView { list_buffer: s.list_buffer.push('\n'), ..s }, Seq::empty())
            } else {
                (s, seq![OpSpec::Plain(seq!['\n'])])
            }
        },
        EventSpec::HardBreak => {
            if s.in_list {
                (StateView { list_buffer: s.list_buffer + seq!['\n', '\n'], ..s }, Seq::empty())
            } else {
                (s, seq![OpSpec::Plain(seq!['\n', '\n'])])
            }
        },
        EventSpec::HorizontalRule => {
            let (s1, o1) = flush_header_spec(s);
            let (s2, o2) = flush_list_spec(s1);
            (s2, o1 + o2 + seq![OpSpec::Rule])
        },
        EventSpec::BlockQuoteStart => {
            if s.in_list {
                (StateView { list_buffer: s.list_buffer + seq!['>', ' '], ..s }, Seq::empty())
            } else {
                (s, seq![OpSpec::QuoteStart])
            }
        },
        EventSpec::BlockQuoteEnd => {
            if s.in_list {
                (StateView { list_buffer: s.list_buffer.push('\n'), ..s }, Seq::empty())
            } else {
                (s, seq![OpSpec::QuoteEnd])
            }
        },
        EventSpec::ParagraphStart => (StateView { in_paragraph: true, ..s }, Seq::empty()),
        EventSpec::ParagraphEnd => (
            StateView { in_paragraph: false, ..s },
            if !s.in_list && s.in_paragraph {
                seq![OpSpec::Plain(seq!['\n', '\n'])]
            } else {
                Seq::empty()
            },
        ),
        _ => (s, Seq::empty()),
    }
}

/// One step of the renderer: the new state and the emitted operations for
/// one event.
pub open spec fn step_spec(s: StateView, e: EventSpec) -> (StateView, Seq<OpSpec>) {
    if s.in_table {
        step_table_spec(s, e)
    } else if s.in_code {
        step_code_spec(s, e)
    } else {
        step_main_spec(s, e)
    }
}

/// Well-formedness is an invariant of the renderer: every event preserves
/// it.
pub proof fn lemma_step_preserves_wf(s: StateView, e: EventSpec)
    requires
        wf_state(s),
    ensures
        wf_state(step_spec(s, e).0),
{
}

/// Running the renderer over a whole event sequence: the final state and
/// the concatenation of all emitted operations.
pub open spec fn run_spec(s: StateView, evs: Seq<EventSpec>) -> (StateView, Seq<OpSpec>)
    decreases evs.len(),
{
    if evs.len() == 0 {
        (s, Seq::empty())
    } else {
        let first = step_spec(s, evs[0]);
        let rest = run_spec(first.0, evs.drop_first());
        (rest.0, first.1 + rest.1)
    }
}

pub proof fn lemma_run_preserves_wf(s: StateView, evs: Seq<EventSpec>)
    requires
        wf_state(s),
    ensures
        wf_state(run_spec(s, evs).0),
    decreases evs.len(),
{
    if evs.len() > 0 {
        lemma_step_preserves_wf(s, evs[0]);
        lemma_run_preserves_wf(step_spec(s, evs[0]).0, evs.drop_first());
    }
}

/// The fresh renderer state: nothing open, all accumulators empty.
pub open spec fn initial_state() -> StateView {
    StateView {
        in_table: false,
        table_buffer: Seq::empty(),
        cell_count: 0,
        in_header: false,
        header_buffer: Seq::empty(),
        in_list: false,
        list_buffer: Seq::empty(),
        list_types: Seq::empty(),
        item_numbers: Seq::empty(),
        in_code: false,
        code_buffer: Seq::empty(),
        in_paragraph: false,
    }
}

impl RenderState {
    /// A fresh renderer state: nothing open, all accumulators empty.
    pub fn new() -> (s: RenderState)
        ensures
            s@ == initial_state(),
            s@ == (StateView {
                in_table: false,
                table_buffer: Seq::empty(),
                cell_count: 0,
                in_header: false,
                header_buffer: Seq::empty(),
                in_list: false,
                list_buffer: Seq::empty(),
                list_types: Seq::empty(),
                item_numbers: Seq::empty(),
                in_code: false,
                code_buffer: Seq::empty(),
                in_paragraph: false,
            }),
            wf_state(s@),
    {
        let s = RenderState {
            in_table: false,
            table_buffer: Vec::new(),
            cell_count: 0,
            in_header: false,
            header_buffer: Vec::new(),
            in_list: false,
            list_buffer: Vec::new(),
            list_types: Vec::new(),
            item_numbers: Vec::new(),
            in_code: false,
            code_buffer: Vec::new(),
            in_paragraph: false,
        };
        proof {
            assert(s@ =~= (StateView {
                in_table: false,
                table_buffer: Seq::empty(),
                cell_count: 0,
                in_header: false,
                header_buffer: Seq::empty(),
                in_list: false,
                list_buffer: Seq::empty(),
                list_types: Seq::empty(),
                item_numbers: Seq::empty(),
                in_code: false,
                code_buffer: Seq::empty(),
                in_paragraph: false,
            }));
        }
        s
    }

    /// Handles one Markdown event, appending the emitted operations to
    /// `ops`.
    pub fn step(&mut self, ev: &MdEvent, ops: &mut Vec<RenderOp>)
        ensures
            final(self)@ == step_spec(old(self)@, ev@).0,
            final(ops).deep_view() == old(ops).deep_view() + step_spec(old(self)@, ev@).1,
    {
        if self.in_table {
            self.step_table(ev, ops);
        } else if self.in_code {
            self.step_code(ev, ops);
        } else {
            self.step_main(ev, ops);
        }
    }

    fn step_table(&mut self, ev: &MdEvent, ops: &mut Vec<RenderOp>)
        requires
            old(self).in_table,
        ensures
            final(self)@ == step_table_spec(old(self)@, ev@).0,
            final(ops).deep_view() == old(ops).deep_view() + step_table_spec(old(self)@, ev@).1,
    {
        let ghost s0 = self@;
        let ghost ops0 = ops.deep_view();
        match ev {
            MdEvent::TableEnd => {
                self.in_table = false;
                trim_table_end(&mut self.table_buffer);
                let ghost md = self.table_buffer@;
                if self.table_buffer.len() > 0 {
                    let md_str = chars_to_string(&self.table_buffer);
                    let grid = TableRenderer::render_table(md_str.as_str());
                    ops.push(RenderOp::Plain(grid));
                    proof {
                        assert(ops.deep_view() =~= ops0.push(OpSpec::Plain(table_grid_spec(md))));
                        assert(ops0.push(OpSpec::Plain(table_grid_spec(md))) =~= ops0 + seq![
                            OpSpec::Plain(table_grid_spec(md)),
                        ]);
                    }
                } else {
                    proof {
                        assert(ops.deep_view() =~= ops0 + Seq::<OpSpec>::empty());
                    }
                }
                self.table_buffer.clear();
                proof {
                    assert(self@ =~= step_table_spec(s0, ev@).0);
                }
            },
            MdEvent::TableRowStart => {
                self.cell_count = 0;
                proof {
                    assert(self@ =~= step_table_spec(s0, ev@).0);
                    assert(ops.deep_view() =~= ops0 + Seq::<OpSpec>::empty());
                }
            },
            MdEvent::TableRowEnd => {
                if self.cell_count > 0 {
                    self.table_buffer.push('\n');
                }
                proof {
                    assert(self@ =~= step_table_spec(s0, ev@).0);
                    assert(ops.deep_view() =~= ops0 + Seq::<OpSpec>::empty());
                }
            },
            MdEvent::TableCellStart => {
                if self.cell_count > 0 {
                    self.table_buffer.push(' ');
                    self.table_buffer.push('|');
                    self.table_buffer.push(' ');
                    proof {
                        assert(self.table_buffer@ =~= s0.table_buffer + seq![' ', '|', ' ']);
                    }
                }
                if self.cell_count < u64::MAX {
                    self.cell_count = self.cell_count + 1;
                }
                proof {
                    assert(self@ =~= step_table_spec(s0, ev@).0);
                    assert(ops.deep_view() =~= ops0 + Seq::<OpSpec>::empty());
                }
            },
            MdEvent::Text(t) => {
                let tc = str_to_chars(t.as_str());
                push_all(&mut self.table_buffer, &tc);
                proof {
                    assert(self@ =~= step_table_spec(s0, ev@).0);
                    assert(ops.deep_view() =~= ops0 + Seq::<OpSpec>::empty());
                }
            },
            _ => {
                proof {
                    assert(self@ =~= step_table_spec(s0, ev@).0);
                    assert(ops.deep_view() =~= ops0 + Seq::<OpSpec>::empty());
                }
            },
        }
    }

    fn step_code(&mut self, ev: &MdEvent, ops: &mut Vec<RenderOp>)
        requires
            !old(self).in_table,
            old(self).in_code,
        ensures
            final(self)@ == step_code_spec(old(self)@, ev@).0,
            final(ops).deep_view() == old(ops).deep_view() + step_code_spec(old(self)@, ev@).1,
    {
        let ghost s0 = self@;
        let ghost ops0 = ops.deep_view();
        match ev {
            MdEvent::CodeBlockEnd => {
                self.code_buffer.push('\n');
                self.code_buffer.push('`');
                self.code_buffer.push('`');
                self.code_buffer.push('`');
                let text = chars_to_string(&self.code_buffer);
                proof {
                    assert(text@ =~= s0.code_buffer + seq!['\n', '`', '`', '`']);
                }
                ops.push(RenderOp::Styled(text));
                self.code_buffer.clear();
                self.in_code = false;
                proof {
                    assert(self@ =~= step_code_spec(s0, ev@).0);
                    assert(ops.deep_view() =~= ops0 + seq![
                        OpSpec::Styled(s0.code_buffer + seq!['\n', '`', '`', '`']),
                    ]);
                }
            },
            MdEvent::Text(t) => {
                let tc = str_to_chars(t.as_str());
                push_all(&mut self.code_buffer, &tc);
                proof {
                    assert(self@ =~= step_code_spec(s0, ev@).0);
                    assert(ops.deep_view() =~= ops0 + Seq::<OpSpec>::empty());
                }
            },
            _ => {
                proof {
                    assert(self@ =~= step_code_spec(s0, ev@).0);
                    assert(ops.deep_view() =~= ops0 + Seq::<OpSpec>::empty());
                }
            },
        }
    }

    /// Flushes a pending open heading as one styled unit.
    fn flush_header(&mut self, ops: &mut Vec<RenderOp>)
        ensures
            final(self)@ == flush_header_spec(old(self)@).0,
            final(ops).deep_view() == old(ops).deep_view() + flush_header_spec(old(self)@).1,
    {
        let ghost s0 = self@;
        let ghost ops0 = ops.deep_view();
        if self.in_header && self.header_buffer.len() > 0 {
            let text = chars_to_string(&self.header_buffer);
            ops.push(RenderOp::Styled(text));
            self.header_buffer.clear();
            self.in_header = false;
            proof {
                assert(self@ =~= flush_header_spec(s0).0);
                assert(ops.deep_view() =~= ops0 + seq![OpSpec::Styled(s0.header_buffer)]);
            }
        } else {
            proof {
                assert(ops.deep_view() =~= ops0 + Seq::<OpSpec>::empty());
            }
        }
    }

    /// Flushes a pending list buffer as one styled unit.
    fn flush_list(&mut self, ops: &mut Vec<RenderOp>)
        ensures
            final(self)@ == flush_list_spec(old(self)@).0,
            final(ops).deep_view() == old(ops).deep_view() + flush_list_spec(old(self)@).1,
    {
        let ghost s0 = self@;
        let ghost ops0 = ops.deep_view();
        if self.in_list && self.list_buffer.len() > 0 {
            let text = chars_to_string(&self.list_buffer);
            ops.push(RenderOp::Styled(text));
            self.list_buffer.clear();
            self.in_list = false;
            proof {
                assert(self@ =~= flush_list_spec(s0).0);
                assert(ops.deep_view() =~= ops0 + seq![OpSpec::Styled(s0.list_buffer)]);
            }
        } else {
            proof {
                assert(ops.deep_view() =~= ops0 + Seq::<OpSpec>::empty());
            }
        }
    }

    #[verifier::rlimit(100)]
    fn step_main(&mut self, ev: &MdEvent, ops: &mut Vec<RenderOp>)
        requires
            !old(self).in_table,
            !old(self).in_code,
        ensures
            final(self)@ == step_main_spec(old(self)@, ev@).0,
            final(ops).deep_view() == old(ops).deep_view() + step_main_spec(old(self)@, ev@).1,
    {
        let ghost s0 = self@;
        let ghost ops0 = ops.deep_view();
        match ev {
            MdEvent::TableStart => {
                self.flush_header(ops);
                self.flush_list(ops);
                self.in_table = true;
                self.table_buffer.clear();
                self.cell_count = 0;
                proof {
                    let (s1, o1) = flush_header_spec(s0);
                    let (s2, o2) = flush_list_spec(s1);
                    assert(self@ =~= step_main_spec(s0, ev@).0);
                    assert(ops.deep_view() =~= ops0 + (o1 + o2));
                }
            },
            MdEvent::HeadingStart(lev) => {
                self.flush_list(ops);
                self.in_header = true;
                self.header_buffer.clear();
                push_repeat(&mut self.header_buffer, '#', (*lev) as usize);
                self.header_buffer.push(' ');
                proof {
                    assert(self.header_buffer@ =~= repeat_char('#', *lev as nat).push(' '));
                    assert(self@ =~= step_main_spec(s0, ev@).0);
                }
            },
            MdEvent::HeadingEnd => {
                if self.in_header {
                    let text = chars_to_string(&self.header_buffer);
                    ops.push(RenderOp::Styled(text));
                    self.header_buffer.clear();
                    self.in_header = false;
                    proof {
                        assert(self@ =~= step_main_spec(s0, ev@).0);
                        assert(ops.deep_view() =~= ops0 + seq![OpSpec::Styled(s0.header_buffer)]);
                    }
                } else {
                    proof {
                        assert(ops.deep_view() =~= ops0 + Seq::<OpSpec>::empty());
                    }
                }
            },
            MdEvent::ListStart(ty) => {
                if !self.in_list {
                    self.flush_header(ops);
                    self.in_list = true;
                    self.list_buffer.clear();
                    self.list_types.clear();
                    self.item_numbers.clear();
                }
                let depth_before = self.list_types.len();
                self.list_types.push(*ty);
                self.item_numbers.push(0);
                if depth_before >= 1 {
                    self.list_buffer.push('\n');
                }
                proof {
                    assert(self@ =~= step_main_spec(s0, ev@).0);
                    assert(ops.deep_view() =~= ops0 + step_main_spec(s0, ev@).1);
                }
            },
            MdEvent::ListEnd => {
                if self.list_types.len() > 0 {
                    let ghost buf0 = self.list_buffer@;
                    self.list_types.pop();
                    if self.item_numbers.len() > 0 {
                        self.item_numbers.pop();
                    }
                    if self.list_types.len() == 0 && self.in_list {
                        let text = chars_to_string(&self.list_buffer);
                        ops.push(RenderOp::Styled(text));
                        self.list_buffer.clear();
                        self.in_list = false;
                        proof {
                            assert(self@ =~= step_main_spec(s0, ev@).0);
                            assert(ops.deep_view() =~= ops0 + seq![OpSpec::Styled(s0.list_buffer)]);
                        }
                    } else {
                        proof {
                            assert(self@ =~= step_main_spec(s0, ev@).0);
                            assert(ops.deep_view() =~= ops0 + Seq::<OpSpec>::empty());
                        }
                    }
                } else {
                    proof {
                        assert(ops.deep_view() =~= ops0 + Seq::<OpSpec>::empty());
                    }
                }
            },
            MdEvent::ItemStart => {
                if self.in_list && self.list_types.len() > 0 && self.item_numbers.len()
                    == self.list_types.len() {
                    let depth = self.list_types.len();
                    let ind: usize = if depth <= 1 {
                        0
                    } else if depth == 2 {
                        2
                    } else {
                        3
                    };
                    push_repeat(&mut self.list_buffer, ' ', ind);
                    let lvl = depth - 1;
                    let n = self.item_numbers[lvl];
                    let bumped = if n < u64::MAX {
                        n + 1
                    } else {
                        n
                    };
                    self.item_numbers.set(lvl, bumped);
                    match self.list_types[lvl] {
                        Some(start) => {
                            let shown = add_wrap(start, n);
                            let digits = u64_digits(shown);
                            push_all(&mut self.list_buffer, &digits);
                            self.list_buffer.push('.');
                            self.list_buffer.push(' ');
                        },
                        None => {
                            self.list_buffer.push('-');
                            self.list_buffer.push(' ');
                        },
                    }
                    proof {
                        let marker = match s0.list_types[depth - 1] {
                            Some(start) => dec_str(
                                add_wrap_spec(start, s0.item_numbers[depth - 1]) as nat,
                            ) + seq!['.', ' '],
                            None => seq!['-', ' '],
                        };
                        assert(self.list_buffer@ =~= s0.list_buffer + repeat_char(
                            ' ',
                            indent_count(depth as int),
                        ) + marker);
                        assert(self@ =~= step_main_spec(s0, ev@).0);
                        assert(ops.deep_view() =~= ops0 + Seq::<OpSpec>::empty());
                    }
                } else {
                    proof {
                        assert(ops.deep_view() =~= ops0 + Seq::<OpSpec>::empty());
                    }
                }
            },
            MdEvent::ItemEnd => {
                if self.in_list {
                    self.list_buffer.push('\n');
                }
                proof {
                    assert(self@ =~= step_main_spec(s0, ev@).0);
                    assert(ops.deep_view() =~= ops0 + Seq::<OpSpec>::empty());
                }
            },
            MdEvent::CodeBlockStart(lang) => {
                self.flush_header(ops);
                self.flush_list(ops);
                self.in_code = true;
                self.code_buffer.clear();
                self.code_buffer.push('`');
                self.code_buffer.push('`');
                self.code_buffer.push('`');
                let lc = str_to_chars(lang.as_str());
                push_all(&mut self.code_buffer, &lc);
                self.code_buffer.push('\n');
                proof {
                    assert(self.code_buffer@ =~= seq!['`', '`', '`'] + lang@ + seq!['\n']);
                    assert(self@ =~= step_main_spec(s0, ev@).0);
                    assert(ops.deep_view() =~= ops0 + step_main_spec(s0, ev@).1);
                }
            },
            MdEvent::EmphasisStart => {
                if self.in_header {
                    self.header_buffer.push('*');
                } else if self.in_list {
                    self.list_buffer.push('*');
                } else {
                    ops.push(RenderOp::StyleOn(StyleRole::Italic));
                }
                proof {
                    assert(self@ =~= step_main_spec(s0, ev@).0);
                    assert(ops.deep_view() =~= ops0 + step_main_spec(s0, ev@).1);
                }
            },
            MdEvent::EmphasisEnd => {
                if self.in_header {
                    self.header_buffer.push('*');
                } else if self.in_list {
                    self.list_buffer.push('*');
                } else {
                    ops.push(RenderOp::StyleOff);
                }
                proof {
                    assert(self@ =~= step_main_spec(s0, ev@).0);
                    assert(ops.deep_view() =~= ops0 + step_main_spec(s0, ev@).1);
                }
            },
            MdEvent::StrongStart => {
                if self.in_header {
                    self.header_buffer.push('*');
                    self.header_buffer.push('*');
                    proof {
                        assert(self.header_buffer@ =~= s0.header_buffer + seq!['*', '*']);
                    }
                } else if self.in_list {
                    self.list_buffer.push('*');
                    self.list_buffer.push('*');
                    proof {
                        assert(self.list_buffer@ =~= s0.list_buffer + seq!['*', '*']);
                    }
                } else {
                    ops.push(RenderOp::StyleOn(StyleRole::Bold));
                }
                proof {
                    assert(self@ =~= step_main_spec(s0, ev@).0);
                    assert(ops.deep_view() =~= ops0 + step_main_spec(s0, ev@).1);
                }
            },
            MdEvent::StrongEnd => {
                if self.in_header {
                    self.header_buffer.push('*');
                    self.header_buffer.push('*');
                    proof {
                        assert(self.header_buffer@ =~= s0.header_buffer + seq!['*', '*']);
                    }
                } else if self.in_list {
                    self.list_buffer.push('*');
                    self.list_buffer.push('*');
                    proof {
                        assert(self.list_buffer@ =~= s0.list_buffer + seq!['*', '*']);
                    }
                } else {
                    ops.push(RenderOp::StyleOff);
                }
                proof {
                    assert(self@ =~= step_main_spec(s0, ev@).0);
                    assert(ops.deep_view() =~= ops0 + step_main_spec(s0, ev@).1);
                }
            },
            MdEvent::Text(t) => {
                if self.in_header {
                    let tc = str_to_chars(t.as_str());
                    push_all(&mut self.header_buffer, &tc);
                } else if self.in_list {
                    let tc = str_to_chars(t.as_str());
                    push_all(&mut self.list_buffer, &tc);
                } else {
                    let copy = copy_string(t);
                    ops.push(RenderOp::Plain(copy));
                }
                proof {
                    assert(self@ =~= step_main_spec(s0, ev@).0);
                    assert(ops.deep_view() =~= ops0 + step_main_spec(s0, ev@).1);
                }
            },
            MdEvent::SoftBreak => {
                if self.in_list {
                    self.list_buffer.push('\n');
                } else {
                    ops.push(newline_op());
                }
                proof {
                    assert(self@ =~= step_main_spec(s0, ev@).0);
                    assert(ops.deep_view() =~= ops0 + step_main_spec(s0, ev@).1);
                }
            },
            MdEvent::HardBreak => {
                if self.in_list {
                    self.list_buffer.push('\n');
                    self.list_buffer.push('\n');
                    proof {
                        assert(self.list_buffer@ =~= s0.list_buffer + seq!['\n', '\n']);
                    }
                } else {
                    ops.push(blank_line_op());
                }
                proof {
                    assert(self@ =~= step_main_spec(s0, ev@).0);
                    assert(ops.deep_view() =~= ops0 + step_main_spec(s0, ev@).1);
                }
            },
            MdEvent::HorizontalRule => {
                self.flush_header(ops);
                self.flush_list(ops);
                ops.push(RenderOp::Rule);
                proof {
                    let (s1, o1) = flush_header_spec(s0);
                    let (s2, o2) = flush_list_spec(s1);
                    assert(self@ =~= step_main_spec(s0, ev@).0);
                    assert(ops.deep_view() =~= (ops0 + o1 + o2).push(OpSpec::Rule));
                    assert((ops0 + o1 + o2).push(OpSpec::Rule) =~= ops0 + (o1 + o2 + seq![
                        OpSpec::Rule,
                    ]));
                }
            },
            MdEvent::BlockQuoteStart => {
                if self.in_list {
                    self.list_buffer.push('>');
                    self.list_buffer.push(' ');
                    proof {
                        assert(self.list_buffer@ =~= s0.list_buffer + seq!['>', ' ']);
                    }
                } else {
                    ops.push(RenderOp::QuoteStart);
                }
                proof {
                    assert(self@ =~= step_main_spec(s0, ev@).0);
                    assert(ops.deep_view() =~= ops0 + step_main_spec(s0, ev@).1);
                }
            },
            MdEvent::BlockQuoteEnd => {
                if self.in_list {
                    self.list_buffer.push('\n');
                } else {
                    ops.push(RenderOp::QuoteEnd);
                }
                proof {
                    assert(self@ =~= step_main_spec(s0, ev@).0);
                    assert(ops.deep_view() =~= ops0 + step_main_spec(s0, ev@).1);
                }
            },
            MdEvent::ParagraphStart => {
                self.in_paragraph = true;
                proof {
                    assert(self@ =~= step_main_spec(s0, ev@).0);
                    assert(ops.deep_view() =~= ops0 + Seq::<OpSpec>::empty());
                }
            },
            MdEvent::ParagraphEnd => {
                if !self.in_list && self.in_paragraph {
                    ops.push(blank_line_op());
                }
                self.in_paragraph = false;
                proof {
                    assert(self@ =~= step_main_spec(s0, ev@).0);
                    assert(ops.deep_view() =~= ops0 + step_main_spec(s0, ev@).1);
                }
            },
            _ => {
                proof {
                    assert(ops.deep_view() =~= ops0 + Seq::<OpSpec>::empty());
                }
            },
        }
    }
}

/// Removes a trailing dangling cell separator from the table accumulator.
fn trim_table_end(buf: &mut Vec<char>)
    ensures
        final(buf)@ == table_md_of(old(buf)@),
{
    let pat1 = vec![' ', '|', ' '];
    proof {
        assert(pat1@ =~= seq![' ', '|', ' ']);
    }
    trim_end_matches_exec(buf, &pat1);
    let pat2 = vec!['|', ' '];
    proof {
        assert(pat2@ =~= seq!['|', ' ']);
    }
    trim_end_matches_exec(buf, &pat2);
}

fn trim_end_matches_exec(buf: &mut Vec<char>, pat: &Vec<char>)
    requires
        pat.len() >= 1,
    ensures
        final(buf)@ == trim_end_matches_spec(old(buf)@, pat@),
{
    loop
        invariant
            pat.len() >= 1,
            trim_end_matches_spec(old(buf)@, pat@) == trim_end_matches_spec(buf@, pat@),
        decreases buf.len(),
    {
        let n = buf.len();
        if n < pat.len() {
            proof {
                assert(trim_end_matches_spec(buf@, pat@) == buf@);
            }
            return ;
        }
        if pat_match_here(buf, pat, n - pat.len()) {
            proof {
                assert(buf@.subrange(n - pat@.len(), n as int) == pat@);
            }
            buf.truncate(n - pat.len());
        } else {
            proof {
                assert(!match_at(buf@, pat@, n - pat@.len()));
                assert(trim_end_matches_spec(buf@, pat@) == buf@);
            }
            return ;
        }
    }
}

/// A 64-bit wrapping addition.
fn add_wrap(a: u64, b: u64) -> (r: u64)
    ensures
        r == add_wrap_spec(a, b),
{
    if b <= u64::MAX - a {
        proof {
            assert((a + b) % 0x1_0000_0000_0000_0000 == a + b) by (nonlinear_arith)
                requires
                    0 <= a + b < 0x1_0000_0000_0000_0000,
            ;
        }
        a + b
    } else {
        let big: u128 = (a as u128) + (b as u128) - 0x1_0000_0000_0000_0000u128;
        proof {
            assert((a + b) % 0x1_0000_0000_0000_0000 == a + b - 0x1_0000_0000_0000_0000)
                by (nonlinear_arith)
                requires
                    0x1_0000_0000_0000_0000 <= a + b < 0x2_0000_0000_0000_0000,
            ;
        }
        big as u64
    }
}

/// A fresh copy of a string with the same characters.
fn copy_string(t: &String) -> (r: String)
    ensures
        r@ == t@,
{
    String::from_str(t.as_str())
}

fn newline_op() -> (op: RenderOp)
    ensures
        op@ == OpSpec::Plain(seq!['\n']),
{
    let mut v: Vec<char> = Vec::new();
    v.push('\n');
    proof {
        assert(v@ =~= seq!['\n']);
    }
    RenderOp::Plain(chars_to_string(&v))
}

fn blank_line_op() -> (op: RenderOp)
    ensures
        op@ == OpSpec::Plain(seq!['\n', '\n']),
{
    let mut v: Vec<char> = Vec::new();
    v.push('\n');
    v.push('\n');
    proof {
        assert(v@ =~= seq!['\n', '\n']);
    }
    RenderOp::Plain(chars_to_string(&v))
}

} // verus!
