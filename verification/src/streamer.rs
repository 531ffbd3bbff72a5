//! The chunk scheduler and streaming front end: it owns the growing text
//! buffer, sanitizes it on every append, repeatedly extracts the longest
//! safe-to-render prefix, renders each extracted segment, and paces output
//! by asking for a pause after every few flushes.
//!
//! All input and output stays outside: the caller hands in text and
//! performs the returned [`RenderOp`] operations.

use vstd::prelude::*;
use vstd::string::StringExecFns;
use crate::boundary::boundary_spec;
use crate::boundary::find_flush_boundary;
use crate::boundary::lemma_boundary_in_range;
use crate::chars::concat_all;
use crate::chars::is_ws_char;
use crate::chars::is_ws;
use crate::chars::all_ws;
use crate::chars::push_all;
use crate::chars::str_to_chars;
use crate::chars::vec_subrange;
use crate::config::StreamerConfig;
use crate::config::str_eq;
use crate::parser::parse_events;
use crate::parser::parse_events_spec;
use crate::render::EventSpec;
use crate::render::OpSpec;
use crate::render::RenderOp;
use crate::render::RenderState;
use crate::render::StateView;
use crate::render::run_spec;
use crate::render::initial_state;
use crate::sanitize::preprocess_math;
use crate::sanitize::preprocess_math_spec;
use crate::sanitize::clean_line_from;
use crate::sanitize::sanitize_boxes;
use crate::sanitize::sanitize_boxes_spec;
use crate::sanitize::strip_box_glyphs;
use crate::sanitize::strip_ansi;
use crate::sanitize::strip_ansi_spec;
use crate::theme::Theme;
use crate::theme::is_dark_theme;
use crate::theme::is_light_theme;
use crate::theme::is_mono_theme;

verus! {

/// The flush cadence for live sources: subprocess output, queries, and
/// standard input pause after every third flush.
pub const LIVE_FLUSH_CADENCE: u64 = 3;

/// The flush cadence for bulk sources: whole files and pasted text pause
/// after every fifth flush.
pub const BULK_FLUSH_CADENCE: u64 = 5;

/// The events one segment produces: the math placeholder substitution,
/// then Markdown parsing.
pub open spec fn segment_events(s: Seq<char>) -> Seq<EventSpec> {
    parse_events_spec(preprocess_math_spec(s))
}

/// The sanitized form of a buffer: ANSI escapes stripped, then stray
/// Unicode box-drawing glyphs removed. The glyph stripping is
/// unconditional; only the conversion of three-line box banners to
/// headings is gated by the strip-boxes flag.
pub open spec fn sanitize_spec(s: Seq<char>, strip_boxes: bool) -> Seq<char> {
    if strip_boxes {
        sanitize_boxes_spec(strip_ansi_spec(s))
    } else {
        clean_line_from(strip_ansi_spec(s), 0)
    }
}

/// Repeatedly cutting the buffer at its flush boundary: the extracted
/// segments, in order, and the remainder that holds no boundary yet.
pub open spec fn drain_spec(buf: Seq<char>, cs: int) -> (Seq<Seq<char>>, Seq<char>)
    decreases buf.len(),
    when cs >= 0
    via drain_spec_dec
{
    let b = boundary_spec(buf, cs);
    if b <= 0 {
        (Seq::empty(), buf)
    } else {
        let rest = drain_spec(buf.skip(b), cs);
        (seq![buf.take(b)] + rest.0, rest.1)
    }
}

#[via_fn]
proof fn drain_spec_dec(buf: Seq<char>, cs: int) {
    lemma_boundary_in_range(buf, cs);
}

proof fn lemma_concat_all_cons(x: Seq<char>, s: Seq<Seq<char>>)
    ensures
        concat_all(seq![x] + s) == x + concat_all(s),
    decreases s.len(),
{
    if s.len() == 0 {
        assert((seq![x] + s) =~= seq![x]);
        assert(concat_all(seq![x]) == concat_all(seq![x].drop_last()) + seq![x].last());
        assert(seq![x].drop_last() =~= Seq::<Seq<char>>::empty());
        assert(concat_all(seq![x]) =~= x);
        assert(x + concat_all(s) =~= x);
    } else {
        assert((seq![x] + s).drop_last() =~= seq![x] + s.drop_last());
        assert((seq![x] + s).last() == s.last());
        lemma_concat_all_cons(x, s.drop_last());
        assert((x + concat_all(s.drop_last())) + s.last() =~= x + (concat_all(s.drop_last())
            + s.last()));
    }
}

/// No text is lost or duplicated across flush boundaries: the concatenation
/// of the extracted segments followed by the remainder is exactly the
/// buffer, the remainder holds no boundary (so draining it again extracts
/// nothing), and there are no more segments than characters.
pub proof fn lemma_drain_partitions(buf: Seq<char>, cs: int)
    requires
        cs >= 0,
    ensures
        concat_all(drain_spec(buf, cs).0) + drain_spec(buf, cs).1 == buf,
        boundary_spec(drain_spec(buf, cs).1, cs) == 0,
        drain_spec(buf, cs).0.len() <= buf.len(),
    decreases buf.len(),
{
    lemma_boundary_in_range(buf, cs);
    let b = boundary_spec(buf, cs);
    if b <= 0 {
        assert(concat_all(Seq::<Seq<char>>::empty()) + buf =~= buf);
    } else {
        lemma_drain_partitions(buf.skip(b), cs);
        let rest = drain_spec(buf.skip(b), cs);
        lemma_concat_all_cons(buf.take(b), rest.0);
        assert((buf.take(b) + concat_all(rest.0)) + rest.1 =~= buf.take(b) + (concat_all(rest.0)
            + rest.1));
        assert(buf.take(b) + buf.skip(b) =~= buf);
    }
}

/// For every input: appending a chunk, sanitizing, and cutting the buffer
/// at its flush boundaries loses and duplicates nothing. The extracted
/// render segments, concatenated in order and followed by the remaining
/// buffer, are exactly the sanitized form of what was buffered and fed.
pub proof fn lemma_feed_no_text_loss(
    buffer: Seq<char>,
    chunk: Seq<char>,
    strip_boxes: bool,
    cs: int,
)
    requires
        cs >= 0,
    ensures
        ({
            let sanitized = sanitize_spec(buffer + chunk, strip_boxes);
            let dr = drain_spec(sanitized, cs);
            concat_all(dr.0) + dr.1 == sanitized
        }),
{
    lemma_drain_partitions(sanitize_spec(buffer + chunk, strip_boxes), cs);
}

/// Rendering a list of segments in order, pausing after every `cadence`
/// flushes: the final renderer state and all emitted operations.
pub open spec fn render_segments_spec(
    s: StateView,
    segs: Seq<Seq<char>>,
    k: int,
    cadence: int,
) -> (StateView, Seq<OpSpec>)
    decreases segs.len() - k,
    when 0 <= k
{
    if k >= segs.len() {
        (s, Seq::empty())
    } else {
        let first = run_spec(s, segment_events(segs[k]));
        let pause: Seq<OpSpec> = if cadence > 0 && (k + 1) % cadence == 0 {
            seq![OpSpec::Pause]
        } else {
            Seq::empty()
        };
        let rest = render_segments_spec(first.0, segs, k + 1, cadence);
        (rest.0, first.1 + pause + rest.1)
    }
}

/// The streaming Markdown renderer: configuration, theme, renderer state,
/// and the not-yet-rendered buffer.
pub struct MinimalStreamer {
    pub config: StreamerConfig,
    pub theme: Theme,
    pub state: RenderState,
    pub buffer: Vec<char>,
}

impl MinimalStreamer {
    /// A new streamer with the built-in theme the configuration names:
    /// `light`, `mono`, or the dark default.
    pub fn new(config: StreamerConfig) -> (s: MinimalStreamer)
        ensures
            config.theme_name@ == "light"@ ==> is_light_theme(s.theme),
            config.theme_name@ == "mono"@ ==> is_mono_theme(s.theme),
            config.theme_name@ != "light"@ && config.theme_name@ != "mono"@ ==> is_dark_theme(
                s.theme,
            ),
            s.config == config,
            s.buffer@ == Seq::<char>::empty(),
            s.state@ == initial_state(),
    {
        proof {
            reveal_strlit("light");
            reveal_strlit("mono");
            assert("light"@.len() == 5);
            assert("mono"@.len() == 4);
        }
        let theme = if str_eq(config.theme_name.as_str(), "light") {
            Theme::light()
        } else if str_eq(config.theme_name.as_str(), "mono") {
            Theme::mono()
        } else {
            Theme::dark()
        };
        MinimalStreamer { config, theme, state: RenderState::new(), buffer: Vec::new() }
    }

    /// A new streamer with an explicitly loaded theme, as when a theme file
    /// overrides the named preset.
    pub fn with_theme(config: StreamerConfig, theme: Theme) -> (s: MinimalStreamer)
        ensures
            s.config == config,
            s.theme == theme,
            s.buffer@ == Seq::<char>::empty(),
            s.state@ == initial_state(),
    {
        MinimalStreamer { config, theme, state: RenderState::new(), buffer: Vec::new() }
    }

    /// Renders one extracted segment: substitutes math placeholders, parses
    /// the segment as Markdown, and feeds every event through the renderer.
    fn render_segment(&mut self, seg: &Vec<char>, ops: &mut Vec<RenderOp>)
        ensures
            final(self).state@ == run_spec(old(self).state@, segment_events(seg@)).0,
            final(ops).deep_view() == old(ops).deep_view() + run_spec(
                old(self).state@,
                segment_events(seg@),
            ).1,
            final(self).config == old(self).config,
            final(self).theme == old(self).theme,
            final(self).buffer@ == old(self).buffer@,
    {
        let ghost s0 = self.state@;
        let ghost base = ops.deep_view();
        let pre = preprocess_math(seg);
        let events = parse_events(&pre);
        let ghost evs = segment_events(seg@);
        proof {
            assert(events.deep_view() == evs);
            assert(evs.skip(0) =~= evs);
        }
        let mut idx: usize = 0;
        while idx < events.len()
            invariant
                idx <= events.len(),
                events.deep_view() == evs,
                run_spec(s0, evs).0 == run_spec(self.state@, evs.skip(idx as int)).0,
                base + run_spec(s0, evs).1 == ops.deep_view() + run_spec(
                    self.state@,
                    evs.skip(idx as int),
                ).1,
                self.config == old(self).config,
                self.theme == old(self).theme,
                self.buffer@ == old(self).buffer@,
            decreases events.len() - idx,
        {
            let ghost tail = evs.skip(idx as int);
            proof {
                assert(tail[0] == evs[idx as int]);
                assert(tail.drop_first() =~= evs.skip(idx + 1 as int));
                assert(evs[idx as int] == events@[idx as int].deep_view());
            }
            let ghost pre_ops = ops.deep_view();
            let ghost pre_state = self.state@;
            let ev = &events[idx];
            self.state.step(ev, ops);
            proof {
                let first = crate::render::step_spec(pre_state, evs[idx as int]);
                let rest = run_spec(first.0, evs.skip(idx + 1 as int));
                assert(run_spec(pre_state, tail).0 == rest.0);
                assert(run_spec(pre_state, tail).1 == first.1 + rest.1);
                assert((pre_ops + first.1) + rest.1 =~= pre_ops + (first.1 + rest.1));
            }
            idx += 1;
        }
        proof {
            assert(evs.skip(evs.len() as int).len() == 0);
            assert(ops.deep_view() + Seq::<OpSpec>::empty() =~= ops.deep_view());
            assert(base + run_spec(s0, evs).1 =~= ops.deep_view());
        }
    }

    /// Accepts one piece of incoming text: appends it to the buffer,
    /// sanitizes, then extracts and renders every safe-to-render prefix,
    /// asking for a pause after every `cadence` flushes. The returned
    /// operations are performed by the caller in order.
    pub fn feed(&mut self, chunk: &str, cadence: u64) -> (ops: Vec<RenderOp>)
        requires
            cadence >= 1,
        ensures
            ({
                let sanitized = sanitize_spec(
                    old(self).buffer@ + chunk@,
                    old(self).config.strip_boxes,
                );
                let dr = drain_spec(sanitized, old(self).config.chunk_size as int);
                let rendered = render_segments_spec(old(self).state@, dr.0, 0, cadence as int);
                &&& final(self).buffer@ == dr.1
                &&& final(self).state@ == rendered.0
                &&& ops.deep_view() == rendered.1
                &&& final(self).config == old(self).config
                &&& final(self).theme == old(self).theme
            }),
    {
        let ghost cs = self.config.chunk_size as int;
        let cc = str_to_chars(chunk);
        push_all(&mut self.buffer, &cc);
        let stripped = strip_ansi(&self.buffer);
        self.buffer = stripped;
        if self.config.strip_boxes {
            let boxed = sanitize_boxes(&self.buffer);
            self.buffer = boxed;
        } else {
            let cleaned = strip_box_glyphs(&self.buffer);
            self.buffer = cleaned;
        }
        let ghost sanitized = self.buffer@;
        let ghost dr = drain_spec(sanitized, cs);
        let ghost s0 = self.state@;
        let sanitized_len = self.buffer.len();
        proof {
            assert(sanitized.len() == sanitized_len as int);
            assert(sanitized == sanitize_spec(
                old(self).buffer@ + chunk@,
                old(self).config.strip_boxes,
            ));
            lemma_drain_partitions(sanitized, cs);
        }
        let mut ops: Vec<RenderOp> = Vec::new();
        let mut count: u64 = 0;
        proof {
            assert(dr.0.skip(0) =~= dr.0);
        }
        loop
            invariant
                cadence >= 1,
                count <= dr.0.len() <= sanitized.len() <= usize::MAX as int,
                cs == self.config.chunk_size as int,
                cs >= 0,
                dr == drain_spec(sanitized, cs),
                dr.0.skip(count as int) == drain_spec(self.buffer@, cs).0,
                dr.1 == drain_spec(self.buffer@, cs).1,
                render_segments_spec(s0, dr.0, 0, cadence as int).0 == render_segments_spec(
                    self.state@,
                    dr.0,
                    count as int,
                    cadence as int,
                ).0,
                render_segments_spec(s0, dr.0, 0, cadence as int).1 == ops.deep_view()
                    + render_segments_spec(self.state@, dr.0, count as int, cadence as int).1,
                self.config == old(self).config,
                self.theme == old(self).theme,
            ensures
                self.buffer@ == dr.1,
                render_segments_spec(s0, dr.0, 0, cadence as int).0 == self.state@,
                render_segments_spec(s0, dr.0, 0, cadence as int).1 == ops.deep_view(),
                self.config == old(self).config,
                self.theme == old(self).theme,
            decreases self.buffer.len(),
        {
            proof {
                lemma_boundary_in_range(self.buffer@, cs);
            }
            let b = find_flush_boundary(&self.buffer, self.config.chunk_size);
            if b == 0 {
                proof {
                    assert(drain_spec(self.buffer@, cs).0 =~= Seq::<Seq<char>>::empty());
                    assert(dr.0.skip(count as int).len() == 0);
                    assert(count == dr.0.len());
                    assert(render_segments_spec(
                        self.state@,
                        dr.0,
                        count as int,
                        cadence as int,
                    ).1 =~= Seq::<OpSpec>::empty());
                    assert(ops.deep_view() + Seq::<OpSpec>::empty() =~= ops.deep_view());
                    assert(self.buffer@ == dr.1);
                }
                break ;
            }
            let ghost tail_segs = dr.0.skip(count as int);
            let ghost k = count as int;
            let seg = vec_subrange(&self.buffer, 0, b);
            let rest = vec_subrange(&self.buffer, b, self.buffer.len());
            proof {
                assert(drain_spec(self.buffer@, cs).0 == seq![self.buffer@.take(b as int)]
                    + drain_spec(self.buffer@.skip(b as int), cs).0);
                assert(seg@ =~= self.buffer@.take(b as int));
                assert(rest@ =~= self.buffer@.skip(b as int));
                assert(tail_segs[0] == seg@);
                assert(tail_segs.drop_first() =~= dr.0.skip(k + 1));
                assert(dr.0[k] == seg@);
            }
            self.buffer = rest;
            let ghost pre_state = self.state@;
            let ghost pre_ops = ops.deep_view();
            proof {
                assert(tail_segs.len() > 0);
                assert(count < dr.0.len());
            }
            self.render_segment(&seg, &mut ops);
            count = count + 1;
            let paused = count % cadence == 0;
            if paused {
                ops.push(RenderOp::Pause);
            }
            proof {
                let first = run_spec(pre_state, segment_events(dr.0[k]));
                let pause: Seq<OpSpec> = if cadence as int > 0 && (k + 1) % (cadence as int)
                    == 0 {
                    seq![OpSpec::Pause]
                } else {
                    Seq::empty()
                };
                assert(paused == ((k + 1) % (cadence as int) == 0));
                if paused {
                    assert(ops.deep_view() =~= (pre_ops + first.1).push(OpSpec::Pause));
                    assert(ops.deep_view() =~= pre_ops + (first.1 + pause));
                } else {
                    assert(ops.deep_view() =~= pre_ops + (first.1 + pause));
                }
                let rest_r = render_segments_spec(first.0, dr.0, k + 1, cadence as int);
                assert(render_segments_spec(pre_state, dr.0, k, cadence as int).0 == rest_r.0);
                assert(render_segments_spec(pre_state, dr.0, k, cadence as int).1 == first.1
                    + pause + rest_r.1);
                assert((pre_ops + (first.1 + pause)) + rest_r.1 =~= pre_ops + ((first.1 + pause)
                    + rest_r.1));
                assert((first.1 + pause) + rest_r.1 =~= first.1 + pause + rest_r.1);
            }
        }
        ops
    }

    /// Flushes whatever remains at end of input: a remainder holding any
    /// non-whitespace is rendered as one final segment, bypassing the
    /// boundary rules; a whitespace-only remainder is dropped unrendered.
    pub fn finish(&mut self) -> (ops: Vec<RenderOp>)
        ensures
            all_ws(old(self).buffer@) ==> *final(self) == *old(self) && ops.deep_view()
                == Seq::<OpSpec>::empty(),
            !all_ws(old(self).buffer@) ==> ({
                let rendered = run_spec(old(self).state@, segment_events(old(self).buffer@));
                &&& final(self).state@ == rendered.0
                &&& ops.deep_view() == rendered.1
                &&& final(self).buffer@ == Seq::<char>::empty()
                &&& final(self).config == old(self).config
                &&& final(self).theme == old(self).theme
            }),
    {
        let mut has_content = false;
        let mut k: usize = 0;
        while k < self.buffer.len()
            invariant
                k <= self.buffer.len(),
                self == old(self),
                has_content == (exists|t: int| 0 <= t < k && !is_ws(self.buffer@[t])),
            decreases self.buffer.len() - k,
        {
            if !is_ws_char(self.buffer[k]) {
                has_content = true;
                proof {
                    assert(!is_ws(self.buffer@[k as int]));
                }
            }
            k += 1;
        }
        let mut ops: Vec<RenderOp> = Vec::new();
        if has_content {
            let seg = vec_subrange(&self.buffer, 0, self.buffer.len());
            proof {
                assert(seg@ =~= self.buffer@);
            }
            self.buffer = Vec::new();
            self.render_segment(&seg, &mut ops);
            proof {
                assert(ops.deep_view() =~= Seq::<OpSpec>::empty() + run_spec(
                    old(self).state@,
                    segment_events(old(self).buffer@),
                ).1);
            }
        }
        ops
    }

    /// Builds the full command line for a language-model query: the
    /// configured command, a space, and the query, with the Markdown
    /// instruction prepended when injection is enabled. Without a
    /// configured command the query cannot run, and the error says so.
    pub fn prepare_query_command(&self, query: &str) -> (r: Result<String, String>)
        ensures
            match r {
                Ok(cmd) => self.config.llm_cmd matches Some(c) && cmd@ == c@ + " "@ + (
                if self.config.inject_md_instruction {
                    "Please respond only in Markdown.\n"@ + query@
                } else {
                    query@
                }),
                Err(e) => self.config.llm_cmd is None && e@
                    == "Error: --llm_cmd is required when using --query. Set it with --llm_cmd 'your-ai-tool'"@,
            },
    {
        match &self.config.llm_cmd {
            None => Err(
                String::from_str(
                    "Error: --llm_cmd is required when using --query. Set it with --llm_cmd 'your-ai-tool'",
                ),
            ),
            Some(c) => {
                let mut out = String::from_str(c.as_str());
                out.append(" ");
                if self.config.inject_md_instruction {
                    out.append("Please respond only in Markdown.\n");
                }
                out.append(query);
                Ok(out)
            },
        }
    }
}

} // verus!
