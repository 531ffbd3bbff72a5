use livemd::chars::chars_to_string;
use livemd::chars::str_to_chars;
use livemd::config::StreamerConfig;
use livemd::render::RenderOp;
use livemd::render::StyleRole;
use livemd::sanitize::preprocess_math;
use livemd::sanitize::sanitize_boxes;
use livemd::sanitize::strip_ansi;
use livemd::streamer::MinimalStreamer;
use livemd::streamer::BULK_FLUSH_CADENCE;
use livemd::table::TableRenderer;

fn config(chunk_size: usize, strip_boxes: bool) -> StreamerConfig {
    StreamerConfig {
        chunk_size,
        delay_micros: 0,
        strip_boxes,
        llm_cmd: None,
        inject_md_instruction: true,
        theme_name: String::from("dark"),
        theme_file: None,
    }
}

fn run_all(input: &str, strip_boxes: bool) -> Vec<RenderOp> {
    let mut s = MinimalStreamer::new(config(150, strip_boxes));
    let mut ops = s.feed(input, BULK_FLUSH_CADENCE);
    ops.extend(s.finish());
    ops
}

fn styled_parts(ops: &[RenderOp]) -> Vec<String> {
    ops.iter()
        .filter_map(|op| match op {
            RenderOp::Styled(t) => Some(t.clone()),
            _ => None,
        })
        .collect()
}

#[test]
fn table_grid_two_columns_width_one() {
    let grid = TableRenderer::render_table("a | b\n1 | 2");
    let expected = "\u{250c}\u{2500}\u{2500}\u{2500}\u{252c}\u{2500}\u{2500}\u{2500}\u{2510}\n\
                    \u{2502} a \u{2502} b \u{2502}\n\
                    \u{251c}\u{2500}\u{2500}\u{2500}\u{253c}\u{2500}\u{2500}\u{2500}\u{2524}\n\
                    \u{2502} 1 \u{2502} 2 \u{2502}\n\
                    \u{2514}\u{2500}\u{2500}\u{2500}\u{2534}\u{2500}\u{2500}\u{2500}\u{2518}\n";
    assert_eq!(grid, expected);
}

#[test]
fn table_grid_pads_to_widest_cell() {
    let grid = TableRenderer::render_table("name | id\nlonger | 7");
    for line in grid.lines() {
        assert_eq!(line.chars().count(), 15);
    }
    assert!(grid.contains("\u{2502} name   \u{2502} id \u{2502}"));
    assert!(grid.contains("\u{2502} longer \u{2502} 7  \u{2502}"));
}

#[test]
fn table_grid_empty_for_blank_text() {
    assert_eq!(TableRenderer::render_table(""), "");
    assert_eq!(TableRenderer::render_table("   \n  "), "");
}

#[test]
fn streamed_table_renders_one_grid() {
    // Rows that begin with a pipe are never split by the scheduler, so the
    // whole table reaches the renderer in one segment.
    let ops = run_all("| a | b |\n| 1 | 2 |\nafter the table\n\n", false);
    let mut grids = ops.iter().filter_map(|op| match op {
        RenderOp::Plain(t) if t.contains('\u{250c}') => Some(t.clone()),
        _ => None,
    });
    let grid = grids.next().expect("a rendered grid");
    assert!(grids.next().is_none());
    assert!(grid.contains("\u{2502} a \u{2502} b \u{2502}"));
    assert!(grid.contains("\u{2502} 1 \u{2502} 2 \u{2502}"));
}

#[test]
fn heading_renders_as_one_styled_unit() {
    let ops = run_all("## Title\n\nbody\n\n", false);
    let styled = styled_parts(&ops);
    assert!(styled.iter().any(|t| t == "## Title"));
}

#[test]
fn emphasis_in_heading_stays_literal() {
    let ops = run_all("# A *big* day\n\n", false);
    let styled = styled_parts(&ops);
    assert!(styled.iter().any(|t| t == "# A *big* day"));
}

#[test]
fn unordered_list_renders_with_dashes() {
    let ops = run_all("- one\n- two\n\n", false);
    let styled = styled_parts(&ops);
    assert!(styled.iter().any(|t| t == "- one\n- two\n"));
}

#[test]
fn ordered_list_numbers_from_declared_start() {
    let ops = run_all("3. first\n4. second\n\n", false);
    let styled = styled_parts(&ops);
    assert!(styled.iter().any(|t| t == "3. first\n4. second\n"));
}

#[test]
fn nested_list_is_indented() {
    let ops = run_all("- top\n  - inner\n\n", false);
    let styled = styled_parts(&ops);
    assert!(styled.iter().any(|t| t.contains("- top\n") && t.contains("  - inner\n")));
}

#[test]
fn code_block_renders_fenced_and_whole() {
    let ops = run_all("```rust\nfn x(){}\n```\nafter\n\n", false);
    let styled = styled_parts(&ops);
    assert!(styled.iter().any(|t| t.starts_with("```rust\n") && t.ends_with("```")
        && t.contains("fn x(){}")));
}

#[test]
fn strong_text_toggles_live_style() {
    let ops = run_all("**bold** rest\n\n", false);
    let mut saw_on = false;
    let mut saw_off = false;
    let mut bold_text = false;
    for op in &ops {
        match op {
            RenderOp::StyleOn(StyleRole::Bold) => saw_on = true,
            RenderOp::StyleOff => {
                if saw_on {
                    saw_off = true;
                }
            }
            RenderOp::Plain(t) => {
                if saw_on && !saw_off && t == "bold" {
                    bold_text = true;
                }
            }
            _ => {}
        }
    }
    assert!(saw_on && saw_off && bold_text);
}

#[test]
fn block_quote_emits_quote_ops() {
    let ops = run_all("> wise words\n\n", false);
    assert!(ops.iter().any(|op| matches!(op, RenderOp::QuoteStart)));
    assert!(ops.iter().any(|op| matches!(op, RenderOp::QuoteEnd)));
    assert!(ops.iter().any(|op| matches!(op, RenderOp::Plain(t) if t == "wise words")));
}

#[test]
fn horizontal_rule_emits_rule_op() {
    let ops = run_all("above\n\n---\n\nbelow\n\n", false);
    assert!(ops.iter().any(|op| matches!(op, RenderOp::Rule)));
}

#[test]
fn strip_ansi_removes_escape_sequences() {
    let cleaned = chars_to_string(&strip_ansi(&str_to_chars(
        "\u{1b}[1;31mred\u{1b}[0m plain \u{1b}[2K",
    )));
    assert_eq!(cleaned, "red plain ");
}

#[test]
fn strip_ansi_keeps_incomplete_escape() {
    let cleaned = chars_to_string(&strip_ansi(&str_to_chars("tail\u{1b}[31")));
    assert_eq!(cleaned, "tail\u{1b}[31");
}

#[test]
fn ascii_box_becomes_heading_when_enabled() {
    let cleaned = chars_to_string(&sanitize_boxes(&str_to_chars("+----+\n| hi |\n+----+")));
    assert_eq!(cleaned, "\n### hi\n");
}

#[test]
fn ascii_box_passes_through_when_disabled() {
    // With box stripping off, no box-to-heading conversion happens, and the
    // ASCII characters are neither ANSI escapes nor box-drawing glyphs.
    let ops = run_all("+----+\n| hi |\n+----+\n\n", false);
    let mut all = String::new();
    for op in &ops {
        match op {
            RenderOp::Plain(t) | RenderOp::Styled(t) => all.push_str(t),
            _ => {}
        }
    }
    assert!(all.contains("hi"));
    assert!(all.contains("+----+") || all.contains("+"));
}

#[test]
fn unicode_box_glyphs_stripped_even_with_stripping_disabled() {
    // The clean-line rule is unconditional for Unicode box-drawing glyphs:
    // they vanish from the stream even when box conversion is off, while
    // the ASCII test above shows +, - and | passing through untouched.
    let ops = run_all("\u{250c}\u{2500}\u{2510} framed\n\n", false);
    let mut all = String::new();
    for op in &ops {
        match op {
            RenderOp::Plain(t) | RenderOp::Styled(t) => all.push_str(t),
            _ => {}
        }
    }
    assert!(all.contains("framed"));
    assert!(!all.contains('\u{250c}'));
    assert!(!all.contains('\u{2500}'));
    assert!(!all.contains('\u{2510}'));
}

#[test]
fn unicode_box_characters_always_stripped_from_plain_lines() {
    // A lone box-drawing line outside a three-line pattern loses its
    // box-drawing characters even though no heading is made.
    let cleaned = chars_to_string(&sanitize_boxes(&str_to_chars("\u{250c}\u{2500}\u{2510}\nhi")));
    assert_eq!(cleaned, "\nhi");
}

#[test]
fn empty_box_interior_vanishes() {
    let cleaned = chars_to_string(&sanitize_boxes(&str_to_chars("+--+\n||\n+--+")));
    assert_eq!(cleaned, "");
}

#[test]
fn link_text_passes_through_markers_dropped() {
    let ops = run_all("see [the docs](https://example.com) now\n\n", false);
    let mut all = String::new();
    for op in &ops {
        match op {
            RenderOp::Plain(t) | RenderOp::Styled(t) => all.push_str(t),
            _ => {}
        }
    }
    assert!(all.contains("see the docs now"));
    assert!(!all.contains('['));
    assert!(!all.contains("example.com"));
}

#[test]
fn unmatched_bracket_stays_literal() {
    let ops = run_all("array[0] indexing\n\n", false);
    let mut all = String::new();
    for op in &ops {
        match op {
            RenderOp::Plain(t) | RenderOp::Styled(t) => all.push_str(t),
            _ => {}
        }
    }
    assert!(all.contains("array[0] indexing"));
}

#[test]
fn math_placeholder_trims_inner_text() {
    let replaced = chars_to_string(&preprocess_math(&str_to_chars("a $$  e = mc^2  $$ b")));
    assert_eq!(replaced, "a [Math: e = mc^2] b");
}

#[test]
fn unterminated_math_left_alone() {
    let replaced = chars_to_string(&preprocess_math(&str_to_chars("price $$ almost")));
    assert_eq!(replaced, "price $$ almost");
}
