use livemd::config::ConfigFile;
use livemd::config::LlmCmdConfig;
use livemd::theme::Color;
use livemd::theme::HeadingColors;
use livemd::theme::Theme;
use livemd::theme::default_heading;

fn sample_theme(heading: HeadingColors) -> Theme {
    Theme {
        heading,
        code: String::from("#101010"),
        bold: String::from("#cdd6f4"),
        italic: String::from("magenta"),
        link: String::from("#a6e3a1"),
        list: String::from("yellow"),
    }
}

fn empty_config() -> ConfigFile {
    ConfigFile {
        theme_file: None,
        llm_cmd: None,
        speed_micros: None,
        chunk_size: None,
        theme: None,
        strip_boxes: None,
        inject_md_instruction: None,
    }
}

#[test]
fn hex_colors_parse_to_rgb() {
    assert_eq!(Theme::parse_color("#89b4fa"), Color::Rgb { r: 0x89, g: 0xb4, b: 0xfa });
    assert_eq!(Theme::parse_color("#FFFFFF"), Color::Rgb { r: 255, g: 255, b: 255 });
    assert_eq!(Theme::parse_color("#000000"), Color::Rgb { r: 0, g: 0, b: 0 });
}

#[test]
fn named_colors_parse_case_insensitively() {
    assert_eq!(Theme::parse_color("red"), Color::Red);
    assert_eq!(Theme::parse_color("Yellow"), Color::Yellow);
    assert_eq!(Theme::parse_color("DARK_GREY"), Color::DarkGrey);
    assert_eq!(Theme::parse_color("gray"), Color::Grey);
}

#[test]
fn unknown_colors_fall_back_to_white() {
    assert_eq!(Theme::parse_color("chartreuse"), Color::White);
    assert_eq!(Theme::parse_color("#12345"), Color::White);
    assert_eq!(Theme::parse_color("#12345g"), Color::White);
}

#[test]
fn role_colors_resolve_from_theme_fields() {
    let t = sample_theme(HeadingColors::Single(String::from("#89b4fa")));
    assert_eq!(t.get_color("code"), Color::Rgb { r: 0x10, g: 0x10, b: 0x10 });
    assert_eq!(t.get_color("italic"), Color::Magenta);
    assert_eq!(t.get_color("list"), Color::Yellow);
    assert_eq!(t.get_color("unknown role"), Color::White);
}

#[test]
fn heading_level_two_uses_its_entry() {
    let t = sample_theme(HeadingColors::Multiple(vec![
        String::from("#ff0000"),
        String::from("#00ff00"),
        String::from("#0000ff"),
    ]));
    assert_eq!(t.get_heading_color(2), Color::Rgb { r: 0, g: 0xff, b: 0 });
}

#[test]
fn heading_level_past_list_clamps_to_last_entry() {
    let t = sample_theme(HeadingColors::Multiple(vec![
        String::from("#ff0000"),
        String::from("#00ff00"),
        String::from("#0000ff"),
    ]));
    assert_eq!(t.get_heading_color(7), Color::Rgb { r: 0, g: 0, b: 0xff });
}

#[test]
fn heading_empty_list_falls_back_to_white() {
    let t = sample_theme(HeadingColors::Multiple(Vec::new()));
    assert_eq!(t.get_heading_color(1), Color::Rgb { r: 255, g: 255, b: 255 });
}

#[test]
fn default_heading_is_white() {
    match default_heading() {
        HeadingColors::Single(c) => assert_eq!(c, "#ffffff"),
        HeadingColors::Multiple(_) => panic!("expected a single color"),
    }
}

#[test]
fn built_in_presets_have_their_colors() {
    let dark = Theme::dark();
    assert_eq!(dark.get_color("bold"), Color::Rgb { r: 0xcd, g: 0xd6, b: 0xf4 });
    assert_eq!(dark.get_heading_color(1), Color::Rgb { r: 0x89, g: 0xb4, b: 0xfa });
    let light = Theme::light();
    assert_eq!(light.get_heading_color(3), Color::Rgb { r: 0x1e, g: 0x66, b: 0xf5 });
    let mono = Theme::mono();
    assert_eq!(mono.get_color("italic"), mono.get_color("bold"));
}

#[test]
fn resolve_llm_cmd_prefers_named_preset() {
    let mut cfg = empty_config();
    cfg.llm_cmd = Some(LlmCmdConfig::Multiple(vec![
        (String::from("default"), String::from("ai-default")),
        (String::from("fast"), String::from("ai-fast")),
    ]));
    assert_eq!(cfg.resolve_llm_cmd(Some("fast")), Some(String::from("ai-fast")));
    assert_eq!(cfg.resolve_llm_cmd(Some("missing")), None);
}

#[test]
fn resolve_llm_cmd_uses_default_entry() {
    let mut cfg = empty_config();
    cfg.llm_cmd = Some(LlmCmdConfig::Multiple(vec![
        (String::from("other"), String::from("ai-other")),
        (String::from("default"), String::from("ai-default")),
    ]));
    assert_eq!(cfg.resolve_llm_cmd(None), Some(String::from("ai-default")));
}

#[test]
fn resolve_llm_cmd_falls_back_to_first_entry() {
    let mut cfg = empty_config();
    cfg.llm_cmd = Some(LlmCmdConfig::Multiple(vec![
        (String::from("one"), String::from("ai-one")),
        (String::from("two"), String::from("ai-two")),
    ]));
    assert_eq!(cfg.resolve_llm_cmd(None), Some(String::from("ai-one")));
}

#[test]
fn resolve_llm_cmd_single_wins_over_cli() {
    let mut cfg = empty_config();
    cfg.llm_cmd = Some(LlmCmdConfig::Single(String::from("ai-single")));
    assert_eq!(cfg.resolve_llm_cmd(Some("other")), Some(String::from("ai-single")));
}

#[test]
fn resolve_llm_cmd_uses_cli_when_unconfigured() {
    let cfg = empty_config();
    assert_eq!(cfg.resolve_llm_cmd(Some("ai-cli")), Some(String::from("ai-cli")));
    assert_eq!(cfg.resolve_llm_cmd(None), None);
}
