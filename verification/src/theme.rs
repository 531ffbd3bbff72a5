//! Color themes for Markdown rendering: a fixed set of style roles, each
//! resolving to a named terminal color or an RGB triple, with three built-in
//! presets and per-role fallback rules.

use vstd::prelude::*;
use vstd::string::StringExecFns;
use crate::chars::str_to_chars;

verus! {

/// A terminal color: one of the named ANSI colors or an RGB triple.
#[derive(Clone, Copy, Debug, PartialEq, Eq, Structural)]
pub enum Color {
    Black,
    Red,
    Green,
    Yellow,
    Blue,
    Magenta,
    Cyan,
    White,
    DarkGrey,
    Grey,
    Rgb { r: u8, g: u8, b: u8 },
}

/// Heading color configuration: a single color for all levels, or one color
/// per level.
#[derive(Debug, Clone)]
pub enum HeadingColors {
    /// Single color for all heading levels.
    Single(String),
    /// Individual colors for heading levels, first level first.
    Multiple(Vec<String>),
}

/// Color theme for Markdown rendering.
#[derive(Debug, Clone)]
pub struct Theme {
    /// Heading colors, a single color or one per level.
    pub heading: HeadingColors,
    /// Code block color.
    pub code: String,
    /// Bold text color.
    pub bold: String,
    /// Italic text color.
    pub italic: String,
    /// Link color.
    pub link: String,
    /// List bullet color.
    pub list: String,
}

pub open spec fn is_hex_digit(c: char) -> bool {
    ('0' <= c && c <= '9') || ('a' <= c && c <= 'f') || ('A' <= c && c <= 'F')
}

/// The value of one hexadecimal digit.
pub open spec fn hex_val(c: char) -> int {
    if '0' <= c && c <= '9' {
        c as int - '0' as int
    } else if 'a' <= c && c <= 'f' {
        c as int - 'a' as int + 10
    } else if 'A' <= c && c <= 'F' {
        c as int - 'A' as int + 10
    } else {
        0
    }
}

/// ASCII lowercasing of one character.
pub open spec fn ascii_lower(c: char) -> char {
    if 'A' <= c && c <= 'Z' {
        ((c as u8) + 32) as char
    } else {
        c
    }
}

pub open spec fn lower_seq(s: Seq<char>) -> Seq<char> {
    Seq::new(s.len(), |i: int| ascii_lower(s[i]))
}

/// The string is `#RRGGBB`: a hash sign and six hexadecimal digits.
pub open spec fn is_hex_color(s: Seq<char>) -> bool {
    s.len() == 7 && s[0] == '#' && is_hex_digit(s[1]) && is_hex_digit(s[2]) && is_hex_digit(s[3])
        && is_hex_digit(s[4]) && is_hex_digit(s[5]) && is_hex_digit(s[6])
}

/// The color a named color string denotes, after ASCII lowercasing; any
/// unrecognized name falls back to white.
pub open spec fn named_color_spec(s: Seq<char>) -> Color {
    let l = lower_seq(s);
    if l == seq!['b', 'l', 'a', 'c', 'k'] {
        Color::Black
    } else if l == seq!['r', 'e', 'd'] {
        Color::Red
    } else if l == seq!['g', 'r', 'e', 'e', 'n'] {
        Color::Green
    } else if l == seq!['y', 'e', 'l', 'l', 'o', 'w'] {
        Color::Yellow
    } else if l == seq!['b', 'l', 'u', 'e'] {
        Color::Blue
    } else if l == seq!['m', 'a', 'g', 'e', 'n', 't', 'a'] {
        Color::Magenta
    } else if l == seq!['c', 'y', 'a', 'n'] {
        Color::Cyan
    } else if l == seq!['w', 'h', 'i', 't', 'e'] {
        Color::White
    } else if l == seq!['d', 'a', 'r', 'k', '_', 'g', 'r', 'e', 'y'] {
        Color::DarkGrey
    } else if l == seq!['d', 'a', 'r', 'k', '_', 'g', 'r', 'a', 'y'] {
        Color::DarkGrey
    } else if l == seq!['g', 'r', 'e', 'y'] {
        Color::Grey
    } else if l == seq!['g', 'r', 'a', 'y'] {
        Color::Grey
    } else {
        Color::White
    }
}

/// The color a theme color string denotes: an RGB triple for a `#RRGGBB`
/// string, else a named color.
pub open spec fn parse_color_spec(s: Seq<char>) -> Color {
    if is_hex_color(s) {
        Color::Rgb {
            r: (16 * hex_val(s[1]) + hex_val(s[2])) as u8,
            g: (16 * hex_val(s[3]) + hex_val(s[4])) as u8,
            b: (16 * hex_val(s[5]) + hex_val(s[6])) as u8,
        }
    } else {
        named_color_spec(s)
    }
}

/// The color string a style role resolves to; an unknown role resolves to
/// white.
pub open spec fn field_color_name(t: Theme, field: Seq<char>) -> Seq<char> {
    if field == seq!['c', 'o', 'd', 'e'] {
        t.code@
    } else if field == seq!['b', 'o', 'l', 'd'] {
        t.bold@
    } else if field == seq!['i', 't', 'a', 'l', 'i', 'c'] {
        t.italic@
    } else if field == seq!['l', 'i', 'n', 'k'] {
        t.link@
    } else if field == seq!['l', 'i', 's', 't'] {
        t.list@
    } else {
        seq!['w', 'h', 'i', 't', 'e']
    }
}

/// The color string chosen for a heading level: the level's own entry, the
/// last entry when the level lies past the list, or white when the list is
/// empty.
pub open spec fn heading_color_name(h: HeadingColors, level: int) -> Seq<char> {
    match h {
        HeadingColors::Single(c) => c@,
        HeadingColors::Multiple(cs) => {
            let idx = if level >= 1 {
                level - 1
            } else {
                0
            };
            if idx < cs@.len() {
                cs@[idx]@
            } else if cs@.len() > 0 {
                cs@[cs@.len() - 1]@
            } else {
                seq!['#', 'f', 'f', 'f', 'f', 'f', 'f']
            }
        },
    }
}

/// Requesting a heading color for a level past the end of an explicit color
/// list reuses the list's last entry: clamped, never an error.
pub proof fn lemma_heading_color_clamped(h: HeadingColors, level: int)
    requires
        h matches HeadingColors::Multiple(cs) && cs@.len() > 0,
        level >= 1,
        level - 1 >= (h->Multiple_0)@.len(),
    ensures
        heading_color_name(h, level) == (h->Multiple_0)@[(h->Multiple_0)@.len() - 1]@,
{
}

fn chars_eq(v: &Vec<char>, p: &Vec<char>) -> (r: bool)
    ensures
        r == (v@ == p@),
{
    if v.len() != p.len() {
        return false;
    }
    let mut k: usize = 0;
    while k < v.len()
        invariant
            k <= v.len(),
            v.len() == p.len(),
            forall|t: int| 0 <= t < k ==> v@[t] == p@[t],
        decreases v.len() - k,
    {
        if v[k] != p[k] {
            return false;
        }
        k += 1;
    }
    proof {
        assert(v@ =~= p@);
    }
    true
}

fn lower_chars(v: &Vec<char>) -> (r: Vec<char>)
    ensures
        r@ == lower_seq(v@),
{
    let mut out: Vec<char> = Vec::new();
    let mut k: usize = 0;
    while k < v.len()
        invariant
            k <= v.len(),
            out@.len() == k,
            forall|t: int| 0 <= t < k ==> out@[t] == ascii_lower(v@[t]),
        decreases v.len() - k,
    {
        let c = v[k];
        if 'A' <= c && c <= 'Z' {
            out.push(((c as u8) + 32) as char);
        } else {
            out.push(c);
        }
        k += 1;
    }
    proof {
        assert(out@ =~= lower_seq(v@));
    }
    out
}

fn is_hex_digit_exec(c: char) -> (r: bool)
    ensures
        r == is_hex_digit(c),
{
    ('0' <= c && c <= '9') || ('a' <= c && c <= 'f') || ('A' <= c && c <= 'F')
}

fn hex_val_exec(c: char) -> (r: u8)
    ensures
        r as int == hex_val(c),
        r < 16,
{
    if '0' <= c && c <= '9' {
        (c as u8) - ('0' as u8)
    } else if 'a' <= c && c <= 'f' {
        (c as u8) - ('a' as u8) + 10
    } else if 'A' <= c && c <= 'F' {
        (c as u8) - ('A' as u8) + 10
    } else {
        0
    }
}

/// The default heading color: white, as a single color for all levels.
pub fn default_heading() -> (h: HeadingColors)
    ensures
        h matches HeadingColors::Single(c) && c@ == "#ffffff"@,
{
    HeadingColors::Single(String::from_str("#ffffff"))
}

/// The dark preset's color values.
pub open spec fn is_dark_theme(t: Theme) -> bool {
    &&& t.heading matches HeadingColors::Single(c) && c@ == "#89b4fa"@
    &&& t.code@ == "#1e1e2e"@
    &&& t.bold@ == "#cdd6f4"@
    &&& t.italic@ == "#f5c2e7"@
    &&& t.link@ == "#a6e3a1"@
    &&& t.list@ == "#f9e2af"@
}

/// The light preset's color values.
pub open spec fn is_light_theme(t: Theme) -> bool {
    &&& t.heading matches HeadingColors::Single(c) && c@ == "#1e66f5"@
    &&& t.code@ == "#eff1f5"@
    &&& t.bold@ == "#4c4f69"@
    &&& t.italic@ == "#ea76cb"@
    &&& t.link@ == "#40a02b"@
    &&& t.list@ == "#df8e1d"@
}

/// The monochrome preset's color values.
pub open spec fn is_mono_theme(t: Theme) -> bool {
    &&& t.heading matches HeadingColors::Single(c) && c@ == "#4c4f69"@
    &&& t.code@ == "#dce0e8"@
    &&& t.bold@ == "#4c4f69"@
    &&& t.italic@ == "#4c4f69"@
    &&& t.link@ == "#40a02b"@
    &&& t.list@ == "#df8e1d"@
}

impl Theme {
    /// Parses a color string: `#RRGGBB` as an RGB triple, else a named
    /// color, with white for anything unrecognized.
    pub fn parse_color(color_str: &str) -> (r: Color)
        ensures
            r == parse_color_spec(color_str@),
    {
        let v = str_to_chars(color_str);
        if v.len() == 7 && v[0] == '#' && is_hex_digit_exec(v[1]) && is_hex_digit_exec(v[2])
            && is_hex_digit_exec(v[3]) && is_hex_digit_exec(v[4]) && is_hex_digit_exec(v[5])
            && is_hex_digit_exec(v[6]) {
            let r = 16 * hex_val_exec(v[1]) + hex_val_exec(v[2]);
            let g = 16 * hex_val_exec(v[3]) + hex_val_exec(v[4]);
            let b = 16 * hex_val_exec(v[5]) + hex_val_exec(v[6]);
            return Color::Rgb { r, g, b };
        }
        let l = lower_chars(&v);
        if chars_eq(&l, &vec!['b', 'l', 'a', 'c', 'k']) {
            return Color::Black;
        }
        if chars_eq(&l, &vec!['r', 'e', 'd']) {
            return Color::Red;
        }
        if chars_eq(&l, &vec!['g', 'r', 'e', 'e', 'n']) {
            return Color::Green;
        }
        if chars_eq(&l, &vec!['y', 'e', 'l', 'l', 'o', 'w']) {
            return Color::Yellow;
        }
        if chars_eq(&l, &vec!['b', 'l', 'u', 'e']) {
            return Color::Blue;
        }
        if chars_eq(&l, &vec!['m', 'a', 'g', 'e', 'n', 't', 'a']) {
            return Color::Magenta;
        }
        if chars_eq(&l, &vec!['c', 'y', 'a', 'n']) {
            return Color::Cyan;
        }
        if chars_eq(&l, &vec!['w', 'h', 'i', 't', 'e']) {
            return Color::White;
        }
        if chars_eq(&l, &vec!['d', 'a', 'r', 'k', '_', 'g', 'r', 'e', 'y']) {
            return Color::DarkGrey;
        }
        if chars_eq(&l, &vec!['d', 'a', 'r', 'k', '_', 'g', 'r', 'a', 'y']) {
            return Color::DarkGrey;
        }
        if chars_eq(&l, &vec!['g', 'r', 'e', 'y']) {
            return Color::Grey;
        }
        if chars_eq(&l, &vec!['g', 'r', 'a', 'y']) {
            return Color::Grey;
        }
        Color::White
    }

    /// The color for a style role: `code`, `bold`, `italic`, `link` or
    /// `list`; anything else resolves to white.
    pub fn get_color(&self, field: &str) -> (r: Color)
        ensures
            r == parse_color_spec(field_color_name(*self, field@)),
    {
        let f = str_to_chars(field);
        if chars_eq(&f, &vec!['c', 'o', 'd', 'e']) {
            Self::parse_color(self.code.as_str())
        } else if chars_eq(&f, &vec!['b', 'o', 'l', 'd']) {
            Self::parse_color(self.bold.as_str())
        } else if chars_eq(&f, &vec!['i', 't', 'a', 'l', 'i', 'c']) {
            Self::parse_color(self.italic.as_str())
        } else if chars_eq(&f, &vec!['l', 'i', 'n', 'k']) {
            Self::parse_color(self.link.as_str())
        } else if chars_eq(&f, &vec!['l', 'i', 's', 't']) {
            Self::parse_color(self.list.as_str())
        } else {
            let white = String::from_str("white");
            proof {
                reveal_strlit("white");
                assert("white"@ =~= seq!['w', 'h', 'i', 't', 'e']);
            }
            Self::parse_color(white.as_str())
        }
    }

    /// The heading color for a level, first level one: a level past an
    /// explicit color list reuses the last entry; an empty list falls back
    /// to white.
    pub fn get_heading_color(&self, level: usize) -> (r: Color)
        ensures
            r == parse_color_spec(heading_color_name(self.heading, level as int)),
    {
        match &self.heading {
            HeadingColors::Single(c) => Self::parse_color(c.as_str()),
            HeadingColors::Multiple(colors) => {
                let idx = if level >= 1 {
                    level - 1
                } else {
                    0
                };
                if idx < colors.len() {
                    Self::parse_color(colors[idx].as_str())
                } else if colors.len() > 0 {
                    Self::parse_color(colors[colors.len() - 1].as_str())
                } else {
                    let white = String::from_str("#ffffff");
                    proof {
                        reveal_strlit("#ffffff");
                        assert("#ffffff"@ =~= seq!['#', 'f', 'f', 'f', 'f', 'f', 'f']);
                    }
                    Self::parse_color(white.as_str())
                }
            },
        }
    }

    /// The built-in dark preset.
    pub fn dark() -> (t: Theme)
        ensures
            is_dark_theme(t),
    {
        Theme {
            heading: HeadingColors::Single(String::from_str("#89b4fa")),
            code: String::from_str("#1e1e2e"),
            bold: String::from_str("#cdd6f4"),
            italic: String::from_str("#f5c2e7"),
            link: String::from_str("#a6e3a1"),
            list: String::from_str("#f9e2af"),
        }
    }

    /// The built-in light preset.
    pub fn light() -> (t: Theme)
        ensures
            is_light_theme(t),
    {
        Theme {
            heading: HeadingColors::Single(String::from_str("#1e66f5")),
            code: String::from_str("#eff1f5"),
            bold: String::from_str("#4c4f69"),
            italic: String::from_str("#ea76cb"),
            link: String::from_str("#40a02b"),
            list: String::from_str("#df8e1d"),
        }
    }

    /// The built-in monochrome preset.
    pub fn mono() -> (t: Theme)
        ensures
            is_mono_theme(t),
    {
        Theme {
            heading: HeadingColors::Single(String::from_str("#4c4f69")),
            code: String::from_str("#dce0e8"),
            bold: String::from_str("#4c4f69"),
            italic: String::from_str("#4c4f69"),
            link: String::from_str("#40a02b"),
            list: String::from_str("#df8e1d"),
        }
    }
}

} // verus!
