//! Theme configuration, color palettes and the built-in theme catalog.
use vstd::prelude::*;

use crate::text::{chars_of, spec_trim, trim_chars};

verus! {

/// Theme mode: dark, light, or follow the system.
#[derive(Debug, Clone, Copy, PartialEq, Eq, Structural)]
pub enum ThemeMode {
    Dark,
    Light,
    Auto,
}

impl Default for ThemeMode {
    fn default() -> (m: Self)
        ensures
            m == ThemeMode::Dark,
    {
        ThemeMode::Dark
    }
}

/// Theme configuration.
#[derive(Debug, Clone)]
pub struct ThemeConfig {
    /// Mode: dark, light, auto
    pub mode: ThemeMode,
    /// Theme name (built-in or "custom")
    pub name: String,
    /// Custom theme file path (empty for built-in)
    pub file: String,
}

impl Default for ThemeConfig {
    fn default() -> (c: Self)
        ensures
            c.mode == ThemeMode::Dark,
            c.name@ == "dracula"@,
            c.file@ == Seq::<char>::empty(),
    {
        ThemeConfig { mode: ThemeMode::Dark, name: "dracula".to_string(), file: String::new() }
    }
}

/// Number of UTF-8 bytes that encode `c`.
pub open spec fn char_width(c: char) -> nat {
    if (c as u32) < 0x80 {
        1
    } else if (c as u32) < 0x800 {
        2
    } else if (c as u32) < 0x10000 {
        3
    } else {
        4
    }
}

/// Number of UTF-8 bytes that encode `s`.
pub open spec fn byte_len(s: Seq<char>) -> nat
    decreases s.len(),
{
    if s.len() == 0 {
        0
    } else {
        byte_len(s.drop_last()) + char_width(s.last())
    }
}

pub proof fn lemma_byte_len_front(s: Seq<char>)
    requires
        s.len() > 0,
    ensures
        byte_len(s) == char_width(s[0]) + byte_len(s.drop_first()),
    decreases s.len(),
{
    if s.len() > 1 {
        lemma_byte_len_front(s.drop_last());
        assert(s.drop_last().drop_first() =~= s.drop_first().drop_last());
        assert(s.drop_first().last() == s.last());
        assert(byte_len(s.drop_first()) == byte_len(s.drop_first().drop_last()) + char_width(
            s.drop_first().last(),
        ));
    } else {
        assert(s.drop_first().len() == 0);
        assert(s.drop_last().len() == 0);
        assert(byte_len(s.drop_last()) == 0);
        assert(byte_len(s.drop_first()) == 0);
        assert(s.last() == s[0]);
    }
}

pub open spec fn is_hex_digit(c: char) -> bool {
    let v = c as u32;
    (0x30 <= v && v <= 0x39) || (0x61 <= v && v <= 0x66) || (0x41 <= v && v <= 0x46)
}

pub open spec fn hex_value(c: char) -> int {
    let v = c as u32;
    if 0x30 <= v && v <= 0x39 {
        v - 0x30
    } else if 0x61 <= v && v <= 0x66 {
        v - 0x61 + 10
    } else {
        v - 0x41 + 10
    }
}

/// The part of a color string after trimming and dropping one leading `#`.
pub open spec fn hex_body(s: Seq<char>) -> Seq<char> {
    let t = spec_trim(s);
    if t.len() > 0 && t[0] == '#' {
        t.drop_first()
    } else {
        t
    }
}

/// Exactly six hexadecimal digits.
pub open spec fn six_hex_digits(u: Seq<char>) -> bool {
    u.len() == 6 && forall|i: int| 0 <= i < 6 ==> #[trigger] is_hex_digit(u[i])
}

/// The byte two hex digits spell.
pub open spec fn hex_pair(a: char, b: char) -> u8 {
    (16 * hex_value(a) + hex_value(b)) as u8
}

/// `"#rrggbb"` (or `"rrggbb"`, surrounding whitespace allowed) as `(r, g, b)`;
/// `None` for anything else.
pub open spec fn spec_parse_hex_color(s: Seq<char>) -> Option<(u8, u8, u8)> {
    let u = hex_body(s);
    if six_hex_digits(u) {
        Some((hex_pair(u[0], u[1]), hex_pair(u[2], u[3]), hex_pair(u[4], u[5])))
    } else {
        None
    }
}

fn hex_digit(c: char) -> (r: Option<u8>)
    ensures
        r is Some <==> is_hex_digit(c),
        r matches Some(d) ==> d == hex_value(c),
{
    let v = c as u32;
    if 0x30 <= v && v <= 0x39 {
        Some((v - 0x30) as u8)
    } else if 0x61 <= v && v <= 0x66 {
        Some((v - 0x61 + 10) as u8)
    } else if 0x41 <= v && v <= 0x46 {
        Some((v - 0x41 + 10) as u8)
    } else {
        None
    }
}

/// Parse a hex color string `"#rrggbb"` (or `"rrggbb"`) to `(r, g, b)`.
/// Returns `None` for any malformed input.
pub fn parse_hex_color(s: &str) -> (r: Option<(u8, u8, u8)>)
    ensures
        r == spec_parse_hex_color(s@),
{
    let chars = chars_of(s);
    let t = trim_chars(&chars);
    let mut body: Vec<char> = Vec::new();
    let mut i: usize = if t.len() > 0 && t[0] == '#' {
        1
    } else {
        0
    };
    let start = i;
    while i < t.len()
        invariant
            start <= i <= t@.len(),
            body@ == t@.subrange(start as int, i as int),
        decreases t.len() - i,
    {
        body.push(t[i]);
        proof {
            assert(t@.subrange(start as int, i + 1) =~= t@.subrange(start as int, i as int).push(
                t@[i as int],
            ));
        }
        i = i + 1;
    }
    let ghost u = hex_body(s@);
    assert(body@ =~= u);
    if body.len() != 6 {
        return None;
    }
    let mut vals: Vec<u8> = Vec::new();
    let mut k: usize = 0;
    while k < 6
        invariant
            k <= 6,
            u == hex_body(s@),
            body@ == u,
            u.len() == 6,
            vals@.len() == k,
            forall|j: int| 0 <= j < k ==> #[trigger] is_hex_digit(u[j]),
            forall|j: int| 0 <= j < k ==> #[trigger] vals@[j] == hex_value(u[j]) && vals@[j] < 16,
        decreases 6 - k,
    {
        let c = body[k];
        assert(c == u[k as int]);
        match hex_digit(c) {
            Some(d) => {
                vals.push(d);
                assert(vals@[k as int] == hex_value(u[k as int]));
            },
            None => {
                assert(!is_hex_digit(u[k as int]));
                assert(!six_hex_digits(u));
                return None;
            },
        }
        k = k + 1;
    }
    assert(six_hex_digits(u));
    Some((16 * vals[0] + vals[1], 16 * vals[2] + vals[3], 16 * vals[4] + vals[5]))
}

/// Color palette for a theme.
#[derive(Debug, Clone)]
pub struct ThemePalette {
    pub background: String,
    pub foreground: String,
    pub cursor: String,
    pub cursor_text: String,
    pub selection_background: String,
    pub selection_foreground: String,
    pub black: String,
    pub red: String,
    pub green: String,
    pub yellow: String,
    pub blue: String,
    pub magenta: String,
    pub cyan: String,
    pub white: String,
    pub bright_black: String,
    pub bright_red: String,
    pub bright_green: String,
    pub bright_yellow: String,
    pub bright_blue: String,
    pub bright_magenta: String,
    pub bright_cyan: String,
    pub bright_white: String,
}

/// `s` parsed as a color, or `fallback` when malformed.
pub open spec fn color_or(s: Seq<char>, fallback: (u8, u8, u8)) -> (u8, u8, u8) {
    match spec_parse_hex_color(s) {
        Some(c) => c,
        None => fallback,
    }
}

impl ThemePalette {
    /// The color string for ANSI palette entry `index` (0-7 normal, 8-15
    /// bright, anything else the foreground).
    pub open spec fn ansi_hex(&self, index: u8) -> Seq<char> {
        if index == 0 {
            self.black@
        } else if index == 1 {
            self.red@
        } else if index == 2 {
            self.green@
        } else if index == 3 {
            self.yellow@
        } else if index == 4 {
            self.blue@
        } else if index == 5 {
            self.magenta@
        } else if index == 6 {
            self.cyan@
        } else if index == 7 {
            self.white@
        } else if index == 8 {
            self.bright_black@
        } else if index == 9 {
            self.bright_red@
        } else if index == 10 {
            self.bright_green@
        } else if index == 11 {
            self.bright_yellow@
        } else if index == 12 {
            self.bright_blue@
        } else if index == 13 {
            self.bright_magenta@
        } else if index == 14 {
            self.bright_cyan@
        } else if index == 15 {
            self.bright_white@
        } else {
            self.foreground@
        }
    }

    pub open spec fn spec_ansi_color(&self, index: u8) -> (u8, u8, u8) {
        color_or(self.ansi_hex(index), (128, 128, 128))
    }

    pub open spec fn spec_bg_rgb(&self) -> (u8, u8, u8) {
        color_or(self.background@, (0, 0, 0))
    }

    pub open spec fn spec_fg_rgb(&self) -> (u8, u8, u8) {
        color_or(self.foreground@, (200, 200, 200))
    }

    pub open spec fn spec_cursor_rgb(&self) -> (u8, u8, u8) {
        color_or(self.cursor@, (200, 200, 200))
    }

    /// Background color as `(r, g, b)`.
    pub fn bg_rgb(&self) -> (c: (u8, u8, u8))
        ensures
            c == self.spec_bg_rgb(),
    {
        match parse_hex_color(&self.background) {
            Some(c) => c,
            None => (0, 0, 0),
        }
    }

    /// Foreground color as `(r, g, b)`.
    pub fn fg_rgb(&self) -> (c: (u8, u8, u8))
        ensures
            c == self.spec_fg_rgb(),
    {
        match parse_hex_color(&self.foreground) {
            Some(c) => c,
            None => (200, 200, 200),
        }
    }

    /// ANSI palette entry 0-15 as `(r, g, b)`. Indices 0-7 are normal, 8-15
    /// are bright.
    pub fn ansi_color(&self, index: u8) -> (c: (u8, u8, u8))
        ensures
            c == self.spec_ansi_color(index),
    {
        let hex: &String = if index == 0 {
            &self.black
        } else if index == 1 {
            &self.red
        } else if index == 2 {
            &self.green
        } else if index == 3 {
            &self.yellow
        } else if index == 4 {
            &self.blue
        } else if index == 5 {
            &self.magenta
        } else if index == 6 {
            &self.cyan
        } else if index == 7 {
            &self.white
        } else if index == 8 {
            &self.bright_black
        } else if index == 9 {
            &self.bright_red
        } else if index == 10 {
            &self.bright_green
        } else if index == 11 {
            &self.bright_yellow
        } else if index == 12 {
            &self.bright_blue
        } else if index == 13 {
            &self.bright_magenta
        } else if index == 14 {
            &self.bright_cyan
        } else if index == 15 {
            &self.bright_white
        } else {
            &self.foreground
        };
        match parse_hex_color(hex) {
            Some(c) => c,
            None => (128, 128, 128),
        }
    }

    /// Cursor color as `(r, g, b)`.
    pub fn cursor_rgb(&self) -> (c: (u8, u8, u8))
        ensures
            c == self.spec_cursor_rgb(),
    {
        match parse_hex_color(&self.cursor) {
            Some(c) => c,
            None => (200, 200, 200),
        }
    }
}

impl Default for ThemePalette {
    /// The Dracula palette.
    fn default() -> (p: Self)
        ensures
            p.background@ == "#282a36"@,
            p.foreground@ == "#f8f8f2"@,
            p.cursor@ == "#f8f8f2"@,
            p.cursor_text@ == "#282a36"@,
            p.selection_background@ == "#44475a"@,
            p.selection_foreground@ == "#f8f8f2"@,
            p.black@ == "#21222c"@,
            p.red@ == "#ff5555"@,
            p.green@ == "#50fa7b"@,
            p.yellow@ == "#f1fa8c"@,
            p.blue@ == "#bd93f9"@,
            p.magenta@ == "#ff79c6"@,
            p.cyan@ == "#8be9fd"@,
            p.white@ == "#f8f8f2"@,
            p.bright_black@ == "#6272a4"@,
            p.bright_red@ == "#ff6e6e"@,
            p.bright_green@ == "#69ff94"@,
            p.bright_yellow@ == "#ffffa5"@,
            p.bright_blue@ == "#d6acff"@,
            p.bright_magenta@ == "#ff92df"@,
            p.bright_cyan@ == "#a4ffff"@,
            p.bright_white@ == "#ffffff"@,
    {
        ThemePalette {
            background: "#282a36".to_string(),
            foreground: "#f8f8f2".to_string(),
            cursor: "#f8f8f2".to_string(),
            cursor_text: "#282a36".to_string(),
            selection_background: "#44475a".to_string(),
            selection_foreground: "#f8f8f2".to_string(),
            black: "#21222c".to_string(),
            red: "#ff5555".to_string(),
            green: "#50fa7b".to_string(),
            yellow: "#f1fa8c".to_string(),
            blue: "#bd93f9".to_string(),
            magenta: "#ff79c6".to_string(),
            cyan: "#8be9fd".to_string(),
            white: "#f8f8f2".to_string(),
            bright_black: "#6272a4".to_string(),
            bright_red: "#ff6e6e".to_string(),
            bright_green: "#69ff94".to_string(),
            bright_yellow: "#ffffa5".to_string(),
            bright_blue: "#d6acff".to_string(),
            bright_magenta: "#ff92df".to_string(),
            bright_cyan: "#a4ffff".to_string(),
            bright_white: "#ffffff".to_string(),
        }
    }
}

} // verus!
