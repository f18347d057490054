//! What the terminal can show: theme colors parsed from configuration text,
//! and the degradation of theme and glyphs to what the terminal supports.

use vstd::prelude::*;
use crate::config::layers::theme_of;
use crate::config::schema::{ascii_lower, hex_char, same_chars, ColorMode, Config};
use crate::tui::theme::{Color, CustomPalette, GlyphMode, Theme};

verus! {

/// The value of a hexadecimal digit.
pub open spec fn hex_digit(c: char) -> int {
    if '0' <= c && c <= '9' {
        c as int - '0' as int
    } else if 'a' <= c && c <= 'f' {
        c as int - 'a' as int + 10
    } else {
        c as int - 'A' as int + 10
    }
}

/// The number that a run of hexadecimal digits writes.
pub open spec fn hex_number(s: Seq<char>) -> int
    decreases s.len(),
{
    if s.len() == 0 {
        0
    } else {
        hex_number(s.drop_last()) * 16 + hex_digit(s.last())
    }
}

/// Every character is a hexadecimal digit.
pub open spec fn all_hex(s: Seq<char>) -> bool {
    forall|i: int| 0 <= i < s.len() ==> hex_char(#[trigger] s[i])
}

/// The digits of an unsigned base-16 number as std reads one: an optional
/// leading `+`, then one or more hexadecimal digits; `None` where it is no such number.
pub open spec fn radix16_digits(s: Seq<char>) -> Option<Seq<char>> {
    if s.len() > 0 && s[0] == '+' {
        if s.len() > 1 && all_hex(s.drop_first()) {
            Some(s.drop_first())
        } else {
            None
        }
    } else if s.len() > 0 && all_hex(s) {
        Some(s)
    } else {
        None
    }
}

/// The number of a `#` color: `#` followed by six characters that read as a base-16 number.
pub open spec fn hex_rgb(s: Seq<char>) -> Option<int> {
    if s.len() == 7 && s[0] == '#' {
        match radix16_digits(s.drop_first()) {
            Some(d) => Some(hex_number(d)),
            None => None,
        }
    } else {
        None
    }
}

/// The 24-bit color of a number: red, green and blue from the high byte down.
pub open spec fn rgb_color(v: int) -> Color {
    Color::Rgb((v / 65536 % 256) as u8, (v / 256 % 256) as u8, (v % 256) as u8)
}

/// The named color of a lowered name; the terminal default for any other name.
pub open spec fn named_color(l: Seq<char>) -> Color {
    if l == "black"@ {
        Color::Black
    } else if l == "red"@ {
        Color::Red
    } else if l == "green"@ {
        Color::Green
    } else if l == "yellow"@ {
        Color::Yellow
    } else if l == "blue"@ {
        Color::Blue
    } else if l == "magenta"@ {
        Color::Magenta
    } else if l == "cyan"@ {
        Color::Cyan
    } else if l == "white"@ {
        Color::White
    } else if l == "gray"@ {
        Color::Gray
    } else if l == "darkgray"@ {
        Color::DarkGray
    } else {
        Color::Reset
    }
}

/// The terminal color a theme entry names: a `#` color first, then a name in any ASCII case.
pub open spec fn color_of_text(s: Seq<char>) -> Color {
    match hex_rgb(s) {
        Some(v) => rgb_color(v),
        None => named_color(ascii_lower(s)),
    }
}

/// The terminal palette of a configured theme.
pub open spec fn palette_of(t: crate::config::schema::Theme) -> CustomPalette {
    CustomPalette {
        surface: color_of_text(t.surface@),
        text: color_of_text(t.text@),
        muted: color_of_text(t.muted@),
        selection: color_of_text(t.selection@),
        fragment: color_of_text(t.fragment@),
        prompt: color_of_text(t.prompt@),
        tag: color_of_text(t.tag@),
        success: color_of_text(t.success@),
        warning: color_of_text(t.warning@),
        error: color_of_text(t.error@),
    }
}

/// The theme falls back to monochrome: color switched off, the monochrome theme chosen
/// (in any ASCII case), `NO_COLOR` set while color is left to detection, or a dumb terminal.
pub open spec fn degrades_to_monochrome(config: Config, no_color: bool, dumb: bool) -> bool {
    ||| config.ui.color == ColorMode::NoColor
    ||| ascii_lower(config.ui.theme@) == "monochrome"@
    ||| (config.ui.color == ColorMode::Auto && no_color)
    ||| dumb
}

/// The theme the interface draws with under a configuration and an environment.
pub open spec fn capable_theme(config: Config, no_color: bool, dumb: bool) -> Theme {
    if degrades_to_monochrome(config, no_color, dumb) {
        Theme::Monochrome
    } else if ascii_lower(config.ui.theme@) == "light"@ {
        Theme::Light
    } else {
        match theme_of(config.themes@, config.ui.theme@) {
            Some(t) => Theme::Custom(palette_of(t)),
            None => Theme::Dark,
        }
    }
}

/// The glyphs the interface draws with: ASCII where configured or on a dumb terminal.
pub open spec fn capable_glyphs(config: Config, dumb: bool) -> GlyphMode {
    if config.ui.glyphs == crate::config::schema::GlyphMode::Ascii || dumb {
        GlyphMode::Ascii
    } else {
        GlyphMode::Unicode
    }
}

fn hex_value(c: char) -> (d: u32)
    requires
        hex_char(c),
    ensures
        d == hex_digit(c),
        d < 16,
{
    if '0' <= c && c <= '9' {
        (c as u32) - ('0' as u32)
    } else if 'a' <= c && c <= 'f' {
        (c as u32) - ('a' as u32) + 10
    } else {
        (c as u32) - ('A' as u32) + 10
    }
}

fn is_hex(c: char) -> (b: bool)
    ensures
        b == hex_char(c),
{
    ('0' <= c && c <= '9') || ('a' <= c && c <= 'f') || ('A' <= c && c <= 'F')
}

spec fn below(n: int) -> int {
    if n <= 0 {
        1
    } else if n == 1 {
        16
    } else if n == 2 {
        256
    } else if n == 3 {
        4096
    } else if n == 4 {
        65536
    } else if n == 5 {
        1048576
    } else {
        16777216
    }
}

pub(crate) fn lowered(cs: &Vec<char>) -> (l: Vec<char>)
    ensures
        l@ == ascii_lower(cs@),
{
    let mut out: Vec<char> = Vec::new();
    let mut i: usize = 0;
    while i < cs.len()
        invariant
            0 <= i <= cs@.len(),
            out@ == ascii_lower(cs@.take(i as int)),
        decreases cs@.len() - i,
    {
        out.push(crate::config::schema::lower_char(cs[i]));
        proof {
            assert(ascii_lower(cs@.take(i + 1)) =~= ascii_lower(cs@.take(i as int)).push(
                if 'A' <= cs@[i as int] && cs@[i as int] <= 'Z' { ((cs@[i as int] as u32) + 32) as char } else { cs@[i as int] },
            ));
        }
        i = i + 1;
    }
    proof {
        assert(cs@.take(cs@.len() as int) =~= cs@);
    }
    out
}

/// Reads the terminal color that a theme entry names (see `color_of_text`).
pub fn parse_color(value: &str) -> (c: Color)
    ensures
        c == color_of_text(value@),
{
    let cs = crate::application::search::chars_of(value);
    if cs.len() == 7 && cs[0] == '#' {
        let start: usize = if cs[1] == '+' { 2 } else { 1 };
        let ghost digits = cs@.subrange(start as int, 7);
        let mut v: u32 = 0;
        let mut all = true;
        let mut i: usize = start;
        while i < 7
            invariant
                cs@ == value@,
                cs@.len() == 7,
                1 <= start <= 2,
                start <= i <= 7,
                all == (forall|k: int| start <= k < i ==> hex_char(#[trigger] cs@[k])),
                all ==> v == hex_number(cs@.subrange(start as int, i as int)),
                v < below(i - start),
            decreases 7 - i,
        {
            let c = cs[i];
            if is_hex(c) {
                if all {
                    let d = hex_value(c);
                    proof {
                        assert(cs@.subrange(start as int, i + 1).drop_last() =~= cs@.subrange(start as int, i as int));
                    }
                    v = v * 16 + d;
                }
            } else {
                all = false;
            }
            i = i + 1;
        }
        proof {
            let tail = cs@.drop_first();
            if start == 2 {
                assert(tail.drop_first() =~= digits);
                assert(all == all_hex(digits)) by {
                    if all_hex(digits) {
                        assert forall|k: int| start <= k < 7 implies hex_char(#[trigger] cs@[k]) by {
                            assert(cs@[k] == digits[k - 2]);
                        }
                    }
                }
            } else {
                assert(tail =~= digits);
                assert(all == all_hex(digits)) by {
                    if all_hex(digits) {
                        assert forall|k: int| start <= k < 7 implies hex_char(#[trigger] cs@[k]) by {
                            assert(cs@[k] == digits[k - 1]);
                        }
                    }
                }
            }
        }
        if all {
            return Color::Rgb((v / 65536 % 256) as u8, (v / 256 % 256) as u8, (v % 256) as u8);
        }
    }
    let l = lowered(&cs);
    if same_chars(&l, "black") {
        Color::Black
    } else if same_chars(&l, "red") {
        Color::Red
    } else if same_chars(&l, "green") {
        Color::Green
    } else if same_chars(&l, "yellow") {
        Color::Yellow
    } else if same_chars(&l, "blue") {
        Color::Blue
    } else if same_chars(&l, "magenta") {
        Color::Magenta
    } else if same_chars(&l, "cyan") {
        Color::Cyan
    } else if same_chars(&l, "white") {
        Color::White
    } else if same_chars(&l, "gray") {
        Color::Gray
    } else if same_chars(&l, "darkgray") {
        Color::DarkGray
    } else {
        Color::Reset
    }
}

proof fn lemma_theme_of_skip(themes: Seq<(String, crate::config::schema::Theme)>, p: int, name: Seq<char>)
    requires
        0 <= p <= themes.len(),
        forall|j: int| 0 <= j < p ==> (#[trigger] themes[j]).0@ != name,
    ensures
        theme_of(themes, name) == theme_of(themes.skip(p), name),
    decreases p,
{
    if p > 0 {
        assert forall|j: int| 0 <= j < p - 1 implies (#[trigger] themes.drop_first()[j]).0@ != name by {
            assert(themes.drop_first()[j] == themes[j + 1]);
        }
        lemma_theme_of_skip(themes.drop_first(), p - 1, name);
        assert(themes.drop_first().skip(p - 1) =~= themes.skip(p));
    } else {
        assert(themes.skip(0) =~= themes);
    }
}

fn find_theme<'a>(themes: &'a Vec<(String, crate::config::schema::Theme)>, name: &str) -> (r: Option<
    &'a crate::config::schema::Theme,
>)
    ensures
        match r {
            Some(t) => theme_of(themes@, name@) == Some(*t),
            None => theme_of(themes@, name@) is None,
        },
{
    let mut p: usize = 0;
    while p < themes.len()
        invariant
            0 <= p <= themes@.len(),
            forall|j: int| 0 <= j < p ==> (#[trigger] themes@[j]).0@ != name@,
        decreases themes@.len() - p,
    {
        let same = match crate::order::text_order(themes[p].0.as_str(), name) {
            crate::order::Precedence::Same => true,
            _ => false,
        };
        if same {
            proof {
                lemma_theme_of_skip(themes@, p as int, name@);
                assert(themes@.skip(p as int)[0] == themes@[p as int]);
            }
            return Some(&themes[p].1);
        }
        p = p + 1;
    }
    proof {
        lemma_theme_of_skip(themes@, p as int, name@);
    }
    None
}

/// The terminal palette of a configured theme (see `palette_of`).
pub fn palette(t: &crate::config::schema::Theme) -> (p: CustomPalette)
    ensures
        p == palette_of(*t),
{
    CustomPalette {
        surface: parse_color(t.surface.as_str()),
        text: parse_color(t.text.as_str()),
        muted: parse_color(t.muted.as_str()),
        selection: parse_color(t.selection.as_str()),
        fragment: parse_color(t.fragment.as_str()),
        prompt: parse_color(t.prompt.as_str()),
        tag: parse_color(t.tag.as_str()),
        success: parse_color(t.success.as_str()),
        warning: parse_color(t.warning.as_str()),
        error: parse_color(t.error.as_str()),
    }
}

/// The theme and glyphs the interface uses, from the configuration and the environment
/// that was probed: whether `NO_COLOR` is set and whether the terminal is dumb.
pub fn terminal_capabilities_from(config: &Config, no_color: bool, dumb: bool) -> (r: (Theme, GlyphMode))
    ensures
        r.0 == capable_theme(*config, no_color, dumb),
        r.1 == capable_glyphs(*config, dumb),
{
    let name_chars = crate::application::search::chars_of(config.ui.theme.as_str());
    let name = lowered(&name_chars);
    let color_off = match config.ui.color {
        ColorMode::NoColor => true,
        _ => false,
    };
    let detecting = match config.ui.color {
        ColorMode::Auto => true,
        _ => false,
    };
    let monochrome = color_off || same_chars(&name, "monochrome") || (detecting && no_color)
        || dumb;
    let theme = if monochrome {
        Theme::Monochrome
    } else if same_chars(&name, "light") {
        Theme::Light
    } else {
        match find_theme(&config.themes, config.ui.theme.as_str()) {
            Some(t) => Theme::Custom(palette(t)),
            None => Theme::Dark,
        }
    };
    let ascii = match config.ui.glyphs {
        crate::config::schema::GlyphMode::Ascii => true,
        _ => false,
    };
    let glyphs = if ascii || dumb {
        GlyphMode::Ascii
    } else {
        GlyphMode::Unicode
    };
    (theme, glyphs)
}

} // verus!
