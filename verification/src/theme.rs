//! Color themes: a palette of named hex colors and the interface roles that
//! use them.
use vstd::prelude::*;

use crate::storage::str_eq;
use crate::text::{self, chars_of};

verus! {

/// A terminal color: the terminal's own, or an RGB value.
#[derive(Debug, Clone, Copy, PartialEq, Eq, Structural)]
pub enum Color {
    Reset,
    Rgb(u8, u8, u8),
}

/// The color of each interface role.
#[derive(Debug, Clone, Copy, PartialEq, Eq, Structural)]
pub struct Theme {
    pub text: Color,
    pub text_dim: Color,
    pub text_muted: Color,
    pub author: Color,
    pub highlight: Color,
    pub link: Color,
    pub date: Color,
    pub border: Color,
    pub selection: Color,
    pub popup_bg: Color,
    pub popup_border: Color,
    pub normal_bg: Color,
    pub insert_bg: Color,
    pub status_fg: Color,
}

impl Theme {
    /// The terminal's own colors throughout.
    pub fn terminal() -> (t: Theme)
        ensures
            t == Theme::terminal_spec(),
    {
        Theme {
            text: Color::Reset,
            text_dim: Color::Reset,
            text_muted: Color::Reset,
            author: Color::Reset,
            highlight: Color::Reset,
            link: Color::Reset,
            date: Color::Reset,
            border: Color::Reset,
            selection: Color::Reset,
            popup_bg: Color::Reset,
            popup_border: Color::Reset,
            normal_bg: Color::Reset,
            insert_bg: Color::Reset,
            status_fg: Color::Reset,
        }
    }
}

/// The palette entry named for each role, where one is.
#[derive(Debug, Clone)]
pub struct UiConfig {
    pub text: Option<String>,
    pub text_dim: Option<String>,
    pub text_muted: Option<String>,
    pub author: Option<String>,
    pub highlight: Option<String>,
    pub link: Option<String>,
    pub date: Option<String>,
    pub border: Option<String>,
    pub selection: Option<String>,
    pub popup_bg: Option<String>,
    pub popup_border: Option<String>,
    pub normal_bg: Option<String>,
    pub insert_bg: Option<String>,
    pub status_fg: Option<String>,
}

/// A theme file: named colors (`#rrggbb`) and the roles that use them.
#[derive(Debug, Clone)]
pub struct ThemeConfig {
    pub colors: Vec<(String, String)>,
    pub ui: Option<UiConfig>,
}

/// The value of a hexadecimal digit.
pub open spec fn hex_value(c: char) -> Option<nat> {
    if '0' <= c && c <= '9' {
        Some((c as nat - 48) as nat)
    } else if 'a' <= c && c <= 'f' {
        Some((c as nat - 87) as nat)
    } else if 'A' <= c && c <= 'F' {
        Some((c as nat - 55) as nat)
    } else {
        None
    }
}

/// A byte written as two characters the way `u8::from_str_radix(_, 16)`
/// reads them: two hex digits, or `+` and one.
pub open spec fn hex_byte(c0: char, c1: char) -> Option<u8> {
    if hex_value(c0) is Some && hex_value(c1) is Some {
        Some((hex_value(c0)->0 * 16 + hex_value(c1)->0) as u8)
    } else if c0 == '+' && hex_value(c1) is Some {
        Some(hex_value(c1)->0 as u8)
    } else {
        None
    }
}

/// An RGB color written `#rrggbb`.
pub open spec fn hex_color(s: Seq<char>) -> Option<Color> {
    if s.len() == 7 && s[0] == '#' && hex_byte(s[1], s[2]) is Some && hex_byte(s[3], s[4]) is Some
        && hex_byte(s[5], s[6]) is Some {
        Some(Color::Rgb(hex_byte(s[1], s[2])->0, hex_byte(s[3], s[4])->0, hex_byte(s[5], s[6])->0))
    } else {
        None
    }
}

fn hex_digit(c: char) -> (v: Option<u8>)
    ensures
        match v {
            Some(x) => hex_value(c) == Some(x as nat),
            None => hex_value(c) is None,
        },
{
    if '0' <= c && c <= '9' {
        Some(((c as u32) - 48) as u8)
    } else if 'a' <= c && c <= 'f' {
        Some(((c as u32) - 87) as u8)
    } else if 'A' <= c && c <= 'F' {
        Some(((c as u32) - 55) as u8)
    } else {
        None
    }
}

fn byte_of(c0: char, c1: char) -> (b: Option<u8>)
    ensures
        b == hex_byte(c0, c1),
{
    match (hex_digit(c0), hex_digit(c1)) {
        (Some(a), Some(b)) => Some(a * 16 + b),
        (None, Some(b)) => if c0 == '+' {
            Some(b)
        } else {
            None
        },
        _ => None,
    }
}

/// Reads a `#rrggbb` color.
pub fn parse_hex(s: &str) -> (c: Option<Color>)
    ensures
        c == hex_color(s@),
{
    let v = chars_of(s);
    if v.len() != 7 || v[0] != '#' {
        return None;
    }
    match (byte_of(v[1], v[2]), byte_of(v[3], v[4]), byte_of(v[5], v[6])) {
        (Some(r), Some(g), Some(b)) => Some(Color::Rgb(r, g, b)),
        _ => None,
    }
}

/// The color of the palette entry `name` (the first with that name).
pub open spec fn palette_color(palette: Seq<(String, String)>, name: Seq<char>) -> Option<Color>
    decreases palette.len(),
{
    if palette.len() == 0 {
        None
    } else if palette[0].0@ == name {
        hex_color(palette[0].1@)
    } else {
        palette_color(palette.drop_first(), name)
    }
}

fn resolve_color(name: &str, palette: &Vec<(String, String)>) -> (c: Option<Color>)
    ensures
        c == palette_color(palette@, name@),
{
    let mut i: usize = 0;
    assert(palette@.skip(0) =~= palette@);
    while i < palette.len()
        invariant
            i <= palette@.len(),
            palette_color(palette@, name@) == palette_color(palette@.skip(i as int), name@),
        decreases palette@.len() - i,
    {
        assert(palette@.skip(i as int)[0] == palette@[i as int]);
        assert(palette@.skip(i as int).drop_first() =~= palette@.skip(i + 1));
        if str_eq(palette[i].0.as_str(), name) {
            return parse_hex(palette[i].1.as_str());
        }
        i += 1;
    }
    None
}

/// A role's color: the palette color it names, else the base color.
pub open spec fn role_color(field: Option<String>, palette: Seq<(String, String)>, base: Color) -> Color {
    match field {
        Some(name) => match palette_color(palette, name@) {
            Some(c) => c,
            None => base,
        },
        None => base,
    }
}

fn role(field: &Option<String>, palette: &Vec<(String, String)>, base: Color) -> (c: Color)
    ensures
        c == role_color(*field, palette@, base),
{
    match field {
        Some(name) => match resolve_color(name.as_str(), palette) {
            Some(c) => c,
            None => base,
        },
        None => base,
    }
}

/// The theme a theme file describes over `base`: each role the `ui` table
/// names a valid palette color for takes it; the others keep the base.
pub open spec fn resolved(c: ThemeConfig, base: Theme) -> Theme {
    match c.ui {
        None => base,
        Some(u) => Theme {
            text: role_color(u.text, c.colors@, base.text),
            text_dim: role_color(u.text_dim, c.colors@, base.text_dim),
            text_muted: role_color(u.text_muted, c.colors@, base.text_muted),
            author: role_color(u.author, c.colors@, base.author),
            highlight: role_color(u.highlight, c.colors@, base.highlight),
            link: role_color(u.link, c.colors@, base.link),
            date: role_color(u.date, c.colors@, base.date),
            border: role_color(u.border, c.colors@, base.border),
            selection: role_color(u.selection, c.colors@, base.selection),
            popup_bg: role_color(u.popup_bg, c.colors@, base.popup_bg),
            popup_border: role_color(u.popup_border, c.colors@, base.popup_border),
            normal_bg: role_color(u.normal_bg, c.colors@, base.normal_bg),
            insert_bg: role_color(u.insert_bg, c.colors@, base.insert_bg),
            status_fg: role_color(u.status_fg, c.colors@, base.status_fg),
        },
    }
}

impl ThemeConfig {
    /// The theme this file describes over `base`.
    pub fn resolve(&self, base: &Theme) -> (t: Theme)
        ensures
            t == resolved(*self, *base),
    {
        match &self.ui {
            None => *base,
            Some(u) => {
                let p = &self.colors;
                Theme {
                    text: role(&u.text, p, base.text),
                    text_dim: role(&u.text_dim, p, base.text_dim),
                    text_muted: role(&u.text_muted, p, base.text_muted),
                    author: role(&u.author, p, base.author),
                    highlight: role(&u.highlight, p, base.highlight),
                    link: role(&u.link, p, base.link),
                    date: role(&u.date, p, base.date),
                    border: role(&u.border, p, base.border),
                    selection: role(&u.selection, p, base.selection),
                    popup_bg: role(&u.popup_bg, p, base.popup_bg),
                    popup_border: role(&u.popup_border, p, base.popup_border),
                    normal_bg: role(&u.normal_bg, p, base.normal_bg),
                    insert_bg: role(&u.insert_bg, p, base.insert_bg),
                    status_fg: role(&u.status_fg, p, base.status_fg),
                }
            },
        }
    }
}

/// The theme in use: the configured theme's file (when it was read and
/// parsed) over the terminal's colors, or the terminal's colors.
pub fn load_theme(config: Option<ThemeConfig>) -> (t: Theme)
    ensures
        match config {
            None => t == Theme::terminal_spec(),
            Some(c) => t == resolved(c, Theme::terminal_spec()),
        },
{
    let base = Theme::terminal();
    match config {
        None => base,
        Some(c) => c.resolve(&base),
    }
}

impl Theme {
    pub open spec fn terminal_spec() -> Theme {
        Theme {
            text: Color::Reset,
            text_dim: Color::Reset,
            text_muted: Color::Reset,
            author: Color::Reset,
            highlight: Color::Reset,
            link: Color::Reset,
            date: Color::Reset,
            border: Color::Reset,
            selection: Color::Reset,
            popup_bg: Color::Reset,
            popup_border: Color::Reset,
            normal_bg: Color::Reset,
            insert_bg: Color::Reset,
            status_fg: Color::Reset,
        }
    }
}

} // verus!
