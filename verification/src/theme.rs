//! Color themes: the built-in palettes, `#rrggbb` overrides from the configuration, and
//! the border color that tracks the thinking level.

use vstd::prelude::*;
use crate::config::ThinkingLevel;
use crate::text::{byte_len, chars_of, is_boundary, str_byte_len, str_eq, string_from_chars, sub_chars};

verus! {

/// A terminal color.
#[derive(Debug, Clone, Copy, PartialEq, Eq, Structural)]
pub enum Color {
    Rgb(u8, u8, u8),
}

/// Color theme for the TUI.
#[derive(Debug, Clone, Copy, PartialEq, Eq, Structural)]
pub struct Theme {
    pub fg: Color,
    pub bg: Color,
    pub accent: Color,
    pub error: Color,
    pub warning: Color,
    pub success: Color,
    pub muted: Color,
    pub border: Color,
    pub user_prefix: Color,
    pub tool_name: Color,
    pub code_bg: Color,
    pub header_fg: Color,
    pub selection_bg: Color,
    pub selection_fg: Color,
}

/// Dungeon stone — charcoal, muted bronze, forge ember, moss.
pub open spec fn dungeon() -> Theme {
    Theme {
        bg: Color::Rgb(0x14, 0x12, 0x10),
        fg: Color::Rgb(0xb8, 0xa8, 0x98),
        accent: Color::Rgb(0xc0, 0xa1, 0x70),
        error: Color::Rgb(0xce, 0x5b, 0x47),
        warning: Color::Rgb(0xcb, 0x97, 0x73),
        success: Color::Rgb(0x8a, 0x9a, 0x6b),
        muted: Color::Rgb(0x83, 0x7e, 0x78),
        border: Color::Rgb(0x2a, 0x26, 0x22),
        user_prefix: Color::Rgb(0xc0, 0xa1, 0x70),
        tool_name: Color::Rgb(0xb9, 0x9c, 0x72),
        code_bg: Color::Rgb(0x1a, 0x18, 0x16),
        header_fg: Color::Rgb(0xb8, 0xa8, 0x98),
        selection_bg: Color::Rgb(0x2a, 0x26, 0x22),
        selection_fg: Color::Rgb(0xb8, 0xa8, 0x98),
    }
}

/// Sandstone in daylight.
pub open spec fn sandstone() -> Theme {
    Theme {
        bg: Color::Rgb(0xf5, 0xf0, 0xe8),
        fg: Color::Rgb(0x2a, 0x26, 0x22),
        accent: Color::Rgb(0x8a, 0x70, 0x48),
        error: Color::Rgb(0xa0, 0x38, 0x28),
        warning: Color::Rgb(0x9a, 0x6a, 0x40),
        success: Color::Rgb(0x50, 0x6a, 0x3a),
        muted: Color::Rgb(0x8a, 0x84, 0x7e),
        border: Color::Rgb(0xd0, 0xc8, 0xbc),
        user_prefix: Color::Rgb(0x8a, 0x70, 0x48),
        tool_name: Color::Rgb(0x7a, 0x68, 0x50),
        code_bg: Color::Rgb(0xec, 0xe6, 0xdc),
        header_fg: Color::Rgb(0x2a, 0x26, 0x22),
        selection_bg: Color::Rgb(0xd8, 0xd0, 0xc0),
        selection_fg: Color::Rgb(0x2a, 0x26, 0x22),
    }
}

impl Default for Theme {
    /// Dungeon stone — charcoal, muted bronze, forge ember, moss.
    fn default() -> (t: Self)
        ensures
            t == dungeon(),
    {
        Theme {
            bg: Color::Rgb(0x14, 0x12, 0x10),
            fg: Color::Rgb(0xb8, 0xa8, 0x98),
            accent: Color::Rgb(0xc0, 0xa1, 0x70),
            error: Color::Rgb(0xce, 0x5b, 0x47),
            warning: Color::Rgb(0xcb, 0x97, 0x73),
            success: Color::Rgb(0x8a, 0x9a, 0x6b),
            muted: Color::Rgb(0x83, 0x7e, 0x78),
            border: Color::Rgb(0x2a, 0x26, 0x22),
            user_prefix: Color::Rgb(0xc0, 0xa1, 0x70),
            tool_name: Color::Rgb(0xb9, 0x9c, 0x72),
            code_bg: Color::Rgb(0x1a, 0x18, 0x16),
            header_fg: Color::Rgb(0xb8, 0xa8, 0x98),
            selection_bg: Color::Rgb(0x2a, 0x26, 0x22),
            selection_fg: Color::Rgb(0xb8, 0xa8, 0x98),
        }
    }
}

/// Config-driven theme overrides; only the colors that are set override the base theme.
#[derive(Debug, Clone)]
pub struct ThemeOverrides {
    pub fg: Option<String>,
    pub bg: Option<String>,
    pub accent: Option<String>,
    pub error: Option<String>,
    pub warning: Option<String>,
    pub success: Option<String>,
    pub muted: Option<String>,
    pub border: Option<String>,
    pub user_prefix: Option<String>,
    pub tool_name: Option<String>,
    pub code_bg: Option<String>,
}

impl Default for ThemeOverrides {
    fn default() -> (o: Self)
        ensures
            o.fg is None && o.bg is None && o.accent is None && o.error is None && o.warning is None
                && o.success is None && o.muted is None && o.border is None && o.user_prefix is None
                && o.tool_name is None && o.code_bg is None,
    {
        ThemeOverrides {
            fg: None,
            bg: None,
            accent: None,
            error: None,
            warning: None,
            success: None,
            muted: None,
            border: None,
            user_prefix: None,
            tool_name: None,
            code_bg: None,
        }
    }
}

// ── Hex colors ──────────────────────────────────────────────────

/// The value of a hexadecimal digit, if `c` is one.
pub open spec fn hex_value(c: char) -> Option<u8> {
    if '0' <= c <= '9' {
        Some(((c as u32) - ('0' as u32)) as u8)
    } else if 'a' <= c <= 'f' {
        Some(((c as u32) - ('a' as u32) + 10) as u8)
    } else if 'A' <= c <= 'F' {
        Some(((c as u32) - ('A' as u32) + 10) as u8)
    } else {
        None
    }
}

/// What `u8::from_str_radix(_, 16)` gives for the two characters `a` `b`: an optional
/// `+` and one digit, or two digits.
pub open spec fn hex_pair(a: char, b: char) -> Option<u8> {
    if a == '+' {
        hex_value(b)
    } else if hex_value(a) is Some && hex_value(b) is Some {
        Some((hex_value(a).unwrap() * 16 + hex_value(b).unwrap()) as u8)
    } else {
        None
    }
}

/// The text of a color without its leading `#`.
pub open spec fn strip_hash(s: Seq<char>) -> Seq<char> {
    if s.len() > 0 && s[0] == '#' {
        s.drop_first()
    } else {
        s
    }
}

/// The color that `#rrggbb` (or `rrggbb`) names.
pub open spec fn parse_hex_spec(s: Seq<char>) -> Option<Color> {
    let t = strip_hash(s);
    if byte_len(t) != 6 || t.len() != 6 {
        None
    } else {
        match (hex_pair(t[0], t[1]), hex_pair(t[2], t[3]), hex_pair(t[4], t[5])) {
            (Some(r), Some(g), Some(b)) => Some(Color::Rgb(r, g, b)),
            _ => None,
        }
    }
}

/// Six bytes of color text are cut into pairs at character boundaries.
pub open spec fn hex_cuttable(s: Seq<char>) -> bool {
    let t = strip_hash(s);
    byte_len(t) == 6 ==> is_boundary(t, 2) && is_boundary(t, 4)
}

fn hex_value_exec(c: char) -> (r: Option<u8>)
    ensures
        r == hex_value(c),
{
    if '0' <= c && c <= '9' {
        Some(((c as u32) - ('0' as u32)) as u8)
    } else if 'a' <= c && c <= 'f' {
        Some(((c as u32) - ('a' as u32) + 10) as u8)
    } else if 'A' <= c && c <= 'F' {
        Some(((c as u32) - ('A' as u32) + 10) as u8)
    } else {
        None
    }
}

fn hex_pair_exec(a: char, b: char) -> (r: Option<u8>)
    ensures
        r == hex_pair(a, b),
{
    if a == '+' {
        return hex_value_exec(b);
    }
    match (hex_value_exec(a), hex_value_exec(b)) {
        (Some(x), Some(y)) => Some(x * 16 + y),
        _ => None,
    }
}

/// Parse a `#rrggbb` hex string into a color.
pub fn parse_hex(s: &str) -> (r: Option<Color>)
    requires
        hex_cuttable(s@),
    ensures
        r == parse_hex_spec(s@),
{
    let all = chars_of(s);
    let start: usize = if all.len() > 0 && all[0] == '#' {
        1
    } else {
        0
    };
    let t = sub_chars(&all, start, all.len());
    assert(t@ =~= strip_hash(s@));
    let text = string_from_chars(t.as_slice());
    if str_byte_len(text.as_str()) != 6 || t.len() != 6 {
        return None;
    }
    match (hex_pair_exec(t[0], t[1]), hex_pair_exec(t[2], t[3]), hex_pair_exec(t[4], t[5])) {
        (Some(r), Some(g), Some(b)) => Some(Color::Rgb(r, g, b)),
        _ => None,
    }
}

/// `current`, or the color that `o` names when it is set and valid.
pub open spec fn override_color(current: Color, o: Option<String>) -> Color {
    match o {
        Some(text) => match parse_hex_spec(text@) {
            Some(c) => c,
            None => current,
        },
        None => current,
    }
}

/// Every override that is set can be cut into color pairs.
pub open spec fn overrides_cuttable(o: ThemeOverrides) -> bool {
    &&& o.fg matches Some(t) ==> hex_cuttable(t@)
    &&& o.bg matches Some(t) ==> hex_cuttable(t@)
    &&& o.accent matches Some(t) ==> hex_cuttable(t@)
    &&& o.error matches Some(t) ==> hex_cuttable(t@)
    &&& o.warning matches Some(t) ==> hex_cuttable(t@)
    &&& o.success matches Some(t) ==> hex_cuttable(t@)
    &&& o.muted matches Some(t) ==> hex_cuttable(t@)
    &&& o.border matches Some(t) ==> hex_cuttable(t@)
    &&& o.user_prefix matches Some(t) ==> hex_cuttable(t@)
    &&& o.tool_name matches Some(t) ==> hex_cuttable(t@)
    &&& o.code_bg matches Some(t) ==> hex_cuttable(t@)
}

fn apply_one(current: Color, o: &Option<String>) -> (r: Color)
    requires
        o matches Some(t) ==> hex_cuttable(t@),
    ensures
        r == override_color(current, *o),
{
    match o {
        Some(text) => match parse_hex(text.as_str()) {
            Some(c) => c,
            None => current,
        },
        None => current,
    }
}

/// The border color for a thinking level: it heats up like a forge.
pub open spec fn thinking_border_spec(t: Theme, level: ThinkingLevel) -> Color {
    match level {
        ThinkingLevel::Off => t.border,
        ThinkingLevel::Minimal => Color::Rgb(0x83, 0x7e, 0x78),
        ThinkingLevel::Low => Color::Rgb(0xb9, 0x9c, 0x72),
        ThinkingLevel::Medium => t.accent,
        ThinkingLevel::High => Color::Rgb(0xce, 0x5b, 0x47),
        ThinkingLevel::XHigh => Color::Rgb(0xcb, 0x97, 0x73),
    }
}

impl Theme {
    /// Load a named built-in theme: `light`, or the default for any other name.
    pub fn named(name: &str) -> (t: Self)
        ensures
            t == if name@ == "light"@ {
                sandstone()
            } else {
                dungeon()
            },
    {
        if str_eq(name, "light") {
            Self::light()
        } else {
            Self::default()
        }
    }

    /// Light theme — sandstone in daylight.
    pub fn light() -> (t: Self)
        ensures
            t == sandstone(),
    {
        Theme {
            bg: Color::Rgb(0xf5, 0xf0, 0xe8),
            fg: Color::Rgb(0x2a, 0x26, 0x22),
            accent: Color::Rgb(0x8a, 0x70, 0x48),
            error: Color::Rgb(0xa0, 0x38, 0x28),
            warning: Color::Rgb(0x9a, 0x6a, 0x40),
            success: Color::Rgb(0x50, 0x6a, 0x3a),
            muted: Color::Rgb(0x8a, 0x84, 0x7e),
            border: Color::Rgb(0xd0, 0xc8, 0xbc),
            user_prefix: Color::Rgb(0x8a, 0x70, 0x48),
            tool_name: Color::Rgb(0x7a, 0x68, 0x50),
            code_bg: Color::Rgb(0xec, 0xe6, 0xdc),
            header_fg: Color::Rgb(0x2a, 0x26, 0x22),
            selection_bg: Color::Rgb(0xd8, 0xd0, 0xc0),
            selection_fg: Color::Rgb(0x2a, 0x26, 0x22),
        }
    }

    /// Apply overrides from the configuration: each valid `#rrggbb` replaces its color.
    pub fn apply_overrides(&mut self, overrides: &ThemeOverrides)
        requires
            overrides_cuttable(*overrides),
        ensures
            *final(self) == (Theme {
                fg: override_color(old(self).fg, overrides.fg),
                bg: override_color(old(self).bg, overrides.bg),
                accent: override_color(old(self).accent, overrides.accent),
                error: override_color(old(self).error, overrides.error),
                warning: override_color(old(self).warning, overrides.warning),
                success: override_color(old(self).success, overrides.success),
                muted: override_color(old(self).muted, overrides.muted),
                border: override_color(old(self).border, overrides.border),
                user_prefix: override_color(old(self).user_prefix, overrides.user_prefix),
                tool_name: override_color(old(self).tool_name, overrides.tool_name),
                code_bg: override_color(old(self).code_bg, overrides.code_bg),
                ..*old(self)
            }),
    {
        self.fg = apply_one(self.fg, &overrides.fg);
        self.bg = apply_one(self.bg, &overrides.bg);
        self.accent = apply_one(self.accent, &overrides.accent);
        self.error = apply_one(self.error, &overrides.error);
        self.warning = apply_one(self.warning, &overrides.warning);
        self.success = apply_one(self.success, &overrides.success);
        self.muted = apply_one(self.muted, &overrides.muted);
        self.border = apply_one(self.border, &overrides.border);
        self.user_prefix = apply_one(self.user_prefix, &overrides.user_prefix);
        self.tool_name = apply_one(self.tool_name, &overrides.tool_name);
        self.code_bg = apply_one(self.code_bg, &overrides.code_bg);
    }

    /// Border color progresses like a forge heating up.
    pub fn thinking_border_color(&self, level: ThinkingLevel) -> (c: Color)
        ensures
            c == thinking_border_spec(*self, level),
    {
        match level {
            ThinkingLevel::Off => self.border,
            ThinkingLevel::Minimal => Color::Rgb(0x83, 0x7e, 0x78),
            ThinkingLevel::Low => Color::Rgb(0xb9, 0x9c, 0x72),
            ThinkingLevel::Medium => self.accent,
            ThinkingLevel::High => Color::Rgb(0xce, 0x5b, 0x47),
            ThinkingLevel::XHigh => Color::Rgb(0xcb, 0x97, 0x73),
        }
    }
}

/// Overrides that set nothing leave a theme as it was.
pub proof fn law_empty_overrides_keep_theme(t: Theme, o: ThemeOverrides)
    requires
        o.fg is None && o.bg is None && o.accent is None && o.error is None && o.warning is None
            && o.success is None && o.muted is None && o.border is None && o.user_prefix is None
            && o.tool_name is None && o.code_bg is None,
    ensures
        (Theme {
            fg: override_color(t.fg, o.fg),
            bg: override_color(t.bg, o.bg),
            accent: override_color(t.accent, o.accent),
            error: override_color(t.error, o.error),
            warning: override_color(t.warning, o.warning),
            success: override_color(t.success, o.success),
            muted: override_color(t.muted, o.muted),
            border: override_color(t.border, o.border),
            user_prefix: override_color(t.user_prefix, o.user_prefix),
            tool_name: override_color(t.tool_name, o.tool_name),
            code_bg: override_color(t.code_bg, o.code_bg),
            ..t
        }) == t,
{
}

} // verus!
