//! Text styles with ratatui's `Style` semantics: optional colours and two
//! sets of modifier bits (to add, to remove), combined by `patch`; and the
//! rules the components use to resolve a theme slot against overrides.
use vstd::prelude::*;
use crate::color::Color;

verus! {

/// Modifier bits, with the values of ratatui's `Modifier`.
pub const BOLD: u16 = 0b0000_0000_0001;
pub const DIM: u16 = 0b0000_0000_0010;
pub const ITALIC: u16 = 0b0000_0000_0100;
pub const UNDERLINED: u16 = 0b0000_0000_1000;
pub const SLOW_BLINK: u16 = 0b0000_0001_0000;
pub const RAPID_BLINK: u16 = 0b0000_0010_0000;
pub const REVERSED: u16 = 0b0000_0100_0000;
pub const HIDDEN: u16 = 0b0000_1000_0000;
pub const CROSSED_OUT: u16 = 0b0001_0000_0000;
/// Every modifier.
pub const ALL_MODIFIERS: u16 = 0b0001_1111_1111;

/// A text style: colours that are either set or left to what lies below,
/// and the modifiers to add and to remove.
#[derive(Debug, Clone, Copy, PartialEq, Eq, Structural)]
pub struct Style {
    pub fg: Option<Color>,
    pub bg: Option<Color>,
    pub underline_color: Option<Color>,
    pub add_modifier: u16,
    pub sub_modifier: u16,
}

/// The style that changes nothing.
pub open spec fn empty_style() -> Style {
    Style { fg: None, bg: None, underline_color: None, add_modifier: 0, sub_modifier: 0 }
}

/// The style that resets everything: every colour to `Reset`, every
/// modifier removed.
pub open spec fn reset_style() -> Style {
    Style {
        fg: Some(Color::Reset),
        bg: Some(Color::Reset),
        underline_color: Some(Color::Reset),
        add_modifier: 0,
        sub_modifier: ALL_MODIFIERS,
    }
}

pub open spec fn or_else(a: Option<Color>, b: Option<Color>) -> Option<Color> {
    match a {
        Some(c) => Some(c),
        None => b,
    }
}

/// `base` with `other` laid over it: each colour that `other` sets wins;
/// `other`'s removed modifiers are dropped from the added ones and its added
/// modifiers from the removed ones, then its own are added.
pub open spec fn patched(base: Style, other: Style) -> Style {
    Style {
        fg: or_else(other.fg, base.fg),
        bg: or_else(other.bg, base.bg),
        underline_color: or_else(other.underline_color, base.underline_color),
        add_modifier: (base.add_modifier & !other.sub_modifier) | other.add_modifier,
        sub_modifier: (base.sub_modifier & !other.add_modifier) | other.sub_modifier,
    }
}

impl Style {
    /// The style that changes nothing.
    pub fn new() -> (r: Style)
        ensures
            r == empty_style(),
    {
        Style { fg: None, bg: None, underline_color: None, add_modifier: 0, sub_modifier: 0 }
    }

    /// The style that resets every colour and removes every modifier.
    pub fn reset() -> (r: Style)
        ensures
            r == reset_style(),
    {
        Style {
            fg: Some(Color::Reset),
            bg: Some(Color::Reset),
            underline_color: Some(Color::Reset),
            add_modifier: 0,
            sub_modifier: ALL_MODIFIERS,
        }
    }

    /// This style with its foreground set.
    pub fn fg(self, color: Color) -> (r: Style)
        ensures
            r == (Style { fg: Some(color), ..self }),
    {
        Style { fg: Some(color), ..self }
    }

    /// This style with its background set.
    pub fn bg(self, color: Color) -> (r: Style)
        ensures
            r == (Style { bg: Some(color), ..self }),
    {
        Style { bg: Some(color), ..self }
    }

    /// This style with the modifiers `m` added (and no longer removed).
    pub fn add_modifier(self, m: u16) -> (r: Style)
        ensures
            r == (Style {
                add_modifier: self.add_modifier | m,
                sub_modifier: self.sub_modifier & !m,
                ..self
            }),
    {
        Style { add_modifier: self.add_modifier | m, sub_modifier: self.sub_modifier & !m, ..self }
    }

    /// This style with the modifiers `m` removed (and no longer added).
    pub fn remove_modifier(self, m: u16) -> (r: Style)
        ensures
            r == (Style {
                add_modifier: self.add_modifier & !m,
                sub_modifier: self.sub_modifier | m,
                ..self
            }),
    {
        Style { add_modifier: self.add_modifier & !m, sub_modifier: self.sub_modifier | m, ..self }
    }

    /// `other` laid over this style (ratatui's `Style::patch`).
    pub fn patch(self, other: Style) -> (r: Style)
        ensures
            r == patched(self, other),
    {
        Style {
            fg: match other.fg {
                Some(c) => Some(c),
                None => self.fg,
            },
            bg: match other.bg {
                Some(c) => Some(c),
                None => self.bg,
            },
            underline_color: match other.underline_color {
                Some(c) => Some(c),
                None => self.underline_color,
            },
            add_modifier: (self.add_modifier & !other.sub_modifier) | other.add_modifier,
            sub_modifier: (self.sub_modifier & !other.add_modifier) | other.sub_modifier,
        }
    }
}

impl Default for Style {
    fn default() -> (r: Style)
        ensures
            r == empty_style(),
    {
        Style::new()
    }
}

/// A theme slot with an optional override laid over it: no override keeps
/// the slot, a style patches it, `Style::reset()` clears it.
pub open spec fn resolved(theme: Style, override_style: Option<Style>) -> Style {
    match override_style {
        Some(o) => patched(theme, o),
        None => patched(theme, empty_style()),
    }
}

/// A style with a legacy per-channel colour override on each channel that
/// has one.
pub open spec fn color_overridden(style: Style, fg: Option<Color>, bg: Option<Color>) -> Style {
    let s = match fg {
        Some(c) => Style { fg: Some(c), ..style },
        None => style,
    };
    match bg {
        Some(c) => Style { bg: Some(c), ..s },
        None => s,
    }
}

/// `theme` patched with the override, or with the empty style when there
/// is none.
pub fn resolve_style(theme: Style, override_style: Option<Style>) -> (r: Style)
    ensures
        r == resolved(theme, override_style),
{
    let o = match override_style {
        Some(o) => o,
        None => Style::default(),
    };
    theme.patch(o)
}

/// Legacy per-channel `Option<Color>` overrides applied on top of an
/// already resolved style: a given colour replaces that channel.
pub fn apply_color_override(style: Style, fg: Option<Color>, bg: Option<Color>) -> (r: Style)
    ensures
        r == color_overridden(style, fg, bg),
{
    let style = match fg {
        Some(color) => style.fg(color),
        None => style,
    };
    match bg {
        Some(color) => style.bg(color),
        None => style,
    }
}

/// Patching with the empty style changes nothing, so a missing override
/// keeps the theme slot as it is.
pub proof fn law_no_override_keeps_theme(theme: Style)
    ensures
        resolved(theme, None) == theme,
{
    let a = theme.add_modifier;
    let s = theme.sub_modifier;
    assert((a & !0u16) | 0u16 == a) by (bit_vector);
    assert((s & !0u16) | 0u16 == s) by (bit_vector);
}

/// Both modifier sets hold only defined modifiers, as every ratatui
/// `Modifier` built from its named flags does.
pub open spec fn modifiers_valid(s: Style) -> bool {
    &&& s.add_modifier & !ALL_MODIFIERS == 0
    &&& s.sub_modifier & !ALL_MODIFIERS == 0
}

/// An override of `Style::reset()` clears the theme slot: whatever the
/// slot held, the result is the reset style.
pub proof fn law_reset_override_clears_theme(theme: Style)
    requires
        modifiers_valid(theme),
    ensures
        resolved(theme, Some(reset_style())) == reset_style(),
{
    let a = theme.add_modifier;
    let s = theme.sub_modifier;
    assert((a & !0x1ffu16) | 0u16 == 0u16) by (bit_vector)
        requires
            a & !0x1ffu16 == 0u16,
    ;
    assert((s & !0u16) | 0x1ffu16 == 0x1ffu16) by (bit_vector)
        requires
            s & !0x1ffu16 == 0u16,
    ;
}

} // verus!
