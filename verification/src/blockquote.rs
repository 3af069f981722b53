//! Blockquotes: a container with a solid left bar per nesting level and a
//! content background, whose styles come from the theme and overrides.
use vstd::prelude::*;
use crate::color::Color;
use crate::style::{Style, resolved, color_overridden, resolve_style, apply_color_override};
use crate::theme::BlockquoteTheme;

verus! {

/// What the blockquote component reads of its properties.
#[derive(Debug, Clone, Copy, PartialEq, Eq, Structural)]
pub struct BlockquoteProps {
    /// Nesting depth; 1 by default (and at least 1).
    pub depth: Option<u32>,
    /// Bar colour (wins over `bar_style`'s background).
    pub prefix_color: Option<Color>,
    /// Content background (wins over `style`'s background).
    pub bg_color: Option<Color>,
    /// Override of the bar style: `None` keeps the theme, a style patches
    /// it, `Style::reset()` clears it.
    pub bar_style: Option<Style>,
    /// Override of the content style.
    pub style: Option<Style>,
}

impl Default for BlockquoteProps {
    fn default() -> (r: BlockquoteProps)
        ensures
            r == (BlockquoteProps { depth: Some(1), prefix_color: None, bg_color: None, bar_style: None, style: None }),
    {
        BlockquoteProps { depth: Some(1), prefix_color: None, bg_color: None, bar_style: None, style: None }
    }
}

/// A rectangle of terminal cells.
#[derive(Debug, Clone, Copy, PartialEq, Eq, Structural)]
pub struct Rect {
    pub x: u16,
    pub y: u16,
    pub width: u16,
    pub height: u16,
}

/// A blockquote, resolved from its properties and theme.
#[derive(Debug, Clone, Copy, PartialEq, Eq, Structural)]
pub struct Blockquote {
    /// Nesting depth, at least 1.
    pub depth: u32,
    /// The bar: a space with this style's background is a solid bar.
    pub bar_style: Style,
    /// The content background.
    pub bg_style: Style,
}

/// The blockquote of some properties under a theme: the depth defaults to
/// 1 and is at least 1; each style is its theme slot patched with its
/// override, then the legacy colour on the background.
pub open spec fn blockquote_of(props: BlockquoteProps, theme: BlockquoteTheme) -> Blockquote {
    let d = match props.depth {
        Some(d) => d,
        None => 1,
    };
    Blockquote {
        depth: if d >= 1 { d } else { 1 },
        bar_style: color_overridden(resolved(theme.bar_style, props.bar_style), None, props.prefix_color),
        bg_style: color_overridden(resolved(theme.style, props.style), None, props.bg_color),
    }
}

/// The width of the bars and the gap after them: one column per level and
/// one more (the depth counted modulo 2^16, as the layout's `u16` holds it).
pub open spec fn prefix_cols(depth: u32) -> int {
    (depth as u16) + 1
}

impl Blockquote {
    /// Resolves a blockquote from its properties and theme.
    pub fn from_props(props: &BlockquoteProps, theme: BlockquoteTheme) -> (r: Blockquote)
        ensures
            r == blockquote_of(*props, theme),
    {
        let d = match props.depth {
            Some(d) => d,
            None => 1,
        };
        let depth = if d >= 1 { d } else { 1 };
        let bar_style = apply_color_override(resolve_style(theme.bar_style, props.bar_style), None, props.prefix_color);
        let bg_style = apply_color_override(resolve_style(theme.style, props.style), None, props.bg_color);
        Blockquote { depth, bar_style, bg_style }
    }

    /// One column per level for the bars plus one column of gap.
    pub fn prefix_width(&self) -> (r: u16)
        requires
            prefix_cols(self.depth) <= u16::MAX,
        ensures
            r == prefix_cols(self.depth),
    {
        self.depth as u16 + 1
    }

    /// How many bar columns are drawn in `area`: one per level, as far as
    /// the area is wide.
    pub fn bar_columns(&self, area: Rect) -> (r: u16)
        ensures
            r as int == if self.depth <= area.width { self.depth as int } else { area.width as int },
    {
        if self.depth <= area.width as u32 {
            self.depth as u16
        } else {
            area.width
        }
    }

    /// The area left to the content: right of the bars and the gap, as
    /// wide as what remains.
    pub fn content_area(&self, area: Rect) -> (r: Rect)
        requires
            prefix_cols(self.depth) <= u16::MAX,
            area.x + prefix_cols(self.depth) <= u16::MAX,
        ensures
            r.x == area.x + prefix_cols(self.depth),
            r.y == area.y,
            r.width == if area.width >= prefix_cols(self.depth) { area.width - prefix_cols(self.depth) } else { 0 },
            r.height == area.height,
    {
        let p = self.prefix_width();
        Rect { x: area.x + p, y: area.y, width: area.width.saturating_sub(p), height: area.height }
    }
}

} // verus!
