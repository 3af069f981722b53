//! The semantic colour palette of ratatui-kit and the component theme
//! slots derived from it.
use vstd::prelude::*;
use crate::color::Color;
use crate::style::{Style, BOLD, UNDERLINED, empty_style, resolved, color_overridden, or_else};

verus! {

/// A semantic colour palette, with the fields of ratatui-kit's `Palette`.
#[derive(Debug, Clone, Copy, PartialEq, Eq, Structural)]
pub struct Palette {
    /// Main foreground (body text).
    pub fg: Color,
    /// Dimmed foreground (secondary text).
    pub fg_dim: Color,
    /// Main background.
    pub bg: Color,
    /// Panel / container surface.
    pub surface: Color,
    /// Overlay (modal backdrop).
    pub overlay: Color,
    /// Accent (highlights, active borders).
    pub accent: Color,
    /// Foreground on top of `accent` and `selection`.
    pub on_accent: Color,
    /// Selected item background.
    pub selection: Color,
    /// Normal border.
    pub border: Color,
    /// Active / focused border.
    pub border_active: Color,
    pub success: Color,
    pub warning: Color,
    pub error: Color,
    pub info: Color,
    /// Placeholder / hint text.
    pub placeholder: Color,
}

/// ratatui-kit's default palette: foreground and backgrounds follow the
/// terminal, accents are cyan, borders dark gray, and the semantic colours
/// green / yellow / red / blue.
pub open spec fn default_palette() -> Palette {
    Palette {
        fg: Color::Reset,
        fg_dim: Color::DarkGray,
        bg: Color::Reset,
        surface: Color::Reset,
        overlay: Color::Reset,
        accent: Color::Cyan,
        on_accent: Color::Black,
        selection: Color::Cyan,
        border: Color::DarkGray,
        border_active: Color::Cyan,
        success: Color::Green,
        warning: Color::Yellow,
        error: Color::Red,
        info: Color::Blue,
        placeholder: Color::DarkGray,
    }
}

impl Default for Palette {
    fn default() -> (r: Palette)
        ensures
            r == default_palette(),
    {
        Palette {
            fg: Color::Reset,
            fg_dim: Color::DarkGray,
            bg: Color::Reset,
            surface: Color::Reset,
            overlay: Color::Reset,
            accent: Color::Cyan,
            on_accent: Color::Black,
            selection: Color::Cyan,
            border: Color::DarkGray,
            border_active: Color::Cyan,
            success: Color::Green,
            warning: Color::Yellow,
            error: Color::Red,
            info: Color::Blue,
            placeholder: Color::DarkGray,
        }
    }
}

/// The style with only a foreground.
pub open spec fn fg_style(c: Color) -> Style {
    Style { fg: Some(c), ..empty_style() }
}

/// The style with only a background.
pub open spec fn bg_style(c: Color) -> Style {
    Style { bg: Some(c), ..empty_style() }
}

/// The style with a foreground and a background.
pub open spec fn fg_bg_style(f: Color, b: Color) -> Style {
    Style { fg: Some(f), bg: Some(b), ..empty_style() }
}

/// The style with a foreground and added modifiers.
pub open spec fn fg_mod_style(f: Color, m: u16) -> Style {
    Style { fg: Some(f), add_modifier: m, ..empty_style() }
}

/// Markdown document theme slots.
#[derive(Debug, Clone, Copy, PartialEq, Eq, Structural)]
pub struct MarkdownTheme {
    /// Prefix markers of headings (`#`, `##`, ...).
    pub heading_marker_style: Style,
    /// Heading text.
    pub heading_style: Style,
    /// Bullet / ordered-list marker.
    pub list_marker_style: Style,
    /// Inline code.
    pub inline_code_style: Style,
    /// Link text.
    pub link_style: Style,
    /// Appended link destination.
    pub link_url_style: Style,
    /// Table border / grid.
    pub table_border_style: Style,
    /// Horizontal rule.
    pub rule_style: Style,
}

pub open spec fn markdown_theme_of(p: Palette) -> MarkdownTheme {
    MarkdownTheme {
        heading_marker_style: fg_style(p.fg_dim),
        heading_style: fg_mod_style(p.warning, BOLD),
        list_marker_style: fg_style(p.fg_dim),
        inline_code_style: fg_bg_style(p.info, p.surface),
        link_style: fg_mod_style(p.info, UNDERLINED),
        link_url_style: fg_style(p.fg_dim),
        table_border_style: fg_style(p.border),
        rule_style: fg_style(p.border),
    }
}

impl MarkdownTheme {
    /// Headings in the warning colour, bold, with dimmed markers; inline code
    /// in the info colour on the surface; links in the info colour,
    /// underlined, with dimmed destinations; tables and rules in the border
    /// colour.
    pub fn from_palette(palette: &Palette) -> (r: MarkdownTheme)
        ensures
            r == markdown_theme_of(*palette),
    {
        proof {
            assert(0u16 | 1u16 == 1u16 && 0u16 & !1u16 == 0u16) by (bit_vector);
            assert(0u16 | 8u16 == 8u16 && 0u16 & !8u16 == 0u16) by (bit_vector);
        }
        MarkdownTheme {
            heading_marker_style: Style::new().fg(palette.fg_dim),
            heading_style: Style::new().fg(palette.warning).add_modifier(BOLD),
            list_marker_style: Style::new().fg(palette.fg_dim),
            inline_code_style: Style::new().fg(palette.info).bg(palette.surface),
            link_style: Style::new().fg(palette.info).add_modifier(UNDERLINED),
            link_url_style: Style::new().fg(palette.fg_dim),
            table_border_style: Style::new().fg(palette.border),
            rule_style: Style::new().fg(palette.border),
        }
    }
}

impl Default for MarkdownTheme {
    fn default() -> (r: MarkdownTheme)
        ensures
            r == markdown_theme_of(default_palette()),
    {
        MarkdownTheme::from_palette(&Palette::default())
    }
}

/// Standalone code block theme slots.
#[derive(Debug, Clone, Copy, PartialEq, Eq, Structural)]
pub struct CodeBlockTheme {
    /// Line numbers.
    pub line_number_style: Style,
    /// Code text when there is no syntax highlighting.
    pub code_style: Style,
    /// Outer border.
    pub border_style: Style,
    /// Language label.
    pub language_label_style: Style,
}

pub open spec fn code_block_theme_of(p: Palette) -> CodeBlockTheme {
    CodeBlockTheme {
        line_number_style: fg_style(p.fg_dim),
        code_style: fg_style(p.fg),
        border_style: fg_style(p.border),
        language_label_style: fg_style(p.info),
    }
}

impl CodeBlockTheme {
    /// Dimmed line numbers, code in the main foreground, the border in the
    /// border colour, the label in the info colour.
    pub fn from_palette(palette: &Palette) -> (r: CodeBlockTheme)
        ensures
            r == code_block_theme_of(*palette),
    {
        CodeBlockTheme {
            line_number_style: Style::new().fg(palette.fg_dim),
            code_style: Style::new().fg(palette.fg),
            border_style: Style::new().fg(palette.border),
            language_label_style: Style::new().fg(palette.info),
        }
    }
}

impl Default for CodeBlockTheme {
    fn default() -> (r: CodeBlockTheme)
        ensures
            r == code_block_theme_of(default_palette()),
    {
        CodeBlockTheme::from_palette(&Palette::default())
    }
}

/// Blockquote theme slots.
#[derive(Debug, Clone, Copy, PartialEq, Eq, Structural)]
pub struct BlockquoteTheme {
    /// The solid left bar.
    pub bar_style: Style,
    /// The content area.
    pub style: Style,
}

pub open spec fn blockquote_theme_of(p: Palette) -> BlockquoteTheme {
    BlockquoteTheme { bar_style: bg_style(p.border_active), style: fg_bg_style(p.fg, p.surface) }
}

impl BlockquoteTheme {
    /// The bar filled with the active border colour; content in the main
    /// foreground on the surface.
    pub fn from_palette(palette: &Palette) -> (r: BlockquoteTheme)
        ensures
            r == blockquote_theme_of(*palette),
    {
        BlockquoteTheme {
            bar_style: Style::new().bg(palette.border_active),
            style: Style::new().fg(palette.fg).bg(palette.surface),
        }
    }
}

impl Default for BlockquoteTheme {
    fn default() -> (r: BlockquoteTheme)
        ensures
            r == blockquote_theme_of(default_palette()),
    {
        BlockquoteTheme::from_palette(&Palette::default())
    }
}

/// Divider theme slots.
#[derive(Debug, Clone, Copy, PartialEq, Eq, Structural)]
pub struct DividerTheme {
    /// The rule line.
    pub style: Style,
}

pub open spec fn divider_theme_of(p: Palette) -> DividerTheme {
    DividerTheme { style: fg_style(p.border) }
}

impl DividerTheme {
    /// The rule in the border colour.
    pub fn from_palette(palette: &Palette) -> (r: DividerTheme)
        ensures
            r == divider_theme_of(*palette),
    {
        DividerTheme { style: Style::new().fg(palette.border) }
    }
}

impl Default for DividerTheme {
    fn default() -> (r: DividerTheme)
        ensures
            r == divider_theme_of(default_palette()),
    {
        DividerTheme::from_palette(&Palette::default())
    }
}

/// Diff renderer theme slots.
#[derive(Debug, Clone, Copy, PartialEq, Eq, Structural)]
pub struct DiffTheme {
    /// Added lines and words.
    pub add_style: Style,
    /// Removed lines and words.
    pub remove_style: Style,
    /// Unchanged content.
    pub unchanged_style: Style,
    /// The line number gutter.
    pub line_number_style: Style,
}

pub open spec fn diff_theme_of(p: Palette) -> DiffTheme {
    DiffTheme {
        add_style: fg_bg_style(p.success, p.surface),
        remove_style: fg_bg_style(p.error, p.surface),
        unchanged_style: fg_style(p.fg),
        line_number_style: fg_style(p.fg_dim),
    }
}

impl DiffTheme {
    /// Additions in the success colour and removals in the error colour,
    /// both on the surface; unchanged text in the main foreground; a dimmed
    /// gutter.
    pub fn from_palette(palette: &Palette) -> (r: DiffTheme)
        ensures
            r == diff_theme_of(*palette),
    {
        DiffTheme {
            add_style: Style::new().fg(palette.success).bg(palette.surface),
            remove_style: Style::new().fg(palette.error).bg(palette.surface),
            unchanged_style: Style::new().fg(palette.fg),
            line_number_style: Style::new().fg(palette.fg_dim),
        }
    }
}

impl Default for DiffTheme {
    fn default() -> (r: DiffTheme)
        ensures
            r == diff_theme_of(default_palette()),
    {
        DiffTheme::from_palette(&Palette::default())
    }
}

/// A legacy colour override wins on the channel it controls, while the rest
/// of the style override survives: after resolving a slot against a style
/// override and then applying per-channel colours, each channel with a
/// colour holds that colour and every other part of the style is what the
/// style override made of the slot.
pub proof fn law_legacy_color_wins_on_its_channel(
    theme: Style,
    override_style: Option<Style>,
    fg: Option<Color>,
    bg: Option<Color>,
)
    ensures
        ({
            let base = resolved(theme, override_style);
            let r = color_overridden(base, fg, bg);
            &&& r.fg == or_else(fg, base.fg)
            &&& r.bg == or_else(bg, base.bg)
            &&& r.underline_color == base.underline_color
            &&& r.add_modifier == base.add_modifier
            &&& r.sub_modifier == base.sub_modifier
        }),
{
}

} // verus!
