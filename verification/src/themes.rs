//! Conversion of a `ratatui-themes` palette into a ratatui-kit palette, and
//! the variant of a palette that lets the terminal's own background show.
use vstd::prelude::*;
use crate::color::Color;
use crate::theme::Palette;

verus! {

/// A theme palette with the fields of `ratatui_themes::ThemePalette`.
#[derive(Debug, Clone, Copy, PartialEq, Eq, Structural)]
pub struct ThemePalette {
    pub accent: Color,
    pub secondary: Color,
    pub bg: Color,
    pub fg: Color,
    pub muted: Color,
    pub selection: Color,
    pub error: Color,
    pub warning: Color,
    pub success: Color,
    pub info: Color,
}

/// The kit palette of a theme palette, given the foreground chosen to be
/// readable on both its accent and its selection colours: the theme's
/// background serves as background, surface and overlay; its muted colour
/// as dimmed foreground, border and placeholder; its accent as accent and
/// active border.
pub open spec fn kit_palette_of(source: ThemePalette, on_accent: Color) -> Palette {
    Palette {
        fg: source.fg,
        fg_dim: source.muted,
        bg: source.bg,
        surface: source.bg,
        overlay: source.bg,
        accent: source.accent,
        on_accent: on_accent,
        selection: source.selection,
        border: source.muted,
        border_active: source.accent,
        success: source.success,
        warning: source.warning,
        error: source.error,
        info: source.info,
        placeholder: source.muted,
    }
}

/// Converts a theme palette into a kit palette; `on_accent` is the
/// foreground to draw on the accent and selection colours.
pub fn palette_from_theme_palette(source: ThemePalette, on_accent: Color) -> (r: Palette)
    ensures
        r == kit_palette_of(source, on_accent),
{
    let mut palette = Palette::default();
    palette.fg = source.fg;
    palette.fg_dim = source.muted;
    palette.bg = source.bg;
    palette.surface = source.bg;
    palette.overlay = source.bg;
    palette.accent = source.accent;
    palette.on_accent = on_accent;
    palette.selection = source.selection;
    palette.border = source.muted;
    palette.border_active = source.accent;
    palette.success = source.success;
    palette.warning = source.warning;
    palette.error = source.error;
    palette.info = source.info;
    palette.placeholder = source.muted;
    palette
}

/// The palette with its background layers (`bg`, `surface`, `overlay`) reset
/// so that the terminal's background shows; every other colour is kept.
pub fn terminal_background(palette: Palette) -> (r: Palette)
    ensures
        r == (Palette { bg: Color::Reset, surface: Color::Reset, overlay: Color::Reset, ..palette }),
{
    let mut palette = palette;
    palette.bg = Color::Reset;
    palette.surface = Color::Reset;
    palette.overlay = Color::Reset;
    palette
}

} // verus!
