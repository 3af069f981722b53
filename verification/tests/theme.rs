use ratatui_kit_contrib::color::{color_to_rgb, cube_channel, indexed_to_rgb, Color};
use ratatui_kit_contrib::style::{apply_color_override, resolve_style, Style, BOLD, ITALIC, UNDERLINED};
use ratatui_kit_contrib::theme::{
    BlockquoteTheme, CodeBlockTheme, DiffTheme, DividerTheme, MarkdownTheme, Palette,
};

#[test]
fn themes_derive_from_palette() {
    let mut palette = Palette::default();
    palette.fg = Color::White;
    palette.fg_dim = Color::DarkGray;
    palette.surface = Color::Rgb(10, 11, 12);
    palette.border = Color::Blue;
    palette.border_active = Color::Cyan;
    palette.info = Color::Magenta;
    palette.success = Color::Green;
    palette.error = Color::Red;
    palette.warning = Color::Yellow;

    let markdown = MarkdownTheme::from_palette(&palette);
    let code = CodeBlockTheme::from_palette(&palette);
    let quote = BlockquoteTheme::from_palette(&palette);
    let divider = DividerTheme::from_palette(&palette);
    let diff = DiffTheme::from_palette(&palette);

    assert_eq!(markdown.inline_code_style.fg, Some(Color::Magenta));
    assert_eq!(markdown.inline_code_style.bg, Some(Color::Rgb(10, 11, 12)));
    assert_eq!(markdown.table_border_style.fg, Some(Color::Blue));
    assert_eq!(code.border_style.fg, Some(Color::Blue));
    assert_eq!(quote.bar_style.bg, Some(Color::Cyan));
    assert_eq!(divider.style.fg, Some(Color::Blue));
    assert_eq!(diff.add_style.fg, Some(Color::Green));
    assert_eq!(diff.remove_style.fg, Some(Color::Red));
}

#[test]
fn style_overrides_patch_or_reset_theme() {
    let theme = Style::new().fg(Color::Blue).bg(Color::Black);

    assert_eq!(resolve_style(theme, None), theme);
    assert_eq!(
        resolve_style(theme, Some(Style::new().fg(Color::Red))),
        Style::new().fg(Color::Red).bg(Color::Black)
    );
    assert_eq!(resolve_style(theme, Some(Style::reset())), Style::reset());
}

#[test]
fn default_palette_follows_the_terminal() {
    let p = Palette::default();
    assert_eq!(p.fg, Color::Reset);
    assert_eq!(p.bg, Color::Reset);
    assert_eq!(p.accent, Color::Cyan);
    assert_eq!(p.info, Color::Blue);
    let md = MarkdownTheme::default();
    assert_eq!(md.heading_style, Style::new().fg(Color::Yellow).add_modifier(BOLD));
    assert_eq!(md.link_style.add_modifier, UNDERLINED);
    assert_eq!(DiffTheme::default().add_style, Style::new().fg(Color::Green).bg(Color::Reset));
}

#[test]
fn patch_moves_modifiers_between_added_and_removed() {
    let base = Style::new().add_modifier(BOLD | ITALIC);
    let patched = base.patch(Style::new().remove_modifier(ITALIC));
    assert_eq!(patched.add_modifier, BOLD);
    assert_eq!(patched.sub_modifier, ITALIC);
    let back = patched.patch(Style::new().add_modifier(ITALIC));
    assert_eq!(back.add_modifier, BOLD | ITALIC);
    assert_eq!(back.sub_modifier, 0);
}

#[test]
fn legacy_colors_replace_only_their_channel() {
    let s = Style::new().fg(Color::Red).bg(Color::Blue).add_modifier(BOLD);
    let r = apply_color_override(s, None, Some(Color::Green));
    assert_eq!(r, Style::new().fg(Color::Red).bg(Color::Green).add_modifier(BOLD));
    let r = apply_color_override(s, Some(Color::White), None);
    assert_eq!(r.fg, Some(Color::White));
    assert_eq!(r.bg, Some(Color::Blue));
    assert_eq!(apply_color_override(s, None, None), s);
}

#[test]
fn palette_indices_map_to_xterm_rgb() {
    assert_eq!(indexed_to_rgb(0), Some((0, 0, 0)));
    assert_eq!(indexed_to_rgb(9), Some((255, 0, 0)));
    assert_eq!(indexed_to_rgb(16), Some((0, 0, 0)));
    assert_eq!(indexed_to_rgb(21), Some((0, 0, 255)));
    assert_eq!(indexed_to_rgb(196), Some((255, 0, 0)));
    assert_eq!(indexed_to_rgb(231), Some((255, 255, 255)));
    assert_eq!(indexed_to_rgb(232), Some((8, 8, 8)));
    assert_eq!(indexed_to_rgb(255), Some((238, 238, 238)));
    assert_eq!(indexed_to_rgb(110), Some((135, 175, 215)));
}

#[test]
fn cube_levels_step_by_forty_after_zero() {
    assert_eq!(cube_channel(0), 0);
    assert_eq!(cube_channel(1), 95);
    assert_eq!(cube_channel(3), 175);
    assert_eq!(cube_channel(5), 255);
}

#[test]
fn named_colors_have_xterm_rgb_and_reset_has_none() {
    assert_eq!(color_to_rgb(Color::Reset), None);
    assert_eq!(color_to_rgb(Color::Gray), Some((192, 192, 192)));
    assert_eq!(color_to_rgb(Color::DarkGray), Some((128, 128, 128)));
    assert_eq!(color_to_rgb(Color::Rgb(1, 2, 3)), Some((1, 2, 3)));
    assert_eq!(color_to_rgb(Color::Indexed(232)), Some((8, 8, 8)));
    assert_eq!(color_to_rgb(Color::LightCyan), Some((0, 255, 255)));
}
