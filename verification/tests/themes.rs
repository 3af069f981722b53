use ratatui_kit::ratatui::style::Color as R;
use ratatui_kit_contrib::color::Color;
use ratatui_kit_contrib::theme::Palette;
use ratatui_kit_contrib::themes::{palette_from_theme_palette, terminal_background, ThemePalette};

fn color_of(c: ratatui_themes::ThemePalette, pick: fn(&ratatui_themes::ThemePalette) -> ratatui_kit::ratatui::style::Color) -> Color {
    convert(pick(&c))
}

fn convert(c: R) -> Color {
    match c {
        R::Reset => Color::Reset,
        R::Black => Color::Black,
        R::Red => Color::Red,
        R::Green => Color::Green,
        R::Yellow => Color::Yellow,
        R::Blue => Color::Blue,
        R::Magenta => Color::Magenta,
        R::Cyan => Color::Cyan,
        R::Gray => Color::Gray,
        R::DarkGray => Color::DarkGray,
        R::LightRed => Color::LightRed,
        R::LightGreen => Color::LightGreen,
        R::LightYellow => Color::LightYellow,
        R::LightBlue => Color::LightBlue,
        R::LightMagenta => Color::LightMagenta,
        R::LightCyan => Color::LightCyan,
        R::White => Color::White,
        R::Rgb(r, g, b) => Color::Rgb(r, g, b),
        R::Indexed(i) => Color::Indexed(i),
    }
}

fn source_of(p: ratatui_themes::ThemePalette) -> ThemePalette {
    ThemePalette {
        accent: color_of(p, |p| p.accent),
        secondary: color_of(p, |p| p.secondary),
        bg: color_of(p, |p| p.bg),
        fg: color_of(p, |p| p.fg),
        muted: color_of(p, |p| p.muted),
        selection: color_of(p, |p| p.selection),
        error: color_of(p, |p| p.error),
        warning: color_of(p, |p| p.warning),
        success: color_of(p, |p| p.success),
        info: color_of(p, |p| p.info),
    }
}

#[test]
fn converts_every_upstream_theme_name() {
    for &name in ratatui_themes::ThemeName::all() {
        let source = source_of(name.palette());
        let palette = palette_from_theme_palette(source, Color::Black);

        assert_eq!(palette.fg, source.fg, "{}", name.slug());
        assert_eq!(palette.bg, source.bg, "{}", name.slug());
        assert_eq!(palette.accent, source.accent, "{}", name.slug());
        assert_eq!(palette.selection, source.selection, "{}", name.slug());
    }
}

#[test]
fn maps_theme_palette_fields_deterministically() {
    let source = ThemePalette {
        accent: Color::Rgb(1, 2, 3),
        secondary: Color::Rgb(4, 5, 6),
        bg: Color::Rgb(7, 8, 9),
        fg: Color::Rgb(10, 11, 12),
        muted: Color::Rgb(13, 14, 15),
        selection: Color::Rgb(240, 240, 240),
        error: Color::Rgb(16, 17, 18),
        warning: Color::Rgb(19, 20, 21),
        success: Color::Rgb(22, 23, 24),
        info: Color::Rgb(25, 26, 27),
    };

    let palette = palette_from_theme_palette(source, Color::White);

    assert_eq!(palette.fg, source.fg);
    assert_eq!(palette.fg_dim, source.muted);
    assert_eq!(palette.bg, source.bg);
    assert_eq!(palette.surface, source.bg);
    assert_eq!(palette.overlay, source.bg);
    assert_eq!(palette.accent, source.accent);
    assert_eq!(palette.on_accent, Color::White);
    assert_eq!(palette.selection, source.selection);
    assert_eq!(palette.border, source.muted);
    assert_eq!(palette.border_active, source.accent);
    assert_eq!(palette.success, source.success);
    assert_eq!(palette.warning, source.warning);
    assert_eq!(palette.error, source.error);
    assert_eq!(palette.info, source.info);
    assert_eq!(palette.placeholder, source.muted);
}

#[test]
fn terminal_background_resets_only_background_layers() {
    let palette = palette_from_theme_palette(source_of(ratatui_themes::ThemeName::Nord.palette()), Color::Black);
    let reset = terminal_background(palette);

    assert_eq!(reset.bg, Color::Reset);
    assert_eq!(reset.surface, Color::Reset);
    assert_eq!(reset.overlay, Color::Reset);
    assert_eq!(reset.fg, palette.fg);
    assert_eq!(reset.accent, palette.accent);
    assert_eq!(reset.selection, palette.selection);
}

#[test]
fn does_not_reference_the_builder_theme_crate() {
    let crate_name = format!("{}{}", "ratatui-", "themekit");
    let rust_path = format!("{}{}", "ratatui_", "themekit");
    let source = source_of(ratatui_themes::ThemeName::Nord.palette());
    for text in [
        format!("{:?}", Palette::default()),
        format!("{:?}", source),
        format!("{:?}", palette_from_theme_palette(source, Color::Black)),
    ] {
        assert!(!text.contains(&crate_name));
        assert!(!text.contains(&rust_path));
    }
}
