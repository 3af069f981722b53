use ratatui_kit_contrib::blockquote::{Blockquote, BlockquoteProps, Rect};
use ratatui_kit_contrib::code_block::{CodeBlock, CodeBlockProps};
use ratatui_kit_contrib::color::Color;
use ratatui_kit_contrib::divider::{divider_line, DividerProps};
use ratatui_kit_contrib::style::Style;
use ratatui_kit_contrib::theme::{BlockquoteTheme, CodeBlockTheme, DividerTheme};

#[test]
fn resolves_theme_and_legacy_color_overrides() {
    let theme = BlockquoteTheme {
        bar_style: Style::new().bg(Color::Blue),
        style: Style::new().fg(Color::White).bg(Color::Black),
    };
    let props = BlockquoteProps {
        prefix_color: Some(Color::Red),
        bg_color: Some(Color::Green),
        ..BlockquoteProps::default()
    };

    let quote = Blockquote::from_props(&props, theme);

    assert_eq!(quote.bar_style.bg, Some(Color::Red));
    assert_eq!(quote.bg_style.fg, Some(Color::White));
    assert_eq!(quote.bg_style.bg, Some(Color::Green));
}

#[test]
fn style_reset_clears_blockquote_theme() {
    let theme = BlockquoteTheme {
        bar_style: Style::new().bg(Color::Blue),
        style: Style::new().fg(Color::White).bg(Color::Black),
    };
    let props = BlockquoteProps { style: Some(Style::reset()), ..BlockquoteProps::default() };

    let quote = Blockquote::from_props(&props, theme);

    assert_eq!(quote.bg_style, Style::reset());
}

#[test]
fn legacy_color_prop_wins_over_sibling_style_prop_on_the_same_channel() {
    let theme = BlockquoteTheme {
        bar_style: Style::new().bg(Color::Blue),
        style: Style::new().fg(Color::White).bg(Color::Black),
    };
    let props = BlockquoteProps {
        bar_style: Some(Style::new().bg(Color::Cyan)),
        prefix_color: Some(Color::Red),
        style: Some(Style::new().fg(Color::Yellow).bg(Color::Magenta)),
        bg_color: Some(Color::Green),
        ..BlockquoteProps::default()
    };

    let quote = Blockquote::from_props(&props, theme);

    assert_eq!(quote.bar_style.bg, Some(Color::Red));
    assert_eq!(quote.bg_style.fg, Some(Color::Yellow));
    assert_eq!(quote.bg_style.bg, Some(Color::Green));
}

#[test]
fn blockquote_depth_is_at_least_one_and_sets_the_prefix() {
    let theme = BlockquoteTheme::default();
    let zero = Blockquote::from_props(&BlockquoteProps { depth: Some(0), ..BlockquoteProps::default() }, theme);
    assert_eq!(zero.depth, 1);
    let none = Blockquote::from_props(&BlockquoteProps { depth: None, ..BlockquoteProps::default() }, theme);
    assert_eq!(none.depth, 1);
    let three = Blockquote::from_props(&BlockquoteProps { depth: Some(3), ..BlockquoteProps::default() }, theme);
    assert_eq!(three.prefix_width(), 4);
    let area = Rect { x: 2, y: 5, width: 10, height: 3 };
    assert_eq!(three.content_area(area), Rect { x: 6, y: 5, width: 6, height: 3 });
    assert_eq!(three.bar_columns(area), 3);
    let narrow = Rect { x: 0, y: 0, width: 2, height: 1 };
    assert_eq!(three.content_area(narrow).width, 0);
    assert_eq!(three.bar_columns(narrow), 2);
}

#[test]
fn code_block_resolves_styles_from_theme() {
    let theme = CodeBlockTheme {
        line_number_style: Style::new().fg(Color::Blue),
        code_style: Style::new().fg(Color::White),
        border_style: Style::new().fg(Color::Green),
        language_label_style: Style::new().fg(Color::Yellow),
    };
    let block = CodeBlock::from_props(&CodeBlockProps::default(), theme);

    assert_eq!(block.line_number_style.fg, Some(Color::Blue));
    assert_eq!(block.code_style.fg, Some(Color::White));
    assert_eq!(block.border_style.fg, Some(Color::Green));
    assert_eq!(block.language_label_style.fg, Some(Color::Yellow));
}

#[test]
fn code_block_style_override_patches_and_reset_clears_theme() {
    let theme = CodeBlockTheme {
        line_number_style: Style::new().fg(Color::Blue).bg(Color::Black),
        code_style: Style::new().fg(Color::White),
        border_style: Style::new().fg(Color::Green),
        language_label_style: Style::new().fg(Color::Yellow),
    };
    let props = CodeBlockProps {
        line_number_style: Some(Style::new().fg(Color::Red)),
        border_style: Some(Style::reset()),
        ..CodeBlockProps::default()
    };

    let block = CodeBlock::from_props(&props, theme);

    assert_eq!(block.line_number_style.fg, Some(Color::Red));
    assert_eq!(block.line_number_style.bg, Some(Color::Black));
    assert_eq!(block.border_style, Style::reset());
}

fn block(lines: &[&str], lang: Option<&str>) -> CodeBlock {
    let props = CodeBlockProps {
        lines: lines.iter().map(|l| l.to_string()).collect(),
        lang: lang.map(|l| l.to_string()),
        ..CodeBlockProps::default()
    };
    CodeBlock::from_props(&props, CodeBlockTheme::default())
}

#[test]
fn code_block_defaults() {
    let b = block(&[], None);
    assert!(b.show_line_numbers);
    assert!(b.show_border);
    assert!(!b.light);
    assert_eq!(b.highlight_theme, "base16-ocean.dark");
    assert_eq!(b.language_label(), None);
    assert_eq!(block(&[], Some("rust")).language_label(), Some(" rust ".to_string()));
}

#[test]
fn gutter_width_follows_the_last_line_number() {
    assert_eq!(block(&[], None).line_number_width(), 2);
    let nine: Vec<&str> = vec!["x"; 9];
    assert_eq!(block(&nine, None).line_number_width(), 2);
    let ten: Vec<&str> = vec!["x"; 10];
    assert_eq!(block(&ten, None).line_number_width(), 3);
    let mut hidden = block(&ten, None);
    hidden.show_line_numbers = false;
    assert_eq!(hidden.line_number_width(), 0);
}

#[test]
fn plain_text_right_aligns_line_numbers() {
    let lines: Vec<String> = (1..=10).map(|i| format!("line {i}")).collect();
    let refs: Vec<&str> = lines.iter().map(|s| s.as_str()).collect();
    let b = block(&refs, None);
    let text = b.build_text_plain();
    assert_eq!(text.len(), 10);
    assert_eq!(text[0].spans[0].content, " 1 ");
    assert_eq!(text[0].spans[1].content, "line 1");
    assert_eq!(text[9].spans[0].content, "10 ");
    assert_eq!(text[9].spans[1].style, b.code_style);
}

#[test]
fn unknown_language_falls_back_to_plain_text() {
    let b = block(&["a", "b"], Some("no-such-language"));
    assert_eq!(b.build_text_highlighted().len(), 2);
    assert_eq!(b.build_text_highlighted()[1].spans[1].content, "b");
    let none = block(&["a"], None);
    assert_eq!(none.build_text()[0].spans[1].content, "a");
}

#[test]
fn known_language_is_highlighted_in_rgb() {
    let b = block(&["fn main() {", "}"], Some("rs"));
    let text = b.build_text();
    assert_eq!(text.len(), 2);
    assert_eq!(text[0].spans[0].content, "1 ");
    let first: String = text[0].spans[1..].iter().map(|s| s.content.as_str()).collect();
    assert_eq!(first, "fn main() {\n");
    assert!(text[0].spans[1..].iter().all(|s| matches!(s.style.fg, Some(Color::Rgb(..)))));
    let mut light = b.clone();
    light.light = true;
    assert_eq!(light.build_text()[0].spans[1].content, "fn main() {");
}

#[test]
fn divider_repeats_its_character() {
    let (line, style) = divider_line(&DividerProps::default(), DividerTheme { style: Style::new().fg(Color::Blue) });
    assert_eq!(line.chars().count(), 256);
    assert!(line.chars().all(|c| c == '─'));
    assert_eq!(style, Style::new().fg(Color::Blue));
    let props = DividerProps { char: Some('='), style_cfg: Some(Style::new().fg(Color::Red)) };
    let (line, style) = divider_line(&props, DividerTheme { style: Style::new().fg(Color::Blue).bg(Color::Black) });
    assert!(line.chars().all(|c| c == '='));
    assert_eq!(style, Style::new().fg(Color::Red).bg(Color::Black));
}

#[test]
fn every_default_theme_highlights_and_unknown_themes_fall_back() {
    let names = [
        "base16-ocean.dark",
        "base16-eighties.dark",
        "base16-mocha.dark",
        "base16-ocean.light",
        "InspiredGitHub",
        "Solarized (dark)",
        "Solarized (light)",
        "no such theme",
    ];
    let mut fallback = block(&["let x = 1;"], Some("rs"));
    fallback.highlight_theme = "InspiredGitHub".to_string();
    let inspired = fallback.build_text_highlighted();
    for name in names {
        let mut b = block(&["let x = 1;"], Some("rs"));
        b.highlight_theme = name.to_string();
        let text = b.build_text_highlighted();
        assert!(text[0].spans[1..].iter().all(|s| matches!(s.style.fg, Some(Color::Rgb(..)))), "{name}");
        if name == "no such theme" {
            assert_eq!(format!("{text:?}"), format!("{inspired:?}"));
        }
    }
}
