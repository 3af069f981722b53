use ratatui_kit_contrib::color::Color;
use ratatui_kit_contrib::markdown::rows::render_rows_with_theme;
use ratatui_kit_contrib::markdown::spans::LINK_URL_MARKER;
use ratatui_kit_contrib::markdown::{
    Alignment, HeadingLevel, ListItemData, ParsedBlock, RenderRow, TableCellAlignment, rows_height,
};
use ratatui_kit_contrib::rich::{Line, Span};
use ratatui_kit_contrib::style::{Style, BOLD, UNDERLINED};
use ratatui_kit_contrib::theme::MarkdownTheme;

fn span(text: &str, style: Style) -> Span {
    Span { content: text.to_string(), style }
}

fn plain(text: &str) -> Span {
    span(text, Style::new())
}

fn para(spans: Vec<Span>) -> ParsedBlock {
    ParsedBlock::Paragraph(vec![Line { spans }])
}

fn item(depth: usize, ordered: bool, number: Option<usize>, text: &str) -> ParsedBlock {
    ParsedBlock::ListItem(ListItemData { depth, ordered, number, spans: vec![plain(text)] })
}

fn row_texts(blocks: &[ParsedBlock]) -> Vec<String> {
    render_rows_with_theme(&blocks.to_vec(), &MarkdownTheme::default())
        .iter()
        .map(|row| match row {
            RenderRow::Line(line) => line.spans.iter().map(|s| s.content.as_str()).collect(),
            RenderRow::Rule => "<rule>".to_string(),
            RenderRow::Code { .. } => "<code>".to_string(),
            RenderRow::Table { .. } => "<table>".to_string(),
        })
        .collect()
}

#[test]
fn adjacent_paragraphs_render_as_three_rows() {
    let blocks = vec![para(vec![plain("a")]), para(vec![plain("b")])];
    assert_eq!(row_texts(&blocks), vec!["a".to_string(), String::new(), "b".to_string()]);
    let rows = render_rows_with_theme(&blocks, &MarkdownTheme::default());
    assert_eq!(rows_height(&rows), 3);
}

#[test]
fn nested_list_keeps_parent_bullet_without_empty_bullet() {
    let blocks = vec![item(0, false, None, "a"), item(1, false, None, "b"), item(0, false, None, "c")];
    let bullets: Vec<String> = row_texts(&blocks).into_iter().filter(|s| !s.trim().is_empty()).collect();
    assert_eq!(bullets, vec!["• a".to_string(), "  • b".to_string(), "• c".to_string()]);
}

#[test]
fn nested_ordered_list_numbers_are_correct() {
    let blocks = vec![item(0, true, Some(1), "a"), item(1, true, Some(1), "b"), item(0, true, Some(2), "c")];
    let bullets: Vec<String> = row_texts(&blocks).into_iter().filter(|s| !s.trim().is_empty()).collect();
    assert_eq!(bullets, vec!["1. a".to_string(), "  1. b".to_string(), "2. c".to_string()]);
}

#[test]
fn inline_code_and_links_follow_markdown_theme() {
    let blocks = vec![para(vec![
        plain("See "),
        plain("`code`"),
        plain(" and "),
        span("docs", Style::new().add_modifier(UNDERLINED)),
        span(" (https://example.com)", Style::new().add_modifier(LINK_URL_MARKER)),
        plain("."),
    ])];
    let theme = MarkdownTheme {
        inline_code_style: Style::new().fg(Color::Red).bg(Color::Blue),
        link_style: Style::new().fg(Color::Green),
        link_url_style: Style::new().fg(Color::Yellow),
        ..MarkdownTheme::default()
    };

    let rows = render_rows_with_theme(&blocks, &theme);
    let RenderRow::Line(line) = &rows[0] else {
        panic!("expected first row to be a line");
    };

    let code = line.spans.iter().find(|s| s.content == "`code`").expect("inline code span");
    let link = line.spans.iter().find(|s| s.content == "docs").expect("link span");
    let url = line.spans.iter().find(|s| s.content == " (https://example.com)").expect("link URL span");

    assert_eq!(code.style.fg, Some(Color::Red));
    assert_eq!(code.style.bg, Some(Color::Blue));
    assert_eq!(link.style.fg, Some(Color::Green));
    assert_eq!(url.style.fg, Some(Color::Yellow));
    assert_eq!(url.style.add_modifier & LINK_URL_MARKER, 0);
}

#[test]
fn plain_parenthetical_prose_is_not_treated_as_a_link_url() {
    let theme = MarkdownTheme { link_url_style: Style::new().fg(Color::Yellow), ..MarkdownTheme::default() };
    let inputs = vec![
        vec![span("Note:", Style::new().add_modifier(BOLD)), plain(" (see below)")],
        vec![plain("See "), plain("`npm install`"), plain(" (requires Node 18+).")],
    ];
    for spans in inputs {
        let rows = render_rows_with_theme(&vec![para(spans)], &theme);
        let RenderRow::Line(line) = &rows[0] else {
            panic!("expected first row to be a line");
        };
        for s in &line.spans {
            assert_ne!(s.style.fg, Some(Color::Yellow), "span {:?} must not be recolored as a link URL", s.content);
        }
    }
}

#[test]
fn rerendering_with_a_new_theme_changes_inline_styles() {
    let blocks = vec![para(vec![plain("`code`")])];
    let first = MarkdownTheme { inline_code_style: Style::new().fg(Color::Red), ..MarkdownTheme::default() };
    let second = MarkdownTheme { inline_code_style: Style::new().fg(Color::Cyan), ..MarkdownTheme::default() };

    let rows_first = render_rows_with_theme(&blocks, &first);
    let rows_second = render_rows_with_theme(&blocks, &second);

    let RenderRow::Line(line_first) = &rows_first[0] else {
        panic!("expected first render row to be a line");
    };
    let RenderRow::Line(line_second) = &rows_second[0] else {
        panic!("expected second render row to be a line");
    };

    assert_eq!(line_first.spans[0].style.fg, Some(Color::Red));
    assert_eq!(line_second.spans[0].style.fg, Some(Color::Cyan));
}

#[test]
fn major_blocks_are_spaced_once() {
    let blocks = vec![
        ParsedBlock::Heading(HeadingLevel::H2, Line { spans: vec![plain("Title")] }),
        ParsedBlock::Rule,
        ParsedBlock::Rule,
        ParsedBlock::CodeBlock("rust".to_string(), vec!["let x = 1;".to_string(), "x".to_string()]),
        ParsedBlock::Rule,
        para(vec![plain("end")]),
    ];
    assert_eq!(
        row_texts(&blocks),
        vec!["## Title", "", "<rule>", "", "<rule>", "", "", "<code>", "", "<rule>", "end"]
    );
    let rows = render_rows_with_theme(&blocks, &MarkdownTheme::default());
    assert_eq!(rows_height(&rows), 12);
    match &rows[7] {
        RenderRow::Code { lang, lines } => {
            assert_eq!(lang.as_deref(), Some("rust"));
            assert_eq!(lines.len(), 2);
        }
        _ => panic!("expected a code row"),
    }
}

#[test]
fn empty_paragraph_is_a_blank_row_and_code_without_language_has_none() {
    let blocks = vec![ParsedBlock::Paragraph(vec![]), ParsedBlock::CodeBlock(String::new(), vec![])];
    let rows = render_rows_with_theme(&blocks, &MarkdownTheme::default());
    assert_eq!(rows.len(), 4);
    match &rows[2] {
        RenderRow::Code { lang, .. } => assert!(lang.is_none()),
        _ => panic!("expected a code row"),
    }
    assert_eq!(rows_height(&rows), 3);
}

#[test]
fn heading_styles_marker_and_text() {
    let theme = MarkdownTheme::default();
    let blocks = vec![ParsedBlock::Heading(HeadingLevel::H3, Line { spans: vec![plain("Hi")] })];
    let rows = render_rows_with_theme(&blocks, &theme);
    let RenderRow::Line(line) = &rows[0] else {
        panic!("expected a line");
    };
    assert_eq!(line.spans[0].content, "###");
    assert_eq!(line.spans[0].style, theme.heading_marker_style);
    assert_eq!(line.spans[1].content, " ");
    assert_eq!(line.spans[2].style, theme.heading_style);
}

#[test]
fn table_columns_fit_their_widest_cell() {
    let headers = vec![vec![plain("a")], vec![plain("long header")]];
    let rows = vec![
        vec![vec![plain("wide cell")], vec![plain("x")], vec![plain("extra")]],
        vec![vec![plain("y")], vec![plain("z")], vec![plain("w")], vec![plain("ignored extra cell")]],
    ];
    let blocks = vec![ParsedBlock::Table(headers, rows, vec![Alignment::Right, Alignment::Unaligned])];
    let out = render_rows_with_theme(&blocks, &MarkdownTheme::default());
    assert_eq!(out.len(), 1);
    match &out[0] {
        RenderRow::Table { columns, rows, height } => {
            assert_eq!(columns.len(), 3);
            assert_eq!(columns[0].width, 9);
            assert_eq!(columns[1].width, 11);
            assert_eq!(columns[2].width, 5);
            assert_eq!(columns[0].alignment, TableCellAlignment::Right);
            assert_eq!(columns[1].alignment, TableCellAlignment::Left);
            assert!(columns[2].header.spans.is_empty());
            assert_eq!(rows.len(), 2);
            assert_eq!(*height, 1 + 2 + 1 + 1 + 2);
        }
        _ => panic!("expected a table row"),
    }
    let empty = vec![ParsedBlock::Table(vec![], vec![], vec![])];
    assert_eq!(row_texts(&empty), vec![String::new()]);
}

#[test]
fn wide_characters_count_double_in_table_widths() {
    let headers = vec![vec![plain("你好你好")]];
    let blocks = vec![ParsedBlock::Table(headers, vec![], vec![])];
    let out = render_rows_with_theme(&blocks, &MarkdownTheme::default());
    match &out[0] {
        RenderRow::Table { columns, height, .. } => {
            assert_eq!(columns[0].width, 8);
            assert_eq!(*height, 4);
        }
        _ => panic!("expected a table row"),
    }
}

#[test]
fn rows_of_a_prefix_are_a_prefix_of_the_rows() {
    let blocks = vec![
        para(vec![plain("a")]),
        ParsedBlock::Rule,
        item(0, false, None, "x"),
        ParsedBlock::Heading(HeadingLevel::H1, Line { spans: vec![plain("T")] }),
    ];
    let all = row_texts(&blocks);
    for k in 0..=blocks.len() {
        let part = row_texts(&blocks[..k]);
        assert_eq!(&all[..part.len()], &part[..]);
    }
}

fn unstyled_rows(rows: &[RenderRow]) -> Vec<String> {
    rows.iter()
        .map(|row| match row {
            RenderRow::Line(line) => line.spans.iter().map(|s| format!("[{}]", s.content)).collect(),
            RenderRow::Rule => "<rule>".to_string(),
            RenderRow::Code { lang, lines } => format!("<code {:?} {:?}>", lang, lines),
            RenderRow::Table { columns, rows, height } => format!(
                "<table {:?} {:?} {}>",
                columns
                    .iter()
                    .map(|c| (
                        c.header.spans.iter().map(|s| s.content.clone()).collect::<Vec<_>>(),
                        c.width,
                        c.alignment
                    ))
                    .collect::<Vec<_>>(),
                rows.iter()
                    .map(|r| r.iter().map(|c| c.iter().map(|s| s.content.clone()).collect::<Vec<_>>()).collect::<Vec<_>>())
                    .collect::<Vec<_>>(),
                height
            ),
        })
        .collect()
}

#[test]
fn two_themes_give_rows_of_the_same_texts() {
    let blocks = vec![
        ParsedBlock::Heading(HeadingLevel::H2, Line { spans: vec![plain("Title")] }),
        para(vec![plain("see "), span("`code`", Style::new()), span("link", Style::new().add_modifier(UNDERLINED))]),
        item(1, true, Some(3), "third"),
        ParsedBlock::Table(vec![vec![plain("h")]], vec![vec![vec![plain("`c`")]]], vec![Alignment::Center]),
        ParsedBlock::CodeBlock("rust".to_string(), vec!["fn f() {}".to_string()]),
        ParsedBlock::Rule,
    ];
    let first = MarkdownTheme::default();
    let second = MarkdownTheme {
        heading_style: Style::new().fg(Color::Red),
        heading_marker_style: Style::new().fg(Color::Blue),
        inline_code_style: Style::new().fg(Color::Cyan),
        link_style: Style::new().fg(Color::Green),
        list_marker_style: Style::new().fg(Color::Yellow),
        ..MarkdownTheme::default()
    };
    let a = render_rows_with_theme(&blocks, &first);
    let b = render_rows_with_theme(&blocks, &second);
    assert_eq!(a.len(), b.len());
    assert_eq!(unstyled_rows(&a), unstyled_rows(&b));
    let RenderRow::Line(la) = &a[0] else { panic!("expected a heading line") };
    let RenderRow::Line(lb) = &b[0] else { panic!("expected a heading line") };
    assert_ne!(la.spans[0].style, lb.spans[0].style);
}
