use ratatui_kit_contrib::color::Color;
use ratatui_kit_contrib::diff::compute::{compute_diff, compute_word_diffs, lines_from_changes, DiffLine, DiffTag, WordDiff};
use ratatui_kit_contrib::diff::render::{render_diff, with_bg};
use ratatui_kit_contrib::diff::{diff_text, resolve_theme, DiffProps};
use ratatui_kit_contrib::style::Style;
use ratatui_kit_contrib::theme::DiffTheme;

#[test]
fn test_empty_inputs() {
    let result = compute_diff("", "");
    assert!(result.is_empty());
}

#[test]
fn test_all_added() {
    let result = compute_diff("", "hello\nworld\n");
    assert_eq!(result.len(), 2);
    assert!(result.iter().all(|l| l.tag == DiffTag::Insert));
}

#[test]
fn test_all_deleted() {
    let result = compute_diff("hello\nworld\n", "");
    assert_eq!(result.len(), 2);
    assert!(result.iter().all(|l| l.tag == DiffTag::Delete));
}

#[test]
fn test_mixed_changes() {
    let old = "line1\nline2\nline3\n";
    let new = "line1\nmodified\nline3\n";
    let result = compute_diff(old, new);
    assert_eq!(result.len(), 4);
    assert_eq!(result[0].tag, DiffTag::Unchanged);
    assert_eq!(result[1].tag, DiffTag::Delete);
    assert_eq!(result[2].tag, DiffTag::Insert);
    assert_eq!(result[3].tag, DiffTag::Unchanged);
}

#[test]
fn line_numbers_are_one_based_per_side() {
    let result = compute_diff("line1\nline2\nline3\n", "line1\nmodified\nline3\n");
    assert_eq!((result[0].old_line_num, result[0].new_line_num), (Some(1), Some(1)));
    assert_eq!((result[1].old_line_num, result[1].new_line_num), (Some(2), None));
    assert_eq!((result[2].old_line_num, result[2].new_line_num), (None, Some(2)));
    assert_eq!((result[3].old_line_num, result[3].new_line_num), (Some(3), Some(3)));
    assert_eq!(result[1].content, "line2\n");
    assert_eq!(result[2].content, "modified\n");
}

#[test]
fn small_replacement_gets_word_diffs_on_both_lines() {
    let result = compute_diff("let a = 1;\n", "let a = 2;\n");
    assert_eq!(result.len(), 2);
    let old_words = result[0].word_diffs.as_ref().expect("deleted line has word diffs");
    let new_words = result[1].word_diffs.as_ref().expect("inserted line has word diffs");
    assert_eq!(old_words.len(), new_words.len());
    assert!(old_words.iter().any(|w| w.tag == DiffTag::Delete && w.text == "1;"));
    assert!(old_words.iter().any(|w| w.tag == DiffTag::Insert && w.text == "2;"));
}

#[test]
fn large_replacement_gets_no_word_diffs() {
    let result = compute_diff("a\n", "a completely different and much longer line\n");
    assert_eq!(result.len(), 2);
    assert!(result[0].word_diffs.is_none());
    assert!(result[1].word_diffs.is_none());
}

fn line(tag: DiffTag, content: &str) -> DiffLine {
    DiffLine { tag, old_line_num: None, new_line_num: None, content: content.to_string(), word_diffs: None }
}

#[test]
fn word_pass_pairs_left_to_right_and_skips_unpaired_lines() {
    let mut lines = vec![
        line(DiffTag::Delete, "abc\n"),
        line(DiffTag::Delete, "abd\n"),
        line(DiffTag::Insert, "abe\n"),
        line(DiffTag::Unchanged, "x\n"),
        line(DiffTag::Insert, "y\n"),
    ];
    compute_word_diffs(&mut lines);
    assert!(lines[0].word_diffs.is_none());
    assert!(lines[1].word_diffs.is_some());
    assert!(lines[2].word_diffs.is_some());
    assert!(lines[3].word_diffs.is_none());
    assert!(lines[4].word_diffs.is_none());
    assert_eq!(lines[1].content, "abd\n");
    assert_eq!(lines[2].tag, DiffTag::Insert);
}

#[test]
fn word_pass_threshold_is_forty_percent_of_the_total_length() {
    // 5 bytes against 2: |5 - 2| = 3, 40% of 7 is 2.8: too different.
    let mut lines = vec![line(DiffTag::Delete, "abcde"), line(DiffTag::Insert, "ab")];
    compute_word_diffs(&mut lines);
    assert!(lines[0].word_diffs.is_none());
    // 4 bytes against 6: |4 - 6| = 2, 40% of 10 is 4: small enough.
    let mut lines = vec![line(DiffTag::Delete, "abcd"), line(DiffTag::Insert, "abcdef")];
    compute_word_diffs(&mut lines);
    assert!(lines[0].word_diffs.is_some());
    // Two empty lines count as length 1 each.
    let mut lines = vec![line(DiffTag::Delete, ""), line(DiffTag::Insert, "")];
    compute_word_diffs(&mut lines);
    assert!(lines[0].word_diffs.is_some());
}

#[test]
fn changes_get_one_based_numbers() {
    let changes = vec![
        (DiffTag::Unchanged, Some(0), Some(0), "a\n".to_string()),
        (DiffTag::Delete, Some(1), None, "b\n".to_string()),
        (DiffTag::Insert, None, Some(1), "c\n".to_string()),
    ];
    let lines = lines_from_changes(changes);
    assert_eq!((lines[0].old_line_num, lines[0].new_line_num), (Some(1), Some(1)));
    assert_eq!((lines[1].old_line_num, lines[1].new_line_num), (Some(2), None));
    assert_eq!((lines[2].old_line_num, lines[2].new_line_num), (None, Some(2)));
    assert_eq!(lines[2].content, "c\n");
}

#[test]
fn mod_resolves_styles_from_theme() {
    let theme = DiffTheme {
        add_style: Style::new().fg(Color::Green),
        remove_style: Style::new().fg(Color::Red),
        unchanged_style: Style::new().fg(Color::White),
        line_number_style: Style::new().fg(Color::DarkGray),
    };

    let theme = resolve_theme(&DiffProps::default(), theme);

    assert_eq!(theme.add_style.fg, Some(Color::Green));
    assert_eq!(theme.remove_style.fg, Some(Color::Red));
    assert_eq!(theme.unchanged_style.fg, Some(Color::White));
    assert_eq!(theme.line_number_style.fg, Some(Color::DarkGray));
}

#[test]
fn mod_style_override_patches_and_reset_clears_theme() {
    let theme = DiffTheme {
        add_style: Style::new().fg(Color::Green).bg(Color::Black),
        remove_style: Style::new().fg(Color::Red),
        unchanged_style: Style::new().fg(Color::White),
        line_number_style: Style::new().fg(Color::DarkGray),
    };
    let props = DiffProps {
        add_style: Some(Style::new().fg(Color::LightGreen)),
        remove_style: Some(Style::reset()),
        ..DiffProps::default()
    };

    let theme = resolve_theme(&props, theme);

    assert_eq!(theme.add_style.fg, Some(Color::LightGreen));
    assert_eq!(theme.add_style.bg, Some(Color::Black));
    assert_eq!(theme.remove_style, Style::reset());
}

#[test]
fn legacy_color_props_win_over_sibling_style_props_on_the_same_channel() {
    let theme = DiffTheme {
        add_style: Style::new().fg(Color::Green).bg(Color::Black),
        remove_style: Style::new().fg(Color::Red).bg(Color::Black),
        unchanged_style: Style::new().fg(Color::White),
        line_number_style: Style::new().fg(Color::DarkGray),
    };
    let props = DiffProps {
        add_style: Some(Style::new().fg(Color::LightGreen).bg(Color::Blue)),
        add_fg: Some(Color::Magenta),
        remove_style: Some(Style::new().bg(Color::Yellow)),
        remove_bg: Some(Color::Cyan),
        line_number_style: Some(Style::new().fg(Color::Gray)),
        line_num_color: Some(Color::LightRed),
        ..DiffProps::default()
    };

    let theme = resolve_theme(&props, theme);

    assert_eq!(theme.add_style.fg, Some(Color::Magenta));
    assert_eq!(theme.add_style.bg, Some(Color::Blue));
    assert_eq!(theme.remove_style.fg, Some(Color::Red));
    assert_eq!(theme.remove_style.bg, Some(Color::Cyan));
    assert_eq!(theme.line_number_style.fg, Some(Color::LightRed));
}

fn sample_theme() -> DiffTheme {
    DiffTheme {
        add_style: Style::new().fg(Color::Green).bg(Color::Black),
        remove_style: Style::new().fg(Color::Red).bg(Color::Blue),
        unchanged_style: Style::new().fg(Color::White),
        line_number_style: Style::new().fg(Color::DarkGray),
    }
}

#[test]
fn render_marks_lines_and_trims_newlines() {
    let lines = vec![
        line(DiffTag::Unchanged, "same\n"),
        line(DiffTag::Delete, "gone\n\n"),
        line(DiffTag::Insert, "new"),
    ];
    let text = render_diff(&lines, false, &sample_theme());
    assert_eq!(text.len(), 3);
    assert_eq!(text[0].spans[0].content, "  ");
    assert_eq!(text[0].spans[1].content, "same");
    assert_eq!(text[1].spans[0].content, "- ");
    assert_eq!(text[1].spans[1].content, "gone");
    assert_eq!(text[1].spans[1].style, sample_theme().remove_style);
    assert_eq!(text[2].spans[0].content, "+ ");
    assert_eq!(text[2].spans[1].style, sample_theme().add_style);
}

#[test]
fn render_gutter_holds_right_aligned_line_numbers() {
    let mut l = line(DiffTag::Delete, "x\n");
    l.old_line_num = Some(7);
    let mut u = line(DiffTag::Unchanged, "y\n");
    u.old_line_num = Some(1234);
    u.new_line_num = Some(12);
    let text = render_diff(&[l, u], true, &sample_theme());
    assert_eq!(text[0].spans[0].content, "-  7     ");
    assert_eq!(text[0].spans[0].style.fg, Some(Color::DarkGray));
    assert_eq!(text[0].spans[0].style.bg, Some(Color::Blue));
    assert_eq!(text[1].spans[0].content, " 1234  12 ");
}

#[test]
fn render_word_diffs_hide_the_other_side() {
    let words = vec![
        WordDiff { tag: DiffTag::Unchanged, text: "a ".to_string() },
        WordDiff { tag: DiffTag::Delete, text: "b".to_string() },
        WordDiff { tag: DiffTag::Insert, text: "c".to_string() },
    ];
    let mut del = line(DiffTag::Delete, "a b\n");
    del.word_diffs = Some(words.clone());
    let mut ins = line(DiffTag::Insert, "a c\n");
    ins.word_diffs = Some(words);
    let theme = sample_theme();
    let text = render_diff(&[del, ins], false, &theme);
    let del_texts: Vec<&str> = text[0].spans.iter().map(|s| s.content.as_str()).collect();
    let ins_texts: Vec<&str> = text[1].spans.iter().map(|s| s.content.as_str()).collect();
    assert_eq!(del_texts, ["- ", "a ", "b"]);
    assert_eq!(ins_texts, ["+ ", "a ", "c"]);
    assert_eq!(text[0].spans[1].style, Style::new().fg(Color::White).bg(Color::Blue));
    assert_eq!(text[1].spans[2].style, theme.add_style);
}

#[test]
fn with_bg_keeps_an_explicit_background() {
    let own = Style::new().bg(Color::Red);
    assert_eq!(with_bg(own, Some(Color::Blue)), own);
    assert_eq!(with_bg(Style::new(), Some(Color::Blue)).bg, Some(Color::Blue));
    assert_eq!(with_bg(Style::new(), None), Style::new());
}

#[test]
fn diff_text_renders_the_diff_of_the_props() {
    let props = DiffProps {
        old: "a\nb\n".to_string(),
        new: "a\nc\n".to_string(),
        show_line_numbers: Some(true),
        ..DiffProps::default()
    };
    let text = diff_text(&props, sample_theme());
    assert_eq!(text.len(), 3);
    assert_eq!(text[0].spans[0].content, "   1   1 ");
    assert_eq!(text[1].spans[0].content, "-  2     ");
    assert_eq!(text[2].spans[0].content, "+      2 ");
}

#[test]
fn each_side_reads_back_in_order_with_consecutive_numbers() {
    let old = "keep\nold one\nold two\nshared\r\ntail";
    let new = "keep\nnew one\nshared\r\ntail\nextra\n";
    let result = compute_diff(old, new);
    let old_side: String =
        result.iter().filter(|l| l.tag != DiffTag::Insert).map(|l| l.content.as_str()).collect();
    let new_side: String =
        result.iter().filter(|l| l.tag != DiffTag::Delete).map(|l| l.content.as_str()).collect();
    assert_eq!(old_side, old);
    assert_eq!(new_side, new);
    let old_nums: Vec<usize> = result.iter().filter_map(|l| l.old_line_num).collect();
    let new_nums: Vec<usize> = result.iter().filter_map(|l| l.new_line_num).collect();
    assert_eq!(old_nums, vec![1, 2, 3, 4, 5]);
    assert_eq!(new_nums, vec![1, 2, 3, 4, 5]);
    for l in &result {
        match l.tag {
            DiffTag::Delete => assert!(l.old_line_num.is_some() && l.new_line_num.is_none()),
            DiffTag::Insert => assert!(l.old_line_num.is_none() && l.new_line_num.is_some()),
            DiffTag::Unchanged => assert!(l.old_line_num.is_some() && l.new_line_num.is_some()),
        }
    }
}
