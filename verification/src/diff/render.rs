//! Rendering of diff lines as styled text: a `+`/`-`/` ` marker (with an
//! optional gutter of old and new line numbers), then the line itself or,
//! for word-level diffs, the words that belong on that side.
use vstd::prelude::*;
use crate::color::Color;
use crate::style::Style;
use crate::theme::DiffTheme;
use crate::rich::{Span, Line, SpanView, spans_view, lines_view, push_span, push_line, decimal, pad_left, padded_number};
use crate::diff::compute::{DiffLine, DiffLineView, DiffTag, WordView, WordDiff, words_view};
use crate::diff::compute::lines_view as diff_lines_view;
use crate::text::{trim_newlines, trim_newlines_str};

verus! {

/// The style with its background filled in from `bg` when it has none of
/// its own (an explicit background of the style is kept).
pub open spec fn bg_filled(style: Style, bg: Option<Color>) -> Style {
    match style.bg {
        Some(_) => style,
        None => Style { bg: bg, ..style },
    }
}

/// Fills in the row's background for a gutter or unchanged-in-line style,
/// but only when that style has no background of its own.
pub fn with_bg(style: Style, bg: Option<Color>) -> (r: Style)
    ensures
        r == bg_filled(style, bg),
{
    let mut style = style;
    if style.bg.is_none() {
        style.bg = bg;
    }
    style
}

/// The marker character of a line kind.
pub open spec fn marker(tag: DiffTag) -> char {
    match tag {
        DiffTag::Insert => '+',
        DiffTag::Delete => '-',
        DiffTag::Unchanged => ' ',
    }
}

/// The style of a whole line of a kind.
pub open spec fn line_style_of(tag: DiffTag, t: DiffTheme) -> Style {
    match tag {
        DiffTag::Insert => t.add_style,
        DiffTag::Delete => t.remove_style,
        DiffTag::Unchanged => t.unchanged_style,
    }
}

/// A gutter field: the number right-aligned in 3 columns and a space, or 4
/// spaces when the line has no number on that side.
pub open spec fn number_field(n: Option<usize>) -> Seq<char> {
    match n {
        Some(k) => pad_left(decimal(k as nat), 3) + seq![' '],
        None => seq![' ', ' ', ' ', ' '],
    }
}

/// The word kind that a line of kind `tag` does not show: a deleted line
/// hides inserted words and an inserted line hides deleted words.
pub open spec fn hidden_word_tag(tag: DiffTag) -> Option<DiffTag> {
    match tag {
        DiffTag::Delete => Some(DiffTag::Insert),
        DiffTag::Insert => Some(DiffTag::Delete),
        DiffTag::Unchanged => None,
    }
}

/// The spans of the words shown on a line: every word but the hidden kind,
/// inserted words in the add style, deleted words in the remove style and
/// unchanged words in `unchanged`.
pub open spec fn word_spans(ws: Seq<WordView>, tag: DiffTag, t: DiffTheme, unchanged: Style) -> Seq<SpanView>
    decreases ws.len(),
{
    if ws.len() == 0 {
        Seq::empty()
    } else {
        let rest = word_spans(ws.drop_last(), tag, t, unchanged);
        let w = ws.last();
        if hidden_word_tag(tag) == Some(w.0) {
            rest
        } else {
            let style = match w.0 {
                DiffTag::Insert => t.add_style,
                DiffTag::Delete => t.remove_style,
                DiffTag::Unchanged => unchanged,
            };
            rest.push((w.1, style))
        }
    }
}

/// The spans of one rendered diff line.
pub open spec fn diff_line_spans(l: DiffLineView, show_line_numbers: bool, t: DiffTheme) -> Seq<SpanView> {
    let line_style = line_style_of(l.tag, t);
    let gutter_style = bg_filled(t.line_number_style, line_style.bg);
    let unchanged_in_line = bg_filled(t.unchanged_style, line_style.bg);
    let head = if show_line_numbers {
        (seq![marker(l.tag)] + number_field(l.old_line_num) + number_field(l.new_line_num), gutter_style)
    } else {
        (seq![marker(l.tag), ' '], line_style)
    };
    seq![head] + match l.word_diffs {
        Some(ws) => word_spans(ws, l.tag, t, unchanged_in_line),
        None => seq![(trim_newlines(l.content), line_style)],
    }
}

pub open spec fn rendered_diff(ls: Seq<DiffLineView>, show_line_numbers: bool, t: DiffTheme) -> Seq<Seq<SpanView>> {
    ls.map_values(|l: DiffLineView| diff_line_spans(l, show_line_numbers, t))
}

fn marker_str(tag: DiffTag) -> (r: &'static str)
    ensures
        r@ == seq![marker(tag)],
{
    proof {
        reveal_strlit("+");
        reveal_strlit("-");
        reveal_strlit(" ");
    }
    match tag {
        DiffTag::Insert => "+",
        DiffTag::Delete => "-",
        DiffTag::Unchanged => " ",
    }
}

fn push_number_field(out: &mut String, n: Option<usize>)
    ensures
        final(out)@ == old(out)@ + number_field(n),
{
    proof {
        reveal_strlit(" ");
        reveal_strlit("    ");
    }
    match n {
        Some(k) => {
            let f = padded_number(k, 3, " ");
            out.append(f.as_str());
        },
        None => {
            out.append("    ");
        },
    }
}

fn push_word_spans(spans: &mut Vec<Span>, ws: &Vec<WordDiff>, tag: DiffTag, t: &DiffTheme, unchanged: Style)
    ensures
        spans_view(final(spans)@) == spans_view(old(spans)@) + word_spans(words_view(ws@), tag, *t, unchanged),
{
    let skip = match tag {
        DiffTag::Delete => Some(DiffTag::Insert),
        DiffTag::Insert => Some(DiffTag::Delete),
        DiffTag::Unchanged => None,
    };
    let ghost start = spans_view(spans@);
    let mut i: usize = 0;
    while i < ws.len()
        invariant
            i <= ws.len(),
            skip == hidden_word_tag(tag),
            spans_view(spans@) == start + word_spans(words_view(ws@.take(i as int)), tag, *t, unchanged),
        decreases ws.len() - i,
    {
        let wd = &ws[i];
        proof {
            let wv = words_view(ws@.take(i + 1));
            assert(wv.drop_last() =~= words_view(ws@.take(i as int)));
            assert(wv.last() == ws@[i as int]@);
        }
        let hidden = match skip {
            Some(s) => s == wd.tag,
            None => false,
        };
        if !hidden {
            let style = match wd.tag {
                DiffTag::Insert => t.add_style,
                DiffTag::Delete => t.remove_style,
                DiffTag::Unchanged => unchanged,
            };
            push_span(spans, Span::styled(wd.text.clone(), style));
        }
        i = i + 1;
    }
    proof {
        assert(ws@.take(ws.len() as int) =~= ws@);
    }
}

/// The styled line of one diff line.
pub fn render_diff_line(line: &DiffLine, show_line_numbers: bool, theme: &DiffTheme) -> (r: Line)
    ensures
        r@ == diff_line_spans(line@, show_line_numbers, *theme),
{
    let mut spans: Vec<Span> = Vec::new();
    let line_style = match line.tag {
        DiffTag::Insert => theme.add_style,
        DiffTag::Delete => theme.remove_style,
        DiffTag::Unchanged => theme.unchanged_style,
    };
    let gutter_style = with_bg(theme.line_number_style, line_style.bg);
    let unchanged_in_line_style = with_bg(theme.unchanged_style, line_style.bg);
    let ghost lv = line@;
    let ghost head_view: SpanView = if show_line_numbers {
        (seq![marker(lv.tag)] + number_field(lv.old_line_num) + number_field(lv.new_line_num), gutter_style)
    } else {
        (seq![marker(lv.tag), ' '], line_style)
    };
    let mut head = String::new();
    head.append(marker_str(line.tag));
    if show_line_numbers {
        push_number_field(&mut head, line.old_line_num);
        push_number_field(&mut head, line.new_line_num);
        assert(head@ =~= seq![marker(lv.tag)] + number_field(lv.old_line_num) + number_field(lv.new_line_num));
        push_span(&mut spans, Span::styled(head, gutter_style));
    } else {
        proof {
            reveal_strlit(" ");
        }
        head.append(" ");
        assert(head@ =~= seq![marker(lv.tag), ' ']);
        push_span(&mut spans, Span::styled(head, line_style));
    }
    assert(spans_view(spans@) =~= seq![head_view]);
    match &line.word_diffs {
        Some(word_diffs) => {
            assert(lv.word_diffs == Some(words_view(word_diffs@)));
            push_word_spans(&mut spans, word_diffs, line.tag, theme, unchanged_in_line_style);
            assert(spans_view(spans@) =~= diff_line_spans(lv, show_line_numbers, *theme));
        },
        None => {
            let content = trim_newlines_str(line.content.as_str());
            push_span(&mut spans, Span::styled(String::from_str(content), line_style));
            assert(spans_view(spans@) =~= diff_line_spans(lv, show_line_numbers, *theme));
        },
    }
    Line { spans }
}

/// Renders diff lines as styled text, one output line per diff line.
pub fn render_diff(lines: &[DiffLine], show_line_numbers: bool, theme: &DiffTheme) -> (r: Vec<Line>)
    ensures
        lines_view(r@) == rendered_diff(diff_lines_view(lines@), show_line_numbers, *theme),
{
    let mut out: Vec<Line> = Vec::new();
    let mut i: usize = 0;
    while i < lines.len()
        invariant
            i <= lines.len(),
            lines_view(out@) == rendered_diff(diff_lines_view(lines@.take(i as int)), show_line_numbers, *theme),
        decreases lines.len() - i,
    {
        let l = render_diff_line(&lines[i], show_line_numbers, theme);
        push_line(&mut out, l);
        proof {
            assert(lines@.take(i + 1) =~= lines@.take(i as int).push(lines@[i as int]));
            assert(rendered_diff(diff_lines_view(lines@.take(i + 1)), show_line_numbers, *theme) =~= rendered_diff(
                diff_lines_view(lines@.take(i as int)),
                show_line_numbers,
                *theme,
            ).push(diff_line_spans(lines@[i as int]@, show_line_numbers, *theme)));
        }
        i = i + 1;
    }
    proof {
        assert(lines@.take(lines.len() as int) =~= lines@);
    }
    out
}


/// Each rendered diff line is marked and styled by its kind: an inserted
/// line gets `+` and the add style, a deleted line `-` and the remove style,
/// an unchanged line a space and the unchanged style. Without word diffs the
/// line's text (without its ending) follows in that style, and without a
/// gutter the marker is in that style too.
pub proof fn law_lines_styled_by_kind(ls: Seq<DiffLineView>, show_line_numbers: bool, t: DiffTheme, i: int)
    requires
        0 <= i < ls.len(),
    ensures
        ({
            let l = ls[i];
            let spans = rendered_diff(ls, show_line_numbers, t)[i];
            let (mark, style) = match l.tag {
                DiffTag::Insert => ('+', t.add_style),
                DiffTag::Delete => ('-', t.remove_style),
                DiffTag::Unchanged => (' ', t.unchanged_style),
            };
            &&& spans.len() >= 1
            &&& spans[0].0.len() >= 1 && spans[0].0[0] == mark
            &&& !show_line_numbers ==> spans[0] == (seq![mark, ' '], style)
            &&& l.word_diffs is None ==> spans.len() == 2 && spans[1] == (trim_newlines(l.content), style)
        }),
{
}

} // verus!
