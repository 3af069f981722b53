//! The styles of Markdown spans: the theme's semantic style (link
//! destination, inline code, link) or a base style, with the span's own
//! carried style laid over it; and the heading and list item lines.
use vstd::prelude::*;
use crate::style::{Style, UNDERLINED, empty_style, patched};
use crate::theme::MarkdownTheme;
use crate::rich::{Span, Line, SpanView, spans_view, push_span, decimal};
use crate::diff::compute::byte_len;
use crate::markdown::{HeadingLevel, ListItemData, ItemView};

verus! {

/// The modifier bit a parser sets on the span it synthesizes for a link's
/// destination, so that the renderer can style it; it lies outside the
/// defined modifiers and never reaches a rendered style.
pub const LINK_URL_MARKER: u16 = 0b1000_0000_0000_0000;

pub open spec fn has_bits(m: u16, b: u16) -> bool {
    m & b == b
}

/// The theme's semantic style of a span: link destinations (marked by the
/// parser), then inline code (text of at least 2 bytes between backticks),
/// then links (underlined spans).
pub open spec fn semantic(s: SpanView, t: MarkdownTheme) -> Option<Style> {
    if has_bits(s.1.add_modifier, LINK_URL_MARKER) {
        Some(t.link_url_style)
    } else if byte_len(s.0) >= 2 && s.0[0] == '`' && s.0.last() == '`' {
        Some(t.inline_code_style)
    } else if has_bits(s.1.add_modifier, UNDERLINED) {
        Some(t.link_style)
    } else {
        None
    }
}

/// A span's own style without the link marker.
pub open spec fn carried(s: Style) -> Style {
    Style { add_modifier: s.add_modifier & !LINK_URL_MARKER, ..s }
}

/// A rendered span: its text, and its carried style laid over its semantic
/// style, else over the base style, else over nothing.
pub open spec fn styled_span(s: SpanView, t: MarkdownTheme, base: Option<Style>) -> SpanView {
    let under = match semantic(s, t) {
        Some(x) => x,
        None => match base {
            Some(b) => b,
            None => empty_style(),
        },
    };
    (s.0, patched(under, carried(s.1)))
}

pub open spec fn styled_spans(ss: Seq<SpanView>, t: MarkdownTheme, base: Option<Style>) -> Seq<SpanView> {
    ss.map_values(|s: SpanView| styled_span(s, t, base))
}

/// The number of a heading level, 1 to 6.
pub open spec fn level_num(l: HeadingLevel) -> nat {
    match l {
        HeadingLevel::H1 => 1,
        HeadingLevel::H2 => 2,
        HeadingLevel::H3 => 3,
        HeadingLevel::H4 => 4,
        HeadingLevel::H5 => 5,
        HeadingLevel::H6 => 6,
    }
}

pub open spec fn repeated(c: char, n: nat) -> Seq<char> {
    Seq::new(n, |i: int| c)
}

/// A heading line: `#` repeated by level in the marker style, a space, then
/// the text over the heading style.
pub open spec fn heading_spans(level: nat, line: Seq<SpanView>, t: MarkdownTheme) -> Seq<SpanView> {
    seq![(repeated('#', level), t.heading_marker_style), (seq![' '], empty_style())] + styled_spans(
        line,
        t,
        Some(t.heading_style),
    )
}

/// The prefix of a list item: two spaces per nesting level, then its
/// number (1 when it has none) and `". "` when ordered, else `"• "`.
pub open spec fn item_prefix(item: ItemView) -> Seq<char> {
    repeated(' ', (2 * item.depth) as nat) + if item.ordered {
        decimal(
            match item.number {
                Some(n) => n as nat,
                None => 1,
            },
        ) + seq!['.', ' ']
    } else {
        seq!['•', ' ']
    }
}

/// A list item line: its prefix in the list marker style, then its text.
pub open spec fn item_spans(item: ItemView, t: MarkdownTheme) -> Seq<SpanView> {
    seq![(item_prefix(item), t.list_marker_style)] + styled_spans(item.spans, t, None)
}

/// The number of a heading level.
pub fn heading_level_num(level: HeadingLevel) -> (r: usize)
    ensures
        r == level_num(level),
{
    match level {
        HeadingLevel::H1 => 1,
        HeadingLevel::H2 => 2,
        HeadingLevel::H3 => 3,
        HeadingLevel::H4 => 4,
        HeadingLevel::H5 => 5,
        HeadingLevel::H6 => 6,
    }
}

/// The theme's semantic style of a span, if any.
pub fn semantic_style(span: &Span, theme: &MarkdownTheme) -> (r: Option<Style>)
    ensures
        r == semantic(span@, *theme),
{
    let text = span.content.as_str();
    if span.style.add_modifier & LINK_URL_MARKER == LINK_URL_MARKER {
        return Some(theme.link_url_style);
    }
    let n = text.unicode_len();
    if text.len() >= 2 && n >= 1 && text.get_char(0) == '`' && text.get_char(n - 1) == '`' {
        Some(theme.inline_code_style)
    } else if span.style.add_modifier & UNDERLINED == UNDERLINED {
        Some(theme.link_style)
    } else {
        proof {
            if byte_len(text@) >= 2 {
                assert(text@.len() >= 1) by {
                    if text@.len() == 0 {
                        assert(vstd::utf8::encode_utf8(text@) =~= Seq::<u8>::empty());
                    }
                }
            }
        }
        None
    }
}

/// Renders spans with the theme: each keeps its text, and its own style
/// (without the link marker) is laid over its semantic style, else over
/// `base_style`, else over nothing.
pub fn style_spans(spans: &Vec<Span>, theme: &MarkdownTheme, base_style: Option<Style>) -> (r: Vec<Span>)
    ensures
        spans_view(r@) == styled_spans(spans_view(spans@), *theme, base_style),
{
    let mut out: Vec<Span> = Vec::new();
    let mut i: usize = 0;
    while i < spans.len()
        invariant
            i <= spans.len(),
            spans_view(out@) == styled_spans(spans_view(spans@.take(i as int)), *theme, base_style),
        decreases spans.len() - i,
    {
        let span = &spans[i];
        let mut carried_style = span.style;
        carried_style.add_modifier = carried_style.add_modifier & !LINK_URL_MARKER;
        let under = match semantic_style(span, theme) {
            Some(s) => s,
            None => match base_style {
                Some(b) => b,
                None => Style::default(),
            },
        };
        let style = under.patch(carried_style);
        push_span(&mut out, Span::styled(span.content.clone(), style));
        proof {
            assert(spans_view(spans@.take(i + 1)) =~= spans_view(spans@.take(i as int)).push(spans@[i as int]@));
            assert(styled_spans(spans_view(spans@.take(i + 1)), *theme, base_style) =~= styled_spans(
                spans_view(spans@.take(i as int)),
                *theme,
                base_style,
            ).push(styled_span(spans@[i as int]@, *theme, base_style)));
        }
        i = i + 1;
    }
    proof {
        assert(spans@.take(spans.len() as int) =~= spans@);
    }
    out
}

/// A paragraph line rendered with the theme.
pub fn style_line(line: &Line, theme: &MarkdownTheme) -> (r: Line)
    ensures
        r@ == styled_spans(line@, *theme, None),
{
    Line { spans: style_spans(&line.spans, theme, None) }
}

fn repeat_str(out: &mut String, s: &str, n: usize)
    requires
        s@.len() == 1,
    ensures
        final(out)@ == old(out)@ + repeated(s@[0], n as nat),
{
    let ghost start = out@;
    let mut k: usize = 0;
    assert(start =~= start + repeated(s@[0], 0));
    while k < n
        invariant
            k <= n,
            s@.len() == 1,
            out@ == start + repeated(s@[0], k as nat),
        decreases n - k,
    {
        out.append(s);
        assert(start + repeated(s@[0], k as nat) + s@ =~= start + repeated(s@[0], (k + 1) as nat));
        k = k + 1;
    }
}

fn append_spans(out: &mut Vec<Span>, more: Vec<Span>)
    ensures
        spans_view(final(out)@) == spans_view(old(out)@) + spans_view(more@),
{
    let ghost start = spans_view(out@);
    let mut i: usize = 0;
    while i < more.len()
        invariant
            i <= more.len(),
            spans_view(out@) == start + spans_view(more@.take(i as int)),
        decreases more.len() - i,
    {
        push_span(out, more[i].copied());
        proof {
            assert(spans_view(more@.take(i + 1)) =~= spans_view(more@.take(i as int)).push(more@[i as int]@));
        }
        i = i + 1;
    }
    assert(more@.take(more.len() as int) =~= more@);
}

/// A heading line: `#` repeated by level in the marker style, a space, then
/// the text over the heading style.
pub fn heading_line(level_num: usize, line: &Line, theme: &MarkdownTheme) -> (r: Line)
    ensures
        r@ == heading_spans(level_num as nat, line@, *theme),
{
    let mut prefix = String::new();
    proof {
        reveal_strlit("#");
        reveal_strlit(" ");
    }
    repeat_str(&mut prefix, "#", level_num);
    assert(prefix@ =~= repeated('#', level_num as nat));
    let mut spans: Vec<Span> = Vec::new();
    push_span(&mut spans, Span::styled(prefix, theme.heading_marker_style));
    let space = String::from_str(" ");
    assert(space@ =~= seq![' ']);
    push_span(&mut spans, Span::styled(space, Style::default()));
    assert(spans_view(spans@) =~= seq![
        (repeated('#', level_num as nat), theme.heading_marker_style),
        (seq![' '], empty_style()),
    ]);
    append_spans(&mut spans, style_spans(&line.spans, theme, Some(theme.heading_style)));
    proof {
        assert(spans_view(spans@) =~= heading_spans(level_num as nat, line@, *theme));
    }
    Line { spans }
}

/// A list item line: indentation, number or bullet, then the text.
pub fn list_item_line(item: &ListItemData, theme: &MarkdownTheme) -> (r: Line)
    ensures
        r@ == item_spans(item@, *theme),
{
    let mut prefix = String::new();
    assert(prefix@ =~= repeated(' ', 0));
    proof {
        reveal_strlit(". ");
        reveal_strlit("• ");
    }
    let mut k: usize = 0;
    while k < item.depth
        invariant
            k <= item.depth,
            prefix@ == repeated(' ', (2 * k) as nat),
        decreases item.depth - k,
    {
        proof {
            reveal_strlit("  ");
        }
        prefix.append("  ");
        assert(repeated(' ', (2 * k) as nat) + "  "@ =~= repeated(' ', (2 * (k + 1)) as nat));
        k = k + 1;
    }
    if item.ordered {
        let n = match item.number {
            Some(n) => n,
            None => 1,
        };
        crate::rich::push_decimal(&mut prefix, n);
        prefix.append(". ");
    } else {
        prefix.append("• ");
    }
    assert(prefix@ =~= item_prefix(item@));
    let mut spans: Vec<Span> = Vec::new();
    push_span(&mut spans, Span::styled(prefix, theme.list_marker_style));
    append_spans(&mut spans, style_spans(&item.spans, theme, None));
    proof {
        assert(spans_view(spans@) =~= item_spans(item@, *theme));
    }
    Line { spans }
}

/// The style carries no link marker.
pub open spec fn unmarked(s: Style) -> bool {
    s.add_modifier & LINK_URL_MARKER == 0
}

/// The parser's link marker never reaches a rendered style: when the
/// theme's semantic styles and the base style carry no marker, no rendered
/// span does.
pub proof fn law_marker_never_rendered(s: SpanView, t: MarkdownTheme, base: Option<Style>)
    requires
        unmarked(t.link_url_style),
        unmarked(t.inline_code_style),
        unmarked(t.link_style),
        base matches Some(b) ==> unmarked(b),
    ensures
        unmarked(styled_span(s, t, base).1),
{
    let under = match semantic(s, t) {
        Some(x) => x,
        None => match base {
            Some(b) => b,
            None => empty_style(),
        },
    };
    let u = under.add_modifier;
    let sub = s.1.sub_modifier;
    let a = s.1.add_modifier;
    assert(under.add_modifier & 0x8000u16 == 0) by {
        assert(0u16 & 0x8000u16 == 0u16) by (bit_vector);
    }
    assert(((u & !sub) | (a & !0x8000u16)) & 0x8000u16 == 0u16) by (bit_vector)
        requires
            u & 0x8000u16 == 0u16,
    ;
}

} // verus!
