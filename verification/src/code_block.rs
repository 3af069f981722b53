//! Standalone code blocks: optional line numbers, a language label, and
//! syntax highlighting by `syntect` with a plain-text fallback.
use vstd::prelude::*;
use crate::color::Color;
use crate::style::{Style, resolved, resolve_style};
use crate::theme::{CodeBlockTheme, fg_style};
use crate::rich::{Span, Line, SpanView, spans_view, lines_view, push_span, push_line, decimal, pad_left, padded_number, decimal_len};
use crate::text::{strings_view, first_newline, lemma_first_newline, trim_newlines, trim_newlines_str};

verus! {

/// What the code block component reads of its properties.
#[derive(Debug, Clone)]
pub struct CodeBlockProps {
    /// The code, line by line.
    pub lines: Vec<String>,
    /// Language token (such as `"rust"`), used to pick the syntax.
    pub lang: Option<String>,
    /// Whether to show line numbers; yes by default.
    pub show_line_numbers: Option<bool>,
    /// Name of the syntect highlighting theme; `"base16-ocean.dark"` by
    /// default.
    pub highlight_theme: Option<String>,
    /// Override of the line number style: `None` keeps the theme, a style
    /// patches it, `Style::reset()` clears it.
    pub line_number_style: Option<Style>,
    /// Override of the code style (used when there is no highlighting).
    pub code_style: Option<Style>,
    /// Override of the border style.
    pub border_style: Option<Style>,
    /// Override of the language label style.
    pub language_label_style: Option<Style>,
    /// Whether to draw the outer border; yes by default.
    pub show_border: Option<bool>,
    /// Light mode: skip highlighting; no by default.
    pub light: Option<bool>,
}

/// The default highlighting theme.
pub open spec fn default_highlight_theme() -> Seq<char> {
    seq!['b', 'a', 's', 'e', '1', '6', '-', 'o', 'c', 'e', 'a', 'n', '.', 'd', 'a', 'r', 'k']
}

/// The theme used when the asked one does not exist.
pub open spec fn fallback_highlight_theme() -> Seq<char> {
    seq!['I', 'n', 's', 'p', 'i', 'r', 'e', 'd', 'G', 'i', 't', 'H', 'u', 'b']
}

fn default_theme_name() -> (r: String)
    ensures
        r@ == default_highlight_theme(),
{
    proof {
        reveal_strlit("base16-ocean.dark");
    }
    let r = String::from_str("base16-ocean.dark");
    assert(r@ =~= default_highlight_theme());
    r
}

impl Default for CodeBlockProps {
    fn default() -> (r: CodeBlockProps)
        ensures
            r.lines@.len() == 0,
            r.lang is None,
            r.show_line_numbers == Some(true),
            r.show_border == Some(true),
            r.highlight_theme matches Some(t) && t@ == default_highlight_theme(),
            r.line_number_style is None,
            r.code_style is None,
            r.border_style is None,
            r.language_label_style is None,
            r.light is None,
    {
        CodeBlockProps {
            lines: Vec::new(),
            lang: None,
            show_line_numbers: Some(true),
            show_border: Some(true),
            highlight_theme: Some(default_theme_name()),
            line_number_style: None,
            code_style: None,
            border_style: None,
            language_label_style: None,
            light: None,
        }
    }
}

/// A code block, resolved from its properties and theme.
#[derive(Debug, Clone)]
pub struct CodeBlock {
    pub lines: Vec<String>,
    pub lang: Option<String>,
    pub show_line_numbers: bool,
    pub show_border: bool,
    pub highlight_theme: String,
    pub line_number_style: Style,
    pub code_style: Style,
    pub border_style: Style,
    pub language_label_style: Style,
    pub light: bool,
}

pub open spec fn opt_view(o: Option<String>) -> Option<Seq<char>> {
    match o {
        Some(s) => Some(s@),
        None => None,
    }
}

pub open spec fn unwrap_or_bool(o: Option<bool>, d: bool) -> bool {
    match o {
        Some(b) => b,
        None => d,
    }
}

/// A code block is its properties resolved against the theme: defaults for
/// the missing flags and theme name, each style slot patched with its
/// override.
pub open spec fn resolved_from(b: CodeBlock, props: CodeBlockProps, theme: CodeBlockTheme) -> bool {
    &&& strings_view(b.lines@) == strings_view(props.lines@)
    &&& opt_view(b.lang) == opt_view(props.lang)
    &&& b.show_line_numbers == unwrap_or_bool(props.show_line_numbers, true)
    &&& b.show_border == unwrap_or_bool(props.show_border, true)
    &&& b.highlight_theme@ == match props.highlight_theme {
        Some(t) => t@,
        None => default_highlight_theme(),
    }
    &&& b.line_number_style == resolved(theme.line_number_style, props.line_number_style)
    &&& b.code_style == resolved(theme.code_style, props.code_style)
    &&& b.border_style == resolved(theme.border_style, props.border_style)
    &&& b.language_label_style == resolved(theme.language_label_style, props.language_label_style)
    &&& b.light == unwrap_or_bool(props.light, false)
}

/// The width of the line number gutter: none without line numbers, else the
/// digits of the last line number (at least 1) plus a space.
pub open spec fn gutter_width(show: bool, n_lines: nat) -> u16 {
    if !show {
        0
    } else {
        (decimal(if n_lines >= 1 { n_lines } else { 1 }).len() + 1) as u16
    }
}

/// The gutter text of line number `num` in a gutter of `width` columns:
/// the number right-aligned in `width - 1` columns, then a space.
pub open spec fn number_gutter(num: nat, width: int) -> Seq<char> {
    pad_left(decimal(num), if width >= 1 { (width - 1) as nat } else { 0 }) + seq![' ']
}

/// The gutter span of line `num` (1-based), if line numbers are shown.
pub open spec fn gutter_spans(b: CodeBlock, num: nat) -> Seq<SpanView> {
    if b.show_line_numbers {
        seq![(number_gutter(num, gutter_width(b.show_line_numbers, b.lines@.len()) as int), b.line_number_style)]
    } else {
        Seq::empty()
    }
}

/// The plain rendering: each line after its gutter, in the code style.
pub open spec fn plain_text(b: CodeBlock) -> Seq<Seq<SpanView>> {
    Seq::new(b.lines@.len(), |i: int| gutter_spans(b, (i + 1) as nat) + seq![(b.lines@[i]@, b.code_style)])
}

/// The lines joined with `'\n'` between them.
pub open spec fn joined(ls: Seq<Seq<char>>) -> Seq<char>
    decreases ls.len(),
{
    if ls.len() == 0 {
        Seq::empty()
    } else if ls.len() == 1 {
        ls[0]
    } else {
        joined(ls.drop_last()) + seq!['\n'] + ls.last()
    }
}

/// Where the first line of `s` ends: after its first `'\n'`, or at the end.
pub open spec fn line_end(s: Seq<char>) -> int {
    if first_newline(s) < s.len() {
        first_newline(s) + 1
    } else {
        s.len() as int
    }
}

/// The lines of `s`, each with its `'\n'` (syntect's `LinesWithEndings`).
pub open spec fn lines_with_endings(s: Seq<char>) -> Seq<Seq<char>>
    decreases s.len(),
{
    if s.len() == 0 {
        Seq::empty()
    } else {
        proof {
            lemma_first_newline(s);
        }
        seq![s.take(line_end(s))] + lines_with_endings(s.skip(line_end(s)))
    }
}

/// Whether syntect's default syntax set has a syntax for a language token
/// (by file extension, then by name).
pub uninterp spec fn spec_has_syntax(token: Seq<char>) -> bool;

/// Whether syntect's default theme set has a theme of that name: the seven
/// themes that syntect documents for `ThemeSet::load_defaults`.
pub open spec fn spec_has_theme(name: Seq<char>) -> bool {
    ||| name == "base16-ocean.dark"@
    ||| name == "base16-eighties.dark"@
    ||| name == "base16-mocha.dark"@
    ||| name == "base16-ocean.light"@
    ||| name == "InspiredGitHub"@
    ||| name == "Solarized (dark)"@
    ||| name == "Solarized (light)"@
}

/// The fallback theme is one of syntect's default themes, so whatever
/// theme is asked for, the chosen one exists: a block whose language syntect
/// knows is always highlighted.
pub proof fn law_chosen_theme_exists(b: CodeBlock)
    ensures
        spec_has_theme(fallback_highlight_theme()),
        spec_has_theme(theme_choice(b)),
        (b.lang matches Some(l) && spec_has_syntax(l@)) ==> highlighted_text(b) == ({
            let pieces = lines_with_endings(joined(strings_view(b.lines@)));
            let res = spec_highlight(b.lang->Some_0@, theme_choice(b), pieces);
            Seq::new(pieces.len(), |i: int| highlighted_line(b, (i + 1) as nat, pieces[i], res[i]))
        }),
{
    reveal_strlit("InspiredGitHub");
    assert("InspiredGitHub"@ =~= fallback_highlight_theme());
}

/// What syntect's `HighlightLines`, for a syntax token and a theme, gives
/// for each line in turn: the foreground colour and text of each region, or
/// nothing when the line fails to parse.
pub uninterp spec fn spec_highlight(
    token: Seq<char>,
    theme: Seq<char>,
    lines: Seq<Seq<char>>,
) -> Seq<Option<Seq<((u8, u8, u8), Seq<char>)>>>;

/// Looks the token up in `syntect::parsing::SyntaxSet::load_defaults_newlines()`
/// with `find_syntax_by_token`. Claims that the answer depends on the token
/// alone (the default set is built into syntect).
#[verifier::external_body]
fn has_syntax(token: &str) -> (r: bool)
    ensures
        r == spec_has_syntax(token@),
{
    syntect::parsing::SyntaxSet::load_defaults_newlines().find_syntax_by_token(token).is_some()
}

/// Looks the name up in `syntect::highlighting::ThemeSet::load_defaults()`.
/// Claims that the name is found exactly when it is one of the seven
/// default themes that syntect's documentation of `load_defaults` lists as
/// the keys of its map.
#[verifier::external_body]
fn has_theme(name: &str) -> (r: bool)
    ensures
        r == spec_has_theme(name@),
{
    syntect::highlighting::ThemeSet::load_defaults().themes.contains_key(name)
}

pub type Region = ((u8, u8, u8), String);

pub open spec fn regions_view(rs: Seq<Region>) -> Seq<((u8, u8, u8), Seq<char>)> {
    rs.map_values(|r: Region| (r.0, r.1@))
}

pub open spec fn highlight_view(hs: Seq<Option<Vec<Region>>>) -> Seq<Option<Seq<((u8, u8, u8), Seq<char>)>>> {
    hs.map_values(
        |h: Option<Vec<Region>>|
            match h {
                Some(rs) => Some(regions_view(rs@)),
                None => None,
            },
    )
}

/// Highlights `lines` in turn with one `syntect::easy::HighlightLines` for
/// the token's syntax and the named theme (from syntect's default sets),
/// keeping each region's foreground colour and text, or nothing for a line
/// whose `highlight_line` fails. Claims: one result per line, and the
/// results are `spec_highlight` of the token, the theme name and the lines.
#[verifier::external_body]
fn highlight(token: &str, theme: &str, lines: &Vec<String>) -> (r: Vec<Option<Vec<Region>>>)
    requires
        spec_has_syntax(token@),
        spec_has_theme(theme@),
    ensures
        r.len() == lines.len(),
        highlight_view(r@) == spec_highlight(token@, theme@, strings_view(lines@)),
{
    let ss = syntect::parsing::SyntaxSet::load_defaults_newlines();
    let ts = syntect::highlighting::ThemeSet::load_defaults();
    let mut h = syntect::easy::HighlightLines::new(ss.find_syntax_by_token(token).unwrap(), &ts.themes[theme]);
    let mut out = Vec::new();
    for line in lines {
        match h.highlight_line(line, &ss) {
            Ok(ranges) => {
                let mut v = Vec::new();
                for (st, t) in ranges { v.push(((st.foreground.r, st.foreground.g, st.foreground.b), t.to_string())); }
                out.push(Some(v));
            },
            Err(_) => out.push(None),
        }
    }
    out
}

/// The spans of one highlighted region list, each in its foreground colour.
pub open spec fn region_spans(rs: Seq<((u8, u8, u8), Seq<char>)>) -> Seq<SpanView> {
    rs.map_values(|r: ((u8, u8, u8), Seq<char>)| (r.1, fg_style(Color::Rgb(r.0.0, r.0.1, r.0.2))))
}

/// One highlighted line: its gutter, then its regions, or the line itself
/// (without newline) in the code style when highlighting failed.
pub open spec fn highlighted_line(
    b: CodeBlock,
    num: nat,
    piece: Seq<char>,
    result: Option<Seq<((u8, u8, u8), Seq<char>)>>,
) -> Seq<SpanView> {
    gutter_spans(b, num) + match result {
        Some(rs) => region_spans(rs),
        None => seq![(trim_newlines(piece), b.code_style)],
    }
}

/// The highlighting theme: the asked one if it exists, else the fallback.
pub open spec fn theme_choice(b: CodeBlock) -> Seq<char> {
    if spec_has_theme(b.highlight_theme@) {
        b.highlight_theme@
    } else {
        fallback_highlight_theme()
    }
}

/// The highlighted rendering: with a known language and an available theme,
/// the code joined with newlines is split back into lines with their
/// endings and each is highlighted after its gutter; otherwise the plain
/// rendering.
pub open spec fn highlighted_text(b: CodeBlock) -> Seq<Seq<SpanView>> {
    match b.lang {
        Some(l) => {
            if spec_has_syntax(l@) && spec_has_theme(theme_choice(b)) {
                let pieces = lines_with_endings(joined(strings_view(b.lines@)));
                let res = spec_highlight(l@, theme_choice(b), pieces);
                Seq::new(pieces.len(), |i: int| highlighted_line(b, (i + 1) as nat, pieces[i], res[i]))
            } else {
                plain_text(b)
            }
        },
        None => plain_text(b),
    }
}

fn copy_strings(v: &Vec<String>) -> (r: Vec<String>)
    ensures
        strings_view(r@) == strings_view(v@),
{
    let mut out: Vec<String> = Vec::new();
    let mut i: usize = 0;
    while i < v.len()
        invariant
            i <= v.len(),
            strings_view(out@) == strings_view(v@.take(i as int)),
        decreases v.len() - i,
    {
        let ghost prev = out@;
        out.push(v[i].clone());
        proof {
            assert(strings_view(out@) =~= strings_view(prev).push(v@[i as int]@));
            assert(strings_view(v@.take(i + 1)) =~= strings_view(v@.take(i as int)).push(v@[i as int]@));
        }
        i = i + 1;
    }
    assert(v@.take(v.len() as int) =~= v@);
    out
}

fn copy_opt_string(o: &Option<String>) -> (r: Option<String>)
    ensures
        opt_view(r) == opt_view(*o),
{
    match o {
        Some(s) => Some(s.clone()),
        None => None,
    }
}

fn join_lines(v: &Vec<String>) -> (r: String)
    ensures
        r@ == joined(strings_view(v@)),
{
    let mut out = String::new();
    let mut i: usize = 0;
    while i < v.len()
        invariant
            i <= v.len(),
            out@ == joined(strings_view(v@.take(i as int))),
        decreases v.len() - i,
    {
        proof {
            reveal_strlit("\n");
        }
        if i > 0 {
            out.append("\n");
        }
        out.append(v[i].as_str());
        proof {
            let t = strings_view(v@.take(i + 1));
            assert(t.drop_last() =~= strings_view(v@.take(i as int)));
            assert(t.last() == v@[i as int]@);
            if i == 0 {
                assert(out@ =~= t[0]);
            } else {
                assert(out@ =~= joined(t.drop_last()) + seq!['\n'] + t.last());
            }
        }
        i = i + 1;
    }
    assert(v@.take(v.len() as int) =~= v@);
    out
}

/// Splits `s` into its lines, each with its `'\n'`.
fn split_lines_with_endings(s: &str) -> (r: Vec<String>)
    ensures
        strings_view(r@) == lines_with_endings(s@),
{
    let n = s.unicode_len();
    let mut out: Vec<String> = Vec::new();
    let mut start: usize = 0;
    proof {
        assert(s@.skip(0) =~= s@);
        assert(strings_view(out@) + lines_with_endings(s@.skip(0)) =~= lines_with_endings(s@));
    }
    while start < n
        invariant
            n == s@.len(),
            start <= n,
            strings_view(out@) + lines_with_endings(s@.skip(start as int)) == lines_with_endings(s@),
        decreases n - start,
    {
        let ghost rest = s@.skip(start as int);
        let mut end = start;
        while end < n && s.get_char(end) != '\n'
            invariant
                start <= end <= n,
                n == s@.len(),
                forall|j: int| start <= j < end ==> s@[j] != '\n',
            decreases n - end,
        {
            end = end + 1;
        }
        proof {
            lemma_first_newline(rest);
            assert forall|j: int| 0 <= j < end - start implies rest[j] != '\n' by {
                assert(rest[j] == s@[start + j]);
            }
            if end < n {
                assert(rest[end - start] == '\n');
            }
            if first_newline(rest) < end - start {
                assert(rest[first_newline(rest)] != '\n');
            }
            assert(first_newline(rest) == end - start);
        }
        if end < n {
            end = end + 1;
        }
        proof {
            let k = line_end(rest);
            assert(k == end - start);
            assert(rest.take(k) =~= s@.subrange(start as int, end as int));
            assert(rest.skip(k) =~= s@.skip(end as int));
        }
        let ghost prev = out@;
        out.push(String::from_str(s.substring_char(start, end)));
        proof {
            assert(strings_view(out@) =~= strings_view(prev).push(s@.subrange(start as int, end as int)));
            assert(lines_with_endings(rest) == seq![rest.take(line_end(rest))] + lines_with_endings(rest.skip(line_end(rest))));
            assert(strings_view(out@) + lines_with_endings(s@.skip(end as int)) =~= strings_view(prev) + lines_with_endings(rest));
        }
        start = end;
    }
    proof {
        assert(s@.skip(n as int) =~= Seq::<char>::empty());
        assert(strings_view(out@) + Seq::<Seq<char>>::empty() =~= strings_view(out@));
    }
    out
}

impl CodeBlock {
    /// Resolves a code block from its properties and theme.
    pub fn from_props(props: &CodeBlockProps, theme: CodeBlockTheme) -> (r: CodeBlock)
        ensures
            resolved_from(r, *props, theme),
    {
        let highlight_theme = match &props.highlight_theme {
            Some(t) => t.clone(),
            None => default_theme_name(),
        };
        CodeBlock {
            lines: copy_strings(&props.lines),
            lang: copy_opt_string(&props.lang),
            show_line_numbers: match props.show_line_numbers {
                Some(b) => b,
                None => true,
            },
            show_border: match props.show_border {
                Some(b) => b,
                None => true,
            },
            highlight_theme,
            line_number_style: resolve_style(theme.line_number_style, props.line_number_style),
            code_style: resolve_style(theme.code_style, props.code_style),
            border_style: resolve_style(theme.border_style, props.border_style),
            language_label_style: resolve_style(theme.language_label_style, props.language_label_style),
            light: match props.light {
                Some(b) => b,
                None => false,
            },
        }
    }

    /// Width of the line number gutter (0 without line numbers).
    pub fn line_number_width(&self) -> (r: u16)
        ensures
            r == gutter_width(self.show_line_numbers, self.lines@.len()),
    {
        if !self.show_line_numbers {
            return 0;
        }
        let max_line = if self.lines.len() >= 1 { self.lines.len() } else { 1 };
        let d = decimal_len(max_line);
        proof {
            lemma_decimal_len_bounded(max_line as nat);
        }
        (d + 1) as u16
    }

    fn gutter(&self, num: usize) -> (r: Vec<Span>)
        ensures
            spans_view(r@) == gutter_spans(*self, num as nat),
    {
        let mut spans: Vec<Span> = Vec::new();
        if self.show_line_numbers {
            let w = self.line_number_width() as usize;
            let width = if w >= 1 { w - 1 } else { 0 };
            proof {
                reveal_strlit(" ");
            }
            let num_str = padded_number(num, width, " ");
            assert(num_str@ =~= number_gutter(num as nat, w as int));
            push_span(&mut spans, Span::styled(num_str, self.line_number_style));
            assert(spans_view(spans@) =~= gutter_spans(*self, num as nat));
        } else {
            assert(spans_view(spans@) =~= gutter_spans(*self, num as nat));
        }
        spans
    }

    /// The code as plain styled text.
    pub fn build_text_plain(&self) -> (r: Vec<Line>)
        ensures
            lines_view(r@) == plain_text(*self),
    {
        let mut out: Vec<Line> = Vec::new();
        let mut i: usize = 0;
        while i < self.lines.len()
            invariant
                i <= self.lines.len(),
                lines_view(out@) == plain_text(*self).take(i as int),
            decreases self.lines.len() - i,
        {
            let mut spans = self.gutter(i + 1);
            push_span(&mut spans, Span::styled(self.lines[i].clone(), self.code_style));
            assert(spans_view(spans@) =~= plain_text(*self)[i as int]);
            push_line(&mut out, Line { spans });
            proof {
                assert(plain_text(*self).take(i + 1) =~= plain_text(*self).take(i as int).push(plain_text(*self)[i as int]));
            }
            i = i + 1;
        }
        proof {
            assert(plain_text(*self).take(self.lines.len() as int) =~= plain_text(*self));
        }
        out
    }

    fn highlighted_lines(&self, lang: &str, theme: &str) -> (r: Vec<Line>)
        requires
            spec_has_syntax(lang@),
            spec_has_theme(theme@),
        ensures
            ({
                let pieces = lines_with_endings(joined(strings_view(self.lines@)));
                let res = spec_highlight(lang@, theme@, pieces);
                lines_view(r@) == Seq::new(
                    pieces.len(),
                    |i: int| highlighted_line(*self, (i + 1) as nat, pieces[i], res[i]),
                )
            }),
    {
        let full_text = join_lines(&self.lines);
        let pieces = split_lines_with_endings(full_text.as_str());
        let results = highlight(lang, theme, &pieces);
        let ghost want = {
            let ps = lines_with_endings(joined(strings_view(self.lines@)));
            let res = spec_highlight(lang@, theme@, ps);
            Seq::new(ps.len(), |i: int| highlighted_line(*self, (i + 1) as nat, ps[i], res[i]))
        };
        let mut out: Vec<Line> = Vec::new();
        let mut i: usize = 0;
        while i < pieces.len()
            invariant
                i <= pieces.len(),
                results.len() == pieces.len(),
                strings_view(pieces@) == lines_with_endings(joined(strings_view(self.lines@))),
                highlight_view(results@) == spec_highlight(lang@, theme@, strings_view(pieces@)),
                want.len() == pieces.len(),
                want == Seq::new(
                    pieces@.len(),
                    |k: int| highlighted_line(*self, (k + 1) as nat, strings_view(pieces@)[k], highlight_view(results@)[k]),
                ),
                lines_view(out@) == want.take(i as int),
            decreases pieces.len() - i,
        {
            let mut spans = self.gutter(i + 1);
            let ghost g = spans_view(spans@);
            match &results[i] {
                Some(ranges) => {
                    let mut j: usize = 0;
                    while j < ranges.len()
                        invariant
                            j <= ranges.len(),
                            spans_view(spans@) == g + region_spans(regions_view(ranges@)).take(j as int),
                        decreases ranges.len() - j,
                    {
                        let (rgb, text) = &ranges[j];
                        let style = Style::new().fg(Color::Rgb(rgb.0, rgb.1, rgb.2));
                        push_span(&mut spans, Span::styled(text.clone(), style));
                        proof {
                            let rs = region_spans(regions_view(ranges@));
                            assert(rs.take(j + 1) =~= rs.take(j as int).push(rs[j as int]));
                        }
                        j = j + 1;
                    }
                    proof {
                        let rs = region_spans(regions_view(ranges@));
                        assert(rs.take(ranges.len() as int) =~= rs);
                    }
                },
                None => {
                    let trimmed = trim_newlines_str(pieces[i].as_str());
                    push_span(&mut spans, Span::styled(String::from_str(trimmed), self.code_style));
                },
            }
            proof {
                assert(strings_view(pieces@)[i as int] == pieces@[i as int]@);
                assert(spans_view(spans@) =~= want[i as int]);
            }
            push_line(&mut out, Line { spans });
            proof {
                assert(want.take(i + 1) =~= want.take(i as int).push(want[i as int]));
            }
            i = i + 1;
        }
        proof {
            assert(want.take(pieces.len() as int) =~= want);
        }
        out
    }

    /// The code as syntax-highlighted text when its language is known and a
    /// highlighting theme is available, else as plain text.
    pub fn build_text_highlighted(&self) -> (r: Vec<Line>)
        ensures
            lines_view(r@) == highlighted_text(*self),
    {
        match &self.lang {
            Some(lang) => {
                if !has_syntax(lang.as_str()) {
                    return self.build_text_plain();
                }
                proof {
                    reveal_strlit("InspiredGitHub");
                }
                let theme_name: &str = if has_theme(self.highlight_theme.as_str()) {
                    self.highlight_theme.as_str()
                } else {
                    "InspiredGitHub"
                };
                assert(theme_name@ =~= theme_choice(*self));
                if !has_theme(theme_name) {
                    return self.build_text_plain();
                }
                self.highlighted_lines(lang.as_str(), theme_name)
            },
            None => self.build_text_plain(),
        }
    }

    /// The code's text: plain in light mode, highlighted otherwise.
    pub fn build_text(&self) -> (r: Vec<Line>)
        ensures
            lines_view(r@) == if self.light {
                plain_text(*self)
            } else {
                highlighted_text(*self)
            },
    {
        if self.light {
            self.build_text_plain()
        } else {
            self.build_text_highlighted()
        }
    }

    /// The border title: the language between spaces.
    pub fn language_label(&self) -> (r: Option<String>)
        ensures
            opt_view(r) == match self.lang {
                Some(l) => Some(seq![' '] + l@ + seq![' ']),
                None => None,
            },
    {
        match &self.lang {
            Some(lang) => {
                proof {
                    reveal_strlit(" ");
                }
                let mut label = String::from_str(" ");
                label.append(lang.as_str());
                label.append(" ");
                assert(label@ =~= seq![' '] + lang@ + seq![' ']);
                Some(label)
            },
            None => None,
        }
    }
}

/// A machine-size number has at most 20 decimal digits.
proof fn lemma_decimal_len_bounded(n: nat)
    requires
        n <= usize::MAX,
    ensures
        decimal(n).len() <= 20,
{
    reveal_with_fuel(pow10, 21);
    assert(pow10(20) == 100000000000000000000nat);
    lemma_decimal_len_pow(n, 20);
}

proof fn lemma_decimal_len_pow(n: nat, k: nat)
    requires
        k >= 1,
        n < pow10(k),
    ensures
        decimal(n).len() <= k,
    decreases k,
{
    if n >= 10 {
        assert(k >= 2) by {
            if k == 1 {
                assert(pow10(1) == 10);
            }
        }
        assert(n / 10 < pow10((k - 1) as nat)) by {
            assert(pow10(k) == 10 * pow10((k - 1) as nat));
        }
        lemma_decimal_len_pow(n / 10, (k - 1) as nat);
    }
}

pub open spec fn pow10(k: nat) -> nat
    decreases k,
{
    if k == 0 {
        1
    } else {
        10 * pow10((k - 1) as nat)
    }
}


/// The requested theme is the one used: when a block's language is known
/// and its requested highlight theme is one of syntect's default themes,
/// every line is highlighted with exactly that theme (the fallback theme
/// serves only names that syntect lacks).
pub proof fn law_requested_theme_is_used(b: CodeBlock)
    requires
        b.lang is Some,
        spec_has_syntax(b.lang->Some_0@),
        spec_has_theme(b.highlight_theme@),
    ensures
        ({
            let pieces = lines_with_endings(joined(strings_view(b.lines@)));
            let res = spec_highlight(b.lang->Some_0@, b.highlight_theme@, pieces);
            highlighted_text(b) == Seq::new(pieces.len(), |i: int| highlighted_line(b, (i + 1) as nat, pieces[i], res[i]))
        }),
{
}

/// A requested theme that syntect lacks falls back to `InspiredGitHub`.
pub proof fn law_missing_theme_falls_back(b: CodeBlock)
    requires
        b.lang is Some,
        spec_has_syntax(b.lang->Some_0@),
        !spec_has_theme(b.highlight_theme@),
    ensures
        ({
            let pieces = lines_with_endings(joined(strings_view(b.lines@)));
            let res = spec_highlight(b.lang->Some_0@, "InspiredGitHub"@, pieces);
            highlighted_text(b) == Seq::new(pieces.len(), |i: int| highlighted_line(b, (i + 1) as nat, pieces[i], res[i]))
        }),
{
    reveal_strlit("InspiredGitHub");
    assert("InspiredGitHub"@ =~= fallback_highlight_theme());
}

} // verus!
