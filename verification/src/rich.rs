//! Styled text as the renderers produce it (ratatui's `Span` and `Line`),
//! and the decimal, right-aligned numbers of line-number gutters.
use vstd::prelude::*;
use crate::style::Style;

verus! {

/// A run of text in one style.
#[derive(Debug, Clone)]
pub struct Span {
    pub content: String,
    pub style: Style,
}

/// A span as the contracts see it.
pub type SpanView = (Seq<char>, Style);

impl View for Span {
    type V = SpanView;

    open spec fn view(&self) -> SpanView {
        (self.content@, self.style)
    }
}

pub open spec fn spans_view(ss: Seq<Span>) -> Seq<SpanView> {
    ss.map_values(|s: Span| s@)
}

/// One line of styled text.
#[derive(Debug, Clone)]
pub struct Line {
    pub spans: Vec<Span>,
}

impl View for Line {
    type V = Seq<SpanView>;

    open spec fn view(&self) -> Seq<SpanView> {
        spans_view(self.spans@)
    }
}

pub open spec fn lines_view(ls: Seq<Line>) -> Seq<Seq<SpanView>> {
    ls.map_values(|l: Line| l@)
}

impl Span {
    /// A span of `content` in `style`.
    pub fn styled(content: String, style: Style) -> (r: Span)
        ensures
            r@ == (content@, style),
    {
        Span { content, style }
    }

    /// A copy of this span.
    pub fn copied(&self) -> (r: Span)
        ensures
            r@ == self@,
    {
        Span { content: self.content.clone(), style: self.style }
    }
}

proof fn lemma_spans_view_push(ss: Seq<Span>, s: Span)
    ensures
        spans_view(ss.push(s)) == spans_view(ss).push(s@),
{
    assert(spans_view(ss.push(s)) =~= spans_view(ss).push(s@));
}

/// Appends a span to a span list, keeping track of the view.
pub fn push_span(spans: &mut Vec<Span>, s: Span)
    ensures
        spans_view(final(spans)@) == spans_view(old(spans)@).push(s@),
{
    proof {
        lemma_spans_view_push(spans@, s);
    }
    spans.push(s);
}

/// Appends a line to a line list, keeping track of the view.
pub fn push_line(lines: &mut Vec<Line>, l: Line)
    ensures
        lines_view(final(lines)@) == lines_view(old(lines)@).push(l@),
{
    let ghost before = lines@;
    lines.push(l);
    proof {
        assert(lines_view(lines@) =~= lines_view(before).push(l@));
    }
}

/// The character of a decimal digit.
pub open spec fn digit_char(d: nat) -> char {
    (48 + d) as char
}

/// The decimal digits of `n`, without leading zeros.
pub open spec fn decimal(n: nat) -> Seq<char>
    decreases n,
{
    if n < 10 {
        seq![digit_char(n)]
    } else {
        decimal(n / 10) + seq![digit_char(n % 10)]
    }
}

/// `n` spaces.
pub open spec fn spaces(n: nat) -> Seq<char> {
    Seq::new(n, |i: int| ' ')
}

/// `s` right-aligned in a field of `width` characters (`format!("{:>w$}")`).
pub open spec fn pad_left(s: Seq<char>, width: nat) -> Seq<char> {
    if s.len() >= width {
        s
    } else {
        spaces((width - s.len()) as nat) + s
    }
}

fn digit_str(d: usize) -> (r: &'static str)
    requires
        d < 10,
    ensures
        r@ == seq![digit_char(d as nat)],
{
    proof {
        reveal_strlit("0");
        reveal_strlit("1");
        reveal_strlit("2");
        reveal_strlit("3");
        reveal_strlit("4");
        reveal_strlit("5");
        reveal_strlit("6");
        reveal_strlit("7");
        reveal_strlit("8");
        reveal_strlit("9");
    }
    if d == 0 {
        "0"
    } else if d == 1 {
        "1"
    } else if d == 2 {
        "2"
    } else if d == 3 {
        "3"
    } else if d == 4 {
        "4"
    } else if d == 5 {
        "5"
    } else if d == 6 {
        "6"
    } else if d == 7 {
        "7"
    } else if d == 8 {
        "8"
    } else {
        "9"
    }
}

/// Appends the decimal digits of `n` to `out`.
pub fn push_decimal(out: &mut String, n: usize)
    ensures
        final(out)@ == old(out)@ + decimal(n as nat),
    decreases n,
{
    if n >= 10 {
        push_decimal(out, n / 10);
    }
    out.append(digit_str(n % 10));
    proof {
        if n >= 10 {
            assert(decimal(n as nat) == decimal((n / 10) as nat) + seq![digit_char((n % 10) as nat)]);
        }
    }
}

/// The number of decimal digits of `n`.
pub fn decimal_len(n: usize) -> (r: usize)
    ensures
        r == decimal(n as nat).len(),
    decreases n,
{
    if n >= 10 {
        let k = decimal_len(n / 10);
        proof {
            lemma_decimal_len_small((n / 10) as nat);
        }
        k + 1
    } else {
        1
    }
}

/// A number has at most itself plus one decimal digits.
proof fn lemma_decimal_len_small(n: nat)
    ensures
        decimal(n).len() <= n + 1,
    decreases n,
{
    if n >= 10 {
        lemma_decimal_len_small(n / 10);
    }
}

/// Appends `width - len` spaces (none when `len >= width`).
pub fn push_spaces(out: &mut String, len: usize, width: usize)
    ensures
        final(out)@ == old(out)@ + (if len >= width { Seq::<char>::empty() } else { spaces((width - len) as nat) }),
{
    if len >= width {
        assert(out@ =~= out@ + Seq::<char>::empty());
        return;
    }
    let ghost start = out@;
    proof {
        reveal_strlit(" ");
        assert(start =~= start + spaces(0));
    }
    let n = width - len;
    let mut k: usize = 0;
    while k < n
        invariant
            k <= n,
            out@ == start + spaces(k as nat),
        decreases n - k,
    {
        out.append(" ");
        proof {
            reveal_strlit(" ");
            assert(spaces((k + 1) as nat) =~= spaces(k as nat) + seq![' ']);
            assert(start + spaces(k as nat) + " "@ =~= start + spaces((k + 1) as nat));
        }
        k = k + 1;
    }
}

/// `n` in decimal, right-aligned in `width` characters, then `suffix`.
pub fn padded_number(n: usize, width: usize, suffix: &str) -> (r: String)
    ensures
        r@ == pad_left(decimal(n as nat), width as nat) + suffix@,
{
    let mut out = String::new();
    let len = decimal_len(n);
    push_spaces(&mut out, len, width);
    push_decimal(&mut out, n);
    out.append(suffix);
    proof {
        if len >= width {
            assert(out@ =~= decimal(n as nat) + suffix@);
        } else {
            assert(out@ =~= spaces((width - len) as nat) + decimal(n as nat) + suffix@);
        }
    }
    out
}

} // verus!
