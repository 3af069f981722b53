//! Markdown tables: column count, column widths from the display widths
//! of the cells, header lines and alignments, and the table's height.
use vstd::prelude::*;
use crate::theme::MarkdownTheme;
use crate::rich::{Span, Line, SpanView, spans_view};
use crate::markdown::{Alignment, TableCellAlignment, TableColumn, ColumnView, RenderRow, RowView, cells_view, table_rows_view, columns_view};
use crate::markdown::spans::{styled_spans, style_spans};

verus! {

/// The display width of a string in terminal columns, as unicode-width's
/// `UnicodeWidthStr::width` gives it.
pub uninterp spec fn spec_str_width(s: Seq<char>) -> usize;

/// Calls `unicode_width::UnicodeWidthStr::width`. Claims only that the
/// width is a function of the string.
#[verifier::external_body]
fn str_width(s: &str) -> (r: usize)
    ensures
        r == spec_str_width(s@),
{
    unicode_width::UnicodeWidthStr::width(s)
}

/// The display width of a list of spans: the sum of their widths.
pub open spec fn spans_width(ss: Seq<SpanView>) -> int
    decreases ss.len(),
{
    if ss.len() == 0 {
        0
    } else {
        spans_width(ss.drop_last()) + spec_str_width(ss.last().0)
    }
}

pub open spec fn max_int(a: int, b: int) -> int {
    if a >= b {
        a
    } else {
        b
    }
}

/// The number of columns: the larger of the header count and the first
/// row's cell count.
pub open spec fn col_count(h: Seq<Seq<SpanView>>, r: Seq<Seq<Seq<SpanView>>>) -> int {
    max_int(h.len() as int, if r.len() > 0 { r[0].len() as int } else { 0 })
}

/// The widest cell of column `i` among the rows that have one.
pub open spec fn rows_max_width(r: Seq<Seq<Seq<SpanView>>>, i: int) -> int
    decreases r.len(),
{
    if r.len() == 0 {
        0
    } else {
        max_int(
            rows_max_width(r.drop_last(), i),
            if i < r.last().len() { spans_width(r.last()[i]) } else { 0 },
        )
    }
}

/// The width of column `i`: its widest header or body cell, at least 3.
pub open spec fn column_width(h: Seq<Seq<SpanView>>, r: Seq<Seq<Seq<SpanView>>>, i: int) -> int {
    let hw = if i < h.len() { spans_width(h[i]) } else { 0 };
    max_int(max_int(hw, rows_max_width(r, i)), 3)
}

/// The rendered alignment of column `i`: centre and right as given, left
/// otherwise.
pub open spec fn column_alignment(a: Seq<Alignment>, i: int) -> TableCellAlignment {
    if 0 <= i < a.len() {
        match a[i] {
            Alignment::Center => TableCellAlignment::Center,
            Alignment::Right => TableCellAlignment::Right,
            _ => TableCellAlignment::Left,
        }
    } else {
        TableCellAlignment::Left
    }
}

/// Column `i`: its styled header (empty when the header row is shorter),
/// its width as the layout's `u16` holds it, its alignment.
pub open spec fn column_of(
    h: Seq<Seq<SpanView>>,
    r: Seq<Seq<Seq<SpanView>>>,
    a: Seq<Alignment>,
    t: MarkdownTheme,
    i: int,
) -> ColumnView {
    (
        if i < h.len() { styled_spans(h[i], t, None) } else { Seq::empty() },
        column_width(h, r, i) as u16,
        column_alignment(a, i),
    )
}

/// The height of a table of `n` body rows (counted as the layout's `u16`):
/// header, rows, header separator, row separators and the two borders.
pub open spec fn table_height(n_rows: nat) -> u16 {
    let n = (n_rows as u16) as int;
    (1 + n + 1 + (if n >= 1 { n - 1 } else { 0 }) + 2) as u16
}

/// Body rows with every cell styled by the theme.
pub open spec fn styled_rows(r: Seq<Seq<Seq<SpanView>>>, t: MarkdownTheme) -> Seq<Seq<Seq<SpanView>>> {
    r.map_values(|row: Seq<Seq<SpanView>>| row.map_values(|cell: Seq<SpanView>| styled_spans(cell, t, None)))
}

/// The table row of a table block; none when it has no column.
pub open spec fn table_of(
    h: Seq<Seq<SpanView>>,
    r: Seq<Seq<Seq<SpanView>>>,
    a: Seq<Alignment>,
    t: MarkdownTheme,
) -> Option<RowView> {
    let cc = col_count(h, r);
    if cc == 0 {
        None
    } else {
        Some(
            RowView::Table {
                columns: Seq::new(cc as nat, |i: int| column_of(h, r, a, t, i)),
                rows: styled_rows(r, t),
                height: table_height(r.len()),
            },
        )
    }
}

/// A table's height fits its `u16`: at most 32766 body rows (counted
/// modulo 2^16).
pub open spec fn table_fits(n_rows: nat) -> bool {
    (n_rows as u16) <= 32766
}

/// The display width of spans, summed without overflow.
fn span_width(spans: &Vec<Span>) -> (r: u128)
    ensures
        r == spans_width(spans_view(spans@)),
{
    let mut sum: u128 = 0;
    let mut i: usize = 0;
    while i < spans.len()
        invariant
            i <= spans.len(),
            sum == spans_width(spans_view(spans@.take(i as int))),
            sum <= i * 0x1_0000_0000_0000_0000,
        decreases spans.len() - i,
    {
        let w = str_width(spans[i].content.as_str());
        proof {
            let t = spans_view(spans@.take(i + 1));
            assert(t.drop_last() =~= spans_view(spans@.take(i as int)));
            assert(t.last() == spans@[i as int]@);
        }
        sum = sum + w as u128;
        i = i + 1;
    }
    assert(spans@.take(spans.len() as int) =~= spans@);
    sum
}

fn column_max_width(rows: &Vec<Vec<Vec<Span>>>, i: usize) -> (r: u128)
    ensures
        r == rows_max_width(table_rows_view(rows@), i as int),
{
    let mut m: u128 = 0;
    let mut j: usize = 0;
    while j < rows.len()
        invariant
            j <= rows.len(),
            m == rows_max_width(table_rows_view(rows@.take(j as int)), i as int),
        decreases rows.len() - j,
    {
        let row = &rows[j];
        let w: u128 = if i < row.len() { span_width(&row[i]) } else { 0 };
        proof {
            let t = table_rows_view(rows@.take(j + 1));
            assert(t.drop_last() =~= table_rows_view(rows@.take(j as int)));
            assert(t.last() == cells_view(rows@[j as int]@));
            if i < row.len() {
                assert(cells_view(row@)[i as int] == spans_view(row@[i as int]@));
            }
        }
        if w > m {
            m = w;
        }
        j = j + 1;
    }
    assert(rows@.take(rows.len() as int) =~= rows@);
    m
}

fn style_cells(row: &Vec<Vec<Span>>, theme: &MarkdownTheme) -> (r: Vec<Vec<Span>>)
    ensures
        cells_view(r@) == row@.map_values(|c: Vec<Span>| styled_spans(spans_view(c@), *theme, None)),
{
    let mut out: Vec<Vec<Span>> = Vec::new();
    let mut i: usize = 0;
    while i < row.len()
        invariant
            i <= row.len(),
            cells_view(out@) == row@.take(i as int).map_values(
                |c: Vec<Span>| styled_spans(spans_view(c@), *theme, None),
            ),
        decreases row.len() - i,
    {
        let ghost prev = out@;
        out.push(style_spans(&row[i], theme, None));
        proof {
            assert(cells_view(out@) =~= cells_view(prev).push(styled_spans(spans_view(row@[i as int]@), *theme, None)));
            assert(row@.take(i + 1).map_values(|c: Vec<Span>| styled_spans(spans_view(c@), *theme, None))
                =~= row@.take(i as int).map_values(|c: Vec<Span>| styled_spans(spans_view(c@), *theme, None)).push(
                styled_spans(spans_view(row@[i as int]@), *theme, None),
            ));
        }
        i = i + 1;
    }
    assert(row@.take(row.len() as int) =~= row@);
    out
}

fn style_rows(rows: &Vec<Vec<Vec<Span>>>, theme: &MarkdownTheme) -> (r: Vec<Vec<Vec<Span>>>)
    ensures
        table_rows_view(r@) == styled_rows(table_rows_view(rows@), *theme),
{
    let mut out: Vec<Vec<Vec<Span>>> = Vec::new();
    let mut j: usize = 0;
    while j < rows.len()
        invariant
            j <= rows.len(),
            table_rows_view(out@) == styled_rows(table_rows_view(rows@.take(j as int)), *theme),
        decreases rows.len() - j,
    {
        let ghost prev = out@;
        let styled = style_cells(&rows[j], theme);
        out.push(styled);
        proof {
            let src = cells_view(rows@[j as int]@);
            assert(cells_view(styled@) =~= src.map_values(|cell: Seq<SpanView>| styled_spans(cell, *theme, None)));
            assert(table_rows_view(out@) =~= table_rows_view(prev).push(cells_view(styled@)));
            assert(table_rows_view(rows@.take(j + 1)) =~= table_rows_view(rows@.take(j as int)).push(src));
            assert(styled_rows(table_rows_view(rows@.take(j + 1)), *theme) =~= styled_rows(
                table_rows_view(rows@.take(j as int)),
                *theme,
            ).push(src.map_values(|cell: Seq<SpanView>| styled_spans(cell, *theme, None))));
        }
        j = j + 1;
    }
    assert(rows@.take(rows.len() as int) =~= rows@);
    out
}

/// The table row of a table block, or `None` when it has no column (the
/// renderer then leaves a blank line).
pub fn table_row(
    headers: &Vec<Vec<Span>>,
    rows: &Vec<Vec<Vec<Span>>>,
    alignments: &Vec<Alignment>,
    theme: &MarkdownTheme,
) -> (r: Option<RenderRow>)
    requires
        table_fits(rows@.len()),
    ensures
        match r {
            Some(row) => table_of(cells_view(headers@), table_rows_view(rows@), alignments@, *theme) == Some(row@),
            None => table_of(cells_view(headers@), table_rows_view(rows@), alignments@, *theme) is None,
        },
{
    let ghost h = cells_view(headers@);
    let ghost rv = table_rows_view(rows@);
    let first_len = if rows.len() > 0 { rows[0].len() } else { 0 };
    let n_cols = if headers.len() >= first_len { headers.len() } else { first_len };
    proof {
        if rows.len() > 0 {
            assert(rv[0].len() == rows@[0]@.len());
        }
    }
    if n_cols == 0 {
        return None;
    }
    let mut columns: Vec<TableColumn> = Vec::new();
    let mut i: usize = 0;
    while i < n_cols
        invariant
            i <= n_cols,
            n_cols == col_count(h, rv),
            h == cells_view(headers@),
            rv == table_rows_view(rows@),
            columns_view(columns@) == Seq::new(i as nat, |k: int| column_of(h, rv, alignments@, *theme, k)),
        decreases n_cols - i,
    {
        let hw: u128 = if i < headers.len() { span_width(&headers[i]) } else { 0 };
        let rw = column_max_width(rows, i);
        let mut w = if hw >= rw { hw } else { rw };
        if w < 3 {
            w = 3;
        }
        let header = if i < headers.len() {
            Line { spans: style_spans(&headers[i], theme, None) }
        } else {
            Line { spans: Vec::new() }
        };
        let alignment = if i < alignments.len() {
            match alignments[i] {
                Alignment::Center => TableCellAlignment::Center,
                Alignment::Right => TableCellAlignment::Right,
                _ => TableCellAlignment::Left,
            }
        } else {
            TableCellAlignment::Left
        };
        let column = TableColumn { header, width: w as u16, alignment };
        proof {
            if i < headers.len() {
                assert(h[i as int] == spans_view(headers@[i as int]@));
            } else {
                assert(column.header@ =~= Seq::<SpanView>::empty());
            }
            assert(column@ == column_of(h, rv, alignments@, *theme, i as int));
        }
        let ghost prev = columns@;
        columns.push(column);
        proof {
            assert(columns_view(columns@) =~= columns_view(prev).push(column@));
            assert(Seq::new((i + 1) as nat, |k: int| column_of(h, rv, alignments@, *theme, k)) =~= Seq::new(
                i as nat,
                |k: int| column_of(h, rv, alignments@, *theme, k),
            ).push(column_of(h, rv, alignments@, *theme, i as int)));
        }
        i = i + 1;
    }
    let n = rows.len() as u16;
    let sep: u16 = if n >= 1 { n - 1 } else { 0 };
    let height = 1 + n + 1 + sep + 2;
    let styled = style_rows(rows, theme);
    let row = RenderRow::Table { columns, rows: styled, height };
    proof {
        assert(row@ == RowView::Table {
            columns: Seq::new(n_cols as nat, |k: int| column_of(h, rv, alignments@, *theme, k)),
            rows: styled_rows(rv, *theme),
            height: table_height(rows@.len()),
        });
    }
    Some(row)
}


/// Each rendered column keeps its Markdown alignment: a centred column is
/// rendered centred, a right-aligned one right-aligned, and only a left,
/// unaligned or missing alignment is rendered left.
pub proof fn law_columns_keep_alignment(
    h: Seq<Seq<SpanView>>,
    r: Seq<Seq<Seq<SpanView>>>,
    a: Seq<Alignment>,
    t: MarkdownTheme,
    i: int,
)
    requires
        table_of(h, r, a, t) is Some,
        0 <= i < col_count(h, r),
    ensures
        table_of(h, r, a, t)->Some_0 matches RowView::Table { columns, .. } && columns.len() == col_count(h, r) && {
            let al = columns[i].2;
            &&& (i < a.len() && a[i] == Alignment::Center) ==> al == TableCellAlignment::Center
            &&& (i < a.len() && a[i] == Alignment::Right) ==> al == TableCellAlignment::Right
            &&& (i >= a.len() || a[i] == Alignment::Left || a[i] == Alignment::Unaligned) ==> al == TableCellAlignment::Left
        },
{
}

} // verus!
