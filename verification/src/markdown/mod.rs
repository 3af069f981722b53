//! Markdown layout: parsed blocks flattened into render rows (text lines,
//! rules, code blocks and tables) with the spacing between blocks, the
//! heading and list prefixes, and the theme's semantic span styles.
pub mod spans;
pub mod table;
pub mod rows;

use vstd::prelude::*;
use crate::rich::{Span, Line, SpanView, spans_view};
use crate::text::strings_view;

verus! {

/// Heading level, as pulldown-cmark's `HeadingLevel`.
#[derive(Debug, Clone, Copy, PartialEq, Eq, Structural)]
pub enum HeadingLevel {
    H1,
    H2,
    H3,
    H4,
    H5,
    H6,
}

/// Column alignment of a table, as pulldown-cmark's `Alignment` (whose
/// `None` is `Unaligned` here).
#[derive(Debug, Clone, Copy, PartialEq, Eq, Structural)]
pub enum Alignment {
    Unaligned,
    Left,
    Center,
    Right,
}

/// Alignment of a rendered table column.
#[derive(Debug, Clone, Copy, PartialEq, Eq, Structural)]
pub enum TableCellAlignment {
    Left,
    Center,
    Right,
}

/// One list item: nesting depth, ordered or not, its number, its text.
#[derive(Debug, Clone)]
pub struct ListItemData {
    pub depth: usize,
    pub ordered: bool,
    pub number: Option<usize>,
    pub spans: Vec<Span>,
}

/// A parsed Markdown block.
#[derive(Debug, Clone)]
pub enum ParsedBlock {
    /// A heading and its text.
    Heading(HeadingLevel, Line),
    /// A paragraph, line by line; an empty paragraph is an explicit blank
    /// line.
    Paragraph(Vec<Line>),
    /// A fenced code block: its language (empty when none) and its lines.
    CodeBlock(String, Vec<String>),
    /// One list item.
    ListItem(ListItemData),
    /// A table: header cells, body rows of cells, column alignments.
    Table(Vec<Vec<Span>>, Vec<Vec<Vec<Span>>>, Vec<Alignment>),
    /// A horizontal rule.
    Rule,
}

/// A list item as the contracts see it.
pub ghost struct ItemView {
    pub depth: usize,
    pub ordered: bool,
    pub number: Option<usize>,
    pub spans: Seq<SpanView>,
}

/// A parsed block as the contracts see it.
pub ghost enum BlockView {
    Heading(HeadingLevel, Seq<SpanView>),
    Paragraph(Seq<Seq<SpanView>>),
    CodeBlock(Seq<char>, Seq<Seq<char>>),
    ListItem(ItemView),
    Table(Seq<Seq<SpanView>>, Seq<Seq<Seq<SpanView>>>, Seq<Alignment>),
    Rule,
}

pub open spec fn line_seq_view(ls: Seq<Line>) -> Seq<Seq<SpanView>> {
    ls.map_values(|l: Line| l@)
}

pub open spec fn cells_view(cs: Seq<Vec<Span>>) -> Seq<Seq<SpanView>> {
    cs.map_values(|c: Vec<Span>| spans_view(c@))
}

pub open spec fn table_rows_view(rs: Seq<Vec<Vec<Span>>>) -> Seq<Seq<Seq<SpanView>>> {
    rs.map_values(|r: Vec<Vec<Span>>| cells_view(r@))
}

impl View for ListItemData {
    type V = ItemView;

    open spec fn view(&self) -> ItemView {
        ItemView { depth: self.depth, ordered: self.ordered, number: self.number, spans: spans_view(self.spans@) }
    }
}

impl View for ParsedBlock {
    type V = BlockView;

    open spec fn view(&self) -> BlockView {
        match self {
            ParsedBlock::Heading(l, line) => BlockView::Heading(*l, line@),
            ParsedBlock::Paragraph(ls) => BlockView::Paragraph(line_seq_view(ls@)),
            ParsedBlock::CodeBlock(lang, lines) => BlockView::CodeBlock(lang@, strings_view(lines@)),
            ParsedBlock::ListItem(item) => BlockView::ListItem(item@),
            ParsedBlock::Table(h, r, a) => BlockView::Table(cells_view(h@), table_rows_view(r@), a@),
            ParsedBlock::Rule => BlockView::Rule,
        }
    }
}

pub open spec fn blocks_view(bs: Seq<ParsedBlock>) -> Seq<BlockView> {
    bs.map_values(|b: ParsedBlock| b@)
}

/// One column of a rendered table.
#[derive(Debug, Clone)]
pub struct TableColumn {
    pub header: Line,
    pub width: u16,
    pub alignment: TableCellAlignment,
}

pub type ColumnView = (Seq<SpanView>, u16, TableCellAlignment);

impl View for TableColumn {
    type V = ColumnView;

    open spec fn view(&self) -> ColumnView {
        (self.header@, self.width, self.alignment)
    }
}

pub open spec fn columns_view(cs: Seq<TableColumn>) -> Seq<ColumnView> {
    cs.map_values(|c: TableColumn| c@)
}

/// One render row: a line of text (height 1), a rule (height 1), a code
/// block (one row per logical line), or a table with its height.
#[derive(Debug, Clone)]
pub enum RenderRow {
    Line(Line),
    Rule,
    Code { lang: Option<String>, lines: Vec<String> },
    Table { columns: Vec<TableColumn>, rows: Vec<Vec<Vec<Span>>>, height: u16 },
}

/// A render row as the contracts see it.
pub ghost enum RowView {
    Line(Seq<SpanView>),
    Rule,
    Code { lang: Option<Seq<char>>, lines: Seq<Seq<char>> },
    Table { columns: Seq<ColumnView>, rows: Seq<Seq<Seq<SpanView>>>, height: u16 },
}

impl View for RenderRow {
    type V = RowView;

    open spec fn view(&self) -> RowView {
        match self {
            RenderRow::Line(l) => RowView::Line(l@),
            RenderRow::Rule => RowView::Rule,
            RenderRow::Code { lang, lines } => RowView::Code {
                lang: match lang {
                    Some(s) => Some(s@),
                    None => None,
                },
                lines: strings_view(lines@),
            },
            RenderRow::Table { columns, rows, height } => RowView::Table {
                columns: columns_view(columns@),
                rows: table_rows_view(rows@),
                height: *height,
            },
        }
    }
}

pub open spec fn rows_view(rs: Seq<RenderRow>) -> Seq<RowView> {
    rs.map_values(|r: RenderRow| r@)
}

/// The height of a row in terminal lines (a code block's line count taken
/// modulo 2^16, as the layout's `u16` holds it).
pub open spec fn row_height(r: RowView) -> u16 {
    match r {
        RowView::Line(_) => 1,
        RowView::Rule => 1,
        RowView::Code { lines, .. } => lines.len() as u16,
        RowView::Table { height, .. } => height,
    }
}

impl RenderRow {
    /// The row's height in terminal lines.
    pub fn height(&self) -> (r: u16)
        ensures
            r == row_height(self@),
    {
        match self {
            RenderRow::Line(_) => 1,
            RenderRow::Rule => 1,
            RenderRow::Code { lines, .. } => lines.len() as u16,
            RenderRow::Table { height, .. } => *height,
        }
    }
}

/// The total height of rows: the sum of their heights, saturating at the
/// largest `u16`.
pub open spec fn total_height(rs: Seq<RowView>) -> u16
    decreases rs.len(),
{
    if rs.len() == 0 {
        0
    } else {
        let h = total_height(rs.drop_last()) + row_height(rs.last());
        if h > u16::MAX {
            u16::MAX
        } else {
            h as u16
        }
    }
}

/// The total height of rows, saturating: the content height a scroll view
/// needs for them.
pub fn rows_height(rows: &Vec<RenderRow>) -> (r: u16)
    ensures
        r == total_height(rows_view(rows@)),
{
    let mut total: u16 = 0;
    let mut i: usize = 0;
    while i < rows.len()
        invariant
            i <= rows.len(),
            total == total_height(rows_view(rows@.take(i as int))),
        decreases rows.len() - i,
    {
        total = total.saturating_add(rows[i].height());
        proof {
            let t = rows_view(rows@.take(i + 1));
            assert(t.drop_last() =~= rows_view(rows@.take(i as int)));
            assert(t.last() == rows@[i as int]@);
        }
        i = i + 1;
    }
    proof {
        assert(rows@.take(rows.len() as int) =~= rows@);
    }
    total
}

} // verus!
