//! Markdown blocks flattened into render rows, with the blank rows that
//! separate them.
use vstd::prelude::*;
use crate::theme::MarkdownTheme;
use crate::rich::{Line, SpanView};
use crate::text::strings_view;
use crate::style::{Style, empty_style};
use crate::markdown::{ParsedBlock, BlockView, RenderRow, RowView, ColumnView, Alignment, blocks_view, rows_view, line_seq_view};
use crate::markdown::spans::{heading_spans, item_spans, item_prefix, repeated, styled_spans, level_num, heading_line, heading_level_num, list_item_line, style_line};
use crate::markdown::table::{table_of, table_fits, table_row, col_count, column_of, styled_rows};

verus! {

/// A blank row.
pub open spec fn blank_row() -> RowView {
    RowView::Line(Seq::empty())
}

/// Headings, code blocks, tables and rules are major blocks.
pub open spec fn is_major(b: BlockView) -> bool {
    ||| b is Heading
    ||| b is CodeBlock
    ||| b is Table
    ||| b is Rule
}

/// A paragraph with at least one line.
pub open spec fn is_real_para(b: BlockView) -> bool {
    b matches BlockView::Paragraph(ls) && ls.len() > 0
}

/// The rows of a paragraph's lines.
pub open spec fn paragraph_rows(ls: Seq<Seq<SpanView>>, t: MarkdownTheme) -> Seq<RowView> {
    ls.map_values(|l: Seq<SpanView>| RowView::Line(styled_spans(l, t, None)))
}

/// The rows of one block, and whether they end with a blank row of their
/// own: a heading line and a blank row; a paragraph's lines (an empty
/// paragraph is one blank row); a code block between blank rows; a list
/// item's line; a table (a blank row when it has no column); a rule.
pub open spec fn block_rows(b: BlockView, t: MarkdownTheme) -> (Seq<RowView>, bool) {
    match b {
        BlockView::Heading(l, line) => (seq![RowView::Line(heading_spans(level_num(l), line, t)), blank_row()], true),
        BlockView::Paragraph(ls) => {
            if ls.len() == 0 {
                (seq![blank_row()], false)
            } else {
                (paragraph_rows(ls, t), false)
            }
        },
        BlockView::CodeBlock(lang, lines) => (
            seq![
                blank_row(),
                RowView::Code { lang: if lang.len() == 0 { None } else { Some(lang) }, lines: lines },
                blank_row(),
            ],
            true,
        ),
        BlockView::ListItem(item) => (seq![RowView::Line(item_spans(item, t))], false),
        BlockView::Table(h, r, a) => (
            seq![
                match table_of(h, r, a, t) {
                    Some(x) => x,
                    None => blank_row(),
                },
            ],
            false,
        ),
        BlockView::Rule => (seq![RowView::Rule], false),
    }
}

/// The rows so far and what the last block was.
pub ghost struct RowState {
    pub rows: Seq<RowView>,
    pub trailing: bool,
    pub major: bool,
    pub real_para: bool,
}

/// One block added to the rows: a blank row first between two major blocks
/// (unless the first already ended with one) and between two real
/// paragraphs, then the block's rows.
pub open spec fn step(st: RowState, b: BlockView, t: MarkdownTheme) -> RowState {
    let gap1: Seq<RowView> = if !st.trailing && st.major && is_major(b) { seq![blank_row()] } else { Seq::empty() };
    let gap2: Seq<RowView> = if is_real_para(b) && st.real_para { seq![blank_row()] } else { Seq::empty() };
    RowState {
        rows: st.rows + gap1 + gap2 + block_rows(b, t).0,
        trailing: block_rows(b, t).1,
        major: is_major(b),
        real_para: is_real_para(b),
    }
}

pub open spec fn rows_state(bs: Seq<BlockView>, t: MarkdownTheme) -> RowState
    decreases bs.len(),
{
    if bs.len() == 0 {
        RowState { rows: Seq::empty(), trailing: false, major: false, real_para: false }
    } else {
        step(rows_state(bs.drop_last(), t), bs.last(), t)
    }
}

/// The render rows of a document.
pub open spec fn rendered_rows(bs: Seq<BlockView>, t: MarkdownTheme) -> Seq<RowView> {
    rows_state(bs, t).rows
}

/// Every table of the document fits the layout's height.
pub open spec fn tables_fit(bs: Seq<BlockView>) -> bool {
    forall|i: int| 0 <= i < bs.len() ==> (#[trigger] bs[i] matches BlockView::Table(_, r, _) ==> table_fits(r.len()))
}

fn push_row(rows: &mut Vec<RenderRow>, r: RenderRow)
    ensures
        rows_view(final(rows)@) == rows_view(old(rows)@).push(r@),
{
    let ghost prev = rows@;
    rows.push(r);
    assert(rows_view(rows@) =~= rows_view(prev).push(r@));
}

fn blank() -> (r: RenderRow)
    ensures
        r@ == blank_row(),
{
    let r = RenderRow::Line(Line { spans: Vec::new() });
    assert(r@ == blank_row()) by {
        assert(crate::rich::spans_view(Seq::<crate::rich::Span>::empty()) =~= Seq::<SpanView>::empty());
    }
    r
}

fn copy_lines(v: &Vec<String>) -> (r: Vec<String>)
    ensures
        strings_view(r@) == strings_view(v@),
{
    let mut out: Vec<String> = Vec::new();
    let mut i: usize = 0;
    while i < v.len()
        invariant
            i <= v.len(),
            strings_view(out@) == strings_view(v@.take(i as int)),
        decreases v.len() - i,
    {
        let ghost prev = out@;
        out.push(v[i].clone());
        proof {
            assert(strings_view(out@) =~= strings_view(prev).push(v@[i as int]@));
            assert(strings_view(v@.take(i + 1)) =~= strings_view(v@.take(i as int)).push(v@[i as int]@));
        }
        i = i + 1;
    }
    assert(v@.take(v.len() as int) =~= v@);
    out
}

/// Appends the rows of one block.
fn push_block_rows(rows: &mut Vec<RenderRow>, block: &ParsedBlock, theme: &MarkdownTheme) -> (trailing: bool)
    requires
        block@ matches BlockView::Table(_, r, _) ==> table_fits(r.len()),
    ensures
        rows_view(final(rows)@) == rows_view(old(rows)@) + block_rows(block@, *theme).0,
        trailing == block_rows(block@, *theme).1,
{
    let ghost start = rows_view(rows@);
    match block {
        ParsedBlock::Heading(level, line) => {
            push_row(rows, RenderRow::Line(heading_line(heading_level_num(*level), line, theme)));
            push_row(rows, blank());
            assert(rows_view(rows@) =~= start + block_rows(block@, *theme).0);
            true
        },
        ParsedBlock::Paragraph(lines) => {
            if lines.len() == 0 {
                push_row(rows, blank());
                assert(rows_view(rows@) =~= start + block_rows(block@, *theme).0);
            } else {
                let ghost ls = line_seq_view(lines@);
                let mut i: usize = 0;
                while i < lines.len()
                    invariant
                        i <= lines.len(),
                        ls == line_seq_view(lines@),
                        rows_view(rows@) == start + paragraph_rows(ls.take(i as int), *theme),
                    decreases lines.len() - i,
                {
                    push_row(rows, RenderRow::Line(style_line(&lines[i], theme)));
                    proof {
                        assert(ls[i as int] == lines@[i as int]@);
                        assert(paragraph_rows(ls.take(i + 1), *theme) =~= paragraph_rows(ls.take(i as int), *theme).push(
                            RowView::Line(styled_spans(ls[i as int], *theme, None)),
                        ));
                    }
                    i = i + 1;
                }
                assert(ls.take(lines.len() as int) =~= ls);
            }
            false
        },
        ParsedBlock::CodeBlock(lang, code_lines) => {
            push_row(rows, blank());
            let lang_opt = if lang.as_str().unicode_len() == 0 {
                None
            } else {
                Some(lang.clone())
            };
            push_row(rows, RenderRow::Code { lang: lang_opt, lines: copy_lines(code_lines) });
            push_row(rows, blank());
            assert(rows_view(rows@) =~= start + block_rows(block@, *theme).0);
            true
        },
        ParsedBlock::ListItem(item) => {
            push_row(rows, RenderRow::Line(list_item_line(item, theme)));
            assert(rows_view(rows@) =~= start + block_rows(block@, *theme).0);
            false
        },
        ParsedBlock::Table(headers, table_rows, alignments) => {
            match table_row(headers, table_rows, alignments, theme) {
                Some(row) => push_row(rows, row),
                None => push_row(rows, blank()),
            }
            assert(rows_view(rows@) =~= start + block_rows(block@, *theme).0);
            false
        },
        ParsedBlock::Rule => {
            push_row(rows, RenderRow::Rule);
            assert(rows_view(rows@) =~= start + block_rows(block@, *theme).0);
            false
        },
    }
}

/// Flattens parsed blocks into render rows, with every blank row of
/// spacing: between adjacent major blocks (unless the first already ends
/// with one) and between adjacent non-empty paragraphs.
pub fn render_rows_with_theme(blocks: &Vec<ParsedBlock>, theme: &MarkdownTheme) -> (r: Vec<RenderRow>)
    requires
        tables_fit(blocks_view(blocks@)),
    ensures
        rows_view(r@) == rendered_rows(blocks_view(blocks@), *theme),
{
    let ghost bv = blocks_view(blocks@);
    let mut rows: Vec<RenderRow> = Vec::new();
    let mut prev_added_trailing = false;
    let mut prev_was_major = false;
    let mut prev_was_real_para = false;
    let mut i: usize = 0;
    while i < blocks.len()
        invariant
            i <= blocks.len(),
            bv == blocks_view(blocks@),
            tables_fit(bv),
            ({
                let st = rows_state(bv.take(i as int), *theme);
                &&& rows_view(rows@) == st.rows
                &&& prev_added_trailing == st.trailing
                &&& prev_was_major == st.major
                &&& prev_was_real_para == st.real_para
            }),
        decreases blocks.len() - i,
    {
        let block = &blocks[i];
        let ghost b = block@;
        proof {
            assert(bv[i as int] == b);
            assert(bv.take(i + 1).drop_last() =~= bv.take(i as int));
            assert(bv.take(i + 1).last() == b);
        }
        let is_major = match block {
            ParsedBlock::Heading(..) | ParsedBlock::CodeBlock(..) | ParsedBlock::Table(..) | ParsedBlock::Rule => true,
            _ => false,
        };
        if !prev_added_trailing && prev_was_major && is_major {
            push_row(&mut rows, blank());
        }
        let is_real_para = match block {
            ParsedBlock::Paragraph(lines) => lines.len() > 0,
            _ => false,
        };
        if is_real_para && prev_was_real_para {
            push_row(&mut rows, blank());
        }
        let trailing = push_block_rows(&mut rows, block, theme);
        prev_added_trailing = trailing;
        prev_was_major = is_major;
        prev_was_real_para = is_real_para;
        proof {
            let st = rows_state(bv.take(i as int), *theme);
            assert(rows_view(rows@) =~= step(st, b, *theme).rows);
        }
        i = i + 1;
    }
    proof {
        assert(bv.take(blocks.len() as int) =~= bv);
    }
    rows
}

/// Two non-empty paragraphs in a row are separated by exactly one blank
/// row: the second paragraph adds a blank row, then its lines.
pub proof fn law_paragraphs_are_separated(bs: Seq<BlockView>, b: BlockView, t: MarkdownTheme)
    requires
        bs.len() > 0,
        is_real_para(bs.last()),
        is_real_para(b),
    ensures
        ({
            let ls = match b {
                BlockView::Paragraph(ls) => ls,
                _ => Seq::empty(),
            };
            rendered_rows(bs.push(b), t) == rendered_rows(bs, t) + seq![blank_row()] + paragraph_rows(ls, t)
        }),
{
    assert(bs.push(b).drop_last() =~= bs);
    let st = rows_state(bs, t);
    assert(st.real_para);
    assert(!st.major);
    let ls = match b {
        BlockView::Paragraph(ls) => ls,
        _ => Seq::empty(),
    };
    assert(rendered_rows(bs.push(b), t) =~= rendered_rows(bs, t) + seq![blank_row()] + paragraph_rows(ls, t));
}

/// Every block leaves its own rows: the rows of a document extend the rows
/// of any prefix of it (rendering is incremental, block by block).
pub proof fn law_rows_extend_prefix(bs: Seq<BlockView>, b: BlockView, t: MarkdownTheme)
    ensures
        rendered_rows(bs, t).is_prefix_of(rendered_rows(bs.push(b), t)),
{
    assert(bs.push(b).drop_last() =~= bs);
    let st = rows_state(bs, t);
    let next = step(st, b, t);
    assert(next.rows.subrange(0, st.rows.len() as int) =~= st.rows);
}


/// Spans with their texts kept and their styles dropped.
pub open spec fn unstyled(ss: Seq<SpanView>) -> Seq<SpanView> {
    ss.map_values(|s: SpanView| (s.0, empty_style()))
}

/// A row with every span's style dropped: its kind, texts, code, table
/// column widths and alignments, and height stay.
pub open spec fn row_unstyled(r: RowView) -> RowView {
    match r {
        RowView::Line(ss) => RowView::Line(unstyled(ss)),
        RowView::Rule => RowView::Rule,
        RowView::Code { lang, lines } => RowView::Code { lang, lines },
        RowView::Table { columns, rows, height } => RowView::Table {
            columns: columns.map_values(|c: ColumnView| (unstyled(c.0), c.1, c.2)),
            rows: rows.map_values(|row: Seq<Seq<SpanView>>| row.map_values(|cell: Seq<SpanView>| unstyled(cell))),
            height,
        },
    }
}

pub open spec fn rows_unstyled(rs: Seq<RowView>) -> Seq<RowView> {
    rs.map_values(|r: RowView| row_unstyled(r))
}

proof fn lemma_styled_texts(ss: Seq<SpanView>, t1: MarkdownTheme, b1: Option<Style>, t2: MarkdownTheme, b2: Option<Style>)
    ensures
        unstyled(styled_spans(ss, t1, b1)) == unstyled(styled_spans(ss, t2, b2)),
{
    assert(unstyled(styled_spans(ss, t1, b1)) =~= unstyled(styled_spans(ss, t2, b2)));
}

proof fn lemma_table_texts(
    h: Seq<Seq<SpanView>>,
    r: Seq<Seq<Seq<SpanView>>>,
    a: Seq<Alignment>,
    t1: MarkdownTheme,
    t2: MarkdownTheme,
)
    requires
        table_of(h, r, a, t1) is Some,
    ensures
        table_of(h, r, a, t2) is Some,
        row_unstyled(table_of(h, r, a, t1)->Some_0) == row_unstyled(table_of(h, r, a, t2)->Some_0),
{
    let cc = col_count(h, r);
    let c1 = Seq::new(cc as nat, |i: int| column_of(h, r, a, t1, i));
    let c2 = Seq::new(cc as nat, |i: int| column_of(h, r, a, t2, i));
    assert forall|i: int| 0 <= i < cc implies (unstyled(#[trigger] c1[i].0), c1[i].1, c1[i].2) == (unstyled(c2[i].0), c2[i].1, c2[i].2) by {
        if i < h.len() {
            lemma_styled_texts(h[i], t1, None, t2, None);
        } else {
            assert(unstyled(c1[i].0) =~= unstyled(c2[i].0));
        }
    }
    assert(c1.map_values(|c: ColumnView| (unstyled(c.0), c.1, c.2)) =~= c2.map_values(|c: ColumnView| (unstyled(c.0), c.1, c.2)));
    let r1 = styled_rows(r, t1);
    let r2 = styled_rows(r, t2);
    assert forall|x: int| 0 <= x < r.len() implies (#[trigger] r1[x]).map_values(|cell: Seq<SpanView>| unstyled(cell))
        == r2[x].map_values(|cell: Seq<SpanView>| unstyled(cell)) by {
        assert forall|y: int| 0 <= y < r[x].len() implies unstyled(#[trigger] r1[x][y]) == unstyled(r2[x][y]) by {
            lemma_styled_texts(r[x][y], t1, None, t2, None);
        }
        assert(r1[x].map_values(|cell: Seq<SpanView>| unstyled(cell)) =~= r2[x].map_values(|cell: Seq<SpanView>| unstyled(cell)));
    }
    assert(r1.map_values(|row: Seq<Seq<SpanView>>| row.map_values(|cell: Seq<SpanView>| unstyled(cell))) =~= r2.map_values(
        |row: Seq<Seq<SpanView>>| row.map_values(|cell: Seq<SpanView>| unstyled(cell)),
    ));
}

proof fn lemma_block_texts(b: BlockView, t1: MarkdownTheme, t2: MarkdownTheme)
    ensures
        rows_unstyled(block_rows(b, t1).0) == rows_unstyled(block_rows(b, t2).0),
        block_rows(b, t1).1 == block_rows(b, t2).1,
{
    match b {
        BlockView::Heading(l, line) => {
            lemma_styled_texts(line, t1, Some(t1.heading_style), t2, Some(t2.heading_style));
            let n = level_num(l);
            assert(unstyled(heading_spans(n, line, t1)) =~= unstyled(heading_spans(n, line, t2))) by {
                let p1 = seq![(repeated('#', n), t1.heading_marker_style), (seq![' '], empty_style())];
                let p2 = seq![(repeated('#', n), t2.heading_marker_style), (seq![' '], empty_style())];
                assert(unstyled(p1 + styled_spans(line, t1, Some(t1.heading_style))) =~= unstyled(p1) + unstyled(styled_spans(line, t1, Some(t1.heading_style))));
                assert(unstyled(p2 + styled_spans(line, t2, Some(t2.heading_style))) =~= unstyled(p2) + unstyled(styled_spans(line, t2, Some(t2.heading_style))));
                assert(unstyled(p1) =~= unstyled(p2));
            }
            assert(rows_unstyled(block_rows(b, t1).0) =~= rows_unstyled(block_rows(b, t2).0));
        },
        BlockView::Paragraph(ls) => {
            if ls.len() > 0 {
                assert forall|i: int| 0 <= i < ls.len() implies row_unstyled(#[trigger] paragraph_rows(ls, t1)[i])
                    == row_unstyled(paragraph_rows(ls, t2)[i]) by {
                    lemma_styled_texts(ls[i], t1, None, t2, None);
                }
            }
            assert(rows_unstyled(block_rows(b, t1).0) =~= rows_unstyled(block_rows(b, t2).0));
        },
        BlockView::CodeBlock(lang, lines) => {
            assert(rows_unstyled(block_rows(b, t1).0) =~= rows_unstyled(block_rows(b, t2).0));
        },
        BlockView::ListItem(item) => {
            lemma_styled_texts(item.spans, t1, None, t2, None);
            let p1 = seq![(item_prefix(item), t1.list_marker_style)];
            let p2 = seq![(item_prefix(item), t2.list_marker_style)];
            assert(unstyled(item_spans(item, t1)) =~= unstyled(p1) + unstyled(styled_spans(item.spans, t1, None)));
            assert(unstyled(item_spans(item, t2)) =~= unstyled(p2) + unstyled(styled_spans(item.spans, t2, None)));
            assert(unstyled(p1) =~= unstyled(p2));
            assert(rows_unstyled(block_rows(b, t1).0) =~= rows_unstyled(block_rows(b, t2).0));
        },
        BlockView::Table(h, r, a) => {
            if table_of(h, r, a, t1) is Some {
                lemma_table_texts(h, r, a, t1, t2);
            } else {
                if table_of(h, r, a, t2) is Some {
                    lemma_table_texts(h, r, a, t2, t1);
                }
            }
            assert(rows_unstyled(block_rows(b, t1).0) =~= rows_unstyled(block_rows(b, t2).0));
        },
        BlockView::Rule => {
            assert(rows_unstyled(block_rows(b, t1).0) =~= rows_unstyled(block_rows(b, t2).0));
        },
    }
}

/// A theme decides styles only: the same blocks rendered with two themes
/// give the same rows, of the same kinds, texts, code, table column widths
/// and alignments, and heights; only the styles of their spans differ.
pub proof fn law_theme_changes_only_styles(bs: Seq<BlockView>, t1: MarkdownTheme, t2: MarkdownTheme)
    ensures
        rendered_rows(bs, t1).len() == rendered_rows(bs, t2).len(),
        rows_unstyled(rendered_rows(bs, t1)) == rows_unstyled(rendered_rows(bs, t2)),
        rows_state(bs, t1).trailing == rows_state(bs, t2).trailing,
        rows_state(bs, t1).major == rows_state(bs, t2).major,
        rows_state(bs, t1).real_para == rows_state(bs, t2).real_para,
    decreases bs.len(),
{
    if bs.len() > 0 {
        let prev = bs.drop_last();
        let b = bs.last();
        law_theme_changes_only_styles(prev, t1, t2);
        lemma_block_texts(b, t1, t2);
        let s1 = rows_state(prev, t1);
        let s2 = rows_state(prev, t2);
        let gap1: Seq<RowView> = if !s1.trailing && s1.major && is_major(b) { seq![blank_row()] } else { Seq::empty() };
        let gap2: Seq<RowView> = if is_real_para(b) && s1.real_para { seq![blank_row()] } else { Seq::empty() };
        let b1 = block_rows(b, t1).0;
        let b2 = block_rows(b, t2).0;
        assert(rows_unstyled(s1.rows + gap1 + gap2 + b1) =~= rows_unstyled(s1.rows) + rows_unstyled(gap1) + rows_unstyled(gap2) + rows_unstyled(b1));
        assert(rows_unstyled(s2.rows + gap1 + gap2 + b2) =~= rows_unstyled(s2.rows) + rows_unstyled(gap1) + rows_unstyled(gap2) + rows_unstyled(b2));
        assert(rows_unstyled(b1).len() == b1.len());
        assert(rows_unstyled(b2).len() == b2.len());
        assert(rows_unstyled(s1.rows).len() == s1.rows.len());
        assert(rows_unstyled(s2.rows).len() == s2.rows.len());
    }
}

} // verus!
