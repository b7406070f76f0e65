//! The table grammar: `{|` ... `|}` with captions, rows and cells.
//!
//! A table is read line by line. `TableState` is what has been read so far:
//! the finished rows, the row that is being filled and the cell whose
//! content may still go on; `table_line` says what one line does to it.

use crate::ast::blocks::{
    block_view, blocks_view, caption_view, cell_view, cells_view, row_view, rows_view, BlockKind,
    BlockKindView, BlockNode, BlockNodeView, Table, TableCaption, TableCaptionView, TableCell,
    TableCellKind, TableCellView, TableRow, TableRowView, TableView,
};
use crate::ast::bounds::{
    attrs_within, block_within, blocks_within, cell_within, cells_within, inlines_within,
    lemma_inlines_within_longer, row_within, rows_within,
};
use crate::ast::diagnostic::{
    diagnostics_view, strings_view, Diagnostic, DiagnosticPhase, DiagnosticView, Severity,
};
use crate::ast::nodes::{attrs_view, inlines_view, HtmlAttr, HtmlAttrView};
use crate::parse::attrs::{attrs_from, parse_attrs};
use crate::parse::blocks::{line_ok, line_span, table_start, is_table_start};
use crate::parse::code::attr_is;
use crate::parse::inline::{
    diags_grow, inlines, lemma_concat_assoc, lit, mk_span, parse_inlines_in, push_diag, span_at,
    trim, trim_range, MAX_INLINE_DEPTH,
};
use crate::parse::util::{
    cr_end, lines_of, lines_wf, nest, nest_step, ranges_view, ranges_within, split_ranges,
    split_top, strip_cr_end, LineRange,
};
use crate::text::{
    byte_at, decimal_u32, eq_ci, find_byte, first_byte, is_byte, matches_at, parse_u32, push_range,
    skip_ws, starts_with, text, text_of, trim_start, BANG, DQUOTE, EQ, NL, PIPE, QUOTE,
};
use vstd::prelude::*;
use vstd::string::*;
use vstd::utf8::encode_utf8;

verus! {

/// A cell whose content may go on over the following lines.
pub struct CellDraft {
    pub kind: TableCellKind,
    pub start: int,
    pub end: int,
    pub attrs: Seq<HtmlAttrView>,
    pub rowspan: Option<u32>,
    pub colspan: Option<u32>,
    /// Where the content starts in the source.
    pub content_start: int,
    /// The content: the lines gathered so far, joined by newlines.
    pub content: Seq<u8>,
}

/// A row that is being filled.
pub struct RowDraft {
    pub start: int,
    pub end: int,
    pub attrs: Seq<HtmlAttrView>,
    pub cells: Seq<TableCellView>,
}

/// What has been read of a table.
pub struct TableState {
    pub attrs: Seq<HtmlAttrView>,
    pub caption: Option<TableCaptionView>,
    pub rows: Seq<TableRowView>,
    pub row: Option<RowDraft>,
    pub cell: Option<CellDraft>,
    /// How many `{|` are open, this table's included.
    pub depth: int,
    /// Where the table ends.
    pub end: int,
}

/// The blocks that a cell's content gives: one paragraph with the content
/// parsed as inline content, or nothing where the content is blank. Spans
/// are positions in `content` shifted by `abs_start`.
pub open spec fn cell_blocks(content: Seq<u8>, abs_start: int) -> (
    Seq<BlockNodeView>,
    Seq<DiagnosticView>,
) {
    let t = trim_range(content, 0, content.len() as int);
    if t.0 >= t.1 {
        (Seq::empty(), Seq::empty())
    } else {
        let inl = inlines(content, t.0, t.1, abs_start, MAX_INLINE_DEPTH as nat);
        (
            seq![
                BlockNodeView {
                    span: span_at(abs_start, t.0, t.1),
                    kind: BlockKindView::Paragraph { content: inl.nodes },
                },
            ],
            inl.diags,
        )
    }
}

/// The row with one more cell; a new row that spans the cell where there
/// was none.
pub open spec fn row_with(row: Option<RowDraft>, cell: TableCellView, start: int, end: int)
    -> RowDraft {
    match row {
        Some(r) => RowDraft {
            start: r.start,
            end: if r.end >= end {
                r.end
            } else {
                end
            },
            attrs: r.attrs,
            cells: r.cells.push(cell),
        },
        None => RowDraft { start, end, attrs: Seq::empty(), cells: seq![cell] },
    }
}

pub open spec fn draft_cell(c: CellDraft, blocks: Seq<BlockNodeView>) -> TableCellView {
    TableCellView {
        span: span_at(0, c.start, c.end),
        kind: c.kind,
        attrs: c.attrs,
        colspan: c.colspan,
        rowspan: c.rowspan,
        blocks,
    }
}

/// The state with its open cell, if any, closed into the row.
pub open spec fn cell_finished(st: TableState) -> (TableState, Seq<DiagnosticView>) {
    match st.cell {
        Some(c) => {
            let b = cell_blocks(c.content, c.content_start);
            (
                TableState {
                    row: Some(row_with(st.row, draft_cell(c, b.0), c.start, c.end)),
                    cell: None,
                    ..st
                },
                b.1,
            )
        },
        None => (st, Seq::empty()),
    }
}

/// The state with its row, if any, closed into the table.
pub open spec fn row_finished(st: TableState) -> TableState {
    match st.row {
        Some(r) => TableState {
            rows: st.rows.push(
                TableRowView { span: span_at(0, r.start, r.end), attrs: r.attrs, cells: r.cells },
            ),
            row: None,
            ..st
        },
        None => st,
    }
}

/// The state with the line appended to the open cell, if there is one.
pub open spec fn with_line(st: TableState, raw: Seq<u8>, end: int) -> TableState {
    match st.cell {
        Some(c) => TableState {
            cell: Some(
                CellDraft {
                    content: if c.content.len() > 0 {
                        c.content + seq![NL] + raw
                    } else {
                        raw
                    },
                    end,
                    ..c
                },
            ),
            ..st
        },
        None => st,
    }
}

/// The position of the first `|` of `[i, hi)` that stands outside quotes and
/// outside every `{{...}}` and `[[...]]`.
pub open spec fn attr_sep_from(
    s: Seq<u8>,
    i: int,
    hi: int,
    tpl: nat,
    link: nat,
    quote: Option<u8>,
) -> Option<int>
    decreases hi - i,
{
    if !(0 <= i < hi <= s.len()) {
        None
    } else {
        match nest_step(s, i, hi, tpl, link) {
            Some((j, t, l)) => attr_sep_from(s, j, hi, t, l, quote),
            None => if s[i] == DQUOTE || s[i] == QUOTE {
                attr_sep_from(
                    s,
                    i + 1,
                    hi,
                    tpl,
                    link,
                    match quote {
                        Some(q) => if q == s[i] {
                            None
                        } else {
                            quote
                        },
                        None => Some(s[i]),
                    },
                )
            } else if quote is None && tpl == 0 && link == 0 && s[i] == PIPE {
                Some(i)
            } else {
                attr_sep_from(s, i + 1, hi, tpl, link, quote)
            },
        }
    }
}

/// Where a segment's attributes end: at its first top-level unquoted `|`,
/// if an `=` stands before it.
pub open spec fn attr_sep(s: Seq<u8>, lo: int, hi: int) -> Option<int> {
    match attr_sep_from(s, lo, hi, 0, 0, None) {
        Some(p) => if first_byte(s, lo, p, EQ) is Some {
            Some(p)
        } else {
            None
        },
        None => None,
    }
}

/// A segment's attributes and where its content starts.
pub open spec fn split_attrs(s: Seq<u8>, lo: int, hi: int) -> (Seq<HtmlAttrView>, int) {
    match attr_sep(s, lo, hi) {
        Some(p) => (
            attrs_from(s, trim_range(s, lo, p).0, trim_range(s, lo, p).1),
            trim_start(s, p + 1, hi),
        ),
        None => (Seq::empty(), trim_start(s, lo, hi)),
    }
}

/// The number that the last well-formed attribute named `name` gives.
pub open spec fn span_attr(attrs: Seq<HtmlAttrView>, name: Seq<u8>, k: int, acc: Option<u32>)
    -> Option<u32>
    decreases attrs.len() - k,
{
    if k < 0 || k >= attrs.len() {
        acc
    } else {
        let v = match attrs[k].value {
            Some(v) => decimal_u32(encode_utf8(v), 0, encode_utf8(v).len() as int),
            None => None,
        };
        span_attr(
            attrs,
            name,
            k + 1,
            if attr_is(attrs[k], name) && v is Some {
                v
            } else {
                acc
            },
        )
    }
}

/// What the cells of one line do to the state: every segment but the last is
/// a finished cell, the last stays open.
pub open spec fn cells_from(
    s: Seq<u8>,
    segs: Seq<(int, int)>,
    k: int,
    kind: TableCellKind,
    st: TableState,
) -> (TableState, Seq<DiagnosticView>)
    decreases segs.len() - k,
{
    if k < 0 || k >= segs.len() {
        (st, Seq::empty())
    } else {
        let sp = split_attrs(s, segs[k].0, segs[k].1);
        let draft = CellDraft {
            kind,
            start: segs[k].0,
            end: segs[k].1,
            attrs: sp.0,
            rowspan: span_attr(sp.0, lit("rowspan"), 0, None),
            colspan: span_attr(sp.0, lit("colspan"), 0, None),
            content_start: sp.1,
            content: s.subrange(sp.1, segs[k].1),
        };
        if k + 1 == segs.len() {
            (TableState { cell: Some(draft), ..st }, Seq::empty())
        } else {
            let b = cell_blocks(draft.content, draft.content_start);
            let rest = cells_from(
                s,
                segs,
                k + 1,
                kind,
                TableState {
                    row: Some(row_with(st.row, draft_cell(draft, b.0), draft.start, draft.end)),
                    ..st
                },
            );
            (rest.0, b.1 + rest.1)
        }
    }
}

pub open spec fn unexpected_line(s: Seq<u8>, line: LineRange) -> DiagnosticView {
    DiagnosticView {
        severity: Severity::Warning,
        phase: Some(DiagnosticPhase::Parse),
        code: Some("wikitext.table.unexpected_line"@),
        message: "Unexpected line inside table"@,
        span: Some(line_span(line)),
        notes: seq![text(s, line.start as int, cr_end(s, line.start as int, line.end as int))],
    }
}

/// What one line inside a table does: the state after it, the diagnostics,
/// and whether the line closed the table.
#[verifier::opaque]
pub open spec fn table_line(s: Seq<u8>, line: LineRange, st: TableState) -> (
    TableState,
    Seq<DiagnosticView>,
    bool,
) {
    let te = cr_end(s, line.start as int, line.end as int);
    let t0 = trim_start(s, line.start as int, te);
    let raw = s.subrange(line.start as int, te);
    if matches_at(s, t0, te, lit("{|")) {
        (TableState { depth: st.depth + 1, ..with_line(st, raw, line.end as int) }, Seq::empty(), false)
    } else if matches_at(s, t0, te, lit("|}")) {
        if st.depth <= 1 {
            let fc = cell_finished(st);
            (TableState { end: line.end as int, ..row_finished(fc.0) }, fc.1, true)
        } else {
            (
                TableState { depth: st.depth - 1, ..with_line(st, raw, line.end as int) },
                Seq::empty(),
                false,
            )
        }
    } else if st.depth > 1 {
        (with_line(st, raw, line.end as int), Seq::empty(), false)
    } else if matches_at(s, t0, te, lit("|+")) {
        let fc = cell_finished(st);
        let sp = split_attrs(s, t0 + 2, te);
        let inl = inlines(s, sp.1, te, 0, MAX_INLINE_DEPTH as nat);
        (
            TableState {
                caption: Some(
                    TableCaptionView { span: line_span(line), attrs: sp.0, content: inl.nodes },
                ),
                ..row_finished(fc.0)
            },
            fc.1 + inl.diags,
            false,
        )
    } else if matches_at(s, t0, te, lit("|-")) {
        let fc = cell_finished(st);
        (
            TableState {
                row: Some(
                    RowDraft {
                        start: t0,
                        end: line.end as int,
                        attrs: attrs_from(
                            s,
                            trim_range(s, t0 + 2, te).0,
                            trim_range(s, t0 + 2, te).1,
                        ),
                        cells: Seq::empty(),
                    },
                ),
                ..row_finished(fc.0)
            },
            fc.1,
            false,
        )
    } else if byte_at(s, t0, te, BANG) || byte_at(s, t0, te, PIPE) {
        let fc = cell_finished(st);
        let header = byte_at(s, t0, te, BANG);
        let cells = cells_from(
            s,
            split_ranges(
                s,
                t0 + 1,
                te,
                if header {
                    lit("!!")
                } else {
                    lit("||")
                },
            ),
            0,
            if header {
                TableCellKind::Header
            } else {
                TableCellKind::Data
            },
            fc.0,
        );
        (cells.0, fc.1 + cells.1, false)
    } else if st.cell is Some {
        (with_line(st, raw, line.end as int), Seq::empty(), false)
    } else if t0 < te {
        (st, seq![unexpected_line(s, line)], false)
    } else {
        (st, Seq::empty(), false)
    }
}

/// The state after the lines from the `k`-th on, up to the line that closes
/// the table or the last line; the index of the next line; the diagnostics.
pub open spec fn table_from(s: Seq<u8>, lines: Seq<LineRange>, k: int, st: TableState) -> (
    TableState,
    int,
    Seq<DiagnosticView>,
)
    decreases lines.len() - k,
{
    if k < 0 || k >= lines.len() {
        (st, k, Seq::empty())
    } else {
        let step = table_line(s, lines[k], st);
        if step.2 {
            (step.0, k + 1, step.1)
        } else {
            let rest = table_from(s, lines, k + 1, step.0);
            (rest.0, rest.1, step.1 + rest.2)
        }
    }
}

/// The attributes of the table that the line opens: what follows `{|`.
pub open spec fn table_attrs(s: Seq<u8>, line: LineRange) -> Seq<HtmlAttrView> {
    let te = cr_end(s, line.start as int, line.end as int);
    let t0 = trim_start(s, line.start as int, te);
    attrs_from(s, trim_range(s, t0 + 2, te).0, trim_range(s, t0 + 2, te).1)
}

/// The table that the `i`-th line opens, the index of the line after it, and
/// the diagnostics. A table that is never closed ends with the text; it
/// spans its first line only, and its last row is not kept.
#[verifier::opaque]
pub open spec fn table_at(s: Seq<u8>, lines: Seq<LineRange>, i: int) -> (
    BlockNodeView,
    int,
    Seq<DiagnosticView>,
) {
    let r = table_from(
        s,
        lines,
        i + 1,
        TableState {
            attrs: table_attrs(s, lines[i]),
            caption: None,
            rows: Seq::empty(),
            row: None,
            cell: None,
            depth: 1,
            end: lines[i].end as int,
        },
    );
    (
        BlockNodeView {
            span: span_at(0, lines[i].start as int, r.0.end),
            kind: BlockKindView::Table {
                table: TableView { attrs: r.0.attrs, caption: r.0.caption, rows: r.0.rows },
            },
        },
        r.1,
        r.2,
    )
}


/// A cell whose content may go on over the following lines.
pub struct CellBuilder {
    pub kind: TableCellKind,
    pub span_start: usize,
    pub span_end: usize,
    pub attrs: Vec<HtmlAttr>,
    pub rowspan: Option<u32>,
    pub colspan: Option<u32>,
    pub content_abs_start: usize,
    pub content: Vec<u8>,
}

/// A row that is being filled.
pub struct RowBuilder {
    pub span_start: usize,
    pub span_end: usize,
    pub attrs: Vec<HtmlAttr>,
    pub cells: Vec<TableCell>,
}

/// What has been read of a table.
pub struct TableBuilder {
    pub attrs: Vec<HtmlAttr>,
    pub caption: Option<TableCaption>,
    pub rows: Vec<TableRow>,
    pub row: Option<RowBuilder>,
    pub cell: Option<CellBuilder>,
    pub depth: usize,
    pub end: usize,
}

impl View for CellBuilder {
    type V = CellDraft;

    open spec fn view(&self) -> CellDraft {
        CellDraft {
            kind: self.kind,
            start: self.span_start as int,
            end: self.span_end as int,
            attrs: attrs_view(self.attrs@),
            rowspan: self.rowspan,
            colspan: self.colspan,
            content_start: self.content_abs_start as int,
            content: self.content@,
        }
    }
}

impl View for RowBuilder {
    type V = RowDraft;

    open spec fn view(&self) -> RowDraft {
        RowDraft {
            start: self.span_start as int,
            end: self.span_end as int,
            attrs: attrs_view(self.attrs@),
            cells: cells_view(self.cells@),
        }
    }
}

impl View for TableBuilder {
    type V = TableState;

    open spec fn view(&self) -> TableState {
        TableState {
            attrs: attrs_view(self.attrs@),
            caption: match self.caption {
                Some(c) => Some(caption_view(c)),
                None => None,
            },
            rows: rows_view(self.rows@),
            row: match self.row {
                Some(r) => Some(r@),
                None => None,
            },
            cell: match self.cell {
                Some(c) => Some(c@),
                None => None,
            },
            depth: self.depth as int,
            end: self.end as int,
        }
    }
}

impl CellBuilder {
    /// The cell lies in `[.., limit]` and its content fits between where it
    /// starts and where the cell ends.
    pub open spec fn wf(&self, limit: int) -> bool {
        &&& self.span_start <= self.span_end <= limit
        &&& self.content_abs_start + self.content@.len() <= self.span_end
        &&& forall|len: int| attrs_within(attrs_view(self.attrs@), len)
    }
}

impl RowBuilder {
    pub open spec fn wf(&self, len: int) -> bool {
        &&& self.span_start <= self.span_end <= len
        &&& attrs_within(attrs_view(self.attrs@), len)
        &&& cells_within(cells_view(self.cells@), len)
    }
}

impl TableBuilder {
    /// Every span read so far lies in a text of `len` bytes, and the open
    /// cell ends at or before `limit`.
    pub open spec fn wf(&self, len: int, limit: int) -> bool {
        &&& limit <= len
        &&& self.end <= len
        &&& attrs_within(attrs_view(self.attrs@), len)
        &&& rows_within(rows_view(self.rows@), len)
        &&& match self.caption {
            Some(c) => c.span.within(len) && attrs_within(attrs_view(c.attrs@), len)
                && inlines_within(inlines_view(c.content@), len),
            None => true,
        }
        &&& match self.row {
            Some(r) => r.wf(len),
            None => true,
        }
        &&& match self.cell {
            Some(c) => c.wf(limit),
            None => true,
        }
    }
}

proof fn lemma_cells_view_push(v: Seq<TableCell>, c: TableCell)
    ensures
        cells_view(v.push(c)) =~= cells_view(v).push(cell_view(c)),
{
}

proof fn lemma_rows_view_push(v: Seq<TableRow>, r: TableRow)
    ensures
        rows_view(v.push(r)) =~= rows_view(v).push(row_view(r)),
{
}

/// Turns a cell's content into blocks.
pub fn cell_content_to_blocks(content: &[u8], abs_start: usize, diags: &mut Vec<Diagnostic>) -> (out:
    Vec<BlockNode>)
    requires
        abs_start + content@.len() <= usize::MAX,
    ensures
        blocks_view(out@) == cell_blocks(content@, abs_start as int).0,
        diags_grow(old(diags)@, final(diags)@, cell_blocks(content@, abs_start as int).1),
        blocks_within(blocks_view(out@), abs_start + content@.len()),
{
    let mut out: Vec<BlockNode> = Vec::new();
    assert(blocks_view(out@) =~= Seq::empty());
    let (a, b) = trim(content, 0, content.len());
    if a < b {
        let nodes = parse_inlines_in(content, a, b, abs_start, MAX_INLINE_DEPTH, diags);
        let block = BlockNode {
            span: mk_span(abs_start, a, b),
            kind: BlockKind::Paragraph { content: nodes },
        };
        proof {
            lemma_inlines_within_longer(
                inlines_view(nodes@),
                abs_start + b,
                abs_start + content@.len(),
            );
        }
        out.push(block);
        assert(blocks_view(out@) =~= seq![block_view(block)]);
    }
    out
}

/// Appends a finished cell to the row, or opens a row for it.
fn row_push(row: Option<RowBuilder>, cell: TableCell, start: usize, end: usize, Ghost(len): Ghost<
    int,
>) -> (out: RowBuilder)
    requires
        start <= end <= len,
        cell_within(cell_view(cell), len),
        row matches Some(r) ==> r.wf(len),
    ensures
        out@ == row_with(
            match row {
                Some(r) => Some(r@),
                None => None,
            },
            cell_view(cell),
            start as int,
            end as int,
        ),
        out.wf(len),
{
    match row {
        Some(r) => {
            let mut cells = r.cells;
            let ghost before = cells_view(cells@);
            proof {
                lemma_cells_view_push(cells@, cell);
            }
            cells.push(cell);
            assert(cells_within(cells_view(cells@), len)) by {
                let cv = cells_view(cells@);
                assert forall|j: int| 0 <= j < cv.len() implies cell_within(#[trigger] cv[j], len) by {
                    if j < cv.len() - 1 {
                        assert(cv[j] == before[j]);
                    }
                }
            }
            RowBuilder {
                span_start: r.span_start,
                span_end: if r.span_end >= end {
                    r.span_end
                } else {
                    end
                },
                attrs: r.attrs,
                cells,
            }
        },
        None => {
            let mut cells: Vec<TableCell> = Vec::new();
            proof {
                lemma_cells_view_push(cells@, cell);
            }
            cells.push(cell);
            assert(cells_view(cells@) =~= seq![cell_view(cell)]);
            let attrs: Vec<HtmlAttr> = Vec::new();
            assert(attrs_view(attrs@) =~= Seq::empty());
            RowBuilder { span_start: start, span_end: end, attrs, cells }
        },
    }
}

/// Turns a cell draft into a cell.
fn build_cell(c: CellBuilder, diags: &mut Vec<Diagnostic>, Ghost(len): Ghost<int>) -> (cell: TableCell)
    requires
        c.wf(len),
    ensures
        cell_view(cell) == draft_cell(c@, cell_blocks(c.content@, c.content_abs_start as int).0),
        diags_grow(
            old(diags)@,
            final(diags)@,
            cell_blocks(c.content@, c.content_abs_start as int).1,
        ),
        cell_within(cell_view(cell), len),
{
    let blocks = cell_content_to_blocks(c.content.as_slice(), c.content_abs_start, diags);
    proof {
        lemma_blocks_within_longer(
            blocks_view(blocks@),
            c.content_abs_start + c.content@.len(),
            len,
        );
    }
    TableCell {
        span: mk_span(0, c.span_start, c.span_end),
        kind: c.kind,
        attrs: c.attrs,
        colspan: c.colspan,
        rowspan: c.rowspan,
        blocks,
    }
}

/// Blocks of inline content that lie inside a text lie inside every longer
/// one.
pub proof fn lemma_blocks_within_longer(s: Seq<BlockNodeView>, len: int, longer: int)
    requires
        blocks_within(s, len),
        len <= longer,
        forall|i: int| 0 <= i < s.len() ==> (#[trigger] s[i]).kind is Paragraph,
    ensures
        blocks_within(s, longer),
{
    assert forall|i: int| 0 <= i < s.len() implies block_within(#[trigger] s[i], longer) by {
        assert(block_within(s[i], len));
        match s[i].kind {
            BlockKindView::Paragraph { content } => {
                lemma_inlines_within_longer(content, len, longer);
            },
            _ => {},
        }
    }
}


/// Closes the open cell, if any, into the row.
fn finish_cell(b: TableBuilder, diags: &mut Vec<Diagnostic>, Ghost(len): Ghost<int>, Ghost(limit): Ghost<
    int,
>) -> (out: TableBuilder)
    requires
        b.wf(len, limit),
    ensures
        out@ == cell_finished(b@).0,
        diags_grow(old(diags)@, final(diags)@, cell_finished(b@).1),
        out.wf(len, limit),
        out.cell is None,
        out.depth == b.depth,
        out.end == b.end,
{
    let TableBuilder { attrs, caption, rows, row, cell, depth, end } = b;
    match cell {
        Some(c) => {
            let start = c.span_start;
            let stop = c.span_end;
            let built = build_cell(c, diags, Ghost(len));
            let r = row_push(row, built, start, stop, Ghost(len));
            TableBuilder { attrs, caption, rows, row: Some(r), cell: None, depth, end }
        },
        None => TableBuilder { attrs, caption, rows, row, cell: None, depth, end },
    }
}

/// Closes the row, if any, into the table.
fn finish_row(b: TableBuilder, Ghost(len): Ghost<int>, Ghost(limit): Ghost<int>) -> (out: TableBuilder)
    requires
        b.wf(len, limit),
    ensures
        out@ == row_finished(b@),
        out.wf(len, limit),
        out.row is None,
        (b.cell is None) ==> (out.cell is None),
        out.depth == b.depth,
        out.end == b.end,
{
    let TableBuilder { attrs, caption, rows, row, cell, depth, end } = b;
    match row {
        Some(r) => {
            let mut rows = rows;
            let ghost before = rows_view(rows@);
            let built = TableRow {
                span: mk_span(0, r.span_start, r.span_end),
                attrs: r.attrs,
                cells: r.cells,
            };
            proof {
                lemma_rows_view_push(rows@, built);
            }
            rows.push(built);
            assert(rows_within(rows_view(rows@), len)) by {
                let rv = rows_view(rows@);
                assert forall|j: int| 0 <= j < rv.len() implies row_within(#[trigger] rv[j], len) by {
                    if j < rv.len() - 1 {
                        assert(rv[j] == before[j]);
                    }
                }
            }
            TableBuilder { attrs, caption, rows, row: None, cell, depth, end }
        },
        None => TableBuilder { attrs, caption, rows, row: None, cell, depth, end },
    }
}

/// Appends a line to the open cell, if there is one.
fn append_line(b: TableBuilder, s: &[u8], line: LineRange, Ghost(limit): Ghost<int>) -> (out:
    TableBuilder)
    requires
        line_ok(line, s@.len() as int),
        b.wf(s@.len() as int, limit),
        limit < line.start,
    ensures
        out@ == with_line(
            b@,
            s@.subrange(line.start as int, cr_end(s@, line.start as int, line.end as int)),
            line.end as int,
        ),
        out.wf(s@.len() as int, line.end as int),
        out.depth == b.depth,
        out.end == b.end,
        (out.cell is Some) == (b.cell is Some),
{
    let TableBuilder { attrs, caption, rows, row, cell, depth, end } = b;
    match cell {
        Some(c) => {
            let te = strip_cr_end(s, line.start, line.end);
            let mut content = c.content;
            if content.len() > 0 {
                content.push(NL);
            }
            push_range(&mut content, s, line.start, te);
            let c2 = CellBuilder {
                kind: c.kind,
                span_start: c.span_start,
                span_end: line.end,
                attrs: c.attrs,
                rowspan: c.rowspan,
                colspan: c.colspan,
                content_abs_start: c.content_abs_start,
                content,
            };
            assert(c2@.content =~= if c@.content.len() > 0 {
                c@.content + seq![NL] + s@.subrange(line.start as int, te as int)
            } else {
                s@.subrange(line.start as int, te as int)
            });
            TableBuilder { attrs, caption, rows, row, cell: Some(c2), depth, end }
        },
        None => TableBuilder { attrs, caption, rows, row, cell: None, depth, end },
    }
}

fn find_attr_separator(s: &[u8], lo: usize, hi: usize) -> (r: Option<usize>)
    requires
        lo <= hi <= s.len(),
    ensures
        crate::text::opt_int(r) == attr_sep_from(s@, lo as int, hi as int, 0, 0, None),
        r matches Some(p) ==> lo <= p < hi,
{
    let mut i: usize = lo;
    let mut tpl: usize = 0;
    let mut link: usize = 0;
    let mut quote: Option<u8> = None;
    while i < hi
        invariant
            lo <= i <= hi <= s.len(),
            tpl <= i,
            link <= i,
            attr_sep_from(s@, i as int, hi as int, tpl as nat, link as nat, quote)
                == attr_sep_from(s@, lo as int, hi as int, 0, 0, None),
        decreases hi - i,
    {
        match nest(s, i, hi, tpl, link) {
            Some((j, t, l)) => {
                i = j;
                tpl = t;
                link = l;
            },
            None => {
                let ch = s[i];
                if ch == DQUOTE || ch == QUOTE {
                    quote = match quote {
                        Some(q) => if q == ch {
                            None
                        } else {
                            quote
                        },
                        None => Some(ch),
                    };
                    i = i + 1;
                } else if quote.is_none() && tpl == 0 && link == 0 && ch == PIPE {
                    return Some(i);
                } else {
                    i = i + 1;
                }
            },
        }
    }
    None
}

/// Splits a cell or caption segment into its attributes and the start of its
/// content.
fn split_attrs_content(s: &[u8], lo: usize, hi: usize) -> (r: (Vec<HtmlAttr>, usize))
    requires
        lo <= hi <= s.len(),
    ensures
        attrs_view(r.0@) == split_attrs(s@, lo as int, hi as int).0,
        r.1 == split_attrs(s@, lo as int, hi as int).1,
        lo <= r.1 <= hi,
        forall|len: int| attrs_within(attrs_view(r.0@), len),
{
    let sep = match find_attr_separator(s, lo, hi) {
        Some(p) => if find_byte(s, lo, p, EQ).is_some() {
            Some(p)
        } else {
            None
        },
        None => None,
    };
    match sep {
        Some(p) => {
            let (a, b) = trim(s, lo, p);
            (parse_attrs(s, a, b), skip_ws(s, p + 1, hi))
        },
        None => {
            let attrs: Vec<HtmlAttr> = Vec::new();
            assert(attrs_view(attrs@) =~= Seq::empty());
            (attrs, skip_ws(s, lo, hi))
        },
    }
}

/// Reads a span count from the attributes.
fn span_count(attrs: &Vec<HtmlAttr>, name: &[u8]) -> (r: Option<u32>)
    ensures
        r == span_attr(attrs_view(attrs@), name@, 0, None),
{
    let mut acc: Option<u32> = None;
    let mut k: usize = 0;
    while k < attrs.len()
        invariant
            k <= attrs.len(),
            span_attr(attrs_view(attrs@), name@, k as int, acc) == span_attr(
                attrs_view(attrs@),
                name@,
                0,
                None,
            ),
        decreases attrs.len() - k,
    {
        let a = &attrs[k];
        assert(attrs_view(attrs@)[k as int] == a@);
        let nb = a.name.as_str().as_bytes();
        if eq_ci(nb, 0, nb.len(), name) {
            match &a.value {
                Some(v) => {
                    let vb = v.as_str().as_bytes();
                    match parse_u32(vb, 0, vb.len()) {
                        Some(n) => {
                            acc = Some(n);
                        },
                        None => {},
                    }
                },
                None => {},
            }
        }
        k = k + 1;
    }
    acc
}

/// Reads the row span and the column span from a cell's attributes.
fn extract_spans(attrs: &Vec<HtmlAttr>) -> (r: (Option<u32>, Option<u32>))
    ensures
        r.0 == span_attr(attrs_view(attrs@), lit("rowspan"), 0, None),
        r.1 == span_attr(attrs_view(attrs@), lit("colspan"), 0, None),
{
    (span_count(attrs, "rowspan".as_bytes()), span_count(attrs, "colspan".as_bytes()))
}

/// Reads the segment `[lo, hi)` of a cell line as a cell draft.
fn read_cell(s: &[u8], lo: usize, hi: usize, kind: TableCellKind) -> (c: CellBuilder)
    requires
        lo <= hi <= s.len(),
    ensures
        c@ == (CellDraft {
            kind,
            start: lo as int,
            end: hi as int,
            attrs: split_attrs(s@, lo as int, hi as int).0,
            rowspan: span_attr(split_attrs(s@, lo as int, hi as int).0, lit("rowspan"), 0, None),
            colspan: span_attr(split_attrs(s@, lo as int, hi as int).0, lit("colspan"), 0, None),
            content_start: split_attrs(s@, lo as int, hi as int).1,
            content: s@.subrange(split_attrs(s@, lo as int, hi as int).1, hi as int),
        }),
        c.wf(hi as int),
{
    let (attrs, c0) = split_attrs_content(s, lo, hi);
    let (rowspan, colspan) = extract_spans(&attrs);
    let mut content: Vec<u8> = Vec::new();
    push_range(&mut content, s, c0, hi);
    assert(content@ =~= s@.subrange(c0 as int, hi as int));
    CellBuilder {
        kind,
        span_start: lo,
        span_end: hi,
        attrs,
        rowspan,
        colspan,
        content_abs_start: c0,
        content,
    }
}

/// Reads the cells of one line into the state.
#[verifier::rlimit(40)]
fn read_cells(
    b: TableBuilder,
    s: &[u8],
    segs: &Vec<(usize, usize)>,
    kind: TableCellKind,
    line_end: usize,
    diags: &mut Vec<Diagnostic>,
) -> (out: TableBuilder)
    requires
        b.cell is None,
        segs@.len() > 0,
        line_end <= s@.len(),
        ranges_within(segs@, 0, line_end as int),
        exists|limit: int| b.wf(s@.len() as int, limit),
    ensures
        out@ == cells_from(s@, ranges_view(segs@), 0, kind, b@).0,
        diags_grow(
            old(diags)@,
            final(diags)@,
            cells_from(s@, ranges_view(segs@), 0, kind, b@).1,
        ),
        out.wf(s@.len() as int, line_end as int),
        out.depth == b.depth,
        out.end == b.end,
{
    let ghost len = s@.len() as int;
    let ghost sv = ranges_view(segs@);
    let ghost goal = cells_from(s@, sv, 0, kind, b@);
    let ghost d_in = diagnostics_view(diags@);
    let ghost depth_in = b.depth;
    let ghost end_in = b.end;
    let mut b = b;
    let mut k: usize = 0;
    assert(b.wf(len, line_end as int));
    while k < segs.len()
        invariant
            k <= segs.len(),
            len == s@.len(),
            line_end <= len,
            sv == ranges_view(segs@),
            ranges_within(segs@, 0, line_end as int),
            b.wf(len, line_end as int),
            k < segs.len() ==> b.cell is None,
            k < segs.len() ==> cells_from(s@, sv, k as int, kind, b@).0 == goal.0,
            k < segs.len() ==> diagnostics_view(diags@) + cells_from(
                s@,
                sv,
                k as int,
                kind,
                b@,
            ).1 =~= d_in + goal.1,
            k == segs.len() ==> b@ == goal.0 && diagnostics_view(diags@) =~= d_in + goal.1,
            b.depth == depth_in,
            b.end == end_in,
        decreases segs.len() - k,
    {
        let seg = segs[k];
        assert(sv[k as int] == (seg.0 as int, seg.1 as int));
        let ghost d0 = diagnostics_view(diags@);
        let ghost here = cells_from(s@, sv, k as int, kind, b@);
        let c = read_cell(s, seg.0, seg.1, kind);
        let TableBuilder { attrs, caption, rows, row, cell, depth, end } = b;
        if k + 1 == segs.len() {
            b = TableBuilder { attrs, caption, rows, row, cell: Some(c), depth, end };
        } else {
            let ghost st0 = (TableBuilder { attrs, caption, rows, row, cell, depth, end })@;
            let ghost draft = c@;
            let built = build_cell(c, diags, Ghost(len));
            let r = row_push(row, built, seg.0, seg.1, Ghost(len));
            b = TableBuilder { attrs, caption, rows, row: Some(r), cell: None, depth, end };
            proof {
                let blocks = cell_blocks(draft.content, draft.content_start);
                let rest = cells_from(s@, sv, k + 1, kind, b@);
                assert(here.0 == rest.0);
                assert(here.1 == blocks.1 + rest.1);
                lemma_concat_assoc(d0, blocks.1, rest.1);
            }
        }
        k = k + 1;
    }
    b
}


fn make_unexpected_line(s: &[u8], line: LineRange) -> (d: Diagnostic)
    requires
        line_ok(line, s@.len() as int),
    ensures
        d@ == unexpected_line(s@, line),
{
    let te = strip_cr_end(s, line.start, line.end);
    let mut notes: Vec<String> = Vec::new();
    notes.push(text_of(s, line.start, te));
    let d = Diagnostic {
        severity: Severity::Warning,
        phase: Some(DiagnosticPhase::Parse),
        code: Some("wikitext.table.unexpected_line".to_owned()),
        message: "Unexpected line inside table".to_owned(),
        span: Some(mk_span(0, line.start, line.end)),
        notes,
    };
    assert(strings_view(d.notes@) =~= seq![
        text(s@, line.start as int, cr_end(s@, line.start as int, line.end as int)),
    ]);
    d
}

/// Reads a caption line into the state.
fn read_caption(
    b: TableBuilder,
    s: &[u8],
    line: LineRange,
    t0: usize,
    te: usize,
    diags: &mut Vec<Diagnostic>,
    Ghost(limit): Ghost<int>,
) -> (out: TableBuilder)
    requires
        line_ok(line, s@.len() as int),
        line.start <= t0,
        t0 + 2 <= te <= line.end,
        b.wf(s@.len() as int, limit),
        b.row is None,
        b.cell is None,
    ensures
        out@ == (TableState {
            caption: Some(
                TableCaptionView {
                    span: line_span(line),
                    attrs: split_attrs(s@, t0 + 2, te as int).0,
                    content: inlines(
                        s@,
                        split_attrs(s@, t0 + 2, te as int).1,
                        te as int,
                        0,
                        MAX_INLINE_DEPTH as nat,
                    ).nodes,
                },
            ),
            ..b@
        }),
        diags_grow(
            old(diags)@,
            final(diags)@,
            inlines(
                s@,
                split_attrs(s@, t0 + 2, te as int).1,
                te as int,
                0,
                MAX_INLINE_DEPTH as nat,
            ).diags,
        ),
        out.wf(s@.len() as int, limit),
        out.depth == b.depth,
        out.end == b.end,
        out.cell is None,
{
    let TableBuilder { attrs, caption, rows, row, cell, depth, end } = b;
    let (cap_attrs, c0) = split_attrs_content(s, t0 + 2, te);
    let content = parse_inlines_in(s, c0, te, 0, MAX_INLINE_DEPTH, diags);
    proof {
        lemma_inlines_within_longer(inlines_view(content@), te as int, s@.len() as int);
    }
    let cap = TableCaption { span: mk_span(0, line.start, line.end), attrs: cap_attrs, content };
    TableBuilder { attrs, caption: Some(cap), rows, row, cell, depth, end }
}

/// Opens a row for a `|-` line.
fn open_row(b: TableBuilder, s: &[u8], line: LineRange, t0: usize, te: usize, Ghost(limit): Ghost<
    int,
>) -> (out: TableBuilder)
    requires
        line_ok(line, s@.len() as int),
        line.start <= t0,
        t0 + 2 <= te <= line.end,
        b.wf(s@.len() as int, limit),
        b.cell is None,
    ensures
        out@ == (TableState {
            row: Some(
                RowDraft {
                    start: t0 as int,
                    end: line.end as int,
                    attrs: attrs_from(
                        s@,
                        trim_range(s@, t0 + 2, te as int).0,
                        trim_range(s@, t0 + 2, te as int).1,
                    ),
                    cells: Seq::empty(),
                },
            ),
            ..b@
        }),
        out.wf(s@.len() as int, limit),
        out.depth == b.depth,
        out.end == b.end,
        out.cell is None,
{
    let TableBuilder { attrs, caption, rows, row, cell, depth, end } = b;
    let (a0, a1) = trim(s, t0 + 2, te);
    let row_attrs = parse_attrs(s, a0, a1);
    let cells: Vec<TableCell> = Vec::new();
    assert(cells_view(cells@) =~= Seq::empty());
    let r = RowBuilder { span_start: t0, span_end: line.end, attrs: row_attrs, cells };
    TableBuilder { attrs, caption, rows, row: Some(r), cell, depth, end }
}

fn with_depth(b: TableBuilder, depth: usize) -> (out: TableBuilder)
    ensures
        out@ == (TableState { depth: depth as int, ..b@ }),
        out.depth == depth,
        out.end == b.end,
        forall|len: int, limit: int| b.wf(len, limit) ==> out.wf(len, limit),
        (out.cell is Some) == (b.cell is Some),
{
    let TableBuilder { attrs, caption, rows, row, cell, depth: _, end } = b;
    TableBuilder { attrs, caption, rows, row, cell, depth, end }
}

fn with_end(b: TableBuilder, end: usize, Ghost(len): Ghost<int>) -> (out: TableBuilder)
    requires
        end <= len,
    ensures
        out@ == (TableState { end: end as int, ..b@ }),
        out.depth == b.depth,
        out.end == end,
        forall|limit: int| b.wf(len, limit) ==> out.wf(len, limit),
{
    let TableBuilder { attrs, caption, rows, row, cell, depth, end: _ } = b;
    TableBuilder { attrs, caption, rows, row, cell, depth, end }
}

/// Takes one line of a table into the state; tells whether the line closed
/// the table.
#[verifier::rlimit(40)]
fn table_line_step(
    b: TableBuilder,
    s: &[u8],
    line: LineRange,
    diags: &mut Vec<Diagnostic>,
    Ghost(limit): Ghost<int>,
) -> (r: (TableBuilder, bool))
    requires
        line_ok(line, s@.len() as int),
        b.wf(s@.len() as int, limit),
        limit < line.start,
        1 <= b.depth < usize::MAX,
    ensures
        r.0@ == table_line(s@, line, b@).0,
        diags_grow(old(diags)@, final(diags)@, table_line(s@, line, b@).1),
        r.1 == table_line(s@, line, b@).2,
        r.0.wf(s@.len() as int, line.end as int),
        1 <= r.0.depth <= b.depth + 1,
        r.0.end == b.end || r.0.end == line.end,
{
    reveal(table_line);
    let ghost len = s@.len() as int;
    let te = strip_cr_end(s, line.start, line.end);
    let t0 = skip_ws(s, line.start, te);
    let depth = b.depth;
    proof {
        crate::parse::inline::lemma_delimiter_lengths();
        lemma_table_marks();
    }
    if starts_with(s, t0, te, "{|".as_bytes()) {
        let b1 = append_line(b, s, line, Ghost(limit));
        (with_depth(b1, depth + 1), false)
    } else if starts_with(s, t0, te, "|}".as_bytes()) {
        if depth <= 1 {
            let b1 = finish_cell(b, diags, Ghost(len), Ghost(limit));
            let b2 = finish_row(b1, Ghost(len), Ghost(limit));
            (with_end(b2, line.end, Ghost(len)), true)
        } else {
            let b1 = append_line(b, s, line, Ghost(limit));
            (with_depth(b1, depth - 1), false)
        }
    } else if depth > 1 {
        (append_line(b, s, line, Ghost(limit)), false)
    } else if starts_with(s, t0, te, "|+".as_bytes()) {
        let ghost d0 = diagnostics_view(diags@);
        let b1 = finish_cell(b, diags, Ghost(len), Ghost(limit));
        let ghost d1 = diagnostics_view(diags@);
        let b2 = finish_row(b1, Ghost(len), Ghost(limit));
        let b3 = read_caption(b2, s, line, t0, te, diags, Ghost(limit));
        proof {
            let fc = cell_finished(b@);
            let sp = split_attrs(s@, t0 + 2, te as int);
            let inl = inlines(s@, sp.1, te as int, 0, MAX_INLINE_DEPTH as nat);
            lemma_concat_assoc(d0, fc.1, inl.diags);
        }
        (b3, false)
    } else if starts_with(s, t0, te, "|-".as_bytes()) {
        let b1 = finish_cell(b, diags, Ghost(len), Ghost(limit));
        let b2 = finish_row(b1, Ghost(len), Ghost(limit));
        (open_row(b2, s, line, t0, te, Ghost(limit)), false)
    } else if is_byte(s, t0, te, BANG) || is_byte(s, t0, te, PIPE) {
        let ghost d0 = diagnostics_view(diags@);
        let b1 = finish_cell(b, diags, Ghost(len), Ghost(limit));
        let header = is_byte(s, t0, te, BANG);
        let segs = if header {
            split_top(s, t0 + 1, te, "!!".as_bytes())
        } else {
            split_top(s, t0 + 1, te, "||".as_bytes())
        };
        let kind = if header {
            TableCellKind::Header
        } else {
            TableCellKind::Data
        };
        let ghost b1v = b1@;
        let b2 = read_cells(b1, s, &segs, kind, line.end, diags);
        proof {
            let fc = cell_finished(b@);
            let cells = cells_from(s@, ranges_view(segs@), 0, kind, b1v);
            lemma_concat_assoc(d0, fc.1, cells.1);
        }
        (b2, false)
    } else if b.cell.is_some() {
        (append_line(b, s, line, Ghost(limit)), false)
    } else if t0 < te {
        push_diag(diags, make_unexpected_line(s, line));
        (b, false)
    } else {
        (b, false)
    }
}

/// The lengths of the two-byte marks of the table grammar.
pub proof fn lemma_table_marks()
    ensures
        lit("{|").len() == 2,
        lit("|}").len() == 2,
        lit("|+").len() == 2,
        lit("|-").len() == 2,
        lit("!!").len() == 2,
        lit("||").len() == 2,
{
    reveal_strlit("{|");
    reveal_strlit("|}");
    reveal_strlit("|+");
    reveal_strlit("|-");
    reveal_strlit("!!");
    reveal_strlit("||");
    is_ascii_spec_bytes("{|");
    is_ascii_spec_bytes("|}");
    is_ascii_spec_bytes("|+");
    is_ascii_spec_bytes("|-");
    is_ascii_spec_bytes("!!");
    is_ascii_spec_bytes("||");
}

/// Reads the lines of a table from the `from`-th on, up to the line that
/// closes it.
#[verifier::rlimit(40)]
fn read_table_lines(
    b: TableBuilder,
    s: &[u8],
    lines: &[LineRange],
    from: usize,
    diags: &mut Vec<Diagnostic>,
) -> (r: (TableBuilder, usize))
    requires
        lines_wf(lines@, s@.len() as int),
        1 <= from <= lines.len(),
        b.wf(s@.len() as int, lines@[from - 1].end as int),
        b.depth == 1,
        lines@[from - 1].start <= b.end,
    ensures
        r.0@ == table_from(s@, lines@, from as int, b@).0,
        r.1 == table_from(s@, lines@, from as int, b@).1,
        diags_grow(old(diags)@, final(diags)@, table_from(s@, lines@, from as int, b@).2),
        from <= r.1 <= lines.len(),
        exists|limit: int| r.0.wf(s@.len() as int, limit),
        lines@[from - 1].start <= r.0.end,
{
    let ghost len = s@.len() as int;
    let ghost goal = table_from(s@, lines@, from as int, b@);
    let ghost d_in = diagnostics_view(diags@);
    let mut b = b;
    let mut k: usize = from;
    let mut closed = false;
    proof {
        crate::parse::util::lemma_lines_wf_sorted(lines@, len);
    }
    while k < lines.len() && !closed
        invariant
            1 <= from <= k <= lines.len(),
            len == s@.len(),
            lines_wf(lines@, len),
            crate::parse::util::lines_sorted(lines@, len),
            b.wf(len, lines@[k - 1].end as int),
            1 <= b.depth <= k,
            lines@[from - 1].start <= b.end,
            !closed ==> table_from(s@, lines@, k as int, b@).0 == goal.0,
            !closed ==> table_from(s@, lines@, k as int, b@).1 == goal.1,
            !closed ==> diagnostics_view(diags@) + table_from(s@, lines@, k as int, b@).2 =~= d_in
                + goal.2,
            closed ==> b@ == goal.0 && k == goal.1 && diagnostics_view(diags@) =~= d_in + goal.2,
        decreases lines.len() - k,
    {
        let line = lines[k];
        let ghost d0 = diagnostics_view(diags@);
        let ghost bv = b@;
        proof {
            let step = table_line(s@, line, bv);
            let rest = table_from(s@, lines@, k + 1, step.0);
            lemma_concat_assoc(d0, step.1, rest.2);
            assert(lines@[k - 1].end_with_newline == lines@[k as int].start);
            assert(lines@[k - 1].end_with_newline == lines@[k - 1].end + 1);
            assert(lines@[from - 1].start <= lines@[k as int].start);
        }
        let (b2, done) = table_line_step(b, s, line, diags, Ghost(lines@[k - 1].end as int));
        b = b2;
        closed = done;
        k = k + 1;
    }
    (b, k)
}

/// Reads the table that the `i`-th line opens.
#[verifier::rlimit(40)]
pub fn parse_table_at(s: &[u8], lines: &[LineRange], i: usize, diags: &mut Vec<Diagnostic>) -> (r: (
    BlockNode,
    usize,
))
    requires
        lines_wf(lines@, s@.len() as int),
        i < lines.len(),
        table_start(s@, lines@[i as int]),
    ensures
        block_view(r.0) == table_at(s@, lines@, i as int).0,
        r.1 == table_at(s@, lines@, i as int).1,
        diags_grow(old(diags)@, final(diags)@, table_at(s@, lines@, i as int).2),
        i < r.1 <= lines.len(),
        block_within(block_view(r.0), s@.len() as int),
{
    reveal(table_at);
    let first = lines[i];
    let te = strip_cr_end(s, first.start, first.end);
    let t0 = skip_ws(s, first.start, te);
    proof {
        lemma_table_marks();
    }
    let (a0, a1) = trim(s, t0 + 2, te);
    let attrs = parse_attrs(s, a0, a1);
    let rows: Vec<TableRow> = Vec::new();
    assert(rows_view(rows@) =~= Seq::empty());
    let b = TableBuilder {
        attrs,
        caption: None,
        rows,
        row: None,
        cell: None,
        depth: 1,
        end: first.end,
    };
    let (b2, k) = read_table_lines(b, s, lines, i + 1, diags);
    let TableBuilder { attrs, caption, rows, row, cell, depth, end } = b2;
    let node = BlockNode {
        span: mk_span(0, first.start, end),
        kind: BlockKind::Table { table: Table { attrs, caption, rows } },
    };
    (node, k)
}

/// Reads the table that the line `start_i` of `src` opens.
///
/// `lines` are the lines of `src`. The result is the table block and the
/// index of the next line to read, or `Err("not a table")` where the line
/// does not start with `{|`.
pub fn parse_table(
    src: &str,
    lines: &[LineRange],
    start_i: usize,
    diagnostics: &mut Vec<Diagnostic>,
) -> (r: Result<(BlockNode, usize), String>)
    requires
        lines@ == lines_of(src.spec_bytes()),
        start_i < lines.len(),
    ensures
        match r {
            Ok((node, next)) => {
                &&& table_start(src.spec_bytes(), lines@[start_i as int])
                &&& block_view(node) == table_at(src.spec_bytes(), lines@, start_i as int).0
                &&& next == table_at(src.spec_bytes(), lines@, start_i as int).1
                &&& diags_grow(
                    old(diagnostics)@,
                    final(diagnostics)@,
                    table_at(src.spec_bytes(), lines@, start_i as int).2,
                )
                &&& start_i < next <= lines.len()
                &&& block_within(block_view(node), src.spec_bytes().len() as int)
            },
            Err(e) => {
                &&& !table_start(src.spec_bytes(), lines@[start_i as int])
                &&& e@ == "not a table"@
                &&& final(diagnostics)@ == old(diagnostics)@
            },
        },
{
    let s = src.as_bytes();
    let n: usize = s.len();
    proof {
        crate::parse::util::lemma_lines_of_wf(s@);
    }
    if !is_table_start(s, lines[start_i]) {
        return Err("not a table".to_owned());
    }
    Ok(parse_table_at(s, lines, start_i, diagnostics))
}

} // verus!
