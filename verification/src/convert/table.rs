//! Wiki tables to Markdown tables.

use crate::convert::blocks::{first_group, take_first_group};
use crate::convert::inline::{
    bold_italic, convert_bold_italic, convert_external_links, convert_perft_calls,
    convert_wiki_links, external_links, perft_calls, wiki_links, BREAK,
};
use crate::convert::pattern::{normal, re_matches, re_sub, rematches, resub};
use crate::emit::{copy_bytes, line_at, push_bytes, push_str, replace_byte, replaced};
use crate::parse::inline::lit;
use crate::render::inline::{opt_bytes_view, trimmed, trimmed_copy};
use crate::text::{
    blank, decimal_usize, eq_ci, equals_ci, find, find_byte, first_byte, first_match, is_blank,
    matches_at, parse_usize, skip_byte_run, skip_byte_run_back, skip_run, skip_run_back, skip_ws,
    skip_ws_back, starts_with, trim_end, trim_start, BANG, CR, DQUOTE, EQ, NL, PIPE, SPACE,
};
use vstd::prelude::*;
use vstd::string::*;

verus! {

pub const STYLE_ALIGN: &'static str = r#"(?i)text-align\s*:\s*(left|center|right)"#;

pub const ALIGN_ATTR: &'static str = r#"(?i)\balign\s*=\s*"?\s*(left|center|right)\s*"?\s"#;

pub const COLSPAN_ATTR: &'static str = r#"(?i)\bcolspan\s*=\s*"?(\d+)"?"#;

pub const ROWSPAN_ATTR: &'static str = r#"(?i)\browspan\s*=\s*"?(\d+)"?"#;

/// The most columns or rows that a cell may span; a larger number counts as
/// this.
pub const MAX_SPAN: usize = 1000;

#[derive(Debug, Clone, Copy, PartialEq, Eq, Structural)]
pub enum Align {
    Left,
    Center,
    Right,
}

/// A cell of a table.
#[derive(Debug)]
pub struct Cell {
    pub is_header: bool,
    pub text: Vec<u8>,
    pub align: Option<Align>,
    pub colspan: usize,
    pub rowspan: usize,
}

pub struct CellView {
    pub is_header: bool,
    pub text: Seq<u8>,
    pub align: Option<Align>,
    pub colspan: nat,
    pub rowspan: nat,
}

impl View for Cell {
    type V = CellView;

    open spec fn view(&self) -> CellView {
        CellView {
            is_header: self.is_header,
            text: self.text@,
            align: self.align,
            colspan: self.colspan as nat,
            rowspan: self.rowspan as nat,
        }
    }
}

pub open spec fn row_view(r: Seq<Cell>) -> Seq<CellView> {
    Seq::new(r.len(), |i: int| r[i]@)
}

pub open spec fn rows_view(rows: Seq<Vec<Cell>>) -> Seq<Seq<CellView>> {
    Seq::new(rows.len(), |i: int| row_view(rows[i]@))
}

pub proof fn lemma_row_push(r: Seq<Cell>, c: Cell)
    ensures
        row_view(r.push(c)) =~= row_view(r).push(c@),
{
}

pub proof fn lemma_rows_push(rows: Seq<Vec<Cell>>, r: Vec<Cell>)
    ensures
        rows_view(rows.push(r)) =~= rows_view(rows).push(row_view(r@)),
{
}

/// The alignment that a word names.
pub open spec fn align_named(w: Seq<u8>) -> Option<Align> {
    let n = w.len() as int;
    if equals_ci(w, 0, n, lit("left")) {
        Some(Align::Left)
    } else if equals_ci(w, 0, n, lit("center")) {
        Some(Align::Center)
    } else if equals_ci(w, 0, n, lit("right")) {
        Some(Align::Right)
    } else {
        None
    }
}

fn align_by_name(w: &[u8]) -> (r: Option<Align>)
    ensures
        r == align_named(w@),
{
    let n: usize = w.len();
    if eq_ci(w, 0, n, "left".as_bytes()) {
        Some(Align::Left)
    } else if eq_ci(w, 0, n, "center".as_bytes()) {
        Some(Align::Center)
    } else if eq_ci(w, 0, n, "right".as_bytes()) {
        Some(Align::Right)
    } else {
        None
    }
}

/// The alignment that attributes ask for: a `text-align` in a style first,
/// else an `align` attribute.
pub open spec fn attrs_align(attrs: Seq<u8>) -> Option<Align> {
    if attrs.len() == 0 {
        None
    } else {
        match first_group(normal(attrs), rematches(STYLE_ALIGN@, attrs)) {
            Some(w) => align_named(w),
            None => match first_group(
                normal(attrs + seq![SPACE]),
                rematches(ALIGN_ATTR@, attrs + seq![SPACE]),
            ) {
                Some(w) => align_named(w),
                None => None,
            },
        }
    }
}

pub fn align_from_attrs(attrs: &[u8]) -> (r: Option<Align>)
    ensures
        r == attrs_align(attrs@),
{
    if attrs.len() == 0 {
        return None;
    }
    let f = re_matches(STYLE_ALIGN, attrs);
    match take_first_group(&f) {
        Some(w) => align_by_name(w.as_slice()),
        None => {
            let mut padded = copy_bytes(attrs);
            padded.push(SPACE);
            assert(padded@ =~= attrs@ + seq![SPACE]);
            let g = re_matches(ALIGN_ATTR, padded.as_slice());
            match take_first_group(&g) {
                Some(w) => align_by_name(w.as_slice()),
                None => None,
            }
        },
    }
}

/// A span count as it is used: at least 1, at most `MAX_SPAN`; 1 where the
/// attribute is missing or is no number.
pub open spec fn span_of(attrs: Seq<u8>, pattern: Seq<char>) -> nat {
    match first_group(normal(attrs), rematches(pattern, attrs)) {
        Some(d) => match decimal_usize(d, 0, d.len() as int) {
            Some(n) => if n < 1 {
                1
            } else if n > MAX_SPAN {
                MAX_SPAN as nat
            } else {
                n as nat
            },
            None => 1,
        },
        None => 1,
    }
}

fn parse_span_attr(attrs: &[u8], pattern: &str) -> (r: usize)
    ensures
        r == span_of(attrs@, pattern@),
        1 <= r <= MAX_SPAN,
{
    let f = re_matches(pattern, attrs);
    match take_first_group(&f) {
        Some(d) => match parse_usize(d.as_slice(), 0, d.len()) {
            Some(n) => if n < 1 {
                1
            } else if n > MAX_SPAN {
                MAX_SPAN
            } else {
                n
            },
            None => 1,
        },
        None => 1,
    }
}

/// The column span and the row span that attributes ask for.
pub fn parse_spans(attrs: &[u8]) -> (r: (usize, usize))
    ensures
        r.0 == span_of(attrs@, COLSPAN_ATTR@),
        r.1 == span_of(attrs@, ROWSPAN_ATTR@),
        1 <= r.0 <= MAX_SPAN,
        1 <= r.1 <= MAX_SPAN,
{
    (parse_span_attr(attrs, COLSPAN_ATTR), parse_span_attr(attrs, ROWSPAN_ATTR))
}

/// The position of the first `|` of `[i, hi)` that stands outside double
/// quotes.
pub open spec fn unquoted_bar(s: Seq<u8>, i: int, hi: int, quoted: bool) -> Option<int>
    decreases hi - i,
{
    if !(0 <= i < hi <= s.len()) {
        None
    } else if s[i] == DQUOTE {
        unquoted_bar(s, i + 1, hi, !quoted)
    } else if s[i] == PIPE && !quoted {
        Some(i)
    } else {
        unquoted_bar(s, i + 1, hi, quoted)
    }
}

pub fn split_once_unquoted(s: &[u8]) -> (r: Option<usize>)
    ensures
        crate::text::opt_int(r) == unquoted_bar(s@, 0, s@.len() as int, false),
        r matches Some(p) ==> p < s@.len(),
{
    let mut quoted = false;
    let mut i: usize = 0;
    while i < s.len()
        invariant
            i <= s.len(),
            unquoted_bar(s@, i as int, s@.len() as int, quoted) == unquoted_bar(
                s@,
                0,
                s@.len() as int,
                false,
            ),
        decreases s.len() - i,
    {
        if s[i] == DQUOTE {
            quoted = !quoted;
        } else if s[i] == PIPE && !quoted {
            return Some(i);
        }
        i = i + 1;
    }
    None
}

/// The attributes and the content of a cell segment: what stands before and
/// after its first unquoted `|`, where an `=` stands before it; else all of
/// it is content. Both without the white space at their ends.
pub open spec fn attrs_and_content(seg: Seq<u8>) -> (Seq<u8>, Seq<u8>) {
    let n = seg.len() as int;
    match unquoted_bar(seg, 0, n, false) {
        Some(p) => if first_byte(seg, 0, p, EQ) is Some {
            (trimmed(seg.subrange(0, p)), trimmed(seg.subrange(p + 1, n)))
        } else {
            (Seq::empty(), trimmed(seg))
        },
        None => (Seq::empty(), trimmed(seg)),
    }
}

pub fn split_attrs_and_content(seg: &[u8]) -> (r: (Vec<u8>, Vec<u8>))
    ensures
        r.0@ == attrs_and_content(seg@).0,
        r.1@ == attrs_and_content(seg@).1,
{
    let n: usize = seg.len();
    match split_once_unquoted(seg) {
        Some(p) => if find_byte(seg, 0, p, EQ).is_some() {
            (trimmed_copy(&seg[0..p]), trimmed_copy(&seg[p + 1..n]))
        } else {
            (Vec::new(), trimmed_copy(seg))
        },
        None => (Vec::new(), trimmed_copy(seg)),
    }
}

/// The pieces of `s` from `start` on between occurrences of `sep`, each
/// without the white space at its ends.
pub open spec fn pieces_from(s: Seq<u8>, start: int, sep: Seq<u8>) -> Seq<Seq<u8>>
    decreases s.len() - start,
{
    if sep.len() == 0 || start < 0 || start > s.len() {
        seq![trimmed(s)]
    } else {
        match first_match(s, start, s.len() as int, sep) {
            Some(p) => if start <= p && p + sep.len() <= s.len() {
                seq![trimmed(s.subrange(start, p))] + pieces_from(s, p + sep.len(), sep)
            } else {
                seq![trimmed(s.subrange(start, s.len() as int))]
            },
            None => seq![trimmed(s.subrange(start, s.len() as int))],
        }
    }
}

pub open spec fn pieces_view(v: Seq<Vec<u8>>) -> Seq<Seq<u8>> {
    Seq::new(v.len(), |i: int| v[i]@)
}

/// Splits a line of cells at `sep`.
pub(crate) fn split_multi_cells(s: &[u8], sep: &[u8]) -> (out: Vec<Vec<u8>>)
    requires
        sep@.len() > 0,
    ensures
        pieces_view(out@) == pieces_from(s@, 0, sep@),
        out@.len() > 0,
{
    let ghost goal = pieces_from(s@, 0, sep@);
    let mut out: Vec<Vec<u8>> = Vec::new();
    let mut start: usize = 0;
    assert(pieces_view(out@) + goal =~= goal);
    loop
        invariant_except_break
            pieces_view(out@) + pieces_from(s@, start as int, sep@) =~= goal,
        invariant
            start <= s.len(),
            sep@.len() > 0,
        ensures
            pieces_view(out@) =~= goal,
            out@.len() > 0,
        decreases s.len() - start,
    {
        let ghost out0 = pieces_view(out@);
        let ghost here = pieces_from(s@, start as int, sep@);
        match find(s, start, s.len(), sep) {
            Some(p) => {
                let piece = trimmed_copy(&s[start..p]);
                out.push(piece);
                assert(pieces_view(out@) =~= out0 + seq![piece@]);
                assert(here == seq![piece@] + pieces_from(s@, p + sep@.len(), sep@));
                assert(pieces_view(out@) + pieces_from(s@, p + sep@.len(), sep@) =~= out0 + here);
                start = p + sep.len();
            },
            None => {
                let piece = trimmed_copy(&s[start..s.len()]);
                out.push(piece);
                assert(pieces_view(out@) =~= out0 + seq![piece@]);
                assert(here == seq![piece@]);
                break ;
            },
        }
    }
    out
}

/// The inline rewrites that go into a table cell: links, emphasis, `perft`
/// calls; every `<br>` becomes `<br/>`; the white space at the ends goes.
pub open spec fn cell_inline(t: Seq<u8>) -> Seq<u8> {
    trimmed(resub(BREAK@, perft_calls(bold_italic(external_links(wiki_links(t)))), "<br/>"@))
}

pub fn wiki_inline_to_markdown(input: &[u8]) -> (out: Vec<u8>)
    ensures
        out@ == cell_inline(input@),
{
    let a = convert_wiki_links(copy_bytes(input));
    let b = convert_external_links(a);
    let c = convert_bold_italic(b);
    let d = convert_perft_calls(c);
    let e = re_sub(BREAK, d, "<br/>");
    trimmed_copy(e.as_slice())
}

/// A cell's text as it goes into a Markdown table: without the white space
/// at its ends, with `<br/>` for each newline, and with each `|` escaped.
pub open spec fn cell_text(s: Seq<u8>) -> Seq<u8> {
    replaced(replaced(trimmed(s), NL, lit("<br/>")), PIPE, lit("\\|"))
}

pub fn normalize_table_cell_text(s: &[u8]) -> (out: Vec<u8>)
    ensures
        out@ == cell_text(s@),
{
    let t = trimmed_copy(s);
    let a = replace_byte(t.as_slice(), NL, "<br/>".as_bytes());
    replace_byte(a.as_slice(), PIPE, "\\|".as_bytes())
}


/// What has been read of a table: the finished rows, the row that is being
/// filled, the cell whose text may still go on, and the caption.
pub struct Draft {
    pub rows: Seq<Seq<CellView>>,
    pub row: Seq<CellView>,
    pub cell: Option<CellView>,
    pub caption: Option<Seq<u8>>,
}

pub struct DraftBuilder {
    pub rows: Vec<Vec<Cell>>,
    pub row: Vec<Cell>,
    pub cell: Option<Cell>,
    pub caption: Option<Vec<u8>>,
}

impl View for DraftBuilder {
    type V = Draft;

    open spec fn view(&self) -> Draft {
        Draft {
            rows: rows_view(self.rows@),
            row: row_view(self.row@),
            cell: match self.cell {
                Some(c) => Some(c@),
                None => None,
            },
            caption: opt_bytes_view(self.caption),
        }
    }
}

/// The open cell goes into the row.
pub open spec fn cell_closed(d: Draft) -> Draft {
    match d.cell {
        Some(c) => Draft { row: d.row.push(c), cell: None, ..d },
        None => d,
    }
}

/// The open cell goes into the row, and the row, unless it is empty, into
/// the table.
pub open spec fn flushed(d: Draft) -> Draft {
    let c = cell_closed(d);
    if c.row.len() > 0 {
        Draft { rows: c.rows.push(c.row), row: Seq::empty(), ..c }
    } else {
        c
    }
}

fn close_cell(d: DraftBuilder) -> (out: DraftBuilder)
    ensures
        out@ == cell_closed(d@),
{
    let DraftBuilder { rows, row, cell, caption } = d;
    match cell {
        Some(c) => {
            let mut row = row;
            proof {
                lemma_row_push(row@, c);
            }
            row.push(c);
            DraftBuilder { rows, row, cell: None, caption }
        },
        None => DraftBuilder { rows, row, cell: None, caption },
    }
}

pub fn flush_cell_and_row(d: DraftBuilder) -> (out: DraftBuilder)
    ensures
        out@ == flushed(d@),
{
    let DraftBuilder { rows, row, cell, caption } = close_cell(d);
    if row.len() > 0 {
        let mut rows = rows;
        proof {
            lemma_rows_push(rows@, row);
        }
        rows.push(row);
        let fresh: Vec<Cell> = Vec::new();
        assert(row_view(fresh@) =~= Seq::empty());
        DraftBuilder { rows, row: fresh, cell, caption }
    } else {
        DraftBuilder { rows, row, cell, caption }
    }
}

/// The end of the run of `pat` that `[i, ..)` starts with.
pub open spec fn skip_pat(s: Seq<u8>, i: int, pat: Seq<u8>) -> int
    decreases s.len() - i,
{
    if pat.len() > 0 && matches_at(s, i, s.len() as int, pat) {
        skip_pat(s, i + pat.len(), pat)
    } else {
        i
    }
}

fn skip_pattern(s: &[u8], pat: &[u8]) -> (p: usize)
    ensures
        p == skip_pat(s@, 0, pat@),
        p <= s@.len(),
{
    let mut p: usize = 0;
    while pat.len() > 0 && starts_with(s, p, s.len(), pat)
        invariant
            p <= s.len(),
            skip_pat(s@, p as int, pat@) == skip_pat(s@, 0, pat@),
        decreases s.len() - p,
    {
        p = p + pat.len();
    }
    p
}

/// The cell that a segment of a cell line gives.
pub open spec fn segment_cell(seg: Seq<u8>, header: bool, default: Option<Align>) -> CellView {
    let ac = attrs_and_content(seg);
    CellView {
        is_header: header,
        text: cell_inline(ac.1),
        align: match attrs_align(ac.0) {
            Some(a) => Some(a),
            None => default,
        },
        colspan: span_of(ac.0, COLSPAN_ATTR@),
        rowspan: span_of(ac.0, ROWSPAN_ATTR@),
    }
}

fn make_cell(seg: &[u8], header: bool, default: Option<Align>) -> (c: Cell)
    ensures
        c@ == segment_cell(seg@, header, default),
        1 <= c.colspan <= MAX_SPAN,
        1 <= c.rowspan <= MAX_SPAN,
{
    let (attrs, content) = split_attrs_and_content(seg);
    let (colspan, rowspan) = parse_spans(attrs.as_slice());
    let align = match align_from_attrs(attrs.as_slice()) {
        Some(a) => Some(a),
        None => default,
    };
    Cell {
        is_header: header,
        text: wiki_inline_to_markdown(content.as_slice()),
        align,
        colspan,
        rowspan,
    }
}

/// The draft after the segments from the `k`-th on: each but the last is a
/// finished cell, the last stays open.
pub open spec fn cells_of(
    parts: Seq<Seq<u8>>,
    k: int,
    header: bool,
    default: Option<Align>,
    d: Draft,
) -> Draft
    decreases parts.len() - k,
{
    if k < 0 || k >= parts.len() {
        d
    } else if k + 1 == parts.len() {
        Draft { cell: Some(segment_cell(parts[k], header, default)), ..d }
    } else {
        cells_of(
            parts,
            k + 1,
            header,
            default,
            Draft { row: d.row.push(segment_cell(parts[k], header, default)), ..d },
        )
    }
}

fn read_cells(parts: &Vec<Vec<u8>>, header: bool, default: Option<Align>, d: DraftBuilder) -> (out:
    DraftBuilder)
    requires
        d.cell is None,
    ensures
        out@ == cells_of(pieces_view(parts@), 0, header, default, d@),
{
    let ghost pv = pieces_view(parts@);
    let ghost goal = cells_of(pv, 0, header, default, d@);
    let mut d = d;
    let mut k: usize = 0;
    while k < parts.len()
        invariant
            k <= parts.len(),
            pv == pieces_view(parts@),
            k < parts.len() ==> cells_of(pv, k as int, header, default, d@) == goal,
            k == parts.len() ==> d@ == goal,
        decreases parts.len() - k,
    {
        assert(pv[k as int] == parts@[k as int]@);
        let c = make_cell(parts[k].as_slice(), header, default);
        let DraftBuilder { rows, row, cell, caption } = d;
        if k + 1 == parts.len() {
            d = DraftBuilder { rows, row, cell: Some(c), caption };
        } else {
            let mut row = row;
            proof {
                lemma_row_push(row@, c);
            }
            row.push(c);
            d = DraftBuilder { rows, row, cell, caption };
        }
        k = k + 1;
    }
    d
}

/// What one line of a table does to the draft, and whether it closes the
/// table.
#[verifier::opaque]
pub open spec fn row_line(line: Seq<u8>, d: Draft, default: Option<Align>) -> (Draft, bool) {
    let end = skip_run_back(line, 0, line.len() as int, CR);
    let start = trim_start(line, 0, end);
    let t = line.subrange(start, end);
    let n = t.len() as int;
    if matches_at(t, 0, n, lit("|}")) {
        (flushed(d), true)
    } else if matches_at(t, 0, n, lit("|+")) {
        let after = trimmed(t.subrange(skip_pat(t, 0, lit("|+")), n));
        let cap = cell_inline(attrs_and_content(after).1);
        (
            Draft {
                caption: if is_blank(cap, 0, cap.len() as int) {
                    d.caption
                } else {
                    Some(trimmed(cap))
                },
                ..d
            },
            false,
        )
    } else if matches_at(t, 0, n, lit("|-")) {
        (flushed(d), false)
    } else if n > 0 && t[0] == BANG {
        (
            cells_of(
                pieces_from(t.subrange(skip_run(t, 0, n, BANG), n), 0, lit("!!")),
                0,
                true,
                default,
                cell_closed(d),
            ),
            false,
        )
    } else if n > 0 && t[0] == PIPE {
        (
            cells_of(
                pieces_from(t.subrange(skip_run(t, 0, n, PIPE), n), 0, lit("||")),
                0,
                false,
                default,
                cell_closed(d),
            ),
            false,
        )
    } else {
        match d.cell {
            Some(c) => (
                Draft {
                    cell: Some(
                        CellView {
                            text: (if c.text.len() > 0 {
                                c.text + seq![NL]
                            } else {
                                c.text
                            }) + cell_inline(t),
                            ..c
                        },
                    ),
                    ..d
                },
                false,
            ),
            None => (d, false),
        }
    }
}

proof fn lemma_marks()
    ensures
        lit("!!").len() == 2,
        lit("||").len() == 2,
{
    crate::parse::table::lemma_table_marks();
}

#[verifier::rlimit(40)]
fn read_row_line(line: &[u8], d: DraftBuilder, default: Option<Align>) -> (r: (DraftBuilder, bool))
    ensures
        r.0@ == row_line(line@, d@, default).0,
        r.1 == row_line(line@, d@, default).1,
{
    reveal(row_line);
    proof {
        lemma_marks();
    }
    let end = skip_byte_run_back(line, 0, line.len(), CR);
    let start = skip_ws(line, 0, end);
    let t = &line[start..end];
    let n: usize = t.len();
    if starts_with(t, 0, n, "|}".as_bytes()) {
        (flush_cell_and_row(d), true)
    } else if starts_with(t, 0, n, "|+".as_bytes()) {
        let from = skip_pattern(t, "|+".as_bytes());
        let after = trimmed_copy(&t[from..n]);
        let (_attrs, cap_text) = split_attrs_and_content(after.as_slice());
        let cap = wiki_inline_to_markdown(cap_text.as_slice());
        let DraftBuilder { rows, row, cell, caption } = d;
        let caption = if blank(cap.as_slice(), 0, cap.len()) {
            caption
        } else {
            Some(trimmed_copy(cap.as_slice()))
        };
        (DraftBuilder { rows, row, cell, caption }, false)
    } else if starts_with(t, 0, n, "|-".as_bytes()) {
        (flush_cell_and_row(d), false)
    } else if n > 0 && t[0] == BANG {
        let d1 = close_cell(d);
        let from = skip_byte_run(t, 0, n, BANG);
        let parts = split_multi_cells(&t[from..n], "!!".as_bytes());
        (read_cells(&parts, true, default, d1), false)
    } else if n > 0 && t[0] == PIPE {
        let d1 = close_cell(d);
        let from = skip_byte_run(t, 0, n, PIPE);
        let parts = split_multi_cells(&t[from..n], "||".as_bytes());
        (read_cells(&parts, false, default, d1), false)
    } else {
        let DraftBuilder { rows, row, cell, caption } = d;
        match cell {
            Some(c) => {
                let mut text = c.text;
                if text.len() > 0 {
                    text.push(NL);
                }
                let more = wiki_inline_to_markdown(t);
                push_bytes(&mut text, more.as_slice());
                let c2 = Cell {
                    is_header: c.is_header,
                    text,
                    align: c.align,
                    colspan: c.colspan,
                    rowspan: c.rowspan,
                };
                assert(c2@.text =~= (if c@.text.len() > 0 {
                    c@.text + seq![NL]
                } else {
                    c@.text
                }) + cell_inline(t@));
                (DraftBuilder { rows, row, cell: Some(c2), caption }, false)
            },
            None => (DraftBuilder { rows, row, cell: None, caption }, false),
        }
    }
}

/// The draft after the lines of `s` from `start` on, up to the line that
/// closes the table.
pub open spec fn rows_from(s: Seq<u8>, start: int, d: Draft, default: Option<Align>) -> Draft
    decreases s.len() - start,
{
    if start < 0 || start >= s.len() {
        d
    } else {
        let l = line_at(s, start);
        let step = row_line(s.subrange(start, l.0), d, default);
        if step.1 {
            step.0
        } else if start < l.1 <= s.len() {
            rows_from(s, l.1, step.0, default)
        } else {
            step.0
        }
    }
}

/// Finds the line that starts at `start`: where it ends, and where the next
/// line starts.
pub fn next_line(s: &[u8], start: usize) -> (r: (usize, usize))
    requires
        start <= s.len(),
    ensures
        r.0 == line_at(s@, start as int).0,
        r.1 == line_at(s@, start as int).1,
        start <= r.0 <= s@.len(),
        r.0 <= r.1 <= s@.len() + 1,
        start < s@.len() ==> start < r.1 || r.1 == s@.len(),
        r.1 <= s@.len(),
{
    match find_byte(s, start, s.len(), NL) {
        Some(p) => (
            if start < p && s[p - 1] == CR {
                p - 1
            } else {
                p
            },
            p + 1,
        ),
        None => (s.len(), s.len()),
    }
}

fn read_rows(s: &[u8], from: usize, d: DraftBuilder, default: Option<Align>) -> (out: DraftBuilder)
    requires
        from <= s.len(),
    ensures
        out@ == rows_from(s@, from as int, d@, default),
{
    let ghost goal = rows_from(s@, from as int, d@, default);
    let mut d = d;
    let mut start: usize = from;
    let mut done = false;
    while start < s.len() && !done
        invariant
            start <= s.len(),
            !done ==> rows_from(s@, start as int, d@, default) == goal,
            done ==> d@ == goal,
        decreases s.len() - start, if done { 0int } else { 1int },
    {
        let (end, next) = next_line(s, start);
        let (d2, closed) = read_row_line(&s[start..end], d, default);
        d = d2;
        if closed {
            done = true;
        } else if next > start && next <= s.len() {
            start = next;
        } else {
            done = true;
        }
    }
    d
}


pub open spec fn blank_cell() -> CellView {
    CellView { is_header: false, text: Seq::empty(), align: None, colspan: 1, rowspan: 1 }
}

fn make_blank() -> (c: Cell)
    ensures
        c@ == blank_cell(),
{
    Cell { is_header: false, text: Vec::new(), align: None, colspan: 1, rowspan: 1 }
}

pub open spec fn blanks(n: nat) -> Seq<CellView> {
    Seq::new(n, |i: int| blank_cell())
}

/// `p`, at least `n` long: zeros are appended.
pub open spec fn extended(p: Seq<nat>, n: int) -> Seq<nat> {
    if p.len() < n {
        Seq::new(n as nat, |j: int| if j < p.len() { p[j] } else { 0 })
    } else {
        p
    }
}

/// `p` with the `span` entries from `col` on raised to at least `v`.
pub open spec fn raised(p: Seq<nat>, col: int, span: int, v: nat) -> Seq<nat> {
    Seq::new(
        p.len(),
        |j: int|
            if col <= j < col + span && p[j] < v {
                v
            } else {
                p[j]
            },
    )
}

/// What the cells of a row from the `k`-th on give, read into `out` at the
/// column `col`: the row, and what is pending for the rows below.
///
/// `pending[c]` is how many rows below still owe column `c` a blank cell for
/// a cell that spans rows. Such blanks go in before the next cell. A cell
/// that spans columns is followed by blank cells.
pub open spec fn cells_expanded(
    cells: Seq<CellView>,
    k: int,
    col: int,
    pending: Seq<nat>,
    out: Seq<CellView>,
) -> (Seq<CellView>, Seq<nat>, int)
    decreases cells.len() - k, pending.len() - col,
{
    if 0 <= col < pending.len() && pending[col] > 0 {
        cells_expanded(
            cells,
            k,
            col + 1,
            pending.update(col, (pending[col] - 1) as nat),
            out.push(blank_cell()),
        )
    } else if k < 0 || k >= cells.len() || col < 0 || col + (if cells[k].colspan < 1 {
        1
    } else {
        cells[k].colspan as int
    }) > usize::MAX {
        (out, pending, col)
    } else {
        let c = cells[k];
        let colspan: int = if c.colspan < 1 {
            1
        } else {
            c.colspan as int
        };
        let wide = extended(pending, col + colspan);
        cells_expanded(
            cells,
            k + 1,
            col + colspan,
            if c.rowspan > 1 {
                raised(wide, col, colspan, (c.rowspan - 1) as nat)
            } else {
                wide
            },
            out.push(CellView { colspan: 1, rowspan: 1, ..c }) + blanks((colspan - 1) as nat),
        )
    }
}

/// The blanks that the columns from `col` on still owe a row.
pub open spec fn trailing_blanks(col: int, pending: Seq<nat>, out: Seq<CellView>) -> (
    Seq<CellView>,
    Seq<nat>,
)
    decreases pending.len() - col,
{
    if col < 0 || col >= pending.len() {
        (out, pending)
    } else if pending[col] > 0 {
        trailing_blanks(
            col + 1,
            pending.update(col, (pending[col] - 1) as nat),
            out.push(blank_cell()),
        )
    } else {
        trailing_blanks(col + 1, pending, out)
    }
}

/// The rows from the `k`-th on, each expanded.
pub open spec fn rows_expanded(rows: Seq<Seq<CellView>>, k: int, pending: Seq<nat>) -> Seq<
    Seq<CellView>,
>
    decreases rows.len() - k,
{
    if k < 0 || k >= rows.len() {
        Seq::empty()
    } else {
        let e = cells_expanded(rows[k], 0, 0, pending, Seq::empty());
        let t = trailing_blanks(e.2, e.1, e.0);
        seq![t.0] + rows_expanded(rows, k + 1, t.1)
    }
}

/// The length of the longest of the first `n` rows.
pub open spec fn longest(rows: Seq<Seq<CellView>>, n: int) -> int
    decreases n,
{
    if n <= 0 || n > rows.len() {
        0
    } else if rows[n - 1].len() > longest(rows, n - 1) {
        rows[n - 1].len() as int
    } else {
        longest(rows, n - 1)
    }
}

/// The rows made equally long with blank cells, the text of each cell as it
/// goes into a Markdown table.
pub open spec fn squared(rows: Seq<Seq<CellView>>) -> Seq<Seq<CellView>> {
    Seq::new(
        rows.len(),
        |i: int|
            Seq::new(
                longest(rows, rows.len() as int) as nat,
                |j: int|
                    if j < rows[i].len() {
                        CellView { text: cell_text(rows[i][j].text), ..rows[i][j] }
                    } else {
                        blank_cell()
                    },
            ),
    )
}

/// A table as a grid: every span is laid out in cells of its own.
pub open spec fn expanded(rows: Seq<Seq<CellView>>) -> Seq<Seq<CellView>> {
    squared(rows_expanded(rows, 0, Seq::empty()))
}

pub open spec fn pending_view(p: Seq<usize>) -> Seq<nat> {
    Seq::new(p.len(), |j: int| p[j] as nat)
}

fn extend_pending(pending: &mut Vec<usize>, n: usize)
    ensures
        pending_view(final(pending)@) == extended(pending_view(old(pending)@), n as int),
{
    let ghost before = pending_view(pending@);
    if pending.len() >= n {
        return ;
    }
    while pending.len() < n
        invariant
            before.len() <= pending@.len() <= n,
            forall|j: int| 0 <= j < before.len() ==> pending@[j] as nat == before[j],
            forall|j: int| before.len() <= j < pending@.len() ==> pending@[j] == 0,
        decreases n - pending@.len(),
    {
        pending.push(0);
    }
    assert(pending_view(pending@) =~= extended(before, n as int));
}

fn raise_pending(pending: &mut Vec<usize>, col: usize, span: usize, v: usize)
    requires
        col + span <= old(pending)@.len(),
    ensures
        pending_view(final(pending)@) == raised(
            pending_view(old(pending)@),
            col as int,
            span as int,
            v as nat,
        ),
{
    let ghost before = pending_view(pending@);
    let n: usize = pending.len();
    let mut i: usize = 0;
    while i < span
        invariant
            i <= span,
            col + span <= n,
            n == pending@.len(),
            pending@.len() == before.len(),
            forall|j: int|
                0 <= j < before.len() ==> pending@[j] as nat == (if col <= j < col + i && before[j] < v {
                    v as nat
                } else {
                    before[j]
                }),
        decreases span - i,
    {
        if pending[col + i] < v {
            pending[col + i] = v;
        }
        i = i + 1;
    }
    assert(pending_view(pending@) =~= raised(before, col as int, span as int, v as nat));
}

fn copy_cell(c: &Cell) -> (out: Cell)
    ensures
        out@ == (CellView { colspan: 1, rowspan: 1, ..c@ }),
{
    Cell {
        is_header: c.is_header,
        text: copy_bytes(c.text.as_slice()),
        align: c.align,
        colspan: 1,
        rowspan: 1,
    }
}

fn push_blanks(out: &mut Vec<Cell>, n: usize)
    ensures
        row_view(final(out)@) == row_view(old(out)@) + blanks(n as nat),
{
    let ghost r0 = row_view(out@);
    let mut k: usize = 0;
    assert(row_view(out@) =~= r0 + blanks(0));
    while k < n
        invariant
            k <= n,
            row_view(out@) == r0 + blanks(k as nat),
        decreases n - k,
    {
        let b = make_blank();
        proof {
            lemma_row_push(out@, b);
        }
        out.push(b);
        assert(row_view(out@) =~= r0 + blanks((k + 1) as nat));
        k = k + 1;
    }
}

/// Lays out one row.
#[verifier::rlimit(40)]
fn expand_row(row: &Vec<Cell>, pending: &mut Vec<usize>) -> (out: Vec<Cell>)
    ensures
        ({
            let e = cells_expanded(row_view(row@), 0, 0, pending_view(old(pending)@), Seq::empty());
            let t = trailing_blanks(e.2, e.1, e.0);
            row_view(out@) == t.0 && pending_view(final(pending)@) == t.1
        }),
{
    let ghost rv = row_view(row@);
    let ghost goal = cells_expanded(rv, 0, 0, pending_view(pending@), Seq::empty());
    let mut out: Vec<Cell> = Vec::new();
    assert(row_view(out@) =~= Seq::empty());
    let mut k: usize = 0;
    let mut col: usize = 0;
    loop
        invariant_except_break
            cells_expanded(rv, k as int, col as int, pending_view(pending@), row_view(out@))
                == goal,
        invariant
            k <= row@.len(),
            rv == row_view(row@),
        ensures
            (row_view(out@), pending_view(pending@), col as int) == goal,
        decreases row@.len() - k, pending@.len() - col,
    {
        let ghost pv = pending_view(pending@);
        let ghost ov = row_view(out@);
        if col < pending.len() && pending[col] > 0 {
            let v = pending[col];
            pending[col] = v - 1;
            assert(pending_view(pending@) =~= pv.update(col as int, (pv[col as int] - 1) as nat));
            let b = make_blank();
            proof {
                lemma_row_push(out@, b);
            }
            out.push(b);
            col = col + 1;
            continue ;
        }
        if k >= row.len() {
            break ;
        }
        let c = &row[k];
        assert(rv[k as int] == c@);
        let colspan: usize = if c.colspan < 1 {
            1
        } else {
            c.colspan
        };
        if colspan > usize::MAX - col {
            break ;
        }
        extend_pending(pending, col + colspan);
        if c.rowspan > 1 {
            raise_pending(pending, col, colspan, c.rowspan - 1);
        }
        let copy = copy_cell(c);
        proof {
            lemma_row_push(out@, copy);
        }
        out.push(copy);
        push_blanks(&mut out, colspan - 1);
        col = col + colspan;
        k = k + 1;
    }
    let ghost tail_goal = trailing_blanks(col as int, pending_view(pending@), row_view(out@));
    while col < pending.len()
        invariant
            trailing_blanks(col as int, pending_view(pending@), row_view(out@)) == tail_goal,
        decreases pending@.len() - col,
    {
        let ghost pv = pending_view(pending@);
        if pending[col] > 0 {
            let v = pending[col];
            pending[col] = v - 1;
            assert(pending_view(pending@) =~= pv.update(col as int, (pv[col as int] - 1) as nat));
            let b = make_blank();
            proof {
                lemma_row_push(out@, b);
            }
            out.push(b);
        }
        col = col + 1;
    }
    out
}

fn longest_row(rows: &Vec<Vec<Cell>>) -> (w: usize)
    ensures
        w == longest(rows_view(rows@), rows@.len() as int),
{
    let ghost rv = rows_view(rows@);
    let mut w: usize = 0;
    let mut n: usize = 0;
    while n < rows.len()
        invariant
            n <= rows.len(),
            rv == rows_view(rows@),
            w == longest(rv, n as int),
        decreases rows.len() - n,
    {
        assert(rv[n as int] == row_view(rows@[n as int]@));
        if rows[n].len() > w {
            w = rows[n].len();
        }
        n = n + 1;
    }
    w
}

fn square_row(row: &Vec<Cell>, width: usize) -> (out: Vec<Cell>)
    ensures
        row_view(out@) == Seq::new(
            width as nat,
            |j: int|
                if j < row@.len() {
                    CellView { text: cell_text(row@[j]@.text), ..row@[j]@ }
                } else {
                    blank_cell()
                },
        ),
{
    let mut out: Vec<Cell> = Vec::new();
    let mut j: usize = 0;
    while j < width
        invariant
            j <= width,
            out@.len() == j,
            forall|i: int|
                0 <= i < j ==> (#[trigger] out@[i])@ == (if i < row@.len() {
                    CellView { text: cell_text(row@[i]@.text), ..row@[i]@ }
                } else {
                    blank_cell()
                }),
        decreases width - j,
    {
        if j < row.len() {
            let c = &row[j];
            out.push(
                Cell {
                    is_header: c.is_header,
                    text: normalize_table_cell_text(c.text.as_slice()),
                    align: c.align,
                    colspan: c.colspan,
                    rowspan: c.rowspan,
                },
            );
        } else {
            out.push(make_blank());
        }
        j = j + 1;
    }
    assert(row_view(out@) =~= Seq::new(
        width as nat,
        |j: int|
            if j < row@.len() {
                CellView { text: cell_text(row@[j]@.text), ..row@[j]@ }
            } else {
                blank_cell()
            },
    ));
    out
}

/// Lays a table out as a grid.
pub fn expand_spans(rows: &Vec<Vec<Cell>>) -> (out: Vec<Vec<Cell>>)
    ensures
        rows_view(out@) == expanded(rows_view(rows@)),
{
    let ghost rv = rows_view(rows@);
    let ghost goal = rows_expanded(rv, 0, Seq::empty());
    let mut laid: Vec<Vec<Cell>> = Vec::new();
    let mut pending: Vec<usize> = Vec::new();
    assert(pending_view(pending@) =~= Seq::empty());
    let mut k: usize = 0;
    assert(rows_view(laid@) + goal =~= goal);
    while k < rows.len()
        invariant
            k <= rows.len(),
            rv == rows_view(rows@),
            rows_view(laid@) + rows_expanded(rv, k as int, pending_view(pending@)) =~= goal,
        decreases rows.len() - k,
    {
        let ghost l0 = rows_view(laid@);
        let ghost here = rows_expanded(rv, k as int, pending_view(pending@));
        assert(rv[k as int] == row_view(rows@[k as int]@));
        let r = expand_row(&rows[k], &mut pending);
        proof {
            lemma_rows_push(laid@, r);
            let rest = rows_expanded(rv, k + 1, pending_view(pending@));
            assert(here == seq![row_view(r@)] + rest);
        }
        laid.push(r);
        assert(rows_view(laid@) + rows_expanded(rv, k + 1, pending_view(pending@)) =~= l0 + here);
        k = k + 1;
    }
    assert(rows_expanded(rv, k as int, pending_view(pending@)) =~= Seq::empty());
    assert(rows_view(laid@) =~= goal);
    let width = longest_row(&laid);
    let mut out: Vec<Vec<Cell>> = Vec::new();
    let mut i: usize = 0;
    while i < laid.len()
        invariant
            i <= laid.len(),
            out@.len() == i,
            width == longest(rows_view(laid@), laid@.len() as int),
            forall|r: int|
                0 <= r < i ==> row_view((#[trigger] out@[r])@) == squared(rows_view(laid@))[r],
        decreases laid.len() - i,
    {
        assert(rows_view(laid@)[i as int] == row_view(laid@[i as int]@));
        let r = square_row(&laid[i], width);
        assert(row_view(r@) =~= squared(rows_view(laid@))[i as int]);
        out.push(r);
        i = i + 1;
    }
    assert(rows_view(out@) =~= squared(rows_view(laid@)));
    out
}


/// What is seen of a column in its first `n` rows: a centred cell, a
/// right-aligned cell.
pub open spec fn column_seen(rows: Seq<Seq<CellView>>, col: int, n: int) -> (bool, bool)
    decreases n,
{
    if n <= 0 || n > rows.len() {
        (false, false)
    } else {
        let f = column_seen(rows, col, n - 1);
        let a = if 0 <= col < rows[n - 1].len() {
            rows[n - 1][col].align
        } else {
            None
        };
        (f.0 || a == Some(Align::Center), f.1 || a == Some(Align::Right))
    }
}

/// A column is centred where a cell of it is, else right-aligned where a
/// cell of it is, else left-aligned.
pub open spec fn column_alignment(rows: Seq<Seq<CellView>>, col: int) -> Align {
    let f = column_seen(rows, col, rows.len() as int);
    if f.0 {
        Align::Center
    } else if f.1 {
        Align::Right
    } else {
        Align::Left
    }
}

/// The alignment of each column of the first row.
pub open spec fn alignments(rows: Seq<Seq<CellView>>) -> Seq<Align> {
    Seq::new(
        if rows.len() > 0 {
            rows[0].len()
        } else {
            0
        },
        |c: int| column_alignment(rows, c),
    )
}

pub fn derive_column_alignments(rows: &Vec<Vec<Cell>>) -> (out: Vec<Align>)
    ensures
        out@ == alignments(rows_view(rows@)),
{
    let ghost rv = rows_view(rows@);
    let cols: usize = if rows.len() > 0 {
        assert(rv[0] == row_view(rows@[0]@));
        rows[0].len()
    } else {
        0
    };
    let mut out: Vec<Align> = Vec::new();
    let mut c: usize = 0;
    while c < cols
        invariant
            c <= cols,
            out@.len() == c,
            rv == rows_view(rows@),
            forall|j: int| 0 <= j < c ==> out@[j] == column_alignment(rv, j),
        decreases cols - c,
    {
        let mut saw_center = false;
        let mut saw_right = false;
        let mut n: usize = 0;
        while n < rows.len()
            invariant
                n <= rows.len(),
                rv == rows_view(rows@),
                column_seen(rv, c as int, n as int) == (saw_center, saw_right),
            decreases rows.len() - n,
        {
            assert(rv[n as int] == row_view(rows@[n as int]@));
            if c < rows[n].len() {
                assert(rv[n as int][c as int] == rows@[n as int]@[c as int]@);
                match rows[n][c].align {
                    Some(Align::Center) => {
                        saw_center = true;
                    },
                    Some(Align::Right) => {
                        saw_right = true;
                    },
                    _ => {},
                }
            }
            n = n + 1;
        }
        out.push(
            if saw_center {
                Align::Center
            } else if saw_right {
                Align::Right
            } else {
                Align::Left
            },
        );
        c = c + 1;
    }
    assert(out@ =~= alignments(rv));
    out
}

/// One line of a Markdown table.
pub open spec fn markdown_row(row: Seq<CellView>, k: int) -> Seq<u8>
    decreases row.len() - k,
{
    if k < 0 || k >= row.len() {
        Seq::empty()
    } else {
        seq![SPACE] + trimmed(row[k].text) + lit(" |") + markdown_row(row, k + 1)
    }
}

pub fn render_markdown_row(row: &Vec<Cell>) -> (out: Vec<u8>)
    ensures
        out@ == lit("|") + markdown_row(row_view(row@), 0),
{
    let ghost rv = row_view(row@);
    let mut out: Vec<u8> = Vec::new();
    push_str(&mut out, "|");
    let mut k: usize = 0;
    assert(out@ + markdown_row(rv, 0) =~= lit("|") + markdown_row(rv, 0));
    while k < row.len()
        invariant
            k <= row.len(),
            rv == row_view(row@),
            out@ + markdown_row(rv, k as int) =~= lit("|") + markdown_row(rv, 0),
        decreases row.len() - k,
    {
        let ghost out0 = out@;
        assert(rv[k as int] == row@[k as int]@);
        out.push(SPACE);
        crate::render::inline::push_trimmed(&mut out, row[k].text.as_slice());
        push_str(&mut out, " |");
        assert(out@ =~= out0 + (seq![SPACE] + trimmed(rv[k as int].text) + lit(" |")));
        assert(out@ + markdown_row(rv, k + 1) =~= out0 + markdown_row(rv, k as int));
        k = k + 1;
    }
    assert(markdown_row(rv, k as int) =~= Seq::empty());
    out
}

pub open spec fn alignment_mark(a: Align) -> Seq<u8> {
    match a {
        Align::Left => lit("---"),
        Align::Center => lit(":---:"),
        Align::Right => lit("---:"),
    }
}

pub open spec fn alignment_row(aligns: Seq<Align>, k: int) -> Seq<u8>
    decreases aligns.len() - k,
{
    if k < 0 || k >= aligns.len() {
        Seq::empty()
    } else {
        seq![SPACE] + alignment_mark(aligns[k]) + lit(" |") + alignment_row(aligns, k + 1)
    }
}

pub fn render_alignment_row(aligns: &Vec<Align>) -> (out: Vec<u8>)
    ensures
        out@ == lit("|") + alignment_row(aligns@, 0),
{
    let mut out: Vec<u8> = Vec::new();
    push_str(&mut out, "|");
    let mut k: usize = 0;
    assert(out@ + alignment_row(aligns@, 0) =~= lit("|") + alignment_row(aligns@, 0));
    while k < aligns.len()
        invariant
            k <= aligns.len(),
            out@ + alignment_row(aligns@, k as int) =~= lit("|") + alignment_row(aligns@, 0),
        decreases aligns.len() - k,
    {
        let ghost out0 = out@;
        out.push(SPACE);
        match aligns[k] {
            Align::Left => push_str(&mut out, "---"),
            Align::Center => push_str(&mut out, ":---:"),
            Align::Right => push_str(&mut out, "---:"),
        }
        push_str(&mut out, " |");
        assert(out@ =~= out0 + (seq![SPACE] + alignment_mark(aligns@[k as int]) + lit(" |")));
        assert(out@ + alignment_row(aligns@, k + 1) =~= out0 + alignment_row(aligns@, k as int));
        k = k + 1;
    }
    assert(alignment_row(aligns@, k as int) =~= Seq::empty());
    out
}

/// The lines of the rows from the `k`-th on.
pub open spec fn markdown_rows(rows: Seq<Seq<CellView>>, k: int) -> Seq<u8>
    decreases rows.len() - k,
{
    if k < 0 || k >= rows.len() {
        Seq::empty()
    } else {
        lit("|") + markdown_row(rows[k], 0) + seq![NL] + markdown_rows(rows, k + 1)
    }
}

/// `s` without trailing white space.
pub open spec fn trimmed_end(s: Seq<u8>) -> Seq<u8> {
    s.subrange(0, trim_end(s, 0, s.len() as int))
}

/// A Markdown table: the first row as header, the alignment row, the other
/// rows.
pub open spec fn markdown_table(rows: Seq<Seq<CellView>>, aligns: Seq<Align>) -> Seq<u8> {
    if rows.len() == 0 {
        Seq::empty()
    } else {
        trimmed_end(
            lit("|") + markdown_row(rows[0], 0) + seq![NL] + lit("|") + alignment_row(aligns, 0)
                + seq![NL] + markdown_rows(rows, 1),
        )
    }
}

pub fn render_markdown_table(rows: &Vec<Vec<Cell>>, aligns: &Vec<Align>) -> (out: Vec<u8>)
    ensures
        out@ == markdown_table(rows_view(rows@), aligns@),
{
    let ghost rv = rows_view(rows@);
    let mut out: Vec<u8> = Vec::new();
    if rows.len() == 0 {
        return out;
    }
    assert(rv[0] == row_view(rows@[0]@));
    let header = render_markdown_row(&rows[0]);
    push_bytes(&mut out, header.as_slice());
    out.push(NL);
    let marks = render_alignment_row(aligns);
    push_bytes(&mut out, marks.as_slice());
    out.push(NL);
    let ghost head = out@;
    assert(head =~= lit("|") + markdown_row(rv[0], 0) + seq![NL] + lit("|") + alignment_row(
        aligns@,
        0,
    ) + seq![NL]);
    let mut k: usize = 1;
    assert(out@ + markdown_rows(rv, 1) =~= head + markdown_rows(rv, 1));
    while k < rows.len()
        invariant
            1 <= k <= rows.len(),
            rv == rows_view(rows@),
            out@ + markdown_rows(rv, k as int) =~= head + markdown_rows(rv, 1),
        decreases rows.len() - k,
    {
        let ghost out0 = out@;
        assert(rv[k as int] == row_view(rows@[k as int]@));
        let line = render_markdown_row(&rows[k]);
        push_bytes(&mut out, line.as_slice());
        out.push(NL);
        assert(out@ =~= out0 + (lit("|") + markdown_row(rv[k as int], 0) + seq![NL]));
        assert(out@ + markdown_rows(rv, k + 1) =~= out0 + markdown_rows(rv, k as int));
        k = k + 1;
    }
    assert(markdown_rows(rv, k as int) =~= Seq::empty());
    assert(out@ =~= head + markdown_rows(rv, 1));
    let end = skip_ws_back(out.as_slice(), 0, out.len());
    out.truncate(end);
    assert(out@ =~= trimmed_end(head + markdown_rows(rv, 1)));
    out
}

/// What a wiki table converts to: a Markdown table under its caption; none
/// where the text does not start with `{|`, or holds no row.
#[verifier::opaque]
pub open spec fn table_markdown(s: Seq<u8>) -> Option<Seq<u8>> {
    if s.len() == 0 {
        None
    } else {
        let l = line_at(s, 0);
        let first = s.subrange(trim_start(s, 0, l.0), l.0);
        if !matches_at(first, 0, first.len() as int, lit("{|")) {
            None
        } else {
            let default = attrs_align(
                trimmed(first.subrange(skip_pat(first, 0, lit("{|")), first.len() as int)),
            );
            let start = Draft {
                rows: Seq::empty(),
                row: Seq::empty(),
                cell: None,
                caption: None,
            };
            let d = if 0 < l.1 <= s.len() {
                rows_from(s, l.1, start, default)
            } else {
                start
            };
            let grid = expanded(d.rows);
            if (d.rows.len() == 0 && d.row.len() == 0 && d.cell is None) || grid.len() == 0 {
                None
            } else {
                Some(
                    trimmed_end(
                        (match d.caption {
                            Some(c) => lit("*") + c + lit("*\n\n"),
                            None => Seq::empty(),
                        }) + markdown_table(grid, alignments(grid)),
                    ),
                )
            }
        }
    }
}

/// Converts a wiki table to a Markdown table.
#[verifier::rlimit(40)]
pub fn wikitable_to_markdown(table: &[u8]) -> (r: Option<Vec<u8>>)
    ensures
        opt_bytes_view(r) == table_markdown(table@),
{
    reveal(table_markdown);
    if table.len() == 0 {
        return None;
    }
    let (end, next) = next_line(table, 0);
    let from = skip_ws(table, 0, end);
    let first = &table[from..end];
    let n: usize = first.len();
    if !starts_with(first, 0, n, "{|".as_bytes()) {
        return None;
    }
    let p = skip_pattern(first, "{|".as_bytes());
    let attrs = trimmed_copy(&first[p..n]);
    let default = align_from_attrs(attrs.as_slice());
    let rows: Vec<Vec<Cell>> = Vec::new();
    let row: Vec<Cell> = Vec::new();
    assert(rows_view(rows@) =~= Seq::empty());
    assert(row_view(row@) =~= Seq::empty());
    let start = DraftBuilder { rows, row, cell: None, caption: None };
    let d = if 0 < next && next <= table.len() {
        read_rows(table, next, start, default)
    } else {
        start
    };
    if d.rows.len() == 0 && d.row.len() == 0 && d.cell.is_none() {
        return None;
    }
    let grid = expand_spans(&d.rows);
    if grid.len() == 0 {
        return None;
    }
    let aligns = derive_column_alignments(&grid);
    let mut md: Vec<u8> = Vec::new();
    match &d.caption {
        Some(c) => {
            push_str(&mut md, "*");
            push_bytes(&mut md, c.as_slice());
            push_str(&mut md, "*\n\n");
        },
        None => {},
    }
    let ghost head = md@;
    let t = render_markdown_table(&grid, &aligns);
    push_bytes(&mut md, t.as_slice());
    assert(head =~= match d@.caption {
        Some(c) => lit("*") + c + lit("*\n\n"),
        None => Seq::empty(),
    });
    let e = skip_ws_back(md.as_slice(), 0, md.len());
    md.truncate(e);
    assert(md@ =~= trimmed_end(head + t@));
    Some(md)
}

} // verus!
