//! Wikitext to tree.
//!
//! `parse_document` reads a text line by line. Each line that is not blank
//! starts a block; the block's handler says how many lines it took.
//! `document_of` says what document a text gives, and `parse_document`
//! computes it.

pub mod attrs;
pub mod blocks;
pub mod code;
pub mod inline;
pub mod list;
pub mod table;
pub mod util;

use crate::ast::blocks::{
    block_view, blocks_view, categories_view, BlockKind, BlockKindView, BlockNode, BlockNodeView,
    CategoryTag, CategoryTagView, Document, DocumentView, Redirect, RedirectView,
};
use crate::ast::bounds::{
    block_within, blocks_within, categories_within, document_within, lemma_inlines_within_longer,
};
use crate::ast::diagnostic::{diagnostics_view, Diagnostic, DiagnosticView, Severity};
use crate::ast::nodes::inlines_view;
use crate::parse::blocks::{
    category_at, heading_at, is_line_blank, is_list_line, is_rule, is_single_start, is_table_start,
    line_blank, line_ok, line_span, list_line, magic_word_at, redirect_at, references_at, rule_at,
    single_start, table_start, try_parse_category, try_parse_heading, try_parse_magic_word,
    try_parse_redirect, try_parse_references,
};
use crate::parse::code::{
    lemma_code_start,
    code_block_at, code_start, is_code_start, is_space_line, leading_space_block, next_nonblank,
    parse_leading_space_block, skip_blank_lines, space_line, try_parse_code_block,
};
use crate::parse::inline::{
    diags_grow, inlines, lemma_concat_assoc, make_note, mk_span, note, parse_inlines_in, push_diag,
    span_at, MAX_INLINE_DEPTH,
};
use crate::parse::list::{list_at, parse_list_block};
use crate::parse::table::{parse_table_at, table_at};
use crate::parse::util::{collect_line_ranges, lines_of, lines_wf, LineRange};
use crate::text::{blank, is_blank};
use vstd::prelude::*;
use vstd::string::*;

verus! {

/// What a parse gives: the document, the diagnostics in the order in which
/// they arose, and the length of the input in bytes.
#[derive(Debug)]
pub struct ParseOutput {
    pub document: Document,
    pub diagnostics: Vec<Diagnostic>,
    pub byte_len: usize,
}

/// What one step of the driver gives: the blocks and category tags found,
/// the index of the next line to read, and the diagnostics.
pub struct Found {
    pub blocks: Seq<BlockNodeView>,
    pub categories: Seq<CategoryTagView>,
    pub next: int,
    pub diags: Seq<DiagnosticView>,
}

pub open spec fn found(blocks: Seq<BlockNodeView>, next: int, diags: Seq<DiagnosticView>) -> Found {
    Found { blocks, categories: Seq::empty(), next, diags }
}

pub open spec fn line_block(line: LineRange, kind: BlockKindView) -> BlockNodeView {
    BlockNodeView { span: line_span(line), kind }
}

/// The paragraph over `[a, b)`.
#[verifier::opaque]
pub open spec fn paragraph(s: Seq<u8>, a: int, b: int) -> (BlockNodeView, Seq<DiagnosticView>) {
    (
        BlockNodeView {
            span: span_at(0, a, b),
            kind: BlockKindView::Paragraph {
                content: inlines(s, a, b, 0, MAX_INLINE_DEPTH as nat).nodes,
            },
        },
        inlines(s, a, b, 0, MAX_INLINE_DEPTH as nat).diags,
    )
}

/// The line starts a block other than a paragraph: one of the constructs
/// that the driver tries before it takes a line for a paragraph's. A
/// paragraph ends where such a line stands.
pub open spec fn block_start(s: Seq<u8>, line: LineRange) -> bool {
    &&& !line_blank(s, line)
    &&& {
        ||| single_start(s, line)
        ||| table_start(s, line)
        ||| code_start(s, line)
        ||| space_line(s, line)
        ||| list_line(s, line)
    }
}

/// Tells whether the line starts a block other than a paragraph.
pub fn is_block_start(s: &[u8], line: LineRange) -> (r: bool)
    requires
        line_ok(line, s@.len() as int),
    ensures
        r == block_start(s@, line),
{
    if is_line_blank(s, line) {
        return false;
    }
    is_single_start(s, line) || is_table_start(s, line) || is_code_start(s, line) || is_space_line(
        s,
        line,
    ) || is_list_line(s, line)
}

/// The index of the line at which the paragraph that starts on the `k`-th
/// line ends: the first after it that is blank or starts a block.
pub open spec fn paragraph_end(s: Seq<u8>, lines: Seq<LineRange>, k: int) -> int
    decreases lines.len() - k,
{
    if k < 0 || k >= lines.len() || line_blank(s, lines[k]) || block_start(s, lines[k]) {
        k
    } else {
        paragraph_end(s, lines, k + 1)
    }
}

/// The block or category tag that the line is by itself: a category tag,
/// `<references />`, a magic word, a horizontal rule or a heading, tried in
/// this order.
#[verifier::opaque]
pub open spec fn single_line_at(s: Seq<u8>, line: LineRange, i: int) -> Option<Found> {
    if category_at(s, line) is Some {
        Some(
            Found {
                blocks: Seq::empty(),
                categories: seq![category_at(s, line)->0],
                next: i + 1,
                diags: Seq::empty(),
            },
        )
    } else if references_at(s, line) is Some {
        Some(
            found(
                seq![
                    line_block(line, BlockKindView::References { attrs: references_at(s, line)->0 }),
                ],
                i + 1,
                Seq::empty(),
            ),
        )
    } else if magic_word_at(s, line) is Some {
        Some(
            found(
                seq![
                    line_block(line, BlockKindView::MagicWord { name: magic_word_at(s, line)->0 }),
                ],
                i + 1,
                Seq::empty(),
            ),
        )
    } else if rule_at(s, line) {
        Some(found(seq![line_block(line, BlockKindView::HorizontalRule)], i + 1, Seq::empty()))
    } else if heading_at(s, line) is Some {
        let h = heading_at(s, line)->0;
        let inl = inlines(s, h.1, h.2, 0, MAX_INLINE_DEPTH as nat);
        Some(
            found(
                seq![line_block(line, BlockKindView::Heading { level: h.0, content: inl.nodes })],
                i + 1,
                inl.diags,
            ),
        )
    } else {
        None
    }
}

/// The block that starts on the `i`-th line and may run over more: a table,
/// a tagged code block, a preformatted block, a list or a paragraph, tried
/// in this order.
///
/// What follows a code block's closing tag on its line is a paragraph of
/// its own. A paragraph runs up to the next line that is blank or starts a
/// block.
#[verifier::opaque]
pub open spec fn multi_line_at(s: Seq<u8>, lines: Seq<LineRange>, i: int) -> Found {
    let line = lines[i];
    if table_start(s, line) {
        let t = table_at(s, lines, i);
        found(seq![t.0], t.1, t.2)
    } else if code_block_at(s, lines, i) is Some {
        let c = code_block_at(s, lines, i)->0;
        if is_blank(s, c.tail.0, c.tail.1) {
            found(seq![c.node], c.next, c.diags)
        } else {
            let p = paragraph(s, c.tail.0, c.tail.1);
            found(seq![c.node, p.0], c.next, c.diags + p.1)
        }
    } else if space_line(s, line) {
        let b = leading_space_block(s, lines, i);
        found(seq![b.0], b.1, Seq::empty())
    } else if list_line(s, line) {
        let l = list_at(s, lines, i);
        found(seq![l.0], l.1, l.2)
    } else {
        let e = paragraph_end(s, lines, i + 1);
        let p = paragraph(s, lines[i].start as int, lines[e - 1].end as int);
        found(seq![p.0], e, p.1)
    }
}

/// What the `i`-th line starts: nothing where it is blank; else what the
/// line is by itself; else the block that starts on it.
pub open spec fn block_at(s: Seq<u8>, lines: Seq<LineRange>, i: int) -> Found {
    if line_blank(s, lines[i]) {
        found(Seq::empty(), i + 1, Seq::empty())
    } else {
        match single_line_at(s, lines[i], i) {
            Some(f) => f,
            None => multi_line_at(s, lines, i),
        }
    }
}

/// The detectors that end a paragraph are those that the driver tries before
/// it starts one: a line that is not blank starts a block in the sense of
/// `block_start` exactly where one of the handlers before the paragraph's
/// takes it.
pub proof fn lemma_block_start_is_what_the_handlers_take(s: Seq<u8>, lines: Seq<LineRange>, i: int)
    requires
        0 <= i < lines.len(),
        !line_blank(s, lines[i]),
    ensures
        block_start(s, lines[i]) == (single_line_at(s, lines[i], i) is Some || table_start(
            s,
            lines[i],
        ) || code_block_at(s, lines, i) is Some || space_line(s, lines[i]) || list_line(
            s,
            lines[i],
        )),
{
    reveal(single_line_at);
    lemma_code_start(s, lines, i);
}

/// The blocks, category tags and diagnostics that the lines from the `i`-th
/// on give.
pub open spec fn blocks_from(s: Seq<u8>, lines: Seq<LineRange>, i: int) -> Found
    decreases lines.len() - i,
{
    if i < 0 || i >= lines.len() {
        Found { blocks: Seq::empty(), categories: Seq::empty(), next: i, diags: Seq::empty() }
    } else {
        let step = block_at(s, lines, i);
        let next = if i < step.next <= lines.len() {
            step.next
        } else {
            i + 1
        };
        let rest = blocks_from(s, lines, next);
        Found {
            blocks: step.blocks + rest.blocks,
            categories: step.categories + rest.categories,
            next: rest.next,
            diags: step.diags + rest.diags,
        }
    }
}

/// The redirect of a text, and the index of the line after it: the first
/// line that is not blank, if it is a redirect directive.
pub open spec fn redirect_of(s: Seq<u8>, lines: Seq<LineRange>) -> (Option<RedirectView>, int) {
    let k = next_nonblank(s, lines, 0);
    if 0 <= k < lines.len() && redirect_at(s, lines[k]) is Some {
        (redirect_at(s, lines[k]), k + 1)
    } else {
        (None, k)
    }
}

/// The document that a text gives, and the diagnostics.
pub open spec fn document_of(s: Seq<u8>) -> (DocumentView, Seq<DiagnosticView>) {
    let lines = lines_of(s);
    let r = redirect_of(s, lines);
    let body = blocks_from(s, lines, r.1);
    (
        DocumentView {
            span: span_at(0, 0, s.len() as int),
            blocks: body.blocks,
            categories: body.categories,
            redirect: r.0,
        },
        body.diags,
    )
}

pub proof fn lemma_blocks_view_push(v: Seq<BlockNode>, b: BlockNode)
    ensures
        blocks_view(v.push(b)) =~= blocks_view(v).push(block_view(b)),
{
}

pub proof fn lemma_categories_view_push(v: Seq<CategoryTag>, c: CategoryTag)
    ensures
        categories_view(v.push(c)) =~= categories_view(v).push(c@),
{
}

/// Appends one block.
fn push_block(blocks: &mut Vec<BlockNode>, b: BlockNode, Ghost(len): Ghost<int>)
    requires
        blocks_within(blocks_view(old(blocks)@), len),
        block_within(block_view(b), len),
    ensures
        blocks_view(final(blocks)@) == blocks_view(old(blocks)@) + seq![block_view(b)],
        blocks_within(blocks_view(final(blocks)@), len),
{
    let ghost v0 = blocks_view(blocks@);
    proof {
        lemma_blocks_view_push(blocks@, b);
    }
    blocks.push(b);
    assert(blocks_view(blocks@) =~= v0 + seq![block_view(b)]);
    assert forall|i: int| 0 <= i < blocks_view(blocks@).len() implies block_within(
        #[trigger] blocks_view(blocks@)[i],
        len,
    ) by {
        if i < v0.len() {
            assert(blocks_view(blocks@)[i] == v0[i]);
        }
    }
}

/// Reads `[a, b)` as a paragraph.
fn parse_paragraph(s: &[u8], a: usize, b: usize, diags: &mut Vec<Diagnostic>) -> (node: BlockNode)
    requires
        a <= b <= s.len(),
    ensures
        block_view(node) == paragraph(s@, a as int, b as int).0,
        diags_grow(old(diags)@, final(diags)@, paragraph(s@, a as int, b as int).1),
        block_within(block_view(node), s@.len() as int),
{
    reveal(paragraph);
    let content = parse_inlines_in(s, a, b, 0, MAX_INLINE_DEPTH, diags);
    proof {
        lemma_inlines_within_longer(inlines_view(content@), b as int, s@.len() as int);
    }
    BlockNode { span: mk_span(0, a, b), kind: BlockKind::Paragraph { content } }
}

/// Finds where the paragraph that starts on the `from`-th line ends.
fn find_paragraph_end(s: &[u8], lines: &[LineRange], from: usize) -> (e: usize)
    requires
        lines_wf(lines@, s@.len() as int),
        from <= lines.len(),
    ensures
        e == paragraph_end(s@, lines@, from as int),
        from <= e <= lines.len(),
{
    let mut e: usize = from;
    while e < lines.len() && !is_line_blank(s, lines[e]) && !is_block_start(s, lines[e])
        invariant
            from <= e <= lines.len(),
            lines_wf(lines@, s@.len() as int),
            paragraph_end(s@, lines@, e as int) == paragraph_end(s@, lines@, from as int),
        decreases lines.len() - e,
    {
        e = e + 1;
    }
    e
}

/// What the driver does where a handler hands back a line index that is not
/// past the line it started on: an error is recorded and the driver moves on
/// by one line. Handlers whose contract says that they advance never give
/// rise to it.
pub open spec fn advance(i: int, next: int, line: LineRange) -> (int, Seq<DiagnosticView>) {
    if next > i {
        (next, Seq::empty())
    } else {
        (
            i + 1,
            seq![
                note(
                    Severity::Error,
                    "wikitext.block.no_progress"@,
                    "Block handler did not advance; skipping one line"@,
                    line_span(line),
                ),
            ],
        )
    }
}

pub fn guard_progress(i: usize, next: usize, line: LineRange, diags: &mut Vec<Diagnostic>) -> (r:
    usize)
    requires
        i < usize::MAX,
        line.start <= line.end,
    ensures
        r == advance(i as int, next as int, line).0,
        diags_grow(old(diags)@, final(diags)@, advance(i as int, next as int, line).1),
        r > i,
{
    if next > i {
        next
    } else {
        push_diag(
            diags,
            make_note(
                Severity::Error,
                "wikitext.block.no_progress",
                "Block handler did not advance; skipping one line",
                mk_span(0, line.start, line.end),
            ),
        );
        i + 1
    }
}

/// The output `after` is the output `before` and then what was found.
pub open spec fn output_grows(
    b0: Seq<BlockNode>,
    b1: Seq<BlockNode>,
    c0: Seq<CategoryTag>,
    c1: Seq<CategoryTag>,
    d0: Seq<Diagnostic>,
    d1: Seq<Diagnostic>,
    f: Found,
) -> bool {
    &&& blocks_view(b1) == blocks_view(b0) + f.blocks
    &&& categories_view(c1) == categories_view(c0) + f.categories
    &&& diags_grow(d0, d1, f.diags)
}

/// Reads what the line is by itself, if it is a block or a category tag by
/// itself.
#[verifier::rlimit(40)]
fn parse_single_line(
    s: &[u8],
    line: LineRange,
    i: usize,
    blocks: &mut Vec<BlockNode>,
    categories: &mut Vec<CategoryTag>,
    diags: &mut Vec<Diagnostic>,
) -> (r: bool)
    requires
        line_ok(line, s@.len() as int),
        blocks_within(blocks_view(old(blocks)@), s@.len() as int),
        categories_within(categories_view(old(categories)@), s@.len() as int),
    ensures
        r == (single_line_at(s@, line, i as int) is Some),
        r ==> output_grows(
            old(blocks)@,
            final(blocks)@,
            old(categories)@,
            final(categories)@,
            old(diags)@,
            final(diags)@,
            single_line_at(s@, line, i as int)->0,
        ) && single_line_at(s@, line, i as int)->0.next == i + 1,
        !r ==> final(blocks)@ == old(blocks)@ && final(categories)@ == old(categories)@
            && final(diags)@ == old(diags)@,
        blocks_within(blocks_view(final(blocks)@), s@.len() as int),
        categories_within(categories_view(final(categories)@), s@.len() as int),
{
    reveal(single_line_at);
    let ghost len = s@.len() as int;
    let ghost b0 = blocks_view(blocks@);
    let ghost c0 = categories_view(categories@);
    assert(b0 + Seq::<BlockNodeView>::empty() =~= b0);
    assert(c0 + Seq::<CategoryTagView>::empty() =~= c0);
    if let Some(cat) = try_parse_category(s, line) {
        proof {
            lemma_categories_view_push(categories@, cat);
        }
        categories.push(cat);
        assert(categories_view(categories@) =~= c0 + seq![cat@]);
        assert forall|j: int| 0 <= j < categories_view(categories@).len() implies (
        #[trigger] categories_view(categories@)[j]).span.within(len) by {
            if j < c0.len() {
                assert(categories_view(categories@)[j] == c0[j]);
            }
        }
        return true;
    }
    if let Some(node) = try_parse_references(s, line) {
        push_block(
            blocks,
            BlockNode {
                span: mk_span(0, line.start, line.end),
                kind: BlockKind::References { node },
            },
            Ghost(len),
        );
        return true;
    }
    if let Some(name) = try_parse_magic_word(s, line) {
        push_block(
            blocks,
            BlockNode {
                span: mk_span(0, line.start, line.end),
                kind: BlockKind::MagicWord { name },
            },
            Ghost(len),
        );
        return true;
    }
    if is_rule(s, line) {
        push_block(
            blocks,
            BlockNode { span: mk_span(0, line.start, line.end), kind: BlockKind::HorizontalRule },
            Ghost(len),
        );
        return true;
    }
    if let Some((level, a, b)) = try_parse_heading(s, line) {
        let content = parse_inlines_in(s, a, b, 0, MAX_INLINE_DEPTH, diags);
        proof {
            lemma_inlines_within_longer(inlines_view(content@), b as int, len);
        }
        push_block(
            blocks,
            BlockNode {
                span: mk_span(0, line.start, line.end),
                kind: BlockKind::Heading { level, content },
            },
            Ghost(len),
        );
        return true;
    }
    false
}

/// Reads the tagged code block that the `i`-th line starts, and what follows
/// its closing tag as a paragraph.
#[verifier::rlimit(40)]
fn parse_code_and_tail(
    s: &[u8],
    lines: &[LineRange],
    i: usize,
    blocks: &mut Vec<BlockNode>,
    diags: &mut Vec<Diagnostic>,
) -> (r: Option<usize>)
    requires
        lines_wf(lines@, s@.len() as int),
        i < lines.len(),
        blocks_within(blocks_view(old(blocks)@), s@.len() as int),
    ensures
        match r {
            Some(next) => {
                &&& code_block_at(s@, lines@, i as int) matches Some(c)
                &&& next == c.next
                &&& i < next <= lines.len()
                &&& blocks_view(final(blocks)@) == blocks_view(old(blocks)@) + (if is_blank(
                    s@,
                    c.tail.0,
                    c.tail.1,
                ) {
                    seq![c.node]
                } else {
                    seq![c.node, paragraph(s@, c.tail.0, c.tail.1).0]
                })
                &&& diags_grow(
                    old(diags)@,
                    final(diags)@,
                    if is_blank(s@, c.tail.0, c.tail.1) {
                        c.diags
                    } else {
                        c.diags + paragraph(s@, c.tail.0, c.tail.1).1
                    },
                )
            },
            None => code_block_at(s@, lines@, i as int) is None && final(blocks)@ == old(blocks)@
                && final(diags)@ == old(diags)@,
        },
        blocks_within(blocks_view(final(blocks)@), s@.len() as int),
{
    let ghost len = s@.len() as int;
    let ghost b0 = blocks_view(blocks@);
    let ghost d0 = diagnostics_view(diags@);
    match try_parse_code_block(s, lines, i, diags) {
        Some(step) => {
            let ghost c = code_block_at(s@, lines@, i as int)->0;
            push_block(blocks, step.node, Ghost(len));
            if !blank(s, step.tail.0, step.tail.1) {
                let p = parse_paragraph(s, step.tail.0, step.tail.1, diags);
                push_block(blocks, p, Ghost(len));
                proof {
                    assert(blocks_view(blocks@) =~= b0 + seq![c.node, block_view(p)]);
                    lemma_concat_assoc(d0, c.diags, paragraph(s@, c.tail.0, c.tail.1).1);
                }
            }
            Some(step.next)
        },
        None => None,
    }
}

/// Reads the block that starts on the `i`-th line and may run over more.
#[verifier::rlimit(40)]
fn parse_multi_line(
    s: &[u8],
    lines: &[LineRange],
    i: usize,
    blocks: &mut Vec<BlockNode>,
    diags: &mut Vec<Diagnostic>,
) -> (next: usize)
    requires
        lines_wf(lines@, s@.len() as int),
        i < lines.len(),
        !line_blank(s@, lines@[i as int]),
        blocks_within(blocks_view(old(blocks)@), s@.len() as int),
    ensures
        blocks_view(final(blocks)@) == blocks_view(old(blocks)@) + multi_line_at(
            s@,
            lines@,
            i as int,
        ).blocks,
        multi_line_at(s@, lines@, i as int).categories == Seq::<CategoryTagView>::empty(),
        diags_grow(old(diags)@, final(diags)@, multi_line_at(s@, lines@, i as int).diags),
        next == multi_line_at(s@, lines@, i as int).next,
        i < next <= lines.len(),
        blocks_within(blocks_view(final(blocks)@), s@.len() as int),
{
    reveal(multi_line_at);
    let ghost len = s@.len() as int;
    let ghost b0 = blocks_view(blocks@);
    let line = lines[i];
    assert(b0 + Seq::<BlockNodeView>::empty() =~= b0);
    if is_table_start(s, line) {
        let (node, next) = parse_table_at(s, lines, i, diags);
        push_block(blocks, node, Ghost(len));
        return guard_progress(i, next, line, diags);
    }
    if let Some(next) = parse_code_and_tail(s, lines, i, blocks, diags) {
        return guard_progress(i, next, line, diags);
    }
    if is_space_line(s, line) {
        let (node, next) = parse_leading_space_block(s, lines, i);
        push_block(blocks, node, Ghost(len));
        return guard_progress(i, next, line, diags);
    }
    if is_list_line(s, line) {
        let (node, next) = parse_list_block(s, lines, i, diags);
        push_block(blocks, node, Ghost(len));
        return guard_progress(i, next, line, diags);
    }
    let e = find_paragraph_end(s, lines, i + 1);
    proof {
        crate::parse::util::lemma_lines_wf_sorted(lines@, len);
        assert(lines@[i as int].start <= lines@[e - 1].end) by {
            if i < e - 1 {
                assert(lines@[i as int].end_with_newline <= lines@[e - 1].start);
            }
        }
    }
    let p = parse_paragraph(s, line.start, lines[e - 1].end, diags);
    push_block(blocks, p, Ghost(len));
    e
}

/// Reads what the `i`-th line starts.
#[verifier::rlimit(40)]
fn parse_block(
    s: &[u8],
    lines: &[LineRange],
    i: usize,
    blocks: &mut Vec<BlockNode>,
    categories: &mut Vec<CategoryTag>,
    diags: &mut Vec<Diagnostic>,
) -> (next: usize)
    requires
        lines_wf(lines@, s@.len() as int),
        i < lines.len(),
        blocks_within(blocks_view(old(blocks)@), s@.len() as int),
        categories_within(categories_view(old(categories)@), s@.len() as int),
    ensures
        output_grows(
            old(blocks)@,
            final(blocks)@,
            old(categories)@,
            final(categories)@,
            old(diags)@,
            final(diags)@,
            block_at(s@, lines@, i as int),
        ),
        next == block_at(s@, lines@, i as int).next,
        i < next <= lines.len(),
        blocks_within(blocks_view(final(blocks)@), s@.len() as int),
        categories_within(categories_view(final(categories)@), s@.len() as int),
{
    let ghost b0 = blocks_view(blocks@);
    let ghost c0 = categories_view(categories@);
    let line = lines[i];
    assert(b0 + Seq::<BlockNodeView>::empty() =~= b0);
    assert(c0 + Seq::<CategoryTagView>::empty() =~= c0);
    if is_line_blank(s, line) {
        return i + 1;
    }
    if parse_single_line(s, line, i, blocks, categories, diags) {
        return i + 1;
    }
    parse_multi_line(s, lines, i, blocks, diags)
}

/// Reads the redirect directive, if the text starts with one.
fn parse_redirect_line(s: &[u8], lines: &[LineRange]) -> (r: (Option<Redirect>, usize))
    requires
        lines_wf(lines@, s@.len() as int),
    ensures
        match r.0 {
            Some(x) => redirect_of(s@, lines@).0 == Some(x@) && x.span.within(s@.len() as int),
            None => redirect_of(s@, lines@).0 is None,
        },
        r.1 == redirect_of(s@, lines@).1,
        r.1 <= lines.len(),
{
    let k = skip_blank_lines(s, lines, 0);
    if k < lines.len() {
        match try_parse_redirect(s, lines[k]) {
            Some(x) => (Some(x), k + 1),
            None => (None, k),
        }
    } else {
        (None, k)
    }
}

/// Parses wikitext into a document.
///
/// Every text parses: what cannot be read as markup is kept as text, and
/// what had to be repaired is told in the diagnostics. The result is the
/// document that `document_of` describes, and every span in it, down to the
/// innermost node, lies inside the text.
#[verifier::rlimit(40)]
pub fn parse_document(src: &str) -> (out: ParseOutput)
    ensures
        out.document@ == document_of(src.spec_bytes()).0,
        diagnostics_view(out.diagnostics@) == document_of(src.spec_bytes()).1,
        out.byte_len == src.spec_bytes().len(),
        document_within(out.document@, src.spec_bytes().len() as int),
{
    let s = src.as_bytes();
    let ghost len = s@.len() as int;
    let lines = collect_line_ranges(s);
    let mut diagnostics: Vec<Diagnostic> = Vec::new();
    let mut blocks: Vec<BlockNode> = Vec::new();
    let mut categories: Vec<CategoryTag> = Vec::new();
    assert(blocks_view(blocks@) =~= Seq::empty());
    assert(categories_view(categories@) =~= Seq::empty());
    assert(diagnostics_view(diagnostics@) =~= Seq::empty());
    let (redirect, start) = parse_redirect_line(s, lines.as_slice());
    let ghost goal = blocks_from(s@, lines@, start as int);
    let mut i: usize = start;
    while i < lines.len()
        invariant
            start <= i <= lines.len(),
            len == s@.len(),
            lines_wf(lines@, len),
            blocks_within(blocks_view(blocks@), len),
            categories_within(categories_view(categories@), len),
            blocks_view(blocks@) + blocks_from(s@, lines@, i as int).blocks =~= goal.blocks,
            categories_view(categories@) + blocks_from(s@, lines@, i as int).categories
                =~= goal.categories,
            diagnostics_view(diagnostics@) + blocks_from(s@, lines@, i as int).diags =~= goal.diags,
        decreases lines.len() - i,
    {
        let ghost step = block_at(s@, lines@, i as int);
        let ghost b0 = blocks_view(blocks@);
        let ghost c0 = categories_view(categories@);
        let ghost d0 = diagnostics_view(diagnostics@);
        let next = parse_block(s, lines.as_slice(), i, &mut blocks, &mut categories, &mut diagnostics);
        proof {
            let rest = blocks_from(s@, lines@, next as int);
            assert(blocks_view(blocks@) == b0 + step.blocks);
            assert(categories_view(categories@) == c0 + step.categories);
            lemma_concat_assoc(b0, step.blocks, rest.blocks);
            lemma_concat_assoc(c0, step.categories, rest.categories);
            lemma_concat_assoc(d0, step.diags, rest.diags);
        }
        i = next;
    }
    let byte_len = s.len();
    let document = Document { span: mk_span(0, 0, byte_len), blocks, categories, redirect };
    ParseOutput { document, diagnostics, byte_len }
}

} // verus!
