//! Tree to Markdown.
//!
//! `document_md` says what a document renders to; `render_doc_with_options`
//! computes it. Rendering reads the tree only, never the source text.

pub mod block;
pub mod inline;
pub mod options;

use crate::ast::blocks::{
    block_view, blocks_view, BlockKind, BlockKindView, BlockNode, BlockNodeView, Document,
};
use crate::emit::{push_bytes, push_str};
use crate::parse::inline::lit;
use crate::render::block::{
    block_is_standalone_image_paragraph, block_md, references_md, render_block, render_references,
    standalone_image,
};
use crate::render::inline::{inlines_md, render_inlines, trimmed, trimmed_copy, Out, RenderContext};
use crate::render::options::RenderOptionsView;
use crate::text::{eq_ci, equals_ci, decoded, string_from_bytes, CR, NL, SPACE, TAB};
use vstd::prelude::*;
use vstd::string::*;

pub use options::RenderOptions;

verus! {

/// The block is a heading whose title is `References`, in any letter case.
pub open spec fn named_references(b: BlockNodeView, o: RenderOptionsView) -> bool {
    match b.kind {
        BlockKindView::Heading { content, .. } => {
            let t = trimmed(inlines_md(content, 0, o, Seq::empty(), Seq::empty()).text);
            equals_ci(t, 0, t.len() as int, lit("references"))
        },
        _ => false,
    }
}

/// The block is a paragraph that is rendered as an image.
pub open spec fn image_paragraph(b: BlockNodeView, o: RenderOptionsView) -> bool {
    o.render_file_links_as_images && match b.kind {
        BlockKindView::Paragraph { content } => standalone_image(content) is Some,
        _ => false,
    }
}

/// What the `k`-th block of a document renders to. A references block shows
/// the footnotes gathered so far, under a heading of its own unless the
/// block before it is a heading named `References`.
pub open spec fn top_block_md(
    blocks: Seq<BlockNodeView>,
    k: int,
    o: RenderOptionsView,
    refs: Seq<Seq<u8>>,
) -> Out {
    if blocks[k].kind is References {
        Out {
            text: references_md(refs, o, !(k > 0 && named_references(blocks[k - 1], o))),
            refs,
        }
    } else {
        block_md(blocks[k], o, refs)
    }
}

/// The document from its `k`-th block on, appended to `out`. Blocks are
/// separated by a blank line; the first image that stands before any
/// heading is followed by a horizontal rule.
pub open spec fn doc_md(
    blocks: Seq<BlockNodeView>,
    k: int,
    o: RenderOptionsView,
    out: Seq<u8>,
    refs: Seq<Seq<u8>>,
    ruled: bool,
    seen_heading: bool,
) -> Seq<u8>
    decreases blocks.len() - k,
{
    if k < 0 || k >= blocks.len() {
        out
    } else {
        let top = !seen_heading && o.insert_hr_after_top_image && !ruled && image_paragraph(
            blocks[k],
            o,
        );
        let r = top_block_md(blocks, k, o, refs);
        doc_md(
            blocks,
            k + 1,
            o,
            doc_piece(out, r.text, top),
            r.refs,
            ruled || top,
            seen_heading || blocks[k].kind is Heading,
        )
    }
}

/// `out` with one more rendered block.
pub open spec fn doc_piece(out: Seq<u8>, text: Seq<u8>, top: bool) -> Seq<u8> {
    (if out.len() > 0 {
        out + lit("\n\n")
    } else {
        out
    }) + text + (if top {
        lit("\n\n---")
    } else {
        Seq::empty()
    })
}

/// The end of `s` without trailing newlines, spaces, tabs and carriage
/// returns.
pub open spec fn text_end(s: Seq<u8>, n: int) -> int
    decreases n,
{
    if 0 < n <= s.len() && (s[n - 1] == NL || s[n - 1] == SPACE || s[n - 1] == TAB || s[n - 1]
        == CR) {
        text_end(s, n - 1)
    } else {
        n
    }
}

/// The Markdown that a document renders to.
pub open spec fn document_md(blocks: Seq<BlockNodeView>, o: RenderOptionsView) -> Seq<u8> {
    let all = doc_md(blocks, 0, o, Seq::empty(), Seq::empty(), false, false);
    all.subrange(0, text_end(all, all.len() as int))
}

/// Tells whether the block is a heading named `References`.
pub fn heading_is_named_references(block: &BlockNode, opts: &RenderOptions) -> (r: bool)
    ensures
        r == named_references(block_view(*block), opts@),
{
    match &block.kind {
        BlockKind::Heading { content, .. } => {
            let mut dummy = RenderContext { refs: Vec::new() };
            assert(dummy@ =~= Seq::empty());
            let title = render_inlines(content, 0, &mut dummy, opts);
            let t = trimmed_copy(title.as_slice());
            eq_ci(t.as_slice(), 0, t.len(), "references".as_bytes())
        },
        _ => false,
    }
}

/// Renders the `k`-th block of a document.
fn render_top_block(blocks: &Vec<BlockNode>, k: usize, ctx: &mut RenderContext, opts: &RenderOptions)
    -> (out: Vec<u8>)
    requires
        k < blocks@.len(),
    ensures
        out@ == top_block_md(blocks_view(blocks@), k as int, opts@, old(ctx)@).text,
        final(ctx)@ == top_block_md(blocks_view(blocks@), k as int, opts@, old(ctx)@).refs,
{
    let ghost bv = blocks_view(blocks@);
    assert(bv[k as int] == block_view(blocks@[k as int]));
    let is_refs = match &blocks[k].kind {
        BlockKind::References { .. } => true,
        _ => false,
    };
    if is_refs {
        let after_heading = if k > 0 {
            assert(bv[k - 1] == block_view(blocks@[k - 1]));
            heading_is_named_references(&blocks[k - 1], opts)
        } else {
            false
        };
        render_references(ctx, opts, !after_heading)
    } else {
        render_block(&blocks[k], ctx, opts)
    }
}

/// Appends a rendered block to the document.
fn push_doc_piece(out: &mut Vec<u8>, text: &Vec<u8>, top: bool)
    ensures
        final(out)@ == doc_piece(old(out)@, text@, top),
{
    if out.len() > 0 {
        push_str(out, "\n\n");
    }
    push_bytes(out, text.as_slice());
    if top {
        push_str(out, "\n\n---");
    }
    assert(out@ =~= doc_piece(old(out)@, text@, top));
}

/// Renders a document to Markdown bytes.
pub fn render_doc_bytes(doc: &Document, opts: &RenderOptions) -> (out: Vec<u8>)
    ensures
        out@ == document_md(blocks_view(doc.blocks@), opts@),
{
    let ghost bv = blocks_view(doc.blocks@);
    let mut ctx = RenderContext { refs: Vec::new() };
    assert(ctx@ =~= Seq::empty());
    let mut out: Vec<u8> = Vec::new();
    let mut ruled = false;
    let mut seen_heading = false;
    let ghost goal = doc_md(bv, 0, opts@, Seq::empty(), Seq::empty(), false, false);
    let mut k: usize = 0;
    while k < doc.blocks.len()
        invariant
            k <= doc.blocks.len(),
            bv == blocks_view(doc.blocks@),
            doc_md(bv, k as int, opts@, out@, ctx@, ruled, seen_heading) == goal,
        decreases doc.blocks.len() - k,
    {
        let block = &doc.blocks[k];
        assert(bv[k as int] == block_view(*block));
        let top = !seen_heading && opts.insert_hr_after_top_image && !ruled
            && block_is_standalone_image_paragraph(block, opts);
        let text = render_top_block(&doc.blocks, k, &mut ctx, opts);
        push_doc_piece(&mut out, &text, top);
        if top {
            ruled = true;
        }
        match &block.kind {
            BlockKind::Heading { .. } => {
                seen_heading = true;
            },
            _ => {},
        }
        k = k + 1;
    }
    let ghost all = out@;
    loop
        invariant
            out@.len() <= all.len(),
            out@ == all.subrange(0, out@.len() as int),
            text_end(all, out@.len() as int) == text_end(all, all.len() as int),
        ensures
            out@ == all.subrange(0, text_end(all, all.len() as int)),
        decreases out@.len(),
    {
        let n: usize = out.len();
        if n == 0 {
            break ;
        }
        let last = out[n - 1];
        if !(last == NL || last == SPACE || last == TAB || last == CR) {
            break ;
        }
        out.pop();
        assert(out@ =~= all.subrange(0, n - 1));
    }
    out
}

/// Renders a document to Markdown.
pub fn render_doc_with_options(doc: &Document, opts: &RenderOptions) -> (md: String)
    ensures
        md@ == decoded(document_md(blocks_view(doc.blocks@), opts@)),
{
    let out = render_doc_bytes(doc, opts);
    string_from_bytes(out.as_slice())
}

/// Renders a document to Markdown with the default options.
pub fn render_doc(doc: &Document) -> (md: String)
    ensures
        md@ == decoded(
            document_md(blocks_view(doc.blocks@), crate::render::options::default_options()),
        ),
{
    let opts = RenderOptions::default();
    render_doc_with_options(doc, &opts)
}

} // verus!
