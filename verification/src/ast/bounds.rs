//! Span validity: every span of a tree lies inside the text it was parsed
//! from.

use crate::ast::blocks::{
    BlockKindView, BlockNodeView, CategoryTagView, DocumentView, ListItemView, TableCellView,
    TableRowView, TableView,
};
use crate::ast::nodes::{
    FileParamView, HtmlAttrView, InlineKindView, InlineNodeView, TemplateParamView,
};
use vstd::prelude::*;

verus! {

/// Every attribute that carries a span has it inside a text of `len` bytes.
pub open spec fn attrs_within(s: Seq<HtmlAttrView>, len: int) -> bool {
    forall|i: int|
        0 <= i < s.len() ==> match (#[trigger] s[i]).span {
            Some(sp) => sp.within(len),
            None => true,
        }
}

/// The node's span, and every span below it, lies inside a text of `len`
/// bytes.
pub open spec fn inline_within(n: InlineNodeView, len: int) -> bool
    decreases n,
{
    &&& n.span.within(len)
    &&& match n.kind {
        InlineKindView::Text { .. } => true,
        InlineKindView::Bold { content } => inlines_within(content, len),
        InlineKindView::Italic { content } => inlines_within(content, len),
        InlineKindView::BoldItalic { content } => inlines_within(content, len),
        InlineKindView::InternalLink { text, .. } => match text {
            Some(t) => inlines_within(t, len),
            None => true,
        },
        InlineKindView::ExternalLink { text, .. } => match text {
            Some(t) => inlines_within(t, len),
            None => true,
        },
        InlineKindView::FileLink { params, .. } => file_params_within(params, len),
        InlineKindView::LineBreak => true,
        InlineKindView::Ref { attrs, content, .. } => attrs_within(attrs, len) && match content {
            Some(t) => inlines_within(t, len),
            None => true,
        },
        InlineKindView::HtmlTag { attrs, children, .. } => attrs_within(attrs, len)
            && inlines_within(children, len),
        InlineKindView::Template { params, .. } => template_params_within(params, len),
        InlineKindView::Raw { .. } => true,
    }
}

pub open spec fn inlines_within(s: Seq<InlineNodeView>, len: int) -> bool
    decreases s,
{
    forall|i: int| 0 <= i < s.len() ==> inline_within(#[trigger] s[i], len)
}

pub open spec fn file_params_within(s: Seq<FileParamView>, len: int) -> bool
    decreases s,
{
    forall|i: int|
        0 <= i < s.len() ==> (#[trigger] s[i]).span.within(len) && inlines_within(
            s[i].content,
            len,
        )
}

pub open spec fn template_params_within(s: Seq<TemplateParamView>, len: int) -> bool
    decreases s,
{
    forall|i: int|
        0 <= i < s.len() ==> (#[trigger] s[i]).span.within(len) && inlines_within(
            s[i].value,
            len,
        )
}

pub open spec fn block_within(b: BlockNodeView, len: int) -> bool
    decreases b,
{
    &&& b.span.within(len)
    &&& match b.kind {
        BlockKindView::Heading { content, .. } => inlines_within(content, len),
        BlockKindView::Paragraph { content } => inlines_within(content, len),
        BlockKindView::List { items } => items_within(items, len),
        BlockKindView::Table { table } => table_within(table, len),
        BlockKindView::CodeBlock { .. } => true,
        BlockKindView::References { attrs } => attrs_within(attrs, len),
        BlockKindView::HtmlBlock { attrs, children, .. } => attrs_within(attrs, len)
            && blocks_within(children, len),
        BlockKindView::MagicWord { .. } => true,
        BlockKindView::HorizontalRule => true,
        BlockKindView::BlockQuote { blocks } => blocks_within(blocks, len),
        BlockKindView::Raw { .. } => true,
    }
}

pub open spec fn blocks_within(s: Seq<BlockNodeView>, len: int) -> bool
    decreases s,
{
    forall|i: int| 0 <= i < s.len() ==> block_within(#[trigger] s[i], len)
}

pub open spec fn item_within(it: ListItemView, len: int) -> bool
    decreases it,
{
    it.span.within(len) && blocks_within(it.blocks, len)
}

pub open spec fn items_within(s: Seq<ListItemView>, len: int) -> bool
    decreases s,
{
    forall|i: int| 0 <= i < s.len() ==> item_within(#[trigger] s[i], len)
}

pub open spec fn cell_within(c: TableCellView, len: int) -> bool
    decreases c,
{
    c.span.within(len) && attrs_within(c.attrs, len) && blocks_within(c.blocks, len)
}

pub open spec fn cells_within(s: Seq<TableCellView>, len: int) -> bool
    decreases s,
{
    forall|i: int| 0 <= i < s.len() ==> cell_within(#[trigger] s[i], len)
}

pub open spec fn row_within(r: TableRowView, len: int) -> bool
    decreases r,
{
    r.span.within(len) && attrs_within(r.attrs, len) && cells_within(r.cells, len)
}

pub open spec fn rows_within(s: Seq<TableRowView>, len: int) -> bool
    decreases s,
{
    forall|i: int| 0 <= i < s.len() ==> row_within(#[trigger] s[i], len)
}

pub open spec fn table_within(t: TableView, len: int) -> bool
    decreases t,
{
    &&& attrs_within(t.attrs, len)
    &&& match t.caption {
        Some(c) => c.span.within(len) && attrs_within(c.attrs, len) && inlines_within(
            c.content,
            len,
        ),
        None => true,
    }
    &&& rows_within(t.rows, len)
}

pub open spec fn categories_within(s: Seq<CategoryTagView>, len: int) -> bool {
    forall|i: int| 0 <= i < s.len() ==> (#[trigger] s[i]).span.within(len)
}

/// Every span of the document lies inside a text of `len` bytes: the
/// document's own, those of its categories and redirect, and those of every
/// block, list item, table part, inline node, parameter and attribute below.
pub open spec fn document_within(d: DocumentView, len: int) -> bool {
    &&& d.span.within(len)
    &&& categories_within(d.categories, len)
    &&& match d.redirect {
        Some(r) => r.span.within(len),
        None => true,
    }
    &&& blocks_within(d.blocks, len)
}

/// A tree that lies inside a text lies inside every longer one.
pub proof fn lemma_inlines_within_longer(s: Seq<InlineNodeView>, len: int, longer: int)
    requires
        inlines_within(s, len),
        len <= longer,
    ensures
        inlines_within(s, longer),
    decreases s,
{
    assert forall|i: int| 0 <= i < s.len() implies inline_within(#[trigger] s[i], longer) by {
        lemma_inline_within_longer(s[i], len, longer);
    }
}

pub proof fn lemma_inline_within_longer(n: InlineNodeView, len: int, longer: int)
    requires
        inline_within(n, len),
        len <= longer,
    ensures
        inline_within(n, longer),
    decreases n,
{
    match n.kind {
        InlineKindView::Bold { content } => lemma_inlines_within_longer(content, len, longer),
        InlineKindView::Italic { content } => lemma_inlines_within_longer(content, len, longer),
        InlineKindView::BoldItalic { content } => lemma_inlines_within_longer(
            content,
            len,
            longer,
        ),
        InlineKindView::InternalLink { text, .. } => match text {
            Some(t) => lemma_inlines_within_longer(t, len, longer),
            None => {},
        },
        InlineKindView::ExternalLink { text, .. } => match text {
            Some(t) => lemma_inlines_within_longer(t, len, longer),
            None => {},
        },
        InlineKindView::FileLink { params, .. } => {
            assert forall|i: int| 0 <= i < params.len() implies (#[trigger] params[i]).span.within(
                longer,
            ) && inlines_within(params[i].content, longer) by {
                lemma_inlines_within_longer(params[i].content, len, longer);
            }
        },
        InlineKindView::Ref { attrs, content, .. } => match content {
            Some(t) => lemma_inlines_within_longer(t, len, longer),
            None => {},
        },
        InlineKindView::HtmlTag { attrs, children, .. } => lemma_inlines_within_longer(
            children,
            len,
            longer,
        ),
        InlineKindView::Template { params, .. } => {
            assert forall|i: int| 0 <= i < params.len() implies (#[trigger] params[i]).span.within(
                longer,
            ) && inlines_within(params[i].value, longer) by {
                lemma_inlines_within_longer(params[i].value, len, longer);
            }
        },
        _ => {},
    }
}

} // verus!
