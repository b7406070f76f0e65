//! Checking a tree against the length of the text it was parsed from.

use crate::ast::blocks::{
    block_view, blocks_view, categories_view, cell_view, cells_view, item_view, items_view,
    row_view, rows_view, table_view, BlockKind, BlockNode, CategoryTag, Document, ListItem, Table,
    TableCell, TableRow,
};
use crate::ast::bounds::{
    attrs_within, block_within, blocks_within, categories_within, cell_within, cells_within,
    document_within, file_params_within, inline_within, inlines_within, item_within, items_within,
    row_within, rows_within, table_within, template_params_within,
};
use crate::ast::nodes::{
    attrs_view, file_params_view, inline_view, inlines_view, template_params_view, FileParam,
    HtmlAttr, InlineKind, InlineNode, TemplateParam,
};
use crate::ast::span::Span;
use vstd::prelude::*;

verus! {

/// Tells whether the span lies inside a text of `len` bytes.
pub fn check_span(span: &Span, len: usize) -> (r: bool)
    ensures
        r == span.within(len as int),
{
    span.start <= span.end && span.end <= len as u64
}

fn check_attrs(attrs: &Vec<HtmlAttr>, len: usize) -> (r: bool)
    ensures
        r == attrs_within(attrs_view(attrs@), len as int),
{
    let ghost av = attrs_view(attrs@);
    let mut k: usize = 0;
    while k < attrs.len()
        invariant
            k <= attrs.len(),
            av == attrs_view(attrs@),
            forall|i: int|
                0 <= i < k ==> match (#[trigger] av[i]).span {
                    Some(sp) => sp.within(len as int),
                    None => true,
                },
        decreases attrs.len() - k,
    {
        assert(av[k as int] == attrs@[k as int]@);
        match &attrs[k].span {
            Some(sp) => {
                if !check_span(sp, len) {
                    return false;
                }
            },
            None => {},
        }
        k = k + 1;
    }
    true
}

/// Tells whether every span of the nodes, and of what lies below them, lies
/// inside a text of `len` bytes.
pub fn check_inlines(nodes: &Vec<InlineNode>, len: usize) -> (r: bool)
    ensures
        r == inlines_within(inlines_view(nodes@), len as int),
    decreases nodes, 1int,
{
    let ghost nv = inlines_view(nodes@);
    let mut k: usize = 0;
    while k < nodes.len()
        invariant
            k <= nodes.len(),
            nv == inlines_view(nodes@),
            forall|i: int| 0 <= i < k ==> inline_within(#[trigger] nv[i], len as int),
        decreases nodes.len() - k,
    {
        assert(nv[k as int] == inline_view(nodes@[k as int]));
        if !check_inline(&nodes[k], len) {
            return false;
        }
        k = k + 1;
    }
    true
}

fn check_opt_inlines(nodes: &Option<Vec<InlineNode>>, len: usize) -> (r: bool)
    ensures
        r == (match *nodes {
            Some(t) => inlines_within(inlines_view(t@), len as int),
            None => true,
        }),
    decreases nodes, 2int,
{
    match nodes {
        Some(t) => check_inlines(t, len),
        None => true,
    }
}

fn check_inline(node: &InlineNode, len: usize) -> (r: bool)
    ensures
        r == inline_within(inline_view(*node), len as int),
    decreases node, 0int,
{
    if !check_span(&node.span, len) {
        return false;
    }
    match &node.kind {
        InlineKind::Text { .. } => true,
        InlineKind::Bold { content } => check_inlines(content, len),
        InlineKind::Italic { content } => check_inlines(content, len),
        InlineKind::BoldItalic { content } => check_inlines(content, len),
        InlineKind::InternalLink { link } => check_opt_inlines(&link.text, len),
        InlineKind::ExternalLink { link } => check_opt_inlines(&link.text, len),
        InlineKind::FileLink { link } => check_file_params(&link.params, len),
        InlineKind::LineBreak => true,
        InlineKind::Ref { node: r } => check_attrs(&r.attrs, len) && check_opt_inlines(
            &r.content,
            len,
        ),
        InlineKind::HtmlTag { node: tag } => check_attrs(&tag.attrs, len) && check_inlines(
            &tag.children,
            len,
        ),
        InlineKind::Template { node: inv } => check_template_params(&inv.params, len),
        InlineKind::Raw { .. } => true,
    }
}

fn check_file_params(params: &Vec<FileParam>, len: usize) -> (r: bool)
    ensures
        r == file_params_within(file_params_view(params@), len as int),
    decreases params, 2int,
{
    let ghost pv = file_params_view(params@);
    let mut k: usize = 0;
    while k < params.len()
        invariant
            k <= params.len(),
            pv == file_params_view(params@),
            forall|i: int|
                0 <= i < k ==> (#[trigger] pv[i]).span.within(len as int) && inlines_within(
                    pv[i].content,
                    len as int,
                ),
        decreases params.len() - k,
    {
        assert(pv[k as int].span == params@[k as int].span);
        assert(pv[k as int].content == inlines_view(params@[k as int].content@));
        if !check_span(&params[k].span, len) || !check_inlines(&params[k].content, len) {
            return false;
        }
        k = k + 1;
    }
    true
}

fn check_template_params(params: &Vec<TemplateParam>, len: usize) -> (r: bool)
    ensures
        r == template_params_within(template_params_view(params@), len as int),
    decreases params, 2int,
{
    let ghost pv = template_params_view(params@);
    let mut k: usize = 0;
    while k < params.len()
        invariant
            k <= params.len(),
            pv == template_params_view(params@),
            forall|i: int|
                0 <= i < k ==> (#[trigger] pv[i]).span.within(len as int) && inlines_within(
                    pv[i].value,
                    len as int,
                ),
        decreases params.len() - k,
    {
        assert(pv[k as int].span == params@[k as int].span);
        assert(pv[k as int].value == inlines_view(params@[k as int].value@));
        if !check_span(&params[k].span, len) || !check_inlines(&params[k].value, len) {
            return false;
        }
        k = k + 1;
    }
    true
}

/// Tells whether every span of the blocks, and of what lies below them,
/// lies inside a text of `len` bytes.
pub fn check_blocks(blocks: &Vec<BlockNode>, len: usize) -> (r: bool)
    ensures
        r == blocks_within(blocks_view(blocks@), len as int),
    decreases blocks, 1int,
{
    let ghost bv = blocks_view(blocks@);
    let mut k: usize = 0;
    while k < blocks.len()
        invariant
            k <= blocks.len(),
            bv == blocks_view(blocks@),
            forall|i: int| 0 <= i < k ==> block_within(#[trigger] bv[i], len as int),
        decreases blocks.len() - k,
    {
        assert(bv[k as int] == block_view(blocks@[k as int]));
        if !check_block(&blocks[k], len) {
            return false;
        }
        k = k + 1;
    }
    true
}

fn check_block(block: &BlockNode, len: usize) -> (r: bool)
    ensures
        r == block_within(block_view(*block), len as int),
    decreases block, 0int,
{
    if !check_span(&block.span, len) {
        return false;
    }
    match &block.kind {
        BlockKind::Heading { content, .. } => check_inlines(content, len),
        BlockKind::Paragraph { content } => check_inlines(content, len),
        BlockKind::List { items } => check_items(items, len),
        BlockKind::Table { table } => check_table(table, len),
        BlockKind::CodeBlock { .. } => true,
        BlockKind::References { node } => check_attrs(&node.attrs, len),
        BlockKind::HtmlBlock { node } => check_attrs(&node.attrs, len) && check_blocks(
            &node.children,
            len,
        ),
        BlockKind::MagicWord { .. } => true,
        BlockKind::HorizontalRule => true,
        BlockKind::BlockQuote { blocks } => check_blocks(blocks, len),
        BlockKind::Raw { .. } => true,
    }
}

fn check_items(items: &Vec<ListItem>, len: usize) -> (r: bool)
    ensures
        r == items_within(items_view(items@), len as int),
    decreases items, 2int,
{
    let ghost iv = items_view(items@);
    let mut k: usize = 0;
    while k < items.len()
        invariant
            k <= items.len(),
            iv == items_view(items@),
            forall|i: int| 0 <= i < k ==> item_within(#[trigger] iv[i], len as int),
        decreases items.len() - k,
    {
        assert(iv[k as int] == item_view(items@[k as int]));
        if !check_span(&items[k].span, len) || !check_blocks(&items[k].blocks, len) {
            return false;
        }
        k = k + 1;
    }
    true
}

fn check_cells(cells: &Vec<TableCell>, len: usize) -> (r: bool)
    ensures
        r == cells_within(cells_view(cells@), len as int),
    decreases cells, 2int,
{
    let ghost cv = cells_view(cells@);
    let mut k: usize = 0;
    while k < cells.len()
        invariant
            k <= cells.len(),
            cv == cells_view(cells@),
            forall|i: int| 0 <= i < k ==> cell_within(#[trigger] cv[i], len as int),
        decreases cells.len() - k,
    {
        assert(cv[k as int] == cell_view(cells@[k as int]));
        let c = &cells[k];
        if !check_span(&c.span, len) || !check_attrs(&c.attrs, len) || !check_blocks(
            &c.blocks,
            len,
        ) {
            return false;
        }
        k = k + 1;
    }
    true
}

fn check_rows(rows: &Vec<TableRow>, len: usize) -> (r: bool)
    ensures
        r == rows_within(rows_view(rows@), len as int),
    decreases rows, 3int,
{
    let ghost rv = rows_view(rows@);
    let mut k: usize = 0;
    while k < rows.len()
        invariant
            k <= rows.len(),
            rv == rows_view(rows@),
            forall|i: int| 0 <= i < k ==> row_within(#[trigger] rv[i], len as int),
        decreases rows.len() - k,
    {
        assert(rv[k as int] == row_view(rows@[k as int]));
        let r = &rows[k];
        if !check_span(&r.span, len) || !check_attrs(&r.attrs, len) || !check_cells(
            &r.cells,
            len,
        ) {
            return false;
        }
        k = k + 1;
    }
    true
}

fn check_table(table: &Table, len: usize) -> (r: bool)
    ensures
        r == table_within(table_view(*table), len as int),
    decreases table, 4int,
{
    if !check_attrs(&table.attrs, len) {
        return false;
    }
    let caption_ok = match &table.caption {
        Some(c) => check_span(&c.span, len) && check_attrs(&c.attrs, len) && check_inlines(
            &c.content,
            len,
        ),
        None => true,
    };
    caption_ok && check_rows(&table.rows, len)
}

fn check_categories(cats: &Vec<CategoryTag>, len: usize) -> (r: bool)
    ensures
        r == categories_within(categories_view(cats@), len as int),
{
    let ghost cv = categories_view(cats@);
    let mut k: usize = 0;
    while k < cats.len()
        invariant
            k <= cats.len(),
            cv == categories_view(cats@),
            forall|i: int| 0 <= i < k ==> (#[trigger] cv[i]).span.within(len as int),
        decreases cats.len() - k,
    {
        assert(cv[k as int] == cats@[k as int]@);
        if !check_span(&cats[k].span, len) {
            return false;
        }
        k = k + 1;
    }
    true
}

/// Tells whether every span of the document lies inside a text of
/// `src_len` bytes.
pub fn validate_document(doc: &Document, src_len: usize) -> (r: bool)
    ensures
        r == document_within(doc@, src_len as int),
{
    let redirect_ok = match &doc.redirect {
        Some(x) => check_span(&x.span, src_len),
        None => true,
    };
    check_span(&doc.span, src_len) && check_categories(&doc.categories, src_len) && redirect_ok
        && check_blocks(&doc.blocks, src_len)
}

} // verus!
